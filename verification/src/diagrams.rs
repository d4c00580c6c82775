//! Deterministic index diagram builders.
//!
//! Builds sanitized Mermaid for index maps from the module inventory: a
//! module flowchart, a system map with edges, and a learning path. Every
//! diagram goes through `sanitize_mermaid`; one that still fails
//! `validate_mermaid` is replaced by a stub.

use vstd::prelude::*;

use crate::mermaid::{label_text, mermaid_text, node_id_text, validate_issues};
use crate::module::{key_views, ModuleCount, ModuleKey};
use crate::text::{chars_of, decimal, push_all, push_str, string_of};

verus! {

broadcast use vstd::string::group_string_axioms;

/// A directed edge between two module keys (for system maps).
#[derive(Clone, Debug, PartialEq, Eq)]
pub struct DiagramEdge {
    /// Source module key (e.g. `apps/alpha`).
    pub from: String,
    /// Target module key.
    pub to: String,
    /// Optional edge label (sanitized when rendered).
    pub label: Option<String>,
}

/// The stub drawn when a diagram cannot be made valid.
pub open spec fn stub_diagram() -> Seq<char> {
    "flowchart TD\n  X0[Diagram unavailable]\n"@
}

/// What every builder returns for the body it assembled.
pub open spec fn finalized(raw: Seq<char>) -> Seq<char> {
    let s = mermaid_text(raw);
    if validate_issues(s).len() == 0 {
        s
    } else {
        mermaid_text(stub_diagram())
    }
}

fn finalize_diagram(raw: &[char]) -> (r: String)
    ensures
        r@ == finalized(raw@),
        validate_issues(r@).len() == 0,
{
    proof {
        lemma_finalized_valid(raw@);
    }
    let s = crate::mermaid::sanitize_mermaid_chars(raw);
    proof {
        crate::text::lemma_trim_idempotent(s@);
    }
    if crate::mermaid::valid_after_sanitize(raw) {
        string_of(&s)
    } else {
        let stub = chars_of("flowchart TD\n  X0[Diagram unavailable]\n");
        let t = crate::mermaid::sanitize_mermaid_chars(&stub);
        string_of(&t)
    }
}

/// Readable label for a module key: `root` for `_root`, else the key with
/// `/` turned into spaces; sanitized either way.
pub open spec fn module_label(key: Seq<char>) -> Seq<char> {
    if key == "_root"@ {
        label_text("root"@)
    } else {
        label_text(crate::text::replace(key, "/"@, " "@))
    }
}

fn display_module_label(key: &[char]) -> (r: Vec<char>)
    ensures
        r@ == module_label(key@),
{
    if crate::text::eq_str(key, "_root") {
        let v = chars_of("root");
        crate::mermaid::sanitize_label_chars(&v)
    } else {
        proof {
            reveal_strlit("/");
        }
        let r = crate::text::replace_str(key, "/", " ");
        crate::mermaid::sanitize_label_chars(&r)
    }
}

fn node_id_chars(prefix: &str, i: usize) -> (r: Vec<char>)
    ensures
        r@ == node_id_text(prefix@, i as nat),
{
    let s = crate::mermaid::stable_node_id(prefix, i);
    chars_of(s.as_str())
}

// ---------------------------------------------------------------------------
// module inventory
// ---------------------------------------------------------------------------

/// Node and edge lines for the inventory keys.
pub open spec fn inventory_lines(keys: Seq<Seq<char>>) -> Seq<char>
    decreases keys.len(),
{
    if keys.len() == 0 {
        Seq::empty()
    } else {
        let i = keys.len() - 1;
        let id = node_id_text("M"@, i as nat);
        inventory_lines(keys.drop_last()) + "  "@ + id + "["@ + module_label(keys.last()) + "]\n"@
            + "  ROOT --> "@ + id + "\n"@
    }
}

/// The body of the module inventory flowchart.
pub open spec fn inventory_body(keys: Seq<Seq<char>>) -> Seq<char> {
    "flowchart TD\n"@ + "  ROOT[Repository]\n"@ + inventory_lines(keys)
}

/// Build a module inventory flowchart: a `ROOT` node and one node per key
/// (ids `M0`, `M1`, ... in the given order), each linked from `ROOT`.
pub fn module_inventory_flowchart(modules: &[ModuleKey]) -> (r: String)
    ensures
        r@ == finalized(inventory_body(key_views(modules@))),
        validate_issues(r@).len() == 0,
{
    let mut body: Vec<char> = Vec::new();
    push_str(&mut body, "flowchart TD\n");
    push_str(&mut body, "  ROOT[Repository]\n");
    let ghost head = body@;
    let ghost ks = key_views(modules@);
    let mut i: usize = 0;
    while i < modules.len()
        invariant
            i <= modules@.len(),
            ks == key_views(modules@),
            head == "flowchart TD\n"@ + "  ROOT[Repository]\n"@,
            body@ == head + inventory_lines(ks.take(i as int)),
        decreases modules.len() - i,
    {
        assert(ks.take(i + 1).drop_last() =~= ks.take(i as int));
        assert(ks[i as int] == modules@[i as int]@);
        let id = node_id_chars("M", i);
        let label = display_module_label(&modules[i].chars());
        push_str(&mut body, "  ");
        push_all(&mut body, &id);
        push_str(&mut body, "[");
        push_all(&mut body, &label);
        push_str(&mut body, "]\n");
        push_str(&mut body, "  ROOT --> ");
        push_all(&mut body, &id);
        push_str(&mut body, "\n");
        assert(body@ =~= head + inventory_lines(ks.take(i + 1)));
        i = i + 1;
    }
    assert(ks.take(modules@.len() as int) =~= ks);
    finalize_diagram(&body)
}

/// Build a module inventory flowchart from module counts (keys only).
pub fn module_inventory_from_counts(modules: &[ModuleCount]) -> (r: String)
    ensures
        r@ == finalized(inventory_body(modules@.map_values(|m: ModuleCount| m.key@))),
        validate_issues(r@).len() == 0,
{
    let mut keys: Vec<ModuleKey> = Vec::new();
    let mut i: usize = 0;
    while i < modules.len()
        invariant
            i <= modules@.len(),
            key_views(keys@) == modules@.take(i as int).map_values(|m: ModuleCount| m.key@),
        decreases modules.len() - i,
    {
        let ghost before = keys@;
        let k = modules[i].key.duplicate();
        keys.push(k);
        assert(key_views(keys@) =~= key_views(before).push(modules@[i as int].key@));
        assert(modules@.take(i + 1).map_values(|m: ModuleCount| m.key@) =~= modules@.take(
            i as int,
        ).map_values(|m: ModuleCount| m.key@).push(modules@[i as int].key@));
        i = i + 1;
    }
    assert(modules@.take(modules@.len() as int) =~= modules@);
    module_inventory_flowchart(&keys)
}

// ---------------------------------------------------------------------------
// system map
// ---------------------------------------------------------------------------

/// `keys` with `k` appended unless it is already there.
pub open spec fn add_key(keys: Seq<Seq<char>>, k: Seq<char>) -> Seq<Seq<char>> {
    if keys.contains(k) {
        keys
    } else {
        keys.push(k)
    }
}

/// Node keys: the modules in order, then edge endpoints not yet present.
pub open spec fn system_keys(modules: Seq<Seq<char>>, edges: Seq<DiagramEdge>) -> Seq<Seq<char>>
    decreases edges.len(),
{
    if edges.len() == 0 {
        modules
    } else {
        let e = edges.last();
        add_key(add_key(system_keys(modules, edges.drop_last()), e.from@), e.to@)
    }
}

/// Index of the last occurrence of `k` in `keys`.
pub open spec fn last_index(keys: Seq<Seq<char>>, k: Seq<char>) -> Option<int>
    decreases keys.len(),
{
    if keys.len() == 0 {
        None
    } else if keys.last() == k {
        Some(keys.len() - 1)
    } else {
        last_index(keys.drop_last(), k)
    }
}

/// Node id of key `k` (`X{fallback}` when it has no node).
pub open spec fn system_id(keys: Seq<Seq<char>>, k: Seq<char>, fallback: nat) -> Seq<char> {
    match last_index(keys, k) {
        Some(i) => node_id_text("N"@, i as nat),
        None => node_id_text("X"@, fallback),
    }
}

/// Node lines of the system map.
pub open spec fn system_node_lines(keys: Seq<Seq<char>>) -> Seq<char>
    decreases keys.len(),
{
    if keys.len() == 0 {
        Seq::empty()
    } else {
        system_node_lines(keys.drop_last()) + "  "@ + node_id_text("N"@, (keys.len() - 1) as nat)
            + "["@ + module_label(keys.last()) + "]\n"@
    }
}

/// One edge line.
pub open spec fn edge_line(keys: Seq<Seq<char>>, e: DiagramEdge) -> Seq<char> {
    let from = system_id(keys, e.from@, 0);
    let to = system_id(keys, e.to@, 1);
    match e.label {
        Some(l) => if l@.len() > 0 {
            "  "@ + from + " -->|"@ + label_text(l@) + "| "@ + to + "\n"@
        } else {
            "  "@ + from + " --> "@ + to + "\n"@
        },
        None => "  "@ + from + " --> "@ + to + "\n"@,
    }
}

/// Edge lines of the system map.
pub open spec fn edge_lines(keys: Seq<Seq<char>>, edges: Seq<DiagramEdge>) -> Seq<char>
    decreases edges.len(),
{
    if edges.len() == 0 {
        Seq::empty()
    } else {
        edge_lines(keys, edges.drop_last()) + edge_line(keys, edges.last())
    }
}

/// The body of the system map flowchart.
pub open spec fn system_body(modules: Seq<Seq<char>>, edges: Seq<DiagramEdge>) -> Seq<char> {
    let keys = system_keys(modules, edges);
    "flowchart LR\n"@ + system_node_lines(keys) + edge_lines(keys, edges)
}

fn add_key_exec(keys: &mut Vec<Vec<char>>, k: &[char])
    ensures
        crate::text::views(final(keys)@) == add_key(crate::text::views(old(keys)@), k@),
{
    let ghost vs = crate::text::views(keys@);
    let mut j: usize = 0;
    while j < keys.len()
        invariant
            j <= keys@.len(),
            vs == crate::text::views(keys@),
            forall|q: int| 0 <= q < j ==> vs[q] != k@,
        decreases keys.len() - j,
    {
        assert(vs[j as int] == keys@[j as int]@);
        if crate::text::eq_chars(&keys[j], k) {
            assert(vs.contains(k@));
            return;
        }
        j = j + 1;
    }
    assert(!vs.contains(k@));
    let c = crate::text::slice_chars(k, 0, k.len());
    assert(c@ =~= k@);
    keys.push(c);
    assert(crate::text::views(keys@) =~= vs.push(k@));
}

fn system_id_exec(keys: &Vec<Vec<char>>, k: &[char], fallback: usize) -> (r: Vec<char>)
    ensures
        r@ == system_id(crate::text::views(keys@), k@, fallback as nat),
{
    let ghost vs = crate::text::views(keys@);
    let mut j = keys.len();
    assert(vs.take(j as int) =~= vs);
    while j > 0 && !crate::text::eq_chars(&keys[j - 1], k)
        invariant
            j <= keys@.len(),
            vs == crate::text::views(keys@),
            last_index(vs, k@) == last_index(vs.take(j as int), k@),
        decreases j,
    {
        assert(vs.take(j as int).drop_last() =~= vs.take(j - 1));
        assert(vs.take(j as int).last() == keys@[j - 1]@);
        j = j - 1;
    }
    if j == 0 {
        assert(vs.take(0) =~= Seq::<Seq<char>>::empty());
        node_id_chars("X", fallback)
    } else {
        assert(vs.take(j as int).last() == keys@[j - 1]@);
        node_id_chars("N", j - 1)
    }
}

/// Build a system map flowchart: a node per module and per edge endpoint
/// (ids `N0`, `N1`, ... in order of first appearance), then one arrow per
/// edge, labelled when the edge has a non-empty label.
pub fn system_map_flowchart(modules: &[ModuleKey], edges: &[DiagramEdge]) -> (r: String)
    ensures
        r@ == finalized(system_body(key_views(modules@), edges@)),
        validate_issues(r@).len() == 0,
{
    let mut keys: Vec<Vec<char>> = Vec::new();
    let mut i: usize = 0;
    while i < modules.len()
        invariant
            i <= modules@.len(),
            crate::text::views(keys@) == key_views(modules@.take(i as int)),
        decreases modules.len() - i,
    {
        let ghost before = keys@;
        let c = modules[i].chars();
        keys.push(c);
        assert(crate::text::views(keys@) =~= crate::text::views(before).push(modules@[i as int]@));
        assert(key_views(modules@.take(i + 1)) =~= key_views(modules@.take(i as int)).push(
            modules@[i as int]@,
        ));
        i = i + 1;
    }
    assert(modules@.take(modules@.len() as int) =~= modules@);
    let ghost mk = key_views(modules@);
    let mut e: usize = 0;
    while e < edges.len()
        invariant
            e <= edges@.len(),
            crate::text::views(keys@) == system_keys(mk, edges@.take(e as int)),
        decreases edges.len() - e,
    {
        assert(edges@.take(e + 1).drop_last() =~= edges@.take(e as int));
        add_key_exec(&mut keys, &chars_of(edges[e].from.as_str()));
        add_key_exec(&mut keys, &chars_of(edges[e].to.as_str()));
        e = e + 1;
    }
    assert(edges@.take(edges@.len() as int) =~= edges@);
    let ghost ks = crate::text::views(keys@);
    let mut body: Vec<char> = Vec::new();
    push_str(&mut body, "flowchart LR\n");
    let ghost head = body@;
    let mut k: usize = 0;
    while k < keys.len()
        invariant
            k <= keys@.len(),
            ks == crate::text::views(keys@),
            body@ == head + system_node_lines(ks.take(k as int)),
        decreases keys.len() - k,
    {
        assert(ks.take(k + 1).drop_last() =~= ks.take(k as int));
        assert(ks[k as int] == keys@[k as int]@);
        let id = node_id_chars("N", k);
        let label = display_module_label(&keys[k]);
        push_str(&mut body, "  ");
        push_all(&mut body, &id);
        push_str(&mut body, "[");
        push_all(&mut body, &label);
        push_str(&mut body, "]\n");
        assert(body@ =~= head + system_node_lines(ks.take(k + 1)));
        k = k + 1;
    }
    assert(ks.take(keys@.len() as int) =~= ks);
    let ghost mid = body@;
    let mut e: usize = 0;
    while e < edges.len()
        invariant
            e <= edges@.len(),
            ks == crate::text::views(keys@),
            body@ == mid + edge_lines(ks, edges@.take(e as int)),
        decreases edges.len() - e,
    {
        assert(edges@.take(e + 1).drop_last() =~= edges@.take(e as int));
        let edge = &edges[e];
        let from = system_id_exec(&keys, &chars_of(edge.from.as_str()), 0);
        let to = system_id_exec(&keys, &chars_of(edge.to.as_str()), 1);
        let mut line: Vec<char> = Vec::new();
        push_str(&mut line, "  ");
        push_all(&mut line, &from);
        match &edge.label {
            Some(l) => {
                let lc = chars_of(l.as_str());
                if lc.len() > 0 {
                    push_str(&mut line, " -->|");
                    let lab = crate::mermaid::sanitize_label_chars(&lc);
                    push_all(&mut line, &lab);
                    push_str(&mut line, "| ");
                } else {
                    push_str(&mut line, " --> ");
                }
            },
            None => {
                push_str(&mut line, " --> ");
            },
        }
        push_all(&mut line, &to);
        push_str(&mut line, "\n");
        assert(line@ =~= edge_line(ks, edges@[e as int]));
        push_all(&mut body, &line);
        assert(body@ =~= mid + edge_lines(ks, edges@.take(e + 1)));
        e = e + 1;
    }
    assert(edges@.take(edges@.len() as int) =~= edges@);
    assert(body@ =~= system_body(mk, edges@));
    finalize_diagram(&body)
}

/// The arrow between two node ids for an edge labelled `label`.
pub open spec fn edge_arrow(label: Option<String>) -> Seq<char> {
    match label {
        Some(l) => if l@.len() > 0 {
            " -->|"@ + label_text(l@) + "| "@
        } else {
            " --> "@
        },
        None => " --> "@,
    }
}

/// Adding a key keeps every key and holds the new one.
proof fn lemma_add_key(keys: Seq<Seq<char>>, k: Seq<char>)
    ensures
        add_key(keys, k).contains(k),
        forall|x: Seq<char>| keys.contains(x) ==> add_key(keys, k).contains(x),
        add_key(keys, k).len() >= keys.len(),
        forall|p: int| 0 <= p < keys.len() ==> add_key(keys, k)[p] == keys[p],
{
    if !keys.contains(k) {
        assert(keys.push(k)[keys.len() as int] == k);
        assert forall|x: Seq<char>| keys.contains(x) implies add_key(keys, k).contains(x) by {
            let p = choose|p: int| 0 <= p < keys.len() && keys[p] == x;
            assert(keys.push(k)[p] == x);
        }
    }
}

/// Both ends of every edge are node keys of the system map.
proof fn lemma_system_keys_hold(modules: Seq<Seq<char>>, edges: Seq<DiagramEdge>, i: int)
    requires
        0 <= i < edges.len(),
    ensures
        system_keys(modules, edges).contains(edges[i].from@),
        system_keys(modules, edges).contains(edges[i].to@),
    decreases edges.len(),
{
    let prev = system_keys(modules, edges.drop_last());
    let e = edges.last();
    lemma_add_key(prev, e.from@);
    lemma_add_key(add_key(prev, e.from@), e.to@);
    if i < edges.len() - 1 {
        lemma_system_keys_hold(modules, edges.drop_last(), i);
        assert(edges.drop_last()[i] == edges[i]);
    }
}

/// A key that is present has a last index, which holds it.
proof fn lemma_last_index(keys: Seq<Seq<char>>, k: Seq<char>)
    requires
        keys.contains(k),
    ensures
        last_index(keys, k) matches Some(p) && 0 <= p < keys.len() && keys[p] == k,
    decreases keys.len(),
{
    if keys.last() != k {
        let p = choose|p: int| 0 <= p < keys.len() && keys[p] == k;
        assert(p != keys.len() - 1);
        assert(keys.drop_last()[p] == k);
        lemma_last_index(keys.drop_last(), k);
    }
}

/// The edge lines hold the line of each edge.
proof fn lemma_edge_lines_hold(keys: Seq<Seq<char>>, edges: Seq<DiagramEdge>, i: int) -> (a: int)
    requires
        0 <= i < edges.len(),
    ensures
        0 <= a,
        crate::text::matches_at(edge_lines(keys, edges), edge_line(keys, edges[i]), a),
    decreases edges.len(),
{
    let prev = edge_lines(keys, edges.drop_last());
    let last = edge_line(keys, edges.last());
    assert(edge_lines(keys, edges) == prev + last);
    if i == edges.len() - 1 {
        assert((prev + last).subrange(prev.len() as int, prev.len() + last.len() as int) =~= last);
        prev.len() as int
    } else {
        let a = lemma_edge_lines_hold(keys, edges.drop_last(), i);
        assert(edges.drop_last()[i] == edges[i]);
        let l = edge_line(keys, edges[i]);
        assert((prev + last).subrange(a, a + l.len()) =~= prev.subrange(a, a + l.len()));
        a
    }
}

/// Every edge is drawn in the system map as an arrow from the node of its
/// `from` key to the node of its `to` key: the body holds a line
/// `  Np<arrow>Nq` where key `p` is the edge's `from` and key `q` its `to`
/// among the node keys (the modules, then edge endpoints first seen).
pub proof fn lemma_system_edge_direction(modules: Seq<Seq<char>>, edges: Seq<DiagramEdge>, i: int)
    requires
        0 <= i < edges.len(),
    ensures
        exists|p: int, q: int|
            #![trigger system_keys(modules, edges)[p], system_keys(modules, edges)[q]]
            0 <= p < system_keys(modules, edges).len() && 0 <= q < system_keys(modules, edges).len()
                && system_keys(modules, edges)[p] == edges[i].from@ && system_keys(
                modules,
                edges,
            )[q] == edges[i].to@ && crate::text::contains(
                system_body(modules, edges),
                "  "@ + node_id_text("N"@, p as nat) + edge_arrow(edges[i].label) + node_id_text(
                    "N"@,
                    q as nat,
                ) + "\n"@,
            ),
{
    let keys = system_keys(modules, edges);
    let e = edges[i];
    lemma_system_keys_hold(modules, edges, i);
    lemma_last_index(keys, e.from@);
    lemma_last_index(keys, e.to@);
    let p = last_index(keys, e.from@)->Some_0;
    let q = last_index(keys, e.to@)->Some_0;
    let line = "  "@ + node_id_text("N"@, p as nat) + edge_arrow(e.label) + node_id_text("N"@, q as nat)
        + "\n"@;
    assert(edge_line(keys, e) =~= line);
    let a = lemma_edge_lines_hold(keys, edges, i);
    let head = "flowchart LR\n"@ + system_node_lines(keys);
    let lines = edge_lines(keys, edges);
    assert(system_body(modules, edges) == head + lines);
    assert((head + lines).subrange(head.len() + a, head.len() + a + line.len()) =~= lines.subrange(
        a,
        a + line.len(),
    ));
    assert(crate::text::matches_at(system_body(modules, edges), line, head.len() + a));
}

// ---------------------------------------------------------------------------
// learning path
// ---------------------------------------------------------------------------

/// Label of step `i`: the sanitized title, or `Step {i}` when nothing is
/// left of it.
pub open spec fn step_label(title: Seq<char>, i: nat) -> Seq<char> {
    if label_text(title).len() == 0 {
        "Step "@ + decimal(i)
    } else {
        label_text(title)
    }
}

/// Node and link lines of the learning path.
pub open spec fn path_lines(steps: Seq<&str>) -> Seq<char>
    decreases steps.len(),
{
    if steps.len() == 0 {
        Seq::empty()
    } else {
        let i = (steps.len() - 1) as nat;
        let id = node_id_text("S"@, i);
        path_lines(steps.drop_last()) + "  "@ + id + "["@ + step_label(steps.last()@, i) + "]\n"@
            + if i > 0 {
            "  "@ + node_id_text("S"@, (i - 1) as nat) + " --> "@ + id + "\n"@
        } else {
            Seq::empty()
        }
    }
}

/// The body of the learning path flowchart.
pub open spec fn path_body(steps: Seq<&str>) -> Seq<char> {
    if steps.len() == 0 {
        "flowchart TD\n"@ + "  S0[No steps]\n"@
    } else {
        "flowchart TD\n"@ + path_lines(steps)
    }
}

/// Build a learning-path flowchart: steps `S0 --> S1 --> ...` in order,
/// labelled by their sanitized titles.
#[verifier::rlimit(40)]
pub fn learning_path_flowchart(steps: &[&str]) -> (r: String)
    ensures
        r@ == finalized(path_body(steps@)),
        validate_issues(r@).len() == 0,
{
    let mut body: Vec<char> = Vec::new();
    push_str(&mut body, "flowchart TD\n");
    if steps.len() == 0 {
        push_str(&mut body, "  S0[No steps]\n");
        return finalize_diagram(&body);
    }
    let ghost head = body@;
    let mut i: usize = 0;
    while i < steps.len()
        invariant
            i <= steps@.len(),
            head == "flowchart TD\n"@,
            body@ == head + path_lines(steps@.take(i as int)),
        decreases steps.len() - i,
    {
        assert(steps@.take(i + 1).drop_last() =~= steps@.take(i as int));
        let id = node_id_chars("S", i);
        let lab = crate::mermaid::sanitize_label_chars(&chars_of(steps[i]));
        let label = if lab.len() == 0 {
            let mut l: Vec<char> = Vec::new();
            push_str(&mut l, "Step ");
            push_all(&mut l, &crate::text::decimal_chars(i as u64));
            l
        } else {
            lab
        };
        let mut line: Vec<char> = Vec::new();
        push_str(&mut line, "  ");
        push_all(&mut line, &id);
        push_str(&mut line, "[");
        push_all(&mut line, &label);
        push_str(&mut line, "]\n");
        if i > 0 {
            let prev = node_id_chars("S", i - 1);
            push_str(&mut line, "  ");
            push_all(&mut line, &prev);
            push_str(&mut line, " --> ");
            push_all(&mut line, &id);
            push_str(&mut line, "\n");
        }
        push_all(&mut body, &line);
        assert(body@ =~= head + path_lines(steps@.take(i + 1)));
        i = i + 1;
    }
    assert(steps@.take(steps@.len() as int) =~= steps@);
    finalize_diagram(&body)
}

// ---------------------------------------------------------------------------
// the stub validates
// ---------------------------------------------------------------------------

/// A line tail without forbidden characters or brackets passes unchanged.
proof fn lemma_line_from_plain(s: Seq<char>, k: int)
    requires
        0 <= k <= s.len(),
        forall|j: int|
            k <= j < s.len() ==> !crate::mermaid::is_forbidden(#[trigger] s[j]) && s[j] != '['
                && s[j] != '(',
    ensures
        crate::mermaid::diagram_line_from(s, k) == s.skip(k),
    decreases s.len() - k,
{
    if k < s.len() {
        lemma_line_from_plain(s, k + 1);
        assert(s.skip(k) =~= seq![s[k]] + s.skip(k + 1));
    } else {
        assert(s.skip(k) =~= Seq::<char>::empty());
    }
}

/// A square-bracket span without nested brackets ends at its `]`.
proof fn lemma_span_plain(s: Seq<char>, k: int, m: int, taken: nat)
    requires
        0 <= k <= m < s.len(),
        s[m] == ']',
        forall|j: int| k <= j < m ==> #[trigger] s[j] != '[' && s[j] != ']',
        taken + (m - k) < 512,
    ensures
        crate::mermaid::bracket_span(s, k, taken, 1, '[', ']') == (m + 1, s.subrange(k, m)),
    decreases m - k,
{
    if k < m {
        lemma_span_plain(s, k + 1, m, taken + 1);
        assert(s.subrange(k, m) =~= seq![s[k]] + s.subrange(k + 1, m));
    } else {
        assert(s.subrange(k, m) =~= Seq::<char>::empty());
    }
}

/// Safe characters and single inner spaces come through the label scan.
proof fn lemma_label_scan_clean(s: Seq<char>)
    requires
        forall|i: int|
            0 <= i < s.len() ==> crate::mermaid::is_safe_label_char(#[trigger] s[i]) || (s[i] == ' '
                && i > 0 && s[i - 1] != ' '),
    ensures
        crate::mermaid::label_scan(s).0 == s,
        crate::mermaid::label_scan(s).1 == (s.len() == 0 || s.last() == ' '),
    decreases s.len(),
{
    if s.len() > 0 {
        let d = s.drop_last();
        assert forall|i: int| 0 <= i < d.len() implies crate::mermaid::is_safe_label_char(
            #[trigger] d[i],
        ) || (d[i] == ' ' && i > 0 && d[i - 1] != ' ') by {
            assert(d[i] == s[i]);
            if i > 0 {
                assert(d[i - 1] == s[i - 1]);
            }
        }
        lemma_label_scan_clean(d);
        assert(d.push(s.last()) =~= s);
        let i = s.len() - 1;
        assert(s[i] == s.last());
        if s.last() == ' ' {
            assert(d.last() == s[i - 1]);
        }
    }
}

/// Characters other than the brackets leave the depth unchanged.
proof fn lemma_depth_plain(x: Seq<char>, s: Seq<char>, open: char, close: char)
    requires
        forall|i: int| 0 <= i < s.len() ==> #[trigger] s[i] != open && s[i] != close,
    ensures
        crate::mermaid::bracket_depth(x + s, open, close) == crate::mermaid::bracket_depth(
            x,
            open,
            close,
        ),
    decreases s.len(),
{
    if s.len() > 0 {
        lemma_depth_plain(x, s.drop_last(), open, close);
        assert((x + s).drop_last() =~= x + s.drop_last());
        assert((x + s).last() == s[s.len() - 1]);
    } else {
        assert(x + s =~= x);
    }
}

/// A line without `\n` (and not ending in `\r`) followed by `\n`.
proof fn lemma_lines_split(a: Seq<char>, rest: Seq<char>)
    requires
        forall|j: int| 0 <= j < a.len() ==> #[trigger] a[j] != '\n',
        a.len() == 0 || a.last() != '\r',
    ensures
        crate::text::lines(a + seq!['\n'] + rest) == seq![a] + crate::text::lines(rest),
{
    let s = a + seq!['\n'] + rest;
    crate::text::lemma_char_from(s, '\n', 0);
    assert(s[a.len() as int] == '\n');
    match crate::text::char_from(s, '\n', 0) {
        Some(k) => {
            if k < a.len() {
                assert(s[k] == a[k]);
            }
            assert(k == a.len());
        },
        None => {},
    }
    assert(s.take(a.len() as int) =~= a);
    assert(s.skip(a.len() + 1int) =~= rest);
}

/// A non-empty line without `\n`.
proof fn lemma_lines_last(a: Seq<char>)
    requires
        a.len() > 0,
        forall|j: int| 0 <= j < a.len() ==> #[trigger] a[j] != '\n',
    ensures
        crate::text::lines(a) == seq![a],
{
    crate::text::lemma_char_from(a, '\n', 0);
}

/// `normalize_newlines` leaves text without `\r` alone.
proof fn lemma_normalize_plain(s: Seq<char>)
    requires
        forall|j: int| 0 <= j < s.len() ==> #[trigger] s[j] != '\r',
    ensures
        crate::mermaid::normalize_newlines(s) == s,
{
    reveal_strlit("\r\n");
    reveal_strlit("\n");
    reveal_strlit("\r");
    let p1 = "\r\n"@;
    let p2 = "\r"@;
    assert forall|i: int| !crate::text::matches_at(s, p1, i) by {
        if crate::text::matches_at(s, p1, i) {
            assert(s.subrange(i, i + 2)[0] == s[i]);
        }
    }
    crate::text::lemma_find_contains(s, p1);
    assert(crate::text::replace(s, p1, "\n"@) == s);
    assert forall|i: int| !crate::text::matches_at(s, p2, i) by {
        if crate::text::matches_at(s, p2, i) {
            assert(s.subrange(i, i + 1)[0] == s[i]);
        }
    }
    crate::text::lemma_find_contains(s, p2);
}

/// The sanitized stub is `flowchart TD` over `  X0[Diagram unavailable]`,
/// and it validates.
#[verifier::rlimit(40)]
proof fn lemma_stub_valid()
    ensures
        validate_issues(mermaid_text(stub_diagram())).len() == 0,
{
    let a = seq!['f', 'l', 'o', 'w', 'c', 'h', 'a', 'r', 't', ' ', 'T', 'D'];
    let l = seq!['D', 'i', 'a', 'g', 'r', 'a', 'm', ' ', 'u', 'n', 'a', 'v', 'a', 'i', 'l', 'a', 'b', 'l', 'e'];
    let b = seq![' ', ' ', 'X', '0', '['] + l + seq![']'];
    let nl = seq!['\n'];
    reveal_strlit("flowchart TD\n  X0[Diagram unavailable]\n");
    let st = a + nl + b + nl;
    assert(stub_diagram() =~= st);
    assert forall|j: int| 0 <= j < st.len() implies #[trigger] st[j] != '\r' by {
        if j < 12 {
            assert(st[j] == a[j]);
        } else if j == 12 {
        } else if j < 38 {
            assert(st[j] == b[j - 13]);
            if 5 <= j - 13 < 24 {
                assert(b[j - 13] == l[j - 18]);
            }
        }
    }
    lemma_normalize_plain(st);
    let t = a + nl + b;
    assert(a.last() == 'D');
    assert forall|j: int| 0 <= j < a.len() implies #[trigger] a[j] != '\n' && !crate::mermaid::is_forbidden(
        a[j],
    ) && a[j] != '[' && a[j] != '(' && a[j] != ']' && a[j] != ')' by {}
    assert forall|j: int| 0 <= j < b.len() implies #[trigger] b[j] != '\n' && !crate::mermaid::is_forbidden(
        b[j],
    ) && b[j] != '(' && b[j] != ')' by {
        if 5 <= j < 24 {
            assert(b[j] == l[j - 5]);
        }
    }
    assert forall|j: int| 0 <= j < l.len() implies #[trigger] l[j] != '[' && l[j] != ']' && (
    crate::mermaid::is_safe_label_char(l[j]) || (l[j] == ' ' && j > 0 && l[j - 1] != ' ')) by {}
    // the lines of the stub
    assert(st =~= a + nl + (b + nl));
    lemma_lines_split(a, b + nl);
    assert(b + nl =~= b + nl + Seq::<char>::empty());
    lemma_lines_split(b, Seq::<char>::empty());
    let ls = seq![a, b];
    assert(crate::text::lines(st) =~= ls);
    // the head line
    assert(crate::text::trim_start(a) == a);
    assert(crate::text::trim_end(a) == a);
    assert(crate::text::trim(a) == a);
    reveal_with_fuel(crate::mermaid::token_prefix, 11);
    let head = seq!['f', 'l', 'o', 'w', 'c', 'h', 'a', 'r', 't'];
    assert(crate::mermaid::token_prefix(a) =~= head);
    assert(crate::mermaid::first_token(a) == head);
    reveal_strlit("sequenceDiagram");
    reveal_strlit("flowchart");
    assert(head =~= "flowchart"@);
    assert(head != "sequenceDiagram"@) by {
        assert("sequenceDiagram"@.len() == 15);
    }
    assert(crate::mermaid::first_nonblank(ls) == a);
    // the line pass
    lemma_line_from_plain(a, 0);
    assert(a.skip(0) =~= a);
    assert(crate::mermaid::diagram_line_text(a) == a);
    assert(crate::text::trim_end(b) == b);
    assert(crate::text::trim_start(b) == crate::text::trim_start(b.drop_first()));
    assert(crate::text::trim_start(b.drop_first()) == crate::text::trim_start(b.drop_first().drop_first()));
    assert(b.drop_first().drop_first()[0] == 'X');
    assert(crate::text::trim_start(b).len() == 23);
    assert(crate::text::trim(b).len() > 0) by {
        let u = crate::text::trim_start(b);
        assert(u.last() == ']');
    }
    lemma_span_plain(b, 5, 24, 0);
    assert(b.subrange(5, 24) =~= l);
    lemma_label_scan_clean(l);
    assert(crate::text::trim_start(l) == l);
    assert(crate::text::trim_end(l) == l);
    assert(crate::mermaid::label_text(l) == l);
    let lf = |k: int| crate::mermaid::diagram_line_from(b, k);
    assert(lf(25) == Seq::<char>::empty());
    assert(lf(4) == seq!['['] + l + seq![']'] + lf(25));
    assert(lf(3) == seq!['0'] + lf(4));
    assert(lf(2) == seq!['X'] + lf(3));
    assert(lf(1) == seq![' '] + lf(2));
    assert(lf(0) == seq![' '] + lf(1));
    assert(crate::mermaid::diagram_line_text(b) =~= b);
    let p0 = crate::mermaid::MermaidPass { lines: Seq::empty(), declared: 0, kept: Seq::empty() };
    assert(crate::mermaid::mermaid_pass(ls.drop_last().drop_last(), false) == p0);
    assert(ls.drop_last() =~= seq![a]);
    assert(crate::mermaid::mermaid_pass(seq![a], false).lines =~= seq![a]);
    assert(crate::mermaid::mermaid_pass(ls, false).lines =~= ls);
    // joined back
    reveal_strlit("\n");
    assert(nl =~= "\n"@);
    assert(crate::mermaid::drop_trailing_empty(ls) == ls);
    assert(ls.drop_last() =~= seq![a]);
    assert(crate::mermaid::join(seq![a], "\n"@) == a);
    assert(ls.last() == b);
    assert(crate::mermaid::join(ls, "\n"@) == crate::mermaid::join(seq![a], "\n"@) + "\n"@ + b);
    assert(crate::mermaid::join(ls, "\n"@) =~= t);
    assert(t.last() == ']');
    assert(crate::text::trim_end(t) == t);
    assert(mermaid_text(stub_diagram()) == t);
    // and validated
    assert(crate::text::trim_start(t) == t);
    assert(crate::text::trim(t) == t);
    lemma_lines_split(a, b);
    lemma_lines_last(b);
    assert(crate::text::lines(t) =~= seq![a, b]);
    assert(crate::mermaid::diagram_kind(t) == head);
    assert(!t.contains('"')) by {
        assert forall|j: int| 0 <= j < t.len() implies t[j] != '"' by {
            if j < 12 {
                assert(t[j] == a[j]);
            } else if j > 12 {
                assert(t[j] == b[j - 13]);
            }
        }
    }
    assert(!t.contains('#')) by {
        assert forall|j: int| 0 <= j < t.len() implies t[j] != '#' by {
            if j < 12 {
                assert(t[j] == a[j]);
            } else if j > 12 {
                assert(t[j] == b[j - 13]);
            }
        }
    }
    let pre = a + nl + seq![' ', ' ', 'X', '0'];
    assert(t =~= pre + seq!['['] + l + seq![']']);
    assert forall|j: int| 0 <= j < pre.len() implies #[trigger] pre[j] != '[' && pre[j] != ']' by {
        if j < 12 {
            assert(pre[j] == a[j]);
        }
    }
    lemma_depth_plain(Seq::empty(), pre, '[', ']');
    assert(Seq::<char>::empty() + pre =~= pre);
    assert(crate::mermaid::bracket_depth(pre + seq!['['], '[', ']') == Some(1nat)) by {
        assert((pre + seq!['[']).drop_last() =~= pre);
    }
    lemma_depth_plain(pre + seq!['['], l, '[', ']');
    assert(crate::mermaid::bracket_depth(pre + seq!['['] + l + seq![']'], '[', ']') == Some(0nat)) by {
        assert((pre + seq!['['] + l + seq![']']).drop_last() =~= pre + seq!['['] + l);
    }
    assert(crate::mermaid::balanced(t, '[', ']'));
    assert forall|j: int| 0 <= j < t.len() implies #[trigger] t[j] != '(' && t[j] != ')' by {
        if j < 12 {
            assert(t[j] == a[j]);
        } else if j > 12 {
            assert(t[j] == b[j - 13]);
        }
    }
    lemma_depth_plain(Seq::empty(), t, '(', ')');
    assert(Seq::<char>::empty() + t =~= t);
    assert(crate::mermaid::balanced(t, '(', ')'));
    assert(crate::mermaid::is_known_kind(head));
}

/// Every diagram the builders return validates: a sanitized body that
/// validates is kept, and the stub that replaces any other one validates.
pub proof fn lemma_finalized_valid(raw: Seq<char>)
    ensures
        validate_issues(finalized(raw)).len() == 0,
{
    lemma_stub_valid();
}

} // verus!
