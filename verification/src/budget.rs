//! Context budget estimates for dry-run and map-batch packing.
//!
//! Given file sizes and module keys, how many characters/tokens and map
//! batches will an identify pass roughly need? The defaults are fixed so that
//! dry-run output stays stable; they are heuristics, not a tokenizer.

use vstd::prelude::*;

use crate::module::{key_views, sort_keys, ModuleKey};
use crate::order::lex_lt;
use crate::scope::dedup;
use crate::text::{chars_of, push_all, push_str, slice_chars, string_of};

verus! {

/// Default per-file character cap after head+tail truncation.
pub const DEFAULT_MAX_FILE_CHARS: usize = 12000;

/// Default soft character budget for one map batch.
pub const DEFAULT_BATCH_CHAR_BUDGET: usize = 80000;

/// Default rough token divisor: tokens are `chars.div_ceil(CHARS_PER_TOKEN)`.
pub const DEFAULT_CHARS_PER_TOKEN: usize = 4;

/// Default max files kept with a full (capped) body per module.
pub const DEFAULT_MAX_FULL_FILES_PER_MODULE: usize = 40;

/// Marker inserted between the kept head and tail when truncating a file.
pub const TRUNCATION_MARKER: &'static str = "\n...[truncated]...\n";

/// Prefix used for path-only stub lines.
pub const PATH_STUB_PREFIX: &'static str = "// path-only: ";

/// Tunable budget parameters.
#[derive(Clone, Debug, PartialEq, Eq)]
pub struct BudgetConfig {
    /// Max characters kept from a single file body after truncation.
    pub max_file_chars: usize,
    /// Soft max characters packed into one map batch.
    pub batch_char_budget: usize,
    /// Divisor for the rough token estimate.
    pub chars_per_token: usize,
    /// Full (capped) bodies kept per module before path stubs.
    pub max_full_files_per_module: usize,
}

impl Default for BudgetConfig {
    fn default() -> (c: Self)
        ensures
            c.max_file_chars == 12000,
            c.batch_char_budget == 80000,
            c.chars_per_token == 4,
            c.max_full_files_per_module == 40,
    {
        BudgetConfig {
            max_file_chars: DEFAULT_MAX_FILE_CHARS,
            batch_char_budget: DEFAULT_BATCH_CHAR_BUDGET,
            chars_per_token: DEFAULT_CHARS_PER_TOKEN,
            max_full_files_per_module: DEFAULT_MAX_FULL_FILES_PER_MODULE,
        }
    }
}

/// One file's size contribution for budgeting (no file body required).
#[derive(Clone, Debug, PartialEq, Eq)]
pub struct FileSize {
    /// Relative path.
    pub path: String,
    /// Character (or byte) length of the file body.
    pub chars: usize,
    /// Module this file belongs to.
    pub module: ModuleKey,
}

/// Result of truncating a single file body to a character budget.
#[derive(Clone, Debug, PartialEq, Eq)]
pub struct TruncateResult {
    /// Possibly truncated text.
    pub text: String,
    /// Whether truncation was applied.
    pub truncated: bool,
    /// Original character length of the input.
    pub original_chars: usize,
}

/// Aggregate dry-run budget estimate for a set of files.
#[derive(Clone, Debug, PartialEq, Eq)]
pub struct BudgetEstimate {
    /// Number of input files.
    pub file_count: usize,
    /// Distinct modules present.
    pub module_count: usize,
    /// Sum of raw character lengths before caps/stubs.
    pub raw_chars: usize,
    /// Sum of budgeted sizes after per-file caps and path stubs.
    pub budgeted_chars: usize,
    /// Rough token estimate: `budgeted_chars.div_ceil(chars_per_token)`.
    pub token_estimate: usize,
    /// Number of map batches after packing modules by size.
    pub batch_count: usize,
    /// Files whose raw size exceeded `max_file_chars`.
    pub truncated_file_count: usize,
    /// Files represented as path-only stubs (module overflow).
    pub stubbed_file_count: usize,
    /// `true` if at least one module alone exceeds `batch_char_budget`.
    pub oversized_batch: bool,
}

// ---------------------------------------------------------------------------
// truncation
// ---------------------------------------------------------------------------

/// The truncation marker as characters.
pub open spec fn marker() -> Seq<char> {
    "\n...[truncated]...\n"@
}

/// The marker is 19 characters long.
pub proof fn lemma_marker_len()
    ensures
        marker().len() == 19,
{
    reveal_strlit("\n...[truncated]...\n");
}

/// What `truncate_content` keeps of `s` under `max` (`s` longer than `max`).
pub open spec fn truncated_text(s: Seq<char>, max: nat) -> Seq<char> {
    let body = if max <= 19 {
        0
    } else {
        max - 19
    };
    if body == 0 {
        s.take(max as int)
    } else {
        let head = body / 2;
        let tail = body - head;
        s.take(head as int) + marker() + s.skip(s.len() - tail)
    }
}

/// Truncate `content` to at most `max_chars` characters, keeping a head and
/// a tail around `TRUNCATION_MARKER`.
///
/// Content that fits is returned unchanged; with a zero budget the text is
/// empty; when the budget is no larger than the marker only a head is kept;
/// otherwise the budget minus the marker is split between head (the smaller
/// half) and tail.
pub fn truncate_content(content: &str, max_chars: usize) -> (r: TruncateResult)
    ensures
        r.original_chars == content@.len(),
        r.truncated == (content@.len() > max_chars),
        r.text@ == (if max_chars == 0 {
            Seq::empty()
        } else if content@.len() <= max_chars {
            content@
        } else {
            truncated_text(content@, max_chars as nat)
        }),
        r.text@.len() <= max_chars,
{
    let v = chars_of(content);
    let original_chars = v.len();
    if max_chars == 0 {
        return TruncateResult { text: String::new(), truncated: original_chars > 0, original_chars };
    }
    if original_chars <= max_chars {
        return TruncateResult { text: content.to_owned(), truncated: false, original_chars };
    }
    proof {
        lemma_marker_len();
    }
    let marker_len: usize = 19;
    let body_budget = if max_chars <= marker_len {
        0
    } else {
        max_chars - marker_len
    };
    if body_budget == 0 {
        let head = slice_chars(&v, 0, max_chars);
        assert(head@ =~= content@.take(max_chars as int));
        return TruncateResult { text: string_of(&head), truncated: true, original_chars };
    }
    let head_len = body_budget / 2;
    let tail_len = body_budget - head_len;
    let mut out = slice_chars(&v, 0, head_len);
    push_str(&mut out, TRUNCATION_MARKER);
    let tail = slice_chars(&v, original_chars - tail_len, original_chars);
    push_all(&mut out, &tail);
    assert(out@ =~= truncated_text(content@, max_chars as nat));
    TruncateResult { text: string_of(&out), truncated: true, original_chars }
}

// ---------------------------------------------------------------------------
// path stubs
// ---------------------------------------------------------------------------

/// The stub prefix as characters (14 of them).
pub open spec fn stub_prefix() -> Seq<char> {
    "// path-only: "@
}

/// Build a path-only stub line for a file kept as structure without body.
pub fn path_stub(path: &str) -> (r: String)
    ensures
        r@ == stub_prefix() + path@,
{
    let mut out: Vec<char> = Vec::new();
    push_str(&mut out, PATH_STUB_PREFIX);
    push_str(&mut out, path);
    string_of(&out)
}

/// Character cost of a path-only stub for budgeting.
pub fn path_stub_chars(path: &str) -> (r: usize)
    requires
        path@.len() + 14 <= usize::MAX,
    ensures
        r == path@.len() + 14,
{
    proof {
        reveal_strlit("// path-only: ");
    }
    let s = path_stub(path);
    let v = chars_of(s.as_str());
    v.len()
}

/// Effective character contribution of one file after the per-file cap.
pub fn capped_file_chars(raw_chars: usize, max_file_chars: usize) -> (r: usize)
    ensures
        r == (if raw_chars <= max_file_chars {
            raw_chars
        } else {
            max_file_chars
        }),
{
    if raw_chars <= max_file_chars {
        raw_chars
    } else {
        max_file_chars
    }
}

// ---------------------------------------------------------------------------
// estimate
// ---------------------------------------------------------------------------

/// A file's path, size and module key.
pub open spec fn file_views(files: Seq<FileSize>) -> Seq<(Seq<char>, nat, Seq<char>)> {
    files.map_values(|f: FileSize| (f.path@, f.chars as nat, f.module@))
}

/// `(path, chars)` of the files of module `k`, in input order.
pub open spec fn module_entries(files: Seq<(Seq<char>, nat, Seq<char>)>, k: Seq<char>) -> Seq<(Seq<char>, nat)>
    decreases files.len(),
{
    if files.len() == 0 {
        Seq::empty()
    } else if files.last().2 == k {
        module_entries(files.drop_last(), k).push((files.last().0, files.last().1))
    } else {
        module_entries(files.drop_last(), k)
    }
}

/// Insert `x` after the last entry whose path does not sort after it.
pub open spec fn insert_path(t: Seq<(Seq<char>, nat)>, x: (Seq<char>, nat)) -> Seq<(Seq<char>, nat)>
    decreases t.len(),
{
    if t.len() == 0 {
        seq![x]
    } else if !lex_lt(x.0, t.last().0) {
        t.push(x)
    } else {
        insert_path(t.drop_last(), x).push(t.last())
    }
}

/// Entries sorted (stably) by path.
pub open spec fn sort_path(s: Seq<(Seq<char>, nat)>) -> Seq<(Seq<char>, nat)>
    decreases s.len(),
{
    if s.len() == 0 {
        s
    } else {
        insert_path(sort_path(s.drop_last()), s.last())
    }
}

/// Cost of the entry at position `i` of a module's sorted files: its capped
/// size while fewer than `max_full_files_per_module` came before it, else
/// the length of its path stub.
pub open spec fn entry_cost(e: (Seq<char>, nat), i: int, cfg: BudgetConfig) -> nat {
    if i < cfg.max_full_files_per_module {
        if e.1 <= cfg.max_file_chars {
            e.1
        } else {
            cfg.max_file_chars as nat
        }
    } else {
        e.0.len() + 14
    }
}

/// Total cost of a module's sorted entries.
pub open spec fn entries_cost(es: Seq<(Seq<char>, nat)>, cfg: BudgetConfig) -> nat
    decreases es.len(),
{
    if es.len() == 0 {
        0
    } else {
        entries_cost(es.drop_last(), cfg) + entry_cost(es.last(), es.len() - 1, cfg)
    }
}

/// Number of a module's entries that become path stubs.
pub open spec fn entries_stubs(es: Seq<(Seq<char>, nat)>, cfg: BudgetConfig) -> nat
    decreases es.len(),
{
    if es.len() == 0 {
        0
    } else {
        entries_stubs(es.drop_last(), cfg) + if es.len() - 1 >= cfg.max_full_files_per_module {
            1nat
        } else {
            0
        }
    }
}

/// Distinct module keys in packing order (`apps/*`, `_root`, others).
pub open spec fn budget_keys(files: Seq<(Seq<char>, nat, Seq<char>)>) -> Seq<Seq<char>> {
    sort_keys(dedup(files.map_values(|f: (Seq<char>, nat, Seq<char>)| f.2)))
}

/// Cost of each module, in packing order.
pub open spec fn module_costs(files: Seq<(Seq<char>, nat, Seq<char>)>, cfg: BudgetConfig) -> Seq<nat> {
    budget_keys(files).map_values(
        |k: Seq<char>| entries_cost(sort_path(module_entries(files, k)), cfg),
    )
}

/// Path stubs of each module, in packing order.
pub open spec fn module_stubs(files: Seq<(Seq<char>, nat, Seq<char>)>, cfg: BudgetConfig) -> Seq<nat> {
    budget_keys(files).map_values(
        |k: Seq<char>| entries_stubs(sort_path(module_entries(files, k)), cfg),
    )
}

/// Sum of a sequence of naturals.
pub open spec fn sum(s: Seq<nat>) -> nat
    decreases s.len(),
{
    if s.len() == 0 {
        0
    } else {
        sum(s.drop_last()) + s.last()
    }
}

/// Sum of the raw sizes.
pub open spec fn raw_sum(files: Seq<(Seq<char>, nat, Seq<char>)>) -> nat
    decreases files.len(),
{
    if files.len() == 0 {
        0
    } else {
        raw_sum(files.drop_last()) + files.last().1
    }
}

/// Files larger than the per-file cap.
pub open spec fn truncated_count(files: Seq<(Seq<char>, nat, Seq<char>)>, max: usize) -> nat
    decreases files.len(),
{
    if files.len() == 0 {
        0
    } else {
        truncated_count(files.drop_last(), max) + if files.last().1 > max {
            1nat
        } else {
            0
        }
    }
}

/// State of batch packing.
pub struct Packing {
    pub batches: nat,
    pub current: nat,
    pub oversized: bool,
}

/// Pack module costs into batches in order: the first module opens the
/// first batch; a module that would push the current batch over the budget
/// opens a new one. A module whose cost alone exceeds the budget sets
/// `oversized`.
pub open spec fn pack(costs: Seq<nat>, budget: nat) -> Packing
    decreases costs.len(),
{
    if costs.len() == 0 {
        Packing { batches: 0, current: 0, oversized: false }
    } else {
        let p = pack(costs.drop_last(), budget);
        let c = costs.last();
        let ov = p.oversized || c > budget;
        if p.batches == 0 {
            Packing { batches: 1, current: c, oversized: ov }
        } else if p.current + c > budget {
            Packing { batches: p.batches + 1, current: c, oversized: ov }
        } else {
            Packing { batches: p.batches, current: p.current + c, oversized: ov }
        }
    }
}

/// Rough token estimate for `chars` characters.
pub open spec fn token_estimate(chars: nat, per_token: nat) -> nat {
    if chars == 0 || per_token == 0 {
        0
    } else {
        (((chars - 1) as nat) / per_token + 1) as nat
    }
}

/// A prefix sums to no more than the whole.
pub proof fn lemma_sum_prefix(s: Seq<nat>, i: int)
    requires
        0 <= i <= s.len(),
    ensures
        sum(s.take(i)) <= sum(s),
    decreases s.len() - i,
{
    if i < s.len() {
        lemma_sum_prefix(s, i + 1);
        assert(s.take(i + 1).drop_last() =~= s.take(i));
    } else {
        assert(s.take(i) =~= s);
    }
}

proof fn lemma_raw_prefix(files: Seq<(Seq<char>, nat, Seq<char>)>, i: int)
    requires
        0 <= i <= files.len(),
    ensures
        raw_sum(files.take(i)) <= raw_sum(files),
    decreases files.len() - i,
{
    if i < files.len() {
        lemma_raw_prefix(files, i + 1);
        assert(files.take(i + 1).drop_last() =~= files.take(i));
    } else {
        assert(files.take(i) =~= files);
    }
}

proof fn lemma_cost_prefix(es: Seq<(Seq<char>, nat)>, cfg: BudgetConfig, i: int)
    requires
        0 <= i <= es.len(),
    ensures
        entries_cost(es.take(i), cfg) <= entries_cost(es, cfg),
    decreases es.len() - i,
{
    if i < es.len() {
        lemma_cost_prefix(es, cfg, i + 1);
        assert(es.take(i + 1).drop_last() =~= es.take(i));
    } else {
        assert(es.take(i) =~= es);
    }
}

/// The views of exec entries.
pub open spec fn entry_views(v: Seq<(String, usize)>) -> Seq<(Seq<char>, nat)> {
    v.map_values(|e: (String, usize)| (e.0@, e.1 as nat))
}

proof fn lemma_insert_path_pos(t: Seq<(Seq<char>, nat)>, x: (Seq<char>, nat), p: int)
    requires
        0 <= p <= t.len(),
        p == 0 || !lex_lt(x.0, t[p - 1].0),
        forall|k: int| p <= k < t.len() ==> lex_lt(x.0, #[trigger] t[k].0),
    ensures
        insert_path(t, x) == t.insert(p, x),
    decreases t.len(),
{
    if t.len() == 0 {
        assert(t.insert(p, x) =~= seq![x]);
    } else if p == t.len() {
        assert(t.insert(p, x) =~= t.push(x));
    } else {
        assert(lex_lt(x.0, t[t.len() - 1].0));
        lemma_insert_path_pos(t.drop_last(), x, p);
        assert(t.drop_last().insert(p, x).push(t.last()) =~= t.insert(p, x));
    }
}

fn sort_entries(v: Vec<(String, usize)>) -> (r: Vec<(String, usize)>)
    ensures
        entry_views(r@) == sort_path(entry_views(v@)),
{
    let ghost orig = entry_views(v@);
    let ghost ov = v@;
    let mut rest = v;
    let mut out: Vec<(String, usize)> = Vec::new();
    let n = rest.len();
    let mut i: usize = 0;
    while i < n
        invariant
            i <= n == ov.len(),
            orig == entry_views(ov),
            rest@ == ov.skip(i as int),
            entry_views(out@) == sort_path(orig.take(i as int)),
        decreases n - i,
    {
        let x = rest.remove(0);
        assert(rest@ =~= ov.skip(i + 1));
        let xp = chars_of(x.0.as_str());
        let mut p = out.len();
        while p > 0 && crate::order::lex_less(&xp, &chars_of(out[p - 1].0.as_str()))
            invariant
                p <= out@.len(),
                xp@ == x.0@,
                forall|k: int| p <= k < out@.len() ==> lex_lt(x.0@, #[trigger] out@[k].0@),
            decreases p,
        {
            p = p - 1;
        }
        let ghost ex = (x.0@, x.1 as nat);
        proof {
            let t = entry_views(out@);
            assert(forall|k: int| p <= k < t.len() ==> t[k] == (out@[k].0@, out@[k].1 as nat));
            lemma_insert_path_pos(t, ex, p as int);
            assert(orig.take(i + 1).drop_last() =~= orig.take(i as int));
            assert(orig[i as int] == ex);
        }
        let ghost before = out@;
        out.insert(p, x);
        assert(entry_views(out@) =~= entry_views(before).insert(p as int, ex));
        i = i + 1;
    }
    assert(orig.take(n as int) =~= orig);
    out
}

fn module_entries_exec(files: &[FileSize], key: &ModuleKey) -> (r: Vec<(String, usize)>)
    ensures
        entry_views(r@) == module_entries(file_views(files@), key@),
{
    let ghost fv = file_views(files@);
    let mut out: Vec<(String, usize)> = Vec::new();
    let mut j: usize = 0;
    while j < files.len()
        invariant
            j <= files@.len(),
            fv == file_views(files@),
            entry_views(out@) == module_entries(fv.take(j as int), key@),
        decreases files.len() - j,
    {
        assert(fv.take(j + 1).drop_last() =~= fv.take(j as int));
        assert(fv[j as int] == (files@[j as int].path@, files@[j as int].chars as nat, files@[j as int].module@));
        if files[j].module.same(key) {
            let ghost before = out@;
            out.push((files[j].path.clone(), files[j].chars));
            assert(entry_views(out@) =~= entry_views(before).push(
                (files@[j as int].path@, files@[j as int].chars as nat),
            ));
        }
        j = j + 1;
    }
    assert(fv.take(files@.len() as int) =~= fv);
    out
}

fn module_cost_exec(es: &Vec<(String, usize)>, config: &BudgetConfig, bound: Ghost<nat>) -> (r: (
    usize,
    usize,
))
    requires
        entries_cost(entry_views(es@), *config) <= bound@,
        bound@ <= usize::MAX,
    ensures
        r.0 == entries_cost(entry_views(es@), *config),
        r.1 == entries_stubs(entry_views(es@), *config),
        r.1 <= r.0,
{
    let ghost ev = entry_views(es@);
    let mut cost: usize = 0;
    let mut stubs: usize = 0;
    let mut i: usize = 0;
    while i < es.len()
        invariant
            i <= es@.len(),
            ev == entry_views(es@),
            entries_cost(ev, *config) <= bound@ <= usize::MAX,
            cost == entries_cost(ev.take(i as int), *config),
            stubs == entries_stubs(ev.take(i as int), *config),
            stubs <= cost,
        decreases es.len() - i,
    {
        assert(ev.take(i + 1).drop_last() =~= ev.take(i as int));
        assert(ev[i as int] == (es@[i as int].0@, es@[i as int].1 as nat));
        proof {
            lemma_cost_prefix(ev, *config, i + 1);
        }
        if i < config.max_full_files_per_module {
            cost = cost + capped_file_chars(es[i].1, config.max_file_chars);
        } else {
            let c = path_stub_chars(es[i].0.as_str());
            cost = cost + c;
            stubs = stubs + 1;
        }
        i = i + 1;
    }
    assert(ev.take(es@.len() as int) =~= ev);
    (cost, stubs)
}

/// `b` is the budget estimate of the inputs `fv` under `config`.
pub open spec fn estimate_of(b: BudgetEstimate, fv: Seq<(Seq<char>, nat, Seq<char>)>, config: BudgetConfig) -> bool {
    &&& b.file_count == fv.len()
    &&& b.module_count == budget_keys(fv).len()
    &&& b.raw_chars == raw_sum(fv)
    &&& b.truncated_file_count == truncated_count(fv, config.max_file_chars)
    &&& b.budgeted_chars == sum(module_costs(fv, config))
    &&& b.stubbed_file_count == sum(module_stubs(fv, config))
    &&& b.token_estimate == token_estimate(b.budgeted_chars as nat, config.chars_per_token as nat)
    &&& b.batch_count == pack(module_costs(fv, config), config.batch_char_budget as nat).batches
    &&& b.oversized_batch == pack(module_costs(fv, config), config.batch_char_budget as nat).oversized
}

/// Estimate the context budget for a file inventory.
///
/// Files are grouped by module; within a module they are sorted by path and
/// the first `max_full_files_per_module` count with their capped size, the
/// rest as path stubs. Modules are packed in order (`apps/*`, `_root`,
/// others) into batches under `batch_char_budget`; a module that alone
/// exceeds the budget still takes a batch and sets `oversized_batch`.
pub fn estimate_budget(files: &[FileSize], config: &BudgetConfig) -> (r: BudgetEstimate)
    requires
        raw_sum(file_views(files@)) <= usize::MAX,
        sum(module_costs(file_views(files@), *config)) <= usize::MAX,
    ensures
        r.file_count == files@.len(),
        r.module_count == budget_keys(file_views(files@)).len(),
        r.raw_chars == raw_sum(file_views(files@)),
        r.truncated_file_count == truncated_count(file_views(files@), config.max_file_chars),
        r.budgeted_chars == sum(module_costs(file_views(files@), *config)),
        r.stubbed_file_count == sum(module_stubs(file_views(files@), *config)),
        r.token_estimate == token_estimate(r.budgeted_chars as nat, config.chars_per_token as nat),
        r.batch_count == pack(module_costs(file_views(files@), *config), config.batch_char_budget as nat).batches,
        r.oversized_batch == pack(module_costs(file_views(files@), *config), config.batch_char_budget as nat).oversized,
        estimate_of(r, file_views(files@), *config),
{
    let ghost fv = file_views(files@);
    let mut raw_chars: usize = 0;
    let mut truncated_file_count: usize = 0;
    let mut keys_in: Vec<ModuleKey> = Vec::new();
    let mut i: usize = 0;
    while i < files.len()
        invariant
            i <= files@.len(),
            raw_sum(file_views(files@)) <= usize::MAX,
            fv == file_views(files@),
            raw_chars == raw_sum(fv.take(i as int)),
            truncated_file_count == truncated_count(fv.take(i as int), config.max_file_chars),
            truncated_file_count <= i,
            key_views(keys_in@) == fv.take(i as int).map_values(|f: (Seq<char>, nat, Seq<char>)| f.2),
        decreases files.len() - i,
    {
        assert(fv.take(i + 1).drop_last() =~= fv.take(i as int));
        assert(fv[i as int] == (files@[i as int].path@, files@[i as int].chars as nat, files@[i as int].module@));
        proof {
            lemma_raw_prefix(fv, i + 1);
        }
        raw_chars = raw_chars + files[i].chars;
        if files[i].chars > config.max_file_chars {
            truncated_file_count = truncated_file_count + 1;
        }
        let ghost before = keys_in@;
        let dk = files[i].module.duplicate();
        keys_in.push(dk);
        assert(key_views(keys_in@) =~= key_views(before).push(files@[i as int].module@));
        assert(fv.take(i + 1).map_values(|f: (Seq<char>, nat, Seq<char>)| f.2) =~= fv.take(
            i as int,
        ).map_values(|f: (Seq<char>, nat, Seq<char>)| f.2).push(files@[i as int].module@));
        i = i + 1;
    }
    assert(fv.take(files@.len() as int) =~= fv);
    let keys = crate::scope::unique_sorted_module_keys(&keys_in);
    let ghost all_costs = module_costs(file_views(files@), *config);
    let ghost all_stubs = module_stubs(file_views(files@), *config);
    assert(key_views(keys@) == budget_keys(file_views(files@)));

    let mut costs: Vec<usize> = Vec::new();
    let mut budgeted_chars: usize = 0;
    let mut stubbed_file_count: usize = 0;
    let mut m: usize = 0;
    while m < keys.len()
        invariant
            m <= keys@.len(),
            key_views(keys@) == budget_keys(file_views(files@)),
            all_costs == module_costs(file_views(files@), *config),
            all_stubs == module_stubs(file_views(files@), *config),
            sum(all_costs) <= usize::MAX,
            costs@.len() == m,
            forall|a: int| 0 <= a < m ==> costs@[a] as nat == all_costs[a],
            budgeted_chars == sum(all_costs.take(m as int)),
            stubbed_file_count == sum(all_stubs.take(m as int)),
            stubbed_file_count <= budgeted_chars,
        decreases keys.len() - m,
    {
        let es = module_entries_exec(files, &keys[m]);
        let sorted = sort_entries(es);
        assert(all_costs.take(m + 1).drop_last() =~= all_costs.take(m as int));
        assert(all_stubs.take(m + 1).drop_last() =~= all_stubs.take(m as int));
        assert(key_views(keys@)[m as int] == keys@[m as int]@);
        proof {
            lemma_sum_prefix(all_costs, m + 1);
        }
        let (cost, stubs) = module_cost_exec(&sorted, config, Ghost(sum(all_costs)));
        assert(cost == all_costs[m as int]);
        assert(stubs == all_stubs[m as int]);
        budgeted_chars = budgeted_chars + cost;
        stubbed_file_count = stubbed_file_count + stubs;
        costs.push(cost);
        m = m + 1;
    }
    assert(all_costs.take(keys@.len() as int) =~= all_costs);
    assert(all_stubs.take(keys@.len() as int) =~= all_stubs);

    let ghost budget = config.batch_char_budget as nat;
    let mut batch_count: usize = 0;
    let mut current: usize = 0;
    let mut oversized_batch = false;
    let mut k: usize = 0;
    while k < costs.len()
        invariant
            k <= costs@.len() == all_costs.len(),
            budget == config.batch_char_budget,
            forall|a: int| 0 <= a < costs@.len() ==> costs@[a] as nat == all_costs[a],
            batch_count <= k,
            ({
                let p = pack(all_costs.take(k as int), budget);
                &&& batch_count == p.batches
                &&& current == p.current
                &&& oversized_batch == p.oversized
            }),
        decreases costs.len() - k,
    {
        assert(all_costs.take(k + 1).drop_last() =~= all_costs.take(k as int));
        let cost = costs[k];
        if cost > config.batch_char_budget {
            oversized_batch = true;
        }
        if batch_count == 0 {
            batch_count = 1;
            current = cost;
        } else if cost > config.batch_char_budget || current > config.batch_char_budget - cost {
            batch_count = batch_count + 1;
            current = cost;
        } else {
            current = current + cost;
        }
        k = k + 1;
    }
    let token_estimate = if budgeted_chars == 0 || config.chars_per_token == 0 {
        0
    } else {
        (budgeted_chars - 1) / config.chars_per_token + 1
    };
    BudgetEstimate {
        file_count: files.len(),
        module_count: keys.len(),
        raw_chars,
        budgeted_chars,
        token_estimate,
        batch_count,
        truncated_file_count,
        stubbed_file_count,
        oversized_batch,
    }
}

/// Packing opens at least one batch for a non-empty module list and never
/// more batches than there are modules; the current batch stays within the
/// budget unless it holds a single oversized module.
pub proof fn lemma_pack_bounds(costs: Seq<nat>, budget: nat)
    ensures
        pack(costs, budget).batches <= costs.len(),
        costs.len() > 0 ==> pack(costs, budget).batches >= 1,
        costs.len() > 0 ==> (pack(costs, budget).current <= budget || pack(costs, budget).current
            == costs.last()),
        pack(costs, budget).oversized <==> exists|i: int| 0 <= i < costs.len() && #[trigger] costs[i] > budget,
    decreases costs.len(),
{
    if costs.len() > 0 {
        let p = costs.drop_last();
        lemma_pack_bounds(p, budget);
        if pack(costs, budget).oversized {
            if !pack(p, budget).oversized {
                assert(costs[costs.len() - 1] > budget);
            } else {
                let i = choose|i: int| 0 <= i < p.len() && #[trigger] p[i] > budget;
                assert(costs[i] == p[i]);
            }
        } else {
            assert forall|i: int| 0 <= i < costs.len() implies !(#[trigger] costs[i] > budget) by {
                if i < p.len() {
                    assert(costs[i] == p[i]);
                }
            }
        }
    }
}

proof fn lemma_insert_key_len(t: Seq<Seq<char>>, x: Seq<char>)
    ensures
        crate::module::insert_key(t, x).len() == t.len() + 1,
    decreases t.len(),
{
    if t.len() > 0 {
        lemma_insert_key_len(t.drop_last(), x);
    }
}

proof fn lemma_sort_keys_len(s: Seq<Seq<char>>)
    ensures
        sort_keys(s).len() == s.len(),
    decreases s.len(),
{
    if s.len() > 0 {
        lemma_sort_keys_len(s.drop_last());
        lemma_insert_key_len(sort_keys(s.drop_last()), s.last());
    }
}

/// An estimate has no batch exactly when it has no file: every module
/// takes at least one batch.
pub proof fn lemma_batches_iff_files(fv: Seq<(Seq<char>, nat, Seq<char>)>, cfg: BudgetConfig)
    ensures
        pack(module_costs(fv, cfg), cfg.batch_char_budget as nat).batches == 0 <==> fv.len() == 0,
{
    let ks = fv.map_values(|f: (Seq<char>, nat, Seq<char>)| f.2);
    lemma_sort_keys_len(dedup(ks));
    if fv.len() > 0 {
        crate::scope::lemma_dedup_contains(ks, ks[0]);
        assert(ks.contains(ks[0]));
    } else {
        assert(ks.len() == 0);
    }
    lemma_pack_bounds(module_costs(fv, cfg), cfg.batch_char_budget as nat);
}

} // verus!
