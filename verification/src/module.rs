//! Module key derivation and inventory discovery.
//!
//! A module key groups repository files into coarse units: root-level files
//! map to `_root`; `apps/<name>/…` (three or more components) maps to
//! `apps/<name>`; files directly under `apps/` map to `apps`; every other
//! path maps to its first component. Inventories are ordered `apps/*`
//! (alphabetically), then `_root`, then the remaining keys alphabetically.

use vstd::prelude::*;

use crate::order::{
    insert_by, is_total_order, lemma_lex_total, lemma_lex_trans, lemma_sort_elems, lemma_sort_sorted,
    lex_less, lex_lt, sort_seq, sort_stable, KeyOrder,
};
use crate::text::{
    chars_of, char_from, eq_str, find_char, lemma_char_from, push_all, slice_chars, starts_with,
    starts_with_str, string_of,
};

verus! {

broadcast use vstd::string::group_string_axioms;

/// Sentinel module key for repository-root files.
pub const ROOT_MODULE: &'static str = "_root";

/// `"_root"`.
pub open spec fn root_key() -> Seq<char> {
    seq!['_', 'r', 'o', 'o', 't']
}

/// `"apps"`.
pub open spec fn apps_key() -> Seq<char> {
    seq!['a', 'p', 'p', 's']
}

/// `"apps/"`.
pub open spec fn apps_prefix() -> Seq<char> {
    seq!['a', 'p', 'p', 's', '/']
}

/// The module key of a relative `/`-separated path.
pub open spec fn module_key_of(p: Seq<char>) -> Seq<char> {
    match char_from(p, '/', 0) {
        None => root_key(),
        Some(i) => {
            let first = p.take(i);
            let rest = p.skip(i + 1);
            if first == apps_key() {
                match char_from(rest, '/', 0) {
                    Some(j) => apps_prefix() + rest.take(j),
                    None => apps_key(),
                }
            } else {
                first
            }
        },
    }
}

/// Ordering group of a key: `0` for `apps/*`, `1` for `_root`, `2` otherwise.
pub open spec fn module_group(k: Seq<char>) -> int {
    if starts_with(k, apps_prefix()) {
        0
    } else if k == root_key() {
        1
    } else {
        2
    }
}

/// Inventory order on keys: by group, then alphabetically.
pub open spec fn module_lt(a: Seq<char>, b: Seq<char>) -> bool {
    module_group(a) < module_group(b) || (module_group(a) == module_group(b) && module_group(a)
        != 1 && lex_lt(a, b))
}

/// `a` does not sort after `b` in inventory order.
pub open spec fn module_le(a: Seq<char>, b: Seq<char>) -> bool {
    !module_lt(b, a)
}

/// Inventory order is a strict total order on keys.
pub proof fn lemma_module_order(a: Seq<char>, b: Seq<char>, c: Seq<char>)
    ensures
        !module_lt(a, a),
        module_lt(a, b) ==> !module_lt(b, a),
        a != b ==> module_lt(a, b) || module_lt(b, a),
        module_lt(a, b) && module_lt(b, c) ==> module_lt(a, c),
{
    lemma_lex_total(a, b);
    lemma_lex_total(a, a);
    if lex_lt(a, b) && lex_lt(b, c) {
        lemma_lex_trans(a, b, c);
    }
}

/// Exec `module_lt`.
pub fn module_less(a: &[char], b: &[char]) -> (r: bool)
    ensures
        r == module_lt(a@, b@),
{
    let ga = module_group_of(a);
    let gb = module_group_of(b);
    if ga != gb {
        ga < gb
    } else if ga == 1 {
        false
    } else {
        lex_less(a, b)
    }
}

fn module_group_of(k: &[char]) -> (g: u8)
    ensures
        g == module_group(k@),
{
    proof {
        reveal_strlit("apps/");
        reveal_strlit("_root");
        assert("apps/"@ =~= apps_prefix());
        assert("_root"@ =~= root_key());
    }
    if starts_with_str(k, "apps/") {
        0
    } else if eq_str(k, "_root") {
        1
    } else {
        2
    }
}

/// A coarse module identifier derived from a relative file path.
#[derive(Clone, Debug, PartialEq, Eq, PartialOrd, Ord, Hash)]
pub struct ModuleKey(String);

impl View for ModuleKey {
    type V = Seq<char>;

    closed spec fn view(&self) -> Seq<char> {
        self.0@
    }
}

impl ModuleKey {
    /// The key of files at the repository root.
    pub const ROOT: &'static str = "_root";

    /// Create a module key from an already-normalized string.
    pub fn new(key: &str) -> (k: ModuleKey)
        ensures
            k@ == key@,
    {
        ModuleKey(key.to_owned())
    }

    /// Create a module key from characters.
    pub fn from_chars(key: &[char]) -> (k: ModuleKey)
        ensures
            k@ == key@,
    {
        ModuleKey(string_of(key))
    }

    /// Borrow the key as a string slice.
    pub fn as_str(&self) -> (s: &str)
        ensures
            s@ == self@,
    {
        self.0.as_str()
    }

    /// The key as an owned `String` (what `Display` would print).
    pub fn to_string(&self) -> (s: String)
        ensures
            s@ == self@,
    {
        self.0.clone()
    }

    /// Convert into the inner `String`.
    pub fn into_string(self) -> (s: String)
        ensures
            s@ == self@,
    {
        self.0
    }

    /// The key's characters.
    pub fn chars(&self) -> (v: Vec<char>)
        ensures
            v@ == self@,
    {
        chars_of(self.0.as_str())
    }

    /// A copy with the same value.
    pub fn duplicate(&self) -> (k: ModuleKey)
        ensures
            k@ == self@,
    {
        ModuleKey(self.0.clone())
    }

    /// Whether two keys are equal.
    pub fn same(&self, other: &ModuleKey) -> (r: bool)
        ensures
            r == (self@ == other@),
    {
        self.0 == other.0
    }
}

impl AsRef<str> for ModuleKey {
    fn as_ref(&self) -> (r: &str)
        ensures
            r@ == self@,
    {
        self.0.as_str()
    }
}

impl From<ModuleKey> for String {
    fn from(k: ModuleKey) -> (s: String) {
        k.0
    }
}

impl vstd::std_specs::convert::FromSpecImpl<ModuleKey> for String {
    open spec fn obeys_from_spec() -> bool {
        true
    }

    closed spec fn from_spec(k: ModuleKey) -> String {
        k.0
    }
}

impl KeyOrder for ModuleKey {
    open spec fn key_le(a: ModuleKey, b: ModuleKey) -> bool {
        module_le(a@, b@)
    }

    fn le_exec(&self, other: &ModuleKey) -> (r: bool) {
        let a = self.chars();
        let b = other.chars();
        !module_less(&b, &a)
    }
}

/// One entry in a module inventory: key plus file count.
#[derive(Clone, Debug, PartialEq, Eq)]
pub struct ModuleCount {
    /// Module key.
    pub key: ModuleKey,
    /// Number of files assigned to this module.
    pub count: usize,
}

impl KeyOrder for ModuleCount {
    open spec fn key_le(a: ModuleCount, b: ModuleCount) -> bool {
        module_le(a.key@, b.key@)
    }

    fn le_exec(&self, other: &ModuleCount) -> (r: bool) {
        self.key.le_exec(&other.key)
    }
}

/// Inventory order on `ModuleKey`s is total and transitive.
pub proof fn lemma_module_key_total()
    ensures
        is_total_order::<ModuleKey>(),
{
    assert forall|a: ModuleKey, b: ModuleKey| ModuleKey::key_le(a, b) || ModuleKey::key_le(b, a) by {
        lemma_module_order(a@, b@, a@);
    }
    assert forall|a: ModuleKey, b: ModuleKey, c: ModuleKey|
        ModuleKey::key_le(a, b) && ModuleKey::key_le(b, c) implies ModuleKey::key_le(a, c) by {
        lemma_module_order(c@, b@, a@);
        lemma_module_order(c@, a@, b@);
        lemma_module_order(b@, a@, c@);
        lemma_module_order(a@, c@, b@);
        lemma_module_order(a@, b@, c@);
    }
}

/// Inventory order on `ModuleCount`s (by key) is total and transitive.
pub proof fn lemma_module_count_total()
    ensures
        is_total_order::<ModuleCount>(),
{
    assert forall|a: ModuleCount, b: ModuleCount| ModuleCount::key_le(a, b) || ModuleCount::key_le(b, a) by {
        lemma_module_order(a.key@, b.key@, a.key@);
    }
    assert forall|a: ModuleCount, b: ModuleCount, c: ModuleCount|
        ModuleCount::key_le(a, b) && ModuleCount::key_le(b, c) implies ModuleCount::key_le(a, c) by {
        lemma_module_order(c.key@, b.key@, a.key@);
        lemma_module_order(c.key@, a.key@, b.key@);
        lemma_module_order(b.key@, a.key@, c.key@);
        lemma_module_order(a.key@, c.key@, b.key@);
        lemma_module_order(a.key@, b.key@, c.key@);
    }
}

/// Derive the module key for a relative file path using `/` separators.
pub fn module_key(path: &str) -> (k: ModuleKey)
    ensures
        k@ == module_key_of(path@),
{
    proof {
        reveal_strlit("_root");
        reveal_strlit("apps");
        reveal_strlit("apps/");
        assert("apps/"@ =~= apps_prefix());
        assert("apps"@ =~= apps_key());
        assert("_root"@ =~= root_key());
    }
    let p = chars_of(path);
    proof {
        lemma_char_from(p@, '/', 0);
    }
    match find_char(&p, '/', 0) {
        None => ModuleKey::new("_root"),
        Some(i) => {
            let n = p.len();
            assert(i < n);
            let first = slice_chars(&p, 0, i);
            let rest = slice_chars(&p, i + 1, n);
            assert(first@ =~= p@.take(i as int));
            assert(rest@ =~= p@.skip(i + 1));
            if eq_str(&first, "apps") {
                match find_char(&rest, '/', 0) {
                    Some(j) => {
                        proof {
                            lemma_char_from(rest@, '/', 0);
                        }
                        let mut key = chars_of("apps/");
                        let name = slice_chars(&rest, 0, j);
                        push_all(&mut key, &name);
                        assert(name@ =~= rest@.take(j as int));
                        ModuleKey::from_chars(&key)
                    },
                    None => ModuleKey::new("apps"),
                }
            } else {
                ModuleKey::from_chars(&first)
            }
        },
    }
}

/// Number of paths in `files` whose module key is `k`.
pub open spec fn count_key(files: Seq<&str>, k: Seq<char>) -> nat
    decreases files.len(),
{
    if files.len() == 0 {
        0
    } else {
        count_key(files.drop_last(), k) + if module_key_of(files.last()@) == k {
            1nat
        } else {
            0nat
        }
    }
}

/// `inv` is a correct inventory of `files`: one entry per distinct module
/// key, each with the number of files mapped to it.
pub open spec fn is_inventory(inv: Seq<ModuleCount>, files: Seq<&str>) -> bool {
    &&& forall|i: int, j: int| 0 <= i < j < inv.len() ==> inv[i].key@ != inv[j].key@
    &&& forall|i: int| 0 <= i < inv.len() ==> inv[i].count == count_key(files, inv[i].key@)
    &&& forall|i: int| 0 <= i < inv.len() ==> inv[i].count > 0
    &&& forall|f: int| 0 <= f < files.len() ==> has_key(inv, module_key_of(#[trigger] files[f]@))
}

/// Some entry of `inv` has key `k`.
pub open spec fn has_key(inv: Seq<ModuleCount>, k: Seq<char>) -> bool {
    exists|i: int| 0 <= i < inv.len() && inv[i].key@ == k
}

/// `inv` lists keys in strict inventory order.
pub open spec fn in_inventory_order(inv: Seq<ModuleCount>) -> bool {
    forall|i: int, j: int| 0 <= i < j < inv.len() ==> module_lt(inv[i].key@, inv[j].key@)
}

proof fn lemma_perm_member(a: Seq<ModuleCount>, b: Seq<ModuleCount>, i: int) -> (k: int)
    requires
        a.to_multiset() == b.to_multiset(),
        0 <= i < b.len(),
    ensures
        0 <= k < a.len(),
        a[k] == b[i],
{
    broadcast use vstd::seq_lib::group_to_multiset_ensures;

    assert(b.to_multiset().count(b[i]) > 0);
    assert(a.contains(b[i]));
    choose|k: int| 0 <= k < a.len() && a[k] == b[i]
}

proof fn lemma_inventory_perm(a: Seq<ModuleCount>, b: Seq<ModuleCount>, files: Seq<&str>)
    requires
        is_inventory(a, files),
        a.to_multiset() == b.to_multiset(),
        a.len() == b.len(),
    ensures
        is_inventory(b, files),
{
    assert forall|i: int| 0 <= i < b.len() implies b[i].count == count_key(files, b[i].key@) by {
        let k = lemma_perm_member(a, b, i);
    }
    assert forall|i: int| 0 <= i < b.len() implies b[i].count > 0 by {
        let k = lemma_perm_member(a, b, i);
    }
    assert forall|i: int, j: int| 0 <= i < j < b.len() implies b[i].key@ != b[j].key@ by {
        if b[i].key@ == b[j].key@ {
            let ki = lemma_perm_member(a, b, i);
            let kj = lemma_perm_member(a, b, j);
            if ki == kj {
                lemma_count_two(b, i, j);
                lemma_count_le_one(a, ki);
            } else {
                assert(a[ki].key@ == a[kj].key@);
            }
        }
    }
    assert forall|f: int| 0 <= f < files.len() implies has_key(b, module_key_of(#[trigger] files[f]@)) by {
        let k = choose|k: int| 0 <= k < a.len() && a[k].key@ == module_key_of(files[f]@);
        let i = lemma_perm_member(b, a, k);
        assert(b[i].key@ == module_key_of(files[f]@));
    }
}

proof fn lemma_count_two(s: Seq<ModuleCount>, i: int, j: int)
    requires
        0 <= i < j < s.len(),
        s[i] == s[j],
    ensures
        s.to_multiset().count(s[i]) >= 2,
    decreases s.len(),
{
    broadcast use vstd::seq_lib::group_to_multiset_ensures;

    let x = s[i];
    if j == s.len() - 1 {
        assert(s.drop_last().to_multiset().count(x) >= 1) by {
            assert(s.drop_last()[i] == x);
            assert(s.drop_last().contains(x));
        }
        assert(s =~= s.drop_last().push(s.last()));
    } else {
        lemma_count_two(s.drop_last(), i, j);
        assert(s =~= s.drop_last().push(s.last()));
    }
}

proof fn lemma_count_le_one(a: Seq<ModuleCount>, k: int)
    requires
        0 <= k < a.len(),
        forall|i: int, j: int| 0 <= i < j < a.len() ==> a[i].key@ != a[j].key@,
    ensures
        a.to_multiset().count(a[k]) <= 1,
    decreases a.len(),
{
    broadcast use vstd::seq_lib::group_to_multiset_ensures;

    assert(a =~= a.drop_last().push(a.last()));
    if k == a.len() - 1 {
        assert(!a.drop_last().contains(a[k])) by {
            if a.drop_last().contains(a[k]) {
                let m = choose|m: int| 0 <= m < a.drop_last().len() && a.drop_last()[m] == a[k];
                assert(a[m].key@ == a[k].key@);
            }
        }
    } else {
        lemma_count_le_one(a.drop_last(), k);
        assert(a.last() != a[k]) by {
            assert(a[a.len() - 1].key@ != a[k].key@);
        }
    }
}

/// Group relative file paths into modules and count files per module,
/// ordered `apps/*` → `_root` → remaining keys.
pub fn discover_modules(files: &[&str]) -> (r: Vec<ModuleCount>)
    ensures
        is_inventory(r@, files@),
        in_inventory_order(r@),
{
    let mut entries: Vec<ModuleCount> = Vec::new();
    let mut i: usize = 0;
    while i < files.len()
        invariant
            i <= files@.len(),
            is_inventory(entries@, files@.take(i as int)),
            forall|e: int| 0 <= e < entries@.len() ==> entries@[e].count <= i,
        decreases files.len() - i,
    {
        let ghost pre = files@.take(i as int);
        let ghost post = files@.take(i + 1);
        assert(post.drop_last() =~= pre);
        let k = module_key(files[i]);
        let mut j: usize = 0;
        while j < entries.len() && !entries[j].key.same(&k)
            invariant
                j <= entries@.len(),
                forall|e: int| 0 <= e < j ==> entries@[e].key@ != k@,
            decreases entries.len() - j,
        {
            j = j + 1;
        }
        let ghost old_entries = entries@;
        if j < entries.len() {
            let c = entries[j].count;
            entries.set(j, ModuleCount { key: k, count: c + 1 });
            assert forall|e: int| 0 <= e < entries@.len() implies entries@[e].count == count_key(
                post,
                entries@[e].key@,
            ) by {
                assert(post.last() == files@[i as int]);
            }
            assert forall|f: int| 0 <= f < post.len() implies has_key(
                entries@,
                module_key_of(#[trigger] post[f]@),
            ) by {
                if f < pre.len() {
                    assert(post[f] == pre[f]);
                    let e = choose|e: int|
                        0 <= e < old_entries.len() && old_entries[e].key@ == module_key_of(
                            pre[f]@,
                        );
                    assert(entries@[e].key@ == old_entries[e].key@);
                } else {
                    assert(entries@[j as int].key@ == module_key_of(post[f]@));
                }
            }
        } else {
            entries.push(ModuleCount { key: k, count: 1 });
            assert(count_key(pre, k@) == 0) by {
                lemma_count_key_absent(pre, k@);
            }
            assert forall|e: int| 0 <= e < entries@.len() implies entries@[e].count == count_key(
                post,
                entries@[e].key@,
            ) by {
                assert(post.last() == files@[i as int]);
            }
            assert forall|f: int| 0 <= f < post.len() implies has_key(
                entries@,
                module_key_of(#[trigger] post[f]@),
            ) by {
                if f < pre.len() {
                    assert(post[f] == pre[f]);
                    let e = choose|e: int|
                        0 <= e < old_entries.len() && old_entries[e].key@ == module_key_of(
                            pre[f]@,
                        );
                    assert(entries@[e] == old_entries[e]);
                } else {
                    assert(entries@[old_entries.len() as int].key@ == module_key_of(post[f]@));
                }
            }
        }
        i = i + 1;
    }
    assert(files@.take(files@.len() as int) =~= files@);
    let ghost unsorted = entries@;
    let sorted = sort_stable(entries);
    proof {
        lemma_sort_elems(unsorted);
        lemma_inventory_perm(unsorted, sorted@, files@);
        lemma_module_count_total();
        lemma_sort_sorted(unsorted);
        assert forall|a: int, b: int| 0 <= a < b < sorted@.len() implies module_lt(
            sorted@[a].key@,
            sorted@[b].key@,
        ) by {
            assert(ModuleCount::key_le(sorted@[a], sorted@[b]));
            lemma_module_order(sorted@[a].key@, sorted@[b].key@, sorted@[a].key@);
        }
    }
    sorted
}

/// The views of a sequence of keys.
pub open spec fn key_views(s: Seq<ModuleKey>) -> Seq<Seq<char>> {
    s.map_values(|k: ModuleKey| k@)
}

/// Insert key `x` into `t` after the last key that does not sort after it.
pub open spec fn insert_key(t: Seq<Seq<char>>, x: Seq<char>) -> Seq<Seq<char>>
    decreases t.len(),
{
    if t.len() == 0 {
        seq![x]
    } else if module_le(t.last(), x) {
        t.push(x)
    } else {
        insert_key(t.drop_last(), x).push(t.last())
    }
}

/// Keys sorted (stably) into inventory order.
pub open spec fn sort_keys(s: Seq<Seq<char>>) -> Seq<Seq<char>>
    decreases s.len(),
{
    if s.len() == 0 {
        s
    } else {
        insert_key(sort_keys(s.drop_last()), s.last())
    }
}

proof fn lemma_insert_key_views(t: Seq<ModuleKey>, x: ModuleKey)
    ensures
        key_views(insert_by(t, x)) == insert_key(key_views(t), x@),
    decreases t.len(),
{
    if t.len() == 0 {
        assert(key_views(seq![x]) =~= seq![x@]);
    } else {
        assert(key_views(t).last() == t.last()@);
        assert(key_views(t.drop_last()) =~= key_views(t).drop_last());
        if module_le(t.last()@, x@) {
            assert(key_views(t.push(x)) =~= key_views(t).push(x@));
        } else {
            lemma_insert_key_views(t.drop_last(), x);
            assert(key_views(insert_by(t.drop_last(), x).push(t.last())) =~= key_views(
                insert_by(t.drop_last(), x),
            ).push(t.last()@));
        }
    }
}

/// Sorting keys commutes with taking their views.
pub proof fn lemma_sort_key_views(s: Seq<ModuleKey>)
    ensures
        key_views(sort_seq(s)) == sort_keys(key_views(s)),
    decreases s.len(),
{
    if s.len() > 0 {
        lemma_sort_key_views(s.drop_last());
        lemma_insert_key_views(sort_seq(s.drop_last()), s.last());
        assert(key_views(s.drop_last()) =~= key_views(s).drop_last());
    }
}

/// Sort module keys into inventory order (stable).
pub fn sort_module_keys(keys: Vec<ModuleKey>) -> (r: Vec<ModuleKey>)
    ensures
        key_views(r@) == sort_keys(key_views(keys@)),
{
    let r = sort_stable(keys);
    proof {
        lemma_sort_key_views(keys@);
    }
    r
}

proof fn lemma_count_key_absent(files: Seq<&str>, k: Seq<char>)
    requires
        forall|f: int| 0 <= f < files.len() ==> module_key_of(#[trigger] files[f]@) != k,
    ensures
        count_key(files, k) == 0,
    decreases files.len(),
{
    if files.len() > 0 {
        assert forall|f: int| 0 <= f < files.drop_last().len() implies module_key_of(
            #[trigger] files.drop_last()[f]@,
        ) != k by {
            assert(files.drop_last()[f] == files[f]);
        }
        lemma_count_key_absent(files.drop_last(), k);
        assert(module_key_of(files[files.len() - 1]@) != k);
    }
}

} // verus!
