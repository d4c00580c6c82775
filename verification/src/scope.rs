//! Monorepo app/module scope filtering.
//!
//! A scoped analysis keeps files whose module is in the scope plus shared
//! root scaffolding (`_root` and `config`).

use vstd::prelude::*;

use crate::module::{
    key_views, module_key, module_key_of, root_key, sort_keys, sort_module_keys, ModuleCount,
    ModuleKey,
};

verus! {

broadcast use vstd::string::group_string_axioms;

/// Statistics describing a (possibly scoped) file filter pass.
#[derive(Clone, Debug, PartialEq, Eq)]
pub struct FilterStats {
    /// `true` when a scope filter was applied (including an empty scope list).
    pub filtered: bool,
    /// File count before filtering.
    pub before: usize,
    /// File count after filtering (`<= before`).
    pub after: usize,
    /// Shared scaffolding files kept that were not already in scope.
    pub kept_shared: usize,
    /// Module keys for this run, ordered `apps/*` → `_root` → others.
    pub module_keys: Vec<ModuleKey>,
}

/// Result of applying a scope filter: kept relative paths and stats.
#[derive(Clone, Debug, PartialEq, Eq)]
pub struct ScopeFilterResult {
    /// Paths retained after filtering, in input order.
    pub files: Vec<String>,
    /// Filter statistics for the run.
    pub stats: FilterStats,
}

/// `"config"`.
pub open spec fn config_key() -> Seq<char> {
    seq!['c', 'o', 'n', 'f', 'i', 'g']
}

/// Shared scaffolding modules: `_root` and `config`.
pub open spec fn is_shared(k: Seq<char>) -> bool {
    k == root_key() || k == config_key()
}

/// Whether a module key is shared root scaffolding kept under app scope.
pub fn is_shared_module(key: &ModuleKey) -> (r: bool)
    ensures
        r == is_shared(key@),
{
    proof {
        reveal_strlit("_root");
        reveal_strlit("config");
        assert("_root"@ =~= root_key());
        assert("config"@ =~= config_key());
    }
    let k = key.chars();
    crate::text::eq_str(&k, "_root") || crate::text::eq_str(&k, "config")
}

/// The views of a sequence of strings.
pub open spec fn string_views(s: Seq<String>) -> Seq<Seq<char>> {
    s.map_values(|x: String| x@)
}

/// Build unscoped filter stats (no app filter applied): every module key of
/// `modules`, re-sorted into inventory order.
pub fn unscoped_filter_stats(file_count: usize, modules: &[ModuleCount]) -> (s: FilterStats)
    ensures
        !s.filtered,
        s.before == file_count,
        s.after == file_count,
        s.kept_shared == 0,
        key_views(s.module_keys@) == sort_keys(modules@.map_values(|m: ModuleCount| m.key@)),
{
    let mut keys: Vec<ModuleKey> = Vec::new();
    let mut i: usize = 0;
    while i < modules.len()
        invariant
            i <= modules@.len(),
            key_views(keys@) == modules@.take(i as int).map_values(|m: ModuleCount| m.key@),
        decreases modules.len() - i,
    {
        let ghost prev = keys@;
        let k = modules[i].key.duplicate();
        keys.push(k);
        assert(key_views(keys@) =~= key_views(prev).push(modules@[i as int].key@));
        assert(modules@.take(i + 1).map_values(|m: ModuleCount| m.key@) =~= modules@.take(
            i as int,
        ).map_values(|m: ModuleCount| m.key@).push(modules@[i as int].key@));
        i = i + 1;
    }
    assert(modules@.take(modules@.len() as int) =~= modules@);
    let module_keys = sort_module_keys(keys);
    FilterStats { filtered: false, before: file_count, after: file_count, kept_shared: 0, module_keys }
}

/// `k` is one of the scope keys.
pub open spec fn in_scope(scope: Seq<Seq<char>>, k: Seq<char>) -> bool {
    scope.contains(k)
}

/// A path is kept when its module is in scope or shared.
pub open spec fn keeps(scope: Seq<Seq<char>>, path: Seq<char>) -> bool {
    in_scope(scope, module_key_of(path)) || is_shared(module_key_of(path))
}

/// The paths of `files` that the scope keeps, in order.
pub open spec fn kept_paths(files: Seq<&str>, scope: Seq<Seq<char>>) -> Seq<Seq<char>>
    decreases files.len(),
{
    if files.len() == 0 {
        Seq::empty()
    } else {
        let rest = kept_paths(files.drop_last(), scope);
        if keeps(scope, files.last()@) {
            rest.push(files.last()@)
        } else {
            rest
        }
    }
}

/// Scope filtering keeps exactly the listed paths whose module is in scope
/// or shared: files of shared modules (`_root`, `config`) are always kept,
/// and nothing outside the scope and the shared modules is.
pub proof fn lemma_kept_paths_members(files: Seq<&str>, scope: Seq<Seq<char>>)
    ensures
        forall|p: Seq<char>|
            #[trigger] kept_paths(files, scope).contains(p) <==> (keeps(scope, p) && files.map_values(
                |f: &str| f@,
            ).contains(p)),
    decreases files.len(),
{
    let fv = files.map_values(|f: &str| f@);
    if files.len() > 0 {
        let d = files.drop_last();
        lemma_kept_paths_members(d, scope);
        let dv = d.map_values(|f: &str| f@);
        assert(fv =~= dv.push(files.last()@));
        let rest = kept_paths(d, scope);
        assert forall|p: Seq<char>| #[trigger]
            kept_paths(files, scope).contains(p) <==> (keeps(scope, p) && fv.contains(p)) by {
            if kept_paths(files, scope).contains(p) {
                let k = choose|k: int| 0 <= k < kept_paths(files, scope).len() && kept_paths(files, scope)[k] == p;
                if k < rest.len() {
                    assert(rest[k] == p);
                    assert(rest.contains(p));
                    let m = choose|m: int| 0 <= m < dv.len() && dv[m] == p;
                    assert(fv[m] == p);
                } else {
                    assert(p == files.last()@);
                    assert(fv[fv.len() - 1] == p);
                }
            }
            if keeps(scope, p) && fv.contains(p) {
                let m = choose|m: int| 0 <= m < fv.len() && fv[m] == p;
                if m < dv.len() {
                    assert(dv[m] == p);
                    assert(dv.contains(p));
                    assert(rest.contains(p));
                    let k = choose|k: int| 0 <= k < rest.len() && rest[k] == p;
                    assert(kept_paths(files, scope)[k] == p);
                } else {
                    assert(p == files.last()@);
                    let r = kept_paths(files, scope);
                    assert(r[r.len() - 1] == p);
                }
            }
        }
    } else {
        assert(fv.len() == 0);
    }
}

/// Number of kept files that are shared scaffolding outside the scope.
pub open spec fn shared_only_count(files: Seq<&str>, scope: Seq<Seq<char>>) -> nat
    decreases files.len(),
{
    if files.len() == 0 {
        0
    } else {
        let k = module_key_of(files.last()@);
        shared_only_count(files.drop_last(), scope) + if is_shared(k) && !in_scope(scope, k) {
            1nat
        } else {
            0nat
        }
    }
}

/// Keys of `s` with later duplicates removed (first occurrence wins).
pub open spec fn dedup(s: Seq<Seq<char>>) -> Seq<Seq<char>>
    decreases s.len(),
{
    if s.len() == 0 {
        s
    } else if s.drop_last().contains(s.last()) {
        dedup(s.drop_last())
    } else {
        dedup(s.drop_last()).push(s.last())
    }
}

proof fn lemma_push_contains(s: Seq<Seq<char>>, a: Seq<char>, y: Seq<char>)
    ensures
        s.push(a).contains(y) <==> (s.contains(y) || y == a),
{
    if s.contains(y) {
        let i = choose|i: int| 0 <= i < s.len() && s[i] == y;
        assert(s.push(a)[i] == y);
    }
    if y == a {
        assert(s.push(a)[s.len() as int] == y);
    }
    if s.push(a).contains(y) {
        let i = choose|i: int| 0 <= i < s.push(a).len() && s.push(a)[i] == y;
        if i < s.len() {
            assert(s[i] == y);
        }
    }
}

pub proof fn lemma_dedup_contains(s: Seq<Seq<char>>, y: Seq<char>)
    ensures
        dedup(s).contains(y) <==> s.contains(y),
    decreases s.len(),
{
    if s.len() > 0 {
        let p = s.drop_last();
        lemma_dedup_contains(p, y);
        assert(s =~= p.push(s.last()));
        lemma_push_contains(p, s.last(), y);
        if !p.contains(s.last()) {
            lemma_push_contains(dedup(p), s.last(), y);
        } else {
            lemma_dedup_contains(p, s.last());
        }
    }
}

/// Deduplicate keys (first occurrence wins), then sort into inventory order.
pub fn unique_sorted_module_keys(keys: &[ModuleKey]) -> (r: Vec<ModuleKey>)
    ensures
        key_views(r@) == sort_keys(dedup(key_views(keys@))),
{
    let mut unique: Vec<ModuleKey> = Vec::new();
    let mut i: usize = 0;
    while i < keys.len()
        invariant
            i <= keys@.len(),
            key_views(unique@) == dedup(key_views(keys@.take(i as int))),
        decreases keys.len() - i,
    {
        let ghost pre = key_views(keys@.take(i as int));
        assert(key_views(keys@.take(i + 1)) =~= pre.push(keys@[i as int]@));
        assert(key_views(keys@.take(i + 1)).drop_last() =~= pre);
        proof {
            lemma_dedup_contains(pre, keys@[i as int]@);
        }
        let mut j: usize = 0;
        while j < unique.len() && !unique[j].same(&keys[i])
            invariant
                j <= unique@.len(),
                i < keys@.len(),
                forall|e: int| 0 <= e < j ==> unique@[e]@ != keys@[i as int]@,
            decreases unique.len() - j,
        {
            j = j + 1;
        }
        if j == unique.len() {
            assert(!key_views(unique@).contains(keys@[i as int]@)) by {
                if key_views(unique@).contains(keys@[i as int]@) {
                    let e = choose|e: int|
                        0 <= e < key_views(unique@).len() && key_views(unique@)[e]
                            == keys@[i as int]@;
                    assert(unique@[e]@ == keys@[i as int]@);
                }
            }
            unique.push(keys[i].duplicate());
            assert(key_views(unique@) =~= dedup(pre).push(keys@[i as int]@));
        } else {
            assert(key_views(unique@)[j as int] == keys@[i as int]@);
            assert(dedup(pre).contains(keys@[i as int]@));
        }
        i = i + 1;
    }
    assert(keys@.take(keys@.len() as int) =~= keys@);
    sort_module_keys(unique)
}

/// Filter paths to the given module scope plus shared scaffolding.
///
/// `stats.module_keys` is the deduplicated scope sorted into inventory
/// order; an empty scope still counts as filtered and keeps only shared
/// scaffolding.
pub fn filter_files_by_scope(files: &[&str], scope: &[ModuleKey]) -> (r: ScopeFilterResult)
    ensures
        string_views(r.files@) == kept_paths(files@, key_views(scope@)),
        r.stats.filtered,
        r.stats.before == files@.len(),
        r.stats.after == r.files@.len(),
        r.stats.after <= r.stats.before,
        r.stats.kept_shared == shared_only_count(files@, key_views(scope@)),
        key_views(r.stats.module_keys@) == sort_keys(dedup(key_views(scope@))),
{
    let ghost sc = key_views(scope@);
    let mut kept: Vec<String> = Vec::new();
    let mut kept_shared: usize = 0;
    let mut i: usize = 0;
    while i < files.len()
        invariant
            i <= files@.len(),
            sc == key_views(scope@),
            string_views(kept@) == kept_paths(files@.take(i as int), sc),
            kept_shared == shared_only_count(files@.take(i as int), sc),
            kept@.len() <= i,
            kept_shared <= i,
        decreases files.len() - i,
    {
        let ghost pre = files@.take(i as int);
        assert(files@.take(i + 1).drop_last() =~= pre);
        assert(files@.take(i + 1).last() == files@[i as int]);
        let path = files[i];
        let key = module_key(path);
        let mut j: usize = 0;
        while j < scope.len() && !scope[j].same(&key)
            invariant
                j <= scope@.len(),
                forall|e: int| 0 <= e < j ==> scope@[e]@ != key@,
            decreases scope.len() - j,
        {
            j = j + 1;
        }
        let in_sc = j < scope.len();
        assert(in_sc == in_scope(sc, key@)) by {
            if in_sc {
                assert(sc[j as int] == key@);
            } else if in_scope(sc, key@) {
                let e = choose|e: int| 0 <= e < sc.len() && sc[e] == key@;
                assert(scope@[e]@ == key@);
            }
        }
        let shared = is_shared_module(&key);
        if in_sc || shared {
            kept.push(path.to_owned());
            assert(string_views(kept@) =~= kept_paths(pre, sc).push(path@));
            if shared && !in_sc {
                kept_shared = kept_shared + 1;
            }
        }
        i = i + 1;
    }
    assert(files@.take(files@.len() as int) =~= files@);
    let module_keys = unique_sorted_module_keys(scope);
    let after = kept.len();
    ScopeFilterResult {
        files: kept,
        stats: FilterStats { filtered: true, before: files.len(), after, kept_shared, module_keys },
    }
}

} // verus!
