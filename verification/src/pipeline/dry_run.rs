//! Dry-run planning: from a crawled inventory and the README text to the
//! module inventory, scope filter, setup assessment and budget estimate,
//! with no LLM calls. Crawling and reading the README is the caller's job.

use vstd::prelude::*;
use vstd::string::StringSliceAdditionalSpecFns;

use crate::budget::{
    estimate_of,
    budget_keys, estimate_budget, file_views, module_costs, raw_sum, sum, BudgetConfig,
    BudgetEstimate, FileSize,
};
use crate::crawl::CrawlError;
use crate::module::{module_key, module_key_of, ModuleCount, ModuleKey};
use crate::scope::FilterStats;
use crate::setup::SetupAssessment;
use crate::text::{decimal, decimal_chars, push_all, push_str, string_of};

verus! {

broadcast use vstd::string::group_string_axioms;

/// Everything a dry run reports.
#[derive(Debug)]
pub struct DryRunPlan {
    /// Repository root.
    pub root: String,
    /// Files in scope.
    pub files: Vec<String>,
    /// Module inventory of the whole tree.
    pub modules: Vec<ModuleCount>,
    /// Scope filter statistics.
    pub filter_stats: FilterStats,
    /// Setup documentation assessment.
    pub setup: SetupAssessment,
    /// Context budget estimate of the files in scope.
    pub budget: BudgetEstimate,
}

/// Errors of a dry run.
#[derive(Debug)]
pub enum DryRunError {
    /// The crawl failed.
    Crawl(CrawlError),
    /// The README could not be read.
    Io {
        /// The README path.
        path: String,
        /// The I/O error's message.
        message: String,
    },
    /// A file is larger than `usize::MAX` bytes.
    FileSizeOverflow {
        /// The file.
        path: String,
        /// Its size.
        size: u64,
    },
}

impl DryRunError {
    /// The error message.
    pub fn to_string(&self) -> (r: String)
        ensures
            r@ == match *self {
                DryRunError::Crawl(e) => match e {
                    CrawlError::NotADirectory(p) => "path is not a directory: "@ + p@,
                    CrawlError::Io { path, message } => "failed to access directory "@ + path@
                        + ": "@ + message@,
                    CrawlError::NonUtf8Path(p) => "path is not valid UTF-8: "@ + p@,
                },
                DryRunError::Io { path, message } => "failed to read "@ + path@ + ": "@ + message@,
                DryRunError::FileSizeOverflow { path, size } => "file size overflow for "@ + path@
                    + ": "@ + decimal(size as nat) + " bytes exceeds usize::MAX"@,
            },
    {
        match self {
            DryRunError::Crawl(e) => e.to_string(),
            DryRunError::Io { path, message } => {
                let mut out: Vec<char> = Vec::new();
                push_str(&mut out, "failed to read ");
                push_str(&mut out, path.as_str());
                push_str(&mut out, ": ");
                push_str(&mut out, message.as_str());
                string_of(&out)
            },
            DryRunError::FileSizeOverflow { path, size } => {
                let mut out: Vec<char> = Vec::new();
                push_str(&mut out, "file size overflow for ");
                push_str(&mut out, path.as_str());
                push_str(&mut out, ": ");
                push_all(&mut out, &decimal_chars(*size));
                push_str(&mut out, " bytes exceeds usize::MAX");
                string_of(&out)
            },
        }
    }
}

/// Index of the first size that does not fit in `usize`, among the pairs.
pub open spec fn first_oversized(files: Seq<String>, sizes: Seq<u64>) -> Option<int>
    decreases files.len(),
{
    if files.len() == 0 || sizes.len() == 0 {
        None
    } else if sizes[0] > usize::MAX {
        Some(0)
    } else {
        match first_oversized(files.drop_first(), sizes.drop_first()) {
            Some(i) => Some(i + 1),
            None => None,
        }
    }
}

/// The budget inputs of paired files and sizes (up to the shorter list).
pub open spec fn budget_views(files: Seq<String>, sizes: Seq<u64>) -> Seq<(Seq<char>, nat, Seq<char>)> {
    let n = if files.len() <= sizes.len() {
        files.len()
    } else {
        sizes.len()
    };
    Seq::new(n, |i: int| (files[i]@, sizes[i] as nat, module_key_of(files[i]@)))
}

/// When every size fits in `usize`, the estimate's sums fit too.
pub open spec fn budget_fits(bv: Seq<(Seq<char>, nat, Seq<char>)>, config: BudgetConfig) -> bool {
    (forall|i: int| 0 <= i < bv.len() ==> #[trigger] bv[i].1 <= usize::MAX) ==> raw_sum(bv)
        <= usize::MAX && sum(module_costs(bv, config)) <= usize::MAX
}

/// The first budget input whose size does not fit in `usize`.
pub open spec fn first_oversized_view(bv: Seq<(Seq<char>, nat, Seq<char>)>) -> Option<int>
    decreases bv.len(),
{
    if bv.len() == 0 {
        None
    } else if bv[0].1 > usize::MAX {
        Some(0)
    } else {
        match first_oversized_view(bv.drop_first()) {
            Some(i) => Some(i + 1),
            None => None,
        }
    }
}

/// The index `first_oversized_view` finds is in range.
proof fn lemma_first_oversized_view_index(bv: Seq<(Seq<char>, nat, Seq<char>)>)
    ensures
        first_oversized_view(bv) matches Some(i) ==> 0 <= i < bv.len() && bv[i].1 > usize::MAX,
    decreases bv.len(),
{
    if bv.len() > 0 {
        lemma_first_oversized_view_index(bv.drop_first());
    }
}

/// `first_oversized` read on the budget inputs.
proof fn lemma_first_oversized_view(files: Seq<String>, sizes: Seq<u64>)
    ensures
        first_oversized(files, sizes) == first_oversized_view(budget_views(files, sizes)),
    decreases files.len(),
{
    let bv = budget_views(files, sizes);
    if files.len() > 0 && sizes.len() > 0 {
        lemma_first_oversized_view(files.drop_first(), sizes.drop_first());
        assert(budget_views(files.drop_first(), sizes.drop_first()) =~= bv.drop_first());
        assert(bv[0].1 == sizes[0] as nat);
    } else {
        assert(bv.len() == 0);
    }
}

/// Every size among the budget inputs fits in `usize`.
pub open spec fn sizes_fit(bv: Seq<(Seq<char>, nat, Seq<char>)>) -> bool {
    forall|i: int| 0 <= i < bv.len() ==> #[trigger] bv[i].1 <= usize::MAX
}

/// Budget estimate for paired files and sizes (each file's module is its
/// `module_key`); a size past `usize::MAX` is `FileSizeOverflow` for the
/// first such file.
pub fn estimate_budget_for_files(files: &[String], sizes: &[u64], config: &BudgetConfig) -> (r:
    Result<BudgetEstimate, DryRunError>)
    requires
        budget_fits(budget_views(files@, sizes@), *config),
    ensures
        match r {
            Ok(b) => first_oversized(files@, sizes@) is None && estimate_of(
                b,
                budget_views(files@, sizes@),
                *config,
            ),
            Err(DryRunError::FileSizeOverflow { path, size }) => match first_oversized(files@, sizes@) {
                Some(i) => path@ == files@[i]@ && size == sizes@[i] && size > usize::MAX,
                None => false,
            },
            Err(_) => false,
        },
        r is Ok <==> sizes_fit(budget_views(files@, sizes@)),
{
    let n = if files.len() <= sizes.len() {
        files.len()
    } else {
        sizes.len()
    };
    let ghost bv = budget_views(files@, sizes@);
    let mut fs: Vec<FileSize> = Vec::new();
    let mut i: usize = 0;
    assert(files@.skip(0) =~= files@);
    assert(sizes@.skip(0) =~= sizes@);
    assert(file_views(fs@) =~= bv.take(0));
    while i < n
        invariant
            i <= n,
            n == bv.len(),
            n <= files@.len(),
            n <= sizes@.len(),
            bv == budget_views(files@, sizes@),
            first_oversized(files@, sizes@) == match first_oversized(
                files@.skip(i as int),
                sizes@.skip(i as int),
            ) {
                Some(k) => Some(k + i),
                None => None::<int>,
            },
            file_views(fs@) == bv.take(i as int),
            forall|j: int| 0 <= j < i ==> #[trigger] bv[j].1 <= usize::MAX,
        decreases n - i,
    {
        let size = sizes[i];
        assert(files@.skip(i as int)[0] == files@[i as int]);
        assert(sizes@.skip(i as int)[0] == sizes@[i as int]);
        if size > usize::MAX as u64 {
            assert(bv[i as int].1 > usize::MAX);
            return Err(DryRunError::FileSizeOverflow { path: files[i].clone(), size });
        }
        let key = module_key(files[i].as_str());
        let ghost before = fs@;
        fs.push(FileSize { path: files[i].clone(), chars: size as usize, module: key });
        assert(file_views(fs@) =~= file_views(before).push(bv[i as int]));
        assert(bv.take(i + 1) =~= bv.take(i as int).push(bv[i as int]));
        assert(files@.skip(i as int).drop_first() =~= files@.skip(i + 1));
        assert(sizes@.skip(i as int).drop_first() =~= sizes@.skip(i + 1));
        i = i + 1;
    }
    assert(bv.take(n as int) =~= bv);
    proof {
        if i == files@.len() {
            assert(files@.skip(i as int).len() == 0);
        } else {
            assert(sizes@.skip(i as int).len() == 0);
        }
    }
    Ok(estimate_budget(&fs, config))
}

/// Size recorded for path `p` among paired files and sizes (the last pair
/// with that path wins; 0 when there is none).
pub open spec fn size_lookup(files: Seq<&str>, sizes: Seq<u64>, p: Seq<char>) -> u64
    decreases files.len(),
{
    let n = if files.len() <= sizes.len() {
        files.len()
    } else {
        sizes.len()
    };
    if n == 0 {
        0
    } else if files[n - 1]@ == p {
        sizes[n - 1]
    } else {
        size_lookup(files.take(n - 1), sizes.take(n - 1), p)
    }
}

/// The budget inputs of a dry run: all paired files, or the files the
/// scope keeps with their recorded sizes.
pub open spec fn plan_views(files: Seq<&str>, sizes: Seq<u64>, scope: Option<Seq<Seq<char>>>) -> Seq<
    (Seq<char>, nat, Seq<char>),
> {
    match scope {
        None => {
            let n = if files.len() <= sizes.len() {
                files.len()
            } else {
                sizes.len()
            };
            Seq::new(n, |i: int| (files[i]@, sizes[i] as nat, module_key_of(files[i]@)))
        },
        Some(sc) => {
            let kept = crate::scope::kept_paths(files, sc);
            Seq::new(
                kept.len(),
                |i: int| (kept[i], size_lookup(files, sizes, kept[i]) as nat, module_key_of(kept[i])),
            )
        },
    }
}

fn lookup_size(files: &[&str], sizes: &[u64], p: &String) -> (r: u64)
    ensures
        r == size_lookup(files@, sizes@, p@),
{
    let mut n = if files.len() <= sizes.len() {
        files.len()
    } else {
        sizes.len()
    };
    let ghost f0 = files@;
    let ghost s0 = sizes@;
    let pv = crate::text::chars_of(p.as_str());
    proof {
        let ft = f0.take(n as int);
        let st = s0.take(n as int);
        if n > 0 {
            assert(ft[n - 1] == f0[n - 1]);
            assert(st[n - 1] == s0[n - 1]);
            assert(ft.take(n - 1) =~= f0.take(n - 1));
            assert(st.take(n - 1) =~= s0.take(n - 1));
        }
    }
    while n > 0
        invariant
            n <= files@.len(),
            n <= sizes@.len(),
            f0 == files@,
            s0 == sizes@,
            pv@ == p@,
            size_lookup(f0, s0, p@) == size_lookup(f0.take(n as int), s0.take(n as int), p@),
        decreases n,
    {
        let ghost ft = f0.take(n as int);
        let ghost st = s0.take(n as int);
        assert(ft[n - 1] == files@[n - 1]);
        assert(st[n - 1] == sizes@[n - 1]);
        if crate::text::eq_chars(&crate::text::chars_of(files[n - 1]), &pv) {
            return sizes[n - 1];
        }
        assert(ft.take(n - 1) =~= f0.take(n - 1));
        assert(st.take(n - 1) =~= s0.take(n - 1));
        n = n - 1;
    }
    0
}

fn owned_strings(files: &[&str]) -> (r: Vec<String>)
    ensures
        r@.len() == files@.len(),
        forall|i: int| 0 <= i < files@.len() ==> #[trigger] r@[i]@ == files@[i]@,
{
    let mut out: Vec<String> = Vec::new();
    let mut i: usize = 0;
    while i < files.len()
        invariant
            i <= files@.len(),
            out@.len() == i,
            forall|j: int| 0 <= j < i ==> #[trigger] out@[j]@ == files@[j]@,
        decreases files.len() - i,
    {
        out.push(files[i].to_owned());
        i = i + 1;
    }
    out
}

fn copy_sizes(sizes: &[u64]) -> (r: Vec<u64>)
    ensures
        r@ == sizes@,
{
    let mut out: Vec<u64> = Vec::new();
    let mut i: usize = 0;
    while i < sizes.len()
        invariant
            i <= sizes@.len(),
            out@ == sizes@.take(i as int),
        decreases sizes.len() - i,
    {
        out.push(sizes[i]);
        assert(out@ =~= sizes@.take(i + 1));
        i = i + 1;
    }
    assert(sizes@.take(sizes@.len() as int) =~= sizes@);
    out
}

/// The dry-run plan for a crawled inventory (`files` with parallel
/// `sizes`) and the README text: the module inventory and the setup
/// assessment of the whole tree; the files in scope (all of them without a
/// scope, else what the scope keeps, each with its recorded size) with
/// their filter statistics; and the budget estimate of the files in scope.
pub fn plan_dry_run(
    root: &str,
    files: &[&str],
    sizes: &[u64],
    readme: &str,
    scope: Option<&[ModuleKey]>,
    config: &BudgetConfig,
) -> (r: Result<DryRunPlan, DryRunError>)
    requires
        readme.spec_bytes().len() <= usize::MAX,
        budget_fits(
            plan_views(
                files@,
                sizes@,
                match scope {
                    Some(k) => Some(crate::module::key_views(k@)),
                    None => None,
                },
            ),
            *config,
        ),
    ensures
        match r {
            Ok(plan) => {
                let pv = plan_views(
                    files@,
                    sizes@,
                    match scope {
                        Some(k) => Some(crate::module::key_views(k@)),
                        None => None,
                    },
                );
                &&& plan.root@ == root@
                &&& crate::module::is_inventory(plan.modules@, files@)
                &&& crate::module::in_inventory_order(plan.modules@)
                &&& crate::setup::assessed(plan.setup, readme, files@)
                &&& crate::scope::string_views(plan.files@) == match scope {
                    Some(k) => crate::scope::kept_paths(files@, crate::module::key_views(k@)),
                    None => files@.map_values(|f: &str| f@),
                }
                &&& plan.filter_stats.filtered == (scope is Some)
                &&& plan.filter_stats.before == files@.len()
                &&& plan.filter_stats.after == plan.files@.len()
                &&& plan.filter_stats.kept_shared == match scope {
                    Some(k) => crate::scope::shared_only_count(files@, crate::module::key_views(k@)),
                    None => 0,
                }
                &&& crate::module::key_views(plan.filter_stats.module_keys@) == match scope {
                    Some(k) => crate::module::sort_keys(crate::scope::dedup(crate::module::key_views(k@))),
                    None => crate::module::sort_keys(plan.modules@.map_values(|m: ModuleCount| m.key@)),
                }
                &&& crate::budget::estimate_of(plan.budget, pv, *config)
                &&& files@.len() == sizes@.len() ==> plan.budget.file_count == plan.files@.len()
                &&& files@.len() == sizes@.len() ==> (plan.budget.batch_count == 0 <==> plan.files@.len()
                    == 0)
            },
            Err(DryRunError::FileSizeOverflow { path, size }) => match first_oversized_view(
                plan_views(
                    files@,
                    sizes@,
                    match scope {
                        Some(k) => Some(crate::module::key_views(k@)),
                        None => None,
                    },
                ),
            ) {
                Some(i) => {
                    let pv = plan_views(
                        files@,
                        sizes@,
                        match scope {
                            Some(k) => Some(crate::module::key_views(k@)),
                            None => None,
                        },
                    );
                    path@ == pv[i].0 && size as nat == pv[i].1 && size > usize::MAX
                },
                None => false,
            },
            Err(_) => false,
        },
        r is Ok <==> sizes_fit(
            plan_views(
                files@,
                sizes@,
                match scope {
                    Some(k) => Some(crate::module::key_views(k@)),
                    None => None,
                },
            ),
        ),
{
    let modules = crate::module::discover_modules(files);
    let setup = crate::setup::assess_setup(readme, files);
    let ghost sc: Option<Seq<Seq<char>>> = match scope {
        Some(k) => Some(crate::module::key_views(k@)),
        None => None,
    };
    let ghost pv = plan_views(files@, sizes@, sc);
    let (kept, kept_sizes, stats) = match scope {
        None => {
            let stats = crate::scope::unscoped_filter_stats(files.len(), &modules);
            let all = owned_strings(files);
            assert(crate::scope::string_views(all@) =~= files@.map_values(|f: &str| f@));
            let sz = copy_sizes(sizes);
            assert(budget_views(all@, sz@) =~= pv);
            (all, sz, stats)
        },
        Some(keys) => {
            let filtered = crate::scope::filter_files_by_scope(files, keys);
            let mut sz: Vec<u64> = Vec::new();
            let mut i: usize = 0;
            while i < filtered.files.len()
                invariant
                    i <= filtered.files@.len(),
                    sz@.len() == i,
                    forall|j: int|
                        0 <= j < i ==> #[trigger] sz@[j] == size_lookup(files@, sizes@, filtered.files@[j]@),
                decreases filtered.files.len() - i,
            {
                sz.push(lookup_size(files, sizes, &filtered.files[i]));
                i = i + 1;
            }
            proof {
                let kept = crate::scope::kept_paths(files@, crate::module::key_views(keys@));
                assert(crate::scope::string_views(filtered.files@) == kept);
                assert forall|j: int| 0 <= j < kept.len() implies #[trigger] kept[j] == filtered.files@[j]@ by {
                    assert(crate::scope::string_views(filtered.files@)[j] == filtered.files@[j]@);
                }
                assert(budget_views(filtered.files@, sz@) =~= pv);
            }
            (filtered.files, sz, filtered.stats)
        },
    };
    let budget = match estimate_budget_for_files(&kept, &kept_sizes, config) {
        Ok(b) => b,
        Err(e) => {
            proof {
                lemma_first_oversized_view(kept@, kept_sizes@);
                lemma_first_oversized_view_index(budget_views(kept@, kept_sizes@));
            }
            return Err(e);
        },
    };
    proof {
        crate::budget::lemma_batches_iff_files(pv, *config);
        assert(crate::scope::string_views(kept@).len() == kept@.len());
    }
    Ok(
        DryRunPlan {
            root: root.to_owned(),
            files: kept,
            modules,
            filter_stats: stats,
            setup,
            budget,
        },
    )
}

} // verus!
