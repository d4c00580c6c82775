//! Setup documentation assessment (onboarding score).
//!
//! Scores README text and the file inventory against five signals used to
//! decide whether a generated Setup chapter is needed.

use vstd::prelude::*;
use vstd::string::StringSliceAdditionalSpecFns;

use crate::order::{sort_lex, sort_strings};
use crate::scope::string_views;
use crate::text::{chars_of, contains, contains_str, eq_str, string_of};

verus! {

broadcast use vstd::string::group_string_axioms;

/// Config basenames recognised anywhere in the tree (final path component).
pub const CONFIG_FILE_NAMES: [&'static str; 13] = [
    ".env.example",
    "pyproject.toml",
    "setup.py",
    "setup.cfg",
    "requirements.txt",
    "mix.exs",
    "package.json",
    "Gemfile",
    "Gemfile.lock",
    "Dockerfile",
    "docker-compose.yml",
    "docker-compose.yaml",
    "Makefile",
];

/// Minimum README length in bytes to avoid the short-README penalty.
pub const MIN_README_LEN: usize = 300;

/// Points awarded for each of the five setup signals when present.
pub const SIGNAL_POINTS: i32 = 20;

/// Penalty applied when a README exists but is shorter than `MIN_README_LEN`.
pub const SHORT_README_PENALTY: i32 = 2;

/// Boolean signals detected from README text and the file inventory.
#[derive(Clone, Debug, PartialEq, Eq)]
pub struct SetupSignals {
    /// README content is non-empty.
    pub has_readme: bool,
    /// Install/bootstrap wording found in the README.
    pub has_install_commands: bool,
    /// Env docs via `.env.example` in the file list or env wording in README.
    pub has_env_docs: bool,
    /// Local run wording found in the README.
    pub has_run_instructions: bool,
    /// Prerequisites / runtime wording found in the README.
    pub has_prerequisites: bool,
    /// README length in bytes.
    pub readme_length: usize,
}

/// Result of assessing setup documentation quality.
#[derive(Clone, Debug, PartialEq, Eq)]
pub struct SetupAssessment {
    /// Whether a Setup guide should be generated (`score < 80` or two or more gaps).
    pub needs_setup_guide: bool,
    /// Total score.
    pub score: i32,
    /// Individual detection signals.
    pub signals: SetupSignals,
    /// Gap messages for missing or weak signals.
    pub gaps: Vec<String>,
    /// Paths whose basename is a known config file name, sorted.
    pub config_files: Vec<String>,
}

/// What `str::to_lowercase` returns (full Unicode lowercase mapping).
pub uninterp spec fn unicode_lowercase(s: Seq<char>) -> Seq<char>;

/// Trusted: `str::to_lowercase` gives the full Unicode lowercase mapping of
/// `s`, named `unicode_lowercase`; nothing more is claimed of it.
#[verifier::external_body]
fn to_lowercase(s: &str) -> (r: String)
    ensures
        r@ == unicode_lowercase(s@),
{
    s.to_lowercase()
}

/// Path separator accepted by `file_name`.
pub open spec fn is_sep(c: char) -> bool {
    c == '/' || c == '\\'
}

/// Final path component, accepting `/` or `\` separators.
pub open spec fn basename(p: Seq<char>) -> Seq<char>
    decreases p.len(),
{
    if p.len() == 0 {
        p
    } else if is_sep(p.last()) {
        Seq::empty()
    } else {
        basename(p.drop_last()).push(p.last())
    }
}

/// Exec `basename` on characters.
fn basename_chars(path: &str) -> (r: Vec<char>)
    ensures
        r@ == basename(path@),
{
    let p = chars_of(path);
    let mut j = p.len();
    assert(p@.take(p@.len() as int) =~= p@);
    assert(p@.skip(p@.len() as int) =~= Seq::<char>::empty());
    while j > 0 && p[j - 1] != '/' && p[j - 1] != '\\'
        invariant
            j <= p@.len(),
            basename(p@) == basename(p@.take(j as int)) + p@.skip(j as int),
        decreases j,
    {
        assert(p@.take(j as int).drop_last() =~= p@.take(j - 1));
        assert(p@.skip(j - 1) =~= seq![p@[j - 1]] + p@.skip(j as int));
        assert(basename(p@.take(j as int)) =~= basename(p@.take(j - 1)).push(p@[j - 1]));
        j = j - 1;
    }
    assert(basename(p@.take(j as int)) =~= Seq::<char>::empty()) by {
        if j > 0 {
            assert(p@.take(j as int).last() == p@[j - 1]);
        }
    }
    assert(p@.take(p@.len() as int) =~= p@);
    assert(p@.skip(p@.len() as int) =~= Seq::<char>::empty());
    crate::text::slice_chars(&p, j, p.len())
}

/// Final path component, accepting `/` or `\\` separators.
pub fn file_name(path: &str) -> (r: String)
    ensures
        r@ == basename(path@),
{
    string_of(&basename_chars(path))
}

/// Whether `n` is one of the recognised config file names.
pub open spec fn is_config_name(n: Seq<char>) -> bool {
    ||| n == ".env.example"@
    ||| n == "pyproject.toml"@
    ||| n == "setup.py"@
    ||| n == "setup.cfg"@
    ||| n == "requirements.txt"@
    ||| n == "mix.exs"@
    ||| n == "package.json"@
    ||| n == "Gemfile"@
    ||| n == "Gemfile.lock"@
    ||| n == "Dockerfile"@
    ||| n == "docker-compose.yml"@
    ||| n == "docker-compose.yaml"@
    ||| n == "Makefile"@
}

fn config_name(n: &[char]) -> (r: bool)
    ensures
        r == is_config_name(n@),
{
    eq_str(n, ".env.example") || eq_str(n, "pyproject.toml") || eq_str(n, "setup.py") || eq_str(
        n,
        "setup.cfg",
    ) || eq_str(n, "requirements.txt") || eq_str(n, "mix.exs") || eq_str(n, "package.json")
        || eq_str(n, "Gemfile") || eq_str(n, "Gemfile.lock") || eq_str(n, "Dockerfile") || eq_str(
        n,
        "docker-compose.yml",
    ) || eq_str(n, "docker-compose.yaml") || eq_str(n, "Makefile")
}

/// Install/bootstrap wording in (lowercased) README text.
pub open spec fn install_signal(low: Seq<char>) -> bool {
    contains(low, "install"@) || contains(low, "deps.get"@) || contains(low, "bundle"@) || contains(
        low,
        "docker compose"@,
    )
}

/// Environment documentation: an `.env.example` file anywhere, or env wording.
pub open spec fn env_signal(low: Seq<char>, files: Seq<&str>) -> bool {
    (exists|i: int| 0 <= i < files.len() && basename(#[trigger] files[i]@) == ".env.example"@)
        || contains(low, ".env"@) || contains(low, "environment"@)
}

/// Local run wording.
pub open spec fn run_signal(low: Seq<char>) -> bool {
    contains(low, "run"@) || contains(low, "start"@) || contains(low, "serve"@)
}

/// Prerequisite wording.
pub open spec fn prereq_signal(low: Seq<char>) -> bool {
    contains(low, "prerequisite"@) || contains(low, "require"@)
}

/// Gap message for a missing or short README.
pub open spec fn gap_readme() -> Seq<char> {
    "README missing or too short to onboard a newcomer"@
}

/// Gap message for missing install commands.
pub open spec fn gap_install() -> Seq<char> {
    "No install/bootstrap commands documented"@
}

/// Gap message for missing environment documentation.
pub open spec fn gap_env() -> Seq<char> {
    "No environment variable documentation found"@
}

/// Gap message for missing run instructions.
pub open spec fn gap_run() -> Seq<char> {
    "No local run instructions documented"@
}

/// Gap message for missing prerequisites.
pub open spec fn gap_prereq() -> Seq<char> {
    "No prerequisites or runtime versions documented"@
}

/// Points and gaps for one signal.
pub open spec fn signal_points(present: bool) -> int {
    if present {
        20
    } else {
        0
    }
}

/// The expected gaps, in order.
pub open spec fn expected_gaps(
    len: nat,
    install: bool,
    env: bool,
    run: bool,
    prereq: bool,
) -> Seq<Seq<char>> {
    (if len == 0 || len < 300 {
        seq![gap_readme()]
    } else {
        Seq::empty()
    }) + (if install {
        Seq::empty()
    } else {
        seq![gap_install()]
    }) + (if env {
        Seq::empty()
    } else {
        seq![gap_env()]
    }) + (if run {
        Seq::empty()
    } else {
        seq![gap_run()]
    }) + (if prereq {
        Seq::empty()
    } else {
        seq![gap_prereq()]
    })
}

/// The expected score.
pub open spec fn expected_score(len: nat, install: bool, env: bool, run: bool, prereq: bool) -> int {
    (if len > 0 {
        20 - (if len < 300 {
            2int
        } else {
            0
        })
    } else {
        0
    }) + signal_points(install) + signal_points(env) + signal_points(run) + signal_points(prereq)
}

/// Paths of `files` whose basename is a config file name, in order.
pub open spec fn config_paths(files: Seq<&str>) -> Seq<Seq<char>>
    decreases files.len(),
{
    if files.len() == 0 {
        Seq::empty()
    } else if is_config_name(basename(files.last()@)) {
        config_paths(files.drop_last()).push(files.last()@)
    } else {
        config_paths(files.drop_last())
    }
}

fn push_gap(gaps: &mut Vec<String>, msg: &str)
    ensures
        string_views(final(gaps)@) == string_views(old(gaps)@).push(msg@),
{
    gaps.push(msg.to_owned());
    assert(string_views(gaps@) =~= string_views(old(gaps)@).push(msg@));
}

/// What `assess_setup` reports for `readme` and `files`.
pub open spec fn assessed(a: SetupAssessment, readme: &str, files: Seq<&str>) -> bool {
    let low = unicode_lowercase(readme@);
    let len = readme.spec_bytes().len();
    let install = install_signal(low);
    let env = env_signal(low, files);
    let run = run_signal(low);
    let prereq = prereq_signal(low);
    &&& a.signals.readme_length == len
    &&& a.signals.has_readme == (len > 0)
    &&& a.signals.has_install_commands == install
    &&& a.signals.has_env_docs == env
    &&& a.signals.has_run_instructions == run
    &&& a.signals.has_prerequisites == prereq
    &&& a.score == expected_score(len, install, env, run, prereq)
    &&& string_views(a.gaps@) == expected_gaps(len, install, env, run, prereq)
    &&& a.needs_setup_guide == (a.score < 80 || a.gaps@.len() >= 2)
    &&& string_views(a.config_files@) == sort_lex(config_paths(files))
}

/// Assess setup documentation from README content and a relative file list.
///
/// Each of the five signals contributes 20 points; a non-empty README
/// shorter than 300 bytes still earns its points but loses 2 and records a
/// gap.
pub fn assess_setup(readme: &str, files: &[&str]) -> (a: SetupAssessment)
    requires
        readme.spec_bytes().len() <= usize::MAX,
    ensures
        assessed(a, readme, files@),
{
    let lower = to_lowercase(readme);
    let low = chars_of(lower.as_str());
    let readme_length = readme.len();
    let has_readme = readme_length > 0;

    let has_install_commands = contains_str(&low, "install") || contains_str(&low, "deps.get")
        || contains_str(&low, "bundle") || contains_str(&low, "docker compose");

    let mut env_file = false;
    let mut i: usize = 0;
    while i < files.len()
        invariant
            i <= files@.len(),
            env_file == (exists|k: int| 0 <= k < i && basename(#[trigger] files@[k]@) == ".env.example"@),
        decreases files.len() - i,
    {
        let name = basename_chars(files[i]);
        if eq_str(&name, ".env.example") {
            env_file = true;
        }
        i = i + 1;
    }
    let has_env_docs = env_file || contains_str(&low, ".env") || contains_str(&low, "environment");
    let has_run_instructions = contains_str(&low, "run") || contains_str(&low, "start")
        || contains_str(&low, "serve");
    let has_prerequisites = contains_str(&low, "prerequisite") || contains_str(&low, "require");

    let mut score: i32 = 0;
    let mut gaps: Vec<String> = Vec::new();
    proof {
        assert(string_views(gaps@) =~= Seq::<Seq<char>>::empty());
    }
    if has_readme {
        score = score + SIGNAL_POINTS;
        if readme_length < MIN_README_LEN {
            score = score - SHORT_README_PENALTY;
            push_gap(&mut gaps, "README missing or too short to onboard a newcomer");
        }
    } else {
        push_gap(&mut gaps, "README missing or too short to onboard a newcomer");
    }
    let ghost len = readme.spec_bytes().len();
    let ghost r0: Seq<Seq<char>> = if len == 0 || len < 300 {
        seq![gap_readme()]
    } else {
        Seq::empty()
    };
    assert(string_views(gaps@) =~= r0);
    if has_install_commands {
        score = score + SIGNAL_POINTS;
    } else {
        push_gap(&mut gaps, "No install/bootstrap commands documented");
    }
    let ghost r1: Seq<Seq<char>> = r0 + if has_install_commands {
        Seq::empty()
    } else {
        seq![gap_install()]
    };
    assert(string_views(gaps@) =~= r1);
    if has_env_docs {
        score = score + SIGNAL_POINTS;
    } else {
        push_gap(&mut gaps, "No environment variable documentation found");
    }
    let ghost r2: Seq<Seq<char>> = r1 + if has_env_docs {
        Seq::empty()
    } else {
        seq![gap_env()]
    };
    assert(string_views(gaps@) =~= r2);
    if has_run_instructions {
        score = score + SIGNAL_POINTS;
    } else {
        push_gap(&mut gaps, "No local run instructions documented");
    }
    let ghost r3: Seq<Seq<char>> = r2 + if has_run_instructions {
        Seq::empty()
    } else {
        seq![gap_run()]
    };
    assert(string_views(gaps@) =~= r3);
    if has_prerequisites {
        score = score + SIGNAL_POINTS;
    } else {
        push_gap(&mut gaps, "No prerequisites or runtime versions documented");
    }
    proof {
        let e = expected_gaps(
            len,
            has_install_commands,
            has_env_docs,
            has_run_instructions,
            has_prerequisites,
        );
        assert(string_views(gaps@) =~= e);
    }
    let needs_setup_guide = score < 80 || gaps.len() >= 2;

    let mut config: Vec<String> = Vec::new();
    let mut j: usize = 0;
    while j < files.len()
        invariant
            j <= files@.len(),
            string_views(config@) == config_paths(files@.take(j as int)),
        decreases files.len() - j,
    {
        assert(files@.take(j + 1).drop_last() =~= files@.take(j as int));
        let name = basename_chars(files[j]);
        if config_name(&name) {
            let ghost prev = config@;
            config.push(files[j].to_owned());
            assert(string_views(config@) =~= string_views(prev).push(files@[j as int]@));
        }
        j = j + 1;
    }
    assert(files@.take(files@.len() as int) =~= files@);
    let config_files = sort_strings(config);
    SetupAssessment {
        needs_setup_guide,
        score,
        signals: SetupSignals {
            has_readme,
            has_install_commands,
            has_env_docs,
            has_run_instructions,
            has_prerequisites,
            readme_length,
        },
        gaps,
        config_files,
    }
}

/// A README whose lowercase text mentions "prerequisite" or "require" has
/// prerequisites documented, and only such a README: it then earns the
/// signal's 20 points over the same README without it, and the
/// prerequisites gap is reported exactly when the signal is missing.
pub proof fn lemma_prerequisites_signal(a: SetupAssessment, readme: &str, files: Seq<&str>)
    requires
        assessed(a, readme, files),
    ensures
        a.signals.has_prerequisites == (contains(unicode_lowercase(readme@), "prerequisite"@)
            || contains(unicode_lowercase(readme@), "require"@)),
        a.signals.has_prerequisites ==> a.score == expected_score(
            a.signals.readme_length as nat,
            a.signals.has_install_commands,
            a.signals.has_env_docs,
            a.signals.has_run_instructions,
            false,
        ) + 20,
        string_views(a.gaps@).contains("No prerequisites or runtime versions documented"@)
            == !a.signals.has_prerequisites,
{
    let g = string_views(a.gaps@);
    let m = "No prerequisites or runtime versions documented"@;
    reveal_strlit("No prerequisites or runtime versions documented");
    reveal_strlit("README missing or too short to onboard a newcomer");
    reveal_strlit("No install/bootstrap commands documented");
    reveal_strlit("No environment variable documentation found");
    reveal_strlit("No local run instructions documented");
    let len = readme.spec_bytes().len();
    let low = unicode_lowercase(readme@);
    let install = install_signal(low);
    let env = env_signal(low, files);
    let run = run_signal(low);
    let prereq = prereq_signal(low);
    let q1: Seq<Seq<char>> = if len == 0 || len < 300 {
        seq![gap_readme()]
    } else {
        Seq::empty()
    };
    let q2: Seq<Seq<char>> = if install {
        Seq::empty()
    } else {
        seq![gap_install()]
    };
    let q3: Seq<Seq<char>> = if env {
        Seq::empty()
    } else {
        seq![gap_env()]
    };
    let q4: Seq<Seq<char>> = if run {
        Seq::empty()
    } else {
        seq![gap_run()]
    };
    let q5: Seq<Seq<char>> = if prereq {
        Seq::empty()
    } else {
        seq![gap_prereq()]
    };
    let front = q1 + q2 + q3 + q4;
    assert(g =~= front + q5);
    assert forall|i: int| 0 <= i < front.len() implies #[trigger] front[i] != m by {
        assert(front[i].len() != m.len());
    }
    if prereq {
        assert(g =~= front);
        if g.contains(m) {
            let i = choose|i: int| 0 <= i < g.len() && g[i] == m;
            assert(front[i] == m);
        }
    } else {
        assert(g[front.len() as int] == m);
    }
}

} // verus!
