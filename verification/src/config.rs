//! Run configuration and layered loading.
//!
//! Precedence (highest wins): CLI overrides, then the project file, then the
//! environment (`DECON_*`), then defaults. Blank environment values are
//! ignored so exporting an empty variable never clears a default. Callers
//! pass strings and key/value pairs; nothing here touches the process.

use vstd::prelude::*;

use crate::llm::cache::{json_string, to_json_string};
use crate::mermaid::join;
use crate::text::{chars_of, string_of, trim, views};

verus! {

broadcast use vstd::string::group_string_axioms;

/// Default max LLM calls before the budget tracker fails closed.
pub const DEFAULT_MAX_LLM_CALLS: u32 = 200;

/// Default rough chars-per-token heuristic (matches budget defaults).
pub const DEFAULT_CONFIG_CHARS_PER_TOKEN: usize = 4;

/// Errors while parsing or serializing configuration layers.
#[derive(Debug, PartialEq, Eq, Clone)]
pub enum ConfigError {
    /// TOML body is invalid.
    Toml(String),
    /// YAML body is invalid.
    Yaml(String),
    /// Canonical JSON serialization failed.
    Json(String),
    /// Environment variable value is present but not parseable.
    InvalidEnvValue {
        /// Environment variable name.
        key: String,
        /// Raw (trimmed) value that failed to parse.
        value: String,
    },
}

/// Full run configuration used by dry-run, generate and checkpoint hashing.
///
/// `None` means "unset at this layer" during merging.
#[derive(Clone, Debug, PartialEq)]
pub struct RunConfig {
    /// Repository root or source path.
    pub root: Option<String>,
    /// Output directory for generated tutorials.
    pub output: Option<String>,
    /// Optional monorepo app/module scope keys.
    pub apps: Option<Vec<String>>,
    /// Tutorial language / chrome locale.
    pub language: Option<String>,
    /// Hard ceiling on LLM calls for a run.
    pub max_llm_calls: Option<u32>,
    /// LLM provider id.
    pub provider: Option<String>,
    /// Model id for the provider.
    pub model: Option<String>,
    /// Disk cache directory for LLM responses.
    pub cache_dir: Option<String>,
    /// Checkpoint directory.
    pub checkpoint_dir: Option<String>,
    /// Soft per-batch character budget override for dry-run packing.
    pub batch_char_budget: Option<usize>,
    /// Chars-per-token heuristic for token estimates.
    pub chars_per_token: Option<usize>,
}

/// The characters of an optional string.
pub open spec fn opt_view(o: Option<String>) -> Option<Seq<char>> {
    match o {
        Some(s) => Some(s@),
        None => None,
    }
}

/// The layer with every field unset.
pub open spec fn empty_layer() -> RunConfig {
    RunConfig {
        root: None,
        output: None,
        apps: None,
        language: None,
        max_llm_calls: None,
        provider: None,
        model: None,
        cache_dir: None,
        checkpoint_dir: None,
        batch_char_budget: None,
        chars_per_token: None,
    }
}

/// `overlay`'s value when it is set, else `base`'s.
pub open spec fn pick<T>(base: Option<T>, overlay: Option<T>) -> Option<T> {
    match overlay {
        Some(v) => Some(v),
        None => base,
    }
}

/// `overlay` merged on top of `base`: every field set in `overlay` wins.
pub open spec fn merged(base: RunConfig, overlay: RunConfig) -> RunConfig {
    RunConfig {
        root: pick(base.root, overlay.root),
        output: pick(base.output, overlay.output),
        apps: pick(base.apps, overlay.apps),
        language: pick(base.language, overlay.language),
        max_llm_calls: pick(base.max_llm_calls, overlay.max_llm_calls),
        provider: pick(base.provider, overlay.provider),
        model: pick(base.model, overlay.model),
        cache_dir: pick(base.cache_dir, overlay.cache_dir),
        checkpoint_dir: pick(base.checkpoint_dir, overlay.checkpoint_dir),
        batch_char_budget: pick(base.batch_char_budget, overlay.batch_char_budget),
        chars_per_token: pick(base.chars_per_token, overlay.chars_per_token),
    }
}

/// The default layer's values.
pub open spec fn is_default_layer(c: RunConfig) -> bool {
    &&& opt_view(c.root) == Some("."@)
    &&& opt_view(c.output) == Some("output"@)
    &&& c.apps matches Some(a) && a@.len() == 0
    &&& opt_view(c.language) == Some("en"@)
    &&& c.max_llm_calls == Some(200u32)
    &&& c.provider is None
    &&& c.model is None
    &&& c.cache_dir is None
    &&& c.checkpoint_dir is None
    &&& c.batch_char_budget is None
    &&& c.chars_per_token == Some(4usize)
}

fn copy_opt_string(o: &Option<String>) -> (r: Option<String>)
    ensures
        r == *o,
{
    match o {
        Some(s) => Some(s.clone()),
        None => None,
    }
}

fn copy_strings(v: &Vec<String>) -> (r: Vec<String>)
    ensures
        r@ == v@,
{
    let mut out: Vec<String> = Vec::new();
    let mut i: usize = 0;
    while i < v.len()
        invariant
            i <= v@.len(),
            out@ == v@.take(i as int),
        decreases v.len() - i,
    {
        out.push(v[i].clone());
        assert(out@ =~= v@.take(i + 1));
        i = i + 1;
    }
    assert(v@.take(v@.len() as int) =~= v@);
    out
}

fn copy_opt_strings(o: &Option<Vec<String>>) -> (r: Option<Vec<String>>)
    ensures
        match (r, *o) {
            (Some(a), Some(b)) => a@ == b@,
            (None, None) => true,
            _ => false,
        },
{
    match o {
        Some(v) => Some(copy_strings(v)),
        None => None,
    }
}

/// Two configurations with the same values (the `apps` lists compared by
/// their contents).
pub open spec fn same_config(a: RunConfig, b: RunConfig) -> bool {
    &&& a.root == b.root
    &&& a.output == b.output
    &&& match (a.apps, b.apps) {
        (Some(x), Some(y)) => x@ == y@,
        (None, None) => true,
        _ => false,
    }
    &&& a.language == b.language
    &&& a.max_llm_calls == b.max_llm_calls
    &&& a.provider == b.provider
    &&& a.model == b.model
    &&& a.cache_dir == b.cache_dir
    &&& a.checkpoint_dir == b.checkpoint_dir
    &&& a.batch_char_budget == b.batch_char_budget
    &&& a.chars_per_token == b.chars_per_token
}

impl Default for RunConfig {
    fn default() -> (c: Self)
        ensures
            is_default_layer(c),
    {
        let c = RunConfig {
            root: Some(".".to_owned()),
            output: Some("output".to_owned()),
            apps: Some(Vec::new()),
            language: Some("en".to_owned()),
            max_llm_calls: Some(DEFAULT_MAX_LLM_CALLS),
            provider: None,
            model: None,
            cache_dir: None,
            checkpoint_dir: None,
            batch_char_budget: None,
            chars_per_token: Some(DEFAULT_CONFIG_CHARS_PER_TOKEN),
        };
        c
    }
}

impl RunConfig {
    /// Empty layer (all fields unset) for building overlays.
    pub fn empty() -> (c: Self)
        ensures
            c == empty_layer(),
    {
        RunConfig {
            root: None,
            output: None,
            apps: None,
            language: None,
            max_llm_calls: None,
            provider: None,
            model: None,
            cache_dir: None,
            checkpoint_dir: None,
            batch_char_budget: None,
            chars_per_token: None,
        }
    }

    /// Merge `overlay` on top of `self`: only fields set in `overlay` win.
    pub fn merge_layer(&self, overlay: &Self) -> (r: Self)
        ensures
            same_config(r, merged(*self, *overlay)),
    {
        let pick_s = |b: &Option<String>, o: &Option<String>| -> (r: Option<String>)
            ensures
                r == pick(*b, *o),
            {
                if o.is_some() {
                    copy_opt_string(o)
                } else {
                    copy_opt_string(b)
                }
            };
        RunConfig {
            root: pick_s(&self.root, &overlay.root),
            output: pick_s(&self.output, &overlay.output),
            apps: if overlay.apps.is_some() {
                copy_opt_strings(&overlay.apps)
            } else {
                copy_opt_strings(&self.apps)
            },
            language: pick_s(&self.language, &overlay.language),
            max_llm_calls: if overlay.max_llm_calls.is_some() {
                overlay.max_llm_calls
            } else {
                self.max_llm_calls
            },
            provider: pick_s(&self.provider, &overlay.provider),
            model: pick_s(&self.model, &overlay.model),
            cache_dir: pick_s(&self.cache_dir, &overlay.cache_dir),
            checkpoint_dir: pick_s(&self.checkpoint_dir, &overlay.checkpoint_dir),
            batch_char_budget: if overlay.batch_char_budget.is_some() {
                overlay.batch_char_budget
            } else {
                self.batch_char_budget
            },
            chars_per_token: if overlay.chars_per_token.is_some() {
                overlay.chars_per_token
            } else {
                self.chars_per_token
            },
        }
    }

    /// Copy suitable for checkpoint display. No field holds a secret today,
    /// so every value is kept.
    pub fn redacted_for_checkpoint(&self) -> (r: Self)
        ensures
            same_config(r, *self),
    {
        RunConfig {
            root: copy_opt_string(&self.root),
            output: copy_opt_string(&self.output),
            apps: copy_opt_strings(&self.apps),
            language: copy_opt_string(&self.language),
            max_llm_calls: self.max_llm_calls,
            provider: copy_opt_string(&self.provider),
            model: copy_opt_string(&self.model),
            cache_dir: copy_opt_string(&self.cache_dir),
            checkpoint_dir: copy_opt_string(&self.checkpoint_dir),
            batch_char_budget: self.batch_char_budget,
            chars_per_token: self.chars_per_token,
        }
    }
}

/// Merging is insensitive to how `apps` lists are represented.
pub proof fn lemma_merged_same(a: RunConfig, a2: RunConfig, b: RunConfig)
    requires
        same_config(a, a2),
    ensures
        same_config(merged(a, b), merged(a2, b)),
{
}

/// Resolve the full configuration: defaults, then `env_layer`, then
/// `file_layer`, then `cli_layer`; each later layer wins where it is set.
pub fn resolve_config(env_layer: &RunConfig, file_layer: &RunConfig, cli_layer: &RunConfig) -> (r:
    RunConfig)
    ensures
        exists|d: RunConfig|
            is_default_layer(d) && same_config(
                r,
                merged(merged(merged(d, *env_layer), *file_layer), *cli_layer),
            ),
{
    let d = RunConfig::default();
    let a = d.merge_layer(env_layer);
    let b = a.merge_layer(file_layer);
    let c = b.merge_layer(cli_layer);
    proof {
        lemma_merged_same(a, merged(d, *env_layer), *file_layer);
        lemma_merged_same(b, merged(merged(d, *env_layer), *file_layer), *cli_layer);
    }
    c
}

/// Layer precedence: a field set by a later layer hides every earlier one,
/// and an empty layer changes nothing.
pub proof fn lemma_layer_precedence(base: RunConfig, env: RunConfig, file: RunConfig, cli: RunConfig)
    ensures
        merged(base, empty_layer()) == base,
        merged(empty_layer(), base) == base,
        merged(merged(merged(base, env), file), cli) == merged(base, merged(merged(env, file), cli)),
        cli.language is Some ==> merged(merged(merged(base, env), file), cli).language == cli.language,
        cli.language is None && file.language is Some ==> merged(merged(merged(base, env), file), cli).language
            == file.language,
        cli.language is None && file.language is None && env.language is Some ==> merged(
            merged(merged(base, env), file),
            cli,
        ).language == env.language,
        cli.language is None && file.language is None && env.language is None ==> merged(
            merged(merged(base, env), file),
            cli,
        ).language == base.language,
{
}

/// Merging (what `merge_layer` computes, up to the views of its strings):
/// the empty layer is an identity on both sides, and merging is
/// associative, so the order of grouping layers does not matter.
pub proof fn lemma_merge_laws(a: RunConfig, b: RunConfig, c: RunConfig)
    ensures
        merged(a, empty_layer()) == a,
        merged(empty_layer(), a) == a,
        merged(merged(a, b), c) == merged(a, merged(b, c)),
{
}

// ---------------------------------------------------------------------------
// environment layer
// ---------------------------------------------------------------------------

/// Value of the first pair whose key is `k`.
pub open spec fn env_lookup(vars: Seq<(String, String)>, k: Seq<char>) -> Option<Seq<char>>
    decreases vars.len(),
{
    if vars.len() == 0 {
        None
    } else if vars[0].0@ == k {
        Some(vars[0].1@)
    } else {
        env_lookup(vars.drop_first(), k)
    }
}

/// The trimmed value of `k` when it is set and not blank.
pub open spec fn nonblank(vars: Seq<(String, String)>, k: Seq<char>) -> Option<Seq<char>> {
    match env_lookup(vars, k) {
        Some(v) => if trim(v).len() > 0 {
            Some(trim(v))
        } else {
            None
        },
        None => None,
    }
}

/// Decimal value of a digit string.
pub open spec fn dec_value(d: Seq<char>) -> nat
    decreases d.len(),
{
    if d.len() == 0 {
        0
    } else {
        dec_value(d.drop_last()) * 10 + ((d.last() as int - '0' as int) as nat)
    }
}

/// An unsigned integer as `str::parse` reads it: an optional `+`, then one
/// or more ASCII digits and nothing else.
pub open spec fn parse_unsigned(s: Seq<char>) -> Option<nat> {
    let d = unsigned_digits(s);
    if d.len() > 0 && all_digits(d) {
        Some(dec_value(d))
    } else {
        None
    }
}

/// `s` without one leading `+`.
pub open spec fn unsigned_digits(s: Seq<char>) -> Seq<char> {
    if s.len() > 0 && s[0] == '+' {
        s.drop_first()
    } else {
        s
    }
}

/// Every character is an ASCII digit.
pub open spec fn all_digits(d: Seq<char>) -> bool {
    forall|i: int| 0 <= i < d.len() ==> crate::text::is_digit(#[trigger] d[i])
}

/// A numeric variable: unset/blank, a value within `max`, or invalid.
pub open spec fn env_number(vars: Seq<(String, String)>, k: Seq<char>, max: nat) -> Result<
    Option<nat>,
    Seq<char>,
> {
    match nonblank(vars, k) {
        None => Ok(None),
        Some(v) => match parse_unsigned(v) {
            Some(n) => if n <= max {
                Ok(Some(n))
            } else {
                Err(v)
            },
            None => Err(v),
        },
    }
}

/// The first invalid numeric variable, as (key, trimmed value).
pub open spec fn env_error(vars: Seq<(String, String)>) -> Option<(Seq<char>, Seq<char>)> {
    match env_number(vars, "DECON_MAX_LLM_CALLS"@, u32::MAX as nat) {
        Err(v) => Some(("DECON_MAX_LLM_CALLS"@, v)),
        Ok(_) => match env_number(vars, "DECON_BATCH_CHAR_BUDGET"@, usize::MAX as nat) {
            Err(v) => Some(("DECON_BATCH_CHAR_BUDGET"@, v)),
            Ok(_) => match env_number(vars, "DECON_CHARS_PER_TOKEN"@, usize::MAX as nat) {
                Err(v) => Some(("DECON_CHARS_PER_TOKEN"@, v)),
                Ok(_) => None,
            },
        },
    }
}

/// The number a valid numeric variable holds.
pub open spec fn env_value(vars: Seq<(String, String)>, k: Seq<char>, max: nat) -> Option<nat> {
    match env_number(vars, k, max) {
        Ok(o) => o,
        Err(_) => None,
    }
}

/// The views of an optional list of strings.
pub open spec fn opt_list_view(o: Option<Vec<String>>) -> Option<Seq<Seq<char>>> {
    match o {
        Some(v) => Some(crate::scope::string_views(v@)),
        None => None,
    }
}

/// The layer read from the environment when nothing is invalid.
pub open spec fn env_layer_matches(c: RunConfig, vars: Seq<(String, String)>) -> bool {
    &&& opt_view(c.root) == nonblank(vars, "DECON_ROOT"@)
    &&& opt_view(c.output) == nonblank(vars, "DECON_OUTPUT"@)
    &&& opt_list_view(c.apps) == match nonblank(vars, "DECON_APPS"@) {
        Some(v) => Some(crate::mermaid::nonempty_trimmed(crate::text::split_char(v, ','))),
        None => None,
    }
    &&& opt_view(c.language) == nonblank(vars, "DECON_LANGUAGE"@)
    &&& (match c.max_llm_calls {
        Some(n) => Some(n as nat),
        None => None,
    }) == env_value(vars, "DECON_MAX_LLM_CALLS"@, u32::MAX as nat)
    &&& opt_view(c.provider) == nonblank(vars, "DECON_PROVIDER"@)
    &&& opt_view(c.model) == nonblank(vars, "DECON_MODEL"@)
    &&& opt_view(c.cache_dir) == nonblank(vars, "DECON_CACHE_DIR"@)
    &&& opt_view(c.checkpoint_dir) == nonblank(vars, "DECON_CHECKPOINT_DIR"@)
    &&& (match c.batch_char_budget {
        Some(n) => Some(n as nat),
        None => None,
    }) == env_value(vars, "DECON_BATCH_CHAR_BUDGET"@, usize::MAX as nat)
    &&& (match c.chars_per_token {
        Some(n) => Some(n as nat),
        None => None,
    }) == env_value(vars, "DECON_CHARS_PER_TOKEN"@, usize::MAX as nat)
}

fn lookup_nonblank(vars: &[(String, String)], key: &str) -> (r: Option<Vec<char>>)
    ensures
        match r {
            Some(v) => nonblank(vars@, key@) == Some(v@),
            None => nonblank(vars@, key@) is None,
        },
{
    let k = chars_of(key);
    let mut i: usize = 0;
    assert(vars@.skip(0) =~= vars@);
    while i < vars.len()
        invariant
            i <= vars@.len(),
            k@ == key@,
            env_lookup(vars@, key@) == env_lookup(vars@.skip(i as int), key@),
        decreases vars.len() - i,
    {
        assert(vars@.skip(i as int)[0] == vars@[i as int]);
        if crate::text::eq_chars(&chars_of(vars[i].0.as_str()), &k) {
            let t = crate::text::trimmed(&chars_of(vars[i].1.as_str()));
            if t.len() > 0 {
                return Some(t);
            } else {
                return None;
            }
        }
        assert(vars@.skip(i as int).drop_first() =~= vars@.skip(i + 1));
        i = i + 1;
    }
    None
}

proof fn lemma_dec_value_prefix(d: Seq<char>, i: int)
    requires
        0 <= i <= d.len(),
    ensures
        dec_value(d.take(i)) <= dec_value(d),
    decreases d.len() - i,
{
    if i < d.len() {
        lemma_dec_value_prefix(d, i + 1);
        assert(d.take(i + 1).drop_last() =~= d.take(i));
        assert(dec_value(d.take(i + 1)) >= dec_value(d.take(i)) * 10);
        assert(dec_value(d.take(i)) * 10 >= dec_value(d.take(i))) by (nonlinear_arith);
    } else {
        assert(d.take(i) =~= d);
    }
}

/// Parse an unsigned decimal no larger than `max`.
pub(crate) fn parse_bounded(s: &[char], max: u128) -> (r: Option<u128>)
    requires
        max <= u64::MAX,
    ensures
        match r {
            Some(n) => parse_unsigned(s@) == Some(n as nat) && n <= max,
            None => match parse_unsigned(s@) {
                Some(n) => n > max,
                None => true,
            },
        },
{
    let start: usize = if s.len() > 0 && s[0] == '+' {
        1
    } else {
        0
    };
    let n = s.len();
    let d = crate::text::slice_chars(s, start, n);
    assert(start == 1 ==> d@ =~= s@.drop_first());
    assert(start == 0 ==> d@ =~= s@);
    if d.len() == 0 {
        return None;
    }
    let mut v: u128 = 0;
    let mut i: usize = 0;
    while i < d.len()
        invariant
            i <= d@.len(),
            d@.len() > 0,
            d@ == unsigned_digits(s@),
            max <= u64::MAX,
            v <= max,
            v == dec_value(d@.take(i as int)),
            forall|j: int| 0 <= j < i ==> crate::text::is_digit(#[trigger] d@[j]),
        decreases d.len() - i,
    {
        let c = d[i];
        if !crate::text::is_digit_char(c) {
            assert(!crate::text::is_digit(d@[i as int]));
            assert(!all_digits(d@));
            return None;
        }
        assert(d@.take(i + 1).drop_last() =~= d@.take(i as int));
        let dig = (c as u32 - '0' as u32) as u128;
        let next = v * 10 + dig;
        assert(next == dec_value(d@.take(i + 1)));
        if next > max {
            proof {
                lemma_dec_value_prefix(d@, i + 1);
                assert(dec_value(d@) > max);
                if parse_unsigned(s@) is Some {
                    assert(parse_unsigned(s@) == Some(dec_value(d@)));
                }
            }
            return None;
        }
        v = next;
        i = i + 1;
    }
    assert(d@.take(d@.len() as int) =~= d@);
    assert(all_digits(d@));
    Some(v)
}

fn number_field(vars: &[(String, String)], key: &str, max: u128) -> (r: Result<Option<u128>, ConfigError>)
    requires
        max <= u64::MAX,
    ensures
        match r {
            Ok(Some(n)) => env_number(vars@, key@, max as nat) == Ok::<Option<nat>, Seq<char>>(Some(n as nat)),
            Ok(None) => env_number(vars@, key@, max as nat) == Ok::<Option<nat>, Seq<char>>(None),
            Err(ConfigError::InvalidEnvValue { key: k, value: v }) => k@ == key@ && env_number(vars@, key@, max as nat) == Err::<Option<nat>, Seq<char>>(v@),
            Err(_) => false,
        },
{
    match lookup_nonblank(vars, key) {
        None => Ok(None),
        Some(v) => match parse_bounded(&v, max) {
            Some(n) => Ok(Some(n)),
            None => Err(ConfigError::InvalidEnvValue { key: key.to_owned(), value: string_of(&v) }),
        },
    }
}

fn text_field(vars: &[(String, String)], key: &str) -> (r: Option<String>)
    ensures
        opt_view(r) == nonblank(vars@, key@),
{
    match lookup_nonblank(vars, key) {
        Some(v) => Some(string_of(&v)),
        None => None,
    }
}

fn apps_field(vars: &[(String, String)]) -> (r: Option<Vec<String>>)
    ensures
        opt_list_view(r) == match nonblank(vars@, "DECON_APPS"@) {
            Some(v) => Some(crate::mermaid::nonempty_trimmed(crate::text::split_char(v, ','))),
            None => None,
        },
{
    match lookup_nonblank(vars, "DECON_APPS") {
        Some(v) => {
            let parts = crate::text::split_at_char(&v, ',');
            let mut out: Vec<String> = Vec::new();
            let mut i: usize = 0;
            while i < parts.len()
                invariant
                    i <= parts@.len(),
                    crate::scope::string_views(out@) == crate::mermaid::nonempty_trimmed(
                        views(parts@).take(i as int),
                    ),
                decreases parts.len() - i,
            {
                assert(views(parts@).take(i + 1).drop_last() =~= views(parts@).take(i as int));
                assert(views(parts@)[i as int] == parts@[i as int]@);
                let t = crate::text::trimmed(&parts[i]);
                if t.len() > 0 {
                    let ghost before = out@;
                    let st = string_of(&t);
                    out.push(st);
                    assert(crate::scope::string_views(out@) =~= crate::scope::string_views(before).push(
                        t@,
                    ));
                }
                i = i + 1;
            }
            assert(views(parts@).take(parts@.len() as int) =~= views(parts@));
            Some(out)
        },
        None => None,
    }
}

/// Load a configuration layer from environment-style key/value pairs.
///
/// Recognised keys: `DECON_ROOT`, `DECON_OUTPUT`, `DECON_APPS`
/// (comma-separated), `DECON_LANGUAGE`, `DECON_MAX_LLM_CALLS`,
/// `DECON_PROVIDER`, `DECON_MODEL`, `DECON_CACHE_DIR`,
/// `DECON_CHECKPOINT_DIR`, `DECON_BATCH_CHAR_BUDGET`,
/// `DECON_CHARS_PER_TOKEN`. The first pair with a key counts. Values are
/// trimmed and blank values are ignored; a numeric value that does not parse
/// (or does not fit) is `InvalidEnvValue` for the first such key.
pub fn config_from_env_map(vars: &[(String, String)]) -> (r: Result<RunConfig, ConfigError>)
    ensures
        match r {
            Ok(c) => env_error(vars@) is None && env_layer_matches(c, vars@),
            Err(ConfigError::InvalidEnvValue { key, value }) => env_error(vars@) == Some((key@, value@)),
            Err(_) => false,
        },
{
    let max_llm = match number_field(vars, "DECON_MAX_LLM_CALLS", 0xffff_ffffu128) {
        Ok(v) => v,
        Err(e) => {
            return Err(e);
        },
    };
    let batch = match number_field(vars, "DECON_BATCH_CHAR_BUDGET", usize::MAX as u128) {
        Ok(v) => v,
        Err(e) => {
            return Err(e);
        },
    };
    let cpt = match number_field(vars, "DECON_CHARS_PER_TOKEN", usize::MAX as u128) {
        Ok(v) => v,
        Err(e) => {
            return Err(e);
        },
    };
    let cfg = RunConfig {
        root: text_field(vars, "DECON_ROOT"),
        output: text_field(vars, "DECON_OUTPUT"),
        apps: apps_field(vars),
        language: text_field(vars, "DECON_LANGUAGE"),
        max_llm_calls: match max_llm {
            Some(n) => Some(n as u32),
            None => None,
        },
        provider: text_field(vars, "DECON_PROVIDER"),
        model: text_field(vars, "DECON_MODEL"),
        cache_dir: text_field(vars, "DECON_CACHE_DIR"),
        checkpoint_dir: text_field(vars, "DECON_CHECKPOINT_DIR"),
        batch_char_budget: match batch {
            Some(n) => Some(n as usize),
            None => None,
        },
        chars_per_token: match cpt {
            Some(n) => Some(n as usize),
            None => None,
        },
    };
    Ok(cfg)
}

// ---------------------------------------------------------------------------
// canonical JSON
// ---------------------------------------------------------------------------

/// One `"key":value` member of a JSON object.
pub open spec fn json_member(key: Seq<char>, value: Seq<char>) -> Seq<char> {
    json_string(key) + ":"@ + value
}

/// The member of an optional string field (none when unset).
pub open spec fn text_member(key: Seq<char>, o: Option<String>) -> Seq<Seq<char>> {
    match o {
        Some(v) => seq![json_member(key, json_string(v@))],
        None => Seq::empty(),
    }
}

/// The member of an optional number field (none when unset).
pub open spec fn number_member(key: Seq<char>, o: Option<nat>) -> Seq<Seq<char>> {
    match o {
        Some(n) => seq![json_member(key, crate::text::decimal(n))],
        None => Seq::empty(),
    }
}

/// The JSON array of strings.
pub open spec fn json_string_array(v: Seq<String>) -> Seq<char> {
    "["@ + join(v.map_values(|a: String| json_string(a@)), ","@) + "]"@
}

/// The members of a configuration that are set, keys in sorted order.
pub open spec fn config_members(c: RunConfig) -> Seq<Seq<char>> {
    (match c.apps {
        Some(v) => seq![json_member("apps"@, json_string_array(v@))],
        None => Seq::empty(),
    }) + number_member(
        "batch_char_budget"@,
        match c.batch_char_budget {
            Some(n) => Some(n as nat),
            None => None,
        },
    ) + text_member("cache_dir"@, c.cache_dir) + number_member(
        "chars_per_token"@,
        match c.chars_per_token {
            Some(n) => Some(n as nat),
            None => None,
        },
    ) + text_member("checkpoint_dir"@, c.checkpoint_dir) + text_member("language"@, c.language)
        + number_member(
        "max_llm_calls"@,
        match c.max_llm_calls {
            Some(n) => Some(n as nat),
            None => None,
        },
    ) + text_member("model"@, c.model) + text_member("output"@, c.output) + text_member(
        "provider"@,
        c.provider,
    ) + text_member("root"@, c.root)
}

/// Canonical JSON of a configuration: an object of the fields that are
/// set, keys sorted, no whitespace.
pub open spec fn canonical_json(c: RunConfig) -> Seq<char> {
    "{"@ + join(config_members(c), ","@) + "}"@
}

fn json_chars(s: &str) -> (r: Vec<char>)
    ensures
        r@ == json_string(s@),
{
    match to_json_string(s) {
        Ok(t) => chars_of(t.as_str()),
        Err(_) => Vec::new(),
    }
}

fn join_commas(ls: &Vec<Vec<char>>) -> (r: Vec<char>)
    ensures
        r@ == join(views(ls@), ","@),
{
    let mut out: Vec<char> = Vec::new();
    let mut i: usize = 0;
    proof {
        reveal_strlit(",");
    }
    while i < ls.len()
        invariant
            i <= ls@.len(),
            out@ == join(views(ls@).take(i as int), ","@),
            ","@ == seq![','],
        decreases ls.len() - i,
    {
        let ghost vs = views(ls@);
        assert(vs.take(i + 1).drop_last() =~= vs.take(i as int));
        if i > 0 {
            out.push(',');
        }
        crate::text::push_all(&mut out, &ls[i]);
        assert(vs[i as int] == ls@[i as int]@);
        if i == 0 {
            assert(out@ =~= join(vs.take(1), ","@));
        }
        i = i + 1;
    }
    assert(views(ls@).take(ls@.len() as int) =~= views(ls@));
    out
}

fn member_chars(key: &str, value: Vec<char>) -> (r: Vec<char>)
    ensures
        r@ == json_member(key@, value@),
{
    let mut m = json_chars(key);
    crate::text::push_str(&mut m, ":");
    crate::text::push_all(&mut m, &value);
    m
}

fn push_text_member(ms: &mut Vec<Vec<char>>, key: &str, o: &Option<String>)
    ensures
        views(final(ms)@) == views(old(ms)@) + text_member(key@, *o),
{
    match o {
        Some(v) => {
            let m = member_chars(key, json_chars(v.as_str()));
            ms.push(m);
            assert(views(ms@) =~= views(old(ms)@) + text_member(key@, *o));
        },
        None => {
            assert(views(ms@) =~= views(old(ms)@) + text_member(key@, *o));
        },
    }
}

fn push_number_member(ms: &mut Vec<Vec<char>>, key: &str, o: Option<u64>)
    ensures
        views(final(ms)@) == views(old(ms)@) + number_member(
            key@,
            match o {
                Some(n) => Some(n as nat),
                None => None,
            },
        ),
{
    match o {
        Some(n) => {
            let m = member_chars(key, crate::text::decimal_chars(n));
            ms.push(m);
        },
        None => {},
    }
    assert(views(ms@) =~= views(old(ms)@) + number_member(
        key@,
        match o {
            Some(n) => Some(n as nat),
            None => None,
        },
    ));
}

fn string_array_chars(v: &Vec<String>) -> (r: Vec<char>)
    ensures
        r@ == json_string_array(v@),
{
    let mut items: Vec<Vec<char>> = Vec::new();
    let mut i: usize = 0;
    while i < v.len()
        invariant
            i <= v@.len(),
            views(items@) == v@.take(i as int).map_values(|a: String| json_string(a@)),
        decreases v.len() - i,
    {
        items.push(json_chars(v[i].as_str()));
        assert(v@.take(i + 1).map_values(|a: String| json_string(a@)) =~= v@.take(i as int).map_values(
            |a: String| json_string(a@),
        ).push(json_string(v@[i as int]@)));
        assert(views(items@) =~= v@.take(i + 1).map_values(|a: String| json_string(a@)));
        i = i + 1;
    }
    assert(v@.take(v@.len() as int) =~= v@);
    let mut out: Vec<char> = Vec::new();
    crate::text::push_str(&mut out, "[");
    let body = join_commas(&items);
    crate::text::push_all(&mut out, &body);
    crate::text::push_str(&mut out, "]");
    out
}

/// Canonical JSON of a configuration (keys sorted, no insignificant
/// whitespace), used for checkpoint hashing. Serializing cannot fail, so
/// the result is always `Ok`.
pub fn canonical_config_json(config: &RunConfig) -> (r: Result<String, ConfigError>)
    ensures
        r is Ok,
        r matches Ok(s) ==> s@ == canonical_json(*config),
{
    let mut ms: Vec<Vec<char>> = Vec::new();
    match &config.apps {
        Some(v) => {
            let m = member_chars("apps", string_array_chars(v));
            ms.push(m);
        },
        None => {},
    }
    assert(views(ms@) =~= match config.apps {
        Some(v) => seq![json_member("apps"@, json_string_array(v@))],
        None => Seq::<Seq<char>>::empty(),
    });
    push_number_member(
        &mut ms,
        "batch_char_budget",
        match config.batch_char_budget {
            Some(n) => Some(n as u64),
            None => None,
        },
    );
    push_text_member(&mut ms, "cache_dir", &config.cache_dir);
    push_number_member(
        &mut ms,
        "chars_per_token",
        match config.chars_per_token {
            Some(n) => Some(n as u64),
            None => None,
        },
    );
    push_text_member(&mut ms, "checkpoint_dir", &config.checkpoint_dir);
    push_text_member(&mut ms, "language", &config.language);
    push_number_member(
        &mut ms,
        "max_llm_calls",
        match config.max_llm_calls {
            Some(n) => Some(n as u64),
            None => None,
        },
    );
    push_text_member(&mut ms, "model", &config.model);
    push_text_member(&mut ms, "output", &config.output);
    push_text_member(&mut ms, "provider", &config.provider);
    push_text_member(&mut ms, "root", &config.root);
    assert(views(ms@) =~= config_members(*config));
    let mut out: Vec<char> = Vec::new();
    crate::text::push_str(&mut out, "{");
    let body = join_commas(&ms);
    crate::text::push_all(&mut out, &body);
    crate::text::push_str(&mut out, "}");
    Ok(string_of(&out))
}

} // verus!
