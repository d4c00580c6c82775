//! The identify stage's logic around the LLM call: the prompt's inputs
//! (sanitized fields and the numbered file listing) and the checks on the
//! abstractions the model returned.

use vstd::prelude::*;

use crate::abstraction::{Abstraction, IdentifyResult};
use crate::progress::ProgressTracker;
use crate::extract::ExtractError;
use crate::llm::error::LlmError;
use crate::pipeline::prompts::{
    prompt_file, prompt_index, rendered, sanitize_template_input, sanitized_input, var_views, PromptError,
    PromptId, PromptRenderer,
};
use crate::text::{decimal, decimal_chars, push_all, push_str, string_of};

verus! {

broadcast use vstd::string::group_string_axioms;

/// Errors of the identify stage.
#[derive(Debug)]
pub enum IdentifyError {
    /// The prompt could not be rendered.
    Prompt(PromptError),
    /// The LLM call failed.
    Llm(LlmError),
    /// No YAML block could be extracted from the answer.
    Extract(ExtractError),
    /// The YAML block is not a list of abstractions.
    Parse(String),
    /// An abstraction cites a file index past the inventory.
    FileIndexOutOfRange {
        /// The cited index.
        index: usize,
        /// Number of files in the inventory.
        total: usize,
    },
    /// The model returned no abstractions.
    NoAbstractions,
    /// The LLM-call budget is exhausted.
    Budget(String),
}

impl IdentifyError {
    /// The error message.
    pub fn to_string(&self) -> (r: String)
        ensures
            r@ == match *self {
                IdentifyError::Prompt(p) => "prompt rendering failed: "@ + match p {
                    PromptError::Render(m) => "template render error: "@ + m@,
                    PromptError::NotFound(n) => "template not found: "@ + n@,
                },
                IdentifyError::Llm(e) => "LLM call failed: "@ + crate::llm::error::error_text(e),
                IdentifyError::Extract(e) => "YAML/JSON block extraction failed: "@ + match e {
                    ExtractError::NoBlockFound => "no structured block found in text"@,
                    ExtractError::UnbalancedFence => "unbalanced code fence in text"@,
                },
                IdentifyError::Parse(m) => "failed to parse abstractions from LLM output: "@ + m@,
                IdentifyError::FileIndexOutOfRange { index, total } => "abstraction file index "@
                    + decimal(index as nat) + " out of range (have "@ + decimal(total as nat)
                    + " files)"@,
                IdentifyError::NoAbstractions => "no abstractions found in LLM output"@,
                IdentifyError::Budget(m) => "budget exceeded: "@ + m@,
            },
    {
        let mut out: Vec<char> = Vec::new();
        match self {
            IdentifyError::Prompt(p) => {
                push_str(&mut out, "prompt rendering failed: ");
                push_str(&mut out, p.to_string().as_str());
            },
            IdentifyError::Llm(e) => {
                push_str(&mut out, "LLM call failed: ");
                push_str(&mut out, e.to_string().as_str());
            },
            IdentifyError::Extract(e) => {
                push_str(&mut out, "YAML/JSON block extraction failed: ");
                push_str(&mut out, e.to_string().as_str());
            },
            IdentifyError::Parse(m) => {
                push_str(&mut out, "failed to parse abstractions from LLM output: ");
                push_str(&mut out, m.as_str());
            },
            IdentifyError::FileIndexOutOfRange { index, total } => {
                push_str(&mut out, "abstraction file index ");
                push_all(&mut out, &decimal_chars(*index as u64));
                push_str(&mut out, " out of range (have ");
                push_all(&mut out, &decimal_chars(*total as u64));
                push_str(&mut out, " files)");
            },
            IdentifyError::NoAbstractions => {
                push_str(&mut out, "no abstractions found in LLM output");
            },
            IdentifyError::Budget(m) => {
                push_str(&mut out, "budget exceeded: ");
                push_str(&mut out, m.as_str());
            },
        }
        string_of(&out)
    }
}

/// Inputs of the single-shot identify call.
#[derive(Clone, Debug)]
pub struct IdentifySingleShotInput {
    /// File inventory; the model cites files by index into it.
    pub files: Vec<String>,
    /// Project name shown to the model.
    pub project_name: String,
    /// Output-language instruction.
    pub language_instruction: String,
    /// Language hint for names and descriptions.
    pub lang_note: String,
    /// Upper bound on abstractions requested.
    pub max_abstraction_num: usize,
}

/// The numbered file listing: one `{index} # {path}` line per file.
pub open spec fn file_listing(files: Seq<String>) -> Seq<char>
    decreases files.len(),
{
    if files.len() == 0 {
        Seq::empty()
    } else if files.len() == 1 {
        decimal(0) + " # "@ + files[0]@
    } else {
        file_listing(files.drop_last()) + "\n"@ + decimal((files.len() - 1) as nat) + " # "@
            + files.last()@
    }
}

/// Number the files for the prompt.
pub fn format_file_listing(files: &[String]) -> (r: String)
    ensures
        r@ == file_listing(files@),
{
    let mut out: Vec<char> = Vec::new();
    let mut i: usize = 0;
    while i < files.len()
        invariant
            i <= files@.len(),
            out@ == file_listing(files@.take(i as int)),
        decreases files.len() - i,
    {
        assert(files@.take(i + 1).drop_last() =~= files@.take(i as int));
        if i > 0 {
            push_str(&mut out, "\n");
        }
        push_all(&mut out, &decimal_chars(i as u64));
        push_str(&mut out, " # ");
        push_str(&mut out, files[i].as_str());
        if i == 0 {
            assert(out@ =~= file_listing(files@.take(1)));
        } else {
            assert(out@ =~= file_listing(files@.take(i as int)) + "\n"@ + decimal(i as nat) + " # "@
                + files@[i as int]@);
        }
        i = i + 1;
    }
    assert(files@.take(files@.len() as int) =~= files@);
    string_of(&out)
}

/// Values placed into the identify prompt.
pub struct IdentifyPromptFields {
    /// Sanitized project name.
    pub project_name: String,
    /// Sanitized language instruction.
    pub language_instruction: String,
    /// Sanitized language hint (used for names and descriptions).
    pub lang_hint: String,
    /// Upper bound on abstractions requested.
    pub max_abstraction_num: usize,
    /// Numbered file listing.
    pub file_listing: String,
}

/// The prompt values of an identify call: user-controlled text sanitized,
/// files numbered.
pub fn identify_prompt_fields(input: &IdentifySingleShotInput) -> (r: IdentifyPromptFields)
    ensures
        r.project_name@ == sanitized_input(input.project_name@),
        r.language_instruction@ == sanitized_input(input.language_instruction@),
        r.lang_hint@ == sanitized_input(input.lang_note@),
        r.max_abstraction_num == input.max_abstraction_num,
        r.file_listing@ == file_listing(input.files@),
{
    IdentifyPromptFields {
        project_name: sanitize_template_input(input.project_name.as_str()),
        language_instruction: sanitize_template_input(input.language_instruction.as_str()),
        lang_hint: sanitize_template_input(input.lang_note.as_str()),
        max_abstraction_num: input.max_abstraction_num,
        file_listing: format_file_listing(&input.files),
    }
}

/// The first out-of-range file index, scanning abstractions in order and
/// each one's indices in order.
/// The variables of the single-shot identify template: the sanitized
/// fields, an empty `context`, the limit in decimal, the language hint for
/// both name and description, and the numbered file listing.
pub open spec fn identify_vars(f: IdentifyPromptFields) -> Seq<(Seq<char>, Seq<char>)> {
    seq![
        ("project_name"@, f.project_name@),
        ("context"@, Seq::<char>::empty()),
        ("language_instruction"@, f.language_instruction@),
        ("max_abstraction_num"@, decimal(f.max_abstraction_num as nat)),
        ("name_lang_hint"@, f.lang_hint@),
        ("desc_lang_hint"@, f.lang_hint@),
        ("file_listing"@, f.file_listing@),
    ]
}

/// The template variables for prompt fields.
pub fn identify_prompt_vars(f: &IdentifyPromptFields) -> (r: Vec<(String, String)>)
    ensures
        var_views(r@) == identify_vars(*f),
{
    let mut r: Vec<(String, String)> = Vec::new();
    r.push(("project_name".to_owned(), f.project_name.clone()));
    r.push(("context".to_owned(), String::new()));
    r.push(("language_instruction".to_owned(), f.language_instruction.clone()));
    r.push(("max_abstraction_num".to_owned(), string_of(&decimal_chars(f.max_abstraction_num as u64))));
    r.push(("name_lang_hint".to_owned(), f.lang_hint.clone()));
    r.push(("desc_lang_hint".to_owned(), f.lang_hint.clone()));
    r.push(("file_listing".to_owned(), f.file_listing.clone()));
    assert(var_views(r@) =~= identify_vars(*f));
    r
}

/// Reserve the one LLM call of the identify stage and tag the stage: when
/// the budget cannot cover it, `Budget` with the tracker's message and the
/// tracker unchanged (so no call may be made); else one call reserved and
/// the stage set to `identify`.
pub fn reserve_identify_call(progress: &mut ProgressTracker) -> (r: Result<(), IdentifyError>)
    ensures
        final(progress).spec_max() == old(progress).spec_max(),
        final(progress).spec_completed() == old(progress).spec_completed(),
        old(progress).wf() ==> final(progress).wf(),
        old(progress).spec_used() + 1 > old(progress).spec_max() ==> (r matches Err(
            IdentifyError::Budget(m),
        ) && m@ == "LLM call budget exceeded: used "@ + decimal(old(progress).spec_used() as nat)
            + " of max "@ + decimal(old(progress).spec_max() as nat) && final(progress).spec_used()
            == old(progress).spec_used() && final(progress).spec_stage() == old(progress).spec_stage()),
        old(progress).spec_used() + 1 <= old(progress).spec_max() ==> r is Ok,
        old(progress).spec_used() + 1 <= old(progress).spec_max() ==> final(progress).spec_used()
            == old(progress).spec_used() + 1,
        old(progress).spec_used() + 1 <= old(progress).spec_max() ==> final(progress).spec_stage()
            == Some("identify"@),
{
    match progress.reserve_llm_calls(1) {
        Ok(()) => {
            progress.set_stage("identify");
            Ok(())
        },
        Err(e) => Err(IdentifyError::Budget(e.to_string())),
    }
}

/// The variables of the single-shot identify template for an input.
pub open spec fn identify_input_vars(input: IdentifySingleShotInput) -> Seq<(Seq<char>, Seq<char>)> {
    seq![
        ("project_name"@, sanitized_input(input.project_name@)),
        ("context"@, Seq::<char>::empty()),
        ("language_instruction"@, sanitized_input(input.language_instruction@)),
        ("max_abstraction_num"@, decimal(input.max_abstraction_num as nat)),
        ("name_lang_hint"@, sanitized_input(input.lang_note@)),
        ("desc_lang_hint"@, sanitized_input(input.lang_note@)),
        ("file_listing"@, file_listing(input.files@)),
    ]
}

/// The rendered single-shot identify prompt for an input: `NotFound` when
/// the renderer holds no template for it, else the template rendered with
/// the input's sanitized variables (or a `Render` error).
pub fn render_identify_prompt(renderer: &PromptRenderer, input: &IdentifySingleShotInput) -> (r: Result<
    String,
    PromptError,
>)
    ensures
        prompt_index(PromptId::IdentifySingleShot) >= renderer.spec_templates().len() ==> (r matches Err(
            PromptError::NotFound(n),
        ) && n@ == prompt_file(PromptId::IdentifySingleShot)),
        prompt_index(PromptId::IdentifySingleShot) < renderer.spec_templates().len() ==> match rendered(
            renderer.spec_templates()[prompt_index(PromptId::IdentifySingleShot) as int],
            identify_input_vars(*input),
        ) {
            Some(t) => r matches Ok(s) && s@ == t,
            None => r matches Err(PromptError::Render(_)),
        },
{
    let fields = identify_prompt_fields(input);
    let vars = identify_prompt_vars(&fields);
    assert(identify_vars(fields) =~= identify_input_vars(*input));
    renderer.render(PromptId::IdentifySingleShot, &vars)
}

pub open spec fn first_bad_index(abs: Seq<Abstraction>, total: nat) -> Option<usize>
    decreases abs.len(),
{
    if abs.len() == 0 {
        None
    } else {
        match first_bad_in(abs[0].file_indices@, total) {
            Some(i) => Some(i),
            None => first_bad_index(abs.drop_first(), total),
        }
    }
}

/// The first index in `ix` that is not below `total`.
pub open spec fn first_bad_in(ix: Seq<usize>, total: nat) -> Option<usize>
    decreases ix.len(),
{
    if ix.len() == 0 {
        None
    } else if ix[0] >= total {
        Some(ix[0])
    } else {
        first_bad_in(ix.drop_first(), total)
    }
}

/// Check the abstractions parsed from the model's answer against an
/// inventory of `total` files: every cited index must be in range (the
/// first offender is reported), and there must be at least one.
pub fn check_abstractions(abstractions: Vec<Abstraction>, total: usize) -> (r: Result<
    IdentifyResult,
    IdentifyError,
>)
    ensures
        match r {
            Ok(res) => first_bad_index(abstractions@, total as nat) is None
                && abstractions@.len() > 0 && res.abstractions@ == abstractions@,
            Err(IdentifyError::FileIndexOutOfRange { index, total: t }) => t == total
                && first_bad_index(abstractions@, total as nat) == Some(index),
            Err(IdentifyError::NoAbstractions) => first_bad_index(abstractions@, total as nat) is None
                && abstractions@.len() == 0,
            Err(_) => false,
        },
{
    let ghost all = abstractions@;
    let mut a: usize = 0;
    assert(all.skip(0) =~= all);
    while a < abstractions.len()
        invariant
            a <= abstractions@.len(),
            all == abstractions@,
            first_bad_index(all, total as nat) == first_bad_index(all.skip(a as int), total as nat),
        decreases abstractions.len() - a,
    {
        let ix = &abstractions[a].file_indices;
        let mut k: usize = 0;
        assert(ix@.skip(0) =~= ix@);
        while k < ix.len()
            invariant
                k <= ix@.len(),
                a < abstractions@.len(),
                all == abstractions@,
                ix@ == abstractions@[a as int].file_indices@,
                first_bad_index(all, total as nat) == first_bad_index(all.skip(a as int), total as nat),
                first_bad_in(ix@, total as nat) == first_bad_in(ix@.skip(k as int), total as nat),
            decreases ix.len() - k,
        {
            if ix[k] >= total {
                proof {
                    assert(all.skip(a as int)[0] == abstractions@[a as int]);
                }
                return Err(IdentifyError::FileIndexOutOfRange { index: ix[k], total });
            }
            assert(ix@.skip(k as int).drop_first() =~= ix@.skip(k + 1));
            k = k + 1;
        }
        assert(all.skip(a as int)[0] == abstractions@[a as int]);
        assert(all.skip(a as int).drop_first() =~= all.skip(a + 1));
        a = a + 1;
    }
    if abstractions.len() == 0 {
        return Err(IdentifyError::NoAbstractions);
    }
    Ok(IdentifyResult::new(abstractions))
}

} // verus!
