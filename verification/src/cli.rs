//! Evaluation as the command-line tool performs it: building the text
//! pipeline from the flags and formatting the result.

use vstd::prelude::*;
use crate::alignment::{alignment_of, edit_distance_of, lemma_alignment_of_optimal};
use crate::format::{decimal_fraction, format_decimal, percentage};
use crate::metrics::{
    cer, char_error_rate, grapheme_clusters, process_chars, process_words, wer, word_error_rate,
};
use crate::output::{
    SplitKind, alignment_picture, error_rate_parts, lemma_summary_of_output,
    lemma_summary_of_first_line, lemma_visualization_of_output, summary_of, visualize_alignment,
};
use crate::text::{split_ws, str_eq};
use crate::transform::{
    ChineseScript, NormalizeSpaces, RemovePunctuation, Strip, ToLower, ToSimplified, Transform,
    lowercase_of, normalized_spaces, trimmed, without_punctuation, zhconv_converted,
};

verus! {

/// Word Error Rate evaluation options, as given on the command line.
#[derive(Debug, Clone)]
pub struct Cli {
    /// Reference text
    pub reference: Option<String>,
    /// Hypothesis text
    pub hypothesis: Option<String>,
    /// Read reference text from file (use `-` for stdin)
    pub ref_file: Option<String>,
    /// Read hypothesis text from file (use `-` for stdin)
    pub hyp_file: Option<String>,
    /// Use character-level evaluation (CER) instead of word-level (WER)
    pub character: bool,
    /// Show detailed alignment visualization
    pub alignment: bool,
    /// Show all metrics (WER, MER, WIP, WIL)
    pub all: bool,
    /// Apply lowercase normalization
    pub lowercase: bool,
    /// Remove punctuation before evaluation
    pub remove_punctuation: bool,
    /// Normalize spaces (collapse consecutive spaces and remove spaces between CJK characters)
    pub normalize_spaces: bool,
    /// Convert to Simplified Chinese before evaluation
    pub simplified: bool,
}

/// One normalization step of the command-line pipeline.
#[derive(Debug, Clone, Copy, PartialEq, Eq, Structural)]
pub enum Step {
    /// Convert to Simplified Chinese ([`ToSimplified`]).
    ToSimplified,
    /// Strip leading and trailing whitespace ([`Strip`]).
    Strip,
    /// Convert to lowercase ([`ToLower`]).
    ToLower,
    /// Remove punctuation ([`RemovePunctuation`]).
    RemovePunctuation,
    /// Normalize spaces ([`NormalizeSpaces`]).
    NormalizeSpaces,
}

/// The text a step makes of `text`.
pub open spec fn step_result(step: Step, text: Seq<char>) -> Seq<char> {
    match step {
        Step::ToSimplified => zhconv_converted(text, ChineseScript::Simplified),
        Step::Strip => trimmed(text),
        Step::ToLower => lowercase_of(text),
        Step::RemovePunctuation => without_punctuation(text),
        Step::NormalizeSpaces => normalized_spaces(text),
    }
}

/// The text that the steps, applied in order, make of `text`.
pub open spec fn run_steps(steps: Seq<Step>, text: Seq<char>) -> Seq<char>
    decreases steps.len(),
{
    if steps.len() == 0 {
        text
    } else {
        step_result(steps.last(), run_steps(steps.drop_last(), text))
    }
}

/// Apply one step.
fn apply_step(step: Step, text: &str) -> (r: String)
    ensures
        r@ == step_result(step, text@),
{
    match step {
        Step::ToSimplified => ToSimplified.transform(text),
        Step::Strip => Strip.transform(text),
        Step::ToLower => ToLower.transform(text),
        Step::RemovePunctuation => RemovePunctuation.transform(text),
        Step::NormalizeSpaces => NormalizeSpaces.transform(text),
    }
}

/// A normalization pipeline built from command-line flags.
#[derive(Debug, Clone)]
pub struct Pipeline {
    steps: Vec<Step>,
}

impl Pipeline {
    /// The steps of the pipeline, in order.
    pub closed spec fn step_list(&self) -> Seq<Step> {
        self.steps@
    }
}

impl Transform for Pipeline {
    open spec fn transformed(&self, input: Seq<char>) -> Seq<char> {
        run_steps(self.step_list(), input)
    }

    fn transform(&self, input: &str) -> (r: String) {
        let mut text = input.to_owned();
        let mut k: usize = 0;
        while k < self.steps.len()
            invariant
                k <= self.steps@.len(),
                text@ == run_steps(self.steps@.take(k as int), input@),
            decreases self.steps@.len() - k,
        {
            proof {
                assert(self.steps@.take(k + 1).drop_last() =~= self.steps@.take(k as int));
            }
            text = apply_step(self.steps[k], text.as_str());
            k += 1;
        }
        assert(self.steps@.take(self.steps@.len() as int) =~= self.steps@);
        text
    }
}

/// The steps that the flags of `cli` ask for, in the order they are applied:
/// Simplified Chinese conversion, then stripping and lowercasing, then
/// punctuation removal, then space normalization.
pub open spec fn cli_steps(cli: Cli) -> Seq<Step> {
    (if cli.simplified { seq![Step::ToSimplified] } else { seq![] }) + (if cli.lowercase {
        seq![Step::Strip, Step::ToLower]
    } else {
        seq![]
    }) + (if cli.remove_punctuation { seq![Step::RemovePunctuation] } else { seq![] }) + (
    if cli.normalize_spaces {
        seq![Step::NormalizeSpaces]
    } else {
        seq![]
    })
}

/// Build a transform pipeline based on CLI flags.
///
/// Returns `None` if no transforms are needed.
pub fn build_pipeline(cli: &Cli) -> (r: Option<Pipeline>)
    ensures
        r is None <==> cli_steps(*cli).len() == 0,
        r matches Some(p) ==> p.step_list() == cli_steps(*cli),
{
    let mut steps: Vec<Step> = Vec::new();
    if cli.simplified {
        steps.push(Step::ToSimplified);
    }
    if cli.lowercase {
        steps.push(Step::Strip);
        steps.push(Step::ToLower);
    }
    if cli.remove_punctuation {
        steps.push(Step::RemovePunctuation);
    }
    if cli.normalize_spaces {
        steps.push(Step::NormalizeSpaces);
    }
    assert(steps@ =~= cli_steps(*cli));
    if steps.len() == 0 {
        None
    } else {
        Some(Pipeline { steps })
    }
}

/// Where one of the two texts to compare is taken from.
#[derive(Debug, Clone, PartialEq, Eq)]
pub enum TextSource {
    /// The text itself, given as a positional argument (or empty).
    Given(String),
    /// Standard input (the path `-`).
    Stdin,
    /// The file at this path.
    File(String),
}

/// What a [`TextSource`] holds, as plain values.
pub enum SourceView {
    /// A given text.
    Given(Seq<char>),
    /// Standard input.
    Stdin,
    /// A file path.
    File(Seq<char>),
}

impl View for TextSource {
    type V = SourceView;

    open spec fn view(&self) -> SourceView {
        match self {
            TextSource::Given(text) => SourceView::Given(text@),
            TextSource::Stdin => SourceView::Stdin,
            TextSource::File(path) => SourceView::File(path@),
        }
    }
}

/// The source named by a file flag: standard input for `-`, the file otherwise.
pub open spec fn path_source(path: Seq<char>) -> SourceView {
    if path == "-"@ {
        SourceView::Stdin
    } else {
        SourceView::File(path)
    }
}

/// The first of two optional texts that is present, or the empty text.
pub open spec fn first_given(first: Option<String>, second: Option<String>) -> Seq<char> {
    match first {
        Some(text) => text@,
        None => match second {
            Some(text) => text@,
            None => Seq::empty(),
        },
    }
}

/// The sources of the reference and the hypothesis. A file flag names the
/// source of its text; with only `--ref-file`, the positional hypothesis (or,
/// failing it, the positional reference) is the hypothesis; with only
/// `--hyp-file`, the positional reference (or, failing it, the positional
/// hypothesis) is the reference; without file flags the positional texts are
/// taken as they are. A missing text is empty.
pub open spec fn sources_of(cli: Cli) -> (SourceView, SourceView) {
    match (cli.ref_file, cli.hyp_file) {
        (Some(ref_path), Some(hyp_path)) => (path_source(ref_path@), path_source(hyp_path@)),
        (Some(ref_path), None) => (
            path_source(ref_path@),
            SourceView::Given(first_given(cli.hypothesis, cli.reference)),
        ),
        (None, Some(hyp_path)) => (
            SourceView::Given(first_given(cli.reference, cli.hypothesis)),
            path_source(hyp_path@),
        ),
        (None, None) => (
            SourceView::Given(first_given(cli.reference, None)),
            SourceView::Given(first_given(cli.hypothesis, None)),
        ),
    }
}

/// The source that a file flag names.
fn path_source_of(path: &String) -> (r: TextSource)
    ensures
        r@ == path_source(path@),
{
    if str_eq(path.as_str(), "-") {
        TextSource::Stdin
    } else {
        TextSource::File(path.clone())
    }
}

/// The first of two optional texts that is present, or the empty text.
fn first_given_of(first: &Option<String>, second: &Option<String>) -> (r: String)
    ensures
        r@ == first_given(*first, *second),
{
    match first {
        Some(text) => text.clone(),
        None => match second {
            Some(text) => text.clone(),
            None => String::new(),
        },
    }
}

/// Where the reference and the hypothesis are read from, as the flags of
/// `cli` say; reading them (the reference first) is left to the caller.
pub fn input_sources(cli: &Cli) -> (r: (TextSource, TextSource))
    ensures
        (r.0@, r.1@) == sources_of(*cli),
{
    let none: Option<String> = None;
    match (&cli.ref_file, &cli.hyp_file) {
        (Some(ref_path), Some(hyp_path)) => (path_source_of(ref_path), path_source_of(hyp_path)),
        (Some(ref_path), None) => (
            path_source_of(ref_path),
            TextSource::Given(first_given_of(&cli.hypothesis, &cli.reference)),
        ),
        (None, Some(hyp_path)) => (
            TextSource::Given(first_given_of(&cli.reference, &cli.hypothesis)),
            path_source_of(hyp_path),
        ),
        (None, None) => (
            TextSource::Given(first_given_of(&cli.reference, &none)),
            TextSource::Given(first_given_of(&cli.hypothesis, &none)),
        ),
    }
}

/// Input parameters for evaluation, decoupled from CLI argument parsing.
#[derive(Debug, Clone)]
pub struct EvalInput {
    /// Reference text.
    pub reference: String,
    /// Hypothesis text.
    pub hypothesis: String,
    /// Use character-level evaluation (CER) instead of word-level (WER).
    pub character: bool,
    /// Show detailed alignment visualization.
    pub alignment: bool,
    /// Show all metrics (WER, MER, WIP, WIL).
    pub all: bool,
}

/// The text evaluated: the pipeline's result when there is one, otherwise the text itself.
pub open spec fn prepared(pipeline: Option<&dyn Transform>, text: Seq<char>) -> Seq<char> {
    match pipeline {
        Some(p) => p.transformed(text),
        None => text,
    }
}

/// The report for reference `r` and hypothesis `h`: with `all` or
/// `alignment`, the summary of the alignment (followed, with `alignment`, by
/// a blank line and the visualization); otherwise the error rate with four
/// decimals. Tokens are grapheme clusters with `character`, words otherwise.
pub open spec fn report(r: Seq<char>, h: Seq<char>, character: bool, all: bool, alignment: bool) -> Seq<char> {
    let a = if character { grapheme_clusters(r) } else { split_ws(r) };
    let b = if character { grapheme_clusters(h) } else { split_ws(h) };
    let kind = if character { SplitKind::Graphemes } else { SplitKind::Words };
    let ops = alignment_of(a, b);
    if all || alignment {
        summary_of(a, b, ops, kind) + if alignment {
            "\n"@ + alignment_picture(a, b, ops)
        } else {
            seq![]
        }
    } else {
        let rate = error_rate_parts(edit_distance_of(a, b) as int, a.len() as int);
        decimal_fraction(rate.0 as nat, rate.1 as nat, 4)
    }
}

/// The report for already prepared texts.
fn format_report(reference: &str, hypothesis: &str, character: bool, all: bool, alignment: bool) -> (result: String)
    requires
        reference@.len() + hypothesis@.len() <= usize::MAX,
    ensures
        result@ == report(reference@, hypothesis@, character, all, alignment),
{
    let mut result = String::new();
    if all || alignment {
        let output = if character {
            process_chars(reference, hypothesis)
        } else {
            process_words(reference, hypothesis)
        };
        let summary = output.summary();
        result.append(summary.as_str());
        let ghost a = if character { grapheme_clusters(reference@) } else { split_ws(reference@) };
        let ghost b = if character { grapheme_clusters(hypothesis@) } else { split_ws(hypothesis@) };
        let ghost kind = if character { SplitKind::Graphemes } else { SplitKind::Words };
        proof {
            lemma_summary_of_output(output, a, b, alignment_of(a, b), kind);
            lemma_visualization_of_output(output, a, b, alignment_of(a, b), kind);
        }
        if alignment {
            result.append("\n");
            let picture = visualize_alignment(&output);
            result.append(picture.as_str());
        }
    } else {
        let rate = if character {
            cer(reference, hypothesis)
        } else {
            wer(reference, hypothesis)
        };
        let text = format_decimal(rate.numerator, rate.denominator);
        result.append(text.as_str());
    }
    assert(result@ =~= report(reference@, hypothesis@, character, all, alignment));
    result
}

/// Process input texts and return formatted evaluation result.
pub fn process_and_format(input: &EvalInput, pipeline: Option<&dyn Transform>) -> (result: String)
    requires
        prepared(pipeline, input.reference@).len() + prepared(pipeline, input.hypothesis@).len()
            <= usize::MAX,
    ensures
        result@ == report(
            prepared(pipeline, input.reference@),
            prepared(pipeline, input.hypothesis@),
            input.character,
            input.all,
            input.alignment,
        ),
{
    let ref_processed = match pipeline {
        Some(p) => p.transform(input.reference.as_str()),
        None => input.reference.clone(),
    };
    let hyp_processed = match pipeline {
        Some(p) => p.transform(input.hypothesis.as_str()),
        None => input.hypothesis.clone(),
    };
    format_report(
        ref_processed.as_str(),
        hyp_processed.as_str(),
        input.character,
        input.all,
        input.alignment,
    )
}

} // verus!

verus! {

/// The error rate that the report gives for the two texts: the character
/// error rate with `character`, the word error rate otherwise.
pub open spec fn reported_rate(r: Seq<char>, h: Seq<char>, character: bool) -> (int, int) {
    if character {
        char_error_rate(r, h)
    } else {
        word_error_rate(r, h)
    }
}

/// Without `--all` and `--alignment`, the report is the error rate written
/// with four decimals: the word error rate of the texts, or their character
/// error rate with `character`.
pub proof fn lemma_plain_report(r: Seq<char>, h: Seq<char>)
    ensures
        report(r, h, false, false, false) == decimal_fraction(
            word_error_rate(r, h).0 as nat,
            word_error_rate(r, h).1 as nat,
            4,
        ),
        report(r, h, true, false, false) == decimal_fraction(
            char_error_rate(r, h).0 as nat,
            char_error_rate(r, h).1 as nat,
            4,
        ),
{
}

/// With `--all` or `--alignment`, the report begins with the same error rate
/// as a percentage: the word error rate of the texts, or their character
/// error rate with `character`.
pub proof fn lemma_summary_report_rate(r: Seq<char>, h: Seq<char>, character: bool, all: bool, alignment: bool)
    requires
        all || alignment,
        character ==> grapheme_clusters(r).len() <= usize::MAX && grapheme_clusters(h).len() <= usize::MAX,
        !character ==> split_ws(r).len() <= usize::MAX && split_ws(h).len() <= usize::MAX,
    ensures
        ({
            let rate = reported_rate(r, h, character);
            let first = "WER:  "@ + percentage(rate.0 as nat, rate.1 as nat) + "%\n"@;
            &&& report(r, h, character, all, alignment).len() >= first.len()
            &&& report(r, h, character, all, alignment).take(first.len() as int) == first
        }),
{
    let a = if character { grapheme_clusters(r) } else { split_ws(r) };
    let b = if character { grapheme_clusters(h) } else { split_ws(h) };
    let kind = if character { SplitKind::Graphemes } else { SplitKind::Words };
    let ops = alignment_of(a, b);
    lemma_alignment_of_optimal(a, b);
    lemma_summary_of_first_line(a, b, ops, kind);
    let rate = reported_rate(r, h, character);
    let first = "WER:  "@ + percentage(rate.0 as nat, rate.1 as nat) + "%\n"@;
    let rest = if alignment {
        "\n"@ + alignment_picture(a, b, ops)
    } else {
        seq![]
    };
    assert(report(r, h, character, all, alignment) == summary_of(a, b, ops, kind) + rest);
    assert((summary_of(a, b, ops, kind) + rest).take(first.len() as int) =~= first);
}

} // verus!
