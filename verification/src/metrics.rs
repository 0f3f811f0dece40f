use vstd::prelude::*;
use unicode_segmentation::UnicodeSegmentation;
use crate::alignment::{
    align, alignment_of, count_errors, count_hits, count_operations, edit_distance_of,
    lemma_alignment_counts, lemma_alignment_of_optimal,
};
use crate::output::{
    AlignmentOutput, Ratio, SplitKind, build_output, error_rate_parts, match_error_parts,
    output_of, rates_defined, ratio_is, wil_parts, wip_parts,
};
use crate::text::{
    Token, lemma_pieces_len, lemma_split_ws_len, split_whitespace, split_ws, token_views,
};

verus! {

/// The extended grapheme clusters of a text, as `unicode-segmentation` splits it.
pub uninterp spec fn grapheme_clusters(text: Seq<char>) -> Seq<Seq<char>>;

/// `UnicodeSegmentation::graphemes(text, true)`: the extended grapheme
/// clusters of `text`, in order. They are non-empty pieces of `text` that
/// concatenate back to it; which pieces they are is named, not stated.
#[verifier::external_body]
fn graphemes_of(text: &str) -> (clusters: Vec<String>)
    ensures
        token_views(clusters@) == grapheme_clusters(text@),
        token_views(clusters@).flatten() == text@,
        forall|k: int| 0 <= k < clusters@.len() ==> #[trigger] clusters@[k]@.len() > 0,
{
    text.graphemes(true).map(|g| g.to_string()).collect()
}

} // verus!

verus! {

/// Split a text into whitespace-separated words.
fn split_words(text: &str) -> (words: Vec<String>)
    ensures
        token_views(words@) == split_ws(text@),
        words@.len() <= text@.len(),
{
    proof {
        lemma_split_ws_len(text@);
    }
    split_whitespace(text)
}

/// Split a text into extended grapheme clusters.
fn split_graphemes(text: &str) -> (clusters: Vec<String>)
    ensures
        token_views(clusters@) == grapheme_clusters(text@),
        clusters@.len() <= text@.len(),
{
    let clusters = graphemes_of(text);
    proof {
        lemma_pieces_len(token_views(clusters@));
    }
    clusters
}

/// The number of errors (substitutions, deletions, insertions) in the
/// alignment of `a` against `b`.
pub open spec fn errors_of(a: Seq<Seq<char>>, b: Seq<Seq<char>>) -> int {
    count_errors(alignment_of(a, b)) as int
}

/// The number of matches in the alignment of `a` against `b`.
pub open spec fn hits_of(a: Seq<Seq<char>>, b: Seq<Seq<char>>) -> int {
    count_hits(alignment_of(a, b)) as int
}

/// Error rate of token sequences: `(S + D + I) / N`, or `0 / 1` for an empty reference.
pub fn compute_wer<S: Token>(reference: &[S], hypothesis: &[S]) -> (r: Ratio)
    requires
        reference@.len() + hypothesis@.len() <= usize::MAX,
    ensures
        ratio_is(
            r,
            error_rate_parts(
                edit_distance_of(token_views(reference@), token_views(hypothesis@)) as int,
                reference@.len() as int,
            ),
        ),
{
    let n = reference.len();
    if n == 0 {
        return Ratio { numerator: 0, denominator: 1 };
    }
    let ops = align(reference, hypothesis);
    let counts = count_operations(&ops);
    let s_d_i = counts.substitutions as u128 + counts.deletions as u128 + counts.insertions as u128;
    Ratio { numerator: s_d_i, denominator: n as u128 }
}

/// Match error rate of token sequences: `(S + D + I) / (H + S + D + I)`.
fn compute_mer<S: Token>(reference: &[S], hypothesis: &[S]) -> (r: Ratio)
    requires
        reference@.len() + hypothesis@.len() <= usize::MAX,
    ensures
        ratio_is(
            r,
            match_error_parts(
                errors_of(token_views(reference@), token_views(hypothesis@)),
                hits_of(token_views(reference@), token_views(hypothesis@)) + errors_of(
                    token_views(reference@),
                    token_views(hypothesis@),
                ),
            ),
        ),
{
    let ops = align(reference, hypothesis);
    let counts = count_operations(&ops);
    let errors = counts.substitutions as u128 + counts.deletions as u128 + counts.insertions as u128;
    let total = counts.hits as u128 + errors;
    if total == 0 {
        return Ratio { numerator: 0, denominator: 1 };
    }
    Ratio { numerator: errors, denominator: total }
}

/// Word information preserved of token sequences: `(H / N) * (H / (H + S + D + I))`.
fn compute_wip<S: Token>(reference: &[S], hypothesis: &[S]) -> (r: Ratio)
    requires
        reference@.len() + hypothesis@.len() <= usize::MAX,
    ensures
        r.numerator <= r.denominator,
        ratio_is(
            r,
            wip_parts(
                hits_of(token_views(reference@), token_views(hypothesis@)),
                reference@.len() as int,
                hypothesis@.len() as int,
                hits_of(token_views(reference@), token_views(hypothesis@)) + errors_of(
                    token_views(reference@),
                    token_views(hypothesis@),
                ),
            ),
        ),
{
    let n = reference.len();
    let h = hypothesis.len();
    if n == 0 && h == 0 {
        return Ratio { numerator: 1, denominator: 1 };
    }
    if n == 0 || h == 0 {
        return Ratio { numerator: 0, denominator: 1 };
    }
    let ops = align(reference, hypothesis);
    let counts = count_operations(&ops);
    let hits = counts.hits as u128;
    if counts.hits == 0 {
        return Ratio { numerator: 0, denominator: 1 };
    }
    proof {
        lemma_alignment_counts(token_views(reference@), token_views(hypothesis@), ops@);
    }
    let total = hits + counts.substitutions as u128 + counts.deletions as u128 + counts.insertions as u128;
    let nn = n as u128;
    proof {
        assert(hits * hits <= 0xffff_ffff_ffff_ffffu128 * 0xffff_ffff_ffff_ffffu128)
            by (nonlinear_arith)
            requires
                hits <= 0xffff_ffff_ffff_ffffu128,
        ;
        assert(nn * total <= 0xffff_ffff_ffff_ffffu128 * 0xffff_ffff_ffff_ffffu128)
            by (nonlinear_arith)
            requires
                nn <= 0xffff_ffff_ffff_ffffu128,
                total <= 0xffff_ffff_ffff_ffffu128,
        ;
        assert(hits * hits <= nn * total) by (nonlinear_arith)
            requires
                hits <= nn,
                hits <= total,
        ;
    }
    Ratio { numerator: hits * hits, denominator: nn * total }
}

/// Word error rate of two texts as a fraction: word edit distance over
/// reference words (`0 / 1` without reference words).
pub open spec fn word_error_rate(reference: Seq<char>, hypothesis: Seq<char>) -> (int, int) {
    error_rate_parts(
        edit_distance_of(split_ws(reference), split_ws(hypothesis)) as int,
        split_ws(reference).len() as int,
    )
}

/// Character error rate of two texts as a fraction: grapheme-cluster edit
/// distance over reference clusters (`0 / 1` without reference clusters).
pub open spec fn char_error_rate(reference: Seq<char>, hypothesis: Seq<char>) -> (int, int) {
    error_rate_parts(
        edit_distance_of(grapheme_clusters(reference), grapheme_clusters(hypothesis)) as int,
        grapheme_clusters(reference).len() as int,
    )
}

/// Match error rate of two texts as a fraction: word errors over hits plus errors.
pub open spec fn match_error_rate(reference: Seq<char>, hypothesis: Seq<char>) -> (int, int) {
    let a = split_ws(reference);
    let b = split_ws(hypothesis);
    match_error_parts(errors_of(a, b), hits_of(a, b) + errors_of(a, b))
}

/// Word information preserved by the hypothesis, as a fraction.
pub open spec fn word_info_preserved(reference: Seq<char>, hypothesis: Seq<char>) -> (int, int) {
    let a = split_ws(reference);
    let b = split_ws(hypothesis);
    wip_parts(hits_of(a, b), a.len() as int, b.len() as int, hits_of(a, b) + errors_of(a, b))
}

/// Word information lost, as a fraction: one minus what is preserved.
pub open spec fn word_info_lost(reference: Seq<char>, hypothesis: Seq<char>) -> (int, int) {
    let a = split_ws(reference);
    let b = split_ws(hypothesis);
    wil_parts(hits_of(a, b), a.len() as int, b.len() as int, hits_of(a, b) + errors_of(a, b))
}

/// Compute Word Error Rate between reference and hypothesis strings.
///
/// WER = (S + D + I) / N over whitespace-separated words; `0 / 1` when the
/// reference has no words.
pub fn wer(reference: &str, hypothesis: &str) -> (r: Ratio)
    requires
        reference@.len() + hypothesis@.len() <= usize::MAX,
    ensures
        ratio_is(r, word_error_rate(reference@, hypothesis@)),
{
    let ref_words = split_words(reference);
    let hyp_words = split_words(hypothesis);
    compute_wer(&ref_words, &hyp_words)
}

/// Compute Character Error Rate at the Unicode grapheme cluster level.
///
/// CER = (S + D + I) / N over grapheme clusters.
pub fn cer(reference: &str, hypothesis: &str) -> (r: Ratio)
    requires
        reference@.len() + hypothesis@.len() <= usize::MAX,
    ensures
        ratio_is(r, char_error_rate(reference@, hypothesis@)),
{
    let ref_chars = split_graphemes(reference);
    let hyp_chars = split_graphemes(hypothesis);
    compute_wer(&ref_chars, &hyp_chars)
}

/// Compute Match Error Rate.
///
/// MER = (S + D + I) / (H + S + D + I) where H = hits.
pub fn mer(reference: &str, hypothesis: &str) -> (r: Ratio)
    requires
        reference@.len() + hypothesis@.len() <= usize::MAX,
    ensures
        ratio_is(r, match_error_rate(reference@, hypothesis@)),
{
    let ref_words = split_words(reference);
    let hyp_words = split_words(hypothesis);
    compute_mer(&ref_words, &hyp_words)
}

/// Compute Word Information Preserved.
///
/// WIP = (H / N) * (H / (H + S + D + I))
pub fn wip(reference: &str, hypothesis: &str) -> (r: Ratio)
    requires
        reference@.len() + hypothesis@.len() <= usize::MAX,
    ensures
        r.numerator <= r.denominator,
        ratio_is(r, word_info_preserved(reference@, hypothesis@)),
{
    let ref_words = split_words(reference);
    let hyp_words = split_words(hypothesis);
    compute_wip(&ref_words, &hyp_words)
}

/// Compute Word Information Lost.
///
/// WIL = 1 - WIP
pub fn wil(reference: &str, hypothesis: &str) -> (r: Ratio)
    requires
        reference@.len() + hypothesis@.len() <= usize::MAX,
    ensures
        ratio_is(r, word_info_lost(reference@, hypothesis@)),
{
    let w = wip(reference, hypothesis);
    Ratio { numerator: w.denominator - w.numerator, denominator: w.denominator }
}

/// Compute all word-level metrics at once and return detailed output.
pub fn process_words(reference: &str, hypothesis: &str) -> (out: AlignmentOutput)
    requires
        reference@.len() + hypothesis@.len() <= usize::MAX,
    ensures
        output_of(
            out,
            split_ws(reference@),
            split_ws(hypothesis@),
            alignment_of(split_ws(reference@), split_ws(hypothesis@)),
            SplitKind::Words,
        ),
        ratio_is(out.wer, word_error_rate(reference@, hypothesis@)),
        out.hits + out.substitutions + out.deletions == out.ref_len,
        out.hits + out.substitutions + out.insertions == out.hyp_len,
        rates_defined(out),
{
    let ref_words = split_words(reference);
    let hyp_words = split_words(hypothesis);
    let ops = align(&ref_words, &hyp_words);
    let counts = count_operations(&ops);
    build_output(&ref_words, &hyp_words, &ops, &counts, SplitKind::Words)
}

/// Compute all character-level metrics at once and return detailed output.
pub fn process_chars(reference: &str, hypothesis: &str) -> (out: AlignmentOutput)
    requires
        reference@.len() + hypothesis@.len() <= usize::MAX,
    ensures
        output_of(
            out,
            grapheme_clusters(reference@),
            grapheme_clusters(hypothesis@),
            alignment_of(grapheme_clusters(reference@), grapheme_clusters(hypothesis@)),
            SplitKind::Graphemes,
        ),
        ratio_is(out.wer, char_error_rate(reference@, hypothesis@)),
        out.hits + out.substitutions + out.deletions == out.ref_len,
        out.hits + out.substitutions + out.insertions == out.hyp_len,
        rates_defined(out),
{
    let ref_chars = split_graphemes(reference);
    let hyp_chars = split_graphemes(hypothesis);
    let ops = align(&ref_chars, &hyp_chars);
    let counts = count_operations(&ops);
    build_output(&ref_chars, &hyp_chars, &ops, &counts, SplitKind::Graphemes)
}

} // verus!

verus! {

/// The words of a list of sentences, sentence after sentence.
pub open spec fn sentence_words(sentences: Seq<Seq<char>>) -> Seq<Seq<char>>
    decreases sentences.len(),
{
    if sentences.len() == 0 {
        seq![]
    } else {
        sentence_words(sentences.drop_last()) + split_ws(sentences.last())
    }
}

/// The total number of characters in a list of sentences.
pub open spec fn total_chars(sentences: Seq<Seq<char>>) -> nat
    decreases sentences.len(),
{
    if sentences.len() == 0 {
        0
    } else {
        total_chars(sentences.drop_last()) + sentences.last().len()
    }
}

/// The words of sentences, flattened into one list.
fn flatten_words(sentences: &[&str]) -> (words: Vec<String>)
    ensures
        token_views(words@) == sentence_words(token_views(sentences@)),
        words@.len() <= total_chars(token_views(sentences@)),
{
    let ghost sv = token_views(sentences@);
    let mut all: Vec<String> = Vec::new();
    let mut k: usize = 0;
    while k < sentences.len()
        invariant
            k <= sentences@.len(),
            sv == token_views(sentences@),
            token_views(all@) == sentence_words(sv.take(k as int)),
            all@.len() <= total_chars(sv.take(k as int)),
        decreases sentences@.len() - k,
    {
        proof {
            assert(sv.take(k + 1).drop_last() =~= sv.take(k as int));
            assert(sv.take(k + 1).last() == sentences@[k as int]@);
        }
        let ghost before = all@;
        let mut words = split_words(sentences[k]);
        all.append(&mut words);
        proof {
            assert(token_views(all@) =~= token_views(before) + split_ws(sentences@[k as int]@));
        }
        k += 1;
    }
    assert(sv.take(sentences@.len() as int) =~= sv);
    all
}

/// Compute WER for multiple sentence pairs (flattened).
pub fn wer_sentences(ref_sentences: &[&str], hyp_sentences: &[&str]) -> (r: Ratio)
    requires
        total_chars(token_views(ref_sentences@)) + total_chars(token_views(hyp_sentences@))
            <= usize::MAX,
    ensures
        ratio_is(
            r,
            error_rate_parts(
                edit_distance_of(
                    sentence_words(token_views(ref_sentences@)),
                    sentence_words(token_views(hyp_sentences@)),
                ) as int,
                sentence_words(token_views(ref_sentences@)).len() as int,
            ),
        ),
{
    let all_ref = flatten_words(ref_sentences);
    let all_hyp = flatten_words(hyp_sentences);
    compute_wer(&all_ref, &all_hyp)
}

} // verus!

verus! {

/// Comparing a token sequence with itself gives a word error rate of 0, a
/// match error rate of 0, word information preserved of 1 and word
/// information lost of 0.
pub proof fn lemma_identical_rates(a: Seq<Seq<char>>)
    requires
        a.len() <= usize::MAX,
    ensures
        error_rate_parts(edit_distance_of(a, a) as int, a.len() as int).0 == 0,
        match_error_parts(errors_of(a, a), hits_of(a, a) + errors_of(a, a)).0 == 0,
        wip_parts(hits_of(a, a), a.len() as int, a.len() as int, hits_of(a, a) + errors_of(a, a)).0
            == wip_parts(hits_of(a, a), a.len() as int, a.len() as int, hits_of(a, a) + errors_of(a, a)).1,
        wil_parts(hits_of(a, a), a.len() as int, a.len() as int, hits_of(a, a) + errors_of(a, a)).0 == 0,
{
    crate::alignment::lemma_identical_sequences(a);
}

/// A text compared with itself: word error rate 0, match error rate 0, word
/// information preserved 1 and word information lost 0; and, when its
/// grapheme clusters can be counted by a `usize`, character error rate 0.
pub proof fn lemma_identical_texts(text: Seq<char>)
    requires
        text.len() <= usize::MAX,
    ensures
        word_error_rate(text, text).0 == 0,
        match_error_rate(text, text).0 == 0,
        word_info_preserved(text, text).0 == word_info_preserved(text, text).1,
        word_info_lost(text, text).0 == 0,
        grapheme_clusters(text).len() <= usize::MAX ==> char_error_rate(text, text).0 == 0,
{
    crate::text::lemma_split_ws_len(text);
    lemma_identical_rates(split_ws(text));
    if grapheme_clusters(text).len() <= usize::MAX {
        crate::alignment::lemma_identical_sequences(grapheme_clusters(text));
    }
}

/// The rates in the output of `process_words` are those that `wer`, `mer`,
/// `wip` and `wil` give for the same texts.
pub proof fn lemma_word_output_rates(out: AlignmentOutput, reference: Seq<char>, hypothesis: Seq<char>)
    requires
        split_ws(reference).len() <= usize::MAX,
        split_ws(hypothesis).len() <= usize::MAX,
        output_of(
            out,
            split_ws(reference),
            split_ws(hypothesis),
            alignment_of(split_ws(reference), split_ws(hypothesis)),
            SplitKind::Words,
        ),
    ensures
        ratio_is(out.wer, word_error_rate(reference, hypothesis)),
        ratio_is(out.mer, match_error_rate(reference, hypothesis)),
        ratio_is(out.wip, word_info_preserved(reference, hypothesis)),
        ratio_is(out.wil, word_info_lost(reference, hypothesis)),
{
    lemma_alignment_of_optimal(split_ws(reference), split_ws(hypothesis));
}

/// The error rates in the output of `process_chars` (its WER and its CER)
/// are both the rate that `cer` gives for the same texts.
pub proof fn lemma_char_output_rates(out: AlignmentOutput, reference: Seq<char>, hypothesis: Seq<char>)
    requires
        grapheme_clusters(reference).len() <= usize::MAX,
        grapheme_clusters(hypothesis).len() <= usize::MAX,
        output_of(
            out,
            grapheme_clusters(reference),
            grapheme_clusters(hypothesis),
            alignment_of(grapheme_clusters(reference), grapheme_clusters(hypothesis)),
            SplitKind::Graphemes,
        ),
    ensures
        ratio_is(out.wer, char_error_rate(reference, hypothesis)),
        ratio_is(out.cer, char_error_rate(reference, hypothesis)),
{
    lemma_alignment_of_optimal(grapheme_clusters(reference), grapheme_clusters(hypothesis));
}

/// Match error rate, word information preserved and word information lost
/// are fractions between 0 and 1, with a positive denominator.
pub proof fn lemma_rates_bounded(reference: Seq<char>, hypothesis: Seq<char>)
    requires
        split_ws(reference).len() <= usize::MAX,
        split_ws(hypothesis).len() <= usize::MAX,
    ensures
        0 <= match_error_rate(reference, hypothesis).0 <= match_error_rate(reference, hypothesis).1,
        0 < match_error_rate(reference, hypothesis).1,
        0 <= word_info_preserved(reference, hypothesis).0 <= word_info_preserved(reference, hypothesis).1,
        0 < word_info_preserved(reference, hypothesis).1,
        0 <= word_info_lost(reference, hypothesis).0 <= word_info_lost(reference, hypothesis).1,
        0 < word_info_lost(reference, hypothesis).1,
{
    let a = split_ws(reference);
    let b = split_ws(hypothesis);
    let ops = alignment_of(a, b);
    lemma_alignment_of_optimal(a, b);
    lemma_alignment_counts(a, b, ops);
    let hits = count_hits(ops) as int;
    let total = hits + count_errors(ops) as int;
    let n = a.len() as int;
    if n > 0 && b.len() > 0 && hits > 0 {
        assert(hits * hits <= n * total) by (nonlinear_arith)
            requires
                0 <= hits <= n,
                hits <= total,
        ;
        assert(n * total > 0) by (nonlinear_arith)
            requires
                n > 0,
                total > 0,
        ;
        assert(hits * hits >= 0) by (nonlinear_arith);
    }
}

/// Word information lost is one minus word information preserved: the two
/// fractions share their denominator and their numerators add up to it.
pub proof fn lemma_wil_complements_wip(reference: Seq<char>, hypothesis: Seq<char>)
    ensures
        word_info_lost(reference, hypothesis).1 == word_info_preserved(reference, hypothesis).1,
        word_info_lost(reference, hypothesis).0 + word_info_preserved(reference, hypothesis).0
            == word_info_preserved(reference, hypothesis).1,
{
}

} // verus!
