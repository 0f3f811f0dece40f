//! Chinese word segmentation using jieba-rs for word-level WER.
//!
//! Character-level metrics (CER) work with Chinese text without
//! segmentation; this module is only needed for word-level WER.

use vstd::prelude::*;
use jieba_rs::Jieba;
use crate::alignment::edit_distance_of;
use crate::metrics::compute_wer;
use crate::output::{Ratio, error_rate_parts, ratio_is};
use crate::text::{lemma_pieces_len, token_views};

verus! {

#[verifier::external_type_specification]
#[verifier::external_body]
pub struct ExJieba(Jieba);

/// The words that jieba's default dictionary cuts a text into (`Jieba::cut`
/// without HMM).
pub uninterp spec fn jieba_segments(text: Seq<char>) -> Seq<Seq<char>>;

/// The words that jieba's default dictionary cuts a text into in search
/// mode (`Jieba::cut_for_search` without HMM).
pub uninterp spec fn jieba_search_segments(text: Seq<char>) -> Seq<Seq<char>>;

/// Chinese word tokenizer backed by jieba-rs.
pub struct ChineseTokenizer {
    jieba: Jieba,
}

/// `Jieba::new()`: a segmenter loaded with jieba's default dictionary.
#[verifier::external_body]
fn default_jieba() -> Jieba {
    Jieba::new()
}

/// `Jieba::cut(text, false)` on the tokenizer's default-dictionary segmenter,
/// each token's word copied out. The tokens are non-empty pieces of `text`
/// that concatenate back to it; where it cuts is named, not stated.
#[verifier::external_body]
fn jieba_cut(tokenizer: &ChineseTokenizer, text: &str) -> (words: Vec<String>)
    ensures
        token_views(words@) == jieba_segments(text@),
        token_views(words@).flatten() == text@,
        forall|k: int| 0 <= k < words@.len() ==> #[trigger] words@[k]@.len() > 0,
{
    tokenizer.jieba.cut(text, false).into_iter().map(|t| t.word.to_string()).collect()
}

/// `Jieba::cut_for_search(text, false)` on the tokenizer's default-dictionary
/// segmenter, each token's word copied out; which words it yields is named, not stated.
#[verifier::external_body]
fn jieba_cut_for_search(tokenizer: &ChineseTokenizer, text: &str) -> (words: Vec<String>)
    ensures
        token_views(words@) == jieba_search_segments(text@),
{
    tokenizer.jieba.cut_for_search(text, false).into_iter().map(|t| t.word.to_string()).collect()
}

impl ChineseTokenizer {
    /// Create a new Chinese tokenizer with the default dictionary.
    pub fn new() -> Self {
        Self { jieba: default_jieba() }
    }

    /// Segment Chinese text into words.
    pub fn cut(&self, text: &str) -> (words: Vec<String>)
        ensures
            token_views(words@) == jieba_segments(text@),
            words@.len() <= text@.len(),
    {
        let words = jieba_cut(self, text);
        proof {
            lemma_pieces_len(token_views(words@));
        }
        words
    }

    /// Segment Chinese text into words for search mode (handles unknown words better).
    pub fn cut_for_search(&self, text: &str) -> (words: Vec<String>)
        ensures
            token_views(words@) == jieba_search_segments(text@),
    {
        jieba_cut_for_search(self, text)
    }
}

/// The tokenizer with jieba's default dictionary, as [`ChineseTokenizer::new`] makes it.
impl Default for ChineseTokenizer {
    fn default() -> Self {
        Self::new()
    }
}

/// Compute word-level WER for Chinese text using jieba segmentation.
///
/// For character-level evaluation, use [`crate::metrics::cer`] instead.
pub fn chinese_wer(reference: &str, hypothesis: &str) -> (r: Ratio)
    requires
        reference@.len() + hypothesis@.len() <= usize::MAX,
    ensures
        reference@.len() == 0 && hypothesis@.len() == 0 ==> ratio_is(r, (0, 1)),
        !(reference@.len() == 0 && hypothesis@.len() == 0) ==> ratio_is(
            r,
            error_rate_parts(
                edit_distance_of(jieba_segments(reference@), jieba_segments(hypothesis@)) as int,
                jieba_segments(reference@).len() as int,
            ),
        ),
{
    if reference.is_empty() && hypothesis.is_empty() {
        return Ratio { numerator: 0, denominator: 1 };
    }
    let tokenizer = ChineseTokenizer::new();
    let ref_words = tokenizer.cut(reference);
    let hyp_words = tokenizer.cut(hypothesis);
    compute_wer(&ref_words, &hyp_words)
}

} // verus!
