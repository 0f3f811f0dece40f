//! # rwer
//!
//! Word Error Rate (WER), Character Error Rate (CER), and related ASR
//! (Automatic Speech Recognition) evaluation metrics, computed from an
//! optimal Levenshtein alignment of reference and hypothesis tokens.
//!
//! - **WER** (Word Error Rate): `(S + D + I) / N`
//! - **CER** (Character Error Rate): the same formula over Unicode grapheme clusters
//! - **MER** (Match Error Rate): `(S + D + I) / (H + S + D + I)`
//! - **WIP** (Word Information Preserved): `(H/N) * (H/(H+S+D+I))`
//! - **WIL** (Word Information Lost): `1 - WIP`
//!
//! Rates are exact fractions ([`Ratio`]).

/// Levenshtein alignment and edit operations.
pub mod alignment;

/// Levenshtein distance through rapidfuzz's bit-parallel algorithm.
pub mod alignment_fast;

/// Chinese word segmentation.
pub mod chinese;

/// Evaluation as the command-line tool performs it.
pub mod cli;

/// Exact decimal rendering.
pub mod format;

/// WER, CER, MER, WIP, WIL metric computation.
pub mod metrics;

/// Alignment output, visualization, and error analysis.
pub mod output;

/// Character and word level text utilities.
pub mod text;

/// Text transform pipeline for preprocessing.
pub mod transform;

/// The results as flat records, for the WebAssembly bindings.
pub mod web;

pub use crate::alignment::{EditOp, OperationCounts, align, count_operations};
pub use crate::chinese::{ChineseTokenizer, chinese_wer};
pub use crate::metrics::{cer, mer, process_chars, process_words, wer, wer_sentences, wil, wip};
pub use crate::output::{
    AlignmentChunk, AlignmentOutput, CountMap, ErrorCounts, Ratio, collect_error_counts,
    visualize_alignment,
};
pub use crate::transform::{
    ChineseWordSegment, Compose, ExpandCommonEnglishContractions, NormalizeSpaces,
    RemoveMultipleSpaces, RemovePunctuation, RemoveSpecificWords, RemoveWhitespace, Strip,
    SubstituteWords, ToLower, ToSimplified, ToTraditional, ToUpper, Transform,
};
