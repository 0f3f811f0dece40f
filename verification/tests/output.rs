use rwer::alignment::{align, count_operations, EditOp, OperationCounts};
use rwer::output::{
    build_output, collect_error_counts, visualize_alignment, AlignmentChunk, AlignmentOutput,
    ErrorCounts, Ratio, SplitKind,
};

fn val(r: Ratio) -> f64 {
    r.numerator as f64 / r.denominator as f64
}

fn approx_eq(a: f64, b: f64) -> bool {
    (a - b).abs() < 1e-10
}

fn r(numerator: u128, denominator: u128) -> Ratio {
    Ratio { numerator, denominator }
}

fn sample_output() -> AlignmentOutput {
    AlignmentOutput {
        wer: r(333, 1000),
        mer: r(1, 4),
        wip: r(3, 4),
        wil: r(1, 4),
        cer: r(0, 1),
        hits: 2,
        substitutions: 1,
        deletions: 0,
        insertions: 0,
        ref_len: 3,
        hyp_len: 3,
        chunks: vec![
            AlignmentChunk::Equal { text: "the".into() },
            AlignmentChunk::Equal { text: "cat".into() },
            AlignmentChunk::Substitute {
                reference: "sat".into(),
                hypothesis: "stood".into(),
            },
        ],
    }
}

#[test]
fn alignment_output_display() {
    let output = sample_output();
    let display = output.summary();
    assert!(display.contains("WER:"));
    assert!(display.contains("33.30%"));
    assert!(display.contains("MER:"));
    assert!(display.contains("25.00%"));
    assert!(display.contains("WIP:"));
    assert!(display.contains("0.7500"));
    assert!(display.contains("Hits: 2"));
}

#[test]
fn alignment_output_display_with_cer() {
    let mut output = sample_output();
    output.cer = r(1, 10);
    let display = output.summary();
    assert!(display.contains("CER:"));
}

#[test]
fn alignment_output_display_no_cer() {
    let output = sample_output();
    let display = output.summary();
    assert!(!display.contains("CER:"));
}

#[test]
fn visualize_alignment_basic() {
    let output = sample_output();
    let viz = visualize_alignment(&output);
    assert!(viz.contains("REF:"));
    assert!(viz.contains("HYP:"));
    assert!(viz.contains("the"));
    assert!(viz.contains("cat"));
}

#[test]
fn visualize_alignment_with_insert() {
    let output = AlignmentOutput {
        wer: r(1, 2),
        mer: r(333, 1000),
        wip: r(1, 2),
        wil: r(1, 2),
        cer: r(0, 1),
        hits: 1,
        substitutions: 0,
        deletions: 0,
        insertions: 1,
        ref_len: 1,
        hyp_len: 2,
        chunks: vec![
            AlignmentChunk::Equal { text: "a".into() },
            AlignmentChunk::Insert {
                hypothesis: "b".into(),
            },
        ],
    };
    let viz = visualize_alignment(&output);
    assert!(viz.contains("REF: a *"));
    assert!(viz.contains("HYP: a b"));
}

#[test]
fn visualize_alignment_with_delete() {
    let output = AlignmentOutput {
        wer: r(1, 1),
        mer: r(1, 1),
        wip: r(0, 1),
        wil: r(1, 1),
        cer: r(0, 1),
        hits: 0,
        substitutions: 0,
        deletions: 1,
        insertions: 0,
        ref_len: 1,
        hyp_len: 0,
        chunks: vec![AlignmentChunk::Delete {
            reference: "a".into(),
        }],
    };
    let viz = visualize_alignment(&output);
    assert!(viz.contains("REF: a"));
    assert!(viz.contains("HYP: *"));
}

#[test]
fn visualize_empty() {
    let output = AlignmentOutput {
        wer: r(0, 1),
        mer: r(0, 1),
        wip: r(1, 1),
        wil: r(0, 1),
        cer: r(0, 1),
        hits: 0,
        substitutions: 0,
        deletions: 0,
        insertions: 0,
        ref_len: 0,
        hyp_len: 0,
        chunks: vec![],
    };
    let viz = visualize_alignment(&output);
    assert!(viz.contains("REF:"));
    assert!(viz.contains("HYP:"));
}

#[test]
fn collect_error_counts_mixed() {
    let output = AlignmentOutput {
        wer: r(1, 2),
        mer: r(1, 2),
        wip: r(1, 2),
        wil: r(1, 2),
        cer: r(0, 1),
        hits: 1,
        substitutions: 1,
        deletions: 0,
        insertions: 1,
        ref_len: 2,
        hyp_len: 3,
        chunks: vec![
            AlignmentChunk::Equal { text: "a".into() },
            AlignmentChunk::Substitute {
                reference: "b".into(),
                hypothesis: "x".into(),
            },
            AlignmentChunk::Insert {
                hypothesis: "y".into(),
            },
        ],
    };
    let errors = collect_error_counts(&output);
    assert_eq!(errors.substitutions.get("b → x").copied(), Some(1));
    assert_eq!(errors.insertions.get("y").copied(), Some(1));
    assert!(errors.deletions.is_empty());
}

#[test]
fn collect_error_counts_empty() {
    let output = AlignmentOutput {
        wer: r(0, 1),
        mer: r(0, 1),
        wip: r(1, 1),
        wil: r(0, 1),
        cer: r(0, 1),
        hits: 0,
        substitutions: 0,
        deletions: 0,
        insertions: 0,
        ref_len: 0,
        hyp_len: 0,
        chunks: vec![],
    };
    let errors = collect_error_counts(&output);
    assert!(errors.substitutions.is_empty());
    assert!(errors.insertions.is_empty());
    assert!(errors.deletions.is_empty());
}

#[test]
fn collect_error_counts_with_deletions() {
    let output = AlignmentOutput {
        wer: r(1, 2),
        mer: r(1, 2),
        wip: r(1, 2),
        wil: r(1, 2),
        cer: r(0, 1),
        hits: 0,
        substitutions: 0,
        deletions: 2,
        insertions: 0,
        ref_len: 2,
        hyp_len: 0,
        chunks: vec![
            AlignmentChunk::Delete {
                reference: "a".into(),
            },
            AlignmentChunk::Delete {
                reference: "b".into(),
            },
        ],
    };
    let errors = collect_error_counts(&output);
    assert_eq!(errors.deletions.get("a").copied(), Some(1));
    assert_eq!(errors.deletions.get("b").copied(), Some(1));
}

#[test]
fn collect_error_counts_duplicate_errors() {
    let output = AlignmentOutput {
        wer: r(0, 1),
        mer: r(1, 1),
        wip: r(0, 1),
        wil: r(1, 1),
        cer: r(0, 1),
        hits: 0,
        substitutions: 2,
        deletions: 0,
        insertions: 0,
        ref_len: 2,
        hyp_len: 2,
        chunks: vec![
            AlignmentChunk::Substitute {
                reference: "a".into(),
                hypothesis: "x".into(),
            },
            AlignmentChunk::Substitute {
                reference: "a".into(),
                hypothesis: "x".into(),
            },
        ],
    };
    let errors = collect_error_counts(&output);
    assert_eq!(errors.substitutions.get("a → x").copied(), Some(2));
}

#[test]
fn build_output_integration() {
    let ref_words: Vec<&str> = vec!["hello", "world"];
    let hyp_words: Vec<&str> = vec!["hello", "earth"];
    let ops = align(&ref_words, &hyp_words);
    let counts = count_operations(&ops);
    let output = build_output(&ref_words, &hyp_words, &ops, &counts, SplitKind::Words);
    assert_eq!(output.hits, 1);
    assert_eq!(output.substitutions, 1);
    // N=2, S=1 → WER = 1/2
    assert!((val(output.wer) - 0.5).abs() < 1e-10);
    assert_eq!(output.ref_len, 2);
    assert_eq!(output.hyp_len, 2);
}

#[test]
fn build_output_empty() {
    let ops: Vec<EditOp> = vec![];
    let counts = OperationCounts::default();
    let ref_words: Vec<&str> = vec![];
    let hyp_words: Vec<&str> = vec![];
    let output = build_output(&ref_words, &hyp_words, &ops, &counts, SplitKind::Words);
    assert!(approx_eq(val(output.wer), 0.0));
    assert!(approx_eq(val(output.mer), 0.0));
    assert!((val(output.wip) - 1.0).abs() < 1e-10);
    assert!((val(output.wil)).abs() < 1e-10);
    assert_eq!(output.hits, 0);
    assert_eq!(output.chunks.len(), 0);
}

#[test]
fn build_output_grapheme_kind() {
    let ref_chars: Vec<&str> = vec!["a", "b", "c"];
    let hyp_chars: Vec<&str> = vec!["a", "x", "c"];
    let ops = align(&ref_chars, &hyp_chars);
    let counts = count_operations(&ops);
    let output = build_output(&ref_chars, &hyp_chars, &ops, &counts, SplitKind::Graphemes);
    // N=3, S=1 → CER = 1/3
    assert!((val(output.cer) - 1.0 / 3.0).abs() < 1e-10);
}

#[test]
fn build_output_word_kind_no_cer() {
    let ref_words: Vec<&str> = vec!["a"];
    let hyp_words: Vec<&str> = vec!["b"];
    let ops = align(&ref_words, &hyp_words);
    let counts = count_operations(&ops);
    let output = build_output(&ref_words, &hyp_words, &ops, &counts, SplitKind::Words);
    assert!(approx_eq(val(output.cer), 0.0));
}

#[test]
fn build_output_chunks() {
    let ref_words: Vec<&str> = vec!["a", "b"];
    let hyp_words: Vec<&str> = vec!["a"];
    let ops = align(&ref_words, &hyp_words);
    let counts = count_operations(&ops);
    let output = build_output(&ref_words, &hyp_words, &ops, &counts, SplitKind::Words);
    assert_eq!(output.chunks.len(), 2);
    assert_eq!(output.chunks[0], AlignmentChunk::Equal { text: "a".into() });
    assert_eq!(
        output.chunks[1],
        AlignmentChunk::Delete {
            reference: "b".into()
        }
    );
}

#[test]
fn alignment_chunk_equality() {
    let c1 = AlignmentChunk::Equal { text: "a".into() };
    let c2 = AlignmentChunk::Equal { text: "a".into() };
    assert_eq!(c1, c2);
}

#[test]
fn alignment_chunk_clone() {
    let c = AlignmentChunk::Substitute {
        reference: "a".into(),
        hypothesis: "b".into(),
    };
    let cloned = c.clone();
    assert_eq!(c, cloned);
}

#[test]
fn error_counts_default() {
    let counts = ErrorCounts::default();
    assert!(counts.substitutions.is_empty());
    assert!(counts.insertions.is_empty());
    assert!(counts.deletions.is_empty());
}

#[test]
fn build_output_non_empty_ref_empty_hyp() {
    let ref_words: Vec<&str> = vec!["a", "b"];
    let hyp_words: Vec<&str> = vec![];
    let ops = align(&ref_words, &hyp_words);
    let counts = count_operations(&ops);
    let output = build_output(&ref_words, &hyp_words, &ops, &counts, SplitKind::Words);
    assert!(approx_eq(val(output.wer), 1.0));
    assert!(approx_eq(val(output.mer), 1.0));
    assert!(approx_eq(val(output.wip), 0.0));
    assert!(approx_eq(val(output.wil), 1.0));
    assert_eq!(output.ref_len, 2);
    assert_eq!(output.hyp_len, 0);
}

#[test]
fn build_output_empty_ref_non_empty_hyp() {
    let ref_words: Vec<&str> = vec![];
    let hyp_words: Vec<&str> = vec!["a"];
    let ops = align(&ref_words, &hyp_words);
    let counts = count_operations(&ops);
    let output = build_output(&ref_words, &hyp_words, &ops, &counts, SplitKind::Words);
    assert!(approx_eq(val(output.wer), 0.0));
    assert!(val(output.mer) > 0.0);
    assert!(approx_eq(val(output.wip), 0.0));
    assert!(approx_eq(val(output.wil), 1.0));
    assert_eq!(output.ref_len, 0);
    assert_eq!(output.hyp_len, 1);
    assert_eq!(output.chunks.len(), 1);
    assert!(matches!(output.chunks[0], AlignmentChunk::Insert { .. }));
}

#[test]
fn build_output_grapheme_with_cer_display() {
    let ref_chars: Vec<&str> = vec!["a", "b"];
    let hyp_chars: Vec<&str> = vec!["a", "x"];
    let ops = align(&ref_chars, &hyp_chars);
    let counts = count_operations(&ops);
    let output = build_output(&ref_chars, &hyp_chars, &ops, &counts, SplitKind::Graphemes);
    assert!((val(output.cer) - 0.5).abs() < 1e-10);
    let display = output.summary();
    assert!(display.contains("CER:"));
}

#[test]
fn build_output_perfect_match_all_fields() {
    let ref_words: Vec<&str> = vec!["a", "b", "c"];
    let hyp_words: Vec<&str> = vec!["a", "b", "c"];
    let ops = align(&ref_words, &hyp_words);
    let counts = count_operations(&ops);
    let output = build_output(&ref_words, &hyp_words, &ops, &counts, SplitKind::Words);
    assert!(approx_eq(val(output.wer), 0.0));
    assert!(approx_eq(val(output.mer), 0.0));
    assert!(approx_eq(val(output.wip), 1.0));
    assert!(approx_eq(val(output.wil), 0.0));
    assert_eq!(output.hits, 3);
    assert_eq!(output.substitutions, 0);
    assert_eq!(output.deletions, 0);
    assert_eq!(output.insertions, 0);
}

#[test]
fn visualize_alignment_with_substitution() {
    let output = AlignmentOutput {
        wer: r(1, 2),
        mer: r(1, 2),
        wip: r(1, 2),
        wil: r(1, 2),
        cer: r(0, 1),
        hits: 1,
        substitutions: 1,
        deletions: 0,
        insertions: 0,
        ref_len: 2,
        hyp_len: 2,
        chunks: vec![
            AlignmentChunk::Equal { text: "a".into() },
            AlignmentChunk::Substitute {
                reference: "b".into(),
                hypothesis: "x".into(),
            },
        ],
    };
    let viz = visualize_alignment(&output);
    assert_eq!(viz.trim(), "REF: a b\nHYP: a x");
}

#[test]
fn visualize_alignment_mixed_all_types() {
    let output = AlignmentOutput {
        wer: r(3, 5),
        mer: r(1, 2),
        wip: r(2, 5),
        wil: r(3, 5),
        cer: r(0, 1),
        hits: 2,
        substitutions: 1,
        deletions: 1,
        insertions: 1,
        ref_len: 4,
        hyp_len: 4,
        chunks: vec![
            AlignmentChunk::Equal { text: "a".into() },
            AlignmentChunk::Substitute {
                reference: "b".into(),
                hypothesis: "x".into(),
            },
            AlignmentChunk::Delete {
                reference: "c".into(),
            },
            AlignmentChunk::Equal { text: "d".into() },
            AlignmentChunk::Insert {
                hypothesis: "e".into(),
            },
        ],
    };
    let viz = visualize_alignment(&output);
    assert!(viz.contains("REF: a b c d *"));
    assert!(viz.contains("HYP: a x * d e"));
}

