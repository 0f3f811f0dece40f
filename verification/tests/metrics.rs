use rwer::metrics::{cer, compute_wer, mer, process_chars, process_words, wer, wer_sentences, wil, wip};
use rwer::output::Ratio;

fn val(r: Ratio) -> f64 {
    r.numerator as f64 / r.denominator as f64
}

fn approx_eq(a: f64, b: f64) -> bool {
    (a - b).abs() < 1e-10
}

#[test]
fn metrics_wer_perfect_match() {
    assert!(approx_eq(val(wer("hello world", "hello world")), 0.0));
}

#[test]
fn metrics_wer_all_substituted() {
    let result = val(wer("hello world", "foo bar"));
    assert!((result - 1.0).abs() < 1e-10);
}

#[test]
fn metrics_wer_with_deletion() {
    // N=3, D=1 → WER = 1/3
    let result = val(wer("the cat sat", "the sat"));
    assert!((result - 1.0 / 3.0).abs() < 1e-10);
}

#[test]
fn wer_with_insertion() {
    // N=2, I=1 → WER = 1/2
    let result = val(wer("the sat", "the cat sat"));
    assert!((result - 0.5).abs() < 1e-10);
}

#[test]
fn wer_empty_both() {
    assert!(approx_eq(val(wer("", "")), 0.0));
}

#[test]
fn wer_empty_reference() {
    assert!(approx_eq(val(wer("", "hello world")), 0.0));
}

#[test]
fn wer_empty_hypothesis() {
    let result = val(wer("hello world", ""));
    assert!((result - 1.0).abs() < 1e-10);
}

#[test]
fn wer_multiple_sentences() {
    // ref: "the cat sat the dog ran" (6 words)
    // hyp: "the cat sat the dog walked" (6 words)
    // N=6, S=1 → WER = 1/6
    let ref_sents = ["the cat sat", "the dog ran"];
    let hyp_sents = ["the cat sat", "the dog walked"];
    let result = val(wer_sentences(&ref_sents, &hyp_sents));
    assert!((result - 1.0 / 6.0).abs() < 1e-10);
}

#[test]
fn wer_whitespace_agnostic() {
    assert!(approx_eq(val(wer("  hello  world  ", "hello world")), 0.0));
}

#[test]
fn wer_single_word_match() {
    assert!(approx_eq(val(wer("hello", "hello")), 0.0));
}

#[test]
fn wer_single_word_mismatch() {
    // N=1, S=1 → WER = 1/1 = 1.0
    assert!((val(wer("hello", "world")) - 1.0).abs() < 1e-10);
}

#[test]
fn metrics_cer_perfect_match() {
    assert!(approx_eq(val(cer("hello", "hello")), 0.0));
}

#[test]
fn metrics_cer_with_substitution() {
    // N=5, S=1 → CER = 1/5
    let result = val(cer("abcde", "axcde"));
    assert!((result - 0.2).abs() < 1e-10);
}

#[test]
fn cer_empty_both() {
    assert!(approx_eq(val(cer("", "")), 0.0));
}

#[test]
fn cer_empty_reference() {
    assert!(approx_eq(val(cer("", "hello")), 0.0));
}

#[test]
fn cer_empty_hypothesis() {
    // N=3, D=3 → CER = 3/3 = 1.0
    let result = val(cer("abc", ""));
    assert!((result - 1.0).abs() < 1e-10);
}

#[test]
fn cer_with_unicode() {
    assert!(approx_eq(val(cer("hello 👋", "hello 👋")), 0.0));
}

#[test]
fn cer_grapheme_cluster() {
    // Both are 1 grapheme, S=1 → CER = 1/1 = 1.0
    let result = val(cer("\u{00E9}", "e\u{0301}"));
    assert!((result - 1.0).abs() < 1e-10);
}

#[test]
fn metrics_cer_insertion() {
    let result = val(cer("ac", "abc"));
    assert!((result - 1.0 / 2.0).abs() < 1e-10);
}

#[test]
fn metrics_cer_deletion() {
    // N=3, D=1 → CER = 1/3
    let result = val(cer("abc", "ac"));
    assert!((result - 1.0 / 3.0).abs() < 1e-10);
}

#[test]
fn mer_perfect_match() {
    assert!(approx_eq(val(mer("hello world", "hello world")), 0.0));
}

#[test]
fn mer_with_insertion() {
    let result = val(mer("a", "a b"));
    assert!((result - 0.5).abs() < 1e-10);
}

#[test]
fn mer_with_deletion() {
    let result = val(mer("a b", "a"));
    assert!((result - 0.5).abs() < 1e-10);
}

#[test]
fn mer_empty_both() {
    assert!(approx_eq(val(mer("", "")), 0.0));
}

#[test]
fn wip_perfect_match() {
    assert!(approx_eq(val(wip("hello world", "hello world")), 1.0));
}

#[test]
fn wip_empty_both() {
    assert!(approx_eq(val(wip("", "")), 1.0));
}

#[test]
fn wip_empty_reference() {
    assert!(approx_eq(val(wip("", "hello")), 0.0));
}

#[test]
fn wip_empty_hypothesis() {
    assert!(approx_eq(val(wip("hello", "")), 0.0));
}

#[test]
fn metrics_wip_no_match() {
    assert!(approx_eq(val(wip("hello", "world")), 0.0));
}

#[test]
fn wil_perfect_match() {
    assert!(approx_eq(val(wil("hello world", "hello world")), 0.0));
}

#[test]
fn metrics_wil_no_match() {
    assert!(approx_eq(val(wil("hello", "world")), 1.0));
}

#[test]
fn wil_empty_both() {
    assert!(approx_eq(val(wil("", "")), 0.0));
}

#[test]
fn process_words_returns_output() {
    let output = process_words("the cat sat", "the cat sat on");
    // N=3, I=1 → WER = 1/3
    assert!((val(output.wer) - 1.0 / 3.0).abs() < 1e-10);
    // MER = 1/(3+0+0+1) = 0.25
    assert!((val(output.mer) - 0.25).abs() < 1e-10);
    assert!((val(output.wip) - 0.75).abs() < 1e-10);
    assert!((val(output.wil) - 0.25).abs() < 1e-10);
}

#[test]
fn process_words_empty() {
    let output = process_words("", "");
    assert!(approx_eq(val(output.wer), 0.0));
    assert_eq!(output.hits, 0);
}

#[test]
fn process_words_cer_zero_for_word_mode() {
    let output = process_words("hello", "world");
    assert!(approx_eq(val(output.cer), 0.0));
}

#[test]
fn process_words_perfect() {
    let output = process_words("a b c", "a b c");
    assert!(approx_eq(val(output.wer), 0.0));
    assert_eq!(output.hits, 3);
}

#[test]
fn process_chars_returns_output() {
    let output = process_chars("abcde", "axcde");
    // N=5, S=1 → CER = 1/5
    assert!((val(output.cer) - 0.2).abs() < 1e-10);
    assert!((val(output.wer) - 0.2).abs() < 1e-10);
}

#[test]
fn process_chars_empty() {
    let output = process_chars("", "");
    assert!(approx_eq(val(output.cer), 0.0));
}

#[test]
fn process_chars_perfect() {
    let output = process_chars("hello", "hello");
    assert!(approx_eq(val(output.cer), 0.0));
}

#[test]
fn compute_wer_with_string_slices() {
    let ref_tokens: Vec<&str> = vec!["a", "b"];
    let hyp_tokens: Vec<&str> = vec!["a", "c"];
    // N=2, S=1 → WER = 1/2
    let result = val(compute_wer(&ref_tokens, &hyp_tokens));
    assert!((result - 0.5).abs() < 1e-10);
}

#[test]
fn compute_wer_with_strings() {
    let ref_tokens = vec![String::from("a"), String::from("b")];
    let hyp_tokens = vec![String::from("a"), String::from("c")];
    let result = val(compute_wer(&ref_tokens, &hyp_tokens));
    assert!((result - 0.5).abs() < 1e-10);
}

#[test]
fn compute_wer_empty_ref() {
    let ref_tokens: Vec<&str> = vec![];
    let hyp_tokens = vec!["a"];
    assert!(approx_eq(val(compute_wer(&ref_tokens, &hyp_tokens)), 0.0));
}

#[test]
fn wip_zero_hits_non_empty() {
    assert!(approx_eq(val(wip("a", "b")), 0.0));
}

#[test]
fn mer_with_deletions_only() {
    let result = val(mer("a b", "a"));
    assert!((result - 0.5).abs() < 1e-10);
}

#[test]
fn mer_all_errors() {
    let result = val(mer("a b", "c d"));
    assert!((result - 1.0).abs() < 1e-10);
}

#[test]
fn process_words_with_substitution_and_deletion() {
    let output = process_words("a b c", "a c");
    assert_eq!(output.ref_len, 3);
    assert_eq!(output.hyp_len, 2);
    assert_eq!(output.hits, 2);
    assert_eq!(output.deletions, 1);
    assert!((val(output.wer) - 1.0 / 3.0).abs() < 1e-10);
}

#[test]
fn process_words_with_insertion_only() {
    let output = process_words("a", "a b");
    assert_eq!(output.ref_len, 1);
    assert_eq!(output.hyp_len, 2);
    assert_eq!(output.hits, 1);
    assert_eq!(output.insertions, 1);
    assert!((val(output.wer) - 1.0).abs() < 1e-10);
}

#[test]
fn process_chars_with_all_operations() {
    let output = process_chars("abcd", "axd");
    assert_eq!(output.ref_len, 4);
    assert_eq!(output.hits, 2);
    assert_eq!(output.substitutions, 1);
    assert_eq!(output.deletions, 1);
    assert!((val(output.cer) - 2.0 / 4.0).abs() < 1e-10);
}

#[test]
fn process_chars_display_with_cer() {
    let output = process_chars("abc", "axc");
    let display = output.summary();
    assert!(display.contains("CER:"));
}

