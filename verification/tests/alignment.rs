use rwer::alignment::{align, count_operations, edit_distance, rapidfuzz_word_distance, EditOp, OperationCounts};
use rwer::alignment_fast::rapidfuzz_char_distance;

fn chars(s: &str) -> Vec<char> {
    s.chars().collect()
}

#[test]
fn equal_operation() {
    let op = EditOp::Equal { index: 0 };
    assert!(op.is_equal());
    assert!(!op.is_error());
}

#[test]
fn equal_operation_not_substitute_or_insert_or_delete() {
    let op = EditOp::Equal { index: 0 };
    assert!(!op.is_substitute());
    assert!(!op.is_insert());
    assert!(!op.is_delete());
}

#[test]
fn substitute_operation() {
    let op = EditOp::Substitute {
        ref_index: 0,
        hyp_index: 0,
    };
    assert!(!op.is_equal());
    assert!(op.is_error());
    assert!(op.is_substitute());
    assert!(!op.is_insert());
    assert!(!op.is_delete());
}

#[test]
fn insert_operation() {
    let op = EditOp::Insert { hyp_index: 0 };
    assert!(op.is_error());
    assert!(op.is_insert());
    assert!(!op.is_substitute());
    assert!(!op.is_delete());
}

#[test]
fn delete_operation() {
    let op = EditOp::Delete { ref_index: 0 };
    assert!(op.is_error());
    assert!(op.is_delete());
    assert!(!op.is_substitute());
    assert!(!op.is_insert());
}

#[test]
fn align_identical_sequences() {
    let ref_tokens = vec!["hello", "world"];
    let hyp_tokens = vec!["hello", "world"];
    let ops = align(&ref_tokens, &hyp_tokens);
    assert_eq!(ops.len(), 2);
    assert!(ops.iter().all(EditOp::is_equal));
}

#[test]
fn align_empty_sequences() {
    let ops = align::<&str>(&[], &[]);
    assert!(ops.is_empty());
}

#[test]
fn align_empty_reference() {
    let ref_tokens: Vec<&str> = vec![];
    let hyp_tokens = vec!["hello"];
    let ops = align(&ref_tokens, &hyp_tokens);
    assert_eq!(ops.len(), 1);
    assert!(ops[0].is_insert());
    assert_eq!(ops[0], EditOp::Insert { hyp_index: 0 });
}

#[test]
fn align_empty_reference_multiple() {
    let ref_tokens: Vec<&str> = vec![];
    let hyp_tokens = vec!["hello", "world"];
    let ops = align(&ref_tokens, &hyp_tokens);
    assert_eq!(ops.len(), 2);
    assert!(ops[0].is_insert());
    assert!(ops[1].is_insert());
}

#[test]
fn align_empty_hypothesis() {
    let ref_tokens = vec!["hello"];
    let hyp_tokens: Vec<&str> = vec![];
    let ops = align(&ref_tokens, &hyp_tokens);
    assert_eq!(ops.len(), 1);
    assert!(ops[0].is_delete());
    assert_eq!(ops[0], EditOp::Delete { ref_index: 0 });
}

#[test]
fn align_empty_hypothesis_multiple() {
    let ref_tokens = vec!["hello", "world"];
    let hyp_tokens: Vec<&str> = vec![];
    let ops = align(&ref_tokens, &hyp_tokens);
    assert_eq!(ops.len(), 2);
    assert!(ops[0].is_delete());
    assert!(ops[1].is_delete());
}

#[test]
fn align_with_substitution() {
    let ref_tokens = vec!["hello", "world"];
    let hyp_tokens = vec!["hello", "earth"];
    let ops = align(&ref_tokens, &hyp_tokens);
    assert_eq!(ops.len(), 2);
    assert!(ops[0].is_equal());
    assert!(ops[1].is_substitute());
    assert_eq!(
        ops[1],
        EditOp::Substitute {
            ref_index: 1,
            hyp_index: 1
        }
    );
}

#[test]
fn align_with_deletion() {
    let ref_tokens = vec!["hello", "world", "foo"];
    let hyp_tokens = vec!["hello", "foo"];
    let ops = align(&ref_tokens, &hyp_tokens);
    assert_eq!(ops.len(), 3);
    assert!(ops[0].is_equal());
    assert!(ops[1].is_delete());
    assert!(ops[2].is_equal());
}

#[test]
fn align_with_insertion() {
    let ref_tokens = vec!["hello", "foo"];
    let hyp_tokens = vec!["hello", "world", "foo"];
    let ops = align(&ref_tokens, &hyp_tokens);
    assert_eq!(ops.len(), 3);
    assert!(ops[0].is_equal());
    assert!(ops[1].is_insert());
    assert!(ops[2].is_equal());
}

#[test]
fn align_complex_case() {
    let ref_tokens = vec!["the", "cat", "sat", "on", "the", "mat"];
    let hyp_tokens = vec!["the", "cat", "on", "the", "mat"];
    let ops = align(&ref_tokens, &hyp_tokens);
    let errors: Vec<_> = ops.iter().filter(|op| op.is_error()).collect();
    assert_eq!(errors.len(), 1);
    assert!(errors[0].is_delete());
}

#[test]
fn align_multiple_substitutions() {
    let ref_tokens = vec!["a", "b", "c"];
    let hyp_tokens = vec!["x", "y", "z"];
    let ops = align(&ref_tokens, &hyp_tokens);
    assert_eq!(ops.len(), 3);
    assert!(ops.iter().all(EditOp::is_substitute));
}

#[test]
fn align_mixed_operations() {
    let ref_tokens = vec!["a", "b", "c", "d"];
    let hyp_tokens = vec!["a", "x", "c", "d", "e"];
    let ops = align(&ref_tokens, &hyp_tokens);
    assert_eq!(ops.len(), 5);
    assert!(ops[0].is_equal());
    assert!(ops[1].is_substitute());
    assert!(ops[2].is_equal());
    assert!(ops[3].is_equal());
    assert!(ops[4].is_insert());
}

#[test]
fn alignment_counts() {
    let ref_tokens = vec!["a", "b", "c"];
    let hyp_tokens = vec!["a", "x", "c", "d"];
    let ops = align(&ref_tokens, &hyp_tokens);
    let counts = count_operations(&ops);
    assert_eq!(counts.hits, 2);
    assert_eq!(counts.substitutions, 1);
    assert_eq!(counts.deletions, 0);
    assert_eq!(counts.insertions, 1);
}

#[test]
fn alignment_counts_empty() {
    let ops: Vec<EditOp> = vec![];
    let counts = count_operations(&ops);
    assert_eq!(counts.hits, 0);
    assert_eq!(counts.substitutions, 0);
    assert_eq!(counts.deletions, 0);
    assert_eq!(counts.insertions, 0);
}

#[test]
fn alignment_counts_all_equal() {
    let ref_tokens = vec!["a", "b", "c"];
    let hyp_tokens = vec!["a", "b", "c"];
    let ops = align(&ref_tokens, &hyp_tokens);
    let counts = count_operations(&ops);
    assert_eq!(counts.hits, 3);
    assert_eq!(counts.substitutions, 0);
    assert_eq!(counts.deletions, 0);
    assert_eq!(counts.insertions, 0);
}

#[test]
fn alignment_counts_all_insertions() {
    let ref_tokens: Vec<&str> = vec![];
    let hyp_tokens = vec!["a", "b"];
    let ops = align(&ref_tokens, &hyp_tokens);
    let counts = count_operations(&ops);
    assert_eq!(counts.hits, 0);
    assert_eq!(counts.insertions, 2);
}

#[test]
fn alignment_counts_all_deletions() {
    let ref_tokens = vec!["a", "b"];
    let hyp_tokens: Vec<&str> = vec![];
    let ops = align(&ref_tokens, &hyp_tokens);
    let counts = count_operations(&ops);
    assert_eq!(counts.hits, 0);
    assert_eq!(counts.deletions, 2);
}

#[test]
fn alignment_counts_all_substitutions() {
    let ref_tokens = vec!["a", "b"];
    let hyp_tokens = vec!["x", "y"];
    let ops = align(&ref_tokens, &hyp_tokens);
    let counts = count_operations(&ops);
    assert_eq!(counts.hits, 0);
    assert_eq!(counts.substitutions, 2);
}

#[test]
fn operation_counts_default() {
    let counts = OperationCounts::default();
    assert_eq!(counts.hits, 0);
    assert_eq!(counts.substitutions, 0);
    assert_eq!(counts.deletions, 0);
    assert_eq!(counts.insertions, 0);
}

#[test]
fn edit_op_equality() {
    let op1 = EditOp::Equal { index: 5 };
    let op2 = EditOp::Equal { index: 5 };
    assert_eq!(op1, op2);
}

#[test]
fn edit_op_inequality() {
    let op1 = EditOp::Equal { index: 0 };
    let op2 = EditOp::Equal { index: 1 };
    assert_ne!(op1, op2);
}

#[test]
fn edit_op_clone() {
    let op = EditOp::Substitute {
        ref_index: 3,
        hyp_index: 4,
    };
    let cloned = op.clone();
    assert_eq!(op, cloned);
}

#[test]
fn align_with_string_types() {
    let ref_tokens = vec![String::from("hello"), String::from("world")];
    let hyp_tokens = vec![String::from("hello"), String::from("world")];
    let ops = align(&ref_tokens, &hyp_tokens);
    assert_eq!(ops.len(), 2);
    assert!(ops.iter().all(EditOp::is_equal));
}

#[test]
fn edit_distance_basic() {
    let ref_tokens = vec!["hello", "world"];
    let hyp_tokens = vec!["hello", "earth"];
    assert_eq!(edit_distance(&ref_tokens, &hyp_tokens), 1);
}

#[test]
fn edit_distance_identical() {
    let ref_tokens = vec!["a", "b", "c"];
    assert_eq!(edit_distance(&ref_tokens, &ref_tokens), 0);
}

#[test]
fn edit_distance_empty() {
    assert_eq!(edit_distance::<&str>(&[], &[]), 0);
    assert_eq!(edit_distance::<&str>(&[], &["a"]), 1);
    assert_eq!(edit_distance::<&str>(&["a"], &[]), 1);
}

#[test]
fn align_large_banded() {
    let ref_tokens: Vec<String> = (0..100).map(|i| format!("word{i}")).collect();
    let mut hyp_tokens = ref_tokens.clone();
    hyp_tokens[50] = "changed".to_string();
    let ops = align(&ref_tokens, &hyp_tokens);
    let counts = count_operations(&ops);
    assert_eq!(counts.hits, 99);
    assert_eq!(counts.substitutions, 1);
}

#[test]
fn align_banded_many_deletions() {
    let ref_tokens: Vec<String> = (0..50).map(|i| format!("w{i}")).collect();
    let hyp_tokens: Vec<String> = (0..25).map(|i| format!("w{i}")).collect();
    let ops = align(&ref_tokens, &hyp_tokens);
    let counts = count_operations(&ops);
    assert_eq!(counts.hits, 25);
    assert_eq!(counts.deletions, 25);
    assert_eq!(counts.insertions, 0);
    assert_eq!(counts.substitutions, 0);
}

#[test]
fn align_banded_many_insertions() {
    let ref_tokens: Vec<String> = (0..25).map(|i| format!("w{i}")).collect();
    let hyp_tokens: Vec<String> = (0..50).map(|i| format!("w{i}")).collect();
    let ops = align(&ref_tokens, &hyp_tokens);
    let counts = count_operations(&ops);
    assert_eq!(counts.hits, 25);
    assert_eq!(counts.insertions, 25);
    assert_eq!(counts.deletions, 0);
    assert_eq!(counts.substitutions, 0);
}

#[test]
fn align_banded_deletions_at_start() {
    let ref_tokens: Vec<&str> = vec!["a", "b", "c", "d"];
    let hyp_tokens: Vec<&str> = vec!["c", "d"];
    let ops = align(&ref_tokens, &hyp_tokens);
    let counts = count_operations(&ops);
    assert_eq!(counts.hits, 2);
    assert_eq!(counts.deletions, 2);
}

#[test]
fn align_banded_insertions_at_end() {
    let ref_tokens: Vec<&str> = vec!["a", "b"];
    let hyp_tokens: Vec<&str> = vec!["a", "b", "c", "d"];
    let ops = align(&ref_tokens, &hyp_tokens);
    let counts = count_operations(&ops);
    assert_eq!(counts.hits, 2);
    assert_eq!(counts.insertions, 2);
}

#[test]
fn align_banded_long_with_offset_substitution() {
    let ref_tokens: Vec<String> = (0..200)
        .map(|i| {
            if i == 180 {
                "wrong".to_string()
            } else {
                format!("w{i}")
            }
        })
        .collect();
    let hyp_tokens: Vec<String> = (0..200).map(|i| format!("w{i}")).collect();
    let ops = align(&ref_tokens, &hyp_tokens);
    let counts = count_operations(&ops);
    assert_eq!(counts.hits, 199);
    assert_eq!(counts.substitutions, 1);
}

#[test]
fn align_banded_mixed_operations_long() {
    let ref_tokens: Vec<String> = (0..200)
        .map(|i| {
            if i == 100 {
                "changed".to_string()
            } else {
                format!("w{i}")
            }
        })
        .collect();
    let mut hyp_tokens: Vec<String> = (0..200).map(|i| format!("w{i}")).collect();
    hyp_tokens.insert(150, "extra".to_string());
    let ops = align(&ref_tokens, &hyp_tokens);
    let counts = count_operations(&ops);
    assert_eq!(counts.substitutions, 1);
    assert_eq!(counts.insertions, 1);
    assert_eq!(counts.hits, 199);
}

#[test]
fn edit_distance_with_mixed_operations() {
    let ref_tokens = vec!["a", "b", "c", "d", "e"];
    let hyp_tokens = vec!["a", "x", "c", "e"];
    assert_eq!(edit_distance(&ref_tokens, &hyp_tokens), 2);
}

#[test]
fn rapidfuzz_char_distance_identical() {
    assert_eq!(rapidfuzz_char_distance(&chars("hello"), &chars("hello")), 0);
}

#[test]
fn rapidfuzz_char_distance_substitution() {
    assert_eq!(rapidfuzz_char_distance(&chars("hello"), &chars("hallo")), 1);
}

#[test]
fn rapidfuzz_char_distance_empty_both() {
    assert_eq!(rapidfuzz_char_distance(&chars(""), &chars("")), 0);
}

#[test]
fn rapidfuzz_char_distance_empty_one() {
    assert_eq!(rapidfuzz_char_distance(&chars("abc"), &chars("")), 3);
    assert_eq!(rapidfuzz_char_distance(&chars(""), &chars("abc")), 3);
}

#[test]
fn rapidfuzz_char_distance_all_different() {
    assert_eq!(rapidfuzz_char_distance(&chars("abc"), &chars("xyz")), 3);
}

#[test]
fn rapidfuzz_char_distance_unicode() {
    assert_eq!(rapidfuzz_char_distance(&chars("你好"), &chars("你好")), 0);
    assert_eq!(rapidfuzz_char_distance(&chars("你好"), &chars("你们")), 1);
}

#[test]
fn rapidfuzz_char_distance_insertion() {
    assert_eq!(rapidfuzz_char_distance(&chars("ac"), &chars("abc")), 1);
}

#[test]
fn rapidfuzz_char_distance_deletion() {
    assert_eq!(rapidfuzz_char_distance(&chars("abc"), &chars("ac")), 1);
}

#[test]
fn rapidfuzz_word_distance_identical() {
    let words = vec!["hello", "world"];
    assert_eq!(rapidfuzz_word_distance(&words, &words), 0);
}

#[test]
fn rapidfuzz_word_distance_substitution() {
    let ref_words = vec!["hello", "world"];
    let hyp_words = vec!["hello", "earth"];
    assert_eq!(rapidfuzz_word_distance(&ref_words, &hyp_words), 1);
}

#[test]
fn rapidfuzz_word_distance_empty() {
    assert_eq!(rapidfuzz_word_distance::<&str>(&[], &[]), 0);
    assert_eq!(rapidfuzz_word_distance::<&str>(&[], &["a"]), 1);
    assert_eq!(rapidfuzz_word_distance::<&str>(&["a"], &[]), 1);
}

#[test]
fn rapidfuzz_word_distance_mixed_operations() {
    let ref_words = vec!["a", "b", "c", "d", "e"];
    let hyp_words = vec!["a", "x", "c", "e"];
    assert_eq!(rapidfuzz_word_distance(&ref_words, &hyp_words), 2);
}

#[test]
fn rapidfuzz_word_distance_matches_edit_distance() {
    let ref_words: Vec<String> = (0..100).map(|i| format!("word{i}")).collect();
    let mut hyp_words = ref_words.clone();
    hyp_words[10] = "changed".to_string();
    hyp_words.remove(50);
    hyp_words.insert(75, "extra".to_string());
    assert_eq!(
        edit_distance(&ref_words, &hyp_words),
        rapidfuzz_word_distance(&ref_words, &hyp_words)
    );
}

#[test]
fn rapidfuzz_word_distance_large() {
    let ref_words: Vec<String> = (0..1000).map(|i| format!("w{i}")).collect();
    let mut hyp_words = ref_words.clone();
    hyp_words[500] = "changed".to_string();
    assert_eq!(rapidfuzz_word_distance(&ref_words, &hyp_words), 1);
}

#[test]
fn char_distance_identical() {
    assert_eq!(rapidfuzz_char_distance(&chars("hello"), &chars("hello")), 0);
}

#[test]
fn char_distance_substitution() {
    assert_eq!(rapidfuzz_char_distance(&chars("hello"), &chars("hallo")), 1);
}

#[test]
fn char_distance_empty_both() {
    assert_eq!(rapidfuzz_char_distance(&chars(""), &chars("")), 0);
}

#[test]
fn char_distance_empty_one() {
    assert_eq!(rapidfuzz_char_distance(&chars("abc"), &chars("")), 3);
    assert_eq!(rapidfuzz_char_distance(&chars(""), &chars("abc")), 3);
}

#[test]
fn char_distance_all_different() {
    assert_eq!(rapidfuzz_char_distance(&chars("abc"), &chars("xyz")), 3);
}

#[test]
fn char_distance_unicode() {
    assert_eq!(rapidfuzz_char_distance(&chars("你好"), &chars("你好")), 0);
    assert_eq!(rapidfuzz_char_distance(&chars("你好"), &chars("你们")), 1);
}

#[test]
fn char_distance_insertion() {
    assert_eq!(rapidfuzz_char_distance(&chars("ac"), &chars("abc")), 1);
}

#[test]
fn char_distance_deletion() {
    assert_eq!(rapidfuzz_char_distance(&chars("abc"), &chars("ac")), 1);
}
