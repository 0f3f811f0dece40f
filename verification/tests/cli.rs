use rwer::cli::{build_pipeline, process_and_format, Cli, EvalInput};
use rwer::transform::{Compose, NormalizeSpaces, RemovePunctuation, ToLower, ToSimplified, Transform};

fn cli_with_ref_hyp(ref_text: &str, hyp_text: &str) -> Cli {
    Cli {
        reference: Some(ref_text.to_string()),
        hypothesis: Some(hyp_text.to_string()),
        ref_file: None,
        hyp_file: None,
        character: false,
        alignment: false,
        all: false,
        lowercase: false,
        remove_punctuation: false,
        normalize_spaces: false,
        simplified: false,
    }
}

// --- build_pipeline tests ---

#[test]
fn build_pipeline_no_transforms() {
    let cli = cli_with_ref_hyp("hello", "hello");
    assert!(build_pipeline(&cli).is_none());
}

#[test]
fn build_pipeline_lowercase() {
    let mut cli = cli_with_ref_hyp("Hello", "hello");
    cli.lowercase = true;
    let pipeline = build_pipeline(&cli).unwrap();
    let result = pipeline.transform("Hello, World!");
    assert_eq!(result, "hello, world!");
}

#[test]
fn build_pipeline_remove_punctuation() {
    let mut cli = cli_with_ref_hyp("hello", "hello");
    cli.remove_punctuation = true;
    let pipeline = build_pipeline(&cli).unwrap();
    let result = pipeline.transform("Hello, World!");
    assert_eq!(result, "Hello World");
}

#[test]
fn build_pipeline_lowercase_and_remove_punctuation() {
    let mut cli = cli_with_ref_hyp("Hello, World!", "hello world");
    cli.lowercase = true;
    cli.remove_punctuation = true;
    cli.normalize_spaces = true;
    let pipeline = build_pipeline(&cli).unwrap();
    let result = pipeline.transform("Hello,  World!");
    assert_eq!(result, "hello world");
}

#[test]
fn build_pipeline_normalize_spaces() {
    let mut cli = cli_with_ref_hyp("hello", "hello");
    cli.normalize_spaces = true;
    let pipeline = build_pipeline(&cli).unwrap();
    let result = pipeline.transform("hello   world");
    assert_eq!(result, "hello world");
}

// --- process_and_format tests ---

#[test]
fn process_and_format_wer_basic() {
    let input = EvalInput {
        reference: "the cat sat on the mat".to_string(),
        hypothesis: "the cat sat on a mat".to_string(),
        character: false,
        alignment: false,
        all: false,
    };
    let result = process_and_format(&input, None);
    let wer_val: f64 = result.trim().parse().unwrap();
    assert!(wer_val > 0.0);
    assert!(wer_val <= 1.0);
}

#[test]
fn process_and_format_wer_perfect() {
    let input = EvalInput {
        reference: "hello world".to_string(),
        hypothesis: "hello world".to_string(),
        character: false,
        alignment: false,
        all: false,
    };
    let result = process_and_format(&input, None);
    assert_eq!(result.trim(), "0.0000");
}

#[test]
fn process_and_format_cer() {
    let input = EvalInput {
        reference: "hello world".to_string(),
        hypothesis: "hello".to_string(),
        character: true,
        alignment: false,
        all: false,
    };
    let result = process_and_format(&input, None);
    let cer_val: f64 = result.trim().parse().unwrap();
    assert!(cer_val > 0.0);
}

#[test]
fn process_and_format_cer_perfect() {
    let input = EvalInput {
        reference: "hello".to_string(),
        hypothesis: "hello".to_string(),
        character: true,
        alignment: false,
        all: false,
    };
    let result = process_and_format(&input, None);
    assert_eq!(result.trim(), "0.0000");
}

#[test]
fn process_and_format_all() {
    let input = EvalInput {
        reference: "the cat sat".to_string(),
        hypothesis: "the dog sat".to_string(),
        character: false,
        alignment: false,
        all: true,
    };
    let result = process_and_format(&input, None);
    assert!(result.contains("WER:"));
    assert!(result.contains("MER:"));
    assert!(result.contains("WIP:"));
}

#[test]
fn process_and_format_alignment() {
    let input = EvalInput {
        reference: "the cat sat".to_string(),
        hypothesis: "the dog sat".to_string(),
        character: false,
        alignment: true,
        all: false,
    };
    let result = process_and_format(&input, None);
    assert!(result.contains("REF:"));
    assert!(result.contains("HYP:"));
}

#[test]
fn process_and_format_wer_all_with_alignment() {
    let input = EvalInput {
        reference: "a b c".to_string(),
        hypothesis: "a x c".to_string(),
        character: false,
        alignment: true,
        all: true,
    };
    let result = process_and_format(&input, None);
    assert!(result.contains("REF:"));
    assert!(result.contains("HYP:"));
    assert!(result.contains("WER:"));
}

#[test]
fn process_and_format_cer_all() {
    let input = EvalInput {
        reference: "ab".to_string(),
        hypothesis: "ac".to_string(),
        character: true,
        alignment: false,
        all: true,
    };
    let result = process_and_format(&input, None);
    assert!(result.contains("WER:"));
    assert!(result.contains("CER:"));
}

#[test]
fn process_and_format_cer_alignment() {
    let input = EvalInput {
        reference: "abc".to_string(),
        hypothesis: "axc".to_string(),
        character: true,
        alignment: true,
        all: false,
    };
    let result = process_and_format(&input, None);
    assert!(result.contains("REF:"));
    assert!(result.contains("HYP:"));
}

#[test]
fn process_and_format_with_pipeline() {
    let input = EvalInput {
        reference: "Hello, World!".to_string(),
        hypothesis: "hello world".to_string(),
        character: false,
        alignment: false,
        all: false,
    };
    let pipeline: Box<dyn Transform> = Box::new(Compose::new(vec![
        Box::new(ToLower),
        Box::new(RemovePunctuation),
        Box::new(NormalizeSpaces),
    ]));
    let result = process_and_format(&input, Some(pipeline.as_ref()));
    let wer_val: f64 = result.trim().parse().unwrap();
    assert!(wer_val < 1e-10);
}

#[test]
fn process_and_format_empty_both() {
    let input = EvalInput {
        reference: String::new(),
        hypothesis: String::new(),
        character: false,
        alignment: false,
        all: false,
    };
    let result = process_and_format(&input, None);
    assert_eq!(result.trim(), "0.0000");
}

#[test]
fn process_and_format_empty_ref() {
    let input = EvalInput {
        reference: String::new(),
        hypothesis: "hello".to_string(),
        character: false,
        alignment: false,
        all: false,
    };
    let result = process_and_format(&input, None);
    assert_eq!(result.trim(), "0.0000");
}

// --- Chinese variant tests ---


#[test]
fn build_pipeline_simplified() {
    let cli = Cli {
        reference: Some("今天天氣真好".to_string()),
        hypothesis: Some("今天天气很棒".to_string()),
        ref_file: None,
        hyp_file: None,
        character: false,
        alignment: false,
        all: false,
        lowercase: false,
        remove_punctuation: false,
        normalize_spaces: false,
        simplified: true,
    };
    let pipeline = build_pipeline(&cli).unwrap();
    let result = pipeline.transform("今天天氣真好");
    assert_eq!(result, "今天天气真好");
}

#[test]
fn process_and_format_simplified_wer() {
    let input = EvalInput {
        reference: "今天天氣真好".to_string(),
        hypothesis: "今天天气很棒".to_string(),
        character: false,
        alignment: false,
        all: false,
    };
    let pipeline: Box<dyn Transform> = Box::new(ToSimplified);
    let result = process_and_format(&input, Some(pipeline.as_ref()));
    let wer_val: f64 = result.trim().parse().unwrap();
    assert!(wer_val > 0.0);
}
