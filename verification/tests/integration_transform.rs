use rwer::{wer, Compose, NormalizeSpaces, RemovePunctuation, RemoveSpecificWords, RemoveWhitespace, Ratio, Strip, SubstituteWords, ToLower, ToUpper, Transform};

fn val(r: Ratio) -> f64 {
    r.numerator as f64 / r.denominator as f64
}

#[test]
fn transform_pipeline_reduces_wer() {
    let pipeline = Compose::new(vec![
        Box::new(Strip),
        Box::new(ToLower),
        Box::new(RemovePunctuation),
        Box::new(NormalizeSpaces),
    ]);

    let ref_text = pipeline.transform("Hello, World!");
    let hyp_text = pipeline.transform("hello world");
    assert_eq!(val(wer(&ref_text, &hyp_text)), 0.0);
}

#[test]
fn integration_transform_remove_specific_words_transform() {

    let pipeline = Compose::new(vec![
        Box::new(RemoveSpecificWords::new(&["um", "uh", "like"])),
        Box::new(ToLower),
    ]);

    let ref_text = pipeline.transform("the cat sat");
    let hyp_text = pipeline.transform("um the cat like sat uh");
    assert_eq!(val(wer(&ref_text, &hyp_text)), 0.0);
}

#[test]
fn integration_transform_substitute_words_transform() {

    let pipeline = Compose::new(vec![
        Box::new(SubstituteWords::new(vec![("color", "colour")])),
        Box::new(ToLower),
    ]);

    let ref_text = pipeline.transform("The colour is blue");
    let hyp_text = pipeline.transform("The color is blue");
    assert_eq!(val(wer(&ref_text, &hyp_text)), 0.0);
}

#[test]
fn integration_transform_to_upper_transform() {
    let pipeline = Compose::new(vec![Box::new(rwer::ToUpper)]);
    assert_eq!(pipeline.transform("hello"), "HELLO");
}

#[test]
fn integration_transform_remove_whitespace_transform() {
    let pipeline = Compose::new(vec![Box::new(rwer::RemoveWhitespace)]);
    assert_eq!(pipeline.transform("a b c"), "abc");
}

