use rwer::{mer, process_words, wer, wil, wip, Ratio};

fn val(r: Ratio) -> f64 {
    r.numerator as f64 / r.denominator as f64
}

#[test]
fn mer_perfect() {
    assert!(val(mer("hello world", "hello world")) < 1e-10);
}

#[test]
fn mer_with_errors() {
    let result = val(mer("a b c", "a x c"));
    assert!((result - 1.0 / 3.0).abs() < 1e-10);
}

#[test]
fn integration_metrics_wip_perfect() {
    assert!((val(wip("hello world", "hello world")) - 1.0).abs() < 1e-10);
}

#[test]
fn integration_metrics_wip_no_match() {
    assert!(val(wip("hello", "world")) < 1e-10);
}

#[test]
fn integration_metrics_wil_perfect() {
    assert!(val(wil("hello world", "hello world")) < 1e-10);
}

#[test]
fn integration_metrics_wil_no_match() {
    assert!((val(wil("hello", "world")) - 1.0).abs() < 1e-10);
}

#[test]
fn process_words_all_metrics_consistent() {
    let output = process_words("the cat sat", "the dog sat");
    assert_eq!(val(output.wer), val(wer("the cat sat", "the dog sat")));
    assert_eq!(val(output.mer), val(mer("the cat sat", "the dog sat")));
    assert!((val(output.wip) - val(wip("the cat sat", "the dog sat"))).abs() < 1e-10);
    assert!((val(output.wil) - val(wil("the cat sat", "the dog sat"))).abs() < 1e-10);
}

#[test]
fn all_metrics_empty() {
    assert!(val(mer("", "")) < 1e-10);
    assert!((val(wip("", "")) - 1.0).abs() < 1e-10);
    assert!(val(wil("", "")) < 1e-10);
}

#[test]
fn wip_partial_match() {
    // 2 out of 3 match: WIP = (2/3) * (2/3) = 4/9
    let result = val(wip("a b c", "a b d"));
    assert!((result - 4.0 / 9.0).abs() < 1e-10);
}

#[test]
fn mer_with_only_insertions() {
    // ref: ["a"], hyp: ["a", "b"] → S=0, D=0, I=1, H=1
    // MER = 1/(1+0+0+1) = 0.5
    let result = val(mer("a", "a b"));
    assert!((result - 0.5).abs() < 1e-10);
}

