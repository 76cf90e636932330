use passwords::analyzer::{analyze, analyze_with};
use passwords::scorer::score;

#[test]
fn mod_simple_password() {
    let password = "kq4zpz13";

    let analyzed = analyze(password);

    let s = score(&analyzed);
    assert_eq!(62f64, s.numerator() as f64 / s.denominator() as f64);
}

#[test]
fn mod_strong_password() {
    let password = "ZYX[$BCkQB中文}%A_3456]  H(\rg";

    let analyzed = analyze(password);

    let s = score(&analyzed);
    assert_eq!(100f64, s.numerator() as f64 / s.denominator() as f64);
}

#[test]
fn mod_common_password() {
    let password = "abc123";

    let analyzed = analyze(password);
    let s = score(&analyzed);
    assert_eq!(4.8f64, s.numerator() as f64 / s.denominator() as f64); // "abc123" is common, so its score of 24 is divided by 5

    let analyzed = analyze_with(password, None);
    let s = score(&analyzed);
    assert_eq!(24f64, s.numerator() as f64 / s.denominator() as f64);
}

#[test]
fn scorer_simple_password() {
    let password = "kq4zpz13";

    let analyzed = passwords::analyzer::analyze(password);

    let s = passwords::scorer::score(&analyzed);
    assert_eq!(62f64, s.numerator() as f64 / s.denominator() as f64);
}

#[test]
fn scorer_strong_password() {
    let password = "ZYX[$BCkQB中文}%A_3456]  H(\rg";

    let analyzed = passwords::analyzer::analyze(password);

    let s = passwords::scorer::score(&analyzed);
    assert_eq!(100f64, s.numerator() as f64 / s.denominator() as f64);
}

#[test]
fn scorer_common_password() {
    let password = "abc123";

    let analyzed = passwords::analyzer::analyze(password);
    let s = passwords::scorer::score(&analyzed);
    assert_eq!(4.8f64, s.numerator() as f64 / s.denominator() as f64);

    let analyzed = passwords::analyzer::analyze_with(password, None);
    let s = passwords::scorer::score(&analyzed);
    assert_eq!(24f64, s.numerator() as f64 / s.denominator() as f64);
}

#[test]
fn empty_password_scores_zero() {
    let s = score(&analyze(""));
    assert_eq!(0, s.numerator());
    assert_eq!(20, s.denominator());

    let s = score(&analyze("\r\n"));
    assert_eq!(0, s.numerator());
}

#[test]
fn other_characters_bonus() {
    let s = score(&analyze("中"));
    assert_eq!(20f64, s.numerator() as f64 / s.denominator() as f64);

    let s = score(&analyze("中文中文中"));
    assert_eq!(100f64, s.numerator() as f64 / s.denominator() as f64);
}

#[test]
fn exact_fractions() {
    let s = score(&analyze("aaaa"));
    assert_eq!(704, s.numerator());
    assert_eq!(80, s.denominator());
    assert_eq!(8.8f64, s.numerator() as f64 / s.denominator() as f64);

    let s = score(&analyze("aB3$"));
    assert_eq!(14f64, s.numerator() as f64 / s.denominator() as f64);

    let s = score(&analyze_with("feelings", None));
    assert_eq!(56f64, s.numerator() as f64 / s.denominator() as f64);
}

#[test]
fn clamped_to_base() {
    // 9 + 1 (space) + 1 (mixed case) - 0.45 (no number) is held at the base 9.
    let s = score(&analyze("a A"));
    assert_eq!(9f64, s.numerator() as f64 / s.denominator() as f64);
}

#[test]
fn long_passwords_grow_past_eleven() {
    // 13 characters: base 102, all classes but spaces, no repeats or runs.
    let a = analyze("aZ3$bY5%cX7&d");
    assert_eq!(0, a.consecutive_count());
    assert_eq!(0, a.non_consecutive_count());
    assert_eq!(0, a.progressive_count());
    let s = score(&a);
    // 102 - 10.2 (no spaces) + 1 + 1 = 93.8
    assert_eq!(93.8f64, s.numerator() as f64 / s.denominator() as f64);
}
