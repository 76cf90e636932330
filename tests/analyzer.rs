use passwords::analyzer::{analyze_with, is_common_password};
use passwords::CommonPasswords;

#[test]
fn analyze() {
    let password = "ZYX[$BCkQB中文}%A_3456]  H(\rg";

    let analyzed = passwords::analyzer::analyze(password);

    assert_eq!("ZYX[$BCkQB中文}%A_3456]  H(g", analyzed.password()); // "\r" was filtered
    assert_eq!(26, analyzed.length()); // Characters' length, instead of that of UTF-8 bytes
    assert_eq!(2, analyzed.spaces_count()); // Two spaces between "]" and "H"
    assert_eq!(4, analyzed.numbers_count()); // Numbers are "3456"
    assert_eq!(2, analyzed.lowercase_letters_count()); // Lowercase letters are "k" and "g"
    assert_eq!(9, analyzed.uppercase_letters_count()); // Uppercase letters are "ZYX", "BC", "QB", "A" and "H"
    assert_eq!(7, analyzed.symbols_count()); // Symbols are "[$", "}%", "_", "]" and "("
    assert_eq!(2, analyzed.other_characters_count()); // Other characters are "中文".
    assert_eq!(2, analyzed.consecutive_count()); // Consecutive repeated characters are "  " (two spaces)
    assert_eq!(2, analyzed.non_consecutive_count()); // Non-consecutive repeated characters are "B" (appears twice)
    assert_eq!(7, analyzed.progressive_count()); // Progressive characters are "ZYX" and "3456".
}

#[test]
fn analyze_common() {
    let password = "abc123";

    let analyzed = passwords::analyzer::analyze(password);

    assert!(analyzed.is_common());
}

#[test]
fn is_common_password_1() {
    assert!(passwords::analyzer::is_common_password("12345678"));
}

#[test]
fn is_common_password_2() {
    assert!(!passwords::analyzer::is_common_password("5jhx>_\"g-T"));
}

#[test]
fn reanalysis_is_identity() {
    for input in ["ZYX[$BCkQB中文}%A_3456]  H(\rg", "a\tb\nc\u{7f}d", "", "\r\n", "abc123\u{1}"] {
        let first = passwords::analyzer::analyze(input);
        let second = passwords::analyzer::analyze(first.password());
        assert_eq!(first, second);

        let first = analyze_with(input, None);
        let second = analyze_with(first.password(), None);
        assert_eq!(first, second);
    }
}

#[test]
fn counts_sum_to_length() {
    for input in ["ZYX[$BCkQB中文}%A_3456]  H(\rg", "kq4zpz13", "", "\u{1}\u{2}", "ÄÖÜ ~ 9 a Z"] {
        let a = passwords::analyzer::analyze(input);
        assert_eq!(
            a.length(),
            a.numbers_count()
                + a.lowercase_letters_count()
                + a.uppercase_letters_count()
                + a.symbols_count()
                + a.spaces_count()
                + a.other_characters_count()
        );
    }
}

#[test]
fn only_control_characters() {
    let a = passwords::analyzer::analyze("\r\n\t\u{0}\u{1f}\u{7f}");
    assert_eq!("", a.password());
    assert_eq!(0, a.length());
    assert_eq!(0, a.consecutive_count());
    assert_eq!(0, a.non_consecutive_count());
    assert_eq!(0, a.progressive_count());
    assert!(!a.is_common());
}

#[test]
fn classification_boundaries() {
    let a = passwords::analyzer::analyze(" !/09:@AZ[`az{~\u{80}é");
    assert_eq!(1, a.spaces_count());
    assert_eq!(2, a.numbers_count());
    assert_eq!(2, a.uppercase_letters_count());
    assert_eq!(2, a.lowercase_letters_count());
    assert_eq!(8, a.symbols_count());
    assert_eq!(2, a.other_characters_count());
    assert_eq!(17, a.length());
}

#[test]
fn consecutive_runs() {
    let a = passwords::analyzer::analyze("aaab");
    assert_eq!(3, a.consecutive_count());
    assert_eq!(0, a.non_consecutive_count());

    let b = passwords::analyzer::analyze("aabaa");
    assert_eq!(4, b.consecutive_count());
    assert_eq!(0, b.non_consecutive_count());

    let c = passwords::analyzer::analyze("abca");
    assert_eq!(0, c.consecutive_count());
    assert_eq!(2, c.non_consecutive_count());
}

#[test]
fn progressive_runs() {
    assert_eq!(3, passwords::analyzer::analyze("abc").progressive_count());
    assert_eq!(4, passwords::analyzer::analyze("abcd").progressive_count());
    assert_eq!(3, passwords::analyzer::analyze("cba").progressive_count());
    assert_eq!(0, passwords::analyzer::analyze("ab").progressive_count());
    assert_eq!(0, passwords::analyzer::analyze("0a").progressive_count());
    // A repeat ends the run but keeps the difference: the run resumes with 2.
    assert_eq!(5, passwords::analyzer::analyze("abccd").progressive_count());
    // Two digit runs and a letter run, back to back.
    assert_eq!(6, passwords::analyzer::analyze("123abc").progressive_count());
    // A run that starts right where the previous one ended gets 2.
    assert_eq!(6, passwords::analyzer::analyze("abcdfh").progressive_count());
    // A gap of one change resets the bonus.
    assert_eq!(6, passwords::analyzer::analyze("abcXYZ").progressive_count());
}

#[test]
fn injected_dictionary() {
    let dictionary = CommonPasswords::new(vec!["hunter2".to_string(), "Tr0ub4dor".to_string()]);
    assert!(dictionary.contains("hunter2"));
    assert!(!dictionary.contains("Hunter2"));
    assert!(!dictionary.contains("hunter"));

    assert!(analyze_with("hunter\r2", Some(&dictionary)).is_common());
    assert!(!analyze_with("hunter2", None).is_common());
    assert!(!analyze_with("abc123", Some(&dictionary)).is_common());

    let builtin = CommonPasswords::builtin();
    assert!(builtin.contains("123456"));
    assert!(is_common_password("password"));
    assert!(!is_common_password("Password"));
}

#[test]
fn into_password_returns_filtered() {
    assert_eq!("ab", passwords::analyzer::analyze("a\nb").into_password());
}
