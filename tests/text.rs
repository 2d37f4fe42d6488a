use textkit::text::{count_vowels, is_palindrome, reverse_string, run_tests};

#[test]
fn test_reverse_string() {
    assert_eq!(reverse_string("hello"), "olleh");
    assert_eq!(reverse_string("rust"), "tsur");
    assert_eq!(reverse_string(""), "");
}

#[test]
fn test_count_vowels() {
    assert_eq!(count_vowels("hello"), 2);
    assert_eq!(count_vowels("aeiou"), 5);
    assert_eq!(count_vowels("xyz"), 0);
    assert_eq!(count_vowels("HELLO"), 2);
}

#[test]
fn test_is_palindrome() {
    assert_eq!(is_palindrome("racecar"), true);
    assert_eq!(is_palindrome("A man a plan a canal Panama"), true);
    assert_eq!(is_palindrome("hello"), false);
    assert_eq!(is_palindrome(""), true);
}

#[test]
fn reverse_keeps_multibyte_characters_whole() {
    assert_eq!(reverse_string("héllo wörld"), "dlröw olléh");
    assert_eq!(reverse_string("a"), "a");
}

#[test]
fn reverse_twice_is_identity() {
    for s in ["hello", "", "ab c", "日本語", "racecar!"] {
        assert_eq!(reverse_string(&reverse_string(s)), s);
    }
}

#[test]
fn count_vowels_examples() {
    assert_eq!(count_vowels("hello world"), 3);
    assert_eq!(count_vowels(""), 0);
    assert_eq!(count_vowels("AEIOU aeiou 123 !?"), 10);
    assert_eq!(count_vowels("rhythm"), 0);
}

#[test]
fn palindrome_ignores_punctuation_and_case() {
    assert!(is_palindrome("No 'x' in Nixon"));
    assert!(is_palindrome("!!! ,,,"));
    assert!(is_palindrome("12321"));
    assert!(!is_palindrome("12 34"));
    assert!(!is_palindrome("ab"));
}

#[test]
fn run_tests_reports_all_three_metrics() {
    let r = run_tests("Level up").unwrap();
    assert_eq!(r.reversed, "pu leveL");
    assert_eq!(r.vowels, 3);
    assert!(!r.is_palindrome);
    let r = run_tests("racecar").unwrap();
    assert_eq!(r.reversed, "racecar");
    assert_eq!(r.vowels, 3);
    assert!(r.is_palindrome);
}

#[test]
fn palindrome_lowercases_beyond_ascii() {
    assert!(is_palindrome("Éé"));
    assert!(is_palindrome("Ésé, SÉ!"));
    assert!(!is_palindrome("Éa"));
}
