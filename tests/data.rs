use textkit::email::validate_email;
use textkit::stats::{key_bits, median_keys, order_key};
use textkit::words::{normalize_word, split_words, trim_word, word_frequency};

fn keys_of(xs: &[f64]) -> Vec<u64> {
    xs.iter().map(|x| order_key(x.to_bits())).collect()
}

fn value_of(key: u64) -> f64 {
    f64::from_bits(key_bits(key))
}

fn median_of(xs: &[f64]) -> Option<f64> {
    let mut keys = keys_of(xs);
    median_keys(&mut keys).map(|(lo, hi)| (value_of(lo) + value_of(hi)) / 2.0)
}

#[test]
fn test_word_frequency() {
    let text = "hello world hello rust world";
    let freq = word_frequency(text);
    assert_eq!(freq.get("hello"), Some(&2));
    assert_eq!(freq.get("world"), Some(&2));
    assert_eq!(freq.get("rust"), Some(&1));
}

#[test]
fn test_validate_email() {
    assert!(validate_email("user@example.com"));
    assert!(!validate_email("invalid"));
    assert!(!validate_email("@.com"));
}

#[test]
fn word_frequency_normalises_tokens() {
    let freq = word_frequency("  Hello, hello!\tit's  IT'S (it's) -- ... ");
    assert_eq!(freq.get("hello"), Some(&2));
    assert_eq!(freq.get("it's"), Some(&3));
    assert_eq!(freq.get("--"), None);
    assert_eq!(freq.get(""), None);
    assert_eq!(freq.len(), 2);
}

#[test]
fn word_frequency_of_empty_text() {
    let freq = word_frequency("");
    assert_eq!(freq.len(), 0);
    assert_eq!(freq.get("hello"), None);
    let freq = word_frequency(" \n\t ");
    assert_eq!(freq.len(), 0);
}

#[test]
fn word_frequency_entries_match_lookups() {
    let freq = word_frequency("b a b c b a");
    let mut seen: Vec<(String, usize)> = Vec::new();
    for i in 0..freq.len() {
        let (w, n) = freq.entry(i);
        assert_eq!(freq.get(w), Some(&n));
        seen.push((w.clone(), n));
    }
    seen.sort();
    assert_eq!(seen, vec![("a".to_string(), 2), ("b".to_string(), 3), ("c".to_string(), 1)]);
}

#[test]
fn split_words_skips_runs_of_white_space() {
    assert_eq!(split_words("  a  bb\n c "), vec!["a", "bb", "c"]);
    assert_eq!(split_words(""), Vec::<String>::new());
    assert_eq!(split_words("one"), vec!["one"]);
}

#[test]
fn normalize_word_lowercases_and_trims_boundaries() {
    assert_eq!(normalize_word("(Hello)"), "hello");
    assert_eq!(normalize_word("\"Don't!\""), "don't");
    assert_eq!(normalize_word("ÉCOLE"), "école");
    assert_eq!(normalize_word("?!"), "");
}

#[test]
fn validate_email_boundaries() {
    assert!(validate_email("a@b.cd"));
    assert!(!validate_email("a@b.c"));
    assert!(!validate_email("user@examplecom"));
    assert!(!validate_email("user.example.com"));
    assert!(validate_email("é@x.c"));
    assert!(!validate_email(""));
}

#[test]
fn median_of_odd_and_even_counts() {
    assert_eq!(median_of(&[3.0, 1.0, 5.0, 2.0, 4.0]), Some(3.0));
    assert_eq!(median_of(&[1.0, 2.0, 3.0, 4.0]), Some(2.5));
    assert_eq!(median_of(&[]), None);
    assert_eq!(median_of(&[-7.5]), Some(-7.5));
}

#[test]
fn median_is_independent_of_input_order() {
    let a = [10.0, -2.0, 3.5, 0.0, 8.0, -1.0];
    let b = [8.0, 0.0, -1.0, 10.0, 3.5, -2.0];
    assert_eq!(median_of(&a), median_of(&b));
    assert_eq!(median_of(&a), Some(1.75));
}

#[test]
fn median_keys_sorts_in_place() {
    let mut keys = vec![5u64, 1, 4, 2, 3];
    assert_eq!(median_keys(&mut keys), Some((3, 3)));
    assert_eq!(keys, vec![1, 2, 3, 4, 5]);
    let mut keys = vec![9u64, 7];
    assert_eq!(median_keys(&mut keys), Some((7, 9)));
    let mut keys: Vec<u64> = Vec::new();
    assert_eq!(median_keys(&mut keys), None);
}

#[test]
fn order_keys_follow_numeric_order() {
    let xs = [f64::NEG_INFINITY, -3.5, -0.0, 0.0, 1e-300, 2.0, f64::INFINITY];
    let ks = keys_of(&xs);
    for i in 1..ks.len() {
        assert!(ks[i - 1] < ks[i]);
    }
    for x in xs {
        assert_eq!(value_of(order_key(x.to_bits())).to_bits(), x.to_bits());
    }
}

#[test]
fn trim_word_strips_only_boundaries() {
    assert_eq!(trim_word("--don't--"), "don't");
    assert_eq!(trim_word("(Hello)"), "Hello");
    assert_eq!(trim_word("a.b"), "a.b");
    assert_eq!(trim_word("..."), "");
    assert_eq!(trim_word(""), "");
}

#[test]
fn split_words_on_unicode_white_space() {
    assert_eq!(split_words("a\u{3000}b\u{a0}c\u{2029}d\u{85}e"), vec!["a", "b", "c", "d", "e"]);
    assert_eq!(split_words("x\u{200b}y"), vec!["x\u{200b}y"]);
}

#[test]
fn entries_list_each_word_once() {
    let freq = word_frequency("Ünïcode ünïcode words, WORDS words");
    assert_eq!(freq.len(), 2);
    assert_eq!(freq.get("ünïcode"), Some(&2));
    assert_eq!(freq.get("words"), Some(&3));
    let (a, _) = freq.entry(0);
    let (b, _) = freq.entry(1);
    assert_ne!(a, b);
}
