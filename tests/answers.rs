use the_numbers::answer::{is_correct, matches_normalized, normalize_answer};

#[test]
fn answer_matching_examples() {
    assert!(is_correct("  3 ", "3|three"));
    assert!(is_correct("Three", "3|three"));
    assert!(!is_correct("4", "3|three"));
}

#[test]
fn answer_matching_ignores_inner_spaces_and_case() {
    assert!(is_correct("1 / 2", "1/2"));
    assert!(is_correct("YES", "yes"));
    assert!(is_correct("\tseven\n", "7|Seven"));
}

#[test]
fn empty_forms_never_match() {
    assert!(!is_correct("", "3|"));
    assert!(!is_correct("   ", "|"));
    assert!(is_correct("x", "|x"));
}

#[test]
fn normalization() {
    assert_eq!(normalize_answer("  A B c "), "abc");
    assert_eq!(normalize_answer(""), "");
}

#[test]
fn normalized_match() {
    let forms = vec!["3".to_string(), "three".to_string(), "".to_string()];
    assert!(matches_normalized("three", &forms));
    assert!(!matches_normalized("", &forms));
    assert!(!matches_normalized("Three", &forms));
}
