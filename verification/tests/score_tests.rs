use selecta::score::Score;

#[test]
fn an_empty_query_scores_every_candidate_one() {
    assert_eq!(Score::score("two", ""), 1);
    assert_eq!(Score::score("", ""), 1);
}

#[test]
fn a_candidate_without_the_query_scores_zero() {
    assert_eq!(Score::score("one", "t"), 0);
    assert_eq!(Score::score("two", "wt"), 0);
    assert_eq!(Score::score("", "t"), 0);
}

#[test]
fn a_denser_match_scores_higher() {
    assert_eq!(Score::score("two", "t"), 334);
    assert_eq!(Score::score("three", "t"), 201);
    assert!(Score::score("two", "t") > Score::score("three", "t"));
}

#[test]
fn the_match_is_a_subsequence_not_a_substring() {
    assert!(Score::matches("three", "te"));
    assert!(!Score::matches("three", "et"));
}

#[test]
fn matching_ignores_ascii_case() {
    assert!(Score::matches("Three", "t"));
    assert!(Score::matches("three", "T"));
    assert_eq!(Score::score("Two", "t"), Score::score("two", "T"));
}

#[test]
fn an_exact_match_scores_the_full_density() {
    assert_eq!(Score::score("two", "two"), 1001);
    assert_eq!(Score::score("TWO", "two"), 1001);
}
