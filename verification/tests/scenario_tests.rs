use selecta::configuration::Configuration;
use selecta::search::one_two_three;
use selecta::search::Search;

#[test]
fn empty_query_selects_the_first_choice() {
    let config = Configuration::from_inputs(one_two_three(), None, Some(10));
    let search = Search::blank(config);
    assert_eq!(search.selection, Some("one".to_string()));
}

#[test]
fn down_once_selects_the_second_choice() {
    let config = Configuration::from_inputs(one_two_three(), None, Some(10));
    let search = Search::blank(config);
    assert_eq!(search.down().selection, Some("two".to_string()));
}

#[test]
fn a_small_window_cycles_before_the_pool_ends() {
    let config = Configuration::from_inputs(one_two_three(), None, Some(2));
    let search = Search::blank(config);
    let search = search.down().down().down();
    assert_eq!(search.selection, Some("two".to_string()));
}

#[test]
fn narrowing_the_query_narrows_the_result() {
    let config = Configuration::from_inputs(one_two_three(), None, Some(10));
    let search = Search::blank(config).append_to_search("t");
    assert_eq!(search.result, vec!["two".to_string(), "three".to_string()]);
    let search = search.append_to_search("w");
    assert_eq!(search.result, vec!["two".to_string()]);
    assert_eq!(search.selection, Some("two".to_string()));
}

#[test]
fn an_empty_pool_selects_nothing_and_still_confirms() {
    let config = Configuration::from_inputs(Vec::new(), None, Some(10));
    let search = Search::blank(config);
    assert_eq!(search.selection, None);
    let search = search.done();
    assert!(search.is_done());
    assert_eq!(search.selection, None);
}

#[test]
fn filtering_twice_with_the_same_query_changes_nothing() {
    let once = Search::filter("t", &one_two_three());
    let twice = Search::filter("t", &once);
    assert_eq!(once, twice);
}

#[test]
fn an_empty_query_keeps_the_pool_in_its_order() {
    let choices = one_two_three();
    let result = Search::filter("", &choices);
    assert_eq!(result, choices);
}

#[test]
fn down_then_up_returns_to_the_same_row() {
    let config = Configuration::from_inputs(one_two_three(), None, Some(10));
    let search = Search::blank(config).down();
    let before = search.selection.clone();
    let search = search.down().up();
    assert_eq!(search.selection, before);
    let search = search.up().down();
    assert_eq!(search.selection, before);
}

#[test]
fn navigation_wraps_at_the_window_ends() {
    let config = Configuration::from_inputs(one_two_three(), None, None);
    let search = Search::blank(config);
    let search = search.up();
    assert_eq!(search.selection, Some("three".to_string()));
    let search = search.down();
    assert_eq!(search.selection, Some("one".to_string()));
}

#[test]
fn backspace_undoes_an_append() {
    let config = Configuration::from_inputs(one_two_three(), None, Some(10));
    let before = Search::blank(config).append_to_search("t");
    let before_query = before.query.clone();
    let before_result = before.result.clone();
    let before_selection = before.selection.clone();
    let after = before.append_to_search("w").backspace();
    assert_eq!(after.query, before_query);
    assert_eq!(after.result, before_result);
    assert_eq!(after.selection, before_selection);
}

#[test]
fn backspace_on_an_empty_query_changes_nothing() {
    let config = Configuration::from_inputs(one_two_three(), None, Some(10));
    let search = Search::blank(config).backspace();
    assert_eq!(search.query, "".to_string());
    assert_eq!(search.result, one_two_three());
}

#[test]
fn confirming_twice_is_the_same_as_confirming_once() {
    let once = {
        let config = Configuration::from_inputs(one_two_three(), None, Some(10));
        Search::blank(config).down().done()
    };
    let twice = {
        let config = Configuration::from_inputs(one_two_three(), None, Some(10));
        Search::blank(config).down().done().done()
    };
    assert_eq!(once.query, twice.query);
    assert_eq!(once.result, twice.result);
    assert_eq!(once.selection, twice.selection);
    assert_eq!(once.is_done(), twice.is_done());
}

#[test]
fn a_confirmed_search_ignores_every_transition() {
    let config = Configuration::from_inputs(one_two_three(), None, Some(10));
    let search = Search::blank(config).done();
    let search = search.down().up().append_to_search("x").backspace();
    assert!(search.is_done());
    assert_eq!(search.query, "".to_string());
    assert_eq!(search.selection, Some("one".to_string()));
}

#[test]
fn an_initial_query_starts_the_search_filtered() {
    let config =
        Configuration::from_inputs(one_two_three(), Some("t".to_string()), Some(10));
    let search = Search::blank(config);
    assert_eq!(search.query, "t".to_string());
    assert_eq!(search.result, vec!["two".to_string(), "three".to_string()]);
    assert_eq!(search.selection, Some("two".to_string()));
}

#[test]
fn equal_qualities_keep_their_original_order() {
    let choices = vec!["ab".to_string(), "ba".to_string()];
    let result = Search::filter("a", &choices);
    assert_eq!(result, choices);
}

#[test]
fn the_selection_is_none_past_the_result_rows() {
    let config = Configuration::from_inputs(one_two_three(), None, Some(10));
    let search = Search::blank(config).down().down().down();
    assert_eq!(search.selection, None);
}
