use selecta::configuration::Configuration;
use selecta::screen::handle_keystroke;
use selecta::search::Search;

fn input() -> Vec<String> {
    vec!["one".to_string(), "two".to_string()]
}

#[test]
fn moves_the_selection_down_for_ctrl_n() {
    let input = input();
    let config = Configuration::from_inputs(input, None, Some(10));
    let search = Search::blank(config);
    let result = handle_keystroke(search, "\u{e}");
    assert_eq!(result.selection, Some("two".to_string()));
}

#[test]
fn moves_the_selection_up_for_ctrl_p() {
    let input = input();
    let config = Configuration::from_inputs(input, None, Some(10));
    let search = Search::blank(config).down();
    let result = handle_keystroke(search, "\u{10}");
    assert_eq!(result.selection, Some("one".to_string()));
}

#[test]
fn removes_the_last_character_for_delete() {
    let input = input();
    let config = Configuration::from_inputs(input, None, Some(10));
    let search = Search::blank(config).append_to_search("w").append_to_search("x");
    let result = handle_keystroke(search, "\u{7f}");
    assert_eq!(result.selection, Some("two".to_string()));
}

#[test]
fn marks_a_search_as_done_for_enter() {
    let input = input();
    let config = Configuration::from_inputs(input, None, Some(10));
    let search = Search::blank(config);
    let result = handle_keystroke(search, "\n");
    assert!(result.is_done());
}
