use todd::app::App;
use todd::actions::Action;
use todd::actions::MainViewActions;
use todd::actions::SearchingAction;
use todd::app::ReportedMessageKinds;
use todd::search::next_match;
use todd::search::prev_match;
use todd::tree::JsonValue;

fn s(text: &str) -> String {
    text.to_string()
}

fn key(k: &str, v: JsonValue) -> (String, JsonValue) {
    (s(k), v)
}

fn hundred_row_app(viewport: usize) -> App {
    let mut elems = Vec::new();
    for i in 0..100 {
        elems.push(JsonValue::Num(i.to_string()));
    }
    let mut app = App::new(JsonValue::Array(elems));
    assert!(app.recompute_rows());
    app.viewport_lines_count = viewport;
    app
}

#[test]
fn scenario_half_page_moves() {
    let mut app = hundred_row_app(20);
    assert_eq!(app.lines_count, 100);
    for _ in 0..3 {
        app.update(Action::MainView(MainViewActions::MoveHalfPageDown));
    }
    assert_eq!(app.line_at_cursor, 30);
    assert_eq!(app.vertical_scroll, 20);
    assert!(app.vertical_scroll <= app.lines_count - app.viewport_lines_count);
}

#[test]
fn viewport_invariant_holds_under_any_moves() {
    let mut app = hundred_row_app(12);
    let moves = [
        MainViewActions::MoveHalfPageDown,
        MainViewActions::MoveDown,
        MainViewActions::MoveDown,
        MainViewActions::MoveToBottom,
        MainViewActions::MoveUp,
        MainViewActions::MoveHalfPageUp,
        MainViewActions::MoveHalfPageUp,
        MainViewActions::MoveUp,
        MainViewActions::MoveToTop,
        MainViewActions::MoveHalfPageDown,
        MainViewActions::MoveHalfPageDown,
        MainViewActions::MoveDown,
        MainViewActions::MoveHalfPageUp,
        MainViewActions::MoveToBottom,
        MainViewActions::MoveDown,
    ];
    for (step, m) in moves.iter().enumerate() {
        app.update(Action::MainView(*m));
        assert!(app.line_at_cursor < app.lines_count, "step {}", step);
        assert!(app.vertical_scroll <= app.line_at_cursor, "step {}", step);
        assert!(
            app.line_at_cursor <= app.vertical_scroll + app.viewport_lines_count - 1,
            "step {}",
            step
        );
    }
}

#[test]
fn cursor_is_clamped_after_shrinking_edit() {
    let mut app = App::new(JsonValue::Object(vec![
        key("a", JsonValue::Num(s("1"))),
        key("b", JsonValue::Num(s("2"))),
    ]));
    assert!(app.recompute_rows());
    assert_eq!(app.lines_count, 2);
    app.line_at_cursor = 5;
    assert!(app.recompute_rows());
    assert_eq!(app.line_at_cursor, 1);
}

#[test]
fn search_is_case_insensitive_both_ways() {
    let mut app = App::new(JsonValue::Object(vec![
        key("Name", JsonValue::Str(s("Jane Doe"))),
        key("age", JsonValue::Num(s("30"))),
        key("City", JsonValue::Str(s("ANYTOWN"))),
    ]));
    assert!(app.recompute_rows());

    app.set_query(s("nAmE"));
    app.recompute_search_matches();
    assert_eq!(app.search_matches, vec![0]);

    app.set_query(s("anytown"));
    app.recompute_search_matches();
    assert_eq!(app.search_matches, vec![2]);

    // A row matching in both key and value is recorded once.
    app.set_query(s("a"));
    app.recompute_search_matches();
    assert_eq!(app.search_matches, vec![0, 1, 2]);
}

#[test]
fn search_navigation_does_not_wrap() {
    let mut app = App::new(JsonValue::Object(vec![
        key("alpha", JsonValue::Num(s("1"))),
        key("beta", JsonValue::Num(s("2"))),
        key("alpine", JsonValue::Num(s("3"))),
        key("gamma", JsonValue::Num(s("4"))),
    ]));
    assert!(app.recompute_rows());
    app.viewport_lines_count = 10;
    app.set_query(s("alp"));
    app.recompute_search_matches();
    assert_eq!(app.search_matches, vec![0, 2]);

    app.line_at_cursor = 0;
    app.update(Action::Searching(SearchingAction::GoToNextMatch));
    assert_eq!(app.line_at_cursor, 2);
    assert_eq!(app.message_to_report.kind, ReportedMessageKinds::Info);

    // No match after the last one: the cursor stays.
    app.update(Action::Searching(SearchingAction::GoToNextMatch));
    assert_eq!(app.line_at_cursor, 2);
    assert_eq!(app.message_to_report.kind, ReportedMessageKinds::Error);
    assert_eq!(app.message_to_report.message, s("No more matches"));

    app.update(Action::Searching(SearchingAction::GoToPrevMatch));
    assert_eq!(app.line_at_cursor, 0);

    app.update(Action::Searching(SearchingAction::GoToPrevMatch));
    assert_eq!(app.line_at_cursor, 0);
    assert_eq!(app.message_to_report.message, s("No previous matches"));
}

#[test]
fn search_matches_values_in_display_form() {
    let mut app = App::new(JsonValue::Object(vec![
        key("flag", JsonValue::Bool(true)),
        key("nothing", JsonValue::Null),
        key("word", JsonValue::Str(s("TRUEsay"))),
    ]));
    assert!(app.recompute_rows());
    app.set_query(s("true"));
    app.recompute_search_matches();
    assert_eq!(app.search_matches, vec![0, 2]);

    app.set_query(s("null"));
    app.recompute_search_matches();
    assert_eq!(app.search_matches, vec![1]);

    app.update(Action::Searching(SearchingAction::ClearSearch));
    assert_eq!(app.search_query, String::new());
    assert!(app.search_matches.is_empty());
}

#[test]
fn next_and_prev_match_pick_nearest() {
    let matches: Vec<usize> = vec![2, 5, 9];
    assert_eq!(next_match(&matches, 0), Some(2));
    assert_eq!(next_match(&matches, 2), Some(5));
    assert_eq!(next_match(&matches, 9), None);
    assert_eq!(prev_match(&matches, 9), Some(5));
    assert_eq!(prev_match(&matches, 3), Some(2));
    assert_eq!(prev_match(&matches, 2), None);
}
