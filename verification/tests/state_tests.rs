use todd::actions::Action;
use todd::actions::EditingAction;
use todd::actions::SearchingAction;
use todd::actions::SystemAction;
use todd::app::App;
use todd::app::CurrentScreen;
use todd::app::CurrentlyEditing;
use todd::tree::JsonValue;

fn s(text: &str) -> String {
    text.to_string()
}

fn key(k: &str, v: JsonValue) -> (String, JsonValue) {
    (s(k), v)
}

fn small_app() -> App {
    let mut app = App::new(JsonValue::Object(vec![
        key("a", JsonValue::Num(s("1"))),
        key("xs", JsonValue::Array(vec![JsonValue::Num(s("2"))])),
    ]));
    assert!(app.recompute_rows());
    app
}

#[test]
fn toggle_editing_opens_popup_on_key_input() {
    let mut app = small_app();
    app.line_at_cursor = 0;
    app.toggle_editing();
    assert_eq!(app.current_screen, CurrentScreen::Editing);
    assert_eq!(app.currently_editing, Some(CurrentlyEditing::Key));
    assert!(app.key_input_focused);
    assert!(!app.value_input_focused);

    // Inside an array there is no key input to toggle into.
    let mut app = small_app();
    app.line_at_cursor = 2;
    app.toggle_editing();
    assert_eq!(app.currently_editing, Some(CurrentlyEditing::Value));
    assert!(app.value_input_focused);
}

#[test]
fn editing_inputs_receive_characters() {
    let mut app = small_app();
    app.toggle_editing();
    app.update(Action::Editing(EditingAction::AppendChar('h')));
    app.update(Action::Editing(EditingAction::AppendChar('i')));
    assert_eq!(app.key_input, s("hi"));

    app.update(Action::Editing(EditingAction::SwitchToValue));
    app.value_input_focused = true;
    app.key_input_focused = false;
    app.update(Action::Editing(EditingAction::AppendChar('4')));
    app.update(Action::Editing(EditingAction::AppendChar('2')));
    assert_eq!(app.value_input, s("42"));

    app.update(Action::Editing(EditingAction::PopFromValue));
    assert_eq!(app.value_input, s("4"));

    app.update(Action::Editing(EditingAction::Submit));
    // The submit inserted after row 0 and cleared the inputs.
    assert_eq!(app.current_screen, CurrentScreen::ViewingFile);
    assert_eq!(app.key_input, String::new());
    assert_eq!(app.value_input, String::new());
    match &app.json {
        JsonValue::Object(fs) => {
            assert_eq!(fs[1], (s("hi"), JsonValue::Num(s("4"))));
        },
        _ => panic!("root is not an object"),
    }
}

#[test]
fn search_query_grows_and_clears_through_actions() {
    let mut app = small_app();
    app.update(Action::Searching(SearchingAction::AppendChar('x')));
    app.update(Action::Searching(SearchingAction::AppendChar('s')));
    assert_eq!(app.search_query, s("xs"));
    app.update(Action::Searching(SearchingAction::PopChar));
    assert_eq!(app.search_query, s("x"));
    app.update(Action::Searching(SearchingAction::ClearSearch));
    assert_eq!(app.search_query, String::new());
}

#[test]
fn report_results_counts_matches() {
    let mut app = small_app();
    app.set_query(s("xs"));
    app.recompute_search_matches();
    app.update(Action::Searching(SearchingAction::ReportResults));
    assert_eq!(app.message_to_report.message, s("Found 1 matches"));
}

#[test]
fn quit_stops_the_loop() {
    let mut app = small_app();
    app.running = true;
    app.update(Action::App(SystemAction::Quit));
    assert!(!app.running);
}
