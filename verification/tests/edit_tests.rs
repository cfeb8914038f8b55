use todd::app::App;
use todd::app::EditingMode;
use todd::mutate::insert_after;
use todd::mutate::update_at;
use todd::tree::JsonValue;

fn s(text: &str) -> String {
    text.to_string()
}

fn key(k: &str, v: JsonValue) -> (String, JsonValue) {
    (s(k), v)
}

fn entries(v: &JsonValue) -> &Vec<(String, JsonValue)> {
    match v {
        JsonValue::Object(fs) => fs,
        _ => panic!("not an object"),
    }
}

fn get<'a>(v: &'a JsonValue, k: &str) -> Option<&'a JsonValue> {
    for (ek, ev) in entries(v) {
        if ek == k {
            return Some(ev);
        }
    }
    None
}

fn billing_doc() -> JsonValue {
    JsonValue::Object(vec![
        key("name", JsonValue::Str(s("Jane Doe"))),
        key("age", JsonValue::Num(s("9"))),
        key(
            "address",
            JsonValue::Object(vec![
                key("street", JsonValue::Str(s("123 Main St"))),
                key("city", JsonValue::Str(s("Anytown"))),
                key("state", JsonValue::Str(s("CA"))),
                key("zip", JsonValue::Str(s("12345"))),
            ]),
        ),
        key("salary", JsonValue::Str(s("5"))),
        key(
            "billing_info",
            JsonValue::Object(vec![
                key("card_number", JsonValue::Str(s("1234567890123456"))),
                key("expiry_date", JsonValue::Str(s("12/25"))),
                key(
                    "invoices",
                    JsonValue::Array(vec![
                        JsonValue::Object(vec![
                            key("amount", JsonValue::Num(s("100.0"))),
                            key("due_date", JsonValue::Str(s("2023-06-30"))),
                        ]),
                        JsonValue::Object(vec![
                            key("amount", JsonValue::Num(s("200.0"))),
                            key("due_date", JsonValue::Str(s("2024-06-30"))),
                        ]),
                    ]),
                ),
                key("cvv", JsonValue::Str(s("123"))),
            ]),
        ),
        key("currency_symbol", JsonValue::Str(s("$"))),
    ])
}

#[test]
fn app_test_insert_new_pair_from_input() {
    let mut app = App::default();
    app.json = billing_doc();

    app.key_input = s("Currency");
    app.value_input = s("USD");
    app.line_at_cursor = 0;
    app.insert_new_data_from_user_input();

    let fs = entries(&app.json);
    assert_eq!(fs[1], (s("Currency"), JsonValue::Str(s("USD"))));
}

#[test]
fn state_test_insert_new_pair_from_input() {
    app_test_insert_new_pair_from_input();
}

#[test]
fn test_editing_existing_values() {
    let mut app = App::new(JsonValue::Object(vec![
        key("name", JsonValue::Str(s("Jane Doe"))),
        key("age", JsonValue::Num(s("30"))),
        key(
            "hobbies",
            JsonValue::Array(vec![JsonValue::Str(s("reading")), JsonValue::Str(s("coding"))]),
        ),
        key("active", JsonValue::Bool(true)),
    ]));
    let mut pairs = vec![];
    let lines_count = app.insert_data_to_tree(&mut pairs, &app.json, 0);
    app.lines_count = lines_count;
    app.json_pairs = pairs;

    // Edit a string value.
    {
        app.line_at_cursor = 0;
        app.start_editing_existing_value();

        assert_eq!(app.editing_mode, EditingMode::Editing);
        assert_eq!(app.key_input, s("name"));
        assert_eq!(app.value_input, s("Jane Doe"));

        app.key_input = s("full_name");
        app.value_input = s("John Smith");
        app.update_existing_data_from_user_input();

        assert_eq!(get(&app.json, "full_name"), Some(&JsonValue::Str(s("John Smith"))));
        assert!(get(&app.json, "name").is_none());
    }

    // Edit a number value.
    {
        app.line_at_cursor = 1;
        app.start_editing_existing_value();

        assert_eq!(app.key_input, s("age"));
        assert_eq!(app.value_input, s("30"));

        app.value_input = s("25");
        app.update_existing_data_from_user_input();

        assert_eq!(get(&app.json, "age"), Some(&JsonValue::Num(s("25"))));
    }

    // Edit an array value.
    {
        app.line_at_cursor = 3;
        app.start_editing_existing_value();

        assert_eq!(app.value_input, s("reading"));

        app.value_input = s("writing");
        app.update_existing_data_from_user_input();

        match get(&app.json, "hobbies") {
            Some(JsonValue::Array(es)) => assert_eq!(es[0], JsonValue::Str(s("writing"))),
            _ => panic!("hobbies is not an array"),
        }
    }
}

#[test]
fn coercion_picks_numbers_booleans_and_strings() {
    let mut tree = JsonValue::Object(vec![key("a", JsonValue::Num(s("1")))]);
    assert!(insert_after(0, "n", "5", &mut tree));
    assert!(insert_after(0, "b", "true", &mut tree));
    assert!(insert_after(0, "s", "hello", &mut tree));
    assert!(insert_after(0, "sci", "1e3", &mut tree));
    assert!(insert_after(0, "date", "12/25", &mut tree));
    assert_eq!(get(&tree, "n"), Some(&JsonValue::Num(s("5"))));
    assert_eq!(get(&tree, "b"), Some(&JsonValue::Bool(true)));
    assert_eq!(get(&tree, "s"), Some(&JsonValue::Str(s("hello"))));
    assert_eq!(get(&tree, "sci"), Some(&JsonValue::Num(s("1e3"))));
    assert_eq!(get(&tree, "date"), Some(&JsonValue::Str(s("12/25"))));
}

#[test]
fn coercion_null_only_on_update() {
    let mut tree = JsonValue::Object(vec![key("a", JsonValue::Num(s("1")))]);
    assert!(insert_after(0, "x", "null", &mut tree));
    assert_eq!(get(&tree, "x"), Some(&JsonValue::Str(s("null"))));
    // Row 1 is now "x"; updating it with the same text yields a real null.
    assert!(update_at(1, "x", "null", &mut tree));
    assert_eq!(get(&tree, "x"), Some(&JsonValue::Null));
}

#[test]
fn empty_inputs_are_silently_rejected() {
    let original = billing_doc();
    let mut tree = billing_doc();
    assert!(!insert_after(0, "", "v", &mut tree));
    assert!(!insert_after(0, "k", "", &mut tree));
    assert!(!update_at(0, "", "v", &mut tree));
    assert_eq!(tree, original);
}

#[test]
fn out_of_range_rows_are_a_no_op() {
    let original = billing_doc();
    let mut tree = billing_doc();
    assert!(!insert_after(21, "k", "v", &mut tree));
    assert!(!update_at(1000, "k", "v", &mut tree));
    assert_eq!(tree, original);
}

#[test]
fn array_inserts_need_no_key() {
    let mut tree = JsonValue::Object(vec![key(
        "xs",
        JsonValue::Array(vec![JsonValue::Num(s("1")), JsonValue::Num(s("2"))]),
    )]);
    // Row 1 is the first element; insert right after it, key ignored.
    assert!(insert_after(1, "", "42", &mut tree));
    match get(&tree, "xs") {
        Some(JsonValue::Array(es)) => {
            assert_eq!(es.len(), 3);
            assert_eq!(es[1], JsonValue::Num(s("42")));
        },
        _ => panic!("xs is not an array"),
    }
}
