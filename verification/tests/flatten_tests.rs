use todd::app::App;
use todd::actions::Action;
use todd::actions::MainViewActions;
use todd::tree::JsonValue;
use todd::tree::ValuePair;

fn s(text: &str) -> String {
    text.to_string()
}

fn key(k: &str, v: JsonValue) -> (String, JsonValue) {
    (s(k), v)
}

fn role_doc() -> JsonValue {
    JsonValue::Object(vec![
        key("name", JsonValue::Str(s("Omar"))),
        key(
            "role",
            JsonValue::Object(vec![
                key("role_name", JsonValue::Str(s("Admin"))),
                key("active", JsonValue::Str(s("true"))),
            ]),
        ),
        key("age", JsonValue::Str(s("24"))),
        key(
            "business",
            JsonValue::Object(vec![
                key("business_name", JsonValue::Str(s("Omar"))),
                key(
                    "business_contact",
                    JsonValue::Object(vec![
                        key("phone", JsonValue::Str(s("123456789"))),
                        key("email", JsonValue::Str(s("mail@email.com"))),
                    ]),
                ),
            ]),
        ),
        key(
            "permissions",
            JsonValue::Array(vec![JsonValue::Str(s("READ")), JsonValue::Str(s("WRITE"))]),
        ),
    ])
}

fn billing_doc(second_amount: &str, second_due: &str, with_currency: bool) -> JsonValue {
    let mut entries = vec![
        key("name", JsonValue::Str(s("Jane Doe"))),
        key("age", JsonValue::Num(s("9"))),
        key(
            "address",
            JsonValue::Object(vec![
                key("street", JsonValue::Str(s("123 Main St"))),
                key("city", JsonValue::Str(s("Anytown"))),
                key("state", JsonValue::Str(s("CA"))),
                key("zip", JsonValue::Str(s("12345"))),
            ]),
        ),
        key("salary", JsonValue::Str(s("5"))),
        key(
            "billing_info",
            JsonValue::Object(vec![
                key("card_number", JsonValue::Str(s("1234567890123456"))),
                key("expiry_date", JsonValue::Str(s("12/25"))),
                key(
                    "invoices",
                    JsonValue::Array(vec![
                        JsonValue::Object(vec![
                            key("amount", JsonValue::Num(s("100.0"))),
                            key("due_date", JsonValue::Str(s("2023-06-30"))),
                        ]),
                        JsonValue::Object(vec![
                            key("amount", JsonValue::Num(s(second_amount))),
                            key("due_date", JsonValue::Str(s(second_due))),
                        ]),
                    ]),
                ),
                key("cvv", JsonValue::Str(s("123"))),
            ]),
        ),
    ];
    if with_currency {
        entries.push(key("currency", JsonValue::Str(s("USD"))));
    }
    entries.push(key("currency_symbol", JsonValue::Str(s("$"))));
    JsonValue::Object(entries)
}

#[test]
fn app_test_insert_data_to_tree_for_object() {
    let app = App::default();
    let data = role_doc();

    {
        let mut pairs: Vec<ValuePair> = vec![];
        app.insert_data_to_tree(&mut pairs, &data, 0);
        assert_eq!(pairs.len(), 13);
        assert_eq!(
            pairs[0],
            ValuePair {
                indentation: 1,
                key: s("name"),
                value: Some(JsonValue::Str(s("Omar"))),
                is_array_value: false,
            }
        );
    }

    {
        let mut pairs: Vec<ValuePair> = vec![];
        app.insert_data_to_tree(&mut pairs, &data, 0);
        assert_eq!(pairs.len(), 13);
        assert_eq!(
            pairs[2],
            ValuePair {
                indentation: 2,
                key: s("role_name"),
                value: Some(JsonValue::Str(s("Admin"))),
                is_array_value: false,
            }
        );
    }

    {
        let mut pairs: Vec<ValuePair> = vec![];
        app.insert_data_to_tree(&mut pairs, &data, 0);
        assert_eq!(pairs.len(), 13);
        assert_eq!(
            pairs[8],
            ValuePair {
                indentation: 3,
                key: s("phone"),
                value: Some(JsonValue::Str(s("123456789"))),
                is_array_value: false,
            }
        );
    }

    {
        let mut pairs: Vec<ValuePair> = vec![];
        app.insert_data_to_tree(&mut pairs, &data, 0);
        assert_eq!(pairs.len(), 13);
        assert_eq!(
            pairs[11],
            ValuePair {
                indentation: 2,
                key: String::new(),
                value: Some(JsonValue::Str(s("READ"))),
                is_array_value: true,
            }
        );
    }
}

#[test]
fn state_test_insert_data_to_tree_for_object() {
    app_test_insert_data_to_tree_for_object();
}

#[test]
fn app_test_insert_data_to_tree_for_array() {
    let app = App::default();
    let data = JsonValue::Array(vec![
        JsonValue::Num(s("42")),
        JsonValue::Null,
        JsonValue::Object(vec![
            key("name", JsonValue::Str(s("Omar"))),
            key(
                "role",
                JsonValue::Object(vec![
                    key("role_name", JsonValue::Str(s("Admin"))),
                    key("active", JsonValue::Str(s("true"))),
                ]),
            ),
            key("age", JsonValue::Str(s("24"))),
            key(
                "business",
                JsonValue::Object(vec![
                    key("business_name", JsonValue::Str(s("Omar"))),
                    key(
                        "business_contact",
                        JsonValue::Object(vec![
                            key("phone", JsonValue::Str(s("123456789"))),
                            key("email", JsonValue::Str(s("mail@email.com"))),
                        ]),
                    ),
                ]),
            ),
        ]),
    ]);

    let mut pairs: Vec<ValuePair> = vec![];
    app.insert_data_to_tree(&mut pairs, &data, 0);
    assert_eq!(pairs.len(), 13);
    assert_eq!(
        pairs[0],
        ValuePair {
            indentation: 1,
            key: s(""),
            value: Some(JsonValue::Num(s("42"))),
            is_array_value: true,
        }
    );
}

#[test]
fn state_test_insert_data_to_tree_for_array() {
    app_test_insert_data_to_tree_for_array();
}

#[test]
fn app_test_insert_data_to_tree_for_arrays_inside_objects() {
    let app = App::default();
    let data = billing_doc("100.0", "2023-06-30", true);

    {
        let mut pairs: Vec<ValuePair> = vec![];
        app.insert_data_to_tree(&mut pairs, &data, 0);
        assert_eq!(pairs.len(), 21);
        assert_eq!(
            pairs[11],
            ValuePair {
                indentation: 2,
                key: s("invoices"),
                value: None,
                is_array_value: false,
            }
        );
    }

    {
        let mut pairs: Vec<ValuePair> = vec![];
        app.insert_data_to_tree(&mut pairs, &data, 0);
        assert_eq!(pairs.len(), 21);
        assert_eq!(
            pairs[13],
            ValuePair {
                indentation: 4,
                key: s("amount"),
                value: Some(JsonValue::Num(s("100.0"))),
                is_array_value: false,
            }
        );
    }
}

#[test]
fn state_test_insert_data_to_tree_for_arrays_inside_objects() {
    app_test_insert_data_to_tree_for_arrays_inside_objects();
}

fn wide_doc() -> JsonValue {
    JsonValue::Object(vec![
        key(
            "string_examples",
            JsonValue::Str(s("Unicode text with \"quotes\", tabs\t, newlines\n and emoji")),
        ),
        key(
            "number_examples",
            JsonValue::Object(vec![
                key("integer", JsonValue::Num(s("42"))),
                key("negative", JsonValue::Num(s("-17"))),
                key("float", JsonValue::Num(s("3.14159"))),
                key("scientific", JsonValue::Num(s("1.23e-4"))),
            ]),
        ),
        key(
            "boolean_examples",
            JsonValue::Object(vec![
                key("true_value", JsonValue::Bool(true)),
                key("false_value", JsonValue::Bool(false)),
            ]),
        ),
        key("null_example", JsonValue::Null),
        key(
            "array_examples",
            JsonValue::Array(vec![
                JsonValue::Str(s("string")),
                JsonValue::Num(s("123")),
                JsonValue::Bool(false),
                JsonValue::Null,
                JsonValue::Object(vec![key("nested_object", JsonValue::Str(s("inside_array")))]),
                JsonValue::Array(vec![
                    JsonValue::Num(s("1")),
                    JsonValue::Num(s("2")),
                    JsonValue::Array(vec![JsonValue::Num(s("3")), JsonValue::Num(s("4"))]),
                ]),
            ]),
        ),
        key(
            "nested_object",
            JsonValue::Object(vec![key(
                "level1",
                JsonValue::Object(vec![key(
                    "level2",
                    JsonValue::Object(vec![key(
                        "level3",
                        JsonValue::Str(s("deeply nested value")),
                    )]),
                )]),
            )]),
        ),
        key(
            "empty_values",
            JsonValue::Object(vec![
                key("empty_object", JsonValue::Object(vec![])),
                key("empty_array", JsonValue::Array(vec![])),
            ]),
        ),
    ])
}

#[test]
fn app_test_lines_count() {
    let mut app = App::new(wide_doc());
    let mut pairs = vec![];
    let lines_count = app.insert_data_to_tree(&mut pairs, &app.json, 0);
    app.lines_count = lines_count;
    app.json_pairs = pairs;

    assert_eq!(app.lines_count, 30);

    for _ in 0..100 {
        app.update(Action::MainView(MainViewActions::MoveDown));
    }
    assert_eq!(app.line_at_cursor, 29);
}

#[test]
fn state_test_lines_count() {
    app_test_lines_count();
}

#[test]
fn flatten_is_idempotent() {
    let data = billing_doc("200.0", "2024-06-30", false);
    let (rows1, total1) = todd::flatten::flatten(&data);
    let (rows2, total2) = todd::flatten::flatten(&data);
    assert_eq!(rows1, rows2);
    assert_eq!(total1, total2);
    assert_eq!(rows1.len(), total1);
}
