use todd::flatten::flatten;
use todd::mutate::insert_after;
use todd::mutate::is_container_array;
use todd::mutate::update_at;
use todd::resolve::get_current_value_at_position;
use todd::resolve::get_nested_object_to_insert_into;
use todd::tree::JsonValue;

fn s(text: &str) -> String {
    text.to_string()
}

fn key(k: &str, v: JsonValue) -> (String, JsonValue) {
    (s(k), v)
}

fn node_at<'a>(root: &'a JsonValue, path: &[usize]) -> &'a JsonValue {
    let mut cur = root;
    for &j in path {
        cur = match cur {
            JsonValue::Object(fs) => &fs[j].1,
            JsonValue::Array(es) => &es[j],
            _ => panic!("path steps into a scalar"),
        };
    }
    cur
}

fn has_key(v: &JsonValue, k: &str) -> bool {
    match v {
        JsonValue::Object(fs) => fs.iter().any(|(ek, _)| ek == k),
        _ => false,
    }
}

#[test]
fn test_get_nested_object_to_insert_into_mixed_types() {
    let value = JsonValue::Object(vec![
        key(
            "primitives",
            JsonValue::Array(vec![
                JsonValue::Num(s("123")),
                JsonValue::Bool(true),
                JsonValue::Null,
                JsonValue::Str(s("string")),
            ]),
        ),
        key("empty", JsonValue::Object(vec![])),
        key(
            "nested_empty",
            JsonValue::Object(vec![key("inner_empty", JsonValue::Object(vec![]))]),
        ),
    ]);

    {
        let (obj_ref, index) = get_nested_object_to_insert_into(0, &value);
        assert!(obj_ref.is_some());
        let parent = node_at(&value, &obj_ref.unwrap());
        assert_eq!(index, 0);
        assert!(has_key(parent, "primitives"));
    }

    {
        let (obj_ref, index) = get_nested_object_to_insert_into(4, &value);
        assert!(obj_ref.is_some());
        let parent = node_at(&value, &obj_ref.unwrap());
        assert_eq!(index, 3);
        assert!(matches!(parent, JsonValue::Array(_)));
    }

    {
        let (obj_ref, index) = get_nested_object_to_insert_into(6, &value);
        assert!(obj_ref.is_some());
        let parent = node_at(&value, &obj_ref.unwrap());
        assert_eq!(index, 2);
        assert!(has_key(parent, "nested_empty"));
    }

    {
        let (obj_ref, index) = get_nested_object_to_insert_into(7, &value);
        assert!(obj_ref.is_some());
        let parent = node_at(&value, &obj_ref.unwrap());
        assert_eq!(index, 0);
        assert!(has_key(parent, "inner_empty"));
    }
}

fn scenario_tree() -> JsonValue {
    JsonValue::Object(vec![
        key("a", JsonValue::Num(s("1"))),
        key(
            "b",
            JsonValue::Object(vec![
                key("c", JsonValue::Num(s("2"))),
                key("d", JsonValue::Num(s("3"))),
            ]),
        ),
        key("e", JsonValue::Array(vec![JsonValue::Num(s("10")), JsonValue::Num(s("20"))])),
    ])
}

#[test]
fn scenario_flatten_rows() {
    let tree = scenario_tree();
    let (rows, total) = flatten(&tree);
    assert_eq!(total, 7);
    assert_eq!(rows.len(), 7);
    let expect = [
        (1usize, "a", Some(JsonValue::Num(s("1"))), false),
        (1, "b", None, false),
        (2, "c", Some(JsonValue::Num(s("2"))), false),
        (2, "d", Some(JsonValue::Num(s("3"))), false),
        (1, "e", None, false),
        (2, "", Some(JsonValue::Num(s("10"))), true),
        (2, "", Some(JsonValue::Num(s("20"))), true),
    ];
    for (i, (depth, k, v, arr)) in expect.iter().enumerate() {
        assert_eq!(rows[i].indentation, *depth);
        assert_eq!(rows[i].key, s(k));
        assert_eq!(&rows[i].value, v);
        assert_eq!(rows[i].is_array_value, *arr);
    }
}

#[test]
fn scenario_insert_after_first_row() {
    let mut tree = scenario_tree();
    assert!(insert_after(0, "x", "5", &mut tree));
    match &tree {
        JsonValue::Object(fs) => {
            let keys: Vec<&str> = fs.iter().map(|(k, _)| k.as_str()).collect();
            assert_eq!(keys, vec!["a", "x", "b", "e"]);
            assert_eq!(fs[1].1, JsonValue::Num(s("5")));
        },
        _ => panic!("root is not an object"),
    }
}

#[test]
fn scenario_update_nested_value() {
    let mut tree = scenario_tree();
    assert!(update_at(2, "c", "100", &mut tree));
    match &tree {
        JsonValue::Object(fs) => {
            assert_eq!(fs[1].0, s("b"));
            match &fs[1].1 {
                JsonValue::Object(inner) => {
                    assert_eq!(inner[0], (s("c"), JsonValue::Num(s("100"))));
                    assert_eq!(inner[1], (s("d"), JsonValue::Num(s("3"))));
                },
                _ => panic!("b is not an object"),
            }
        },
        _ => panic!("root is not an object"),
    }
}

#[test]
fn scenario_empty_array_header() {
    let tree = JsonValue::Object(vec![key("arr", JsonValue::Array(vec![]))]);
    let (rows, total) = flatten(&tree);
    assert_eq!(total, 1);
    assert_eq!(rows[0].key, s("arr"));
    assert_eq!(rows[0].value, None);
    // The only row's parent is the root object, not the empty array: the
    // array's inside is reachable only once it has elements.
    assert!(!is_container_array(0, &tree));
    let (none_ref, idx) = get_nested_object_to_insert_into(1, &tree);
    assert!(none_ref.is_none());
    assert_eq!(idx, 0);

    let tree2 = JsonValue::Object(vec![key(
        "arr",
        JsonValue::Array(vec![JsonValue::Num(s("7"))]),
    )]);
    assert!(is_container_array(1, &tree2));
}

#[test]
fn resolve_row_matches_flattened_row() {
    let tree = scenario_tree();
    let (rows, total) = flatten(&tree);
    for row in 0..total {
        let (_pp, key_opt, val_opt, _idx) = get_current_value_at_position(row, &tree);
        let val = val_opt.expect("row must resolve");
        match &rows[row].value {
            Some(scalar) => assert_eq!(&val, scalar),
            None => assert!(matches!(val, JsonValue::Object(_) | JsonValue::Array(_))),
        }
        match key_opt {
            Some(k) => assert_eq!(k, rows[row].key),
            None => assert_eq!(rows[row].key, s("")),
        }
    }
    let (_pp, key_opt, val_opt, _idx) = get_current_value_at_position(total, &tree);
    assert!(val_opt.is_none());
    assert!(key_opt.is_none());
}
