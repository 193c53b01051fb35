use zenoh_plugin_template::json::{InsertionError, JsonNumber, JsonValue};

fn obj(members: Vec<(&str, JsonValue)>) -> JsonValue {
    JsonValue::Object(members.into_iter().map(|(k, v)| (k.to_string(), v)).collect())
}

fn num(n: u64) -> JsonValue {
    JsonValue::Number(JsonNumber::PosInt(n))
}

fn text(s: &str) -> JsonValue {
    JsonValue::String(s.to_string())
}

#[test]
fn empty_object_has_no_members() {
    assert_eq!(JsonValue::empty_object(), JsonValue::Object(vec![]));
}

#[test]
fn member_of_an_object() {
    let doc = obj(vec![("a", num(1)), ("b", num(2))]);
    assert_eq!(doc.member("a"), Some(&num(1)));
    assert_eq!(doc.member("b"), Some(&num(2)));
    assert_eq!(doc.member("c"), None);
    assert_eq!(doc.member(""), None);
}

#[test]
fn member_of_what_is_no_object() {
    assert_eq!(JsonValue::Null.member("a"), None);
    assert_eq!(num(1).member("a"), None);
    assert_eq!(text("a").member("a"), None);
    assert_eq!(JsonValue::Array(vec![num(1)]).member("0"), None);
}

#[test]
fn member_takes_the_first_of_a_name() {
    let doc = obj(vec![("a", num(1)), ("a", num(2))]);
    assert_eq!(doc.member("a"), Some(&num(1)));
}

#[test]
fn lookup_with_empty_path_is_the_value_itself() {
    let doc = obj(vec![("a", num(1))]);
    assert_eq!(doc.lookup(&[]), Some(&doc));
    assert_eq!(JsonValue::Null.lookup(&[]), Some(&JsonValue::Null));
}

#[test]
fn lookup_follows_nested_objects() {
    let doc = obj(vec![("a", obj(vec![("b", obj(vec![("c", text("deep"))]))]))]);
    assert_eq!(doc.lookup(&["a", "b", "c"]), Some(&text("deep")));
    assert_eq!(doc.lookup(&["a", "b"]), Some(&obj(vec![("c", text("deep"))])));
    assert_eq!(doc.lookup(&["a", "x"]), None);
    assert_eq!(doc.lookup(&["a", "b", "c", "d"]), None);
    assert_eq!(doc.lookup(&["b"]), None);
}

#[test]
fn lookup_does_not_split_names() {
    let doc = obj(vec![("a/b", num(1)), ("a", obj(vec![("b", num(2))]))]);
    assert_eq!(doc.lookup(&["a/b"]), Some(&num(1)));
    assert_eq!(doc.lookup(&["a", "b"]), Some(&num(2)));
}

#[test]
fn insert_with_empty_path_replaces_the_value() {
    let mut doc = obj(vec![("a", num(1))]);
    assert_eq!(doc.insert(&[], num(7)), Ok(()));
    assert_eq!(doc, num(7));
}

#[test]
fn insert_into_null_builds_the_objects() {
    let mut doc = JsonValue::Null;
    assert_eq!(doc.insert(&["a", "b"], num(1)), Ok(()));
    assert_eq!(doc, obj(vec![("a", obj(vec![("b", num(1))]))]));
}

#[test]
fn insert_appends_a_new_member() {
    let mut doc = obj(vec![("a", num(1))]);
    assert_eq!(doc.insert(&["b"], num(2)), Ok(()));
    assert_eq!(doc, obj(vec![("a", num(1)), ("b", num(2))]));
}

#[test]
fn insert_replaces_a_member_in_place() {
    let mut doc = obj(vec![("a", num(1)), ("b", num(2)), ("c", num(3))]);
    assert_eq!(doc.insert(&["b"], text("two")), Ok(()));
    assert_eq!(doc, obj(vec![("a", num(1)), ("b", text("two")), ("c", num(3))]));
}

#[test]
fn insert_keeps_the_other_members_of_nested_objects() {
    let mut doc = obj(vec![
        ("plugins", obj(vec![("storage", obj(vec![("x", num(1))]))])),
        ("mode", text("peer")),
    ]);
    assert_eq!(doc.insert(&["plugins", "rest", "http_port"], num(8000)), Ok(()));
    assert_eq!(
        doc,
        obj(vec![
            (
                "plugins",
                obj(vec![
                    ("storage", obj(vec![("x", num(1))])),
                    ("rest", obj(vec![("http_port", num(8000))])),
                ])
            ),
            ("mode", text("peer")),
        ])
    );
}

#[test]
fn insert_turns_a_null_member_into_an_object() {
    let mut doc = obj(vec![("plugins", JsonValue::Null)]);
    assert_eq!(doc.insert(&["plugins", "template"], JsonValue::empty_object()), Ok(()));
    assert_eq!(doc, obj(vec![("plugins", obj(vec![("template", obj(vec![]))]))]));
}

#[test]
fn insert_is_blocked_by_a_scalar_on_the_way() {
    let mut doc = obj(vec![("a", obj(vec![("b", num(5))]))]);
    let before = doc.clone();
    assert_eq!(doc.insert(&["a", "b", "c"], num(1)), Err(InsertionError { depth: 2 }));
    assert_eq!(doc, before);
    assert_eq!(doc.insert(&["a", "b", "c", "d"], num(1)), Err(InsertionError { depth: 2 }));
    assert_eq!(doc, before);
}

#[test]
fn insert_is_blocked_at_the_root() {
    let mut doc = text("scalar");
    assert_eq!(doc.insert(&["a"], num(1)), Err(InsertionError { depth: 0 }));
    assert_eq!(doc, text("scalar"));
    let mut list = JsonValue::Array(vec![]);
    assert_eq!(list.insert(&["a"], num(1)), Err(InsertionError { depth: 0 }));
    assert_eq!(list, JsonValue::Array(vec![]));
    let mut flag = JsonValue::Bool(false);
    assert_eq!(flag.insert(&["a", "b"], num(1)), Err(InsertionError { depth: 0 }));
}

#[test]
fn insert_may_overwrite_a_scalar_at_the_end_of_the_path() {
    let mut doc = obj(vec![("a", num(5))]);
    assert_eq!(doc.insert(&["a"], obj(vec![])), Ok(()));
    assert_eq!(doc, obj(vec![("a", obj(vec![]))]));
}

#[test]
fn what_is_inserted_is_looked_up() {
    let mut doc = obj(vec![("x", num(0))]);
    doc.insert(&["a", "b"], text("v")).unwrap();
    assert_eq!(doc.lookup(&["a", "b"]), Some(&text("v")));
    assert_eq!(doc.lookup(&["x"]), Some(&num(0)));
}

#[test]
fn inserting_twice_is_inserting_once() {
    let mut once = obj(vec![("x", num(0))]);
    once.insert(&["a", "b"], text("v")).unwrap();
    let mut twice = once.clone();
    twice.insert(&["a", "b"], text("v")).unwrap();
    assert_eq!(once, twice);
}

#[test]
fn insert_into_first_of_two_members_of_one_name() {
    let mut doc = obj(vec![("a", num(1)), ("a", num(2))]);
    doc.insert(&["a"], num(9)).unwrap();
    assert_eq!(doc, obj(vec![("a", num(9)), ("a", num(2))]));
}

#[test]
fn insert_option_with_a_value() {
    let mut doc = JsonValue::Null;
    assert_eq!(doc.insert_option(&["k"], Some(num(3))), Ok(()));
    assert_eq!(doc, obj(vec![("k", num(3))]));
}

#[test]
fn insert_option_without_a_value_changes_nothing() {
    let mut doc = obj(vec![("a", num(1))]);
    assert_eq!(doc.insert_option(&["k"], None), Ok(()));
    assert_eq!(doc, obj(vec![("a", num(1))]));
    let mut scalar = num(1);
    assert_eq!(scalar.insert_option(&["k"], None), Ok(()));
    assert_eq!(scalar, num(1));
}

#[test]
fn insert_option_reports_a_blocked_path() {
    let mut doc = num(1);
    assert_eq!(doc.insert_option(&["k"], Some(num(3))), Err(InsertionError { depth: 0 }));
    assert_eq!(doc, num(1));
}

#[test]
fn insert_list_with_items() {
    let mut doc = JsonValue::Null;
    assert_eq!(doc.insert_list(&["l"], vec![num(1), text("b")]), Ok(()));
    assert_eq!(doc, obj(vec![("l", JsonValue::Array(vec![num(1), text("b")]))]));
}

#[test]
fn insert_list_without_items_changes_nothing() {
    let mut doc = obj(vec![("l", num(1))]);
    assert_eq!(doc.insert_list(&["l"], vec![]), Ok(()));
    assert_eq!(doc, obj(vec![("l", num(1))]));
    let mut scalar = num(1);
    assert_eq!(scalar.insert_list(&["l"], vec![]), Ok(()));
}

#[test]
fn insert_list_reports_a_blocked_path() {
    let mut doc = obj(vec![("a", text("s"))]);
    assert_eq!(doc.insert_list(&["a", "l"], vec![num(1)]), Err(InsertionError { depth: 1 }));
    assert_eq!(doc, obj(vec![("a", text("s"))]));
}

#[test]
fn clone_copies_the_whole_tree() {
    let doc = obj(vec![
        ("n", JsonValue::Null),
        ("b", JsonValue::Bool(true)),
        ("i", JsonValue::Number(JsonNumber::NegInt(-3))),
        ("f", JsonValue::Number(JsonNumber::Float(1.5f64.to_bits()))),
        ("s", text("str")),
        ("a", JsonValue::Array(vec![num(1), obj(vec![("k", JsonValue::Array(vec![]))])])),
        ("o", obj(vec![("p", obj(vec![]))])),
    ]);
    let copy = doc.clone();
    assert_eq!(copy, doc);
    let mut changed = doc.clone();
    changed.insert(&["o", "p", "q"], num(1)).unwrap();
    assert_ne!(changed, doc);
}
