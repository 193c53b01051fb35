use zenoh_plugin_template::bridge_args::{
    assemble_config, parse_port, rest_port_value, write_at, AssemblyError, BridgeArgs, ConfigKey,
    MAX_PORT,
};
use zenoh_plugin_template::json::{JsonNumber, JsonValue};

fn obj(members: Vec<(&str, JsonValue)>) -> JsonValue {
    JsonValue::Object(members.into_iter().map(|(k, v)| (k.to_string(), v)).collect())
}

fn num(n: u64) -> JsonValue {
    JsonValue::Number(JsonNumber::PosInt(n))
}

fn text(s: &str) -> JsonValue {
    JsonValue::String(s.to_string())
}

fn args(session: JsonValue, port: Option<&str>) -> BridgeArgs {
    BridgeArgs {
        session_args: session,
        rest_http_port: port.map(|p| p.to_string()),
        ros_args: (),
    }
}

fn enabled() -> JsonValue {
    obj(vec![("enabled", JsonValue::Bool(true))])
}

fn count_members(doc: &JsonValue, path: &[&str], name: &str) -> usize {
    match doc.lookup(path) {
        Some(JsonValue::Object(members)) => members.iter().filter(|(k, _)| k == name).count(),
        _ => 0,
    }
}

#[test]
fn bare_port_number_becomes_a_json_number() {
    let doc = assemble_config(args(JsonValue::Null, Some("8080"))).unwrap();
    assert_eq!(doc.lookup(&["plugins", "rest", "http_port"]), Some(&num(8080)));
}

#[test]
fn ip_and_port_stay_a_string() {
    let doc = assemble_config(args(JsonValue::Null, Some("127.0.0.1:8080"))).unwrap();
    assert_eq!(
        doc.lookup(&["plugins", "rest", "http_port"]),
        Some(&text("127.0.0.1:8080"))
    );
}

#[test]
fn without_the_rest_argument_the_path_is_absent() {
    let doc = assemble_config(args(JsonValue::Null, None)).unwrap();
    assert_eq!(doc.lookup(&["plugins", "rest", "http_port"]), None);
    assert_eq!(doc.lookup(&["plugins", "rest"]), None);
}

#[test]
fn without_the_rest_argument_a_port_of_the_session_stays() {
    let session = obj(vec![("plugins", obj(vec![("rest", obj(vec![("http_port", num(9))]))]))]);
    let doc = assemble_config(args(session, None)).unwrap();
    assert_eq!(doc.lookup(&["plugins", "rest", "http_port"]), Some(&num(9)));
}

#[test]
fn the_rest_argument_replaces_a_port_of_the_session() {
    let session = obj(vec![(
        "plugins",
        obj(vec![("rest", obj(vec![("http_port", num(9)), ("other", text("kept"))]))]),
    )]);
    let doc = assemble_config(args(session, Some("[::1]:7000"))).unwrap();
    assert_eq!(
        doc.lookup(&["plugins", "rest"]),
        Some(&obj(vec![("http_port", text("[::1]:7000")), ("other", text("kept"))]))
    );
}

#[test]
fn assembled_from_nothing() {
    let doc = assemble_config(args(JsonValue::Null, None)).unwrap();
    assert_eq!(
        doc,
        obj(vec![
            ("plugins", obj(vec![("template", obj(vec![]))])),
            ("timestamping", enabled()),
            ("adminspace", enabled()),
            ("plugins_loading", enabled()),
        ])
    );
}

#[test]
fn assembled_with_a_port() {
    let doc = assemble_config(args(obj(vec![]), Some("8000"))).unwrap();
    assert_eq!(
        doc,
        obj(vec![
            (
                "plugins",
                obj(vec![
                    ("template", obj(vec![])),
                    ("rest", obj(vec![("http_port", num(8000))])),
                ])
            ),
            ("timestamping", enabled()),
            ("adminspace", enabled()),
            ("plugins_loading", enabled()),
        ])
    );
}

#[test]
fn plugin_section_is_added_when_absent() {
    let session = obj(vec![("plugins", obj(vec![("storage", obj(vec![]))]))]);
    let doc = assemble_config(args(session, None)).unwrap();
    assert_eq!(doc.lookup(&["plugins", "template"]), Some(&obj(vec![])));
    assert_eq!(doc.lookup(&["plugins", "storage"]), Some(&obj(vec![])));
    assert_eq!(count_members(&doc, &["plugins"], "template"), 1);
}

#[test]
fn plugin_section_of_the_session_is_kept() {
    let section = obj(vec![("work_thread_num", num(4))]);
    let session = obj(vec![("plugins", obj(vec![("template", section.clone())]))]);
    let doc = assemble_config(args(session, Some("8080"))).unwrap();
    assert_eq!(doc.lookup(&["plugins", "template"]), Some(&section));
    assert_eq!(count_members(&doc, &["plugins"], "template"), 1);
}

#[test]
fn plugin_section_that_is_null_counts_as_present() {
    let session = obj(vec![("plugins", obj(vec![("template", JsonValue::Null)]))]);
    let doc = assemble_config(args(session, None)).unwrap();
    assert_eq!(doc.lookup(&["plugins", "template"]), Some(&JsonValue::Null));
}

#[test]
fn assembly_is_idempotent() {
    let session = obj(vec![
        ("mode", text("client")),
        ("plugins", obj(vec![("storage", obj(vec![("k", num(1))]))])),
        ("adminspace", obj(vec![("enabled", JsonValue::Bool(false))])),
    ]);
    for port in [None, Some("8080"), Some("localhost:1")] {
        let once = assemble_config(args(session.clone(), port)).unwrap();
        let twice = assemble_config(args(once.clone(), port)).unwrap();
        assert_eq!(once, twice);
        assert_eq!(count_members(&twice, &["plugins"], "template"), 1);
    }
}

#[test]
fn assembly_from_the_same_arguments_gives_the_same_document() {
    let a = args(obj(vec![("mode", text("peer"))]), Some("8080"));
    assert_eq!(assemble_config(a.clone()), assemble_config(a));
}

#[test]
fn toggles_are_forced_on() {
    let off = obj(vec![("enabled", JsonValue::Bool(false))]);
    let session = obj(vec![
        ("timestamping", off.clone()),
        ("adminspace", off.clone()),
        ("plugins_loading", off),
    ]);
    let doc = assemble_config(args(session, None)).unwrap();
    assert_eq!(doc.lookup(&["timestamping", "enabled"]), Some(&JsonValue::Bool(true)));
    assert_eq!(doc.lookup(&["adminspace", "enabled"]), Some(&JsonValue::Bool(true)));
    assert_eq!(doc.lookup(&["plugins_loading", "enabled"]), Some(&JsonValue::Bool(true)));
}

#[test]
fn toggles_keep_their_neighbours() {
    let session = obj(vec![
        (
            "timestamping",
            obj(vec![("enabled", JsonValue::Null), ("drop_future_timestamp", JsonValue::Bool(false))]),
        ),
        ("plugins_loading", obj(vec![("search_dirs", JsonValue::Array(vec![text("/lib")]))])),
    ]);
    let doc = assemble_config(args(session, None)).unwrap();
    assert_eq!(
        doc.lookup(&["timestamping"]),
        Some(&obj(vec![
            ("enabled", JsonValue::Bool(true)),
            ("drop_future_timestamp", JsonValue::Bool(false)),
        ]))
    );
    assert_eq!(
        doc.lookup(&["plugins_loading"]),
        Some(&obj(vec![
            ("search_dirs", JsonValue::Array(vec![text("/lib")])),
            ("enabled", JsonValue::Bool(true)),
        ]))
    );
}

#[test]
fn session_parameters_are_copied_verbatim() {
    let connect = obj(vec![("endpoints", JsonValue::Array(vec![text("tcp/10.0.0.1:7447")]))]);
    let session = obj(vec![
        ("mode", text("client")),
        ("connect", connect.clone()),
        ("plugins", obj(vec![("storage", obj(vec![("volumes", num(2))]))])),
    ]);
    let doc = assemble_config(args(session, Some("8080"))).unwrap();
    assert_eq!(doc.lookup(&["mode"]), Some(&text("client")));
    assert_eq!(doc.lookup(&["connect"]), Some(&connect));
    assert_eq!(doc.lookup(&["plugins", "storage", "volumes"]), Some(&num(2)));
}

#[test]
fn into_config_leaves_the_toggles_alone() {
    let doc = args(JsonValue::Null, Some("8080")).into_config().unwrap();
    assert_eq!(
        doc,
        obj(vec![(
            "plugins",
            obj(vec![
                ("template", obj(vec![])),
                ("rest", obj(vec![("http_port", num(8080))])),
            ])
        )])
    );
}

#[test]
fn to_config_and_into_config_agree() {
    let a = args(obj(vec![("mode", text("peer"))]), Some("1.2.3.4:5"));
    let by_ref = a.to_config();
    assert_eq!(a.rest_http_port, Some("1.2.3.4:5".to_string()));
    assert_eq!(by_ref, a.into_config());
}

#[test]
fn clone_of_the_arguments() {
    let a = args(obj(vec![("mode", text("peer"))]), Some("80"));
    assert_eq!(a.clone(), a);
    let b = args(JsonValue::Null, None);
    assert_eq!(b.clone(), b);
}

#[test]
fn assembly_fails_where_plugins_is_a_scalar() {
    let session = obj(vec![("plugins", num(5))]);
    assert_eq!(
        assemble_config(args(session, None)),
        Err(AssemblyError { key: ConfigKey::PluginSection, depth: 1 })
    );
}

#[test]
fn assembly_fails_where_the_session_document_is_a_scalar() {
    assert_eq!(
        assemble_config(args(text("peer"), Some("8080"))),
        Err(AssemblyError { key: ConfigKey::PluginSection, depth: 0 })
    );
}

#[test]
fn assembly_fails_where_the_rest_section_is_a_scalar() {
    let session = obj(vec![("plugins", obj(vec![("rest", text("on"))]))]);
    assert_eq!(
        assemble_config(args(session.clone(), Some("8080"))),
        Err(AssemblyError { key: ConfigKey::RestHttpPort, depth: 2 })
    );
    assert!(assemble_config(args(session, None)).is_ok());
}

#[test]
fn assembly_fails_where_a_toggle_section_is_a_scalar() {
    let session = obj(vec![("timestamping", JsonValue::Bool(true))]);
    assert_eq!(
        assemble_config(args(session, None)),
        Err(AssemblyError { key: ConfigKey::Timestamping, depth: 1 })
    );
    let session = obj(vec![("adminspace", num(1))]);
    assert_eq!(
        assemble_config(args(session, None)),
        Err(AssemblyError { key: ConfigKey::AdminSpace, depth: 1 })
    );
    let session = obj(vec![("plugins_loading", JsonValue::Array(vec![]))]);
    assert_eq!(
        assemble_config(args(session, None)),
        Err(AssemblyError { key: ConfigKey::PluginsLoading, depth: 1 })
    );
}

#[test]
fn the_first_blocked_place_decides_the_error() {
    let session = obj(vec![("adminspace", num(1)), ("timestamping", num(1))]);
    assert_eq!(
        assemble_config(args(session, None)),
        Err(AssemblyError { key: ConfigKey::Timestamping, depth: 1 })
    );
}

#[test]
fn write_at_each_place() {
    let mut doc = JsonValue::Null;
    write_at(&mut doc, ConfigKey::PluginSection, num(1)).unwrap();
    write_at(&mut doc, ConfigKey::RestHttpPort, num(2)).unwrap();
    write_at(&mut doc, ConfigKey::Timestamping, num(3)).unwrap();
    write_at(&mut doc, ConfigKey::AdminSpace, num(4)).unwrap();
    write_at(&mut doc, ConfigKey::PluginsLoading, num(5)).unwrap();
    assert_eq!(
        doc,
        obj(vec![
            ("plugins", obj(vec![("template", num(1)), ("rest", obj(vec![("http_port", num(2))]))])),
            ("timestamping", obj(vec![("enabled", num(3))])),
            ("adminspace", obj(vec![("enabled", num(4))])),
            ("plugins_loading", obj(vec![("enabled", num(5))])),
        ])
    );
}

#[test]
fn write_at_a_blocked_place_changes_nothing() {
    let mut doc = obj(vec![("plugins", obj(vec![("template", num(1))]))]);
    let before = doc.clone();
    assert_eq!(
        write_at(&mut doc, ConfigKey::RestHttpPort, num(2)),
        Ok(())
    );
    let mut blocked = obj(vec![("plugins", obj(vec![("rest", num(1))]))]);
    let kept = blocked.clone();
    assert_eq!(
        write_at(&mut blocked, ConfigKey::RestHttpPort, num(2)),
        Err(AssemblyError { key: ConfigKey::RestHttpPort, depth: 2 })
    );
    assert_eq!(blocked, kept);
    assert_ne!(doc, before);
}

#[test]
fn port_numbers() {
    assert_eq!(MAX_PORT, 65535);
    assert_eq!(parse_port("8080"), Some(8080));
    assert_eq!(parse_port("0"), Some(0));
    assert_eq!(parse_port("7"), Some(7));
    assert_eq!(parse_port("65535"), Some(65535));
    assert_eq!(parse_port("0080"), Some(80));
    assert_eq!(parse_port("000000000000000000000000065535"), Some(65535));
}

#[test]
fn what_is_no_port_number() {
    assert_eq!(parse_port(""), None);
    assert_eq!(parse_port("65536"), None);
    assert_eq!(parse_port("99999"), None);
    assert_eq!(parse_port("4294967296"), None);
    assert_eq!(parse_port("18446744073709551616"), None);
    assert_eq!(parse_port("100000000000000000000000000000000000000"), None);
    assert_eq!(parse_port("+80"), None);
    assert_eq!(parse_port("-80"), None);
    assert_eq!(parse_port(" 80"), None);
    assert_eq!(parse_port("80 "), None);
    assert_eq!(parse_port("8o80"), None);
    assert_eq!(parse_port("80.0"), None);
    assert_eq!(parse_port("0x50"), None);
    assert_eq!(parse_port(":80"), None);
    assert_eq!(parse_port("127.0.0.1:8080"), None);
    assert_eq!(parse_port("\u{0668}\u{0660}"), None);
    assert_eq!(parse_port("\u{ff18}\u{ff10}"), None);
    assert_eq!(parse_port("80\u{e9}"), None);
}

#[test]
fn rest_port_values() {
    assert_eq!(rest_port_value("8080"), num(8080));
    assert_eq!(rest_port_value("0"), num(0));
    assert_eq!(rest_port_value("65535"), num(65535));
    assert_eq!(rest_port_value("65536"), text("65536"));
    assert_eq!(rest_port_value(""), text(""));
    assert_eq!(rest_port_value("localhost:80"), text("localhost:80"));
    assert_eq!(rest_port_value("[::]:8000"), text("[::]:8000"));
}
