use imag::config::{
    config_candidates, into_value, split_pair, top_field, ConfigError, ConfigErrorKind,
    Configuration, InternalConfiguration,
};
use imag::header::{read, Node};

fn table(fields: Vec<(&str, Node)>) -> Node {
    Node::Table(fields.into_iter().map(|(k, v)| (k.to_string(), v)).collect())
}

fn text(s: &str) -> Node {
    Node::String(s.to_string())
}

fn sample() -> Node {
    table(vec![
        ("verbose", Node::Boolean(false)),
        ("editor", text("vim")),
        ("editor-opts", text("-n")),
        ("limit", Node::Integer(5)),
        ("ratio", Node::Float("0.5".to_string())),
        ("since", Node::Datetime("1979-05-27T07:32:00Z".parse().unwrap())),
        ("store", table(vec![("implicit-create", Node::Boolean(true))])),
        ("list", Node::Array(vec![Node::Integer(1)])),
    ])
}

fn pairs(p: &[&str]) -> Vec<String> {
    p.iter().map(|s| s.to_string()).collect()
}

#[test]
fn empty_override_changes_nothing() {
    let mut c = Configuration::with_value(sample());
    assert!(c.override_config(Vec::new()).is_ok());
    assert_eq!(c.config(), &sample());
}

#[test]
fn override_with_a_value_of_the_wrong_kind_names_the_key() {
    let mut c = Configuration::with_value(sample());
    let e = c.override_config(pairs(&["verbose=notabool"])).unwrap_err();
    assert_eq!(e.err_type(), ConfigErrorKind::ConfigOverrideError);
    assert_eq!(e.key.as_deref(), Some("verbose"));
    assert_eq!(
        e.cause().unwrap().err_type(),
        ConfigErrorKind::ConfigOverrideTypeNotMatching
    );
    assert_eq!(c.config(), &sample());
    assert_eq!(read(c.config(), "verbose").unwrap(), Some(&Node::Boolean(false)));
}

#[test]
fn override_of_a_missing_key_names_the_key() {
    let mut c = Configuration::with_value(sample());
    let e = c.override_config(pairs(&["store.nothing=1"])).unwrap_err();
    assert_eq!(e.key.as_deref(), Some("store.nothing"));
    assert_eq!(
        e.cause().unwrap().err_type(),
        ConfigErrorKind::ConfigOverrideKeyNotAvailable
    );
    assert_eq!(c.config(), &sample());
}

#[test]
fn override_through_a_scalar_is_a_lookup_failure() {
    let mut c = Configuration::with_value(sample());
    let e = c.override_config(pairs(&["limit.x=1"])).unwrap_err();
    assert_eq!(e.key.as_deref(), Some("limit.x"));
    assert_eq!(e.cause().unwrap().err_type(), ConfigErrorKind::TOMLParserError);
}

#[test]
fn override_replaces_values_of_every_scalar_kind() {
    let mut c = Configuration::with_value(sample());
    c.override_config(pairs(&[
        "verbose=true",
        "editor=emacs -nw",
        "limit=-12",
        "ratio=2.5e3",
        "since=2001-02-03",
        "store.implicit-create=false",
        "list.0=7",
    ]))
    .unwrap();
    let doc = c.config();
    assert_eq!(read(doc, "verbose").unwrap(), Some(&Node::Boolean(true)));
    assert_eq!(read(doc, "editor").unwrap(), Some(&text("emacs -nw")));
    assert_eq!(read(doc, "limit").unwrap(), Some(&Node::Integer(-12)));
    assert_eq!(read(doc, "ratio").unwrap(), Some(&Node::Float("2500".to_string())));
    assert_eq!(
        read(doc, "since").unwrap(),
        Some(&Node::Datetime("2001-02-03".parse().unwrap()))
    );
    assert_eq!(read(doc, "store.implicit-create").unwrap(), Some(&Node::Boolean(false)));
    assert_eq!(read(doc, "list.0").unwrap(), Some(&Node::Integer(7)));
    assert_eq!(read(doc, "editor-opts").unwrap(), Some(&text("-n")));
}

#[test]
fn override_stops_at_the_first_refusal() {
    let mut c = Configuration::with_value(sample());
    let e = c
        .override_config(pairs(&["limit=6", "verbose=maybe", "editor=never"]))
        .unwrap_err();
    assert_eq!(e.key.as_deref(), Some("verbose"));
    assert_eq!(read(c.config(), "limit").unwrap(), Some(&Node::Integer(6)));
    assert_eq!(read(c.config(), "verbose").unwrap(), Some(&Node::Boolean(false)));
    assert_eq!(read(c.config(), "editor").unwrap(), Some(&text("vim")));
}

#[test]
fn override_passes_over_a_pair_without_equals() {
    let mut c = Configuration::with_value(sample());
    c.override_config(pairs(&["verbose", "limit=9"])).unwrap();
    assert_eq!(read(c.config(), "limit").unwrap(), Some(&Node::Integer(9)));
}

#[test]
fn override_cuts_at_the_first_equals() {
    let mut c = Configuration::with_value(sample());
    c.override_config(pairs(&["editor=a=b", "editor-opts="])).unwrap();
    assert_eq!(read(c.config(), "editor").unwrap(), Some(&text("a=b")));
    assert_eq!(read(c.config(), "editor-opts").unwrap(), Some(&text("")));
}

#[test]
fn tables_and_arrays_are_never_overridden() {
    let mut c = Configuration::with_value(sample());
    let e = c.override_config(pairs(&["store=x"])).unwrap_err();
    assert_eq!(
        e.cause().unwrap().err_type(),
        ConfigErrorKind::ConfigOverrideTypeNotMatching
    );
    let e = c.override_config(pairs(&["list=1"])).unwrap_err();
    assert_eq!(
        e.cause().unwrap().err_type(),
        ConfigErrorKind::ConfigOverrideTypeNotMatching
    );
}

#[test]
fn settings_are_taken_when_the_configuration_is_made() {
    let mut c = Configuration::with_value(sample());
    assert!(!c.is_verbose());
    assert_eq!(c.editor(), Some(&"vim".to_string()));
    assert_eq!(c.editor_opts(), "-n");
    assert_eq!(
        c.store_config(),
        Some(&table(vec![("implicit-create", Node::Boolean(true))]))
    );
    c.override_config(pairs(&["verbose=true", "editor=ed"])).unwrap();
    assert!(!c.is_verbose());
    assert_eq!(c.editor(), Some(&"vim".to_string()));

    let c = Configuration::with_value(table(vec![
        ("verbose", Node::Boolean(true)),
        ("editor", Node::Integer(1)),
    ]));
    assert!(c.is_verbose());
    assert_eq!(c.editor(), None);
    assert_eq!(c.editor_opts(), "");
    assert_eq!(c.store_config(), None);

    let c = Configuration::with_value(Node::Integer(1));
    assert!(!c.is_verbose());
    assert_eq!(c.store_config(), None);
}

#[test]
fn into_value_reads_a_node_of_the_same_kind() {
    let s = |t: &str| t.to_string();
    assert_eq!(into_value(&text("old"), s("42")), Some(text("42")));
    assert_eq!(into_value(&Node::Integer(0), s("42")), Some(Node::Integer(42)));
    assert_eq!(into_value(&Node::Integer(0), s("+42")), Some(Node::Integer(42)));
    assert_eq!(into_value(&Node::Integer(0), s("4 2")), None);
    assert_eq!(into_value(&Node::Integer(0), s("")), None);
    assert_eq!(into_value(&Node::Boolean(true), s("false")), Some(Node::Boolean(false)));
    assert_eq!(into_value(&Node::Boolean(true), s("true")), Some(Node::Boolean(true)));
    assert_eq!(into_value(&Node::Boolean(true), s("True")), None);
    assert_eq!(into_value(&Node::Boolean(true), s("1")), None);
    assert_eq!(
        into_value(&Node::Float(s("0")), s("1.50")),
        Some(Node::Float(s("1.5")))
    );
    assert_eq!(into_value(&Node::Float(s("0")), s("one")), None);
    assert_eq!(
        into_value(&Node::Datetime("1979-05-27".parse().unwrap()), s("07:32:00")),
        Some(Node::Datetime("07:32:00".parse().unwrap()))
    );
    assert_eq!(
        into_value(&Node::Datetime("1979-05-27".parse().unwrap()), s("yesterday")),
        None
    );
    assert_eq!(into_value(&Node::Array(vec![]), s("1")), None);
    assert_eq!(into_value(&Node::Table(vec![]), s("1")), None);
}

#[test]
fn split_pair_cuts_at_the_first_equals() {
    assert_eq!(split_pair("a=b"), Some(("a".to_string(), "b".to_string())));
    assert_eq!(split_pair("a.b=c=d"), Some(("a.b".to_string(), "c=d".to_string())));
    assert_eq!(split_pair("="), Some((String::new(), String::new())));
    assert_eq!(split_pair("a="), Some(("a".to_string(), String::new())));
    assert_eq!(split_pair("ab"), None);
    assert_eq!(split_pair(""), None);
}

#[test]
fn top_field_looks_at_the_table_itself() {
    let doc = table(vec![("a.b", Node::Integer(1)), ("a", table(vec![("b", Node::Integer(2))]))]);
    assert_eq!(top_field(&doc, "a.b"), Some(&Node::Integer(1)));
    assert_eq!(top_field(&doc, "b"), None);
    assert_eq!(top_field(&Node::Integer(1), "a"), None);
}

#[test]
fn candidates_come_in_the_order_they_are_tried() {
    let c = config_candidates("/rt", Some("/home/me/"), None);
    assert_eq!(
        c,
        vec![
            "/rt",
            "/rt/config",
            "/rt/config.toml",
            "/rt/imagrc",
            "/rt/imagrc.toml",
            "/home/me/config",
            "/home/me/config.toml",
            "/home/me/imagrc",
            "/home/me/imagrc.toml",
        ]
    );
    let c = config_candidates("", None, Some("d"));
    assert_eq!(
        c,
        vec![
            "", "config", "config.toml", "imagrc", "imagrc.toml", "d/config", "d/config.toml",
            "d/imagrc", "d/imagrc.toml",
        ]
    );
    assert_eq!(config_candidates("x", Some("h"), Some("d")).len(), 13);
}

#[test]
fn the_first_text_that_is_a_document_is_the_configuration() {
    let contents = vec![
        "this is = = no document".to_string(),
        "verbose = true\neditor = \"ed\"\n".to_string(),
        "verbose = false\n".to_string(),
    ];
    let c = Configuration::new(&contents).unwrap();
    assert!(c.is_verbose());
    assert_eq!(c.editor(), Some(&"ed".to_string()));
    assert_eq!(read(c.config(), "editor").unwrap(), Some(&text("ed")));
}

#[test]
fn no_document_is_no_configuration() {
    let e = Configuration::new(&vec!["[broken".to_string()]).unwrap_err();
    assert_eq!(e.err_type(), ConfigErrorKind::NoConfigFileFound);
    let e = Configuration::new(&Vec::new()).unwrap_err();
    assert_eq!(e.err_type(), ConfigErrorKind::NoConfigFileFound);
    assert!(e.cause().is_none());
}

#[test]
fn error_kinds_say_what_they_are() {
    assert_eq!(ConfigErrorKind::TOMLParserError.description(), "TOML Parsing error");
    assert_eq!(ConfigErrorKind::NoConfigFileFound.description(), "No config file found");
    assert_eq!(ConfigErrorKind::ConfigOverrideError.description(), "Config override error");
    assert_eq!(
        ConfigErrorKind::ConfigOverrideKeyNotAvailable.description(),
        "Key not available"
    );
    assert_eq!(
        ConfigErrorKind::ConfigOverrideTypeNotMatching.description(),
        "Configuration Type not matching"
    );
}

#[test]
fn error_message_is_the_kind_in_brackets() {
    let inner = ConfigError::new(ConfigErrorKind::ConfigOverrideKeyNotAvailable, None);
    assert_eq!(inner.message(), "[Key not available]");
    let outer = ConfigError::new(ConfigErrorKind::ConfigOverrideError, Some(Box::new(inner)));
    assert_eq!(outer.message(), "[Config override error]");
    assert_eq!(outer.err_type(), ConfigErrorKind::ConfigOverrideError);
    assert_eq!(outer.cause().unwrap().message(), "[Key not available]");
}

struct Plain;

impl InternalConfiguration for Plain {}

#[test]
fn internal_configuration_defaults() {
    assert!(Plain.enable_logging());
    assert!(!Plain.use_inmemory_fs());
}
