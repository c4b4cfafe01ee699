// Tests of the configuration store: dotted-key lookup, override-layer
// mutation, and document layering.

use awsx::store::Config;
use awsx::value::{Table, Value};
use awsx::errors::Error;

fn s(v: &str) -> Value {
    Value::Str(v.to_string())
}

fn table(entries: Vec<(&str, Value)>) -> Table {
    let mut t = Table::new();
    for (k, v) in entries {
        t.insert(k.to_string(), v);
    }
    t
}

/// The outer fixture document: the one at the project root.
fn outer_doc() -> Table {
    table(vec![
        (
            "envs",
            Value::Tab(table(vec![
                ("AWS_PROFILE", s("default")),
                ("AWS_DEFAULT_REGION", s("eu-central-1")),
            ])),
        ),
        ("var_a", s("abc")),
        ("var_b", s("def")),
        ("var_c", s("ghi")),
        (
            "sub",
            Value::Tab(table(vec![
                ("var_a", s("xyz")),
                ("a", Value::Tab(table(vec![("var_b", s("uvw"))]))),
                ("b", Value::Tab(table(vec![("var_c", s("rst"))]))),
            ])),
        ),
    ])
}

/// The inner fixture document: the one closer to the leaf.
fn inner_doc() -> Table {
    table(vec![
        ("envs", Value::Tab(table(vec![("AWS_PROFILE", s("edited"))]))),
        ("var_a", s("cba")),
        ("sub", Value::Tab(table(vec![("b", Value::Tab(table(vec![("var_c", s("sph"))])))]))),
    ])
}

fn outer_only() -> Config {
    Config::from_documents(vec![("/proj/nested/config.toml".to_string(), outer_doc())])
}

fn nested() -> Config {
    Config::from_documents(vec![
        ("/proj/nested/sub/config.toml".to_string(), inner_doc()),
        ("/proj/nested/config.toml".to_string(), outer_doc()),
    ])
}

fn unpack_str(v: Option<&Value>) -> Option<&str> {
    match v {
        Some(Value::Str(x)) => Some(x.as_str()),
        Some(_) => unreachable!(),
        None => None,
    }
}

#[test]
fn get_exact_config_values() {
    let config = outer_only();

    assert_eq!(config.get("non_existent"), None);

    let v = config.get("sub").unwrap();
    assert!(matches!(v, Value::Tab(_)));
    if let Value::Tab(t) = v {
        assert!(t.get("a").is_some());
        assert!(t.get("b").is_some());
        assert!(t.get("var_a").is_some());
    }

    let v = config.get("sub.a").unwrap();
    assert!(matches!(v, Value::Tab(_)));
    if let Value::Tab(t) = v {
        assert!(t.get("var_b").is_some());
    }

    let v = config.get("sub.a.var_b").unwrap();
    assert!(matches!(v, Value::Str(_)));
    assert_eq!(unpack_str(Some(v)), Some("uvw"));

    assert_eq!(config.get("var_a.b"), None);
}

#[test]
fn mody_config_values() {
    let mut config = outer_only();

    assert_eq!(config.get("non_existent"), None);

    config.set_string("var_a", "abcdef").unwrap();
    assert_eq!(config.get_string("var_a"), Some(&"abcdef".to_string()));

    config.set_string("sub.var_a", "xyzzyx").unwrap();
    assert_eq!(config.get_string("sub.var_a"), Some(&"xyzzyx".to_string()));

    config.set_string("sub.a.var_b", "xxx").unwrap();
    assert_eq!(config.get_string("sub.a.var_b"), Some(&"xxx".to_string()));
}

#[test]
fn load_outer_config() {
    let config = outer_only();

    assert_eq!(config.get("non_existent"), None);

    assert_eq!(unpack_str(config.get("envs.AWS_PROFILE")), Some("default"));
    assert_eq!(unpack_str(config.get("envs.AWS_DEFAULT_REGION")), Some("eu-central-1"));

    assert_eq!(unpack_str(config.get("var_a")), Some("abc"));
    assert_eq!(unpack_str(config.get("var_b")), Some("def"));
    assert_eq!(unpack_str(config.get("var_c")), Some("ghi"));

    assert_eq!(unpack_str(config.get("sub.var_a")), Some("xyz"));
    assert_eq!(unpack_str(config.get("sub.a.var_b")), Some("uvw"));
    assert_eq!(unpack_str(config.get("sub.b.var_c")), Some("rst"));

    assert!(matches!(config.get("sub"), Some(Value::Tab(_))));
    assert!(matches!(config.get("sub."), Some(Value::Tab(_))));
    assert!(matches!(config.get("sub.a"), Some(Value::Tab(_))));
    assert!(matches!(config.get("sub.b"), Some(Value::Tab(_))));
}

#[test]
fn load_inner_config() {
    let config = Config::from_documents(vec![(
        "/proj/nested/sub/config.toml".to_string(),
        inner_doc(),
    )]);

    assert_eq!(config.get("non_existent"), None);

    assert_eq!(unpack_str(config.get("envs.AWS_PROFILE")), Some("edited"));
    assert_eq!(unpack_str(config.get("var_a")), Some("cba"));
    assert_eq!(unpack_str(config.get("sub.b.var_c")), Some("sph"));

    assert!(matches!(config.get("sub"), Some(Value::Tab(_))));
    assert_eq!(config.get("sub.a"), None);
    assert!(matches!(config.get("sub.b"), Some(Value::Tab(_))));
}

#[test]
fn load_nested_configs() {
    let config = nested();

    assert_eq!(config.get("non_existent"), None);

    assert_eq!(unpack_str(config.get("envs.AWS_PROFILE")), Some("edited"));
    assert_eq!(unpack_str(config.get("envs.AWS_DEFAULT_REGION")), Some("eu-central-1"));

    assert_eq!(unpack_str(config.get("var_a")), Some("cba"));
    assert_eq!(unpack_str(config.get("var_b")), Some("def"));
    assert_eq!(unpack_str(config.get("var_c")), Some("ghi"));

    assert_eq!(unpack_str(config.get("sub.var_a")), Some("xyz"));
    assert_eq!(unpack_str(config.get("sub.a.var_b")), Some("uvw"));
    assert_eq!(unpack_str(config.get("sub.b.var_c")), Some("sph"));

    assert!(matches!(config.get("sub"), Some(Value::Tab(_))));
    assert!(matches!(config.get("sub."), Some(Value::Tab(_))));
    assert!(matches!(config.get("sub.a"), Some(Value::Tab(_))));
    assert!(matches!(config.get("sub.b"), Some(Value::Tab(_))));
}

#[test]
fn load_nested_configs_with_overrides() {
    let mut config = nested();

    config.set_string("var_b", "bbb").unwrap();
    config.set_string("dynamic", "testing").unwrap();
    config.set_string("dynamic", "test").unwrap();
    config.set_string("sub.a.var_b", "sub_a_bbb").unwrap();
    config.set_string("sub.c.var_a", "sub_c_aaa").unwrap();
    config.set_string("sub.a.var_c", "sub_a_ccc").unwrap();

    assert_eq!(config.get("non_existent"), None);

    assert_eq!(unpack_str(config.get("dynamic")), Some("test"));

    assert_eq!(unpack_str(config.get("envs.AWS_PROFILE")), Some("edited"));
    assert_eq!(unpack_str(config.get("envs.AWS_DEFAULT_REGION")), Some("eu-central-1"));

    assert_eq!(unpack_str(config.get("var_a")), Some("cba"));
    assert_eq!(unpack_str(config.get("var_b")), Some("bbb"));
    assert_eq!(unpack_str(config.get("var_c")), Some("ghi"));

    assert_eq!(unpack_str(config.get("sub.var_a")), Some("xyz"));
    assert_eq!(unpack_str(config.get("sub.a.var_b")), Some("sub_a_bbb"));
    assert_eq!(unpack_str(config.get("sub.a.var_c")), Some("sub_a_ccc"));
    assert_eq!(unpack_str(config.get("sub.b.var_c")), Some("sph"));
    assert_eq!(unpack_str(config.get("sub.c.var_a")), Some("sub_c_aaa"));
}

#[test]
fn set_then_get_returns_value_for_fresh_nested_keys() {
    let mut config = Config::new();
    config.set("alpha", Value::Int(7)).unwrap();
    assert_eq!(config.get("alpha"), Some(&Value::Int(7)));

    config.set("deep.nested.chain", s("leaf")).unwrap();
    assert_eq!(unpack_str(config.get("deep.nested.chain")), Some("leaf"));

    config.set("deep.nested.chain", s("replaced")).unwrap();
    assert_eq!(unpack_str(config.get("deep.nested.chain")), Some("replaced"));

    config.set_bool("flags.dry_run", true).unwrap();
    assert_eq!(config.get("flags.dry_run"), Some(&Value::Bool(true)));

    config.set_int("limits.max", 42).unwrap();
    assert_eq!(config.get("limits.max"), Some(&Value::Int(42)));
}

#[test]
fn set_through_scalar_is_a_lookup_violation() {
    let mut config = Config::new();
    config.set_string("a", "scalar").unwrap();
    let r = config.set_string("a.b", "deeper");
    assert!(matches!(r, Err(Error::LookupViolation { .. })));
    // The failed set left the store untouched.
    assert_eq!(config.get_string("a"), Some(&"scalar".to_string()));
    assert_eq!(config.get("a.b"), None);
}

#[test]
fn merged_tables_prefer_the_inner_document() {
    let inner = table(vec![(
        "env",
        Value::Tab(table(vec![("X", s("inner-x"))])),
    )]);
    let outer = table(vec![(
        "env",
        Value::Tab(table(vec![("X", s("outer-x")), ("Y", s("outer-y"))])),
    )]);
    let config = Config::from_documents(vec![
        ("/p/a/config.toml".to_string(), inner),
        ("/p/config.toml".to_string(), outer),
    ]);

    let merged = config.get_merged("env").unwrap();
    let x = merged.iter().find(|e| e.0 == "X").unwrap();
    assert_eq!(x.1, &s("inner-x"));
    assert_eq!(x.2.as_str(), "/p/a/config.toml");
    let y = merged.iter().find(|e| e.0 == "Y").unwrap();
    assert_eq!(y.1, &s("outer-y"));
    assert_eq!(y.2.as_str(), "/p/config.toml");
    assert_eq!(merged.len(), 2);
}

#[test]
fn merged_tables_reject_non_table_resolutions() {
    let doc = table(vec![("env", s("not-a-table"))]);
    let config = Config::from_documents(vec![("/p/config.toml".to_string(), doc)]);
    assert!(matches!(config.get_merged("env"), Err(Error::LookupViolation { .. })));
}

#[test]
fn sorted_filepaths_lists_override_first_then_innermost() {
    let config = nested();
    let paths = config.sorted_filepaths();
    assert_eq!(paths.len(), 3);
    assert_eq!(paths[0], "overrides");
    assert_eq!(paths[1], "/proj/nested/sub/config.toml");
    assert_eq!(paths[2], "/proj/nested/config.toml");
}

#[test]
fn table_insert_replaces_existing_keys() {
    let mut t = Table::new();
    t.insert("k".to_string(), s("one"));
    t.insert("k".to_string(), s("two"));
    t.insert("other".to_string(), s("three"));
    assert_eq!(t.len(), 2);
    assert_eq!(t.get("k"), Some(&s("two")));
    assert_eq!(t.get("other"), Some(&s("three")));
    assert_eq!(t.get("absent"), None);
    assert!(t.contains_key("k"));
    assert!(!t.contains_key("absent"));
}

#[test]
fn remaining_setters_store_their_shapes() {
    let mut config = Config::new();
    config.set_array("list", vec![s("one"), Value::Int(2)]).unwrap();
    match config.get("list") {
        Some(Value::Arr(items)) => assert_eq!(items.len(), 2),
        other => panic!("expected an array, got {:?}", other),
    }

    config.set_table("nested", table(vec![("k", s("v"))])).unwrap();
    assert_eq!(unpack_str(config.get("nested.k")), Some("v"));

    config.set_float("ratio", 0.5f64.to_bits()).unwrap();
    match config.get("ratio") {
        Some(Value::FloatBits(bits)) => assert_eq!(f64::from_bits(*bits), 0.5),
        other => panic!("expected float bits, got {:?}", other),
    }
}

#[test]
fn default_options_ask_for_nested_discovery() {
    let options = awsx::options::Options::default();
    assert_eq!(options.filename, "config.toml");
    assert!(options.nested);
    assert!(options.project_root.is_none());
}
