// Tests of the remaining engine pieces: text substitution, document
// validation, the parameters argument string, and small string helpers.

use awsx::document::{ConfigFile, SecretsFile, check_secrets_reference};
use awsx::envmap::EnvMap;
use awsx::errors::{Error, ParseError};
use awsx::resolver::CommandRunner;
use awsx::stackutil::{get_parameter_values_from_config, parameters_to_cmd_string};
use awsx::store::Config;
use awsx::strutil::trim;
use awsx::substitute::substitute_env_vars;
use awsx::value::{Table, Value};

fn s(v: &str) -> Value {
    Value::Str(v.to_string())
}

fn table(entries: Vec<(&str, Value)>) -> Table {
    let mut t = Table::new();
    for (k, v) in entries {
        t.insert(k.to_string(), v);
    }
    t
}

struct StubRunner;

impl CommandRunner for StubRunner {
    fn run_expression(&self, expression: &str, _workdir: &str, _envs: &EnvMap) -> Result<
        String,
        String,
    > {
        Ok(format!("ran:{}", expression))
    }
}

#[test]
fn test() {
    let doc = table(vec![(
        "parameters",
        Value::Tab(table(vec![
            ("Test1", s("test_1")),
            ("Test2", s("test_2")),
            ("Test3", s("test_3")),
            ("Test4", s("test_4")),
            ("Test5", s("test_5")),
        ])),
    )]);
    let config = Config::from_documents(vec![("/fix/config.toml".to_string(), doc)]);
    let keys = vec![
        "Test1".to_string(),
        "Test2".to_string(),
        "Test3".to_string(),
        "Test4".to_string(),
        "Test5".to_string(),
    ];

    let actual = get_parameter_values_from_config(&keys, &config, &StubRunner).unwrap();

    assert_eq!(actual.get("Test1"), Some(&"test_1".to_string()));
    assert_eq!(actual.get("Test2"), Some(&"test_2".to_string()));
    assert_eq!(actual.get("Test3"), Some(&"test_3".to_string()));
    assert_eq!(actual.get("Test4"), Some(&"test_4".to_string()));
    assert_eq!(actual.get("Test5"), Some(&"test_5".to_string()));
    assert_eq!(actual.len(), 5);
}

#[test]
fn missing_template_parameter_is_reported() {
    let doc = table(vec![(
        "parameters",
        Value::Tab(table(vec![("Present", s("x"))])),
    )]);
    let config = Config::from_documents(vec![("/fix/config.toml".to_string(), doc)]);
    let keys = vec!["Present".to_string(), "Absent".to_string()];
    match get_parameter_values_from_config(&keys, &config, &StubRunner) {
        Err(Error::MissingParameter { key }) => assert_eq!(key, "Absent"),
        other => panic!("expected the missing-parameter error, got {:?}", other),
    }
}

#[test]
fn parameters_render_as_one_argument_string() {
    let mut m = EnvMap::new();
    m.insert("Alpha".to_string(), "1".to_string());
    m.insert("Beta".to_string(), "two".to_string());
    assert_eq!(
        parameters_to_cmd_string(&m),
        "--parameters ParameterKey=Alpha,ParameterValue=1 ParameterKey=Beta,ParameterValue=two",
    );
    assert_eq!(parameters_to_cmd_string(&EnvMap::new()), "--parameters");
}

#[test]
fn substitution_replaces_spans_with_env_values() {
    let mut envs = EnvMap::new();
    envs.insert("NAME".to_string(), "world".to_string());
    envs.insert("WHO".to_string(), "you".to_string());

    let out = substitute_env_vars("hello {{ NAME }}!", &envs).unwrap();
    assert_eq!(out, "hello world!");

    let out = substitute_env_vars("{{NAME}} and {{ $WHO }}", &envs).unwrap();
    assert_eq!(out, "world and you");

    let out = substitute_env_vars("no spans here", &envs).unwrap();
    assert_eq!(out, "no spans here");
}

#[test]
fn substitution_reports_unbound_names_and_unclosed_spans() {
    let envs = EnvMap::new();
    match substitute_env_vars("{{ MISSING }}", &envs) {
        Err(Error::EnvVarMissing { key }) => assert_eq!(key, "MISSING"),
        other => panic!("expected the missing-variable error, got {:?}", other),
    }
    assert!(matches!(
        substitute_env_vars("before {{ OPEN", &envs),
        Err(Error::Expression { .. })
    ));
}

#[test]
fn document_validation_checks_reserved_shapes() {
    let good = table(vec![
        ("parameters", Value::Tab(table(vec![("p", s("v"))]))),
        ("env", Value::Tab(table(vec![("E", s("w"))]))),
        ("secrets", s("secrets.enc")),
    ]);
    let cf = ConfigFile::from_root(good).unwrap();
    assert_eq!(cf.secrets_path, Some("secrets.enc".to_string()));
    assert_eq!(cf.get_parameter("p"), Some(&s("v")));
    assert_eq!(cf.get_env("E"), Some(&s("w")));
    assert_eq!(cf.get_parameter("absent"), None);
    assert!(cf.secrets().is_none());
    assert_eq!(cf.get_secret_parameter("p"), None);

    let bad_parameters = table(vec![("parameters", s("scalar"))]);
    assert!(matches!(
        ConfigFile::from_root(bad_parameters),
        Err(Error::Parse(ParseError::WrongType { .. }))
    ));

    let bad_secrets = table(vec![("secrets", Value::Int(3))]);
    assert!(matches!(
        ConfigFile::from_root(bad_secrets),
        Err(Error::Parse(ParseError::WrongType { .. }))
    ));
}

#[test]
fn secrets_documents_must_be_flat_strings_without_references() {
    let good = table(vec![
        ("parameters", Value::Tab(table(vec![("token", s("plain-secret-value"))]))),
        ("env", Value::Tab(table(vec![("KEY", s("v"))]))),
    ]);
    let sf = SecretsFile::from_root(good).unwrap();
    assert_eq!(sf.parameters().get("token"), Some(&s("plain-secret-value")));
    assert!(sf.secrets().is_none());

    let chained = table(vec![("secrets", s("more.enc"))]);
    assert!(matches!(
        SecretsFile::from_root(chained),
        Err(Error::Parse(ParseError::SecretReference))
    ));

    let nested = table(vec![(
        "parameters",
        Value::Tab(table(vec![("deep", Value::Tab(table(vec![("x", s("y"))])))])),
    )]);
    match SecretsFile::from_root(nested) {
        Err(Error::Parse(ParseError::SecretNotString { key })) => assert_eq!(key, "deep"),
        other => panic!("expected the non-string error, got {:?}", other),
    }

    assert!(matches!(
        check_secrets_reference("/p/config.toml", "/p/config.toml"),
        Err(Error::Parse(ParseError::SelfReference))
    ));
    assert!(check_secrets_reference("/p/config.toml", "/p/secrets.enc").is_ok());
}

#[test]
fn trimming_strips_surrounding_whitespace() {
    assert_eq!(trim("  spaced out \t\n"), "spaced out");
    assert_eq!(trim("exact"), "exact");
    assert_eq!(trim(" \t "), "");
}

#[test]
fn attach_secrets_surfaces_their_entries() {
    let root = table(vec![("secrets", s("side.enc"))]);
    let mut cf = ConfigFile::from_root(root).unwrap();
    let sf = SecretsFile::from_root(table(vec![(
        "env",
        Value::Tab(table(vec![("FROM_SECRET", s("v"))])),
    )]))
    .unwrap();
    cf.attach_secrets(sf);
    assert!(cf.secrets().is_some());
    assert_eq!(cf.get_secret_env("FROM_SECRET"), Some(&s("v")));
    assert_eq!(cf.get_secret_parameter("FROM_SECRET"), None);
}
