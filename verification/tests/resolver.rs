// Tests of the expression resolver: environment and parameter resolution,
// exposed parameters, deferred expressions, and the required-variable
// checks.

use awsx::envmap::EnvMap;
use awsx::errors::Error;
use awsx::resolver::{
    CommandRunner, ensure_env_var, ensure_env_var_or_default, get_envs_with_config_envs,
    strip_expression, value_looks_dynamic,
};
use awsx::store::Config;
use awsx::value::{Table, Value};

fn s(v: &str) -> Value {
    Value::Str(v.to_string())
}

fn table(entries: Vec<(&str, Value)>) -> Table {
    let mut t = Table::new();
    for (k, v) in entries {
        t.insert(k.to_string(), v);
    }
    t
}

/// A runner that never spawns anything: it hands the expression text back,
/// marked, so tests can see exactly what reached it.
struct StubRunner;

impl CommandRunner for StubRunner {
    fn run_expression(&self, expression: &str, _workdir: &str, _envs: &EnvMap) -> Result<
        String,
        String,
    > {
        if expression == "echo hello" {
            Ok("hello".to_string())
        } else {
            Ok(format!("ran:{}", expression))
        }
    }
}

/// A runner backed by a real shell, as the surrounding program wires in.
struct ShellRunner;

impl CommandRunner for ShellRunner {
    fn run_expression(&self, expression: &str, workdir: &str, envs: &EnvMap) -> Result<
        String,
        String,
    > {
        let mut exp = duct::cmd(
            "bash",
            vec!["-c".to_string(), expression.to_string()],
        );
        if !workdir.is_empty() {
            exp = exp.dir(workdir);
        }
        let mut i = 0;
        while i < envs.len() {
            let (k, v) = envs.entry_at(i);
            exp = exp.env(k, v);
            i += 1;
        }
        exp.read().map_err(|e| e.to_string())
    }
}

#[test]
fn expression_wrapper_is_stripped_and_trimmed() {
    assert_eq!(strip_expression("{{ echo hello }}"), Some("echo hello".to_string()));
    assert_eq!(strip_expression("{{echo hello}}"), Some("echo hello".to_string()));
    assert_eq!(strip_expression("plain"), None);
    assert_eq!(strip_expression("{{}}"), Some(String::new()));
    assert_eq!(strip_expression("{ not }"), None);
    assert!(value_looks_dynamic("$HOME"));
    assert!(value_looks_dynamic("{{ date }}"));
    assert!(!value_looks_dynamic("plain"));
}

#[test]
fn expression_parameter_resolves_through_the_shell() {
    let doc = table(vec![(
        "parameters",
        Value::Tab(table(vec![("greeting", s("{{ echo hello }}"))])),
    )]);
    let config = Config::from_documents(vec![("/tmp/config.toml".to_string(), doc)]);
    let params = config.get_parameters(None, &ShellRunner).unwrap();
    assert_eq!(params.get("greeting"), Some(&"hello".to_string()));
}

#[test]
fn nested_documents_merge_envs_with_the_inner_one_winning() {
    let outer = table(vec![(
        "env",
        Value::Tab(table(vec![
            ("AWS_PROFILE", s("default")),
            ("AWS_DEFAULT_REGION", s("eu-central-1")),
        ])),
    )]);
    let inner = table(vec![(
        "env",
        Value::Tab(table(vec![("AWS_PROFILE", s("edited"))])),
    )]);
    let config = Config::from_documents(vec![
        ("/p/inner/config.toml".to_string(), inner),
        ("/p/config.toml".to_string(), outer),
    ]);
    let envs = config.get_envs(&StubRunner).unwrap();
    assert_eq!(envs.get("AWS_PROFILE"), Some(&"edited".to_string()));
    assert_eq!(envs.get("AWS_DEFAULT_REGION"), Some(&"eu-central-1".to_string()));
    assert_eq!(envs.len(), 2);
}

#[test]
fn exposed_parameter_surfaces_under_the_prefixed_name() {
    let doc = table(vec![(
        "parameters",
        Value::Tab(table(vec![(
            "db_pass",
            Value::Tab(table(vec![("value", s("secret-x")), ("expose", Value::Bool(true))])),
        )])),
    )]);
    let config = Config::from_documents(vec![("/p/config.toml".to_string(), doc)]);
    let envs = config.get_envs(&StubRunner).unwrap();
    assert_eq!(envs.get("AWSX_PARAMETER_DB_PASS"), Some(&"secret-x".to_string()));
}

#[test]
fn unexposed_and_plain_parameters_surface_nothing() {
    let doc = table(vec![(
        "parameters",
        Value::Tab(table(vec![
            ("plain", s("v")),
            (
                "hidden",
                Value::Tab(table(vec![("value", s("h")), ("expose", Value::Bool(false))])),
            ),
        ])),
    )]);
    let config = Config::from_documents(vec![("/p/config.toml".to_string(), doc)]);
    let envs = config.get_envs(&StubRunner).unwrap();
    assert_eq!(envs.len(), 0);
}

#[test]
fn missing_required_env_key_fails_resolution() {
    let doc = table(vec![(
        "env",
        Value::Tab(table(vec![("AWS_DEFAULT_REGION", s("eu-central-1"))])),
    )]);
    let config = Config::from_documents(vec![("/p/config.toml".to_string(), doc)]);
    let process = EnvMap::new();
    let r = get_envs_with_config_envs(&config, &StubRunner, &process);
    match r {
        Err(Error::EnvVarMissing { key }) => assert_eq!(key, "AWS_PROFILE"),
        other => panic!("expected the missing-variable error, got {:?}", other),
    }
}

#[test]
fn full_environment_gets_pager_default_and_process_overrides() {
    let doc = table(vec![(
        "env",
        Value::Tab(table(vec![
            ("AWS_PROFILE", s("default")),
            ("AWS_DEFAULT_REGION", s("eu-central-1")),
            ("SHADOWED", s("from-config")),
        ])),
    )]);
    let config = Config::from_documents(vec![("/p/config.toml".to_string(), doc)]);
    let mut process = EnvMap::new();
    process.insert("SHADOWED".to_string(), "from-process".to_string());
    let all = get_envs_with_config_envs(&config, &StubRunner, &process).unwrap();
    assert_eq!(all.get("AWS_PROFILE"), Some(&"default".to_string()));
    assert_eq!(all.get("AWS_PAGER"), Some(&String::new()));
    assert_eq!(all.get("SHADOWED"), Some(&"from-process".to_string()));
}

#[test]
fn wrong_shape_for_a_reserved_key_is_fatal() {
    let doc = table(vec![("env", s("not-a-table"))]);
    let config = Config::from_documents(vec![("/p/config.toml".to_string(), doc)]);
    match config.get_envs(&StubRunner) {
        Err(Error::Parse(_)) => {},
        other => panic!("expected a schema error, got {:?}", other),
    }

    let doc2 = table(vec![(
        "parameters",
        Value::Tab(table(vec![("bad", Value::Int(3))])),
    )]);
    let config2 = Config::from_documents(vec![("/p/config.toml".to_string(), doc2)]);
    match config2.get_parameters(None, &StubRunner) {
        Err(Error::Parse(_)) => {},
        other => panic!("expected a schema error, got {:?}", other),
    }
}

#[test]
fn key_mask_restricts_the_parameters() {
    let doc = table(vec![(
        "parameters",
        Value::Tab(table(vec![("kept", s("a")), ("dropped", s("b"))])),
    )]);
    let config = Config::from_documents(vec![("/p/config.toml".to_string(), doc)]);
    let mask = vec!["kept".to_string()];
    let params = config.get_parameters(Some(&mask), &StubRunner).unwrap();
    assert_eq!(params.get("kept"), Some(&"a".to_string()));
    assert_eq!(params.get("dropped"), None);
    assert_eq!(params.len(), 1);
}

#[test]
fn ensure_env_var_reports_the_missing_key() {
    let mut envs = EnvMap::new();
    envs.insert("PRESENT".to_string(), "x".to_string());
    assert!(ensure_env_var(&envs, "PRESENT").is_ok());
    match ensure_env_var(&envs, "ABSENT") {
        Err(Error::EnvVarMissing { key }) => assert_eq!(key, "ABSENT"),
        other => panic!("expected the missing-variable error, got {:?}", other),
    }
    ensure_env_var_or_default(&mut envs, "ABSENT", "fallback");
    assert_eq!(envs.get("ABSENT"), Some(&"fallback".to_string()));
    ensure_env_var_or_default(&mut envs, "PRESENT", "ignored");
    assert_eq!(envs.get("PRESENT"), Some(&"x".to_string()));
}

#[test]
fn expression_env_entry_goes_through_the_runner() {
    let doc = table(vec![(
        "env",
        Value::Tab(table(vec![("DYN", s("{{ probe }}")), ("PLAIN", s("kept"))])),
    )]);
    let config = Config::from_documents(vec![("/p/config.toml".to_string(), doc)]);
    let envs = config.get_envs(&StubRunner).unwrap();
    assert_eq!(envs.get("PLAIN"), Some(&"kept".to_string()));
    assert_eq!(envs.get("DYN"), Some(&"ran:probe".to_string()));
}

#[test]
fn get_envs() {
    let outer = table(vec![(
        "env",
        Value::Tab(table(vec![
            ("AWS_PROFILE", s("default")),
            ("AWS_DEFAULT_REGION", s("eu-central-1")),
        ])),
    )]);
    let inner = table(vec![(
        "env",
        Value::Tab(table(vec![("AWS_PROFILE", s("edited"))])),
    )]);
    let config = Config::from_documents(vec![
        ("/proj/nested/sub/config.toml".to_string(), inner),
        ("/proj/nested/config.toml".to_string(), outer),
    ]);
    config.get_envs(&StubRunner).unwrap();
}

#[test]
fn can_run_cmd() {
    let mut config = Config::new();
    config.set_string("env.AWS_PROFILE", "default").unwrap();
    config.set_string("env.AWS_DEFAULT_REGION", "eu-central-1").unwrap();

    let env = get_envs_with_config_envs(&config, &ShellRunner, &EnvMap::new()).unwrap();
    let mut pairs: Vec<(String, String)> = Vec::new();
    let mut i = 0;
    while i < env.len() {
        let (k, v) = env.entry_at(i);
        pairs.push((k.clone(), v.clone()));
        i += 1;
    }
    duct::cmd("bash", vec!["-c".to_string(), "echo testing".to_string()])
        .full_env(pairs)
        .stdout_null()
        .run()
        .unwrap();
}

#[test]
fn can_run_cmd_with_output() {
    let mut config = Config::new();
    config.set_string("env.AWS_PROFILE", "default").unwrap();
    config.set_string("env.AWS_DEFAULT_REGION", "eu-central-1").unwrap();

    let env = get_envs_with_config_envs(&config, &ShellRunner, &EnvMap::new()).unwrap();
    assert_eq!(env.get("AWS_PROFILE"), Some(&"default".to_string()));

    let mut pairs: Vec<(String, String)> = Vec::new();
    let mut i = 0;
    while i < env.len() {
        let (k, v) = env.entry_at(i);
        pairs.push((k.clone(), v.clone()));
        i += 1;
    }
    let actual = duct::cmd("bash", vec!["-c".to_string(), "echo testing".to_string()])
        .full_env(pairs)
        .read()
        .unwrap();
    assert_eq!(actual, "testing");
}
