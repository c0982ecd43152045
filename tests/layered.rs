use layered_config::{
    apply_dotenv, apply_dotenv_chain, merge_dotenv_chain, strip_bom, build_tree, dot_separators, dotenv_paths, env_key, env_layer,
    env_value, init, init_default, join, parse_environment, resolve_origin, secret_dotenv_path,
    secret_key, split_list, structured_chain, ConfigError, ConfigState, EnvVars, Environment,
    SourceSpec, Value,
};

fn s(x: &str) -> String {
    x.to_string()
}

fn text(x: &str) -> Value {
    Value::Text(s(x))
}

fn vars_of(pairs: &[(&str, &str)]) -> EnvVars {
    let mut v = EnvVars::new();
    for (k, val) in pairs {
        v.set(s(k), s(val));
    }
    v
}

#[test]
fn environment_names_ignore_case() {
    assert_eq!(parse_environment(Some("dev")), Ok(Environment::Dev));
    assert_eq!(parse_environment(Some("STAG")), Ok(Environment::Stag));
    assert_eq!(parse_environment(Some("Prod")), Ok(Environment::Prod));
}

#[test]
fn environment_defaults_to_dev() {
    assert_eq!(parse_environment(None), Ok(Environment::Dev));
    assert_eq!(parse_environment(Some("")), Ok(Environment::Dev));
}

#[test]
fn unknown_environment_is_fatal() {
    assert_eq!(parse_environment(Some("qa")), Err(ConfigError::UnknownEnvironment));
    assert_eq!(parse_environment(Some("devx")), Err(ConfigError::UnknownEnvironment));
    let vars = vars_of(&[("ENV", "qa")]);
    assert!(matches!(resolve_origin(&vars), Err(ConfigError::UnknownEnvironment)));
}

#[test]
fn origin_reads_dir_and_environment() {
    let vars = vars_of(&[("ENV", "PROD"), ("CONFIG_DIR", "/etc/app")]);
    let o = resolve_origin(&vars).unwrap();
    assert_eq!(o.dir, "/etc/app");
    assert_eq!(o.environment, Environment::Prod);
    let o = resolve_origin(&EnvVars::new()).unwrap();
    assert_eq!(o.dir, "./conf");
    assert_eq!(o.environment, Environment::Dev);
}

#[test]
fn environment_names() {
    assert_eq!(Environment::Dev.name(), "dev");
    assert_eq!(Environment::Stag.name(), "stag");
    assert_eq!(Environment::Prod.name(), "prod");
}

#[test]
fn dotenv_files_in_order() {
    assert_eq!(join("d", "f"), "d/f");
    assert_eq!(
        dotenv_paths("./conf", Environment::Stag),
        vec![s("./conf/.env"), s("./conf/local.env"), s("./conf/stag.env"), s("./conf/default.env")]
    );
}

#[test]
fn secret_dotenv_only_with_key() {
    assert_eq!(secret_dotenv_path("c", Environment::Prod, false), None);
    assert_eq!(secret_dotenv_path("c", Environment::Prod, true), Some(s("c/prod-secrets.env.enc")));
}

#[test]
fn no_key_lists_no_encrypted_source() {
    let chain = structured_chain("c", Environment::Dev, false);
    let plain = |p: &str| SourceSpec { path: s(p), encrypted: false };
    assert_eq!(
        chain,
        vec![plain("c/default.yaml"), plain("c/dev.yaml"), plain("c/dev-secrets.yaml"), plain("c/local.yaml")]
    );
    assert!(chain.iter().all(|c| !c.encrypted));
}

#[test]
fn key_lists_encrypted_sources_in_place() {
    let chain = structured_chain("c", Environment::Dev, true);
    let paths: Vec<(&str, bool)> = chain.iter().map(|c| (c.path.as_str(), c.encrypted)).collect();
    assert_eq!(
        paths,
        vec![
            ("c/default.yaml", false),
            ("c/dev.yaml", false),
            ("c/dev-secrets.yaml", false),
            ("c/dev-secrets.yaml.enc", true),
            ("c/local-secrets.yaml.enc", true),
            ("c/local.yaml", false),
        ]
    );
}

#[test]
fn secret_key_lookup() {
    assert_eq!(secret_key(&EnvVars::new()), None);
    let vars = vars_of(&[("SECRETS_ENCRYPTION_KEY", "k64")]);
    assert_eq!(secret_key(&vars), Some(s("k64")));
}

#[test]
fn preset_variable_never_overridden() {
    let mut vars = vars_of(&[("DB", "preset")]);
    let files = vec![
        Some(b"DB=one\nA=1\n".to_vec()),
        None,
        Some(b"DB=two\nA=2\nB=3\n".to_vec()),
    ];
    assert_eq!(apply_dotenv_chain(&mut vars, &files), Ok(()));
    assert_eq!(vars.get("DB"), Some(s("preset")));
    assert_eq!(vars.get("A"), Some(s("1")));
    assert_eq!(vars.get("B"), Some(s("3")));
}

#[test]
fn absent_dotenv_changes_nothing() {
    let mut vars = vars_of(&[("X", "1")]);
    assert_eq!(apply_dotenv(&mut vars, &None), Ok(()));
    assert_eq!(vars.get("X"), Some(s("1")));
    assert_eq!(vars.as_pairs().len(), 1);
}

#[test]
fn malformed_dotenv_is_an_error() {
    let mut vars = EnvVars::new();
    assert_eq!(apply_dotenv(&mut vars, &Some(b"<><><>".to_vec())), Err(ConfigError::MalformedSource));
    assert_eq!(vars.as_pairs().len(), 0);
}

#[test]
fn set_if_absent_keeps_first() {
    let mut vars = EnvVars::new();
    vars.set_if_absent(s("K"), s("a"));
    vars.set_if_absent(s("K"), s("b"));
    assert_eq!(vars.get("K"), Some(s("a")));
    vars.set(s("K"), s("c"));
    assert_eq!(vars.get("K"), Some(s("c")));
}

#[test]
fn separators_become_dots() {
    assert_eq!(dot_separators("db__host"), "db.host");
    assert_eq!(dot_separators("a___b"), "a._b");
    assert_eq!(dot_separators("plain_name"), "plain_name");
}

#[test]
fn env_key_strips_prefix() {
    assert_eq!(env_key("app__db__host", Some("app__")), Some(s("db.host")));
    assert_eq!(env_key("other__x", Some("app__")), None);
    assert_eq!(env_key("app__", Some("app__")), None);
    assert_eq!(env_key("path", None), Some(s("path")));
}

#[test]
fn list_split_edges() {
    assert_eq!(split_list("a,b,c"), vec![s("a"), s("b"), s("c")]);
    assert_eq!(split_list(""), vec![s("")]);
    assert_eq!(split_list("a,,b"), vec![s("a"), s(""), s("b")]);
    assert_eq!(split_list("x,"), vec![s("x"), s("")]);
}

#[test]
fn list_key_decodes_as_sequence() {
    let keys = vec![s("hosts")];
    assert_eq!(env_value("hosts", "a,b,c", &keys), Value::List(vec![s("a"), s("b"), s("c")]));
    assert_eq!(env_value("names", "a,b,c", &keys), text("a,b,c"));
}

#[test]
fn env_layer_maps_names_to_keys() {
    let vars = vars_of(&[("APP__DB__Host", "h"), ("APP__HOSTS", "a,b,c"), ("APP__NAME", "a,b,c"), ("HOME", "/root")]);
    let layer = env_layer(&vars, Some("App"), &vec![s("hosts")]);
    assert_eq!(
        layer,
        vec![
            (s("db.host"), text("h")),
            (s("hosts"), Value::List(vec![s("a"), s("b"), s("c")])),
            (s("name"), text("a,b,c")),
        ]
    );
    let all = env_layer(&vars, None, &vec![]);
    assert_eq!(all.len(), 4);
    assert_eq!(all[0], (s("app.db.host"), text("h")));
    assert_eq!(all[3], (s("home"), text("/root")));
}

fn layer(pairs: &[(&str, Value)]) -> Option<Vec<(String, Value)>> {
    Some(pairs.iter().map(|(k, v)| (s(k), v.clone())).collect())
}

#[test]
fn later_source_overrides() {
    let tree = build_tree(vec![
        layer(&[("port", Value::Int(1)), ("name", text("default"))]),
        layer(&[("port", Value::Int(2))]),
        None,
    ]);
    assert_eq!(tree.get("port"), Some(&Value::Int(2)));
    assert_eq!(tree.get("name"), Some(&text("default")));
    assert_eq!(tree.get("missing"), None);
}

#[test]
fn removing_local_falls_back_to_default() {
    let default = layer(&[("debug", Value::Bool(false))]);
    let local = layer(&[("debug", Value::Bool(true))]);
    let with_local = build_tree(vec![default.clone(), None, local]);
    assert_eq!(with_local.get("debug"), Some(&Value::Bool(true)));
    let without = build_tree(vec![default, None, None]);
    assert_eq!(without.get("debug"), Some(&Value::Bool(false)));
}

#[test]
fn loader_before_init_is_error() {
    let state = ConfigState::new();
    assert!(!state.is_initialized());
    assert!(matches!(state.tree(), Err(ConfigError::NotInitialized)));
}

#[test]
fn init_builds_once() {
    let mut state = ConfigState::new();
    let vars = vars_of(&[("SVC__PORT", "9"), ("SVC__TAGS", "x,y")]);
    init(
        &mut state,
        Some(s("SVC")),
        vec![s("tags")],
        &vars,
        vec![layer(&[("port", Value::Int(1)), ("host", text("h"))])],
    );
    let tree = state.tree().unwrap();
    assert_eq!(tree.get("port"), Some(&text("9")));
    assert_eq!(tree.get("host"), Some(&text("h")));
    assert_eq!(tree.get("tags"), Some(&Value::List(vec![s("x"), s("y")])));
    init_default(&mut state, &EnvVars::new(), vec![layer(&[("host", text("other"))])]);
    assert_eq!(state.tree().unwrap().get("host"), Some(&text("h")));
}

#[test]
fn init_without_key_succeeds() {
    let mut state = ConfigState::new();
    init_default(&mut state, &EnvVars::new(), vec![None, None, None, None]);
    assert!(state.is_initialized());
    assert_eq!(state.tree().unwrap().entries().len(), 0);
}

#[test]
fn byte_order_mark_is_dropped() {
    assert_eq!(strip_bom(b"\xEF\xBB\xBFA=1"), b"A=1");
    assert_eq!(strip_bom(b"A=1"), b"A=1");
    assert_eq!(strip_bom(b"\xEF\xBB"), b"\xEF\xBB");
    let mut vars = EnvVars::new();
    assert_eq!(apply_dotenv(&mut vars, &Some(b"\xEF\xBB\xBFA=1\n".to_vec())), Ok(()));
    assert_eq!(vars.get("A"), Some(s("1")));
}

#[test]
fn earlier_dotenv_source_wins() {
    let mut vars = vars_of(&[("P", "pre")]);
    let parsed = vec![
        vec![(s("A"), s("local")), (s("P"), s("x"))],
        vec![(s("A"), s("env")), (s("B"), s("env"))],
        vec![(s("B"), s("default")), (s("C"), s("default"))],
    ];
    merge_dotenv_chain(&mut vars, &parsed);
    assert_eq!(vars.get("P"), Some(s("pre")));
    assert_eq!(vars.get("A"), Some(s("local")));
    assert_eq!(vars.get("B"), Some(s("env")));
    assert_eq!(vars.get("C"), Some(s("default")));
}

#[test]
fn malformed_source_in_chain_changes_nothing() {
    let mut vars = vars_of(&[("X", "1")]);
    let files = vec![Some(b"A=1\n".to_vec()), Some(b"<><><>".to_vec())];
    assert_eq!(apply_dotenv_chain(&mut vars, &files), Err(ConfigError::MalformedSource));
    assert_eq!(vars.get("A"), None);
    assert_eq!(vars.get("X"), Some(s("1")));
}

#[test]
fn dotenv_variable_reaches_tree_over_files() {
    let mut vars = vars_of(&[("A__C", "preset")]);
    let files = vec![Some(b"A__B=v1\nA__C=file\n".to_vec())];
    assert_eq!(apply_dotenv_chain(&mut vars, &files), Ok(()));
    let mut state = ConfigState::new();
    init_default(&mut state, &vars, vec![layer(&[("a.b", text("v0")), ("a.c", text("z"))])]);
    let tree = state.tree().unwrap();
    assert_eq!(tree.get("a.b"), Some(&text("v1")));
    assert_eq!(tree.get("a.c"), Some(&text("preset")));
}
