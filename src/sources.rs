//! Where each source lives: file names under the configuration directory, in
//! the fixed order in which they are applied.
use vstd::prelude::*;

use crate::dotenv::EnvVars;
use crate::env_source::views_of;
use crate::environment::{parse_environment, spec_parse_environment, ConfigError, Environment};

verus! {

/// The variable that overrides the configuration directory.
pub const CONFIG_DIR_VAR: &'static str = "CONFIG_DIR";

/// The configuration directory when none is set.
pub const DEFAULT_CONFIG_DIR: &'static str = "./conf";

/// The variable that names the environment.
pub const ENV_VAR: &'static str = "ENV";

/// The variable that holds the key for encrypted sources.
pub const SECRET_KEY_VAR: &'static str = "SECRETS_ENCRYPTION_KEY";

/// A structured source: its path, and whether its bytes must be decrypted.
#[derive(Debug, Clone, PartialEq, Eq)]
pub struct SourceSpec {
    pub path: String,
    pub encrypted: bool,
}

/// `dir/file`.
pub open spec fn in_dir(dir: Seq<char>, file: Seq<char>) -> Seq<char> {
    dir + "/"@ + file
}

/// The dotenv files, first to last; an earlier file wins.
pub open spec fn dotenv_files(env: Environment) -> Seq<Seq<char>> {
    seq![".env"@, "local.env"@, env.spec_name() + ".env"@, "default.env"@]
}

/// The encrypted dotenv secrets file.
pub open spec fn secret_dotenv_file(env: Environment) -> Seq<char> {
    env.spec_name() + "-secrets.env.enc"@
}

/// The structured files, lowest precedence first, and whether each is
/// encrypted; encrypted ones only where a key is at hand.
pub open spec fn structured_files(env: Environment, with_secrets: bool) -> Seq<(Seq<char>, bool)> {
    let head = seq![
        ("default.yaml"@, false),
        (env.spec_name() + ".yaml"@, false),
        (env.spec_name() + "-secrets.yaml"@, false),
    ];
    let secrets = if with_secrets {
        seq![(env.spec_name() + "-secrets.yaml.enc"@, true), ("local-secrets.yaml.enc"@, true)]
    } else {
        Seq::empty()
    };
    head + secrets + seq![("local.yaml"@, false)]
}

pub open spec fn spec_views(v: Seq<SourceSpec>) -> Seq<(Seq<char>, bool)> {
    v.map_values(|s: SourceSpec| (s.path@, s.encrypted))
}

/// `dir/file`.
pub fn join(dir: &str, file: &str) -> (r: String)
    ensures
        r@ == in_dir(dir@, file@),
{
    let mut r = String::from_str(dir);
    r.append("/");
    r.append(file);
    r
}

/// `dir/<env><suffix>`.
fn env_file(dir: &str, env: Environment, suffix: &str) -> (r: String)
    ensures
        r@ == in_dir(dir@, env.spec_name() + suffix@),
{
    let mut name = String::from_str(env.name());
    name.append(suffix);
    join(dir, name.as_str())
}

/// The dotenv files under `dir`, first to last.
pub fn dotenv_paths(dir: &str, env: Environment) -> (r: Vec<String>)
    ensures
        views_of(r@) == dotenv_files(env).map_values(|f: Seq<char>| in_dir(dir@, f)),
{
    let mut r: Vec<String> = Vec::new();
    r.push(join(dir, ".env"));
    r.push(join(dir, "local.env"));
    r.push(env_file(dir, env, ".env"));
    r.push(join(dir, "default.env"));
    assert(views_of(r@) =~= dotenv_files(env).map_values(|f: Seq<char>| in_dir(dir@, f)));
    r
}

/// The encrypted dotenv secrets file under `dir`, where a key is at hand.
pub fn secret_dotenv_path(dir: &str, env: Environment, key_present: bool) -> (r: Option<String>)
    ensures
        match r {
            Some(p) => key_present && p@ == in_dir(dir@, secret_dotenv_file(env)),
            None => !key_present,
        },
{
    if key_present {
        Some(env_file(dir, env, "-secrets.env.enc"))
    } else {
        None
    }
}

/// The structured sources under `dir`, lowest precedence first. Without a
/// key no encrypted source is listed.
pub fn structured_chain(dir: &str, env: Environment, with_secrets: bool) -> (r: Vec<SourceSpec>)
    ensures
        spec_views(r@) == structured_files(env, with_secrets).map_values(
            |f: (Seq<char>, bool)| (in_dir(dir@, f.0), f.1),
        ),
        !with_secrets ==> forall|i: int| 0 <= i < r@.len() ==> !(#[trigger] r@[i]).encrypted,
{
    let mut r: Vec<SourceSpec> = Vec::new();
    r.push(SourceSpec { path: join(dir, "default.yaml"), encrypted: false });
    r.push(SourceSpec { path: env_file(dir, env, ".yaml"), encrypted: false });
    r.push(SourceSpec { path: env_file(dir, env, "-secrets.yaml"), encrypted: false });
    if with_secrets {
        r.push(SourceSpec { path: env_file(dir, env, "-secrets.yaml.enc"), encrypted: true });
        r.push(SourceSpec { path: join(dir, "local-secrets.yaml.enc"), encrypted: true });
    }
    r.push(SourceSpec { path: join(dir, "local.yaml"), encrypted: false });
    assert(spec_views(r@) =~= structured_files(env, with_secrets).map_values(
        |f: (Seq<char>, bool)| (in_dir(dir@, f.0), f.1),
    ));
    r
}

/// Where the configuration comes from: its directory and its environment.
pub struct Origin {
    pub dir: String,
    pub environment: Environment,
}

/// The directory that the variables select.
pub open spec fn spec_config_dir(vars: Map<Seq<char>, Seq<char>>) -> Seq<char> {
    if vars.contains_key(CONFIG_DIR_VAR@) {
        vars[CONFIG_DIR_VAR@]
    } else {
        DEFAULT_CONFIG_DIR@
    }
}

/// Reads the configuration directory and the environment from `vars`. The
/// directory defaults to `./conf`; the environment is parsed as by
/// `parse_environment`, so an unknown name is an error.
pub fn resolve_origin(vars: &EnvVars) -> (r: Result<Origin, ConfigError>)
    ensures
        match r {
            Ok(o) => o.dir@ == spec_config_dir(vars.view()) && Ok::<Environment, ConfigError>(o.environment)
                == spec_parse_environment(
                if vars.view().contains_key(ENV_VAR@) {
                    Some(vars.view()[ENV_VAR@])
                } else {
                    None
                },
            ),
            Err(e) => Err::<Environment, ConfigError>(e) == spec_parse_environment(
                if vars.view().contains_key(ENV_VAR@) {
                    Some(vars.view()[ENV_VAR@])
                } else {
                    None
                },
            ),
        },
{
    let dir = match vars.get(CONFIG_DIR_VAR) {
        Some(d) => d,
        None => String::from_str(DEFAULT_CONFIG_DIR),
    };
    let raw = vars.get(ENV_VAR);
    let parsed = match &raw {
        Some(s) => parse_environment(Some(s.as_str())),
        None => parse_environment(None),
    };
    match parsed {
        Ok(environment) => Ok(Origin { dir, environment }),
        Err(e) => Err(e),
    }
}

/// The key for encrypted sources, if `vars` holds one.
pub fn secret_key(vars: &EnvVars) -> (r: Option<String>)
    ensures
        match r {
            Some(k) => vars.view().contains_key(SECRET_KEY_VAR@) && k@ == vars.view()[SECRET_KEY_VAR@],
            None => !vars.view().contains_key(SECRET_KEY_VAR@),
        },
{
    vars.get(SECRET_KEY_VAR)
}

} // verus!
