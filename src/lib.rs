//! Layered configuration: environment selection, source naming, dotenv
//! folding, key-by-key structured merging and a write-once config handle.
pub mod dotenv;
pub mod entries;
pub mod env_source;
pub mod environment;
pub mod handle;
pub mod sources;
pub mod tree;

pub use dotenv::{apply_dotenv, apply_dotenv_chain, merge_dotenv_chain, strip_bom, EnvVars};
pub use env_source::{dot_separators, env_key, env_layer, env_value, split_list};
pub use environment::{parse_environment, ConfigError, Environment};
pub use handle::{init, init_default, ConfigState};
pub use sources::{
    dotenv_paths, join, resolve_origin, secret_dotenv_path, secret_key, structured_chain, Origin,
    SourceSpec,
};
pub use tree::{build_tree, ConfigTree, Value};
