//! The write-once configuration handle: built once at startup from the
//! located sources and the environment, then only read.
use vstd::prelude::*;

use crate::dotenv::EnvVars;
use crate::env_source::{entry_views, env_layer, spec_env_layer, spec_pattern, views_of};
use crate::environment::ConfigError;
use crate::tree::{build_tree, layer_view, merged, ConfigTree, Value, ValueModel};

verus! {

/// The map that a list of key/value models denotes, later entries winning.
pub open spec fn model_map(s: Seq<(Seq<char>, ValueModel)>) -> Map<Seq<char>, ValueModel>
    decreases s.len(),
{
    if s.len() == 0 {
        Map::empty()
    } else {
        model_map(s.drop_last()).insert(s.last().0, s.last().1)
    }
}

proof fn lemma_layer_view_models(s: Seq<(String, Value)>)
    ensures
        layer_view(s) == model_map(entry_views(s)),
    decreases s.len(),
{
    if s.len() > 0 {
        lemma_layer_view_models(s.drop_last());
        assert(entry_views(s).drop_last() =~= entry_views(s.drop_last()));
        assert(layer_view(s) =~= model_map(entry_views(s)));
    }
}

/// The tree that the sources and the variables give: the sources merged in
/// order, then the entries drawn from the variables over them.
pub open spec fn built(
    sources: Seq<Option<Vec<(String, Value)>>>,
    vars: Seq<(Seq<char>, Seq<char>)>,
    prefix: Option<Seq<char>>,
    list_keys: Seq<Seq<char>>,
) -> Map<Seq<char>, ValueModel> {
    merged(sources).union_prefer_right(model_map(spec_env_layer(vars, spec_pattern(prefix), list_keys)))
}

/// A key that the environment variables bind takes their value, over every
/// file source.
pub proof fn lemma_variables_over_files(
    sources: Seq<Option<Vec<(String, Value)>>>,
    vars: Seq<(Seq<char>, Seq<char>)>,
    prefix: Option<Seq<char>>,
    list_keys: Seq<Seq<char>>,
    k: Seq<char>,
)
    requires
        model_map(spec_env_layer(vars, spec_pattern(prefix), list_keys)).contains_key(k),
    ensures
        built(sources, vars, prefix, list_keys).contains_key(k),
        built(sources, vars, prefix, list_keys)[k] == model_map(
            spec_env_layer(vars, spec_pattern(prefix), list_keys),
        )[k],
{
}

/// The configuration of the process: not built yet, or built and fixed.
pub struct ConfigState {
    tree: Option<ConfigTree>,
}

impl ConfigState {
    /// The built tree, if any.
    pub closed spec fn view(&self) -> Option<Map<Seq<char>, ValueModel>> {
        match self.tree {
            Some(t) => Some(t.view()),
            None => None,
        }
    }

    pub fn new() -> (r: ConfigState)
        ensures
            r.view() is None,
    {
        ConfigState { tree: None }
    }

    pub fn is_initialized(&self) -> (r: bool)
        ensures
            r == self.view() is Some,
    {
        self.tree.is_some()
    }

    /// The built tree; reading it before it is built is an error.
    pub fn tree(&self) -> (r: Result<&ConfigTree, ConfigError>)
        ensures
            match r {
                Ok(t) => self.view() == Some(t.view()),
                Err(e) => self.view() is None && e == ConfigError::NotInitialized,
            },
    {
        match &self.tree {
            Some(t) => Ok(t),
            None => Err(ConfigError::NotInitialized),
        }
    }
}

/// Builds the configuration once. The first call merges `sources`, lowest
/// precedence first (absent ones skipped), and puts over them the entries
/// that `vars` give under `prefix`, with the keys in `list_parse_keys` read
/// as comma-separated lists. Any later call leaves the built tree as it is.
pub fn init(
    state: &mut ConfigState,
    prefix: Option<String>,
    list_parse_keys: Vec<String>,
    vars: &EnvVars,
    sources: Vec<Option<Vec<(String, Value)>>>,
)
    ensures
        old(state).view() is Some ==> final(state).view() == old(state).view(),
        old(state).view() is None ==> final(state).view() == Some(
            built(
                sources@,
                vars.pairs(),
                match prefix {
                    Some(p) => Some(p@),
                    None => None,
                },
                views_of(list_parse_keys@),
            ),
        ),
{
    if state.tree.is_some() {
        return;
    }
    let prefix_ref: Option<&str> = match &prefix {
        Some(p) => Some(p.as_str()),
        None => None,
    };
    let layer = env_layer(vars, prefix_ref, &list_parse_keys);
    let ghost layer_seq = layer@;
    let mut tree = build_tree(sources);
    tree.override_with(layer);
    proof {
        lemma_layer_view_models(layer_seq);
    }
    state.tree = Some(tree);
}

/// Builds the configuration once, with no prefix and no list keys.
pub fn init_default(state: &mut ConfigState, vars: &EnvVars, sources: Vec<Option<Vec<(String, Value)>>>)
    ensures
        old(state).view() is Some ==> final(state).view() == old(state).view(),
        old(state).view() is None ==> final(state).view() == Some(
            built(sources@, vars.pairs(), None, Seq::empty()),
        ),
{
    let keys: Vec<String> = Vec::new();
    proof {
        assert(views_of(keys@) =~= Seq::<Seq<char>>::empty());
    }
    init(state, None, keys, vars, sources);
}

} // verus!
