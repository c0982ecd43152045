//! The merged configuration tree: flat dotted keys to weakly typed values,
//! built from sources in precedence order, later sources overriding earlier
//! ones key by key.
use vstd::prelude::*;

use crate::entries::{entries_map, find_last};

verus! {

/// A configuration value.
#[derive(Debug, Clone, PartialEq)]
pub enum Value {
    Text(String),
    Int(i64),
    Bool(bool),
    List(Vec<String>),
}

/// The mathematical content of a `Value`.
pub enum ValueModel {
    Text(Seq<char>),
    Int(i64),
    Bool(bool),
    List(Seq<Seq<char>>),
}

impl View for Value {
    type V = ValueModel;

    open spec fn view(&self) -> ValueModel {
        match self {
            Value::Text(s) => ValueModel::Text(s@),
            Value::Int(i) => ValueModel::Int(*i),
            Value::Bool(b) => ValueModel::Bool(*b),
            Value::List(v) => ValueModel::List(v@.map_values(|s: String| s@)),
        }
    }
}

/// The map that one source's entries denote, later entries winning.
pub open spec fn layer_view(layer: Seq<(String, Value)>) -> Map<Seq<char>, ValueModel> {
    entries_map(layer).map_values(|v: Value| v@)
}

/// The merge of optional sources in precedence order: each present source
/// overrides, key by key, what the sources before it gave; absent ones are
/// skipped.
pub open spec fn merged(layers: Seq<Option<Vec<(String, Value)>>>) -> Map<Seq<char>, ValueModel>
    decreases layers.len(),
{
    if layers.len() == 0 {
        Map::empty()
    } else {
        let rest = merged(layers.drop_last());
        match layers.last() {
            Some(l) => rest.union_prefer_right(layer_view(l@)),
            None => rest,
        }
    }
}

/// Source `i` is present and binds `k`.
pub open spec fn defines(layers: Seq<Option<Vec<(String, Value)>>>, i: int, k: Seq<char>) -> bool {
    match layers[i] {
        Some(l) => layer_view(l@).contains_key(k),
        None => false,
    }
}

/// What source `i` binds `k` to.
pub open spec fn value_in(layers: Seq<Option<Vec<(String, Value)>>>, i: int, k: Seq<char>) -> ValueModel {
    layer_view(layers[i]->Some_0@)[k]
}

/// Entries appended after a list shadow it key by key.
proof fn lemma_entries_map_concat<V>(a: Seq<(String, V)>, b: Seq<(String, V)>)
    ensures
        entries_map(a + b) == entries_map(a).union_prefer_right(entries_map(b)),
    decreases b.len(),
{
    if b.len() == 0 {
        assert(a + b =~= a);
        assert(entries_map(a).union_prefer_right(entries_map(b)) =~= entries_map(a));
    } else {
        lemma_entries_map_concat(a, b.drop_last());
        assert((a + b).drop_last() =~= a + b.drop_last());
        assert(entries_map(a + b) =~= entries_map(a).union_prefer_right(entries_map(b)));
    }
}

/// The key of the last source that binds it decides its value.
pub proof fn lemma_last_definer_decides(layers: Seq<Option<Vec<(String, Value)>>>, j: int, k: Seq<char>)
    requires
        0 <= j < layers.len(),
        defines(layers, j, k),
        forall|i: int| j < i < layers.len() ==> !defines(layers, i, k),
    ensures
        merged(layers).contains_key(k),
        merged(layers)[k] == value_in(layers, j, k),
    decreases layers.len(),
{
    if j < layers.len() - 1 {
        assert forall|i: int| j < i < layers.drop_last().len() implies !defines(layers.drop_last(), i, k) by {
            assert(layers.drop_last()[i] == layers[i]);
            assert(!defines(layers, i, k));
        }
        assert(layers.drop_last()[j] == layers[j]);
        lemma_last_definer_decides(layers.drop_last(), j, k);
        assert(!defines(layers, layers.len() - 1, k));
    }
}

/// Of two adjacent sources that both bind a key which no later source binds,
/// the later one's value is the merged value.
pub proof fn lemma_adjacent_later_wins(layers: Seq<Option<Vec<(String, Value)>>>, i: int, k: Seq<char>)
    requires
        0 <= i,
        i + 1 < layers.len(),
        defines(layers, i, k),
        defines(layers, i + 1, k),
        forall|j: int| i + 1 < j < layers.len() ==> !defines(layers, j, k),
    ensures
        merged(layers).contains_key(k),
        merged(layers)[k] == value_in(layers, i + 1, k),
{
    lemma_last_definer_decides(layers, i + 1, k);
}

/// Removing an overriding source makes a key fall back to the first source's
/// value, where no other source binds it; while present, the overriding
/// source's value is the merged one.
pub proof fn lemma_override_removal(layers: Seq<Option<Vec<(String, Value)>>>, over: int, k: Seq<char>)
    requires
        0 < over < layers.len(),
        defines(layers, 0, k),
        forall|j: int| 0 < j < layers.len() && j != over ==> !defines(layers, j, k),
    ensures
        merged(layers.update(over, None)).contains_key(k),
        merged(layers.update(over, None))[k] == value_in(layers, 0, k),
        defines(layers, over, k) ==> merged(layers)[k] == value_in(layers, over, k),
{
    let removed = layers.update(over, None);
    assert(removed[0] == layers[0]);
    assert forall|j: int| 0 < j < removed.len() implies !defines(removed, j, k) by {
        if j != over {
            assert(removed[j] == layers[j]);
            assert(!defines(layers, j, k));
        } else {
            assert(removed[j] is None);
        }
    }
    lemma_last_definer_decides(removed, 0, k);
    if defines(layers, over, k) {
        lemma_last_definer_decides(layers, over, k);
    }
}

/// The merged configuration: a map from dotted lower-case key paths to values.
pub struct ConfigTree {
    entries: Vec<(String, Value)>,
}

impl ConfigTree {
    pub closed spec fn view(&self) -> Map<Seq<char>, ValueModel> {
        layer_view(self.entries@)
    }

    pub fn new() -> (r: ConfigTree)
        ensures
            r.view() == Map::<Seq<char>, ValueModel>::empty(),
    {
        let r = ConfigTree { entries: Vec::new() };
        assert(r.view() =~= Map::<Seq<char>, ValueModel>::empty());
        r
    }

    /// The value bound to `key`, if any.
    pub fn get(&self, key: &str) -> (r: Option<&Value>)
        ensures
            match r {
                Some(v) => self.view().contains_key(key@) && self.view()[key@] == v@,
                None => !self.view().contains_key(key@),
            },
    {
        match find_last(&self.entries, key) {
            Some(i) => Some(&self.entries[i].1),
            None => None,
        }
    }

    /// Every key and its value; a key may appear more than once, and its
    /// last occurrence is the one in force.
    pub fn entries(&self) -> (r: &Vec<(String, Value)>)
        ensures
            layer_view(r@) == self.view(),
    {
        &self.entries
    }

    /// Lets the entries of `layer` override the tree key by key.
    pub fn override_with(&mut self, layer: Vec<(String, Value)>)
        ensures
            final(self).view() == old(self).view().union_prefer_right(layer_view(layer@)),
    {
        let ghost a = self.entries@;
        let ghost b = layer@;
        let mut layer = layer;
        self.entries.append(&mut layer);
        proof {
            lemma_entries_map_concat(a, b);
            assert(self.view() =~= old(self).view().union_prefer_right(layer_view(b)));
        }
    }
}

/// Merges the sources in precedence order; absent ones are skipped.
pub fn build_tree(layers: Vec<Option<Vec<(String, Value)>>>) -> (r: ConfigTree)
    ensures
        r.view() == merged(layers@),
{
    let ghost orig = layers@;
    let n = layers.len();
    let mut layers = layers;
    let mut tree = ConfigTree::new();
    let mut i: usize = 0;
    assert(orig.take(0) =~= Seq::<Option<Vec<(String, Value)>>>::empty());
    assert(orig.subrange(0, n as int) =~= orig);
    while i < n
        invariant
            n == orig.len(),
            i <= n,
            layers@ == orig.subrange(i as int, n as int),
            tree.view() == merged(orig.take(i as int)),
        decreases n - i,
    {
        let layer = layers.remove(0);
        proof {
            assert(orig.take(i + 1).drop_last() =~= orig.take(i as int));
            assert(layers@ =~= orig.subrange(i + 1, n as int));
        }
        match layer {
            Some(l) => tree.override_with(l),
            None => {},
        }
        i = i + 1;
    }
    assert(orig.take(n as int) =~= orig);
    tree
}

} // verus!
