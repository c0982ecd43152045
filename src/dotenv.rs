//! The process environment as a value, and folding dotenv sources into it
//! without overriding what is already set.
use vstd::prelude::*;

use crate::entries::{entries_map, find_last};
use crate::environment::ConfigError;

verus! {

/// A set of environment variables, name to value.
pub struct EnvVars {
    vars: Vec<(String, String)>,
}

/// The variables after applying `pairs` in order, each only where its name
/// is not bound yet: the first write of a name wins.
pub open spec fn first_write(m: Map<Seq<char>, Seq<char>>, pairs: Seq<(Seq<char>, Seq<char>)>) -> Map<
    Seq<char>,
    Seq<char>,
>
    decreases pairs.len(),
{
    if pairs.len() == 0 {
        m
    } else {
        let m1 = if m.contains_key(pairs[0].0) {
            m
        } else {
            m.insert(pairs[0].0, pairs[0].1)
        };
        first_write(m1, pairs.drop_first())
    }
}

/// The views of a list of name/value pairs.
pub open spec fn pair_views(pairs: Seq<(String, String)>) -> Seq<(Seq<char>, Seq<char>)> {
    pairs.map_values(|p: (String, String)| (p.0@, p.1@))
}

/// A variable that is already set keeps its value whatever a dotenv source
/// says of it.
pub proof fn lemma_preset_kept(m: Map<Seq<char>, Seq<char>>, pairs: Seq<(Seq<char>, Seq<char>)>, k: Seq<char>)
    requires
        m.contains_key(k),
    ensures
        first_write(m, pairs).contains_key(k),
        first_write(m, pairs)[k] == m[k],
    decreases pairs.len(),
{
    if pairs.len() > 0 {
        let m1 = if m.contains_key(pairs[0].0) {
            m
        } else {
            m.insert(pairs[0].0, pairs[0].1)
        };
        lemma_preset_kept(m1, pairs.drop_first(), k);
    }
}

/// The map that a list of name/value pairs denotes: each name maps to the
/// value of its last pair.
pub open spec fn pairs_map(s: Seq<(Seq<char>, Seq<char>)>) -> Map<Seq<char>, Seq<char>>
    decreases s.len(),
{
    if s.len() == 0 {
        Map::empty()
    } else {
        pairs_map(s.drop_last()).insert(s.last().0, s.last().1)
    }
}

proof fn lemma_entries_pairs_map(s: Seq<(String, String)>)
    ensures
        entries_map(s).map_values(|v: String| v@) == pairs_map(pair_views(s)),
    decreases s.len(),
{
    if s.len() > 0 {
        lemma_entries_pairs_map(s.drop_last());
        assert(pair_views(s).drop_last() =~= pair_views(s.drop_last()));
        assert(entries_map(s).map_values(|v: String| v@) =~= pairs_map(pair_views(s)));
    } else {
        assert(entries_map(s).map_values(|v: String| v@) =~= pairs_map(pair_views(s)));
    }
}

/// Applying pair lists one after another is applying their concatenation.
pub proof fn lemma_first_write_concat(
    m: Map<Seq<char>, Seq<char>>,
    a: Seq<(Seq<char>, Seq<char>)>,
    b: Seq<(Seq<char>, Seq<char>)>,
)
    ensures
        first_write(m, a + b) == first_write(first_write(m, a), b),
    decreases a.len(),
{
    if a.len() == 0 {
        assert(a + b =~= b);
    } else {
        let m1 = if m.contains_key(a[0].0) {
            m
        } else {
            m.insert(a[0].0, a[0].1)
        };
        assert((a + b).drop_first() =~= a.drop_first() + b);
        assert((a + b)[0] == a[0]);
        lemma_first_write_concat(m1, a.drop_first(), b);
    }
}

/// The pairs of several parsed sources, one after another.
pub open spec fn concat_pairs(parsed: Seq<Vec<(String, String)>>) -> Seq<(Seq<char>, Seq<char>)>
    decreases parsed.len(),
{
    if parsed.len() == 0 {
        Seq::empty()
    } else {
        concat_pairs(parsed.drop_last()) + pair_views(parsed.last()@)
    }
}

impl EnvVars {
    /// The variables are the pairs in the order they were set, a later pair
    /// for a name replacing an earlier one.
    pub proof fn lemma_view_is_pairs_map(&self)
        ensures
            self.view() == pairs_map(self.pairs()),
    {
        lemma_entries_pairs_map(self.vars@);
    }

    /// The variables as a map from name to value.
    pub closed spec fn view(&self) -> Map<Seq<char>, Seq<char>> {
        entries_map(self.vars@).map_values(|v: String| v@)
    }

    /// The variables in the order they were set; a later pair for a name
    /// replaces an earlier one.
    pub closed spec fn pairs(&self) -> Seq<(Seq<char>, Seq<char>)> {
        pair_views(self.vars@)
    }

    /// The variables in the order they were set.
    pub fn as_pairs(&self) -> (r: &Vec<(String, String)>)
        ensures
            pair_views(r@) == self.pairs(),
    {
        &self.vars
    }

    pub fn new() -> (r: EnvVars)
        ensures
            r.view() == Map::<Seq<char>, Seq<char>>::empty(),
    {
        let r = EnvVars { vars: Vec::new() };
        assert(r.view() =~= Map::<Seq<char>, Seq<char>>::empty());
        r
    }

    /// The value of the variable `name`, if it is set.
    pub fn get(&self, name: &str) -> (r: Option<String>)
        ensures
            match r {
                Some(v) => self.view().contains_key(name@) && self.view()[name@] == v@,
                None => !self.view().contains_key(name@),
            },
    {
        match find_last(&self.vars, name) {
            Some(i) => Some(self.vars[i].1.clone()),
            None => None,
        }
    }

    /// Sets `name` to `value`, replacing what it held.
    pub fn set(&mut self, name: String, value: String)
        ensures
            final(self).view() == old(self).view().insert(name@, value@),
            final(self).pairs() == old(self).pairs().push((name@, value@)),
    {
        let ghost k = name@;
        let ghost v = value@;
        self.vars.push((name, value));
        proof {
            assert(self.vars@.drop_last() =~= old(self).vars@);
            assert(self.view() =~= old(self).view().insert(k, v));
            assert(self.pairs() =~= old(self).pairs().push((k, v)));
        }
    }

    /// Sets `name` to `value` only where `name` is not set yet.
    pub fn set_if_absent(&mut self, name: String, value: String)
        ensures
            final(self).view() == (if old(self).view().contains_key(name@) {
                old(self).view()
            } else {
                old(self).view().insert(name@, value@)
            }),
    {
        if find_last(&self.vars, name.as_str()).is_none() {
            self.set(name, value);
        }
    }

    /// Applies `pairs` in order, each only where its name is not set yet.
    pub fn merge_absent(&mut self, pairs: &Vec<(String, String)>)
        ensures
            final(self).view() == first_write(old(self).view(), pair_views(pairs@)),
            forall|k: Seq<char>| #[trigger] old(self).view().contains_key(k) ==> final(self).view().contains_key(k)
                && final(self).view()[k] == old(self).view()[k],
    {
        let ghost start = self.view();
        let ghost all = pair_views(pairs@);
        let mut i: usize = 0;
        let n = pairs.len();
        let ghost orig = pairs@;
        assert(all.subrange(0, n as int) =~= all);
        while i < n
            invariant
                n == orig.len(),
                i <= n,
                all == pair_views(orig),
                pairs@ == orig,
                first_write(start, all) == first_write(self.view(), all.subrange(i as int, n as int)),
            decreases n - i,
        {
            let name = pairs[i].0.clone();
            let value = pairs[i].1.clone();
            proof {
                assert(all.subrange(i as int, n as int).drop_first() =~= all.subrange(i + 1, n as int));
                assert(all[i as int] == (orig[i as int].0@, orig[i as int].1@));
            }
            self.set_if_absent(name, value);
            i = i + 1;
        }
        proof {
            assert(all.subrange(n as int, n as int) =~= Seq::<(Seq<char>, Seq<char>)>::empty());
            assert forall|k: Seq<char>| #[trigger] start.contains_key(k) implies self.view().contains_key(k)
                && self.view()[k] == start[k] by {
                lemma_preset_kept(start, all, k);
            }
        }
    }
}

/// Applies the pairs of parsed sources in order, each only where its name is
/// not set yet: variables set beforehand win, then earlier sources over later.
pub fn merge_dotenv_chain(vars: &mut EnvVars, parsed: &Vec<Vec<(String, String)>>)
    ensures
        final(vars).view() == first_write(old(vars).view(), concat_pairs(parsed@)),
{
    let ghost start = vars.view();
    let n = parsed.len();
    let mut i: usize = 0;
    assert(parsed@.take(0) =~= Seq::<Vec<(String, String)>>::empty());
    while i < n
        invariant
            n == parsed@.len(),
            i <= n,
            vars.view() == first_write(start, concat_pairs(parsed@.take(i as int))),
        decreases n - i,
    {
        proof {
            assert(parsed@.take(i + 1).drop_last() =~= parsed@.take(i as int));
            assert(parsed@.take(i + 1).last() == parsed@[i as int]);
            lemma_first_write_concat(start, concat_pairs(parsed@.take(i as int)), pair_views(parsed@[i as int]@));
        }
        vars.merge_absent(&parsed[i]);
        i = i + 1;
    }
    assert(parsed@.take(n as int) =~= parsed@);
}

/// The UTF-8 byte order mark.
pub open spec fn bom() -> Seq<u8> {
    seq![0xEFu8, 0xBBu8, 0xBFu8]
}

/// `b` without a leading UTF-8 byte order mark.
pub open spec fn spec_strip_bom(b: Seq<u8>) -> Seq<u8> {
    if b.len() >= 3 && b.take(3) == bom() {
        b.skip(3)
    } else {
        b
    }
}

/// Drops a leading UTF-8 byte order mark.
pub fn strip_bom(b: &[u8]) -> (r: &[u8])
    ensures
        r@ == spec_strip_bom(b@),
{
    if b.len() >= 3 && b[0] == 0xEFu8 && b[1] == 0xBBu8 && b[2] == 0xBFu8 {
        assert(b@.take(3) =~= bom());
        vstd::slice::slice_subrange(b, 3, b.len())
    } else {
        proof {
            if b@.len() >= 3 && b@.take(3) == bom() {
                assert(b@[0] == b@.take(3)[0] && b@[1] == b@.take(3)[1] && b@[2] == b@.take(3)[2]);
            }
        }
        assert(b@.subrange(0, b@.len() as int) =~= b@);
        b
    }
}

/// Relies on dotenvy::from_read_iter to parse dotenv text into name/value
/// pairs in file order; `None` where the text is malformed. Variable
/// substitution may read the process environment, so nothing is stated of
/// the pairs.
#[verifier::external_body]
fn parse_dotenv(bytes: &[u8]) -> (r: Option<Vec<(String, String)>>) {
    dotenvy::from_read_iter(bytes).collect::<Result<Vec<(String, String)>, dotenvy::Error>>().ok()
}

/// Folds one dotenv source, its byte order mark dropped, into `vars`. An
/// absent source changes nothing; a malformed one is an error and changes
/// nothing; otherwise its pairs are applied first-write-wins, so no
/// variable already set is changed.
pub fn apply_dotenv(vars: &mut EnvVars, source: &Option<Vec<u8>>) -> (r: Result<(), ConfigError>)
    ensures
        source is None ==> r is Ok && final(vars).view() == old(vars).view(),
        r is Err ==> r == Err::<(), ConfigError>(ConfigError::MalformedSource) && final(vars).view() == old(
            vars,
        ).view(),
        r is Ok && source is Some ==> exists|ps: Seq<(Seq<char>, Seq<char>)>|
            final(vars).view() == #[trigger] first_write(old(vars).view(), ps),
        forall|k: Seq<char>| #[trigger] old(vars).view().contains_key(k) ==> final(vars).view().contains_key(k)
            && final(vars).view()[k] == old(vars).view()[k],
{
    match source {
        None => Ok(()),
        Some(bytes) => match parse_dotenv(strip_bom(bytes.as_slice())) {
            None => Err(ConfigError::MalformedSource),
            Some(pairs) => {
                vars.merge_absent(&pairs);
                proof {
                    assert(vars.view() == first_write(old(vars).view(), pair_views(pairs@)));
                }
                Ok(())
            },
        },
    }
}

/// Folds dotenv sources into `vars`. Every present source, its byte order
/// mark dropped, is parsed first; if one is malformed nothing changes and
/// the result is an error. Otherwise the pairs of all sources are applied in
/// order, first write winning: variables set beforehand win over every
/// source, and an earlier source over a later one.
pub fn apply_dotenv_chain(vars: &mut EnvVars, sources: &Vec<Option<Vec<u8>>>) -> (r: Result<(), ConfigError>)
    ensures
        r is Err ==> r == Err::<(), ConfigError>(ConfigError::MalformedSource) && final(vars).view() == old(
            vars,
        ).view(),
        (forall|i: int| 0 <= i < sources@.len() ==> (#[trigger] sources@[i]) is None) ==> r is Ok
            && final(vars).view() == old(vars).view(),
        r is Ok ==> exists|ps: Seq<(Seq<char>, Seq<char>)>|
            final(vars).view() == #[trigger] first_write(old(vars).view(), ps),
        forall|k: Seq<char>| #[trigger] old(vars).view().contains_key(k) ==> final(vars).view().contains_key(k)
            && final(vars).view()[k] == old(vars).view()[k],
{
    let parsed = match parse_sources(sources) {
        Some(p) => p,
        None => return Err(ConfigError::MalformedSource),
    };
    merge_dotenv_chain(vars, &parsed);
    proof {
        assert(vars.view() == first_write(old(vars).view(), concat_pairs(parsed@)));
        assert forall|k: Seq<char>| #[trigger] old(vars).view().contains_key(k) implies vars.view().contains_key(k)
            && vars.view()[k] == old(vars).view()[k] by {
            lemma_preset_kept(old(vars).view(), concat_pairs(parsed@), k);
        }
    }
    Ok(())
}

/// Parses every present source, its byte order mark dropped; `None` if one
/// is malformed. Where every source is absent nothing is parsed.
fn parse_sources(sources: &Vec<Option<Vec<u8>>>) -> (r: Option<Vec<Vec<(String, String)>>>)
    ensures
        (forall|i: int| 0 <= i < sources@.len() ==> (#[trigger] sources@[i]) is None) ==> r is Some
            && r->Some_0@.len() == 0,
{
    let mut parsed: Vec<Vec<(String, String)>> = Vec::new();
    let n = sources.len();
    let mut i: usize = 0;
    while i < n
        invariant
            n == sources@.len(),
            i <= n,
            (forall|j: int| 0 <= j < sources@.len() ==> (#[trigger] sources@[j]) is None) ==> parsed@.len() == 0,
        decreases n - i,
    {
        match &sources[i] {
            None => {},
            Some(bytes) => match parse_dotenv(strip_bom(bytes.as_slice())) {
                None => return None,
                Some(pairs) => parsed.push(pairs),
            },
        }
        i = i + 1;
    }
    Some(parsed)
}

} // verus!
