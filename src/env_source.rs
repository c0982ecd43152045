//! The configuration source drawn from environment variables: names map to
//! dotted lower-case keys, and designated keys hold comma-separated lists.
use vstd::prelude::*;

use crate::dotenv::EnvVars;
use crate::tree::{Value, ValueModel};

verus! {

/// What `str::to_lowercase` makes of a string.
pub uninterp spec fn lower_of(s: Seq<char>) -> Seq<char>;

/// Relies on str::to_lowercase: the result depends on the characters alone,
/// and an empty string stays empty.
#[verifier::external_body]
fn lowercase(s: &str) -> (r: String)
    ensures
        r@ == lower_of(s@),
        s@.len() == 0 ==> r@.len() == 0,
{
    s.to_lowercase()
}

/// `s` with each `__`, taken left to right, replaced by `.`.
pub open spec fn dotted(s: Seq<char>) -> Seq<char>
    decreases s.len(),
{
    if s.len() == 0 {
        s
    } else if s.len() >= 2 && s[0] == '_' && s[1] == '_' {
        seq!['.'] + dotted(s.skip(2))
    } else {
        seq![s[0]] + dotted(s.skip(1))
    }
}

/// The key that a lower-cased variable name binds: the part after the prefix
/// pattern (where there is one; names without it bind nothing), with `__`
/// made `.`. An empty key binds nothing.
pub open spec fn spec_env_key(lowered: Seq<char>, pattern: Option<Seq<char>>) -> Option<Seq<char>> {
    let rest = match pattern {
        None => Some(lowered),
        Some(p) => if p.len() <= lowered.len() && lowered.take(p.len() as int) == p {
            Some(lowered.skip(p.len() as int))
        } else {
            None
        },
    };
    match rest {
        Some(r) => if dotted(r).len() == 0 {
            None
        } else {
            Some(dotted(r))
        },
        None => None,
    }
}

/// The pieces of `s` between commas, in order; `s` without a comma is one piece.
pub open spec fn split_commas(s: Seq<char>) -> Seq<Seq<char>>
    decreases s.len(),
{
    if s.len() == 0 {
        seq![Seq::empty()]
    } else {
        let r = split_commas(s.drop_last());
        if s.last() == ',' {
            r.push(Seq::empty())
        } else {
            r.update(r.len() - 1, r.last().push(s.last()))
        }
    }
}

proof fn lemma_split_nonempty(s: Seq<char>)
    ensures
        split_commas(s).len() >= 1,
    decreases s.len(),
{
    if s.len() > 0 {
        lemma_split_nonempty(s.drop_last());
    }
}

/// The value that a variable's text gives under `key`: a list of its
/// comma-separated pieces where `key` is designated, the text itself otherwise.
pub open spec fn spec_env_value(key: Seq<char>, text: Seq<char>, list_keys: Seq<Seq<char>>) -> ValueModel {
    if list_keys.contains(key) {
        ValueModel::List(split_commas(text))
    } else {
        ValueModel::Text(text)
    }
}

/// The entries that variables give, in order, for a prefix pattern.
pub open spec fn spec_env_layer(
    pairs: Seq<(Seq<char>, Seq<char>)>,
    pattern: Option<Seq<char>>,
    list_keys: Seq<Seq<char>>,
) -> Seq<(Seq<char>, ValueModel)>
    decreases pairs.len(),
{
    if pairs.len() == 0 {
        Seq::empty()
    } else {
        let rest = spec_env_layer(pairs.drop_last(), pattern, list_keys);
        match spec_env_key(lower_of(pairs.last().0), pattern) {
            Some(k) => rest.push((k, spec_env_value(k, pairs.last().1, list_keys))),
            None => rest,
        }
    }
}

/// The prefix pattern for an optional prefix: the prefix and `__`, lower-cased.
pub open spec fn spec_pattern(prefix: Option<Seq<char>>) -> Option<Seq<char>> {
    match prefix {
        Some(p) => Some(lower_of(p + seq!['_', '_'])),
        None => None,
    }
}

/// The characters of an optional string.
pub open spec fn opt_view(o: Option<&str>) -> Option<Seq<char>> {
    match o {
        Some(s) => Some(s@),
        None => None,
    }
}

pub open spec fn views_of(v: Seq<String>) -> Seq<Seq<char>> {
    v.map_values(|s: String| s@)
}

pub open spec fn entry_views(v: Seq<(String, Value)>) -> Seq<(Seq<char>, ValueModel)> {
    v.map_values(|e: (String, Value)| (e.0@, e.1@))
}

/// Replaces each `__` of `s`, left to right, by `.`.
pub fn dot_separators(s: &str) -> (r: String)
    ensures
        r@ == dotted(s@),
{
    let n = s.unicode_len();
    let mut out = String::new();
    let mut i: usize = 0;
    proof {
        reveal_strlit(".");
        assert(s@.skip(0) =~= s@);
    }
    while i < n
        invariant
            n == s@.len(),
            i <= n,
            out@ + dotted(s@.skip(i as int)) == dotted(s@),
        decreases n - i,
    {
        let rest = Ghost(s@.skip(i as int));
        if i + 1 < n && s.get_char(i) == '_' && s.get_char(i + 1) == '_' {
            proof {
                reveal_strlit(".");
                assert(rest@[0] == s@[i as int] && rest@[1] == s@[i + 1]);
                assert(dotted(rest@) == seq!['.'] + dotted(rest@.skip(2)));
                assert(rest@.skip(2) =~= s@.skip(i + 2));
                assert(out@ + seq!['.'] + dotted(rest@.skip(2)) =~= out@ + dotted(rest@));
            }
            out.append(".");
            i = i + 2;
        } else {
            let c = s.substring_char(i, i + 1);
            proof {
                assert(c@ =~= seq![rest@[0]]);
                assert(rest@.skip(1) =~= s@.skip(i + 1));
                assert(out@ + c@ + dotted(rest@.skip(1)) =~= out@ + dotted(rest@));
            }
            out.append(c);
            i = i + 1;
        }
    }
    proof {
        assert(s@.skip(n as int) =~= Seq::<char>::empty());
        assert(out@ + dotted(s@.skip(n as int)) =~= out@);
    }
    out
}

/// The key that a lower-cased variable name binds under a prefix pattern.
pub fn env_key(lowered: &str, pattern: Option<&str>) -> (r: Option<String>)
    ensures
        match r {
            Some(k) => spec_env_key(lowered@, opt_view(pattern)) == Some(k@),
            None => spec_env_key(lowered@, opt_view(pattern)) is None,
        },
{
    let n = lowered.unicode_len();
    let rest = match pattern {
        None => lowered,
        Some(p) => {
            let m = p.unicode_len();
            if m > n {
                return None;
            }
            let head = lowered.substring_char(0, m);
            if !crate::entries::str_eq(head, p) {
                return None;
            }
            lowered.substring_char(m, n)
        },
    };
    proof {
        assert(lowered@.skip(0) =~= lowered@);
        if pattern is Some {
            assert(lowered@.subrange(0, pattern->Some_0@.len() as int) =~= lowered@.take(pattern->Some_0@.len() as int));
            assert(lowered@.subrange(pattern->Some_0@.len() as int, n as int) =~= lowered@.skip(pattern->Some_0@.len() as int));
        }
    }
    let key = dot_separators(rest);
    if key.as_str().unicode_len() == 0 {
        None
    } else {
        Some(key)
    }
}

/// Splits `s` at each comma.
pub fn split_list(s: &str) -> (r: Vec<String>)
    ensures
        views_of(r@) == split_commas(s@),
{
    let n = s.unicode_len();
    let mut parts: Vec<String> = Vec::new();
    let mut start: usize = 0;
    let mut i: usize = 0;
    assert(s@.take(0) =~= Seq::<char>::empty());
    while i < n
        invariant
            n == s@.len(),
            start <= i <= n,
            views_of(parts@).push(s@.subrange(start as int, i as int)) == split_commas(s@.take(i as int)),
        decreases n - i,
    {
        let c = s.get_char(i);
        proof {
            lemma_split_nonempty(s@.take(i as int));
            assert(s@.take(i + 1).drop_last() =~= s@.take(i as int));
            assert(s@.take(i + 1).last() == c);
        }
        if c == ',' {
            let piece = s.substring_char(start, i);
            let ghost before = parts@;
            parts.push(String::from_str(piece));
            proof {
                assert(views_of(parts@) =~= views_of(before).push(piece@));
                assert(s@.subrange(i + 1, i + 1) =~= Seq::<char>::empty());
                assert(views_of(parts@).push(s@.subrange(i + 1, i + 1)) =~= split_commas(s@.take(i + 1)));
            }
            start = i + 1;
        } else {
            proof {
                let pre = views_of(parts@).push(s@.subrange(start as int, i as int));
                assert(s@.subrange(start as int, i + 1) =~= s@.subrange(start as int, i as int).push(c));
                assert(views_of(parts@).push(s@.subrange(start as int, i + 1)) =~= pre.update(
                    pre.len() - 1,
                    pre.last().push(c),
                ));
            }
        }
        i = i + 1;
    }
    let piece = s.substring_char(start, n);
    let ghost before = parts@;
    parts.push(String::from_str(piece));
    proof {
        assert(s@.take(n as int) =~= s@);
        assert(views_of(parts@) =~= views_of(before).push(piece@));
    }
    parts
}

/// Whether `key` is one of `keys`.
fn contains_key(keys: &Vec<String>, key: &str) -> (r: bool)
    ensures
        r == views_of(keys@).contains(key@),
{
    let mut i: usize = 0;
    while i < keys.len()
        invariant
            i <= keys@.len(),
            forall|j: int| 0 <= j < i ==> keys@[j]@ != key@,
        decreases keys@.len() - i,
    {
        if crate::entries::str_eq(keys[i].as_str(), key) {
            proof {
                assert(views_of(keys@)[i as int] == key@);
            }
            return true;
        }
        i = i + 1;
    }
    proof {
        if views_of(keys@).contains(key@) {
            let j = choose|j: int| 0 <= j < views_of(keys@).len() && views_of(keys@)[j] == key@;
            assert(keys@[j]@ == key@);
        }
    }
    false
}

/// The value that a variable's text gives under `key`: designated keys hold
/// the comma-separated pieces in order, any other key the text as it is.
pub fn env_value(key: &str, text: &str, list_keys: &Vec<String>) -> (r: Value)
    ensures
        r@ == spec_env_value(key@, text@, views_of(list_keys@)),
{
    if contains_key(list_keys, key) {
        Value::List(split_list(text))
    } else {
        Value::Text(String::from_str(text))
    }
}

/// The source drawn from `vars`: each variable whose lower-cased name starts
/// with the lower-cased `prefix` and `__` (any variable, without a prefix)
/// binds the rest of its name, with `__` made `.`, to its value.
pub fn env_layer(vars: &EnvVars, prefix: Option<&str>, list_keys: &Vec<String>) -> (r: Vec<(String, Value)>)
    ensures
        entry_views(r@) == spec_env_layer(
            vars.pairs(),
            spec_pattern(opt_view(prefix)),
            views_of(list_keys@),
        ),
{
    let pattern: Option<String> = match prefix {
        Some(p) => {
            let mut with_sep = String::from_str(p);
            with_sep.append("__");
            proof {
                reveal_strlit("__");
                assert(with_sep@ =~= p@ + seq!['_', '_']);
            }
            Some(lowercase(with_sep.as_str()))
        },
        None => None,
    };
    let ghost pat = spec_pattern(opt_view(prefix));
    let pairs = vars.as_pairs();
    let ghost all = vars.pairs();
    let mut out: Vec<(String, Value)> = Vec::new();
    let mut i: usize = 0;
    assert(all.take(0) =~= Seq::<(Seq<char>, Seq<char>)>::empty());
    assert(entry_views(out@) =~= Seq::<(Seq<char>, ValueModel)>::empty());
    while i < pairs.len()
        invariant
            i <= pairs@.len(),
            all == crate::dotenv::pair_views(pairs@),
            pat == match pattern {
                Some(p) => Some(p@),
                None => None::<Seq<char>>,
            },
            entry_views(out@) == spec_env_layer(all.take(i as int), pat, views_of(list_keys@)),
        decreases pairs@.len() - i,
    {
        let lowered = lowercase(pairs[i].0.as_str());
        let pat_ref: Option<&str> = match &pattern {
            Some(p) => Some(p.as_str()),
            None => None,
        };
        let key = env_key(lowered.as_str(), pat_ref);
        proof {
            assert(all.take(i + 1).drop_last() =~= all.take(i as int));
            assert(all.take(i + 1).last() == all[i as int]);
            assert(opt_view(pat_ref) == pat);
        }
        match key {
            Some(k) => {
                let v = env_value(k.as_str(), pairs[i].1.as_str(), list_keys);
                let ghost before = out@;
                out.push((k, v));
                proof {
                    assert(entry_views(out@) =~= entry_views(before).push((k@, v@)));
                }
            },
            None => {},
        }
        i = i + 1;
    }
    assert(all.take(pairs@.len() as int) =~= all);
    out
}

} // verus!
