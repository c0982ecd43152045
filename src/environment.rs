//! The deployment environment and the errors of configuration loading.
use vstd::prelude::*;

verus! {

/// Why loading the configuration stopped.
#[derive(Debug, Clone, Copy, PartialEq, Eq, Structural)]
pub enum ConfigError {
    /// The environment name is none of `dev`, `stag` or `prod`.
    UnknownEnvironment,
    /// A located or decrypted source could not be parsed.
    MalformedSource,
    /// The configuration was read before it was built.
    NotInitialized,
}

/// The deployment environment the configuration is loaded for.
#[derive(Debug, Clone, Copy, PartialEq, Eq, Structural)]
pub enum Environment {
    Dev,
    Stag,
    Prod,
}

/// `c` and the lower-case letter `lower` are the same letter, ignoring ASCII case.
pub open spec fn same_letter(c: char, lower: char) -> bool {
    c == lower || ('a' <= lower && lower <= 'z' && c as u32 + 32 == lower as u32)
}

/// `s` spells the lower-case word `name`, ignoring ASCII case.
pub open spec fn spells(s: Seq<char>, name: Seq<char>) -> bool {
    s.len() == name.len() && forall|i: int| 0 <= i < s.len() ==> same_letter(#[trigger] s[i], name[i])
}

impl Environment {
    /// The canonical lower-case name, as used in file names.
    pub open spec fn spec_name(self) -> Seq<char> {
        match self {
            Environment::Dev => seq!['d', 'e', 'v'],
            Environment::Stag => seq!['s', 't', 'a', 'g'],
            Environment::Prod => seq!['p', 'r', 'o', 'd'],
        }
    }

    pub fn name(&self) -> (r: &'static str)
        ensures
            r@ == self.spec_name(),
    {
        match self {
            Environment::Dev => {
                proof { reveal_strlit("dev"); }
                "dev"
            },
            Environment::Stag => {
                proof { reveal_strlit("stag"); }
                "stag"
            },
            Environment::Prod => {
                proof { reveal_strlit("prod"); }
                "prod"
            },
        }
    }
}

/// The environment that the raw value of the environment-name variable selects.
pub open spec fn spec_parse_environment(raw: Option<Seq<char>>) -> Result<Environment, ConfigError> {
    match raw {
        None => Ok(Environment::Dev),
        Some(s) => if s.len() == 0 {
            Ok(Environment::Dev)
        } else if spells(s, Environment::Dev.spec_name()) {
            Ok(Environment::Dev)
        } else if spells(s, Environment::Stag.spec_name()) {
            Ok(Environment::Stag)
        } else if spells(s, Environment::Prod.spec_name()) {
            Ok(Environment::Prod)
        } else {
            Err(ConfigError::UnknownEnvironment)
        },
    }
}

fn spells_exec(s: &str, name: &str) -> (r: bool)
    requires
        forall|i: int| 0 <= i < name@.len() ==> 'a' <= #[trigger] name@[i] <= 'z',
    ensures
        r == spells(s@, name@),
{
    let n = s.unicode_len();
    if n != name.unicode_len() {
        return false;
    }
    let mut i: usize = 0;
    while i < n
        invariant
            n == s@.len(),
            n == name@.len(),
            i <= n,
            forall|j: int| 0 <= j < i ==> same_letter(#[trigger] s@[j], name@[j]),
        decreases n - i,
    {
        let c = s.get_char(i);
        let l = name.get_char(i);
        if !(c == l || ('a' <= l && l <= 'z' && (c as u32) + 32 == l as u32)) {
            return false;
        }
        i = i + 1;
    }
    true
}

/// Selects the environment from the raw value of the environment-name
/// variable: unset or empty selects `Dev`; otherwise the value must spell
/// `dev`, `stag` or `prod`, ignoring ASCII case.
pub fn parse_environment(raw: Option<&str>) -> (r: Result<Environment, ConfigError>)
    ensures
        r == spec_parse_environment(
            match raw {
                Some(s) => Some(s@),
                None => None,
            },
        ),
{
    match raw {
        None => Ok(Environment::Dev),
        Some(s) => {
            if s.unicode_len() == 0 {
                return Ok(Environment::Dev);
            }
            if spells_exec(s, Environment::Dev.name()) {
                Ok(Environment::Dev)
            } else if spells_exec(s, Environment::Stag.name()) {
                Ok(Environment::Stag)
            } else if spells_exec(s, Environment::Prod.name()) {
                Ok(Environment::Prod)
            } else {
                Err(ConfigError::UnknownEnvironment)
            }
        },
    }
}

} // verus!
