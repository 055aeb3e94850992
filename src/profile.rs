//! The chain-specific settings of an analysis run, chosen once from the chain's
//! name and handed to every entry point that needs them.

use vstd::prelude::*;

verus! {

/// A chain whose staking state can be analysed.
#[derive(Clone, Copy, Debug, PartialEq, Eq, Structural)]
pub enum RuntimeProfile {
    Polkadot,
    Kusama,
    Westend,
}

/// The profile of a chain, by its lowercase name.
pub open spec fn profile_of(name: Seq<char>) -> Option<RuntimeProfile> {
    if name == "polkadot"@ || name == "development"@ {
        Some(RuntimeProfile::Polkadot)
    } else if name == "kusama"@ || name == "kusama-dev"@ {
        Some(RuntimeProfile::Kusama)
    } else if name == "westend"@ {
        Some(RuntimeProfile::Westend)
    } else {
        None
    }
}

/// The lowercase form of a string.
pub uninterp spec fn lowercase_of(s: Seq<char>) -> Seq<char>;

/// Relies on str::to_lowercase: the result depends on the characters alone.
#[verifier::external_body]
fn lowercase(s: &str) -> (r: String)
    ensures
        r@ == lowercase_of(s@),
{
    s.to_lowercase()
}

impl RuntimeProfile {
    /// The profile of the chain named `name`, in any case.
    pub fn from_chain(name: &str) -> (r: Option<RuntimeProfile>)
        ensures
            r == profile_of(lowercase_of(name@)),
    {
        let lower = lowercase(name);
        Self::from_lowercase_name(&lower)
    }

    /// The profile of the chain whose lowercase name is `name`.
    pub fn from_lowercase_name(name: &String) -> (r: Option<RuntimeProfile>)
        ensures
            r == profile_of(name@),
    {
        proof {
            reveal_strlit("polkadot");
            reveal_strlit("development");
            reveal_strlit("kusama");
            reveal_strlit("kusama-dev");
            reveal_strlit("westend");
        }
        if *name == "polkadot".to_owned() || *name == "development".to_owned() {
            Some(RuntimeProfile::Polkadot)
        } else if *name == "kusama".to_owned() || *name == "kusama-dev".to_owned() {
            Some(RuntimeProfile::Kusama)
        } else if *name == "westend".to_owned() {
            Some(RuntimeProfile::Westend)
        } else {
            None
        }
    }

    /// The runtime's specification name.
    pub fn spec_name(&self) -> (r: &'static str)
        ensures
            r@ == match *self {
                RuntimeProfile::Polkadot => "polkadot"@,
                RuntimeProfile::Kusama => "kusama"@,
                RuntimeProfile::Westend => "westend"@,
            },
    {
        match self {
            RuntimeProfile::Polkadot => "polkadot",
            RuntimeProfile::Kusama => "kusama",
            RuntimeProfile::Westend => "westend",
        }
    }

    /// Symbol of the chain's token.
    pub fn token_symbol(&self) -> (r: &'static str)
        ensures
            r@ == match *self {
                RuntimeProfile::Polkadot => "DOT"@,
                RuntimeProfile::Kusama => "KSM"@,
                RuntimeProfile::Westend => "WND"@,
            },
    {
        match self {
            RuntimeProfile::Polkadot => "DOT",
            RuntimeProfile::Kusama => "KSM",
            RuntimeProfile::Westend => "WND",
        }
    }

    /// Number of the token's smallest units in one token.
    pub fn token_unit(&self) -> (r: u128)
        ensures
            r == match *self {
                RuntimeProfile::Polkadot => 10_000_000_000u128,
                _ => 1_000_000_000_000u128,
            },
    {
        match self {
            RuntimeProfile::Polkadot => 10_000_000_000,
            _ => 1_000_000_000_000,
        }
    }

    /// The SS58 address prefix used to print the chain's accounts.
    pub fn ss58_prefix(&self) -> (r: u16)
        ensures
            r == match *self {
                RuntimeProfile::Kusama => 2u16,
                _ => 0u16,
            },
    {
        match self {
            RuntimeProfile::Kusama => 2,
            _ => 0,
        }
    }
}

} // verus!
