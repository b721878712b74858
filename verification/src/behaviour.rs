//! Malicious-behaviour configuration.
//!
//! A test-only, process-wide setting: one behaviour name plus a victim and a
//! faulty set of share indices, parsed once from operator input and consumed
//! when the cryptographic engine is instantiated.  An unrecognized behaviour
//! name deliberately falls back to the honest behaviour instead of erroring.

use vstd::prelude::*;

use crate::numeric::{parse_index_list, spec_parse_list};

verus! {

/// The parameterized deviation a keygen session is configured to perform.
#[derive(Clone, Debug, PartialEq, Eq)]
pub enum KeygenBehaviour {
    Honest,
    R2BadShare { victim: Vec<usize>, faulty: Vec<usize> },
    R2BadEncryption { victim: Vec<usize> },
    R3FalseAccusation { victim: Vec<usize>, faulty: Vec<usize> },
}

/// The process-wide behaviour configuration.
#[derive(Clone, Debug, PartialEq, Eq)]
pub struct Behaviours {
    pub keygen: KeygenBehaviour,
}

/// The operator-supplied malicious configuration, as plain strings: the
/// behaviour name and the two comma-separated index lists.
#[derive(Clone, Debug, PartialEq, Eq)]
pub struct MaliciousArgs {
    pub behaviour: String,
    pub victim: String,
    pub faulty: String,
}

/// An index list that is not a comma-separated list of decimal numbers.
#[derive(Clone, Copy, Debug, PartialEq, Eq, Structural)]
pub enum BehaviourError {
    InvalidVictim,
    InvalidFaulty,
}

/// The behaviour descriptor named by `name`, carrying the given victim and
/// faulty index sets; any unrecognized name means honest.
pub open spec fn behaviour_named(
    b: KeygenBehaviour,
    name: Seq<char>,
    victim: Seq<usize>,
    faulty: Seq<usize>,
) -> bool {
    if name == "R2BadShare"@ {
        b matches KeygenBehaviour::R2BadShare { victim: v, faulty: f } && v@ == victim && f@
            == faulty
    } else if name == "R2BadEncryption"@ {
        b matches KeygenBehaviour::R2BadEncryption { victim: v } && v@ == victim
    } else if name == "R3FalseAccusation"@ {
        b matches KeygenBehaviour::R3FalseAccusation { victim: v, faulty: f } && v@ == victim && f@
            == faulty
    } else {
        b == KeygenBehaviour::Honest
    }
}

/// Whether two strings hold the same characters.
fn str_eq(a: &str, b: &str) -> (r: bool)
    ensures
        r == (a@ == b@),
{
    let a_owned: String = a.to_owned();
    let b_owned: String = b.to_owned();
    a_owned == b_owned
}

/// Selects the behaviour descriptor for an operator-supplied name, keeping
/// the supplied victim and faulty index sets; an unrecognized name selects
/// the honest behaviour rather than erroring.
pub fn match_string_to_behaviour(behaviour: &str, victim: Vec<usize>, faulty: Vec<usize>) -> (r:
    KeygenBehaviour)
    ensures
        behaviour_named(r, behaviour@, victim@, faulty@),
{
    if str_eq(behaviour, "R2BadShare") {
        KeygenBehaviour::R2BadShare { victim, faulty }
    } else if str_eq(behaviour, "R2BadEncryption") {
        KeygenBehaviour::R2BadEncryption { victim }
    } else if str_eq(behaviour, "R3FalseAccusation") {
        KeygenBehaviour::R3FalseAccusation { victim, faulty }
    } else {
        KeygenBehaviour::Honest
    }
}

/// Builds the process-wide behaviour configuration from operator input.
/// Without a malicious subcommand the configuration is honest; with one,
/// the two index lists are parsed and the named behaviour carries exactly
/// the parsed sets.  A malformed index list is rejected.
pub fn get_behaviour_matches(args: Option<&MaliciousArgs>) -> (r: Result<
    Behaviours,
    BehaviourError,
>)
    ensures
        match args {
            None => r matches Ok(b) && b.keygen == KeygenBehaviour::Honest,
            Some(a) => match r {
                Ok(b) => {
                    &&& spec_parse_list(a.victim@) matches Some(victim)
                    &&& spec_parse_list(a.faulty@) matches Some(faulty)
                    &&& behaviour_named(b.keygen, a.behaviour@, victim, faulty)
                },
                Err(e) => match e {
                    BehaviourError::InvalidVictim => spec_parse_list(a.victim@) is None,
                    BehaviourError::InvalidFaulty => spec_parse_list(a.victim@) is Some
                        && spec_parse_list(a.faulty@) is None,
                },
            },
        },
{
    match args {
        None => Ok(Behaviours { keygen: KeygenBehaviour::Honest }),
        Some(a) => {
            let victim = match parse_index_list(a.victim.as_str()) {
                Some(v) => v,
                None => {
                    return Err(BehaviourError::InvalidVictim);
                },
            };
            let faulty = match parse_index_list(a.faulty.as_str()) {
                Some(v) => v,
                None => {
                    return Err(BehaviourError::InvalidFaulty);
                },
            };
            let keygen = match_string_to_behaviour(a.behaviour.as_str(), victim, faulty);
            Ok(Behaviours { keygen })
        },
    }
}

} // verus!
