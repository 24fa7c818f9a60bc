//! Monster identities.  Per-identity move behavior is an external
//! collaborator; the engine tracks identity, move history and cached innate
//! damage, and degrades unknown identifiers to a safe default.

use vstd::prelude::*;
use crate::cards::str_is;

verus! {

#[derive(Copy, Clone, Debug, PartialEq, Eq, Structural)]
pub enum MonsterId {
    Cultist,
    JawWorm,
    Unknown,
}

impl MonsterId {
    /// The identity named by an observed identifier string; unrecognized
    /// identifiers degrade to `Unknown`.
    pub open spec fn spec_from_name(name: Seq<char>) -> MonsterId {
        if name == "Cultist"@ {
            MonsterId::Cultist
        } else if name == "JawWorm"@ {
            MonsterId::JawWorm
        } else {
            MonsterId::Unknown
        }
    }

    pub fn from_name(name: &str) -> (r: MonsterId)
        ensures
            r == MonsterId::spec_from_name(name@),
    {
        if str_is(name, "Cultist") {
            MonsterId::Cultist
        } else if str_is(name, "JawWorm") {
            MonsterId::JawWorm
        } else {
            MonsterId::Unknown
        }
    }
}

} // verus!
