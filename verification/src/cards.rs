//! Card identities and their shared, immutable per-identity data.
//!
//! Every card identity exposes a behavior interface (playability check,
//! effect definition) consulted by id dispatch; unknown identifiers degrade
//! to a safe default instead of aborting ingestion.

use vstd::prelude::*;
use crate::simulation_state::{CardInfo, CardType, CombatState, Rarity};

verus! {

/// Sentinel cost of a card whose cost is variable.
pub const X_COST: i32 = -1;

/// Sentinel cost of a card that can never be played.
pub const UNPLAYABLE: i32 = -2;

#[derive(Copy, Clone, Debug, PartialEq, Eq, Structural)]
pub enum CardId {
    Strike,
    Defend,
    Bash,
    Injury,
    Unknown,
}

/// Relies on str's PartialEq: equal exactly when the character sequences are.
#[verifier::external_body]
pub(crate) fn str_is(s: &str, t: &str) -> (r: bool)
    ensures
        r == (s@ == t@),
{
    s == t
}

impl CardId {
    /// The identity named by an observed identifier string; unrecognized
    /// identifiers degrade to `Unknown`.
    pub open spec fn spec_from_name(name: Seq<char>) -> CardId {
        if name == "Strike_R"@ {
            CardId::Strike
        } else if name == "Defend_R"@ {
            CardId::Defend
        } else if name == "Bash"@ {
            CardId::Bash
        } else if name == "Injury"@ {
            CardId::Injury
        } else {
            CardId::Unknown
        }
    }

    pub fn from_name(name: &str) -> (r: CardId)
        ensures
            r == CardId::spec_from_name(name@),
    {
        if str_is(name, "Strike_R") {
            CardId::Strike
        } else if str_is(name, "Defend_R") {
            CardId::Defend
        } else if str_is(name, "Bash") {
            CardId::Bash
        } else if str_is(name, "Injury") {
            CardId::Injury
        } else {
            CardId::Unknown
        }
    }

    /// The identity-specific playability hook.  Every identity currently
    /// known to the engine is playable whenever cost and status checks pass.
    pub open spec fn spec_playable(self, state: CombatState) -> bool {
        true
    }

    pub fn playable(&self, state: &CombatState) -> (r: bool)
        ensures
            r == self.spec_playable(*state),
    {
        match *self {
            _ => true,
        }
    }

    /// The shared immutable record for this identity.
    pub open spec fn spec_info(self) -> CardInfo {
        match self {
            CardId::Strike => CardInfo {
                id: self,
                card_type: CardType::Attack,
                rarity: Rarity::Basic,
                normal_cost: 1,
                upgraded_cost: 1,
                ethereal: false,
                has_target: true,
                exhausts: false,
            },
            CardId::Defend => CardInfo {
                id: self,
                card_type: CardType::Skill,
                rarity: Rarity::Basic,
                normal_cost: 1,
                upgraded_cost: 1,
                ethereal: false,
                has_target: false,
                exhausts: false,
            },
            CardId::Bash => CardInfo {
                id: self,
                card_type: CardType::Attack,
                rarity: Rarity::Basic,
                normal_cost: 2,
                upgraded_cost: 2,
                ethereal: false,
                has_target: true,
                exhausts: false,
            },
            CardId::Injury => CardInfo {
                id: self,
                card_type: CardType::Curse,
                rarity: Rarity::Special,
                normal_cost: UNPLAYABLE,
                upgraded_cost: -3i32,
                ethereal: false,
                has_target: false,
                exhausts: false,
            },
            CardId::Unknown => CardInfo {
                id: self,
                card_type: CardType::Status,
                rarity: Rarity::Special,
                normal_cost: UNPLAYABLE,
                upgraded_cost: UNPLAYABLE,
                ethereal: false,
                has_target: false,
                exhausts: false,
            },
        }
    }
}

impl core::convert::From<CardId> for CardInfo {
    fn from(id: CardId) -> (r: CardInfo) {
        match id {
            CardId::Strike => CardInfo {
                id,
                card_type: CardType::Attack,
                rarity: Rarity::Basic,
                normal_cost: 1,
                upgraded_cost: 1,
                ethereal: false,
                has_target: true,
                exhausts: false,
            },
            CardId::Defend => CardInfo {
                id,
                card_type: CardType::Skill,
                rarity: Rarity::Basic,
                normal_cost: 1,
                upgraded_cost: 1,
                ethereal: false,
                has_target: false,
                exhausts: false,
            },
            CardId::Bash => CardInfo {
                id,
                card_type: CardType::Attack,
                rarity: Rarity::Basic,
                normal_cost: 2,
                upgraded_cost: 2,
                ethereal: false,
                has_target: true,
                exhausts: false,
            },
            CardId::Injury => CardInfo {
                id,
                card_type: CardType::Curse,
                rarity: Rarity::Special,
                normal_cost: UNPLAYABLE,
                upgraded_cost: -3,
                ethereal: false,
                has_target: false,
                exhausts: false,
            },
            CardId::Unknown => CardInfo {
                id,
                card_type: CardType::Status,
                rarity: Rarity::Special,
                normal_cost: UNPLAYABLE,
                upgraded_cost: UNPLAYABLE,
                ethereal: false,
                has_target: false,
                exhausts: false,
            },
        }
    }
}

impl vstd::std_specs::convert::FromSpecImpl<CardId> for CardInfo {
    open spec fn obeys_from_spec() -> bool {
        true
    }

    open spec fn from_spec(id: CardId) -> CardInfo {
        id.spec_info()
    }
}

} // verus!
