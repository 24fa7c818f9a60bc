//! The entity/state model: the mutable battle snapshot and its invariants.
//!
//! A `CombatState` owns the card piles, the player, an ordered collection of
//! monsters, and the three action queues drained by the resolution loop.
//! Monsters are never removed; they are marked `gone` so positional
//! references stay valid for the lifetime of the combat.

use vstd::prelude::*;
use std::collections::VecDeque;
use crate::actions::{spec_action_wf, DynAction};
use crate::cards::CardId;
use crate::communication;
use crate::monsters::MonsterId;
use crate::powers::{PowerId, MAX_POWERS};

verus! {

#[derive(Copy, Clone, Debug, PartialEq, Eq, Structural)]
pub enum CardType {
    Attack,
    Skill,
    Power,
    Status,
    Curse,
}

#[derive(Copy, Clone, Debug, PartialEq, Eq, Structural)]
pub enum Rarity {
    Common,
    Uncommon,
    Rare,
    Basic,
    Special,
}

/// Shared, immutable per-identity card data: fabricated once per identity
/// and never mutated after construction.
#[derive(Copy, Clone, Debug, PartialEq, Eq, Structural)]
pub struct CardInfo {
    pub id: CardId,
    pub card_type: CardType,
    pub rarity: Rarity,
    pub normal_cost: i32,
    pub upgraded_cost: i32,
    pub ethereal: bool,
    pub has_target: bool,
    pub exhausts: bool,
}

impl CardInfo {
    /// The safe default identity: an unplayable curse.
    pub open spec fn spec_default() -> CardInfo {
        CardId::Injury.spec_info()
    }
}

impl core::default::Default for CardInfo {
    fn default() -> (r: CardInfo)
        ensures
            r == CardInfo::spec_default(),
    {
        CardInfo {
            id: CardId::Injury,
            card_type: CardType::Curse,
            rarity: Rarity::Special,
            normal_cost: -2,
            upgraded_cost: -3,
            ethereal: false,
            has_target: false,
            exhausts: false,
        }
    }
}

/// A lightweight card instance plus its shared immutable identity record.
#[derive(Copy, Clone, Debug, PartialEq, Eq, Structural)]
pub struct SingleCard {
    pub misc: i32,
    pub cost: i32,
    pub upgrades: i32,
    pub card_info: CardInfo,
}

/// A named, stacking status effect.  Multiple entries may share an id; the
/// total magnitude is the sum of matching entries' amounts.
#[derive(Copy, Clone, Debug, PartialEq, Eq, Structural)]
pub struct Power {
    pub power_id: PowerId,
    pub amount: i32,
    pub damage: i32,
    pub card: Option<SingleCard>,
    pub misc: i32,
    pub just_applied: bool,
}

impl Power {
    pub open spec fn spec_default() -> Power {
        Power {
            power_id: PowerId::Unknown,
            amount: 0,
            damage: 0,
            card: None,
            misc: 0,
            just_applied: false,
        }
    }
}

impl core::default::Default for Power {
    fn default() -> (r: Power)
        ensures
            r == Power::spec_default(),
    {
        Power {
            power_id: PowerId::Unknown,
            amount: 0,
            damage: 0,
            card: None,
            misc: 0,
            just_applied: false,
        }
    }
}

/// A creature body: hitpoints, block, and the ordered list of active powers.
#[derive(Clone, Debug)]
pub struct Creature {
    pub hitpoints: i32,
    pub max_hitpoints: i32,
    pub block: i32,
    pub powers: Vec<Power>,
}

impl Creature {
    /// Hitpoints and block are non-negative after any committed mutation,
    /// and the power list stays within the machine bound `MAX_POWERS`.
    pub open spec fn wf(&self) -> bool {
        &&& 0 <= self.hitpoints
        &&& 0 <= self.block
        &&& self.powers.len() <= MAX_POWERS
    }
}

#[derive(Clone, Debug)]
pub struct Player {
    pub creature: Creature,
    pub energy: i32,
}

impl Player {
    pub open spec fn wf(&self) -> bool {
        &&& self.creature.wf()
        &&& 0 <= self.energy
    }
}

#[derive(Clone, Debug)]
pub struct Monster {
    pub monster_id: MonsterId,
    pub innate_damage_amount: Option<i32>,
    pub ascension: i32,
    pub creature: Creature,
    pub move_history: Vec<i32>,
    pub gone: bool,
}

impl Monster {
    pub open spec fn wf(&self) -> bool {
        self.creature.wf()
    }
}

/// A relic owned by the player: a named counter carried over from
/// observation.
#[derive(Clone, Debug)]
pub struct Relic {
    name: String,
    id: String,
    counter: i32,
}

/// The full battle snapshot, including the resolution queues: a LIFO buffer
/// for freshly generated subactions, the near-term work stack they are
/// flushed into, and the ordered top-level action list.
#[derive(Debug)]
pub struct CombatState {
    pub draw_pile: Vec<SingleCard>,
    pub discard_pile: Vec<SingleCard>,
    pub exhaust_pile: Vec<SingleCard>,
    pub hand: Vec<SingleCard>,
    pub limbo: Vec<SingleCard>,
    pub card_in_play: Option<SingleCard>,
    pub player: Player,
    pub monsters: Vec<Monster>,
    pub fresh_subaction_queue: Vec<DynAction>,
    pub stale_subaction_stack: Vec<DynAction>,
    pub actions: VecDeque<DynAction>,
}

impl CombatState {
    /// Every creature is well formed and every queued action names valid
    /// targets in this state.
    pub open spec fn wf(&self) -> bool {
        &&& self.player.wf()
        &&& forall|i: int| 0 <= i < self.monsters.len() ==> (#[trigger] self.monsters[i]).wf()
        &&& forall|i: int|
            0 <= i < self.fresh_subaction_queue.len() ==> spec_action_wf(
                #[trigger] self.fresh_subaction_queue[i],
                self.monsters.len() as int,
            )
        &&& forall|i: int|
            0 <= i < self.stale_subaction_stack.len() ==> spec_action_wf(
                #[trigger] self.stale_subaction_stack[i],
                self.monsters.len() as int,
            )
        &&& forall|i: int|
            0 <= i < self.actions@.len() ==> spec_action_wf(
                #[trigger] self.actions@[i],
                self.monsters.len() as int,
            )
    }
}

/// The card instance an observed card record denotes, its identity looked
/// up by name (unknown names degrade to a safe default identity).
pub open spec fn spec_card_from_observed(c: communication::Card) -> SingleCard {
    SingleCard {
        misc: c.misc,
        cost: c.cost,
        upgrades: c.upgrades,
        card_info: CardId::spec_from_name(c.id@).spec_info(),
    }
}

/// The power entry an observed power record denotes.
pub open spec fn spec_power_from_observed(p: communication::Power) -> Power {
    Power {
        power_id: PowerId::spec_from_name(p.id@),
        amount: p.amount,
        damage: p.damage,
        card: match p.card {
            None => None,
            Some(c) => Some(spec_card_from_observed(c)),
        },
        misc: p.misc,
        just_applied: p.just_applied,
    }
}

/// The player built from an observed player record.
pub open spec fn spec_player_matches(pl: Player, obs: communication::Player) -> bool {
    &&& pl.energy == obs.energy
    &&& pl.creature.hitpoints == obs.current_hp
    &&& pl.creature.max_hitpoints == obs.max_hp
    &&& pl.creature.block == obs.block
    &&& pl.creature.powers@ == obs.powers@.map_values(
        |p: communication::Power| spec_power_from_observed(p),
    )
}

/// The move history an observed monster record reports, most recent last.
pub open spec fn spec_move_history(obs: communication::Monster) -> Seq<i32> {
    (match obs.second_last_move_id {
        Some(x) => seq![x],
        None => Seq::<i32>::empty(),
    }) + (match obs.last_move_id {
        Some(x) => seq![x],
        None => Seq::<i32>::empty(),
    }) + seq![obs.move_id]
}

/// The monster built from an observed monster record, with `carry` the
/// previous snapshot's cached innate damage: when the new snapshot reports
/// a non-positive base damage, the cached value is carried forward.
pub open spec fn spec_monster_matches(
    m: Monster,
    obs: communication::Monster,
    ascension: i32,
    carry: Option<i32>,
) -> bool {
    &&& m.monster_id == MonsterId::spec_from_name(obs.id@)
    &&& m.ascension == ascension
    &&& m.move_history@ == spec_move_history(obs)
    &&& m.innate_damage_amount == (if obs.move_base_damage > 0 {
        Some(obs.move_base_damage)
    } else {
        carry
    })
    &&& m.creature.hitpoints == obs.current_hp
    &&& m.creature.max_hitpoints == obs.max_hp
    &&& m.creature.block == obs.block
    &&& m.creature.powers@ == obs.powers@.map_values(
        |p: communication::Power| spec_power_from_observed(p),
    )
    &&& m.gone == obs.is_gone
}

/// The innate damage cached for monster slot `i` by the previous snapshot.
pub open spec fn spec_prev_innate(previous: Option<&CombatState>, i: int) -> Option<i32> {
    match previous {
        None => None,
        Some(p) => if 0 <= i < p.monsters.len() {
            p.monsters@[i].innate_damage_amount
        } else {
            None
        },
    }
}

/// The state built from an observed combat record and the previous state.
pub open spec fn spec_ingest_matches(
    st: CombatState,
    combat: communication::CombatState,
    ascension: i32,
    previous: Option<&CombatState>,
) -> bool {
    &&& st.draw_pile@ == combat.draw_pile@.map_values(
        |c: communication::Card| spec_card_from_observed(c),
    )
    &&& st.discard_pile@ == combat.discard_pile@.map_values(
        |c: communication::Card| spec_card_from_observed(c),
    )
    &&& st.exhaust_pile@ == combat.exhaust_pile@.map_values(
        |c: communication::Card| spec_card_from_observed(c),
    )
    &&& st.hand@ == combat.hand@.map_values(
        |c: communication::Card| spec_card_from_observed(c),
    )
    &&& st.limbo@ == combat.limbo@.map_values(
        |c: communication::Card| spec_card_from_observed(c),
    )
    &&& st.card_in_play == (match combat.card_in_play {
        None => None,
        Some(c) => Some(spec_card_from_observed(c)),
    })
    &&& spec_player_matches(st.player, combat.player)
    &&& st.monsters.len() == combat.monsters.len()
    &&& forall|i: int|
        0 <= i < st.monsters.len() ==> spec_monster_matches(
            #[trigger] st.monsters@[i],
            combat.monsters@[i],
            ascension,
            spec_prev_innate(previous, i),
        )
    &&& st.fresh_subaction_queue@ == Seq::<DynAction>::empty()
    &&& st.stale_subaction_stack@ == Seq::<DynAction>::empty()
    &&& st.actions@ == Seq::<DynAction>::empty()
}

impl SingleCard {
    pub fn from_observed(c: &communication::Card) -> (r: SingleCard)
        ensures
            r == spec_card_from_observed(*c),
    {
        SingleCard {
            misc: c.misc,
            cost: c.cost,
            upgrades: c.upgrades,
            card_info: CardInfo::from(CardId::from_name(c.id.as_str())),
        }
    }
}

impl Power {
    pub fn from_observed(p: &communication::Power) -> (r: Power)
        ensures
            r == spec_power_from_observed(*p),
    {
        Power {
            power_id: PowerId::from_name(p.id.as_str()),
            amount: p.amount,
            damage: p.damage,
            card: match &p.card {
                Some(c) => Some(SingleCard::from_observed(c)),
                None => None,
            },
            misc: p.misc,
            just_applied: p.just_applied,
        }
    }
}

fn cards_from_observed(v: &Vec<communication::Card>) -> (r: Vec<SingleCard>)
    ensures
        r@ == v@.map_values(|c: communication::Card| spec_card_from_observed(c)),
{
    let mut r: Vec<SingleCard> = Vec::new();
    let n = v.len();
    let mut i: usize = 0;
    while i < n
        invariant
            n == v.len(),
            0 <= i <= n,
            r@.len() == i,
            forall|k: int| 0 <= k < i ==> r@[k] == spec_card_from_observed(#[trigger] v@[k]),
        decreases n - i,
    {
        let c = SingleCard::from_observed(&v[i]);
        r.push(c);
        i = i + 1;
    }
    proof {
        assert(r@ =~= v@.map_values(|c: communication::Card| spec_card_from_observed(c)));
    }
    r
}

fn powers_from_observed(v: &Vec<communication::Power>) -> (r: Vec<Power>)
    ensures
        r@ == v@.map_values(|p: communication::Power| spec_power_from_observed(p)),
{
    let mut r: Vec<Power> = Vec::new();
    let n = v.len();
    let mut i: usize = 0;
    while i < n
        invariant
            n == v.len(),
            0 <= i <= n,
            r@.len() == i,
            forall|k: int| 0 <= k < i ==> r@[k] == spec_power_from_observed(#[trigger] v@[k]),
        decreases n - i,
    {
        let p = Power::from_observed(&v[i]);
        r.push(p);
        i = i + 1;
    }
    proof {
        assert(r@ =~= v@.map_values(|p: communication::Power| spec_power_from_observed(p)));
    }
    r
}

impl Player {
    pub fn from_observed(obs: &communication::Player) -> (r: Player)
        ensures
            spec_player_matches(r, *obs),
    {
        Player {
            energy: obs.energy,
            creature: Creature {
                hitpoints: obs.current_hp,
                max_hitpoints: obs.max_hp,
                block: obs.block,
                powers: powers_from_observed(&obs.powers),
            },
        }
    }
}

impl Monster {
    pub fn from_observed(obs: &communication::Monster, ascension: i32) -> (r: Monster)
        ensures
            spec_monster_matches(r, *obs, ascension, None),
    {
        let mut move_history: Vec<i32> = Vec::new();
        match obs.second_last_move_id {
            Some(x) => move_history.push(x),
            None => {},
        }
        match obs.last_move_id {
            Some(x) => move_history.push(x),
            None => {},
        }
        move_history.push(obs.move_id);
        proof {
            assert(move_history@ =~= spec_move_history(*obs));
        }
        let innate_damage_amount = if obs.move_base_damage > 0 {
            Some(obs.move_base_damage)
        } else {
            None
        };
        Monster {
            monster_id: MonsterId::from_name(obs.id.as_str()),
            ascension,
            move_history,
            innate_damage_amount,
            creature: Creature {
                hitpoints: obs.current_hp,
                max_hitpoints: obs.max_hp,
                block: obs.block,
                powers: powers_from_observed(&obs.powers),
            },
            gone: obs.is_gone,
        }
    }
}

impl CombatState {
    /// Build a state from an externally observed snapshot.  Fields the new
    /// snapshot omits (a monster's move base damage reported non-positive)
    /// are carried forward from the previous state's cache.
    pub fn from_communication_mod(
        observed: &communication::GameState,
        previous: Option<&CombatState>,
    ) -> (r: Option<CombatState>)
        ensures
            r is Some <==> observed.combat_state is Some,
            match r {
                None => true,
                Some(st) => observed.combat_state matches Some(combat) && spec_ingest_matches(
                    st,
                    combat,
                    observed.ascension_level,
                    previous,
                ),
            },
    {
        let combat = match &observed.combat_state {
            Some(c) => c,
            None => {
                return None;
            },
        };
        let n = combat.monsters.len();
        let mut monsters: Vec<Monster> = Vec::new();
        let mut i: usize = 0;
        while i < n
            invariant
                n == combat.monsters.len(),
                0 <= i <= n,
                monsters@.len() == i,
                forall|k: int|
                    0 <= k < i ==> spec_monster_matches(
                        #[trigger] monsters@[k],
                        combat.monsters@[k],
                        observed.ascension_level,
                        spec_prev_innate(previous, k),
                    ),
            decreases n - i,
        {
            let mut mon = Monster::from_observed(&combat.monsters[i], observed.ascension_level);
            match previous {
                Some(prev) => {
                    if i < prev.monsters.len() && mon.innate_damage_amount.is_none() {
                        mon.innate_damage_amount = prev.monsters[i].innate_damage_amount;
                    }
                },
                None => {},
            }
            monsters.push(mon);
            i = i + 1;
        }
        let result = CombatState {
            draw_pile: cards_from_observed(&combat.draw_pile),
            discard_pile: cards_from_observed(&combat.discard_pile),
            exhaust_pile: cards_from_observed(&combat.exhaust_pile),
            hand: cards_from_observed(&combat.hand),
            limbo: cards_from_observed(&combat.limbo),
            card_in_play: match &combat.card_in_play {
                Some(c) => Some(SingleCard::from_observed(c)),
                None => None,
            },
            player: Player::from_observed(&combat.player),
            monsters,
            fresh_subaction_queue: Vec::new(),
            stale_subaction_stack: Vec::new(),
            actions: VecDeque::new(),
        };
        Some(result)
    }
}

} // verus!
