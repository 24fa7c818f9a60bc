//! The externally observed game-state record: the point-in-time description
//! of the battle that ingestion turns into a `CombatState`.  Identifiers
//! arrive as strings; unknown ones degrade to safe defaults downstream.

use vstd::prelude::*;

verus! {

#[derive(Clone, Debug)]
pub struct Card {
    pub id: String,
    pub misc: i32,
    pub cost: i32,
    pub upgrades: i32,
}

#[derive(Clone, Debug)]
pub struct Power {
    pub id: String,
    pub amount: i32,
    pub damage: i32,
    pub card: Option<Card>,
    pub misc: i32,
    pub just_applied: bool,
}

#[derive(Clone, Debug)]
pub struct Player {
    pub current_hp: i32,
    pub max_hp: i32,
    pub block: i32,
    pub energy: i32,
    pub powers: Vec<Power>,
}

#[derive(Clone, Debug)]
pub struct Monster {
    pub id: String,
    pub current_hp: i32,
    pub max_hp: i32,
    pub block: i32,
    pub move_id: i32,
    pub last_move_id: Option<i32>,
    pub second_last_move_id: Option<i32>,
    pub move_base_damage: i32,
    pub powers: Vec<Power>,
    pub is_gone: bool,
}

#[derive(Clone, Debug)]
pub struct CombatState {
    pub draw_pile: Vec<Card>,
    pub discard_pile: Vec<Card>,
    pub exhaust_pile: Vec<Card>,
    pub hand: Vec<Card>,
    pub limbo: Vec<Card>,
    pub card_in_play: Option<Card>,
    pub player: Player,
    pub monsters: Vec<Monster>,
}

#[derive(Clone, Debug)]
pub struct GameState {
    pub ascension_level: i32,
    pub combat_state: Option<CombatState>,
}

} // verus!
