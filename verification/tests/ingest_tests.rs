use card_battler::cards::CardId;
use card_battler::communication;
use card_battler::monsters::MonsterId;
use card_battler::powers::PowerId;
use card_battler::simulation_state::{CardType, CombatState};

fn obs_card(id: &str, cost: i32) -> communication::Card {
    communication::Card { id: id.to_string(), misc: 0, cost, upgrades: 0 }
}

fn obs_monster(id: &str, hp: i32, move_base_damage: i32) -> communication::Monster {
    communication::Monster {
        id: id.to_string(),
        current_hp: hp,
        max_hp: hp,
        block: 0,
        move_id: 3,
        last_move_id: Some(2),
        second_last_move_id: Some(1),
        move_base_damage,
        powers: vec![],
        is_gone: false,
    }
}

fn obs_combat(monsters: Vec<communication::Monster>) -> communication::CombatState {
    communication::CombatState {
        draw_pile: vec![obs_card("Bash", 2)],
        discard_pile: vec![],
        exhaust_pile: vec![],
        hand: vec![obs_card("Strike_R", 1), obs_card("NoSuchCard", 0)],
        limbo: vec![],
        card_in_play: None,
        player: communication::Player {
            current_hp: 68,
            max_hp: 80,
            block: 2,
            energy: 3,
            powers: vec![communication::Power {
                id: "Strength".to_string(),
                amount: 2,
                damage: 0,
                card: None,
                misc: 0,
                just_applied: false,
            }],
        },
        monsters,
    }
}

fn obs_game(monsters: Vec<communication::Monster>) -> communication::GameState {
    communication::GameState { ascension_level: 5, combat_state: Some(obs_combat(monsters)) }
}

#[test]
fn ingestion_builds_state_from_snapshot() {
    let game = obs_game(vec![obs_monster("Cultist", 48, 6)]);
    let st = CombatState::from_communication_mod(&game, None).unwrap();
    assert_eq!(st.draw_pile.len(), 1);
    assert_eq!(st.draw_pile[0].card_info.id, CardId::Bash);
    assert_eq!(st.hand.len(), 2);
    assert_eq!(st.hand[0].card_info.id, CardId::Strike);
    assert_eq!(st.player.energy, 3);
    assert_eq!(st.player.creature.hitpoints, 68);
    assert_eq!(st.player.creature.powers[0].power_id, PowerId::Strength);
    assert_eq!(st.monsters.len(), 1);
    assert_eq!(st.monsters[0].monster_id, MonsterId::Cultist);
    assert_eq!(st.monsters[0].ascension, 5);
    assert_eq!(st.monsters[0].move_history, vec![1, 2, 3]);
    assert_eq!(st.monsters[0].innate_damage_amount, Some(6));
    assert!(st.fresh_subaction_queue.is_empty());
    assert!(st.actions.is_empty());
}

#[test]
fn unknown_identifiers_degrade_to_safe_defaults() {
    let game = obs_game(vec![obs_monster("SomethingNew", 30, 0)]);
    let st = CombatState::from_communication_mod(&game, None).unwrap();
    // the unrecognized card becomes the safe default identity
    assert_eq!(st.hand[1].card_info.id, CardId::Unknown);
    assert_eq!(st.hand[1].card_info.card_type, CardType::Status);
    assert_eq!(st.monsters[0].monster_id, MonsterId::Unknown);
    assert_eq!(st.monsters[0].innate_damage_amount, None);
}

#[test]
fn omitted_move_base_damage_carries_forward_cached_value() {
    // turn 1 reports the base damage; turn 2 omits it (non-positive)
    let turn1 = obs_game(vec![obs_monster("Cultist", 48, 6)]);
    let st1 = CombatState::from_communication_mod(&turn1, None).unwrap();
    assert_eq!(st1.monsters[0].innate_damage_amount, Some(6));

    let turn2 = obs_game(vec![obs_monster("Cultist", 42, 0)]);
    let st2 = CombatState::from_communication_mod(&turn2, Some(&st1)).unwrap();
    assert_eq!(st2.monsters[0].innate_damage_amount, Some(6));

    // a freshly reported value wins over the cache
    let turn3 = obs_game(vec![obs_monster("Cultist", 40, 9)]);
    let st3 = CombatState::from_communication_mod(&turn3, Some(&st2)).unwrap();
    assert_eq!(st3.monsters[0].innate_damage_amount, Some(9));
}

#[test]
fn ingestion_without_combat_yields_none() {
    let game = communication::GameState { ascension_level: 0, combat_state: None };
    assert!(CombatState::from_communication_mod(&game, None).is_none());
}

#[test]
fn identifier_lookup_matches_names_exactly() {
    assert_eq!(CardId::from_name("Bash"), CardId::Bash);
    assert_eq!(CardId::from_name("Strike_R"), CardId::Strike);
    assert_eq!(CardId::from_name("Strike"), CardId::Unknown);
    assert_eq!(PowerId::from_name("Vulnerable"), PowerId::Vulnerable);
    assert_eq!(PowerId::from_name("vulnerable"), PowerId::Unknown);
    assert_eq!(MonsterId::from_name("JawWorm"), MonsterId::JawWorm);
    assert_eq!(MonsterId::from_name(""), MonsterId::Unknown);
}
