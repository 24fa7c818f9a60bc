use std::collections::VecDeque;

use card_battler::actions::DynAction;
use card_battler::cards::CardId;
use card_battler::monsters::MonsterId;
use card_battler::powers::PowerId;
use card_battler::simulation::{run_until_unable, CreatureIndex, DamageInfo, DamageType, Runner};
use card_battler::simulation_state::{
    CardInfo, CardType, CombatState, Creature, Monster, Player, Power, SingleCard,
};

fn card(id: CardId) -> SingleCard {
    let info = CardInfo::from(id);
    SingleCard { misc: 0, cost: info.normal_cost, upgrades: 0, card_info: info }
}

fn power(id: PowerId, amount: i32) -> Power {
    Power { power_id: id, amount, damage: 0, card: None, misc: 0, just_applied: false }
}

fn monster(hp: i32, powers: Vec<Power>) -> Monster {
    Monster {
        monster_id: MonsterId::Cultist,
        innate_damage_amount: None,
        ascension: 0,
        creature: Creature { hitpoints: hp, max_hitpoints: hp, block: 0, powers },
        move_history: vec![1],
        gone: false,
    }
}

fn state(energy: i32, hand: Vec<SingleCard>, monsters: Vec<Monster>) -> CombatState {
    CombatState {
        draw_pile: vec![],
        discard_pile: vec![],
        exhaust_pile: vec![],
        hand,
        limbo: vec![],
        card_in_play: None,
        player: Player {
            creature: Creature { hitpoints: 70, max_hitpoints: 80, block: 0, powers: vec![] },
            energy,
        },
        monsters,
        fresh_subaction_queue: vec![],
        stale_subaction_stack: vec![],
        actions: VecDeque::new(),
    }
}

#[test]
fn combat_over_iff_player_dead_or_all_monsters_gone() {
    let mut s = state(3, vec![], vec![monster(10, vec![])]);
    assert!(!s.combat_over());
    s.player.creature.hitpoints = 0;
    assert!(s.combat_over());
    s.player.creature.hitpoints = 10;
    s.monsters[0].gone = true;
    assert!(s.combat_over());
    let empty = state(3, vec![], vec![]);
    assert!(empty.combat_over());
}

#[test]
fn apply_powers_chains_strength_weak_vulnerable_exactly() {
    // (8 + 2) * 3/4 * 3/2 = 11.25, truncated once at the end
    let mut s = state(3, vec![], vec![monster(
        30,
        vec![power(PowerId::Vulnerable, 1)],
    )]);
    s.player.creature.powers = vec![power(PowerId::Strength, 2), power(PowerId::Weak, 1)];
    let mut info = DamageInfo::new(CreatureIndex::Player, 8, DamageType::Normal);
    info.apply_powers(&s, CreatureIndex::Player, CreatureIndex::Monster(0));
    assert_eq!(info.output, 11);
}

#[test]
fn apply_powers_floors_at_zero() {
    let s = state(3, vec![], vec![monster(30, vec![])]);
    let mut info = DamageInfo::new(CreatureIndex::Player, -5, DamageType::Normal);
    info.apply_powers(&s, CreatureIndex::Player, CreatureIndex::Monster(0));
    assert_eq!(info.output, 0);
}

#[test]
fn resolution_runs_subactions_in_generation_order_before_next_action() {
    // A = play Bash (queues its damage, then its vulnerable, then finish),
    // B = a queued top-level hit.  Order must be A, X, Y, B: B's damage is
    // amplified by the vulnerable that A's own subactions applied, while
    // A's damage is not.
    let s = state(3, vec![card(CardId::Bash)], vec![monster(30, vec![])]);
    let mut runner = Runner::new(s, false, false);
    let bash = card(CardId::Bash);
    runner.action_bottom(DynAction::PlayCard { card: bash, target: 0 });
    runner.action_bottom(DynAction::DamageAction {
        target: CreatureIndex::Monster(0),
        info: DamageInfo::new(CreatureIndex::Player, 4, DamageType::Normal),
    });
    run_until_unable(&mut runner);
    // Bash: 30 - 8 = 22, then Vulnerable 2 applied, then B: 4 * 3/2 = 6
    assert_eq!(runner.state().monsters[0].creature.hitpoints, 16);
    assert!(runner.state().get_creature(CreatureIndex::Monster(0)).has_power(PowerId::Vulnerable));
    assert_eq!(runner.state().player.energy, 1);
    assert_eq!(runner.state().discard_pile.len(), 1);
}

#[test]
fn action_top_interrupts_queued_actions() {
    let s = state(3, vec![], vec![monster(10, vec![])]);
    let mut runner = Runner::new(s, false, false);
    runner.action_bottom(DynAction::ApplyPowerAction {
        target: CreatureIndex::Monster(0),
        power_id: PowerId::Vulnerable,
        amount: 2,
    });
    runner.action_top(DynAction::DamageAction {
        target: CreatureIndex::Monster(0),
        info: DamageInfo::new(CreatureIndex::Player, 4, DamageType::Normal),
    });
    run_until_unable(&mut runner);
    // the damage ran first, before vulnerable landed
    assert_eq!(runner.state().monsters[0].creature.hitpoints, 6);
}

#[test]
fn action_bottom_runs_after_queued_actions() {
    let s = state(3, vec![], vec![monster(10, vec![])]);
    let mut runner = Runner::new(s, false, false);
    runner.action_bottom(DynAction::ApplyPowerAction {
        target: CreatureIndex::Monster(0),
        power_id: PowerId::Vulnerable,
        amount: 2,
    });
    runner.action_bottom(DynAction::DamageAction {
        target: CreatureIndex::Monster(0),
        info: DamageInfo::new(CreatureIndex::Player, 4, DamageType::Normal),
    });
    run_until_unable(&mut runner);
    // vulnerable landed first: 4 * 3/2 = 6
    assert_eq!(runner.state().monsters[0].creature.hitpoints, 4);
}

#[test]
fn legal_choices_dedups_value_equal_cards() {
    let s = state(1, vec![card(CardId::Strike), card(CardId::Strike)], vec![monster(
        10,
        vec![],
    )]);
    let choices = s.legal_choices();
    assert!(matches!(choices[0], DynAction::EndTurn));
    let plays: Vec<_> = choices
        .iter()
        .filter(|c| matches!(c, DynAction::PlayCard { .. }))
        .collect();
    assert_eq!(plays.len(), 1);
}

#[test]
fn legal_choices_expands_targets_over_live_monsters() {
    let mut gone_monster = monster(10, vec![]);
    gone_monster.gone = true;
    let s = state(3, vec![card(CardId::Strike)], vec![
        monster(10, vec![]),
        gone_monster,
        monster(12, vec![]),
    ]);
    let choices = s.legal_choices();
    assert_eq!(choices.len(), 3);
    assert!(matches!(choices[1], DynAction::PlayCard { target: 0, .. }));
    assert!(matches!(choices[2], DynAction::PlayCard { target: 2, .. }));
}

#[test]
fn legal_choices_untargeted_card_appears_once() {
    let s = state(3, vec![card(CardId::Defend)], vec![monster(10, vec![]), monster(9, vec![])]);
    let choices = s.legal_choices();
    assert_eq!(choices.len(), 2);
    assert!(matches!(choices[1], DynAction::PlayCard { target: 0, .. }));
}

#[test]
fn entangled_blocks_attacks_only() {
    let mut s = state(3, vec![card(CardId::Strike), card(CardId::Defend)], vec![monster(
        10,
        vec![],
    )]);
    s.player.creature.powers = vec![power(PowerId::Entangled, 1)];
    assert!(!s.card_playable(&card(CardId::Strike)));
    assert!(s.card_playable(&card(CardId::Defend)));
}

#[test]
fn card_playable_checks_cost_and_energy() {
    let s = state(1, vec![], vec![monster(10, vec![])]);
    assert!(s.card_playable(&card(CardId::Strike)));
    assert!(!s.card_playable(&card(CardId::Bash)));
    assert!(!s.card_playable(&card(CardId::Injury)));
    let mut x_cost = card(CardId::Strike);
    x_cost.cost = -1;
    let broke = state(0, vec![], vec![monster(10, vec![])]);
    assert!(broke.card_playable(&x_cost));
}

#[test]
fn playing_a_card_pays_costs_and_deals_posthook_damage() {
    let s = state(3, vec![card(CardId::Bash)], vec![monster(10, vec![])]);
    let choices = s.legal_choices();
    let play = choices
        .iter()
        .find(|c| matches!(c, DynAction::PlayCard { .. }))
        .copied()
        .unwrap();
    let mut runner = Runner::new(s, false, false);
    runner.action_now(&play);
    run_until_unable(&mut runner);
    assert_eq!(runner.state().monsters[0].creature.hitpoints, 2);
    assert_eq!(runner.state().player.energy, 1);
    assert!(runner.state().hand.is_empty());
    assert_eq!(runner.state().discard_pile.len(), 1);
}

#[test]
fn exhausting_card_leaves_play_into_exhaust_pile() {
    let mut ethereal_bash = card(CardId::Bash);
    ethereal_bash.card_info.exhausts = true;
    let s = state(3, vec![ethereal_bash], vec![monster(20, vec![])]);
    let mut runner = Runner::new(s, false, false);
    runner.action_bottom(DynAction::PlayCard { card: ethereal_bash, target: 0 });
    run_until_unable(&mut runner);
    assert!(runner.state().discard_pile.is_empty());
    assert_eq!(runner.state().exhaust_pile.len(), 1);
}

#[test]
fn disallowed_random_action_blocks_the_loop() {
    let s = state(3, vec![], vec![monster(10, vec![])]);
    let mut runner = Runner::new(s, false, false);
    let gamble = DynAction::GainBlockRandom {
        target: CreatureIndex::Player,
        prob_num: 1,
        prob_den: 3,
        then_amount: 5,
        else_amount: 9,
    };
    assert!(!runner.can_apply(&gamble));
    runner.action_bottom(gamble);
    run_until_unable(&mut runner);
    // the loop halted on the unresolved action instead of sampling
    assert_eq!(runner.state().player.creature.block, 0);
    assert_eq!(runner.state().stale_subaction_stack.len(), 1);
    assert!(runner.state().fresh_subaction_queue.is_empty());
}

#[test]
fn allowed_random_action_samples_one_of_its_outcomes() {
    let s = state(3, vec![], vec![monster(10, vec![])]);
    let mut runner = Runner::new(s, true, false);
    let gamble = DynAction::GainBlockRandom {
        target: CreatureIndex::Player,
        prob_num: 1,
        prob_den: 3,
        then_amount: 5,
        else_amount: 9,
    };
    assert!(runner.can_apply(&gamble));
    runner.action_bottom(gamble);
    run_until_unable(&mut runner);
    let block = runner.state().player.creature.block;
    assert!(block == 5 || block == 9);
    assert!(runner.state().stale_subaction_stack.is_empty());
}

#[test]
fn single_outcome_random_action_is_effectively_certain() {
    let s = state(3, vec![], vec![monster(10, vec![])]);
    let mut runner = Runner::new(s, false, false);
    let sure = DynAction::GainBlockRandom {
        target: CreatureIndex::Player,
        prob_num: 1,
        prob_den: 2,
        then_amount: 7,
        else_amount: 7,
    };
    assert!(runner.can_apply(&sure));
    runner.action_bottom(sure);
    run_until_unable(&mut runner);
    assert_eq!(runner.state().player.creature.block, 7);
}

#[test]
fn end_turn_discards_hand_and_resets_energy() {
    let s = state(0, vec![card(CardId::Strike), card(CardId::Defend)], vec![monster(
        10,
        vec![],
    )]);
    let mut runner = Runner::new(s, false, false);
    runner.action_bottom(DynAction::EndTurn);
    run_until_unable(&mut runner);
    assert!(runner.state().hand.is_empty());
    assert_eq!(runner.state().discard_pile.len(), 2);
    assert_eq!(runner.state().player.energy, 3);
}

#[test]
fn damage_is_absorbed_by_block_and_hitpoint_loss_bypasses_it() {
    let mut s = state(3, vec![], vec![monster(10, vec![])]);
    s.monsters[0].creature.block = 5;
    let mut runner = Runner::new(s, false, false);
    runner.action_bottom(DynAction::DamageAction {
        target: CreatureIndex::Monster(0),
        info: DamageInfo::new(CreatureIndex::Player, 7, DamageType::Normal),
    });
    run_until_unable(&mut runner);
    assert_eq!(runner.state().monsters[0].creature.block, 0);
    assert_eq!(runner.state().monsters[0].creature.hitpoints, 8);

    let mut s2 = state(3, vec![], vec![monster(10, vec![])]);
    s2.monsters[0].creature.block = 5;
    let mut runner2 = Runner::new(s2, false, false);
    runner2.action_bottom(DynAction::DamageAction {
        target: CreatureIndex::Monster(0),
        info: DamageInfo::new(CreatureIndex::Player, 7, DamageType::HitpointLoss),
    });
    run_until_unable(&mut runner2);
    assert_eq!(runner2.state().monsters[0].creature.block, 5);
    assert_eq!(runner2.state().monsters[0].creature.hitpoints, 3);
}

#[test]
fn lethal_damage_marks_monster_gone() {
    let s = state(3, vec![], vec![monster(5, vec![])]);
    let mut runner = Runner::new(s, false, false);
    runner.action_bottom(DynAction::DamageAction {
        target: CreatureIndex::Monster(0),
        info: DamageInfo::new(CreatureIndex::Player, 9, DamageType::Normal),
    });
    run_until_unable(&mut runner);
    assert_eq!(runner.state().monsters[0].creature.hitpoints, 0);
    assert!(runner.state().monsters[0].gone);
    assert!(runner.state().combat_over());
}

#[test]
fn power_amount_sums_matching_entries() {
    let c = Creature {
        hitpoints: 10,
        max_hitpoints: 10,
        block: 0,
        powers: vec![
            power(PowerId::Strength, 2),
            power(PowerId::Weak, 1),
            power(PowerId::Strength, 3),
        ],
    };
    assert_eq!(c.power_amount(PowerId::Strength), 5);
    assert_eq!(c.power_amount(PowerId::Vulnerable), 0);
    assert!(c.has_power(PowerId::Weak));
    assert!(!c.has_power(PowerId::Entangled));
}

#[test]
fn monster_intents_track_history() {
    let mut m = monster(10, vec![]);
    m.push_intent(4);
    assert_eq!(m.intent(), 4);
    let s = state(3, vec![], vec![m]);
    assert_eq!(s.monster_intent(0), 4);
}

#[test]
fn runner_exposes_state_and_debug_log() {
    let s = state(3, vec![], vec![monster(10, vec![])]);
    let mut runner = Runner::new(s, false, true);
    assert_eq!(runner.state().player.energy, 3);
    runner.state_mut().player.energy = 2;
    assert_eq!(runner.state().player.energy, 2);
    assert!(runner.debug_log().is_empty());
    runner.apply_impl(&DynAction::EndTurn);
    assert!(!runner.debug_log().is_empty());
}

#[test]
fn get_creature_reaches_player_and_monsters() {
    let mut s = state(3, vec![], vec![monster(10, vec![])]);
    assert_eq!(s.get_creature(CreatureIndex::Player).hitpoints, 70);
    assert_eq!(s.get_creature(CreatureIndex::Monster(0)).hitpoints, 10);
    s.get_creature_mut(CreatureIndex::Monster(0)).block = 4;
    assert_eq!(s.monsters[0].creature.block, 4);
}

#[test]
fn power_list_cap_drops_further_stacks() {
    let mut powers = Vec::new();
    for _ in 0..12 {
        powers.push(power(PowerId::Strength, 1));
    }
    let s = state(3, vec![], vec![monster(10, powers)]);
    let mut runner = Runner::new(s, false, false);
    runner.action_bottom(DynAction::ApplyPowerAction {
        target: CreatureIndex::Monster(0),
        power_id: PowerId::Vulnerable,
        amount: 2,
    });
    run_until_unable(&mut runner);
    assert_eq!(runner.state().monsters[0].creature.powers.len(), 12);
    assert!(!runner.state().monsters[0].creature.has_power(PowerId::Vulnerable));
}

#[test]
fn resolution_stops_once_combat_is_over() {
    let mut s = state(3, vec![], vec![monster(10, vec![])]);
    s.player.creature.hitpoints = 0;
    let mut runner = Runner::new(s, false, false);
    runner.action_bottom(DynAction::GainBlockAction {
        target: CreatureIndex::Player,
        amount: 5,
    });
    run_until_unable(&mut runner);
    // the queued action never ran
    assert_eq!(runner.state().player.creature.block, 0);
    assert_eq!(runner.state().actions.len(), 1);
}
