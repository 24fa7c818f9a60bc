//! The closed sum type of actions: every effect the engine can queue or
//! resolve, with its declared determinism and its execution definition.
//! The full action vocabulary is fixed, so heterogeneous queues hold this
//! enum rather than trait objects.
//!
//! Executing an action never re-enters the resolution loop: effects an
//! action generates are deferred onto the fresh-subaction queue and drained
//! by the loop in generation order.

use vstd::prelude::*;
use crate::cards::{CardId, X_COST};
use crate::distribution::Distribution;
use crate::powers::{PowerId, MAX_POWERS};
use crate::simulation::{
    spec_apply_powers, CreatureIndex, DamageInfo, DamageType, Determinism, Runner,
    spec_replace_creature,
};
use crate::simulation_state::{CombatState, Creature, Monster, Power, SingleCard};

verus! {

/// Energy the player holds at the start of each turn.
pub const ENERGY_PER_TURN: i32 = 3;

/// A unit of effect with a declared determinism and an execution procedure.
#[derive(Copy, Clone, Debug, PartialEq, Eq, Structural)]
#[allow(inconsistent_fields)]
pub enum DynAction {
    /// Pay for a card, move it out of hand, and queue its effects.
    PlayCard { card: SingleCard, target: usize },
    /// Move the card currently being played to its destination pile.
    FinishPlayingCard,
    /// Discard the hand and reset the player's energy.
    EndTurn,
    /// Deal damage through the power-hook pipeline.
    DamageAction { target: CreatureIndex, info: DamageInfo },
    /// Add stacks of a power to a creature.
    ApplyPowerAction { target: CreatureIndex, power_id: PowerId, amount: i32 },
    /// Add block to a creature.
    GainBlockAction { target: CreatureIndex, amount: i32 },
    /// Add block drawn from a weighted two-outcome distribution:
    /// `then_amount` with relative weight `prob_num`, `else_amount` with
    /// relative weight `prob_den - prob_num`.
    GainBlockRandom {
        target: CreatureIndex,
        prob_num: u64,
        prob_den: u64,
        then_amount: i32,
        else_amount: i32,
    },
}

/// The reference names a valid position among `n` monster slots.
pub open spec fn spec_valid_index_n(n: int, index: CreatureIndex) -> bool {
    match index {
        CreatureIndex::Player => true,
        CreatureIndex::Monster(i) => i < n,
    }
}

/// Validity of one action's own targets and parameters, against a state
/// with `n` monster slots.
pub open spec fn spec_leaf_action_wf(a: DynAction, n: int) -> bool {
    match a {
        DynAction::PlayCard { .. } => true,
        DynAction::FinishPlayingCard => true,
        DynAction::EndTurn => true,
        DynAction::DamageAction { target, info } => spec_valid_index_n(n, target)
            && spec_valid_index_n(n, info.owner),
        DynAction::ApplyPowerAction { target, .. } => spec_valid_index_n(n, target),
        DynAction::GainBlockAction { target, .. } => spec_valid_index_n(n, target),
        DynAction::GainBlockRandom { target, prob_num, prob_den, .. } => {
            &&& spec_valid_index_n(n, target)
            &&& 0 < prob_den
            &&& prob_num <= prob_den
        },
    }
}

/// An action's targets are valid positions among `n` monster slots, and so
/// are the targets of every effect it generates.  Monsters are never
/// removed from the collection, so validity is preserved by every
/// execution step.
/// Every effect a card play generates is well formed for `n` monster
/// slots.
pub open spec fn spec_effects_wf(card: SingleCard, target: usize, n: int) -> bool {
    forall|k: int|
        0 <= k < spec_card_effects(card, target).len() ==> spec_leaf_action_wf(
            #[trigger] spec_card_effects(card, target)[k],
            n,
        )
}

pub open spec fn spec_action_wf(a: DynAction, n: int) -> bool {
    &&& spec_leaf_action_wf(a, n)
    &&& match a {
        DynAction::PlayCard { card, target } => (card.card_info.has_target ==> target < n)
            && spec_effects_wf(card, target, n),
        _ => true,
    }
}

/// Termination rank of one action: an upper bound (plus one) on the total
/// rank of the effects its execution can generate.
pub open spec fn action_rank(a: DynAction) -> int {
    match a {
        DynAction::PlayCard { .. } => 5,
        _ => 1,
    }
}

/// Total rank of a queue of actions.
pub open spec fn seq_rank(s: Seq<DynAction>) -> int
    decreases s.len(),
{
    if s.len() == 0 {
        0
    } else {
        seq_rank(s.drop_last()) + action_rank(s.last())
    }
}

/// Total rank of every action queued in a state: the resolution loop's
/// termination measure.
pub open spec fn queue_rank(s: CombatState) -> int {
    seq_rank(s.fresh_subaction_queue@) + seq_rank(s.stale_subaction_stack@) + seq_rank(s.actions@)
}

pub proof fn lemma_seq_rank_nonneg(s: Seq<DynAction>)
    ensures
        0 <= seq_rank(s),
    decreases s.len(),
{
    if s.len() > 0 {
        lemma_seq_rank_nonneg(s.drop_last());
    }
}

pub proof fn lemma_seq_rank_push(s: Seq<DynAction>, a: DynAction)
    ensures
        seq_rank(s.push(a)) == seq_rank(s) + action_rank(a),
{
    assert(s.push(a).drop_last() =~= s);
    assert(s.push(a).last() == a);
}

pub proof fn lemma_seq_rank_concat(s: Seq<DynAction>, t: Seq<DynAction>)
    ensures
        seq_rank(s + t) == seq_rank(s) + seq_rank(t),
    decreases t.len(),
{
    if t.len() == 0 {
        assert(s + t =~= s);
    } else {
        lemma_seq_rank_concat(s, t.drop_last());
        assert((s + t).drop_last() =~= s + t.drop_last());
        assert((s + t).last() == t.last());
    }
}

/// Popping the front of a queue removes exactly its rank.
pub proof fn lemma_seq_rank_pop_front(s: Seq<DynAction>)
    requires
        s.len() > 0,
    ensures
        seq_rank(s.subrange(1, s.len() as int)) == seq_rank(s) - action_rank(s[0]),
{
    assert(s =~= seq![s[0]] + s.subrange(1, s.len() as int));
    lemma_seq_rank_concat(seq![s[0]], s.subrange(1, s.len() as int));
    assert(seq![s[0]].drop_last() =~= Seq::<DynAction>::empty());
    assert(seq![s[0]].last() == s[0]);
    assert(seq_rank(Seq::<DynAction>::empty()) == 0);
    assert(seq_rank(seq![s[0]]) == action_rank(s[0]));
}

/// A queue of rank-one actions has rank equal to its length.
pub proof fn lemma_seq_rank_leaves(s: Seq<DynAction>)
    requires
        forall|i: int| 0 <= i < s.len() ==> action_rank(#[trigger] s[i]) == 1,
    ensures
        seq_rank(s) == s.len(),
    decreases s.len(),
{
    if s.len() > 0 {
        assert forall|i: int|
            0 <= i < s.drop_last().len() implies action_rank(#[trigger] s.drop_last()[i])
            == 1 by {
            assert(s.drop_last()[i] == s[i]);
        }
        lemma_seq_rank_leaves(s.drop_last());
        assert(action_rank(s.last()) == 1);
    }
}

/// A card's generated effects rank strictly below the play action itself.
pub proof fn lemma_effects_rank(card: SingleCard, target: usize)
    ensures
        seq_rank(spec_card_effects(card, target)) < action_rank(
            DynAction::PlayCard { card, target },
        ),
{
    let e = spec_card_effects(card, target);
    assert forall|i: int| 0 <= i < e.len() implies action_rank(#[trigger] e[i]) == 1 by {
        assert(!(e[i] matches DynAction::PlayCard { .. }));
    }
    lemma_seq_rank_leaves(e);
    assert(e.len() <= 3);
}

/// Executing an action deterministically lowers the state's queued rank
/// below what the action itself contributed.
pub proof fn lemma_execute_rel_rank(a: DynAction, s1: CombatState, s2: CombatState)
    requires
        spec_execute_rel(a, s1, s2),
        !spec_is_random(a),
    ensures
        queue_rank(s2) <= queue_rank(s1) + action_rank(a) - 1,
{
    match a {
        DynAction::PlayCard { card, target } => {
            if spec_first_index(s1.hand@, card) < 0 {
            } else {
                lemma_seq_rank_concat(s1.fresh_subaction_queue@, spec_card_effects(card, target));
                lemma_effects_rank(card, target);
            }
        },
        _ => {},
    }
}

/// Executing an action through the random path leaves the queued rank
/// unchanged.
pub proof fn lemma_execute_random_rel_rank(
    a: DynAction,
    v: i32,
    s1: CombatState,
    s2: CombatState,
)
    requires
        spec_execute_random_rel(a, v, s1, s2),
    ensures
        queue_rank(s2) == queue_rank(s1),
{
}

/// The action resolves to one of several weighted outcomes rather than a
/// single fixed effect.
pub open spec fn spec_is_random(a: DynAction) -> bool {
    a matches DynAction::GainBlockRandom { .. }
}

/// Relative weight of outcome `v` for a random action.
pub open spec fn spec_random_weight(a: DynAction, v: i32) -> int {
    match a {
        DynAction::GainBlockRandom { prob_num, prob_den, then_amount, else_amount, .. } => (
        if v == then_amount {
            prob_num as int
        } else {
            0
        }) + (if v == else_amount {
            prob_den - prob_num
        } else {
            0
        }),
        _ => 0,
    }
}

/// A random action whose distribution has exactly one possible outcome.
pub open spec fn spec_random_singleton(a: DynAction) -> bool {
    match a {
        DynAction::GainBlockRandom { then_amount, else_amount, .. } => then_amount == else_amount,
        _ => false,
    }
}

/// The effects a card play queues, in order.
pub open spec fn spec_card_effects(card: SingleCard, target: usize) -> Seq<DynAction> {
    match card.card_info.id {
        CardId::Strike => seq![
            DynAction::DamageAction {
                target: CreatureIndex::Monster(target),
                info: DamageInfo {
                    damage_type: DamageType::Normal,
                    owner: CreatureIndex::Player,
                    base: 6,
                    output: 6,
                },
            },
            DynAction::FinishPlayingCard,
        ],
        CardId::Defend => seq![
            DynAction::GainBlockAction { target: CreatureIndex::Player, amount: 5 },
            DynAction::FinishPlayingCard,
        ],
        CardId::Bash => seq![
            DynAction::DamageAction {
                target: CreatureIndex::Monster(target),
                info: DamageInfo {
                    damage_type: DamageType::Normal,
                    owner: CreatureIndex::Player,
                    base: 8,
                    output: 8,
                },
            },
            DynAction::ApplyPowerAction {
                target: CreatureIndex::Monster(target),
                power_id: PowerId::Vulnerable,
                amount: 2,
            },
            DynAction::FinishPlayingCard,
        ],
        _ => seq![DynAction::FinishPlayingCard],
    }
}

fn card_effects(card: &SingleCard, target: usize) -> (r: Vec<DynAction>)
    ensures
        r@ == spec_card_effects(*card, target),
{
    let mut v: Vec<DynAction> = Vec::new();
    match card.card_info.id {
        CardId::Strike => {
            v.push(
                DynAction::DamageAction {
                    target: CreatureIndex::Monster(target),
                    info: DamageInfo {
                        damage_type: DamageType::Normal,
                        owner: CreatureIndex::Player,
                        base: 6,
                        output: 6,
                    },
                },
            );
            v.push(DynAction::FinishPlayingCard);
        },
        CardId::Defend => {
            v.push(DynAction::GainBlockAction { target: CreatureIndex::Player, amount: 5 });
            v.push(DynAction::FinishPlayingCard);
        },
        CardId::Bash => {
            v.push(
                DynAction::DamageAction {
                    target: CreatureIndex::Monster(target),
                    info: DamageInfo {
                        damage_type: DamageType::Normal,
                        owner: CreatureIndex::Player,
                        base: 8,
                        output: 8,
                    },
                },
            );
            v.push(
                DynAction::ApplyPowerAction {
                    target: CreatureIndex::Monster(target),
                    power_id: PowerId::Vulnerable,
                    amount: 2,
                },
            );
            v.push(DynAction::FinishPlayingCard);
        },
        _ => {
            v.push(DynAction::FinishPlayingCard);
        },
    }
    proof {
        assert(v@ =~= spec_card_effects(*card, target));
    }
    v
}

/// Index of the first card in `hand` equal to `card`, or -1.
pub open spec fn spec_first_index(hand: Seq<SingleCard>, card: SingleCard) -> int
    decreases hand.len(),
{
    if hand.len() == 0 {
        -1
    } else if hand[0] == card {
        0
    } else {
        let rest = spec_first_index(hand.drop_first(), card);
        if rest < 0 {
            -1
        } else {
            rest + 1
        }
    }
}

/// Energy paid when playing a card: an X-cost card consumes all energy, a
/// costed card consumes its cost capped at available energy.
pub open spec fn spec_card_payment(cost: i32, energy: i32) -> int {
    if cost == X_COST {
        energy as int
    } else if cost < 0 {
        0
    } else if cost <= energy {
        cost as int
    } else {
        energy as int
    }
}

/// Effect of playing a card: remove its first value-equal occurrence from
/// hand, pay for it, set it as the card in play, and queue its effects.
/// When the card is no longer in hand the play is a no-op.
pub open spec fn spec_play_card_rel(
    card: SingleCard,
    target: usize,
    s1: CombatState,
    s2: CombatState,
) -> bool {
    let idx = spec_first_index(s1.hand@, card);
    if idx < 0 {
        s2 == s1
    } else {
        &&& s2.hand@ == s1.hand@.remove(idx)
        &&& s2.card_in_play == Some(card)
        &&& s2.player.energy == s1.player.energy - spec_card_payment(card.cost, s1.player.energy)
        &&& s2.player.creature == s1.player.creature
        &&& s2.fresh_subaction_queue@ == s1.fresh_subaction_queue@ + spec_card_effects(
            card,
            target,
        )
        &&& s2.stale_subaction_stack@ == s1.stale_subaction_stack@
        &&& s2.actions@ == s1.actions@
        &&& s2.draw_pile@ == s1.draw_pile@
        &&& s2.discard_pile@ == s1.discard_pile@
        &&& s2.exhaust_pile@ == s1.exhaust_pile@
        &&& s2.limbo@ == s1.limbo@
        &&& s2.monsters@ == s1.monsters@
    }
}

/// Effect of finishing a card play: the card in play moves to the exhaust
/// pile when it exhausts, else to the discard pile.
pub open spec fn spec_finish_playing_rel(s1: CombatState, s2: CombatState) -> bool {
    match s1.card_in_play {
        None => s2 == s1,
        Some(c) => {
            &&& s2.card_in_play == None::<SingleCard>
            &&& if c.card_info.exhausts {
                s2.exhaust_pile@ == s1.exhaust_pile@.push(c) && s2.discard_pile@
                    == s1.discard_pile@
            } else {
                s2.discard_pile@ == s1.discard_pile@.push(c) && s2.exhaust_pile@
                    == s1.exhaust_pile@
            }
            &&& s2.hand@ == s1.hand@
            &&& s2.draw_pile@ == s1.draw_pile@
            &&& s2.limbo@ == s1.limbo@
            &&& s2.player == s1.player
            &&& s2.monsters@ == s1.monsters@
            &&& s2.fresh_subaction_queue@ == s1.fresh_subaction_queue@
            &&& s2.stale_subaction_stack@ == s1.stale_subaction_stack@
            &&& s2.actions@ == s1.actions@
        },
    }
}

/// Effect of ending the turn: the hand is discarded in order and energy
/// resets.
pub open spec fn spec_end_turn_rel(s1: CombatState, s2: CombatState) -> bool {
    &&& s2.discard_pile@ == s1.discard_pile@ + s1.hand@
    &&& s2.hand@ == Seq::<SingleCard>::empty()
    &&& s2.player.energy == ENERGY_PER_TURN
    &&& s2.player.creature == s1.player.creature
    &&& s2.draw_pile@ == s1.draw_pile@
    &&& s2.exhaust_pile@ == s1.exhaust_pile@
    &&& s2.limbo@ == s1.limbo@
    &&& s2.card_in_play == s1.card_in_play
    &&& s2.monsters@ == s1.monsters@
    &&& s2.fresh_subaction_queue@ == s1.fresh_subaction_queue@
    &&& s2.stale_subaction_stack@ == s1.stale_subaction_stack@
    &&& s2.actions@ == s1.actions@
}

/// A creature after taking `d` final damage: hitpoint loss bypasses block,
/// other damage is absorbed by block first; hitpoints floor at zero.
pub open spec fn spec_damage_creature(c: Creature, d: int, dtype: DamageType) -> Creature {
    if dtype == DamageType::HitpointLoss {
        Creature {
            hitpoints: if c.hitpoints - d < 0 {
                0
            } else {
                (c.hitpoints - d) as i32
            },
            ..c
        }
    } else {
        let blocked = if (c.block as int) < d {
            c.block as int
        } else {
            d
        };
        let through = d - blocked;
        Creature {
            hitpoints: if c.hitpoints - through < 0 {
                0
            } else {
                (c.hitpoints - through) as i32
            },
            block: (c.block - blocked) as i32,
            ..c
        }
    }
}

/// Effect of a damage action: the pipeline's output is applied to the
/// target; a monster whose hitpoints reach zero is marked gone.
pub open spec fn spec_damage_rel(
    target: CreatureIndex,
    info: DamageInfo,
    s1: CombatState,
    s2: CombatState,
) -> bool {
    let d = spec_apply_powers(s1, info.owner, target, info.base, info.damage_type);
    let c2 = spec_damage_creature(s1.spec_get_creature(target), d, info.damage_type);
    match target {
        CreatureIndex::Player => spec_replace_creature(s1, s2, target, c2),
        CreatureIndex::Monster(i) => {
            &&& spec_same_but_monsters(s1, s2)
            &&& s2.monsters@ == s1.monsters@.update(
                i as int,
                Monster {
                    creature: c2,
                    gone: s1.monsters@[i as int].gone || c2.hitpoints == 0,
                    ..s1.monsters@[i as int]
                },
            )
        },
    }
}

/// All fields of the two states agree except the monster collection.
pub open spec fn spec_same_but_monsters(s1: CombatState, s2: CombatState) -> bool {
    &&& s2.draw_pile@ == s1.draw_pile@
    &&& s2.discard_pile@ == s1.discard_pile@
    &&& s2.exhaust_pile@ == s1.exhaust_pile@
    &&& s2.hand@ == s1.hand@
    &&& s2.limbo@ == s1.limbo@
    &&& s2.card_in_play == s1.card_in_play
    &&& s2.player == s1.player
    &&& s2.fresh_subaction_queue@ == s1.fresh_subaction_queue@
    &&& s2.stale_subaction_stack@ == s1.stale_subaction_stack@
    &&& s2.actions@ == s1.actions@
}

/// Effect of applying a power: a new stack entry is appended, marked just
/// applied, unless the machine bound on power-list length is reached.
pub open spec fn spec_apply_power_rel(
    target: CreatureIndex,
    power_id: PowerId,
    amount: i32,
    s1: CombatState,
    s2: CombatState,
) -> bool {
    let c1 = s1.spec_get_creature(target);
    let c2 = s2.spec_get_creature(target);
    &&& spec_replace_creature(s1, s2, target, c2)
    &&& c2.hitpoints == c1.hitpoints
    &&& c2.max_hitpoints == c1.max_hitpoints
    &&& c2.block == c1.block
    &&& c2.powers@ == if c1.powers.len() < MAX_POWERS {
        c1.powers@.push(
            Power { power_id, amount, damage: 0, card: None, misc: 0, just_applied: true },
        )
    } else {
        c1.powers@
    }
}

/// A creature after gaining `amount` block, clamped to [0, i32::MAX].
pub open spec fn spec_gain_block(c: Creature, amount: int) -> Creature {
    let b = c.block + amount;
    Creature {
        block: if b < 0 {
            0
        } else if b > i32::MAX {
            i32::MAX
        } else {
            b as i32
        },
        ..c
    }
}

/// Effect of executing an action through the deterministic path.
pub open spec fn spec_execute_rel(a: DynAction, s1: CombatState, s2: CombatState) -> bool {
    match a {
        DynAction::PlayCard { card, target } => spec_play_card_rel(card, target, s1, s2),
        DynAction::FinishPlayingCard => spec_finish_playing_rel(s1, s2),
        DynAction::EndTurn => spec_end_turn_rel(s1, s2),
        DynAction::DamageAction { target, info } => spec_damage_rel(target, info, s1, s2),
        DynAction::ApplyPowerAction { target, power_id, amount } => spec_apply_power_rel(
            target,
            power_id,
            amount,
            s1,
            s2,
        ),
        DynAction::GainBlockAction { target, amount } => spec_replace_creature(
            s1,
            s2,
            target,
            spec_gain_block(s1.spec_get_creature(target), amount as int),
        ),
        DynAction::GainBlockRandom { .. } => s2 == s1,
    }
}

/// Effect of executing a random action with sampled outcome `v`.
pub open spec fn spec_execute_random_rel(
    a: DynAction,
    v: i32,
    s1: CombatState,
    s2: CombatState,
) -> bool {
    match a {
        DynAction::GainBlockRandom { target, .. } => spec_replace_creature(
            s1,
            s2,
            target,
            spec_gain_block(s1.spec_get_creature(target), v as int),
        ),
        _ => s2 == s1,
    }
}

/// Apply `amount` block to a creature, clamping at the i32 range.
fn gain_block(c: &mut Creature, amount: i32)
    ensures
        *final(c) == spec_gain_block(*old(c), amount as int),
{
    let b: i64 = c.block as i64 + amount as i64;
    if b < 0 {
        c.block = 0;
    } else if b > i32::MAX as i64 {
        c.block = i32::MAX;
    } else {
        c.block = b as i32;
    }
}

/// Apply `d` final damage to a creature.
fn damage_creature(c: &mut Creature, d: i32, dtype: DamageType)
    requires
        0 <= d,
        0 <= old(c).block,
        0 <= old(c).hitpoints,
    ensures
        *final(c) == spec_damage_creature(*old(c), d as int, dtype),
{
    if dtype == DamageType::HitpointLoss {
        if c.hitpoints < d {
            c.hitpoints = 0;
        } else {
            c.hitpoints = c.hitpoints - d;
        }
    } else {
        let blocked: i32 = if c.block < d {
            c.block
        } else {
            d
        };
        let through: i32 = d - blocked;
        c.block = c.block - blocked;
        if c.hitpoints < through {
            c.hitpoints = 0;
        } else {
            c.hitpoints = c.hitpoints - through;
        }
    }
}

impl DynAction {
    /// Classify this action's outcome in the given state.  No action in the
    /// current vocabulary declares `Choice`.
    pub fn determinism(&self, state: &CombatState) -> (r: Determinism)
        requires
            spec_action_wf(*self, state.monsters.len() as int),
        ensures
            match *self {
                DynAction::GainBlockRandom {
                    prob_num,
                    prob_den,
                    then_amount,
                    else_amount,
                    ..
                } => {
                    &&& r matches Determinism::Random(d)
                    &&& d.wf()
                    &&& d.spec_total() == prob_den
                    &&& forall|v: i32| d.spec_weight(v) == spec_random_weight(*self, v)
                    &&& d.entries().len() == if then_amount == else_amount {
                        1int
                    } else {
                        2int
                    }
                },
                _ => r matches Determinism::Deterministic,
            },
    {
        match *self {
            DynAction::GainBlockRandom { prob_num, prob_den, then_amount, else_amount, .. } => {
                let base = Distribution::from_value(then_amount);
                let mut d = base.mul(prob_num);
                proof {
                    assert(d.entries() =~= seq![(prob_num, then_amount)]);
                }
                d.merge_entry(prob_den - prob_num, else_amount);
                proof {
                    assert forall|v: i32| d.spec_weight(v) == spec_random_weight(*self, v) by {
                        assert(base.spec_weight(v) == if v == then_amount {
                            1int
                        } else {
                            0
                        });
                    }
                    if then_amount == else_amount {
                        assert(seq![(prob_num, then_amount)][0].1 == else_amount);
                    }
                }
                Determinism::Random(d)
            },
            _ => Determinism::Deterministic,
        }
    }

    /// Execute through the deterministic path.  Generated effects are
    /// deferred onto the fresh-subaction queue.
    pub fn execute(&self, runner: &mut Runner)
        requires
            old(runner).state.wf(),
            spec_action_wf(*self, old(runner).state.monsters.len() as int),
            !spec_is_random(*self),
        ensures
            final(runner).state.wf(),
            spec_execute_rel(*self, old(runner).state, final(runner).state),
            final(runner).allow_random == old(runner).allow_random,
            final(runner).debug == old(runner).debug,
            final(runner).log == old(runner).log,
    {
        let ghost s1 = runner.state;
        match *self {
            DynAction::PlayCard { card, target } => {
                execute_play_card(runner, &card, target);
            },
            DynAction::FinishPlayingCard => {
                match runner.state.card_in_play {
                    Some(c) => {
                        runner.state.card_in_play = None;
                        if c.card_info.exhausts {
                            runner.state.exhaust_pile.push(c);
                        } else {
                            runner.state.discard_pile.push(c);
                        }
                    },
                    None => {},
                }
                proof {
                    lemma_queues_wf_same(s1, runner.state);
                }
            },
            DynAction::EndTurn => {
                execute_end_turn(runner);
            },
            DynAction::DamageAction { target, info } => {
                execute_damage(runner, target, info);
            },
            DynAction::ApplyPowerAction { target, power_id, amount } => {
                execute_apply_power(runner, target, power_id, amount);
            },
            DynAction::GainBlockAction { target, amount } => {
                match target {
                    CreatureIndex::Player => {
                        gain_block(&mut runner.state.player.creature, amount);
                    },
                    CreatureIndex::Monster(i) => {
                        gain_block(&mut runner.state.monsters[i].creature, amount);
                        proof {
                            assert(runner.state.monsters@ =~= s1.monsters@.update(
                                i as int,
                                Monster {
                                    creature: runner.state.monsters@[i as int].creature,
                                    ..s1.monsters@[i as int]
                                },
                            ));
                        }
                    },
                }
                proof {
                    lemma_queues_wf_same(s1, runner.state);
                }
            },
            DynAction::GainBlockRandom { .. } => {
                proof {
                    assert(false);
                }
            },
        }
    }

    /// Execute through the random path, given the sampled outcome.
    pub fn execute_random(&self, runner: &mut Runner, random_value: i32)
        requires
            old(runner).state.wf(),
            spec_action_wf(*self, old(runner).state.monsters.len() as int),
            spec_is_random(*self),
        ensures
            final(runner).state.wf(),
            spec_execute_random_rel(*self, random_value, old(runner).state, final(runner).state),
            final(runner).allow_random == old(runner).allow_random,
            final(runner).debug == old(runner).debug,
            final(runner).log == old(runner).log,
    {
        let ghost s1 = runner.state;
        match *self {
            DynAction::GainBlockRandom { target, .. } => {
                match target {
                    CreatureIndex::Player => {
                        gain_block(&mut runner.state.player.creature, random_value);
                    },
                    CreatureIndex::Monster(i) => {
                        gain_block(&mut runner.state.monsters[i].creature, random_value);
                        proof {
                            assert(runner.state.monsters@ =~= s1.monsters@.update(
                                i as int,
                                Monster {
                                    creature: runner.state.monsters@[i as int].creature,
                                    ..s1.monsters@[i as int]
                                },
                            ));
                        }
                    },
                }
                proof {
                    lemma_queues_wf_same(s1, runner.state);
                }
            },
            _ => {
                proof {
                    assert(false);
                }
            },
        }
    }
}

/// Queue well-formedness carries over to a state whose monster count and
/// queue contents are unchanged element for element.
pub proof fn lemma_queues_wf_same(s1: CombatState, s2: CombatState)
    requires
        s1.wf(),
        s2.monsters.len() == s1.monsters.len(),
        s2.fresh_subaction_queue@ == s1.fresh_subaction_queue@,
        s2.stale_subaction_stack@ == s1.stale_subaction_stack@,
        s2.actions@ == s1.actions@,
    ensures
        forall|i: int|
            0 <= i < s2.fresh_subaction_queue.len() ==> spec_action_wf(
                #[trigger] s2.fresh_subaction_queue[i],
                s2.monsters.len() as int,
            ),
        forall|i: int|
            0 <= i < s2.stale_subaction_stack.len() ==> spec_action_wf(
                #[trigger] s2.stale_subaction_stack[i],
                s2.monsters.len() as int,
            ),
        forall|i: int|
            0 <= i < s2.actions@.len() ==> spec_action_wf(
                #[trigger] s2.actions@[i],
                s2.monsters.len() as int,
            ),
{
    let n = s2.monsters.len() as int;
    assert forall|i: int|
        0 <= i < s2.fresh_subaction_queue.len() implies spec_action_wf(
        #[trigger] s2.fresh_subaction_queue[i],
        n,
    ) by {
        assert(s2.fresh_subaction_queue[i] == s1.fresh_subaction_queue[i]);
        assert(spec_action_wf(s1.fresh_subaction_queue[i], s1.monsters.len() as int));
    }
    assert forall|i: int|
        0 <= i < s2.stale_subaction_stack.len() implies spec_action_wf(
        #[trigger] s2.stale_subaction_stack[i],
        n,
    ) by {
        assert(s2.stale_subaction_stack[i] == s1.stale_subaction_stack[i]);
        assert(spec_action_wf(s1.stale_subaction_stack[i], s1.monsters.len() as int));
    }
    assert forall|i: int| 0 <= i < s2.actions@.len() implies spec_action_wf(
        #[trigger] s2.actions@[i],
        n,
    ) by {
        assert(s2.actions@[i] == s1.actions@[i]);
        assert(spec_action_wf(s1.actions@[i], s1.monsters.len() as int));
    }
}

/// The three queue well-formedness clauses of `CombatState::wf` hold of a
/// state whose queues hold only actions well formed for its monster count.
pub proof fn lemma_queues_wf_replace(s1: CombatState, s2: CombatState)
    requires
        s2.monsters.len() == s1.monsters.len(),
        forall|i: int|
            0 <= i < s2.fresh_subaction_queue.len() ==> spec_action_wf(
                #[trigger] s2.fresh_subaction_queue[i],
                s1.monsters.len() as int,
            ),
        forall|i: int|
            0 <= i < s2.stale_subaction_stack.len() ==> spec_action_wf(
                #[trigger] s2.stale_subaction_stack[i],
                s1.monsters.len() as int,
            ),
        forall|i: int|
            0 <= i < s2.actions@.len() ==> spec_action_wf(
                #[trigger] s2.actions@[i],
                s1.monsters.len() as int,
            ),
    ensures
        forall|i: int|
            0 <= i < s2.fresh_subaction_queue.len() ==> spec_action_wf(
                #[trigger] s2.fresh_subaction_queue[i],
                s2.monsters.len() as int,
            ),
        forall|i: int|
            0 <= i < s2.stale_subaction_stack.len() ==> spec_action_wf(
                #[trigger] s2.stale_subaction_stack[i],
                s2.monsters.len() as int,
            ),
        forall|i: int|
            0 <= i < s2.actions@.len() ==> spec_action_wf(
                #[trigger] s2.actions@[i],
                s2.monsters.len() as int,
            ),
{
}

/// Queue well-formedness is kept when queues shrink from either end, or
/// when the last fresh subaction moves onto the stale stack.
pub proof fn lemma_queues_wf_shift(s1: CombatState, s2: CombatState)
    requires
        s1.wf(),
        s2.monsters.len() == s1.monsters.len(),
        s2.fresh_subaction_queue@ == s1.fresh_subaction_queue@ || (
        s1.fresh_subaction_queue@.len() > 0 && s2.fresh_subaction_queue@
            == s1.fresh_subaction_queue@.drop_last()),
        s2.stale_subaction_stack@ == s1.stale_subaction_stack@ || (s1.stale_subaction_stack@.len()
            > 0 && s2.stale_subaction_stack@ == s1.stale_subaction_stack@.drop_last()) || (
        s1.fresh_subaction_queue@.len() > 0 && s2.stale_subaction_stack@
            == s1.stale_subaction_stack@.push(s1.fresh_subaction_queue@.last())),
        s2.actions@ == s1.actions@ || (s1.actions@.len() > 0 && s2.actions@ == s1.actions@.subrange(
            1,
            s1.actions@.len() as int,
        )),
    ensures
        forall|i: int|
            0 <= i < s2.fresh_subaction_queue.len() ==> spec_action_wf(
                #[trigger] s2.fresh_subaction_queue[i],
                s2.monsters.len() as int,
            ),
        forall|i: int|
            0 <= i < s2.stale_subaction_stack.len() ==> spec_action_wf(
                #[trigger] s2.stale_subaction_stack[i],
                s2.monsters.len() as int,
            ),
        forall|i: int|
            0 <= i < s2.actions@.len() ==> spec_action_wf(
                #[trigger] s2.actions@[i],
                s2.monsters.len() as int,
            ),
{
    let n = s1.monsters.len() as int;
    assert forall|i: int|
        0 <= i < s2.fresh_subaction_queue.len() implies spec_action_wf(
        #[trigger] s2.fresh_subaction_queue[i],
        n,
    ) by {
        assert(s2.fresh_subaction_queue[i] == s1.fresh_subaction_queue[i]);
        assert(spec_action_wf(s1.fresh_subaction_queue[i], n));
    }
    assert forall|i: int|
        0 <= i < s2.stale_subaction_stack.len() implies spec_action_wf(
        #[trigger] s2.stale_subaction_stack[i],
        n,
    ) by {
        if i < s1.stale_subaction_stack.len() {
            assert(s2.stale_subaction_stack[i] == s1.stale_subaction_stack[i]);
            assert(spec_action_wf(s1.stale_subaction_stack[i], n));
        } else {
            let j = s1.fresh_subaction_queue@.len() - 1;
            assert(s2.stale_subaction_stack[i] == s1.fresh_subaction_queue[j]);
            assert(spec_action_wf(s1.fresh_subaction_queue[j], n));
        }
    }
    assert forall|i: int| 0 <= i < s2.actions@.len() implies spec_action_wf(
        #[trigger] s2.actions@[i],
        n,
    ) by {
        if s2.actions@ == s1.actions@ {
            assert(s2.actions@[i] == s1.actions@[i]);
            assert(spec_action_wf(s1.actions@[i], n));
        } else {
            assert(s2.actions@[i] == s1.actions@[i + 1]);
            assert(spec_action_wf(s1.actions@[i + 1], n));
        }
    }
    lemma_queues_wf_replace(s1, s2);
}

/// Queue well-formedness is kept when one well-formed action is appended
/// to the fresh-subaction queue and nothing else changes.
pub proof fn lemma_queues_wf_push_fresh(s1: CombatState, s2: CombatState, a: DynAction)
    requires
        s1.wf(),
        s2.monsters.len() == s1.monsters.len(),
        s2.fresh_subaction_queue@ == s1.fresh_subaction_queue@.push(a),
        s2.stale_subaction_stack@ == s1.stale_subaction_stack@,
        s2.actions@ == s1.actions@,
        spec_action_wf(a, s1.monsters.len() as int),
    ensures
        forall|i: int|
            0 <= i < s2.fresh_subaction_queue.len() ==> spec_action_wf(
                #[trigger] s2.fresh_subaction_queue[i],
                s2.monsters.len() as int,
            ),
        forall|i: int|
            0 <= i < s2.stale_subaction_stack.len() ==> spec_action_wf(
                #[trigger] s2.stale_subaction_stack[i],
                s2.monsters.len() as int,
            ),
        forall|i: int|
            0 <= i < s2.actions@.len() ==> spec_action_wf(
                #[trigger] s2.actions@[i],
                s2.monsters.len() as int,
            ),
{
    let n = s1.monsters.len() as int;
    assert forall|i: int|
        0 <= i < s2.fresh_subaction_queue.len() implies spec_action_wf(
        #[trigger] s2.fresh_subaction_queue[i],
        n,
    ) by {
        if i < s1.fresh_subaction_queue.len() {
            assert(s2.fresh_subaction_queue[i] == s1.fresh_subaction_queue[i]);
            assert(spec_action_wf(s1.fresh_subaction_queue[i], n));
        } else {
            assert(s2.fresh_subaction_queue[i] == a);
        }
    }
    lemma_queues_wf_replace(s1, s2);
}

/// Queue well-formedness is kept when the top-level action sequence is
/// replaced by well-formed actions and nothing else changes.
pub proof fn lemma_queues_wf_actions(s1: CombatState, s2: CombatState, a: DynAction)
    requires
        s1.wf(),
        s2.monsters.len() == s1.monsters.len(),
        s2.fresh_subaction_queue@ == s1.fresh_subaction_queue@,
        s2.stale_subaction_stack@ == s1.stale_subaction_stack@,
        s2.actions@ == seq![a] + s1.actions@ || s2.actions@ == s1.actions@.push(a),
        spec_action_wf(a, s1.monsters.len() as int),
    ensures
        forall|i: int|
            0 <= i < s2.fresh_subaction_queue.len() ==> spec_action_wf(
                #[trigger] s2.fresh_subaction_queue[i],
                s2.monsters.len() as int,
            ),
        forall|i: int|
            0 <= i < s2.stale_subaction_stack.len() ==> spec_action_wf(
                #[trigger] s2.stale_subaction_stack[i],
                s2.monsters.len() as int,
            ),
        forall|i: int|
            0 <= i < s2.actions@.len() ==> spec_action_wf(
                #[trigger] s2.actions@[i],
                s2.monsters.len() as int,
            ),
{
    let n = s1.monsters.len() as int;
    assert forall|i: int| 0 <= i < s2.actions@.len() implies spec_action_wf(
        #[trigger] s2.actions@[i],
        n,
    ) by {
        if s2.actions@ == seq![a] + s1.actions@ {
            if i == 0 {
                assert(s2.actions@[0] == a);
            } else {
                assert(s2.actions@[i] == s1.actions@[i - 1]);
                assert(spec_action_wf(s1.actions@[i - 1], n));
            }
        } else {
            if i < s1.actions@.len() {
                assert(s2.actions@[i] == s1.actions@[i]);
                assert(spec_action_wf(s1.actions@[i], n));
            } else {
                assert(s2.actions@[i] == a);
            }
        }
    }
    lemma_queues_wf_replace(s1, s2);
}

fn execute_play_card(runner: &mut Runner, card: &SingleCard, target: usize)
    requires
        old(runner).state.wf(),
        spec_action_wf(
            DynAction::PlayCard { card: *card, target },
            old(runner).state.monsters.len() as int,
        ),
    ensures
        final(runner).state.wf(),
        spec_play_card_rel(*card, target, old(runner).state, final(runner).state),
        final(runner).allow_random == old(runner).allow_random,
        final(runner).debug == old(runner).debug,
        final(runner).log == old(runner).log,
{
    let ghost s1 = runner.state;
    // find the first value-equal occurrence in hand
    let n = runner.state.hand.len();
    let mut idx: usize = 0;
    let mut found = false;
    while !found && idx < n
        invariant
            n == s1.hand.len(),
            *runner == *old(runner),
            s1 == runner.state,
            0 <= idx <= n,
            forall|k: int| 0 <= k < idx ==> s1.hand@[k] != *card,
            found ==> idx < n && s1.hand@[idx as int] == *card,
        decreases n - idx + if found {
            0int
        } else {
            1int
        },
    {
        if runner.state.hand[idx] == *card {
            found = true;
        } else {
            idx = idx + 1;
        }
    }
    proof {
        lemma_first_index_agrees(s1.hand@, *card, idx as int, found);
    }
    if !found {
        return ;
    }
    let removed = runner.state.hand.remove(idx);
    // pay for the card
    let energy = runner.state.player.energy;
    let pay: i32 = if card.cost == X_COST {
        energy
    } else if card.cost < 0 {
        0
    } else if card.cost <= energy {
        card.cost
    } else {
        energy
    };
    runner.state.player.energy = energy - pay;
    runner.state.card_in_play = Some(*card);
    // queue the card's effects in generation order
    let effs = card_effects(card, target);
    let ghost fresh1 = runner.state.fresh_subaction_queue@;
    let ghost mid = *runner;
    let m = effs.len();
    let mut k: usize = 0;
    while k < m
        invariant
            m == effs.len(),
            0 <= k <= m,
            runner.state.fresh_subaction_queue@ == fresh1 + effs@.take(k as int),
            *runner == (Runner {
                state: CombatState {
                    fresh_subaction_queue: runner.state.fresh_subaction_queue,
                    ..mid.state
                },
                ..mid
            }),
            effs@ == spec_card_effects(*card, target),
        decreases m - k,
    {
        let e = effs[k];
        runner.state.fresh_subaction_queue.push(e);
        proof {
            assert(effs@.take(k as int + 1) =~= effs@.take(k as int).push(effs@[k as int]));
        }
        k = k + 1;
    }
    proof {
        assert(effs@.take(m as int) =~= effs@);
    }
    proof {
        let s2 = runner.state;
        let nn = s2.monsters.len() as int;
        assert(s2.monsters@ == s1.monsters@);
        assert(nn == s1.monsters.len() as int);
        assert(spec_action_wf(DynAction::PlayCard { card: *card, target }, nn));
        assert forall|i: int|
            0 <= i < s2.fresh_subaction_queue.len() implies spec_action_wf(
            #[trigger] s2.fresh_subaction_queue[i],
            nn,
        ) by {
            if i < s1.fresh_subaction_queue.len() {
                assert(s2.fresh_subaction_queue[i] == s1.fresh_subaction_queue[i]);
                assert(spec_action_wf(s1.fresh_subaction_queue[i], nn));
            } else {
                assert(fresh1 == s1.fresh_subaction_queue@);
                assert(s2.fresh_subaction_queue@ == s1.fresh_subaction_queue@ + spec_card_effects(
                    *card,
                    target,
                ));
                let kk = i - s1.fresh_subaction_queue.len();
                let e = spec_card_effects(*card, target)[kk];
                assert(s2.fresh_subaction_queue[i] == e);
                assert(spec_leaf_action_wf(spec_card_effects(*card, target)[kk], nn));
                assert(spec_action_wf(e, nn));
            }
        }
    }
}

/// The linear search result matches `spec_first_index`.
proof fn lemma_first_index_agrees(hand: Seq<SingleCard>, card: SingleCard, idx: int, found: bool)
    requires
        found ==> 0 <= idx < hand.len() && hand[idx] == card && forall|k: int|
            0 <= k < idx ==> hand[k] != card,
        !found ==> forall|k: int| 0 <= k < hand.len() ==> hand[k] != card,
    ensures
        found ==> spec_first_index(hand, card) == idx,
        !found ==> spec_first_index(hand, card) == -1,
    decreases hand.len(),
{
    if hand.len() > 0 {
        if hand[0] == card {
        } else {
            lemma_first_index_agrees(hand.drop_first(), card, idx - 1, found);
        }
    }
}

fn execute_end_turn(runner: &mut Runner)
    requires
        old(runner).state.wf(),
    ensures
        final(runner).state.wf(),
        spec_end_turn_rel(old(runner).state, final(runner).state),
        final(runner).allow_random == old(runner).allow_random,
        final(runner).debug == old(runner).debug,
        final(runner).log == old(runner).log,
{
    let ghost s1 = runner.state;
    let ghost h0 = runner.state.hand@;
    let ghost d0 = runner.state.discard_pile@;
    let n = runner.state.hand.len();
    let mut k: usize = 0;
    while k < n
        invariant
            n == runner.state.hand.len(),
            0 <= k <= n,
            runner.state.hand@ == h0,
            runner.state.discard_pile@ == d0 + h0.take(k as int),
            *runner == (Runner {
                state: CombatState { discard_pile: runner.state.discard_pile, ..s1 },
                ..*old(runner)
            }),
        decreases n - k,
    {
        let c = runner.state.hand[k];
        runner.state.discard_pile.push(c);
        proof {
            assert(d0 + h0.take(k as int + 1) =~= (d0 + h0.take(k as int)).push(h0[k as int]));
        }
        k = k + 1;
    }
    runner.state.hand.clear();
    runner.state.player.energy = ENERGY_PER_TURN;
    proof {
        assert(h0.take(n as int) =~= h0);
        assert(runner.state.hand@ =~= Seq::<SingleCard>::empty());
        lemma_queues_wf_same(s1, runner.state);
    }
}

fn execute_damage(runner: &mut Runner, target: CreatureIndex, info: DamageInfo)
    requires
        old(runner).state.wf(),
        spec_action_wf(
            DynAction::DamageAction { target, info },
            old(runner).state.monsters.len() as int,
        ),
    ensures
        final(runner).state.wf(),
        spec_damage_rel(target, info, old(runner).state, final(runner).state),
        final(runner).allow_random == old(runner).allow_random,
        final(runner).debug == old(runner).debug,
        final(runner).log == old(runner).log,
{
    let ghost s1 = runner.state;
    let mut working = info;
    working.apply_powers(&runner.state, info.owner, target);
    let d = working.output;
    match target {
        CreatureIndex::Player => {
            damage_creature(&mut runner.state.player.creature, d, info.damage_type);
        },
        CreatureIndex::Monster(i) => {
            damage_creature(&mut runner.state.monsters[i].creature, d, info.damage_type);
            if runner.state.monsters[i].creature.hitpoints == 0 {
                runner.state.monsters[i].gone = true;
            }
            proof {
                let c2 = spec_damage_creature(
                    s1.spec_get_creature(target),
                    d as int,
                    info.damage_type,
                );
                assert(runner.state.monsters@ =~= s1.monsters@.update(
                    i as int,
                    Monster {
                        creature: c2,
                        gone: s1.monsters@[i as int].gone || c2.hitpoints == 0,
                        ..s1.monsters@[i as int]
                    },
                ));
            }
        },
    }
    proof {
        lemma_queues_wf_same(s1, runner.state);
    }
}

fn execute_apply_power(runner: &mut Runner, target: CreatureIndex, power_id: PowerId, amount: i32)
    requires
        old(runner).state.wf(),
        spec_action_wf(
            DynAction::ApplyPowerAction { target, power_id, amount },
            old(runner).state.monsters.len() as int,
        ),
    ensures
        final(runner).state.wf(),
        spec_apply_power_rel(target, power_id, amount, old(runner).state, final(runner).state),
        final(runner).allow_random == old(runner).allow_random,
        final(runner).debug == old(runner).debug,
        final(runner).log == old(runner).log,
{
    let ghost s1 = runner.state;
    let entry = Power { power_id, amount, damage: 0, card: None, misc: 0, just_applied: true };
    match target {
        CreatureIndex::Player => {
            if runner.state.player.creature.powers.len() < MAX_POWERS {
                runner.state.player.creature.powers.push(entry);
            }
        },
        CreatureIndex::Monster(i) => {
            if runner.state.monsters[i].creature.powers.len() < MAX_POWERS {
                runner.state.monsters[i].creature.powers.push(entry);
            }
            proof {
                assert(runner.state.monsters@ =~= s1.monsters@.update(
                    i as int,
                    Monster {
                        creature: runner.state.monsters@[i as int].creature,
                        ..s1.monsters@[i as int]
                    },
                ));
            }
        },
    }
    proof {
        lemma_queues_wf_same(s1, runner.state);
    }
}

} // verus!
