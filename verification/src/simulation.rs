//! The action-resolution engine: damage pipeline, runner, resolution loop
//! and legal-choice generation.

use vstd::prelude::*;
use vstd::pervasive::unreached;
use std::fmt::Write;
use rand::Rng;
use crate::actions::{
    seq_rank, spec_action_wf, spec_execute_random_rel, spec_execute_rel, spec_is_random,
    spec_random_singleton, spec_random_weight, DynAction,
};
use crate::cards::{CardId, X_COST};
use crate::distribution::{
    lemma_distinct_weight, lemma_total_take_le, lemma_total_take_succ, total_weight, Distribution,
};
use crate::powers::PowerId;
use crate::simulation_state::{CardType, CombatState, Creature, Monster, Power, SingleCard};

verus! {

/// A positional reference to the player or a monster slot, used instead of
/// direct ownership references so an action can name a target without
/// borrowing it.
#[derive(Copy, Clone, Debug, PartialEq, Eq, Structural)]
pub enum CreatureIndex {
    Player,
    Monster(usize),
}

/// The reference is a valid position in the given state.
pub open spec fn spec_valid_index(s: CombatState, index: CreatureIndex) -> bool {
    match index {
        CreatureIndex::Player => true,
        CreatureIndex::Monster(i) => i < s.monsters.len(),
    }
}

#[derive(Copy, Clone, Debug, PartialEq, Eq, Structural)]
pub enum DamageType {
    Normal,
    Thorns,
    HitpointLoss,
}

/// A transient damage computation record, created per damage event and
/// discarded after application.
#[derive(Copy, Clone, Debug, PartialEq, Eq, Structural)]
pub struct DamageInfo {
    pub damage_type: DamageType,
    pub owner: CreatureIndex,
    pub base: i32,
    pub output: i32,
}

/// The fully adjusted damage value: reset to base, fold the source's
/// "damage given" hooks, then the target's "damage received" hooks, then
/// the target's "final damage received" hooks, each over the creature's
/// power list in order on an exact rational intermediate; truncate once at
/// the end and floor at zero (saturating at i32::MAX).
pub open spec fn spec_apply_powers(
    state: CombatState,
    owner: CreatureIndex,
    target: CreatureIndex,
    base: i32,
    dtype: DamageType,
) -> int {
    let f1 = crate::powers::fold_hooks(
        state.spec_get_creature(owner).powers@,
        crate::powers::HookPhase::DamageGive,
        dtype,
        base as int,
        1,
    );
    let f2 = crate::powers::fold_hooks(
        state.spec_get_creature(target).powers@,
        crate::powers::HookPhase::DamageReceive,
        dtype,
        f1.0,
        f1.1,
    );
    let f3 = crate::powers::fold_hooks(
        state.spec_get_creature(target).powers@,
        crate::powers::HookPhase::DamageFinalReceive,
        dtype,
        f2.0,
        f2.1,
    );
    if f3.0 <= 0 {
        0
    } else if f3.0 / f3.1 > i32::MAX {
        i32::MAX as int
    } else {
        f3.0 / f3.1
    }
}

impl DamageInfo {
    pub fn new(source: CreatureIndex, base: i32, damage_type: DamageType) -> (r: DamageInfo)
        ensures
            r == (DamageInfo { owner: source, base, damage_type, output: base }),
    {
        DamageInfo { owner: source, base, damage_type, output: base }
    }

    /// Recompute `output` from `base` through the power-hook pipeline.
    /// The output is never negative.
    pub fn apply_powers(
        &mut self,
        state: &CombatState,
        owner: CreatureIndex,
        target: CreatureIndex,
    )
        requires
            spec_valid_index(*state, owner),
            spec_valid_index(*state, target),
            state.spec_get_creature(owner).wf(),
            state.spec_get_creature(target).wf(),
        ensures
            final(self).output == spec_apply_powers(
                *state,
                owner,
                target,
                old(self).base,
                old(self).damage_type,
            ),
            final(self).output >= 0,
            *final(self) == (DamageInfo { output: final(self).output, ..*old(self) }),
    {
        let base = self.base;
        let dtype = self.damage_type;
        let owner_creature = state.get_creature(owner);
        let f1 = crate::powers::run_hooks(
            &owner_creature.powers,
            crate::powers::HookPhase::DamageGive,
            dtype,
            base as i128,
            1i128,
            Ghost(0int),
        );
        let target_creature = state.get_creature(target);
        let f2 = crate::powers::run_hooks(
            &target_creature.powers,
            crate::powers::HookPhase::DamageReceive,
            dtype,
            f1.0,
            f1.1,
            Ghost(owner_creature.powers.len() as int),
        );
        let f3 = crate::powers::run_hooks(
            &target_creature.powers,
            crate::powers::HookPhase::DamageFinalReceive,
            dtype,
            f2.0,
            f2.1,
            Ghost(owner_creature.powers.len() + target_creature.powers.len()),
        );
        if f3.0 <= 0 {
            self.output = 0;
        } else {
            let q: u128 = (f3.0 as u128) / (f3.1 as u128);
            if q > i32::MAX as u128 {
                self.output = i32::MAX;
            } else {
                self.output = q as i32;
            }
        }
    }
}

#[derive(Copy, Clone, Debug, PartialEq, Eq, Structural)]
pub enum PowerType {
    Buff,
    Debuff,
    Relic,
}

/// Classification of an action's outcome: externally chosen, weighted
/// random, or fixed.
pub enum Determinism {
    Choice,
    Random(Distribution),
    Deterministic,
}

impl core::default::Default for Determinism {
    fn default() -> (r: Determinism)
        ensures
            r matches Determinism::Deterministic,
    {
        Determinism::Deterministic
    }
}

/// An externally selectable action available in the current state.
pub type Choice = DynAction;

/// Total stacks of the power `id` on this power list: the sum of matching
/// entries' amounts (entries are not auto-merged).
pub open spec fn spec_power_amount(powers: Seq<Power>, id: PowerId) -> int
    decreases powers.len(),
{
    if powers.len() == 0 {
        0
    } else {
        spec_power_amount(powers.drop_last(), id) + if powers.last().power_id == id {
            powers.last().amount as int
        } else {
            0
        }
    }
}

/// Some entry on the power list has the power `id`.
pub open spec fn spec_has_power(powers: Seq<Power>, id: PowerId) -> bool {
    exists|k: int| 0 <= k < powers.len() && powers[k].power_id == id
}

impl Creature {
    pub fn has_power(&self, power_id: PowerId) -> (r: bool)
        ensures
            r == spec_has_power(self.powers@, power_id),
    {
        let n = self.powers.len();
        let mut i: usize = 0;
        while i < n
            invariant
                n == self.powers.len(),
                0 <= i <= n,
                forall|k: int| 0 <= k < i ==> self.powers@[k].power_id != power_id,
            decreases n - i,
        {
            if self.powers[i].power_id == power_id {
                return true;
            }
            i = i + 1;
        }
        false
    }

    pub fn power_amount(&self, power_id: PowerId) -> (r: i32)
        requires
            self.wf(),
            i32::MIN <= spec_power_amount(self.powers@, power_id) <= i32::MAX,
        ensures
            r == spec_power_amount(self.powers@, power_id),
    {
        let n = self.powers.len();
        let mut acc: i64 = 0;
        let mut i: usize = 0;
        while i < n
            invariant
                n == self.powers.len(),
                self.powers.len() <= crate::powers::MAX_POWERS,
                0 <= i <= n,
                acc == spec_power_amount(self.powers@.take(i as int), power_id),
                -(i * 0x80000000int) <= acc <= i * 0x80000000int,
            decreases n - i,
        {
            let p = self.powers[i];
            proof {
                assert(self.powers@.take(i as int + 1).drop_last() =~= self.powers@.take(i as int));
                assert(self.powers@.take(i as int + 1).last() == self.powers@[i as int]);
            }
            if p.power_id == power_id {
                acc = acc + p.amount as i64;
            }
            i = i + 1;
        }
        proof {
            assert(self.powers@.take(n as int) =~= self.powers@);
        }
        acc as i32
    }
}

impl CombatState {
    /// Combat is over exactly when the player's hitpoints are spent or
    /// every monster is marked gone.
    pub open spec fn spec_combat_over(&self) -> bool {
        self.player.creature.hitpoints <= 0 || forall|i: int|
            0 <= i < self.monsters.len() ==> (#[trigger] self.monsters[i]).gone
    }

    pub fn combat_over(&self) -> (r: bool)
        ensures
            r == self.spec_combat_over(),
    {
        if self.player.creature.hitpoints <= 0 {
            return true;
        }
        let n = self.monsters.len();
        let mut i: usize = 0;
        while i < n
            invariant
                n == self.monsters.len(),
                0 <= i <= n,
                self.player.creature.hitpoints > 0,
                forall|k: int| 0 <= k < i ==> (#[trigger] self.monsters[k]).gone,
            decreases n - i,
        {
            if !self.monsters[i].gone {
                proof {
                    assert(!(forall|k: int|
                        0 <= k < self.monsters.len() ==> (#[trigger] self.monsters[k]).gone)) by {
                        assert(!self.monsters[i as int].gone);
                    }
                }
                return false;
            }
            i = i + 1;
        }
        true
    }

    /// A card is playable exactly when its cost is the variable-cost
    /// sentinel or a non-negative integer covered by current energy, its
    /// identity-specific hook agrees, and attacks are not blocked by the
    /// entangled status.
    pub open spec fn spec_card_playable(&self, card: SingleCard) -> bool {
        &&& card.cost >= X_COST
        &&& self.player.energy >= card.cost
        &&& card.card_info.id.spec_playable(*self)
        &&& !(card.card_info.card_type == CardType::Attack && spec_has_power(
            self.player.creature.powers@,
            PowerId::Entangled,
        ))
    }

    pub fn card_playable(&self, card: &SingleCard) -> (r: bool)
        ensures
            r == self.spec_card_playable(*card),
    {
        card.cost >= X_COST && self.player.energy >= card.cost && card.card_info.id.playable(self)
            && !(card.card_info.card_type == CardType::Attack && self.player.creature.has_power(
            PowerId::Entangled,
        ))
    }

    /// The creature a positional reference names.
    pub open spec fn spec_get_creature(&self, index: CreatureIndex) -> Creature {
        match index {
            CreatureIndex::Player => self.player.creature,
            CreatureIndex::Monster(i) => self.monsters[i as int].creature,
        }
    }

    pub fn get_creature(&self, index: CreatureIndex) -> (r: &Creature)
        requires
            spec_valid_index(*self, index),
        ensures
            *r == self.spec_get_creature(index),
    {
        match index {
            CreatureIndex::Player => &self.player.creature,
            CreatureIndex::Monster(i) => &self.monsters[i].creature,
        }
    }

    pub fn get_creature_mut(&mut self, index: CreatureIndex) -> (r: &mut Creature)
        requires
            spec_valid_index(*old(self), index),
        ensures
            *r == old(self).spec_get_creature(index),
            spec_replace_creature(*old(self), *final(self), index, *final(r)),
    {
        match index {
            CreatureIndex::Player => &mut self.player.creature,
            CreatureIndex::Monster(i) => &mut self.monsters[i].creature,
        }
    }

    pub fn monster_intent(&self, monster_index: usize) -> (r: i32)
        requires
            monster_index < self.monsters.len(),
            self.monsters[monster_index as int].move_history.len() > 0,
        ensures
            r == self.monsters[monster_index as int].move_history@.last(),
    {
        self.monsters[monster_index].intent()
    }
}

/// The two states agree everywhere except that the creature named by
/// `index` has been replaced by `c`.
pub open spec fn spec_replace_creature(
    s1: CombatState,
    s2: CombatState,
    index: CreatureIndex,
    c: Creature,
) -> bool {
    &&& s2.draw_pile@ == s1.draw_pile@
    &&& s2.discard_pile@ == s1.discard_pile@
    &&& s2.exhaust_pile@ == s1.exhaust_pile@
    &&& s2.hand@ == s1.hand@
    &&& s2.limbo@ == s1.limbo@
    &&& s2.card_in_play == s1.card_in_play
    &&& s2.fresh_subaction_queue@ == s1.fresh_subaction_queue@
    &&& s2.stale_subaction_stack@ == s1.stale_subaction_stack@
    &&& s2.actions@ == s1.actions@
    &&& match index {
        CreatureIndex::Player => s2.player.creature == c && s2.player.energy == s1.player.energy
            && s2.monsters@ == s1.monsters@,
        CreatureIndex::Monster(i) => s2.player == s1.player && s2.monsters@ == s1.monsters@.update(
            i as int,
            Monster { creature: c, ..s1.monsters@[i as int] },
        ),
    }
}

impl Monster {
    /// The most recently recorded move identifier.
    pub fn intent(&self) -> (r: i32)
        requires
            self.move_history.len() > 0,
        ensures
            r == self.move_history@.last(),
    {
        self.move_history[self.move_history.len() - 1]
    }

    /// Record a move identifier, most recent last.  History is unbounded.
    pub fn push_intent(&mut self, intent: i32)
        ensures
            final(self).move_history@ == old(self).move_history@.push(intent),
            *final(self) == (Monster { move_history: final(self).move_history, ..*old(self) }),
    {
        self.move_history.push(intent);
    }
}

/// Relies on rand::Rng::gen_range on the thread-local generator: returns a
/// value uniformly distributed in [0, n); panics only on an empty range,
/// which the precondition excludes.
#[verifier::external_body]
fn rand_below(n: u64) -> (r: u64)
    requires
        0 < n,
    ensures
        r < n,
{
    rand::thread_rng().gen_range(0..n)
}

/// Relies on std's formatting machinery (writeln into a String, which is
/// infallible) to append a trace line; contracts say nothing of the text.
#[verifier::external_body]
fn log_line(log: &mut String, label: &str, action: &DynAction, state: &CombatState) {
    let _ = writeln!(log, "{} {:?} with state {:?}", label, action, state);
}

/// Pick an outcome value at random, each outcome with probability
/// proportional to its relative weight.  Every returned value has positive
/// weight.
fn weighted_choice(d: &Distribution) -> (r: i32)
    requires
        d.wf(),
        0 < d.spec_total(),
        d.spec_total() <= u64::MAX,
    ensures
        d.spec_weight(r) > 0,
{
    let n = d.outcome_count();
    let mut total: u64 = 0;
    let mut i: usize = 0;
    while i < n
        invariant
            n == d.entries().len(),
            0 <= i <= n,
            d.wf(),
            d.spec_total() <= u64::MAX,
            total == total_weight(d.entries().take(i as int)),
        decreases n - i,
    {
        proof {
            lemma_total_take_succ(d.entries(), i as int);
            lemma_total_take_le(d.entries(), i as int + 1);
        }
        let pair = d.entry_at(i);
        total = total + pair.0;
        i = i + 1;
    }
    proof {
        assert(d.entries().take(n as int) =~= d.entries());
    }
    let x = rand_below(total);
    let mut cum: u64 = 0;
    let mut j: usize = 0;
    while j < n
        invariant
            n == d.entries().len(),
            0 <= j <= n,
            d.wf(),
            total == d.spec_total(),
            d.spec_total() <= u64::MAX,
            cum == total_weight(d.entries().take(j as int)),
            cum <= x,
            x < total,
        decreases n - j,
    {
        proof {
            lemma_total_take_succ(d.entries(), j as int);
            lemma_total_take_le(d.entries(), j as int + 1);
        }
        let pair = d.entry_at(j);
        if x < cum + pair.0 {
            proof {
                lemma_distinct_weight(d.entries(), j as int);
            }
            return pair.1;
        }
        cum = cum + pair.0;
        j = j + 1;
    }
    proof {
        assert(d.entries().take(n as int) =~= d.entries());
        assert(false);
    }
    unreached()
}

/// An action can run now disregarding whether combat is over: it is
/// deterministic, or random when random auto-resolution is permitted or its
/// distribution has exactly one possible outcome.  Actions classified as
/// external choices can never run directly.
pub open spec fn spec_can_apply_impl_in(allow_random: bool, a: DynAction) -> bool {
    if spec_is_random(a) {
        allow_random || spec_random_singleton(a)
    } else {
        true
    }
}

/// An action can run now in the given state: applicable as above, and
/// combat is not over.
pub open spec fn spec_can_apply_in(allow_random: bool, s: CombatState, a: DynAction) -> bool {
    spec_can_apply_impl_in(allow_random, a) && !s.spec_combat_over()
}

/// Owns the combat state for the duration of a resolution pass; carries the
/// flag permitting random auto-resolution and the verbose-trace flag.
pub struct Runner {
    pub state: CombatState,
    pub allow_random: bool,
    pub debug: bool,
    pub log: String,
}

impl Runner {
    /// The action can run now, disregarding whether combat is over.
    pub open spec fn spec_can_apply_impl(&self, a: DynAction) -> bool {
        spec_can_apply_impl_in(self.allow_random, a)
    }

    /// The action can run now: applicable as above, and combat is not over.
    pub open spec fn spec_can_apply(&self, a: DynAction) -> bool {
        spec_can_apply_in(self.allow_random, self.state, a)
    }

    pub fn new(state: CombatState, allow_random: bool, debug: bool) -> (r: Runner)
        ensures
            r.state == state,
            r.allow_random == allow_random,
            r.debug == debug,
            r.log@ == Seq::<char>::empty(),
    {
        Runner { state, allow_random, debug, log: String::new() }
    }

    pub fn can_apply_impl(&self, action: &DynAction) -> (r: bool)
        requires
            spec_action_wf(*action, self.state.monsters.len() as int),
        ensures
            r == self.spec_can_apply_impl(*action),
    {
        match action.determinism(&self.state) {
            Determinism::Deterministic => true,
            Determinism::Random(distribution) => self.allow_random || distribution.outcome_count()
                == 1,
            Determinism::Choice => {
                proof {
                    assert(false);
                }
                false
            },
        }
    }

    pub fn can_apply(&self, action: &DynAction) -> (r: bool)
        requires
            spec_action_wf(*action, self.state.monsters.len() as int),
        ensures
            r == self.spec_can_apply(*action),
    {
        self.can_apply_impl(action) && !self.state.combat_over()
    }

    /// Resolve and execute one action: run the deterministic path, or
    /// sample an outcome by weighted random choice and run the random path.
    /// When the verbose flag is set, a before/after trace is appended to
    /// the log.
    pub fn apply_impl(&mut self, action: &DynAction)
        requires
            old(self).state.wf(),
            spec_action_wf(*action, old(self).state.monsters.len() as int),
        ensures
            final(self).state.wf(),
            final(self).allow_random == old(self).allow_random,
            final(self).debug == old(self).debug,
            !old(self).debug ==> final(self).log == old(self).log,
            !spec_is_random(*action) ==> spec_execute_rel(
                *action,
                old(self).state,
                final(self).state,
            ),
            spec_is_random(*action) ==> exists|v: i32|
                #![auto]
                spec_random_weight(*action, v) > 0 && spec_execute_random_rel(
                    *action,
                    v,
                    old(self).state,
                    final(self).state,
                ),
    {
        if self.debug {
            log_line(&mut self.log, "applying", action, &self.state);
        }
        let det = action.determinism(&self.state);
        match det {
            Determinism::Deterministic => {
                action.execute(self);
            },
            Determinism::Random(distribution) => {
                let random_value = weighted_choice(&distribution);
                action.execute_random(self, random_value);
                proof {
                    assert(spec_random_weight(*action, random_value) > 0);
                }
            },
            Determinism::Choice => {
                proof {
                    assert(false);
                }
            },
        }
        if self.debug {
            log_line(&mut self.log, "applied", action, &self.state);
        }
    }

    /// Run the action inline when no subactions are pending and it is
    /// applicable now; otherwise defer it onto the fresh-subaction queue.
    pub fn action_now(&mut self, action: &DynAction)
        requires
            old(self).state.wf(),
            spec_action_wf(*action, old(self).state.monsters.len() as int),
        ensures
            final(self).state.wf(),
            final(self).allow_random == old(self).allow_random,
            final(self).debug == old(self).debug,
            !old(self).debug ==> final(self).log == old(self).log,
            if old(self).state.fresh_subaction_queue.len() == 0 && old(self).spec_can_apply(
                *action,
            ) {
                &&& (!spec_is_random(*action) ==> spec_execute_rel(
                    *action,
                    old(self).state,
                    final(self).state,
                ))
                &&& (spec_is_random(*action) ==> exists|v: i32|
                    #![auto]
                    spec_random_weight(*action, v) > 0 && spec_execute_random_rel(
                        *action,
                        v,
                        old(self).state,
                        final(self).state,
                    ))
            } else {
                &&& final(self).state.fresh_subaction_queue@
                    == old(self).state.fresh_subaction_queue@.push(*action)
                &&& final(self).state == (CombatState {
                    fresh_subaction_queue: final(self).state.fresh_subaction_queue,
                    ..old(self).state
                })
            },
    {
        let run_inline = self.state.fresh_subaction_queue.len() == 0 && self.can_apply(action);
        if run_inline {
            self.apply_impl(action);
        } else {
            let ghost s1 = self.state;
            self.state.fresh_subaction_queue.push(*action);
            proof {
                crate::actions::lemma_queues_wf_push_fresh(s1, self.state, *action);
            }
        }
    }

    /// Insert an action at the front of the top-level action sequence: it
    /// interrupts everything else queued.
    pub fn action_top(&mut self, action: DynAction)
        requires
            old(self).state.wf(),
            spec_action_wf(action, old(self).state.monsters.len() as int),
        ensures
            final(self).state.wf(),
            final(self).allow_random == old(self).allow_random,
            final(self).debug == old(self).debug,
            final(self).log == old(self).log,
            final(self).state.actions@ == seq![action] + old(self).state.actions@,
            final(self).state == (CombatState {
                actions: final(self).state.actions,
                ..old(self).state
            }),
    {
        let ghost s1 = self.state;
        self.state.actions.push_front(action);
        proof {
            crate::actions::lemma_queues_wf_actions(s1, self.state, action);
        }
    }

    /// Insert an action at the back of the top-level action sequence: it
    /// happens after everything currently queued.
    pub fn action_bottom(&mut self, action: DynAction)
        requires
            old(self).state.wf(),
            spec_action_wf(action, old(self).state.monsters.len() as int),
        ensures
            final(self).state.wf(),
            final(self).allow_random == old(self).allow_random,
            final(self).debug == old(self).debug,
            final(self).log == old(self).log,
            final(self).state.actions@ == old(self).state.actions@.push(action),
            final(self).state == (CombatState {
                actions: final(self).state.actions,
                ..old(self).state
            }),
    {
        let ghost s1 = self.state;
        self.state.actions.push_back(action);
        proof {
            crate::actions::lemma_queues_wf_actions(s1, self.state, action);
        }
    }

    pub fn state(&self) -> (r: &CombatState)
        ensures
            *r == self.state,
    {
        &self.state
    }

    pub fn state_mut(&mut self) -> (r: &mut CombatState)
        ensures
            *r == old(self).state,
            final(self).state == *final(r),
            final(self).allow_random == old(self).allow_random,
            final(self).debug == old(self).debug,
            final(self).log == old(self).log,
    {
        &mut self.state
    }

    pub fn debug_log(&self) -> (r: &str)
        ensures
            r@ == self.log@,
    {
        self.log.as_str()
    }
}

/// All fields of the two states agree except the three action queues.
pub open spec fn spec_same_core(s1: CombatState, s2: CombatState) -> bool {
    &&& s2.draw_pile@ == s1.draw_pile@
    &&& s2.discard_pile@ == s1.discard_pile@
    &&& s2.exhaust_pile@ == s1.exhaust_pile@
    &&& s2.hand@ == s1.hand@
    &&& s2.limbo@ == s1.limbo@
    &&& s2.card_in_play == s1.card_in_play
    &&& s2.player == s1.player
    &&& s2.monsters@ == s1.monsters@
}

/// The flush phase of one resolution pass: every freshly generated
/// subaction moves onto the stale stack in last-in-first-out order, and
/// nothing else changes.
pub open spec fn spec_flush_rel(s1: CombatState, s2: CombatState) -> bool {
    &&& spec_same_core(s1, s2)
    &&& s2.fresh_subaction_queue@ == Seq::<DynAction>::empty()
    &&& s2.stale_subaction_stack@ == s1.stale_subaction_stack@
        + s1.fresh_subaction_queue@.reverse()
    &&& s2.actions@ == s1.actions@
}

/// The dequeue phase of one resolution pass: the pending subaction is
/// popped when the stale stack holds one and it is applicable now, else
/// the next top-level action is popped from the front.
pub open spec fn spec_dequeue_rel(
    allow_random: bool,
    mid: CombatState,
    s3: CombatState,
    a: DynAction,
) -> bool {
    &&& spec_same_core(mid, s3)
    &&& s3.fresh_subaction_queue@ == mid.fresh_subaction_queue@
    &&& if mid.stale_subaction_stack@.len() > 0 {
        &&& a == mid.stale_subaction_stack@.last()
        &&& s3.stale_subaction_stack@ == mid.stale_subaction_stack@.drop_last()
        &&& s3.actions@ == mid.actions@
        &&& spec_can_apply_in(allow_random, s3, a)
    } else {
        &&& mid.actions@.len() > 0
        &&& a == mid.actions@[0]
        &&& s3.actions@ == mid.actions@.subrange(1, mid.actions@.len() as int)
        &&& s3.stale_subaction_stack@ == mid.stale_subaction_stack@
    }
}

/// The run phase of one resolution pass, with `action_now`'s deferral
/// semantics: the dequeued action executes inline when no subactions are
/// pending and it is applicable now, else it is deferred onto the fresh
/// queue.
pub open spec fn spec_action_now_rel(
    allow_random: bool,
    s3: CombatState,
    a: DynAction,
    s4: CombatState,
) -> bool {
    if s3.fresh_subaction_queue@.len() == 0 && spec_can_apply_in(allow_random, s3, a) {
        if spec_is_random(a) {
            exists|v: i32|
                #![auto]
                spec_random_weight(a, v) > 0 && spec_execute_random_rel(a, v, s3, s4)
        } else {
            spec_execute_rel(a, s3, s4)
        }
    } else {
        &&& spec_same_core(s3, s4)
        &&& s4.fresh_subaction_queue@ == s3.fresh_subaction_queue@.push(a)
        &&& s4.stale_subaction_stack@ == s3.stale_subaction_stack@
        &&& s4.actions@ == s3.actions@
    }
}

/// One pass of the resolution loop from a state where combat is not over:
/// flush, then dequeue and run one action — or flush alone, the shape of a
/// pass that then halts.  Flags are preserved, and the trace log only
/// changes when the verbose flag is set.
pub open spec fn loop_step(r1: Runner, r2: Runner) -> bool {
    &&& !r1.state.spec_combat_over()
    &&& r2.allow_random == r1.allow_random
    &&& r2.debug == r1.debug
    &&& !r1.debug ==> r2.log == r1.log
    &&& (spec_flush_rel(r1.state, r2.state) || exists|
        mid: CombatState,
        s3: CombatState,
        a: DynAction,
    |
        #![auto]
        spec_flush_rel(r1.state, mid) && spec_dequeue_rel(r1.allow_random, mid, s3, a)
            && spec_action_now_rel(r1.allow_random, s3, a, r2.state))
}

/// `r2` is reached from `r1` by exactly `n` passes of the resolution loop.
pub open spec fn loop_steps(r1: Runner, r2: Runner, n: nat) -> bool
    decreases n,
{
    if n == 0 {
        r2 == r1
    } else {
        exists|mid: Runner| #![auto] loop_step(r1, mid) && loop_steps(mid, r2, (n - 1) as nat)
    }
}

/// A step chain extends by one step at its end.
pub proof fn lemma_loop_steps_snoc(r1: Runner, r2: Runner, r3: Runner, n: nat)
    requires
        loop_steps(r1, r2, n),
        loop_step(r2, r3),
    ensures
        loop_steps(r1, r3, n + 1),
    decreases n,
{
    if n == 0 {
        assert(loop_step(r1, r3));
        assert(loop_steps(r3, r3, 0));
    } else {
        let mid = choose|mid: Runner| #![auto] loop_step(r1, mid) && loop_steps(mid, r2, (n - 1) as nat);
        lemma_loop_steps_snoc(mid, r2, r3, (n - 1) as nat);
        assert(loop_step(r1, mid) && loop_steps(mid, r3, n));
    }
}

/// Drain actions until combat ends or the engine blocks: each pass flushes
/// freshly generated subactions onto the near-term work stack (restoring
/// their generation order), then runs the next pending subaction, else the
/// next top-level action.  The loop halts on an action that cannot run now
/// (an external choice, or a disallowed random action), or when every
/// queue is empty, or when combat is over.  The final state is reachable
/// from the initial one by a chain of `loop_step` passes and satisfies the
/// halting condition; when combat is already over at entry, nothing runs
/// and the state is returned unchanged.
pub fn run_until_unable(runner: &mut Runner)
    requires
        old(runner).state.wf(),
    ensures
        final(runner).state.wf(),
        final(runner).allow_random == old(runner).allow_random,
        final(runner).debug == old(runner).debug,
        !old(runner).debug ==> final(runner).log == old(runner).log,
        exists|n: nat| loop_steps(*old(runner), *final(runner), n),
        old(runner).state.spec_combat_over() ==> *final(runner) == *old(runner),
        final(runner).state.spec_combat_over() || (final(runner).state.fresh_subaction_queue.len()
            == 0 && final(runner).state.stale_subaction_stack.len() > 0 && !final(
            runner
        ).spec_can_apply(final(runner).state.stale_subaction_stack@.last())) || (final(
            runner
        ).state.fresh_subaction_queue.len() == 0 && final(runner).state.stale_subaction_stack.len()
            == 0 && final(runner).state.actions@.len() == 0),
{
    proof {
        assert(loop_steps(*old(runner), *runner, 0));
    }
    loop
        invariant_except_break
            runner.state.wf(),
            runner.allow_random == old(runner).allow_random,
            runner.debug == old(runner).debug,
            !old(runner).debug ==> runner.log == old(runner).log,
            exists|n: nat| loop_steps(*old(runner), *runner, n),
            old(runner).state.spec_combat_over() ==> *runner == *old(runner),
        ensures
            runner.state.wf(),
            runner.allow_random == old(runner).allow_random,
            runner.debug == old(runner).debug,
            !old(runner).debug ==> runner.log == old(runner).log,
            exists|n: nat| loop_steps(*old(runner), *runner, n),
            old(runner).state.spec_combat_over() ==> *runner == *old(runner),
            runner.state.spec_combat_over() || (runner.state.fresh_subaction_queue.len() == 0
                && runner.state.stale_subaction_stack.len() > 0 && !runner.spec_can_apply(
                runner.state.stale_subaction_stack@.last(),
            )) || (runner.state.fresh_subaction_queue.len() == 0
                && runner.state.stale_subaction_stack.len() == 0 && runner.state.actions@.len()
                == 0),
        decreases crate::actions::queue_rank(runner.state), runner.state.actions@.len(),
    {
        proof {
            crate::actions::lemma_seq_rank_nonneg(runner.state.fresh_subaction_queue@);
            crate::actions::lemma_seq_rank_nonneg(runner.state.stale_subaction_stack@);
            crate::actions::lemma_seq_rank_nonneg(runner.state.actions@);
        }
        if runner.state.combat_over() {
            break ;
        }
        // flush freshly generated subactions onto the near-term work stack;
        // the two last-in-first-out moves cancel, so the stack pops them in
        // generation order
        let ghost pre = *runner;
        let ghost rank0 = crate::actions::queue_rank(runner.state);
        while runner.state.fresh_subaction_queue.len() > 0
            invariant
                runner.state.wf(),
                runner.allow_random == pre.allow_random,
                runner.debug == pre.debug,
                runner.log == pre.log,
                runner.state.fresh_subaction_queue@.len()
                    <= pre.state.fresh_subaction_queue@.len(),
                runner.state.fresh_subaction_queue@ == pre.state.fresh_subaction_queue@.take(
                    runner.state.fresh_subaction_queue@.len() as int,
                ),
                runner.state.stale_subaction_stack@ == pre.state.stale_subaction_stack@
                    + pre.state.fresh_subaction_queue@.skip(
                    runner.state.fresh_subaction_queue@.len() as int,
                ).reverse(),
                *runner == (Runner {
                    state: CombatState {
                        fresh_subaction_queue: runner.state.fresh_subaction_queue,
                        stale_subaction_stack: runner.state.stale_subaction_stack,
                        ..pre.state
                    },
                    ..pre
                }),
                crate::actions::queue_rank(runner.state) == rank0,
            decreases runner.state.fresh_subaction_queue.len(),
        {
            let ghost s1 = runner.state;
            let ghost len0 = runner.state.fresh_subaction_queue@.len() as int;
            let moved = runner.state.fresh_subaction_queue.pop().unwrap();
            runner.state.stale_subaction_stack.push(moved);
            proof {
                let f = pre.state.fresh_subaction_queue@;
                assert(f.take(len0).drop_last() =~= f.take(len0 - 1));
                assert(moved == f[len0 - 1]);
                assert(f.skip(len0 - 1).reverse() =~= f.skip(len0).reverse().push(f[len0 - 1]));
                assert(runner.state.stale_subaction_stack@ =~= pre.state.stale_subaction_stack@
                    + f.skip(len0 - 1).reverse());
                crate::actions::lemma_queues_wf_shift(s1, runner.state);
                crate::actions::lemma_seq_rank_push(s1.stale_subaction_stack@, moved);
                assert(seq_rank(s1.fresh_subaction_queue@) == seq_rank(
                    runner.state.fresh_subaction_queue@,
                ) + crate::actions::action_rank(moved));
            }
        }
        proof {
            assert(pre.state.fresh_subaction_queue@.take(0) =~= Seq::<DynAction>::empty());
            assert(pre.state.fresh_subaction_queue@.skip(0) =~= pre.state.fresh_subaction_queue@);
            assert(spec_flush_rel(pre.state, runner.state));
        }
        let ghost mid_state = runner.state;
        let ghost before_pop = runner.state;
        let popped = runner.state.stale_subaction_stack.pop();
        match popped {
            Some(action) => {
                proof {
                    assert(action == before_pop.stale_subaction_stack@.last());
                    assert(spec_action_wf(action, runner.state.monsters.len() as int));
                    crate::actions::lemma_queues_wf_shift(before_pop, runner.state);
                    assert(seq_rank(before_pop.stale_subaction_stack@) == seq_rank(
                        runner.state.stale_subaction_stack@,
                    ) + crate::actions::action_rank(action));
                    assert(crate::actions::queue_rank(runner.state) == rank0
                        - crate::actions::action_rank(action));
                }
                if runner.can_apply(&action) {
                    let ghost s3_state = runner.state;
                    let ghost mid = *runner;
                    runner.action_now(&action);
                    proof {
                        assert(spec_dequeue_rel(pre.allow_random, mid_state, s3_state, action));
                        if !spec_is_random(action) {
                            crate::actions::lemma_execute_rel_rank(
                                action,
                                mid.state,
                                runner.state,
                            );
                        } else {
                            let v = choose|v: i32|
                                spec_random_weight(action, v) > 0 && spec_execute_random_rel(
                                    action,
                                    v,
                                    mid.state,
                                    runner.state,
                                );
                            crate::actions::lemma_execute_random_rel_rank(
                                action,
                                v,
                                mid.state,
                                runner.state,
                            );
                            assert(spec_random_weight(action, v) > 0 && spec_execute_random_rel(
                                action,
                                v,
                                s3_state,
                                runner.state,
                            ));
                        }
                        assert(spec_action_now_rel(
                            pre.allow_random,
                            s3_state,
                            action,
                            runner.state,
                        ));
                        assert(loop_step(pre, *runner));
                        let n0 = choose|n: nat| loop_steps(*old(runner), pre, n);
                        lemma_loop_steps_snoc(*old(runner), pre, *runner, n0);
                        assert(crate::actions::queue_rank(runner.state) < rank0);
                        crate::actions::lemma_seq_rank_nonneg(
                            runner.state.fresh_subaction_queue@,
                        );
                        crate::actions::lemma_seq_rank_nonneg(
                            runner.state.stale_subaction_stack@,
                        );
                        crate::actions::lemma_seq_rank_nonneg(runner.state.actions@);
                    }
                } else {
                    runner.state.stale_subaction_stack.push(action);
                    proof {
                        assert(runner.state.stale_subaction_stack@ =~= before_pop
                            .stale_subaction_stack@);
                        crate::actions::lemma_queues_wf_shift(before_pop, runner.state);
                        assert(spec_flush_rel(pre.state, runner.state));
                        assert(loop_step(pre, *runner));
                        let n0 = choose|n: nat| loop_steps(*old(runner), pre, n);
                        lemma_loop_steps_snoc(*old(runner), pre, *runner, n0);
                    }
                    break ;
                }
            },
            None => {
                let next = runner.state.actions.pop_front();
                match next {
                    Some(action) => {
                        proof {
                            assert(action == before_pop.actions@[0]);
                            assert(spec_action_wf(action, runner.state.monsters.len() as int));
                            crate::actions::lemma_queues_wf_shift(before_pop, runner.state);
                            crate::actions::lemma_seq_rank_pop_front(before_pop.actions@);
                            assert(crate::actions::queue_rank(runner.state) == rank0
                                - crate::actions::action_rank(action));
                        }
                        let ghost s3_state = runner.state;
                        let ghost mid = *runner;
                        runner.action_now(&action);
                        proof {
                            assert(spec_dequeue_rel(
                                pre.allow_random,
                                mid_state,
                                s3_state,
                                action,
                            ));
                            if mid.spec_can_apply(action) {
                                if !spec_is_random(action) {
                                    crate::actions::lemma_execute_rel_rank(
                                        action,
                                        mid.state,
                                        runner.state,
                                    );
                                } else {
                                    let v = choose|v: i32|
                                        spec_random_weight(action, v) > 0
                                            && spec_execute_random_rel(
                                            action,
                                            v,
                                            mid.state,
                                            runner.state,
                                        );
                                    crate::actions::lemma_execute_random_rel_rank(
                                        action,
                                        v,
                                        mid.state,
                                        runner.state,
                                    );
                                    assert(spec_random_weight(action, v) > 0
                                        && spec_execute_random_rel(
                                        action,
                                        v,
                                        s3_state,
                                        runner.state,
                                    ));
                                }
                                assert(crate::actions::queue_rank(runner.state) < rank0);
                            } else {
                                crate::actions::lemma_seq_rank_push(
                                    mid.state.fresh_subaction_queue@,
                                    action,
                                );
                                assert(crate::actions::queue_rank(runner.state) == rank0);
                                assert(runner.state.actions@.len() < pre.state.actions@.len());
                            }
                            assert(spec_action_now_rel(
                                pre.allow_random,
                                s3_state,
                                action,
                                runner.state,
                            ));
                            assert(loop_step(pre, *runner));
                            let n0 = choose|n: nat| loop_steps(*old(runner), pre, n);
                            lemma_loop_steps_snoc(*old(runner), pre, *runner, n0);
                            crate::actions::lemma_seq_rank_nonneg(
                                runner.state.fresh_subaction_queue@,
                            );
                            crate::actions::lemma_seq_rank_nonneg(
                                runner.state.stale_subaction_stack@,
                            );
                            crate::actions::lemma_seq_rank_nonneg(runner.state.actions@);
                        }
                    },
                    None => {
                        proof {
                            assert(runner.state.stale_subaction_stack@ =~= before_pop
                                .stale_subaction_stack@);
                            assert(runner.state.actions@ =~= before_pop.actions@);
                            crate::actions::lemma_queues_wf_shift(before_pop, runner.state);
                            assert(spec_flush_rel(pre.state, runner.state));
                            assert(loop_step(pre, *runner));
                            let n0 = choose|n: nat| loop_steps(*old(runner), pre, n);
                            lemma_loop_steps_snoc(*old(runner), pre, *runner, n0);
                        }
                        break ;
                    },
                }
            },
        }
    }
}

/// "Play card" entries generated for one card: one per live monster when
/// the card needs a target, else a single entry with a placeholder target.
pub open spec fn spec_target_entries(card: SingleCard, monsters: Seq<Monster>, j: int) -> Seq<
    DynAction,
>
    decreases monsters.len() - j,
{
    if j < 0 || j >= monsters.len() {
        Seq::<DynAction>::empty()
    } else {
        (if !monsters[j].gone {
            seq![DynAction::PlayCard { card, target: j as usize }]
        } else {
            Seq::<DynAction>::empty()
        }) + spec_target_entries(card, monsters, j + 1)
    }
}

/// The hand position holds the first occurrence of its card value.
pub open spec fn spec_first_occurrence(hand: Seq<SingleCard>, i: int) -> bool {
    forall|k: int| 0 <= k < i ==> hand[k] != hand[i]
}

/// The "play card" choices contributed by hand positions `i` onward:
/// duplicate card instances earlier in hand suppress later identical ones.
pub open spec fn spec_choices_from(s: CombatState, i: int) -> Seq<DynAction>
    decreases s.hand.len() - i,
{
    if i < 0 || i >= s.hand.len() {
        Seq::<DynAction>::empty()
    } else {
        (if spec_first_occurrence(s.hand@, i) && s.spec_card_playable(s.hand@[i]) {
            if s.hand@[i].card_info.has_target {
                spec_target_entries(s.hand@[i], s.monsters@, 0)
            } else {
                seq![DynAction::PlayCard { card: s.hand@[i], target: 0 }]
            }
        } else {
            Seq::<DynAction>::empty()
        }) + spec_choices_from(s, i + 1)
    }
}

/// The externally selectable actions: the end-turn option, then one play
/// option per playable, positionally distinct card in hand.
pub open spec fn spec_legal_choices(s: CombatState) -> Seq<DynAction> {
    seq![DynAction::EndTurn] + spec_choices_from(s, 0)
}

impl CombatState {
    pub fn legal_choices(&self) -> (r: Vec<Choice>)
        ensures
            r@ == spec_legal_choices(*self),
    {
        let mut result: Vec<Choice> = Vec::new();
        result.push(DynAction::EndTurn);
        let n = self.hand.len();
        let mut i: usize = 0;
        while i < n
            invariant
                n == self.hand.len(),
                0 <= i <= n,
                result@ + spec_choices_from(*self, i as int) == spec_legal_choices(*self),
            decreases n - i,
        {
            let card = self.hand[i];
            // duplicate card instances earlier in hand suppress this one
            let mut first = true;
            let mut k: usize = 0;
            while first && k < i
                invariant
                    0 <= k <= i <= n,
                    n == self.hand.len(),
                    first ==> forall|m: int| 0 <= m < k ==> self.hand@[m] != self.hand@[i as int],
                    !first ==> k < i && self.hand@[k as int] == self.hand@[i as int],
                    card == self.hand@[i as int],
                decreases i - k + if first {
                    1int
                } else {
                    0int
                },
            {
                if self.hand[k] == card {
                    first = false;
                } else {
                    k = k + 1;
                }
            }
            proof {
                if !first {
                    assert(!spec_first_occurrence(self.hand@, i as int));
                }
            }
            if first && self.card_playable(&card) {
                if card.card_info.has_target {
                    let m = self.monsters.len();
                    let mut j: usize = 0;
                    while j < m
                        invariant
                            m == self.monsters.len(),
                            0 <= j <= m,
                            n == self.hand.len(),
                            i < n,
                            card == self.hand@[i as int],
                            result@ + spec_target_entries(card, self.monsters@, j as int)
                                + spec_choices_from(*self, i as int + 1) == spec_legal_choices(
                                *self,
                            ),
                        decreases m - j,
                    {
                        let ghost r0 = result@;
                        if !self.monsters[j].gone {
                            result.push(DynAction::PlayCard { card, target: j });
                            proof {
                                assert(r0 + spec_target_entries(card, self.monsters@, j as int)
                                    =~= result@ + spec_target_entries(
                                    card,
                                    self.monsters@,
                                    j as int + 1,
                                ));
                            }
                        } else {
                            proof {
                                assert(spec_target_entries(card, self.monsters@, j as int)
                                    =~= spec_target_entries(card, self.monsters@, j as int + 1));
                            }
                        }
                        j = j + 1;
                    }
                    proof {
                        assert(spec_target_entries(card, self.monsters@, m as int)
                            =~= Seq::<DynAction>::empty());
                        assert(result@ + spec_choices_from(*self, i as int + 1) =~= result@
                            + spec_target_entries(card, self.monsters@, m as int)
                            + spec_choices_from(*self, i as int + 1));
                    }
                } else {
                    let ghost r0 = result@;
                    result.push(DynAction::PlayCard { card, target: 0 });
                    proof {
                        assert(r0 + (seq![
                            DynAction::PlayCard { card, target: 0usize },
                        ] + spec_choices_from(*self, i as int + 1)) =~= result@
                            + spec_choices_from(*self, i as int + 1));
                        assert(spec_choices_from(*self, i as int) == seq![
                            DynAction::PlayCard { card, target: 0usize },
                        ] + spec_choices_from(*self, i as int + 1));
                    }
                }
            } else {
                proof {
                    assert(spec_choices_from(*self, i as int) =~= spec_choices_from(
                        *self,
                        i as int + 1,
                    ));
                }
            }
            i = i + 1;
        }
        proof {
            assert(spec_choices_from(*self, n as int) =~= Seq::<DynAction>::empty());
            assert(result@ + Seq::<DynAction>::empty() =~= result@);
        }
        result
    }
}

/// Number of "play card" entries for the card value `c` in a choice list.
pub open spec fn count_play_entries(s: Seq<DynAction>, c: SingleCard) -> int
    decreases s.len(),
{
    if s.len() == 0 {
        0
    } else {
        count_play_entries(s.drop_last(), c) + match s.last() {
            DynAction::PlayCard { card, .. } => if card == c {
                1int
            } else {
                0
            },
            _ => 0,
        }
    }
}

/// Number of monsters from slot `j` onward that are not marked gone.
pub open spec fn live_monsters(monsters: Seq<Monster>, j: int) -> int
    decreases monsters.len() - j,
{
    if j < 0 || j >= monsters.len() {
        0
    } else {
        (if monsters[j].gone {
            0int
        } else {
            1
        }) + live_monsters(monsters, j + 1)
    }
}

proof fn lemma_count_concat(s: Seq<DynAction>, t: Seq<DynAction>, c: SingleCard)
    ensures
        count_play_entries(s + t, c) == count_play_entries(s, c) + count_play_entries(t, c),
    decreases t.len(),
{
    if t.len() == 0 {
        assert(s + t =~= s);
    } else {
        lemma_count_concat(s, t.drop_last(), c);
        assert((s + t).drop_last() =~= s + t.drop_last());
        assert((s + t).last() == t.last());
    }
}

proof fn lemma_count_target_entries(
    card: SingleCard,
    monsters: Seq<Monster>,
    j: int,
    c: SingleCard,
)
    ensures
        count_play_entries(spec_target_entries(card, monsters, j), c) == if c == card {
            live_monsters(monsters, j)
        } else {
            0
        },
    decreases monsters.len() - j,
{
    if j < 0 || j >= monsters.len() {
    } else {
        lemma_count_target_entries(card, monsters, j + 1, c);
        let head = if !monsters[j].gone {
            seq![DynAction::PlayCard { card, target: j as usize }]
        } else {
            Seq::<DynAction>::empty()
        };
        assert(spec_target_entries(card, monsters, j) == head + spec_target_entries(
            card,
            monsters,
            j + 1,
        ));
        lemma_count_concat(head, spec_target_entries(card, monsters, j + 1), c);
        assert(count_play_entries(Seq::<DynAction>::empty(), c) == 0);
        if !monsters[j].gone {
            assert(head.drop_last() =~= Seq::<DynAction>::empty());
            assert(head.last() == (DynAction::PlayCard { card, target: j as usize }));
            assert(count_play_entries(head, c) == if card == c {
                1int
            } else {
                0
            });
        }
    }
}

/// There is some position holding `c` exactly when there is a first
/// occurrence holding `c`.
proof fn lemma_first_occurrence_exists(hand: Seq<SingleCard>, k: int)
    requires
        0 <= k < hand.len(),
    ensures
        exists|j: int|
            0 <= j <= k && hand[j] == hand[k] && #[trigger] spec_first_occurrence(hand, j),
    decreases k,
{
    if spec_first_occurrence(hand, k) {
        assert(0 <= k <= k && hand[k] == hand[k] && spec_first_occurrence(hand, k));
    } else {
        let m = choose|m: int| 0 <= m < k && hand[m] == hand[k];
        lemma_first_occurrence_exists(hand, m);
        let j = choose|j: int|
            0 <= j <= m && hand[j] == hand[m] && #[trigger] spec_first_occurrence(hand, j);
        assert(0 <= j <= k && hand[j] == hand[k] && spec_first_occurrence(hand, j));
    }
}

proof fn lemma_count_choices_from(s: CombatState, i: int, c: SingleCard)
    requires
        0 <= i <= s.hand.len(),
    ensures
        count_play_entries(spec_choices_from(s, i), c) == if s.spec_card_playable(c) && (exists|
            j: int,
        |
            i <= j < s.hand@.len() && s.hand@[j] == c && #[trigger] spec_first_occurrence(
                s.hand@,
                j,
            )) {
            if c.card_info.has_target {
                live_monsters(s.monsters@, 0)
            } else {
                1int
            }
        } else {
            0
        },
    decreases s.hand.len() - i,
{
    if i == s.hand.len() {
    } else {
        lemma_count_choices_from(s, i + 1, c);
        let head = if spec_first_occurrence(s.hand@, i) && s.spec_card_playable(s.hand@[i]) {
            if s.hand@[i].card_info.has_target {
                spec_target_entries(s.hand@[i], s.monsters@, 0)
            } else {
                seq![DynAction::PlayCard { card: s.hand@[i], target: 0 }]
            }
        } else {
            Seq::<DynAction>::empty()
        };
        assert(spec_choices_from(s, i) == head + spec_choices_from(s, i + 1));
        lemma_count_concat(head, spec_choices_from(s, i + 1), c);
        lemma_count_target_entries(s.hand@[i], s.monsters@, 0, c);
        assert(count_play_entries(Seq::<DynAction>::empty(), c) == 0);
        if spec_first_occurrence(s.hand@, i) && s.spec_card_playable(s.hand@[i])
            && !s.hand@[i].card_info.has_target {
            assert(head.drop_last() =~= Seq::<DynAction>::empty());
            assert(head.last() == (DynAction::PlayCard { card: s.hand@[i], target: 0usize }));
            assert(count_play_entries(head, c) == if s.hand@[i] == c {
                1int
            } else {
                0
            });
        }
        if s.hand@[i] == c {
            // a later copy of the same value is never a first occurrence
            assert forall|j: int|
                i + 1 <= j < s.hand@.len() && s.hand@[j] == c implies !spec_first_occurrence(
                s.hand@,
                j,
            ) by {
                assert(s.hand@[i] == s.hand@[j]);
            }
            assert(!(exists|j: int|
                i + 1 <= j < s.hand@.len() && s.hand@[j] == c && #[trigger] spec_first_occurrence(
                    s.hand@,
                    j,
                )));
            if !spec_first_occurrence(s.hand@, i) {
                assert(!(exists|j: int|
                    i <= j < s.hand@.len() && s.hand@[j] == c && #[trigger] spec_first_occurrence(
                        s.hand@,
                        j,
                    )));
            } else {
                assert(i <= i < s.hand@.len() && s.hand@[i] == c && spec_first_occurrence(
                    s.hand@,
                    i,
                ));
            }
        } else {
            // position i holds a different value, so the tail decides
            if exists|j: int|
                i <= j < s.hand@.len() && s.hand@[j] == c && #[trigger] spec_first_occurrence(
                    s.hand@,
                    j,
                ) {
                let j = choose|j: int|
                    i <= j < s.hand@.len() && s.hand@[j] == c
                        && #[trigger] spec_first_occurrence(s.hand@, j);
                assert(j != i);
                assert(i + 1 <= j < s.hand@.len() && s.hand@[j] == c && spec_first_occurrence(
                    s.hand@,
                    j,
                ));
            }
        }
    }
}

/// Deduplication law for the legal-choice generator: the number of "play
/// card" entries for a card value is exactly one per live monster (or one
/// with a placeholder target) when some copy of that value is in hand and
/// it is playable, and zero otherwise — however many value-equal copies
/// the hand holds.
pub proof fn lemma_legal_choices_dedup(s: CombatState, c: SingleCard)
    ensures
        count_play_entries(spec_legal_choices(s), c) == if s.spec_card_playable(c) && (exists|
            j: int,
        | 0 <= j < s.hand@.len() && s.hand@[j] == c) {
            if c.card_info.has_target {
                live_monsters(s.monsters@, 0)
            } else {
                1int
            }
        } else {
            0
        },
{
    lemma_count_choices_from(s, 0, c);
    lemma_count_concat(seq![DynAction::EndTurn], spec_choices_from(s, 0), c);
    assert(seq![DynAction::EndTurn].drop_last() =~= Seq::<DynAction>::empty());
    assert(seq![DynAction::EndTurn].last() == DynAction::EndTurn);
    assert(count_play_entries(Seq::<DynAction>::empty(), c) == 0);
    assert(count_play_entries(seq![DynAction::EndTurn], c) == 0);
    if exists|j: int| 0 <= j < s.hand@.len() && s.hand@[j] == c {
        let k = choose|k: int| 0 <= k < s.hand@.len() && s.hand@[k] == c;
        lemma_first_occurrence_exists(s.hand@, k);
    }
}

/// Two-stage transfer law: the fresh-subaction queue flushed onto the stale
/// stack by last-in-first-out moves is popped back off in its original
/// generation order — the k-th pop after the transfer yields the k-th
/// freshly generated action.
pub proof fn lemma_transfer_fifo(stale: Seq<DynAction>, fresh: Seq<DynAction>, k: int)
    requires
        0 <= k < fresh.len(),
    ensures
        (stale + fresh.reverse()).len() == stale.len() + fresh.len(),
        (stale + fresh.reverse())[stale.len() + fresh.len() - 1 - k] == fresh[k],
{
    let j = fresh.len() - 1 - k;
    assert(fresh.reverse()[j] == fresh[k]);
    assert((stale + fresh.reverse())[stale.len() + j] == fresh.reverse()[j]);
}

} // verus!
