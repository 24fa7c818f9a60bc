//! Power identities and the damage-modifier hooks they contribute.
//!
//! Each power identity may implement a "damage given", "damage received" or
//! "final damage received" modifier; identities that do not implement a hook
//! contribute the identity transformation.  Hooks transform an exact
//! rational intermediate (numerator, denominator); truncation to an integer
//! happens once, at the end of the damage pipeline.

use vstd::prelude::*;
use crate::cards::str_is;
use crate::simulation_state::Power;
use crate::simulation::DamageType;

verus! {

#[derive(Copy, Clone, Debug, PartialEq, Eq, Structural)]
pub enum PowerId {
    Vulnerable,
    Weak,
    Strength,
    Entangled,
    Unknown,
}

impl PowerId {
    /// The identity named by an observed identifier string; unrecognized
    /// identifiers degrade to `Unknown`.
    pub open spec fn spec_from_name(name: Seq<char>) -> PowerId {
        if name == "Vulnerable"@ {
            PowerId::Vulnerable
        } else if name == "Weakened"@ {
            PowerId::Weak
        } else if name == "Strength"@ {
            PowerId::Strength
        } else if name == "Entangled"@ {
            PowerId::Entangled
        } else {
            PowerId::Unknown
        }
    }

    pub fn from_name(name: &str) -> (r: PowerId)
        ensures
            r == PowerId::spec_from_name(name@),
    {
        if str_is(name, "Vulnerable") {
            PowerId::Vulnerable
        } else if str_is(name, "Weakened") {
            PowerId::Weak
        } else if str_is(name, "Strength") {
            PowerId::Strength
        } else if str_is(name, "Entangled") {
            PowerId::Entangled
        } else {
            PowerId::Unknown
        }
    }
}

/// The three points in the damage pipeline where a power may modify the
/// running value.
#[derive(Copy, Clone, Debug, PartialEq, Eq, Structural)]
pub enum HookPhase {
    DamageGive,
    DamageReceive,
    DamageFinalReceive,
}

/// The transformation one power contributes at one phase, applied to the
/// exact rational intermediate num/den.  Strength adds its stacks; Weak
/// multiplies by 3/4; Vulnerable multiplies by 3/2; every other identity is
/// the identity transformation.  Only normal damage is modified.
pub open spec fn spec_hook(power: Power, phase: HookPhase, dtype: DamageType, num: int, den: int) -> (
    int,
    int,
) {
    match phase {
        HookPhase::DamageGive => {
            if power.power_id == PowerId::Strength && dtype == DamageType::Normal {
                (num + power.amount * den, den)
            } else if power.power_id == PowerId::Weak && dtype == DamageType::Normal {
                (num * 3, den * 4)
            } else {
                (num, den)
            }
        },
        HookPhase::DamageReceive => {
            if power.power_id == PowerId::Vulnerable && dtype == DamageType::Normal {
                (num * 3, den * 2)
            } else {
                (num, den)
            }
        },
        HookPhase::DamageFinalReceive => (num, den),
    }
}

/// Left fold of `spec_hook` over a creature's power list, in list order.
pub open spec fn fold_hooks(
    powers: Seq<Power>,
    phase: HookPhase,
    dtype: DamageType,
    num: int,
    den: int,
) -> (int, int)
    decreases powers.len(),
{
    if powers.len() == 0 {
        (num, den)
    } else {
        let stepped = spec_hook(powers[0], phase, dtype, num, den);
        fold_hooks(powers.drop_first(), phase, dtype, stepped.0, stepped.1)
    }
}

/// 4 raised to the power n: the worst-case per-hook growth of the rational
/// intermediate's denominator.
pub open spec fn pow4(n: nat) -> int
    decreases n,
{
    if n == 0 {
        1
    } else {
        4 * pow4((n - 1) as nat)
    }
}

pub proof fn lemma_pow4_pos(n: nat)
    ensures
        1 <= pow4(n),
    decreases n,
{
    if n > 0 {
        lemma_pow4_pos((n - 1) as nat);
    }
}

pub proof fn lemma_pow4_mono(m: nat, n: nat)
    requires
        m <= n,
    ensures
        pow4(m) <= pow4(n),
    decreases n,
{
    if m < n {
        lemma_pow4_mono(m, (n - 1) as nat);
        lemma_pow4_pos((n - 1) as nat);
    }
}

/// Machine bound on a creature's power-list length: it keeps the exact
/// rational damage intermediate within i128.  The data model itself puts
/// no cap on stacking; this engine deviates by leaving a full power list
/// unchanged when another stack arrives, and the contract of the
/// power-applying action states that drop outright.
pub const MAX_POWERS: usize = 12;

/// The damage pipeline runs at most 3 * MAX_POWERS = 36 hooks.
pub open spec fn max_hook_steps() -> int {
    36
}

/// Invariant carried through the hook fold: after `steps` hooks the
/// denominator is at most 4^steps and the numerator magnitude is at most
/// (2^31 + steps * 2^31) * 4^steps.
pub open spec fn rat_bounded(num: int, den: int, steps: int) -> bool {
    &&& 0 <= steps <= max_hook_steps()
    &&& 1 <= den <= pow4(steps as nat)
    &&& -((0x80000000 + steps * 0x80000000) * pow4(steps as nat)) <= num
    &&& num <= (0x80000000 + steps * 0x80000000) * pow4(steps as nat)
}

/// One hook step preserves the rational bound with the step count advanced.
pub proof fn lemma_hook_step_bounded(
    power: Power,
    phase: HookPhase,
    dtype: DamageType,
    num: int,
    den: int,
    steps: int,
)
    requires
        rat_bounded(num, den, steps),
        steps + 1 <= max_hook_steps(),
    ensures
        rat_bounded(
            spec_hook(power, phase, dtype, num, den).0,
            spec_hook(power, phase, dtype, num, den).1,
            steps + 1,
        ),
{
    let b = 0x80000000int;
    let p = pow4(steps as nat);
    let p1 = pow4((steps + 1) as nat);
    lemma_pow4_pos(steps as nat);
    assert(p1 == 4 * p);
    let (n2, d2) = spec_hook(power, phase, dtype, num, den);
    assert(-b <= power.amount <= b);
    // each hook multiplies num by at most 3 and adds at most b * den,
    // and multiplies den by at most 4
    assert((b + (steps + 1) * b) * p1 >= 3 * ((b + steps * b) * p) + b * p) by (nonlinear_arith)
        requires
            1 <= p,
            p1 == 4 * p,
            0 <= steps,
            b == 0x80000000int,
    ;
    assert(n2 == num + power.amount * den || n2 == num * 3 || n2 == num);
    if n2 == num + power.amount * den && !(n2 == num) {
        assert(-(b * p) <= power.amount * den <= b * p) by (nonlinear_arith)
            requires
                -b <= power.amount <= b,
                1 <= den <= p,
                0 <= b,
        ;
    }
    if n2 == num * 3 {
        assert(-(3 * ((b + steps * b) * p)) <= num * 3 <= 3 * ((b + steps * b) * p))
            by (nonlinear_arith)
            requires
                -((b + steps * b) * p) <= num <= (b + steps * b) * p,
        ;
    }
    assert((b + steps * b) * p <= (b + (steps + 1) * b) * p1) by (nonlinear_arith)
        requires
            1 <= p,
            p1 == 4 * p,
            0 <= steps,
            0 <= b,
    ;
    assert(0 <= (b + steps * b) * p) by (nonlinear_arith)
        requires
            1 <= p,
            0 <= steps,
            0 <= b,
    ;
}

/// A bounded rational intermediate fits comfortably within i128:
/// |num| <= 37 * 2^31 * 4^36 and den <= 4^36.
pub proof fn lemma_rat_bounded_concrete(num: int, den: int, steps: int)
    requires
        rat_bounded(num, den, steps),
    ensures
        -(0x80000000 * 37 * 4722366482869645213696int) <= num,
        num <= 0x80000000 * 37 * 4722366482869645213696int,
        1 <= den <= 4722366482869645213696int,
{
    let b = 0x80000000int;
    let p = pow4(steps as nat);
    lemma_pow4_pos(steps as nat);
    lemma_pow4_mono(steps as nat, 36nat);
    assert(pow4(36nat) == 4722366482869645213696int) by {
        reveal_with_fuel(pow4, 40);
    }
    assert((b + steps * b) * p <= b * 37 * 4722366482869645213696int) by (nonlinear_arith)
        requires
            1 <= p <= 4722366482869645213696int,
            0 <= steps <= 36,
            b == 0x80000000int,
    ;
}

/// Run every hook of one phase over a creature's power list, in list order,
/// on the exact rational intermediate num/den.  `steps` counts the hooks
/// already applied by earlier phases.
pub(crate) fn run_hooks(
    powers: &Vec<Power>,
    phase: HookPhase,
    dtype: DamageType,
    num: i128,
    den: i128,
    Ghost(steps): Ghost<int>,
) -> (r: (i128, i128))
    requires
        rat_bounded(num as int, den as int, steps),
        steps + powers.len() <= max_hook_steps(),
    ensures
        (r.0 as int, r.1 as int) == fold_hooks(powers@, phase, dtype, num as int, den as int),
        rat_bounded(r.0 as int, r.1 as int, steps + powers.len()),
{
    let n = powers.len();
    let mut cur_num: i128 = num;
    let mut cur_den: i128 = den;
    let mut i: usize = 0;
    proof {
        assert(powers@.skip(0) =~= powers@);
    }
    while i < n
        invariant
            n == powers.len(),
            0 <= i <= n,
            steps + n <= max_hook_steps(),
            rat_bounded(cur_num as int, cur_den as int, steps + i),
            fold_hooks(powers@, phase, dtype, num as int, den as int) == fold_hooks(
                powers@.skip(i as int),
                phase,
                dtype,
                cur_num as int,
                cur_den as int,
            ),
        decreases n - i,
    {
        let p = powers[i];
        proof {
            lemma_rat_bounded_concrete(cur_num as int, cur_den as int, steps + i);
            lemma_hook_step_bounded(p, phase, dtype, cur_num as int, cur_den as int, steps + i);
            assert(-(0x80000000int * cur_den) <= (p.amount as int) * cur_den <= 0x80000000int
                * cur_den) by (nonlinear_arith)
                requires
                    -0x80000000int <= p.amount <= 0x80000000int,
                    1 <= cur_den,
            ;
            assert(0x80000000int * cur_den <= 0x80000000int * 4722366482869645213696int)
                by (nonlinear_arith)
                requires
                    1 <= cur_den <= 4722366482869645213696int,
            ;
        }
        let stepped_num: i128;
        let stepped_den: i128;
        match phase {
            HookPhase::DamageGive => {
                if p.power_id == PowerId::Strength && dtype == DamageType::Normal {
                    stepped_num = cur_num + (p.amount as i128) * cur_den;
                    stepped_den = cur_den;
                } else if p.power_id == PowerId::Weak && dtype == DamageType::Normal {
                    stepped_num = cur_num * 3;
                    stepped_den = cur_den * 4;
                } else {
                    stepped_num = cur_num;
                    stepped_den = cur_den;
                }
            },
            HookPhase::DamageReceive => {
                if p.power_id == PowerId::Vulnerable && dtype == DamageType::Normal {
                    stepped_num = cur_num * 3;
                    stepped_den = cur_den * 2;
                } else {
                    stepped_num = cur_num;
                    stepped_den = cur_den;
                }
            },
            HookPhase::DamageFinalReceive => {
                stepped_num = cur_num;
                stepped_den = cur_den;
            },
        }
        proof {
            assert((stepped_num as int, stepped_den as int) == spec_hook(
                p,
                phase,
                dtype,
                cur_num as int,
                cur_den as int,
            ));
            assert(powers@.skip(i as int).drop_first() =~= powers@.skip(i as int + 1));
            assert(powers@.skip(i as int)[0] == powers@[i as int]);
        }
        cur_num = stepped_num;
        cur_den = stepped_den;
        i = i + 1;
    }
    proof {
        assert(powers@.skip(n as int) =~= Seq::<Power>::empty());
    }
    (cur_num, cur_den)
}

} // verus!
