use vstd::prelude::*;
use crate::config::MmapFileConfig;

verus! {

/// The number of whole steps needed to cover `required` bytes.
pub open spec fn steps_for(required: nat, step: nat) -> nat
    recommends
        step > 0,
{
    if required % step == 0 {
        required / step
    } else {
        required / step + 1
    }
}

/// The smallest multiple of `step` that is at least `required`.
pub open spec fn capacity_for(required: nat, step: nat) -> nat
    recommends
        step > 0,
{
    steps_for(required, step) * step
}

/// `capacity_for` is a multiple of the step, covers `required`, and no smaller
/// multiple of the step does.
pub proof fn lemma_capacity_for(required: nat, step: nat)
    requires
        step > 0,
    ensures
        capacity_for(required, step) % step == 0,
        required <= capacity_for(required, step) < required + step,
        forall|k: nat| #[trigger] (k * step) >= required ==> k * step >= capacity_for(required, step),
{
    let q = required / step;
    let r = required % step;
    vstd::arithmetic::div_mod::lemma_fundamental_div_mod(required as int, step as int);
    vstd::arithmetic::div_mod::lemma_mod_multiples_basic(steps_for(required, step) as int, step as int);
    if r == 0 {
        assert(capacity_for(required, step) == required);
    } else {
        assert(capacity_for(required, step) == q * step + step) by (nonlinear_arith)
            requires
                capacity_for(required, step) == (q + 1) * step,
        ;
    }
    let n = steps_for(required, step);
    assert forall|k: nat| #[trigger] (k * step) >= required implies k * step >= capacity_for(
        required,
        step,
    ) by {
        if k >= n {
            assert(k * step >= n * step) by (nonlinear_arith)
                requires
                    k >= n,
            ;
        } else {
            assert(k * step <= n * step - step) by (nonlinear_arith)
                requires
                    k + 1 <= n,
            ;
        }
    }
}

/// The capacity that growth to `required` bytes leads to, where it stays within
/// `max_size`.
pub fn capacity_for_required(config: &MmapFileConfig, required: usize) -> (r: Option<usize>)
    requires
        config.valid(),
    ensures
        match r {
            Some(c) => c == capacity_for(required as nat, config.growth_step as nat) && c
                <= config.max_size,
            None => capacity_for(required as nat, config.growth_step as nat) > config.max_size,
        },
{
    let step = config.growth_step;
    proof {
        lemma_capacity_for(required as nat, step as nat);
    }
    let q = required / step;
    let limit = config.max_size / step;
    let steps: usize = if required % step == 0 {
        q
    } else {
        if q >= limit {
            assert(capacity_for(required as nat, step as nat) > config.max_size) by (nonlinear_arith)
                requires
                    q >= limit,
                    limit == config.max_size / step,
                    capacity_for(required as nat, step as nat) == (q + 1) * step,
                    step > 0,
            ;
            return None;
        }
        q + 1
    };
    if steps > limit {
        assert(capacity_for(required as nat, step as nat) > config.max_size) by (nonlinear_arith)
            requires
                steps > limit,
                limit == config.max_size / step,
                capacity_for(required as nat, step as nat) == steps * step,
                step > 0,
        ;
        None
    } else {
        assert(steps * step <= config.max_size) by (nonlinear_arith)
            requires
                steps <= limit,
                limit == config.max_size / step,
                step > 0,
        ;
        Some(steps * step)
    }
}

} // verus!
