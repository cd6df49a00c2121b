use vstd::prelude::*;

verus! {

/// The quotient of `a` by `b`, rounded up.
pub open spec fn div_ceil_spec(a: int, b: int) -> int {
    (a + b - 1) / b
}

/// The least multiple of `target` that is not below `val`.
pub open spec fn round_up_spec(val: int, target: int) -> int {
    div_ceil_spec(val, target) * target
}

/// What makes `round_up_spec` a rounding: the result is a multiple of
/// `target`, reaches `val`, and overshoots it by less than one `target`.
pub proof fn lemma_round_up_is_least_multiple(val: int, target: int)
    requires
        0 <= val,
        0 < target,
    ensures
        round_up_spec(val, target) % target == 0,
        val <= round_up_spec(val, target) < val + target,
{
    let q = div_ceil_spec(val, target);
    let s = val + target - 1;
    vstd::arithmetic::div_mod::lemma_fundamental_div_mod(s, target);
    vstd::arithmetic::div_mod::lemma_mod_bound(s, target);
    vstd::arithmetic::div_mod::lemma_mod_multiples_basic(q, target);
    assert(target * q == q * target) by (nonlinear_arith);
}

/// Number of groups of `b` needed to hold `a` items.
pub fn div_ceil(a: usize, b: usize) -> (q: usize)
    requires
        b > 0,
    ensures
        q == div_ceil_spec(a as int, b as int),
{
    let whole: usize = a / b;
    let rest: usize = a % b;
    proof {
        let s = a + b - 1;
        vstd::arithmetic::div_mod::lemma_fundamental_div_mod(a as int, b as int);
        if rest == 0 {
            vstd::arithmetic::div_mod::lemma_fundamental_div_mod_converse_div(
                s,
                b as int,
                whole as int,
                b - 1,
            );
        } else {
            assert(s == (whole + 1) * b + (rest - 1)) by (nonlinear_arith)
                requires
                    a == b * whole + rest,
                    s == a + b - 1,
            ;
            vstd::arithmetic::div_mod::lemma_fundamental_div_mod_converse_div(
                s,
                b as int,
                whole + 1,
                rest - 1,
            );
            assert(whole + 1 <= usize::MAX) by (nonlinear_arith)
                requires
                    a == b * whole + rest,
                    rest > 0,
                    b > 0,
                    whole >= 0,
                    a <= usize::MAX,
            ;
        }
    }
    if rest == 0 {
        whole
    } else {
        whole + 1
    }
}

/// Rounds `val` up to the next multiple of `target`.
pub fn round_up_to(val: usize, target: usize) -> (r: usize)
    requires
        target > 0,
        round_up_spec(val as int, target as int) <= usize::MAX,
    ensures
        r == round_up_spec(val as int, target as int),
        r % target == 0,
        val <= r < val + target,
{
    proof {
        lemma_round_up_is_least_multiple(val as int, target as int);
    }
    div_ceil(val, target) * target
}

} // verus!
