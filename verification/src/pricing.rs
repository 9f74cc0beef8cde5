use vstd::arithmetic::div_mod::{
    lemma_div_is_ordered, lemma_div_multiples_vanish, lemma_div_pos_is_pos,
    lemma_fundamental_div_mod, lemma_mod_bound,
};
use vstd::prelude::*;

verus! {

/// The constant-product output, rounded down, of putting `amount_in` into a
/// side that holds `reserve_in` while the other side holds `reserve_out`.
/// No fee is taken. It has a meaning only where `reserve_in + amount_in` is
/// positive.
pub open spec fn quote_amount(reserve_in: int, reserve_out: int, amount_in: int) -> int {
    (reserve_out * amount_in) / (reserve_in + amount_in)
}

/// Of two fractions with positive denominators, the one that is no larger
/// by cross-multiplication is also no larger once both are rounded down.
proof fn lemma_floor_respects_cross_order(x1: int, y1: int, x2: int, y2: int)
    requires
        0 < y1,
        0 < y2,
        x1 * y2 <= x2 * y1,
    ensures
        x1 / y1 <= x2 / y2,
{
    let q = x1 / y1;
    lemma_fundamental_div_mod(x1, y1);
    lemma_mod_bound(x1, y1);
    assert(y1 * q <= x1);
    assert((y1 * q) * y2 <= x1 * y2) by (nonlinear_arith)
        requires
            y1 * q <= x1,
            0 < y2,
    ;
    assert((q * y2) * y1 == (y1 * q) * y2) by (nonlinear_arith);
    assert(q * y2 <= x2) by (nonlinear_arith)
        requires
            (q * y2) * y1 <= x2 * y1,
            0 < y1,
    ;
    lemma_div_is_ordered(q * y2, x2, y2);
    lemma_div_multiples_vanish(q, y2);
    assert(y2 * q == q * y2) by (nonlinear_arith);
}

/// A quote is never negative and never more than the output side holds.
pub proof fn lemma_quote_within_reserve(reserve_in: int, reserve_out: int, amount_in: int)
    requires
        0 <= reserve_in,
        0 <= reserve_out,
        0 <= amount_in,
        0 < reserve_in + amount_in,
    ensures
        0 <= quote_amount(reserve_in, reserve_out, amount_in) <= reserve_out,
{
    let d = reserve_in + amount_in;
    assert(0 <= reserve_out * amount_in) by (nonlinear_arith)
        requires
            0 <= reserve_out,
            0 <= amount_in,
    ;
    lemma_div_pos_is_pos(reserve_out * amount_in, d);
    assert(reserve_out * amount_in <= d * reserve_out) by (nonlinear_arith)
        requires
            0 <= reserve_out,
            0 <= amount_in <= d,
    ;
    lemma_div_is_ordered(reserve_out * amount_in, d * reserve_out, d);
    lemma_div_multiples_vanish(reserve_out, d);
}

/// For fixed reserves, a larger input never quotes a smaller output.
pub proof fn lemma_quote_monotonic_in_amount(
    reserve_in: int,
    reserve_out: int,
    amount_low: int,
    amount_high: int,
)
    requires
        0 <= reserve_in,
        0 <= reserve_out,
        0 <= amount_low <= amount_high,
        0 < reserve_in + amount_low,
    ensures
        quote_amount(reserve_in, reserve_out, amount_low) <= quote_amount(
            reserve_in,
            reserve_out,
            amount_high,
        ),
{
    assert((reserve_out * amount_low) * (reserve_in + amount_high) <= (reserve_out * amount_high)
        * (reserve_in + amount_low)) by (nonlinear_arith)
        requires
            0 <= reserve_in,
            0 <= reserve_out,
            0 <= amount_low <= amount_high,
    ;
    lemma_floor_respects_cross_order(
        reserve_out * amount_low,
        reserve_in + amount_low,
        reserve_out * amount_high,
        reserve_in + amount_high,
    );
}

/// For a fixed input, a larger reserve on the input side never quotes a
/// larger output.
pub proof fn lemma_quote_antitone_in_reserve(
    reserve_low: int,
    reserve_high: int,
    reserve_out: int,
    amount_in: int,
)
    requires
        0 <= reserve_low <= reserve_high,
        0 <= reserve_out,
        0 <= amount_in,
        0 < reserve_low + amount_in,
    ensures
        quote_amount(reserve_high, reserve_out, amount_in) <= quote_amount(
            reserve_low,
            reserve_out,
            amount_in,
        ),
{
    assert((reserve_out * amount_in) * (reserve_low + amount_in) <= (reserve_out * amount_in) * (
    reserve_high + amount_in)) by (nonlinear_arith)
        requires
            0 <= reserve_low <= reserve_high,
            0 <= reserve_out,
            0 <= amount_in,
    ;
    lemma_floor_respects_cross_order(
        reserve_out * amount_in,
        reserve_high + amount_in,
        reserve_out * amount_in,
        reserve_low + amount_in,
    );
}

/// Applying both legs of a swap at the quoted output never lowers the
/// product of the two reserves: rounding down can only push it up.
pub proof fn lemma_swap_keeps_product(reserve_in: int, reserve_out: int, amount_in: int)
    requires
        0 <= reserve_in,
        0 <= reserve_out,
        0 <= amount_in,
        0 < reserve_in + amount_in,
    ensures
        (reserve_in + amount_in) * (reserve_out - quote_amount(reserve_in, reserve_out, amount_in))
            >= reserve_in * reserve_out,
{
    let d = reserve_in + amount_in;
    let q = quote_amount(reserve_in, reserve_out, amount_in);
    lemma_fundamental_div_mod(reserve_out * amount_in, d);
    lemma_mod_bound(reserve_out * amount_in, d);
    assert(d * q <= reserve_out * amount_in);
    assert(d * (reserve_out - q) == d * reserve_out - d * q) by (nonlinear_arith);
    assert(d * reserve_out - reserve_out * amount_in == reserve_in * reserve_out)
        by (nonlinear_arith)
        requires
            d == reserve_in + amount_in,
    ;
}

} // verus!
