//! Financial functions: `PMT`, `FV`, `NPER`, `RATE`, `IPMT`, `PPMT`, `NPV`, `IRR`, `XNPV`, `XIRR`.
//!
//! Money out is negative. The annuity functions share one balance identity: with
//! `t = (1+rate)^nper`, `pv·t + pmt·(1 + rate·type)·(t − 1)/rate + fv = 0` (or the linear
//! `pv + pmt·nper + fv = 0` at a zero rate). Integer powers are a left-to-right multiply loop, so
//! results are reproducible operation for operation. `NPV` discounts its first value one period
//! out; `IRR` roots the period-0-anchored present value by a capped Newton iteration with a capped
//! bisection fallback, so it always terminates. `XNPV`/`XIRR` do the same over dated flows on an
//! Actual/365 day count, and `RATE` roots the annuity balance by Newton alone.

use vstd::prelude::*;
use crate::eval::{coerce_num, is_zero, num_coercion, lemma_restored_same, less_than, restored, spec_is_zero, EvalCtx};
use crate::expr::{args_size, lemma_arg_size, Expr, Resolver};
use crate::func::aggregation::clamp_count;
use crate::func::helpers::{all_lit_nums, arg_value, block, block_result, collect_numbers_in, spec_block, collected, finite_or_num, lit_num, lit_nums, num_read, nums_result, one_num, room, spec_finite_or_num};
use crate::value::{same_cells, ErrKind, Number, Order, Value};
use crate::func::regression::lemma_same_cells_at;

verus! {

/// The cap on Newton iterations.
pub const IRR_NEWTON_MAX: u32 = 50;

/// The cap on bisection halvings.
pub const IRR_BISECT_MAX: u32 = 200;

/// The number of grid steps the bracket search scans.
pub const IRR_GRID: u32 = 1000;

/// Whether `a <= b` (false when unordered).
pub open spec fn at_most_spec<N: Number>(a: N, b: N) -> bool {
    a.spec_order(b) == Some(Order::Less) || a.spec_order(b) == Some(Order::Equal)
}

/// Whether `a <= b` (see [`at_most_spec`]).
pub fn at_most<N: Number>(a: N, b: N) -> (r: bool)
    ensures
        r == at_most_spec(a, b),
{
    match a.order(b) {
        Some(Order::Less) => true,
        Some(Order::Equal) => true,
        _ => false,
    }
}

/// The ratio of two integers.
pub open spec fn spec_ratio<N: Number>(a: i64, b: i64) -> N {
    N::spec_from_int(a).spec_over(N::spec_from_int(b))
}

/// The ratio of two integers (see [`spec_ratio`]).
fn ratio<N: Number>(a: i64, b: i64) -> (r: N)
    ensures
        r == spec_ratio::<N>(a, b),
{
    N::from_int(a).over(N::from_int(b))
}

/// Whether a number orders below zero.
pub open spec fn spec_negative<N: Number>(x: N) -> bool {
    x.spec_order(N::spec_from_int(0)) == Some(Order::Less)
}

/// The multiply chain of [`pow_int`] from step `i` with accumulator `acc`: each step multiplies by
/// `base`; once the product is non-finite or its magnitude stops changing, the sign flips of the
/// remaining steps are folded in and the chain ends.
pub open spec fn pow_from<N: Number>(base: N, exp: u32, i: int, acc: N) -> N
    decreases exp - i,
{
    if i >= exp {
        acc
    } else {
        let next = acc.spec_times(base);
        if !next.spec_finite() || next.spec_magnitude().spec_order(acc.spec_magnitude()) == Some(Order::Equal) {
            if spec_negative(base) && (exp - i - 1) % 2 == 1 { next.spec_negate() } else { next }
        } else {
            pow_from(base, exp, i + 1, next)
        }
    }
}

/// `base` to a non-negative integer power by the multiply chain of [`pow_from`] from one.
pub open spec fn spec_pow_int<N: Number>(base: N, exp: u32) -> N {
    pow_from(base, exp, 0, N::spec_from_int(1))
}

/// `b` to the power `e`, over the integers.
pub open spec fn int_power(b: int, e: nat) -> int
    decreases e,
{
    if e == 0 { 1 } else { int_power(b, (e - 1) as nat) * b }
}

/// Powers of a whole base of at least 2 grow with the exponent.
proof fn lemma_int_power_grows(b: int, i: nat, j: nat)
    requires
        b >= 2,
        i <= j,
    ensures
        1 <= int_power(b, i) <= int_power(b, j),
    decreases j,
{
    if j > i {
        lemma_int_power_grows(b, i, (j - 1) as nat);
        let p = int_power(b, (j - 1) as nat);
        assert(p * b >= p) by (nonlinear_arith)
            requires p >= 1, b >= 2;
    } else if i > 0 {
        lemma_int_power_grows(b, 0, (i - 1) as nat);
        let p = int_power(b, (i - 1) as nat);
        assert(p * b >= 1) by (nonlinear_arith)
            requires p >= 1, b >= 2;
    }
}

/// The multiply chain from step `i` on a whole base of at least 2 stays exact.
proof fn lemma_pow_from_exact<N: Number>(b: i64, e: u32, i: int)
    requires
        2 <= b,
        0 <= i <= e,
        int_power(b as int, e as nat) <= 0x20_0000_0000_0000,
    ensures
        pow_from(N::spec_from_int(b), e, i, N::spec_from_int(int_power(b as int, i as nat) as i64))
            == N::spec_from_int(int_power(b as int, e as nat) as i64),
    decreases e - i,
{
    if i < e {
        let p = int_power(b as int, i as nat);
        lemma_int_power_grows(b as int, (i + 1) as nat, e as nat);
        lemma_int_power_grows(b as int, i as nat, (i + 1) as nat);
        assert(int_power(b as int, (i + 1) as nat) == p * b);
        lemma_int_power_grows(b as int, 1, e as nat);
        assert(int_power(b as int, 1) == int_power(b as int, 0) * b);
        assert(p * b > p) by (nonlinear_arith)
            requires p >= 1, b >= 2;
        N::law_exact_integers(p as i64, b);
        N::law_exact_integers((p * b) as i64, p as i64);
        N::law_integral((p * b) as i64);
        N::law_integral(p as i64);
        lemma_pow_from_exact::<N>(b, e, i + 1);
    }
}

/// Powers of a whole base of at least 2 are exact while they fit in 53 bits: `pow_int` of it is the
/// integer power (so a compounding factor `(1+rate)^n` with a whole `1+rate` is the true power).
pub proof fn law_pow_int_exact<N: Number>(b: i64, e: u32)
    requires
        2 <= b,
        int_power(b as int, e as nat) <= 0x20_0000_0000_0000,
    ensures
        spec_pow_int(N::spec_from_int(b), e) == N::spec_from_int(int_power(b as int, e as nat) as i64),
{
    assert(int_power(b as int, 0) == 1);
    lemma_pow_from_exact::<N>(b, e, 0);
}

/// `base` raised to a non-negative integer power by a left-to-right multiply loop. Once the
/// accumulator's magnitude stops changing (non-finite, or a fixed point such as a base of ±1), every
/// remaining multiply could only flip the sign, so those flips are folded in at once.
pub fn pow_int<N: Number>(base: N, exp: u32) -> (r: N)
    ensures
        r == spec_pow_int(base, exp),
{
    let mut acc = N::from_int(1);
    let negative_base = less_than(base, N::from_int(0));
    let mut i: u32 = 0;
    while i < exp
        invariant
            i <= exp,
            negative_base == spec_negative(base),
            pow_from(base, exp, i as int, acc) == spec_pow_int(base, exp),
        decreases exp - i,
    {
        let next = acc.times(base);
        let stable = match next.magnitude().order(acc.magnitude()) {
            Some(Order::Equal) => true,
            _ => false,
        };
        if !next.finite() || stable {
            acc = next;
            if negative_base && (exp - i - 1) % 2 == 1 {
                acc = acc.negate();
            }
            return acc;
        }
        acc = next;
        i = i + 1;
    }
    acc
}

/// The integer period count the annuity powers use: the magnitude of `nper` truncated toward zero,
/// capped at `u32::MAX`.
pub open spec fn spec_int_periods<N: Number>(nper: N) -> u32 {
    let t = nper.spec_trunc_of().spec_magnitude();
    if N::spec_from_int(u32::MAX as i64).spec_order(t) == Some(Order::Less) {
        u32::MAX
    } else {
        let k = t.spec_trunc_int();
        if k < 0 { 0 } else if k > u32::MAX { u32::MAX } else { k as u32 }
    }
}

/// The integer period count the annuity powers use (see [`spec_int_periods`]).
pub fn int_periods<N: Number>(nper: N) -> (r: u32)
    ensures
        r == spec_int_periods(nper),
{
    let t = nper.trunc_of().magnitude();
    if less_than(N::from_int(u32::MAX as i64), t) {
        return u32::MAX;
    }
    let k = t.trunc_int();
    if k < 0 {
        0
    } else if k > u32::MAX as i64 {
        u32::MAX
    } else {
        k as u32
    }
}

/// `(1 + rate)^nper` by the multiply chain, over the integer period count.
pub open spec fn growth<N: Number>(rate: N, nper: N) -> N {
    spec_pow_int(N::spec_from_int(1).spec_plus(rate), spec_int_periods(nper))
}

/// Whether the annuity-payment denominator vanishes: `nper` at a zero rate, otherwise
/// `(1 + rate·type)·((1+rate)^nper − 1)`.
pub open spec fn spec_annuity_denom_is_zero<N: Number>(rate: N, nper: N, typ: N) -> bool {
    let one = N::spec_from_int(1);
    if spec_is_zero(rate) {
        spec_is_zero(nper)
    } else {
        spec_is_zero(one.spec_plus(rate.spec_times(typ)).spec_times(growth(rate, nper).spec_minus(one)))
    }
}

/// Whether the annuity-payment denominator vanishes (see [`spec_annuity_denom_is_zero`]).
pub fn annuity_denom_is_zero<N: Number>(rate: N, nper: N, typ: N) -> (r: bool)
    ensures
        r == spec_annuity_denom_is_zero(rate, nper, typ),
{
    let one = N::from_int(1);
    if is_zero(rate) {
        is_zero(nper)
    } else {
        is_zero(one.plus(rate.times(typ)).times(pow_int(one.plus(rate), int_periods(nper)).minus(one)))
    }
}

/// The closed-form annuity payment: the balance identity solved for `pmt`,
/// `−(fv + pv·t)·rate / ((1 + rate·type)·(t − 1))` with `t` the [`growth`] (the linear
/// `−(pv+fv)/nper` at a zero rate).
pub open spec fn spec_annuity_pmt<N: Number>(rate: N, nper: N, pv: N, fv: N, typ: N) -> N {
    let one = N::spec_from_int(1);
    if spec_is_zero(rate) {
        pv.spec_plus(fv).spec_negate().spec_over(nper)
    } else {
        let t = growth(rate, nper);
        fv.spec_plus(pv.spec_times(t)).spec_negate().spec_times(rate)
            .spec_over(one.spec_plus(rate.spec_times(typ)).spec_times(t.spec_minus(one)))
    }
}

/// The closed-form annuity payment (see [`spec_annuity_pmt`]).
pub fn annuity_pmt<N: Number>(rate: N, nper: N, pv: N, fv: N, typ: N) -> (r: N)
    ensures
        r == spec_annuity_pmt(rate, nper, pv, fv, typ),
{
    let one = N::from_int(1);
    if is_zero(rate) {
        return pv.plus(fv).negate().over(nper);
    }
    let t = pow_int(one.plus(rate), int_periods(nper));
    let denom = one.plus(rate.times(typ)).times(t.minus(one));
    fv.plus(pv.times(t)).negate().times(rate).over(denom)
}

/// The closed-form future value, the balance the payments and present value grow to:
/// `−(pv·t + pmt·(1 + rate·type)·(t − 1)/rate)` with `t` the [`growth`] (the linear
/// `−(pv + pmt·nper)` at a zero rate).
pub open spec fn spec_fv_core<N: Number>(rate: N, nper: N, pmt: N, pv: N, typ: N) -> N {
    let one = N::spec_from_int(1);
    if spec_is_zero(rate) {
        pv.spec_plus(pmt.spec_times(nper)).spec_negate()
    } else {
        let t = growth(rate, nper);
        pv.spec_times(t).spec_plus(pmt.spec_times(one.spec_plus(rate.spec_times(typ))).spec_times(t.spec_minus(one))
            .spec_over(rate)).spec_negate()
    }
}

/// The closed-form future value (see [`spec_fv_core`]).
pub fn fv_core<N: Number>(rate: N, nper: N, pmt: N, pv: N, typ: N) -> (r: N)
    ensures
        r == spec_fv_core(rate, nper, pmt, pv, typ),
{
    let one = N::from_int(1);
    if is_zero(rate) {
        return pv.plus(pmt.times(nper)).negate();
    }
    let t = pow_int(one.plus(rate), int_periods(nper));
    pv.times(t).plus(pmt.times(one.plus(rate.times(typ))).times(t.minus(one)).over(rate)).negate()
}

/// Evaluate every argument to a scalar number, the leftmost error winning.
fn scalars<N: Number, R: Resolver<N>>(ctx: &mut EvalCtx<R>, args: &[Expr<N>]) -> (r: Result<Vec<N>, ErrKind>)
    ensures
        restored(*old(ctx), *final(ctx)),
        r matches Ok(v) ==> v@.len() == args@.len(),
        room(*old(ctx)) && all_lit_nums(args@, 0, args@.len() as int)
            ==> (r matches Ok(v) && v@ == lit_nums(args@, 0, args@.len() as int)),
    decreases args_size(args@), 4nat,
{
    let mut out: Vec<N> = Vec::new();
    let mut i: usize = 0;
    while i < args.len()
        invariant
            i <= args.len(),
            out@.len() == i,
            restored(*old(ctx), *ctx),
            room(*old(ctx)) && all_lit_nums(args@, 0, args@.len() as int) ==> out@ == lit_nums(args@, 0, i as int),
        decreases args.len() - i,
    {
        proof {
            lemma_arg_size(args@, i as int);
            if room(*old(ctx)) && all_lit_nums(args@, 0, args@.len() as int) {
                assert(lit_num(args@[i as int]) is Some);
            }
        }
        let x = one_num(ctx, &args[i])?;
        proof {
            if room(*old(ctx)) && all_lit_nums(args@, 0, args@.len() as int) {
                assert(out@.push(x) =~= lit_nums(args@, 0, i + 1));
            }
        }
        out.push(x);
        i = i + 1;
    }
    Ok(out)
}

/// The `i`-th number of a run if present, else `default`.
pub open spec fn spec_nth_or<N>(v: Seq<N>, i: int, default: N) -> N {
    if i < v.len() { v[i] } else { default }
}

/// The `i`-th number if present, else `default` (see [`spec_nth_or`]).
fn nth_or<N: Number>(v: &Vec<N>, i: usize, default: N) -> (r: N)
    ensures
        r == spec_nth_or(v@, i as int, default),
{
    if i < v.len() { v[i] } else { default }
}

/// What [`pmt_fn`] is stated to give, for a context `ctx` and arguments `args`.
pub open spec fn pmt_fn_gives<'r, N: Number, R: Resolver<N>>(ctx: EvalCtx<'r, R>, args: Seq<Expr<N>>, r: Value<N>) -> bool {
    &&& r is Number || r is Error
    &&& room(ctx) && all_lit_nums(args, 0, args.len() as int) ==> ({ let v = lit_nums(args, 0, args.len() as int); let z = N::spec_from_int(0);
        r == spec_pmt(v[0], v[1], v[2], spec_nth_or(v, 3, z), spec_nth_or(v, 4, z)) })
}

/// `PMT(rate, nper, pv, [fv], [type])` — the periodic payment of an annuity; a vanishing
/// denominator is `#DIV/0!`, a non-finite payment `#NUM!`.
pub fn pmt_fn<N: Number, R: Resolver<N>>(ctx: &mut EvalCtx<R>, args: &[Expr<N>]) -> (r: Value<N>)
    requires
        3 <= args.len() <= 5,
    ensures
        restored(*old(ctx), *final(ctx)),
        r is Number || r is Error,
        room(*old(ctx)) && all_lit_nums(args@, 0, args@.len() as int) ==> ({ let v = lit_nums(args@, 0, args@.len() as int); let z = N::spec_from_int(0);
            r == spec_pmt(v[0], v[1], v[2], spec_nth_or(v, 3, z), spec_nth_or(v, 4, z)) }),
    decreases args_size(args@), 7nat,
{
    let v = match scalars(ctx, args) {
        Ok(v) => v,
        Err(k) => {
            return Value::Error(k);
        },
    };
    let zero = N::from_int(0);
    let (rate, nper, pv) = (v[0], v[1], v[2]);
    let fv = nth_or(&v, 3, zero);
    let typ = nth_or(&v, 4, zero);
    pmt_of(rate, nper, pv, fv, typ)
}

/// What `PMT` gives for its numbers: `#DIV/0!` when the annuity denominator vanishes, else the
/// payment (see [`spec_annuity_pmt`], [`spec_finite_or_num`]).
pub open spec fn spec_pmt<N: Number>(rate: N, nper: N, pv: N, fv: N, typ: N) -> Value<N> {
    if spec_annuity_denom_is_zero(rate, nper, typ) {
        Value::Error(ErrKind::Div0)
    } else {
        spec_finite_or_num(spec_annuity_pmt(rate, nper, pv, fv, typ))
    }
}

/// What `PMT` gives for its numbers (see [`spec_pmt`]).
pub fn pmt_of<N: Number>(rate: N, nper: N, pv: N, fv: N, typ: N) -> (r: Value<N>)
    ensures
        r == spec_pmt(rate, nper, pv, fv, typ),
{
    if annuity_denom_is_zero(rate, nper, typ) {
        return Value::Error(ErrKind::Div0);
    }
    finite_or_num(annuity_pmt(rate, nper, pv, fv, typ))
}

/// What [`fv_fn`] is stated to give, for a context `ctx` and arguments `args`.
pub open spec fn fv_fn_gives<'r, N: Number, R: Resolver<N>>(ctx: EvalCtx<'r, R>, args: Seq<Expr<N>>, r: Value<N>) -> bool {
    &&& r is Number || r is Error
    &&& room(ctx) && all_lit_nums(args, 0, args.len() as int) ==> ({ let v = lit_nums(args, 0, args.len() as int); let z = N::spec_from_int(0);
        r == spec_finite_or_num(spec_fv_core(v[0], v[1], v[2], spec_nth_or(v, 3, z), spec_nth_or(v, 4, z))) })
}

/// `FV(rate, nper, pmt, [pv], [type])` — the future value of an annuity; a non-finite result is
/// `#NUM!`.
pub fn fv_fn<N: Number, R: Resolver<N>>(ctx: &mut EvalCtx<R>, args: &[Expr<N>]) -> (r: Value<N>)
    requires
        3 <= args.len() <= 5,
    ensures
        restored(*old(ctx), *final(ctx)),
        r is Number || r is Error,
        room(*old(ctx)) && all_lit_nums(args@, 0, args@.len() as int) ==> ({ let v = lit_nums(args@, 0, args@.len() as int); let z = N::spec_from_int(0);
            r == spec_finite_or_num(spec_fv_core(v[0], v[1], v[2], spec_nth_or(v, 3, z), spec_nth_or(v, 4, z))) }),
    decreases args_size(args@), 7nat,
{
    let v = match scalars(ctx, args) {
        Ok(v) => v,
        Err(k) => {
            return Value::Error(k);
        },
    };
    let zero = N::from_int(0);
    let pv = nth_or(&v, 3, zero);
    let typ = nth_or(&v, 4, zero);
    fv_of(v[0], v[1], v[2], pv, typ)
}

/// What `FV` gives for its numbers (see [`spec_fv_core`], [`spec_finite_or_num`]).
pub fn fv_of<N: Number>(rate: N, nper: N, pmt: N, pv: N, typ: N) -> (r: Value<N>)
    ensures
        r == spec_finite_or_num(spec_fv_core(rate, nper, pmt, pv, typ)),
{
    finite_or_num(fv_core(rate, nper, pmt, pv, typ))
}

/// What [`npv_fn`] is stated to give, for a context `ctx` and arguments `args`.
pub open spec fn npv_fn_gives<'r, N: Number, R: Resolver<N>>(ctx: EvalCtx<'r, R>, args: Seq<Expr<N>>, r: Value<N>) -> bool {
    &&& r is Number || r is Error
    &&& room(ctx) && all_lit_nums(args, 0, args.len() as int)
        ==> r == spec_npv(lit_num(args[0])->0, lit_nums(args, 1, args.len() as int))
}

/// `NPV(rate, value1, …)` — the net present value, the first value discounted one period
/// (`value1/(1+rate)^1`). Values gather under the direct-vs-in-range rule; an error propagates.
pub fn npv_fn<N: Number, R: Resolver<N>>(ctx: &mut EvalCtx<R>, args: &[Expr<N>]) -> (r: Value<N>)
    requires
        args.len() >= 2,
    ensures
        restored(*old(ctx), *final(ctx)),
        r is Number || r is Error,
        room(*old(ctx)) && all_lit_nums(args@, 0, args@.len() as int)
            ==> r == spec_npv(lit_num(args@[0])->0, lit_nums(args@, 1, args@.len() as int)),
    decreases args_size(args@), 7nat,
{
    proof {
        lemma_arg_size(args@, 0);
    }
    let rate = match one_num(ctx, &args[0]) {
        Ok(x) => x,
        Err(k) => {
            return Value::Error(k);
        },
    };
    let values = match collect_numbers_in(ctx, args, 1, args.len()) {
        Ok(v) => v,
        Err(k) => {
            return Value::Error(k);
        },
    };
    npv_of(rate, &values)
}

/// What `NPV` gives for a rate and its values: `Σ v_i/(1+rate)^(i+1)` (see [`discounted_sum`],
/// [`spec_finite_or_num`]).
pub open spec fn spec_npv<N: Number>(rate: N, values: Seq<N>) -> Value<N> {
    spec_finite_or_num(discounted_sum(N::spec_from_int(1).spec_plus(rate), values, values.len() as int, 1))
}

/// What `NPV` gives for a rate and its values (see [`spec_npv`]).
pub fn npv_of<N: Number>(rate: N, values: &Vec<N>) -> (r: Value<N>)
    ensures
        r == spec_npv(rate, values@),
{
    let base = N::from_int(1).plus(rate);
    let mut acc = N::from_int(0);
    let mut i: usize = 0;
    while i < values.len()
        invariant
            i <= values.len(),
            base == N::spec_from_int(1).spec_plus(rate),
            acc == discounted_sum(base, values@, i as int, 1),
        decreases values.len() - i,
    {
        let periods: u32 = if i < u32::MAX as usize { i as u32 + 1 } else { u32::MAX };
        acc = acc.plus(values[i].over(pow_int(base, periods)));
        i = i + 1;
    }
    finite_or_num(acc)
}

/// The power a flow at position `i` is discounted by: `i + shift`, capped at `u32::MAX` from
/// position `u32::MAX` on.
pub open spec fn period_count(i: int, shift: int) -> u32 {
    if i < u32::MAX { (i + shift) as u32 } else { u32::MAX }
}

/// `Σ_{i<k} cf_i / base^(i+shift)`, summed left to right from zero.
pub open spec fn discounted_sum<N: Number>(base: N, cf: Seq<N>, k: int, shift: int) -> N
    decreases k,
{
    if k <= 0 {
        N::spec_from_int(0)
    } else {
        discounted_sum(base, cf, k - 1, shift).spec_plus(cf[k - 1].spec_over(spec_pow_int(base, period_count(k - 1, shift))))
    }
}

/// The period-0-anchored present value `Σ cf_i/(1+rate)^i` (the first flow undiscounted).
pub open spec fn spec_irr_npv<N: Number>(rate: N, cf: Seq<N>) -> N {
    discounted_sum(N::spec_from_int(1).spec_plus(rate), cf, cf.len() as int, 0)
}

/// The period-0-anchored present value (see [`spec_irr_npv`]).
pub fn irr_npv<N: Number>(rate: N, cf: &Vec<N>) -> (r: N)
    ensures
        r == spec_irr_npv(rate, cf@),
{
    let base = N::from_int(1).plus(rate);
    let mut acc = N::from_int(0);
    let mut i: usize = 0;
    while i < cf.len()
        invariant
            i <= cf.len(),
            base == N::spec_from_int(1).spec_plus(rate),
            acc == discounted_sum(base, cf@, i as int, 0),
        decreases cf.len() - i,
    {
        let periods: u32 = if i < u32::MAX as usize { i as u32 } else { u32::MAX };
        acc = acc.plus(cf[i].over(pow_int(base, periods)));
        i = i + 1;
    }
    acc
}

/// `Σ_{1≤i<k} −i·cf_i / base^(i+1)`, summed left to right from zero (the weight `i` capped at the
/// largest `i64`).
pub open spec fn deriv_sum<N: Number>(base: N, cf: Seq<N>, k: int) -> N
    decreases k,
{
    if k <= 1 {
        N::spec_from_int(0)
    } else {
        deriv_sum(base, cf, k - 1).spec_plus(N::spec_from_int(clamp_count(k - 1)).spec_negate().spec_times(cf[k - 1])
            .spec_over(spec_pow_int(base, period_count(k - 1, 1))))
    }
}

/// The derivative of [`irr_npv`] in the rate: `Σ_{i≥1} −i·cf_i/(1+rate)^{i+1}`.
pub open spec fn spec_irr_npv_deriv<N: Number>(rate: N, cf: Seq<N>) -> N {
    deriv_sum(N::spec_from_int(1).spec_plus(rate), cf, cf.len() as int)
}

/// The derivative of [`irr_npv`] in the rate (see [`spec_irr_npv_deriv`]).
pub fn irr_npv_deriv<N: Number>(rate: N, cf: &Vec<N>) -> (r: N)
    ensures
        r == spec_irr_npv_deriv(rate, cf@),
{
    let base = N::from_int(1).plus(rate);
    let mut acc = N::from_int(0);
    if cf.len() == 0 {
        return acc;
    }
    let mut i: usize = 1;
    while i < cf.len()
        invariant
            1 <= i <= cf.len(),
            base == N::spec_from_int(1).spec_plus(rate),
            acc == deriv_sum(base, cf@, i as int),
        decreases cf.len() - i,
    {
        let weight: i64 = if (i as u64) < (i64::MAX as u64) { i as i64 } else { i64::MAX };
        let periods: u32 = if i < u32::MAX as usize { i as u32 + 1 } else { u32::MAX };
        acc = acc.plus(N::from_int(weight).negate().times(cf[i]).over(pow_int(base, periods)));
        i = i + 1;
    }
    acc
}

/// An equation in the rate whose root the rate solvers look for: the period-0-anchored present
/// value of periodic flows (`IRR`), of dated flows at their Actual/365 tenors (`XIRR`), or the
/// annuity balance (`RATE`).
pub enum RootProblem<N> {
    Periodic(Vec<N>),
    Dated(Vec<N>, Vec<N>),
    Annuity(N, N, N, N, N),
}

/// A root problem with its flows as sequences.
pub enum RootEquation<N> {
    Periodic(Seq<N>),
    Dated(Seq<N>, Seq<N>),
    Annuity(N, N, N, N, N),
}

impl<N> View for RootProblem<N> {
    type V = RootEquation<N>;

    open spec fn view(&self) -> RootEquation<N> {
        match self {
            RootProblem::Periodic(cf) => RootEquation::Periodic(cf@),
            RootProblem::Dated(cf, tenors) => RootEquation::Dated(cf@, tenors@),
            RootProblem::Annuity(nper, pmt, pv, fv, typ) => RootEquation::Annuity(*nper, *pmt, *pv, *fv, *typ),
        }
    }
}

/// The value of a root problem at a rate.
pub open spec fn spec_root_value<N: Number>(p: RootEquation<N>, rate: N) -> N {
    match p {
        RootEquation::Periodic(cf) => spec_irr_npv(rate, cf),
        RootEquation::Dated(cf, tenors) => spec_xnpv_at(rate, cf, tenors),
        RootEquation::Annuity(nper, pmt, pv, fv, typ) => spec_annuity_balance(rate, nper, pmt, pv, fv, typ),
    }
}

/// The value of a root problem at a rate (see [`spec_root_value`]).
pub fn root_value<N: Number>(p: &RootProblem<N>, rate: N) -> (r: N)
    ensures
        r == spec_root_value(p@, rate),
{
    match p {
        RootProblem::Periodic(cf) => irr_npv(rate, cf),
        RootProblem::Dated(cf, tenors) => xnpv_at(rate, cf, tenors),
        RootProblem::Annuity(nper, pmt, pv, fv, typ) => annuity_balance(rate, *nper, *pmt, *pv, *fv, *typ),
    }
}

/// The slope of a root problem at a rate: the analytic derivative for the present values, a
/// symmetric finite difference (step `h = 1e-6·max(|rate|, 1e-3)`) for the annuity balance.
pub open spec fn spec_root_slope<N: Number>(p: RootEquation<N>, rate: N) -> N {
    match p {
        RootEquation::Periodic(cf) => spec_irr_npv_deriv(rate, cf),
        RootEquation::Dated(cf, tenors) => spec_xnpv_deriv(rate, cf, tenors),
        RootEquation::Annuity(nper, pmt, pv, fv, typ) => {
            let floor = spec_ratio::<N>(1, 1000);
            let size = if floor.spec_order(rate.spec_magnitude()) == Some(Order::Less) { rate.spec_magnitude() } else { floor };
            let h = spec_ratio::<N>(1, 1_000_000).spec_times(size);
            spec_annuity_balance(rate.spec_plus(h), nper, pmt, pv, fv, typ)
                .spec_minus(spec_annuity_balance(rate.spec_minus(h), nper, pmt, pv, fv, typ))
                .spec_over(N::spec_from_int(2).spec_times(h))
        },
    }
}

/// The slope of a root problem at a rate (see [`spec_root_slope`]).
pub fn root_slope<N: Number>(p: &RootProblem<N>, rate: N) -> (r: N)
    ensures
        r == spec_root_slope(p@, rate),
{
    match p {
        RootProblem::Periodic(cf) => irr_npv_deriv(rate, cf),
        RootProblem::Dated(cf, tenors) => xnpv_deriv(rate, cf, tenors),
        RootProblem::Annuity(nper, pmt, pv, fv, typ) => {
            let floor: N = ratio(1, 1000);
            let size = if less_than(floor, rate.magnitude()) { rate.magnitude() } else { floor };
            let h = ratio::<N>(1, 1_000_000).times(size);
            let up = annuity_balance(rate.plus(h), *nper, *pmt, *pv, *fv, *typ);
            let down = annuity_balance(rate.minus(h), *nper, *pmt, *pv, *fv, *typ);
            up.minus(down).over(N::from_int(2).times(h))
        },
    }
}

/// The Newton iteration from `rate` with `left` steps to go (see [`newton_rate`]).
pub open spec fn newton_from<N: Number>(p: RootEquation<N>, rate: N, resid_tol: N, left: nat, floor: Option<N>) -> Option<N>
    decreases left,
{
    if left == 0 {
        None
    } else {
        let one = N::spec_from_int(1);
        let y = spec_root_value(p, rate);
        let dy = spec_root_slope(p, rate);
        if spec_is_zero(dy) || !y.spec_finite() || !dy.spec_finite() {
            None
        } else {
            let step = y.spec_over(dy);
            let next = rate.spec_minus(step);
            let below = match floor {
                Some(f) => at_most_spec(next, f),
                None => false,
            };
            if !next.spec_finite() || below {
                None
            } else {
                let scale = if next.spec_magnitude().spec_order(one) == Some(Order::Less) { one } else { next.spec_magnitude() };
                if at_most_spec(step.spec_magnitude(), spec_ratio::<N>(1, 1_000_000_000_000).spec_times(scale)) {
                    if at_most_spec(spec_root_value(p, next).spec_magnitude(), resid_tol) { Some(next) } else { None }
                } else {
                    newton_from(p, next, resid_tol, (left - 1) as nat, floor)
                }
            }
        }
    }
}

/// The capped Newton iteration for a root from `start`: `None` on a zero or non-finite slope, a
/// step that is non-finite or at or below `floor` (when there is one), or running out of
/// iterations. It converges when the step is within `1e-12` of the rate (relative, at least
/// absolute) and the problem's value there is within `resid_tol` of zero.
pub fn newton_rate<N: Number>(p: &RootProblem<N>, start: N, resid_tol: N, max_iter: u32, floor: Option<N>) -> (r: Option<N>)
    ensures
        r matches Some(x) ==> x.spec_finite()
            && at_most_spec(spec_root_value(p@, x).spec_magnitude(), resid_tol)
            && (floor matches Some(f) ==> !at_most_spec(x, f)),
        r == newton_from(p@, start, resid_tol, max_iter as nat, floor),
{
    let step_tol: N = ratio(1, 1_000_000_000_000);
    let one = N::from_int(1);
    let mut rate = start;
    let mut k: u32 = 0;
    while k < max_iter
        invariant
            k <= max_iter,
            step_tol == spec_ratio::<N>(1, 1_000_000_000_000),
            one == N::spec_from_int(1),
            newton_from(p@, rate, resid_tol, (max_iter - k) as nat, floor) == newton_from(p@, start, resid_tol, max_iter as nat, floor),
        decreases max_iter - k,
    {
        let y = root_value(p, rate);
        let dy = root_slope(p, rate);
        if is_zero(dy) || !y.finite() || !dy.finite() {
            return None;
        }
        let step = y.over(dy);
        let next = rate.minus(step);
        let below = match floor {
            Some(f) => at_most(next, f),
            None => false,
        };
        if !next.finite() || below {
            return None;
        }
        let scale = if less_than(next.magnitude(), one) { one } else { next.magnitude() };
        if at_most(step.magnitude(), step_tol.times(scale)) {
            if at_most(root_value(p, next).magnitude(), resid_tol) {
                return Some(next);
            }
            return None;
        }
        rate = next;
        k = k + 1;
    }
    None
}

/// Rate `k` of the bracket search grid: `−0.999 + 0.005·k` (the start itself for `k = 0`).
pub open spec fn grid_point<N: Number>(k: int) -> N {
    if k == 0 {
        spec_ratio::<N>(-999i64, 1000i64)
    } else {
        spec_ratio::<N>(-999i64, 1000i64).spec_plus(spec_ratio::<N>(5, 1000).spec_times(N::spec_from_int(k as i64)))
    }
}

/// Whether a root problem's value changes sign, both values finite, between grid rates `k − 1` and
/// `k`.
pub open spec fn sign_change<N: Number>(p: RootEquation<N>, k: int) -> bool {
    let fr = spec_root_value(p, grid_point::<N>(k));
    let fp = spec_root_value(p, grid_point::<N>(k - 1));
    fr.spec_finite() && fp.spec_finite() && fr.spec_times(fp).spec_order(N::spec_from_int(0)) == Some(Order::Less)
}

/// The bisection of the bracket `[a, b]` (with `fa` the problem's value at `a`) with `left` halvings
/// to go: the midpoint once the problem is zero there, the bracket is within `1e-12`, or no
/// halving is left; else the half whose ends still differ in sign (by `fa` times the value at the
/// midpoint being negative).
pub open spec fn bisect_from<N: Number>(p: RootEquation<N>, a: N, b: N, fa: N, left: nat) -> N
    decreases left,
{
    let m = spec_ratio::<N>(1, 2).spec_times(a.spec_plus(b));
    if left == 0 {
        m
    } else {
        let fm = spec_root_value(p, m);
        if spec_is_zero(fm) || at_most_spec(b.spec_minus(a).spec_magnitude(), spec_ratio::<N>(1, 1_000_000_000_000)) {
            m
        } else if fa.spec_times(fm).spec_order(N::spec_from_int(0)) == Some(Order::Less) {
            bisect_from(p, a, m, fa, (left - 1) as nat)
        } else {
            bisect_from(p, m, b, fm, (left - 1) as nat)
        }
    }
}

/// Whether grid step `k` holds the first sign change of the problem's value.
pub open spec fn first_sign_change<N: Number>(p: RootEquation<N>, k: int) -> bool {
    &&& 1 <= k <= IRR_GRID
    &&& sign_change(p, k)
    &&& forall|j: int| 1 <= j < k ==> !#[trigger] sign_change(p, j)
}

/// The root the bisection fallback reaches: the bisection of the first grid bracket with a sign
/// change, or `None` when the grid shows none.
pub open spec fn bisect_result<N: Number>(p: RootEquation<N>) -> Option<N> {
    if exists|k: int| #[trigger] first_sign_change(p, k) {
        let k = choose|k: int| #[trigger] first_sign_change(p, k);
        Some(bisect_from(p, grid_point::<N>(k - 1), grid_point::<N>(k), spec_root_value(p, grid_point::<N>(k - 1)), IRR_BISECT_MAX as nat))
    } else {
        None
    }
}

/// The first sign change on the grid is unique.
proof fn lemma_first_sign_change_unique<N: Number>(p: RootEquation<N>, k: int, k2: int)
    requires
        first_sign_change(p, k),
        first_sign_change(p, k2),
    ensures
        k == k2,
{
    if k < k2 {
        assert(!sign_change(p, k));
    } else if k2 < k {
        assert(!sign_change(p, k2));
    }
}

/// The capped bisection fallback: scan rates from −0.999 in steps of 0.005 for a sign change of the
/// problem's value, then halve the first such bracket (at most 200 times) down to `1e-12`. `None`
/// when the grid shows no sign change.
pub fn bisect_rate<N: Number>(p: &RootProblem<N>) -> (r: Option<N>)
    ensures
        r is None <==> forall|k: int| 1 <= k <= IRR_GRID ==> !#[trigger] sign_change(p@, k),
        r matches Some(x) ==> exists|k: int| #[trigger] first_sign_change(p@, k)
            && x == bisect_from(p@, grid_point::<N>(k - 1), grid_point::<N>(k), spec_root_value(p@, grid_point::<N>(k - 1)), IRR_BISECT_MAX as nat),
        r == bisect_result(p@),
{
    let lo: N = ratio(-999, 1000);
    let step: N = ratio(5, 1000);
    let tol: N = ratio(1, 1_000_000_000_000);
    let half: N = ratio(1, 2);
    let zero = N::from_int(0);
    let mut prev_r = lo;
    let mut prev_f = root_value(p, prev_r);
    let mut bracket: Option<(N, N)> = None;
    let mut k: u32 = 1;
    while k <= IRR_GRID
        invariant_except_break
            1 <= k <= IRR_GRID + 1,
            bracket is None,
            prev_r == grid_point::<N>(k - 1),
            prev_f == spec_root_value(p@, prev_r),
            lo == spec_ratio::<N>(-999i64, 1000i64),
            step == spec_ratio::<N>(5, 1000),
            zero == N::spec_from_int(0),
            forall|j: int| 1 <= j < k ==> !#[trigger] sign_change(p@, j),
        ensures
            bracket is None ==> forall|j: int| 1 <= j <= IRR_GRID ==> !#[trigger] sign_change(p@, j),
            bracket matches Some(ab) ==> exists|j: int| #[trigger] first_sign_change(p@, j)
                && ab.0 == grid_point::<N>(j - 1) && ab.1 == grid_point::<N>(j),
        decreases IRR_GRID + 1 - k,
    {
        let r = lo.plus(step.times(N::from_int(k as i64)));
        let fr = root_value(p, r);
        if fr.finite() && prev_f.finite() && less_than(fr.times(prev_f), zero) {
            bracket = Some((prev_r, r));
            assert(first_sign_change(p@, k as int));
            break;
        }
        prev_r = r;
        prev_f = fr;
        k = k + 1;
    }
    let (mut a, mut b) = match bracket {
        Some(p) => p,
        None => {
            proof {
                if exists|k: int| #[trigger] first_sign_change(p@, k) {
                    let k = choose|k: int| #[trigger] first_sign_change(p@, k);
                    assert(sign_change(p@, k));
                }
            }
            return None;
        },
    };
    let ghost kf = choose|j: int| #[trigger] first_sign_change(p@, j) && a == grid_point::<N>(j - 1) && b == grid_point::<N>(j);
    let ghost target = bisect_from(p@, a, b, spec_root_value(p@, a), IRR_BISECT_MAX as nat);
    proof {
        let k2 = choose|k: int| #[trigger] first_sign_change(p@, k);
        lemma_first_sign_change_unique(p@, kf, k2);
    }
    let mut fa = root_value(p, a);
    let mut j: u32 = 0;
    while j < IRR_BISECT_MAX
        invariant
            j <= IRR_BISECT_MAX,
            first_sign_change(p@, kf),
            half == spec_ratio::<N>(1, 2),
            tol == spec_ratio::<N>(1, 1_000_000_000_000),
            zero == N::spec_from_int(0),
            fa == spec_root_value(p@, a),
            bisect_from(p@, a, b, fa, (IRR_BISECT_MAX - j) as nat) == target,
            target == bisect_from(p@, grid_point::<N>(kf - 1), grid_point::<N>(kf),
                spec_root_value(p@, grid_point::<N>(kf - 1)), IRR_BISECT_MAX as nat),
        decreases IRR_BISECT_MAX - j,
    {
        let m = half.times(a.plus(b));
        let fm = root_value(p, m);
        if is_zero(fm) || at_most(b.minus(a).magnitude(), tol) {
            proof {
                assert(m == bisect_from(p@, a, b, fa, (IRR_BISECT_MAX - j) as nat));
            }
            return Some(m);
        }
        if less_than(fa.times(fm), zero) {
            b = m;
        } else {
            a = m;
            fa = fm;
        }
        j = j + 1;
    }
    Some(half.times(a.plus(b)))
}

/// The start IRR's Newton iteration takes from a guess: the guess when it is a finite rate above
/// −1, else 0.1.
pub open spec fn irr_start<N: Number>(guess: N) -> N {
    if N::spec_from_int(-1i64).spec_order(guess) == Some(Order::Less) && guess.spec_finite() {
        guess
    } else {
        spec_ratio::<N>(1, 10)
    }
}

/// What IRR gives for flows `cf` from a Newton start: the rate Newton reaches (above −1, residual
/// within `1e-6`, at most 50 steps), else the rate the bisection fallback reaches, each as a
/// finite number (else `#NUM!`); `#NUM!` when neither finds one.
pub open spec fn irr_value<N: Number>(cf: Seq<N>, start: N) -> Value<N> {
    match newton_from(RootEquation::Periodic(cf), start, spec_ratio::<N>(1, 1_000_000), IRR_NEWTON_MAX as nat, Some(N::spec_from_int(-1i64))) {
        Some(x) => spec_finite_or_num(x),
        None => match bisect_result(RootEquation::Periodic(cf)) {
            Some(x) => spec_finite_or_num(x),
            None => Value::Error(ErrKind::Num),
        },
    }
}

/// What `IRR` gives over its evaluated arguments: the numbers of `args[0]` (its first error
/// propagates); fewer than two is `#NUM!`; then the guess `args[1]` (0.1 when omitted; its error
/// propagates) and [`irr_value`].
pub open spec fn irr_read<'r, N: Number, R: Resolver<N>>(ctx: EvalCtx<'r, R>, args: Seq<Expr<N>>, r: Value<N>) -> bool {
    exists|cfr: Result<Seq<N>, ErrKind>| #[trigger] collected(ctx, args, 0, 1, cfr) && match cfr {
        Err(k) => r == Value::<N>::Error(k),
        Ok(cf) => if cf.len() < 2 {
            r == Value::<N>::Error(ErrKind::Num)
        } else if args.len() == 2 {
            exists|g: Result<N, ErrKind>| #[trigger] num_read(ctx, args[1], g) && match g {
                Err(k) => r == Value::<N>::Error(k),
                Ok(x) => r == irr_value(cf, irr_start(x)),
            }
        } else {
            r == irr_value(cf, spec_ratio::<N>(1, 10))
        },
    }
}

/// What [`irr_fn`] is stated to give, for a context `ctx` and arguments `args`.
pub open spec fn irr_fn_gives<'r, N: Number, R: Resolver<N>>(ctx: EvalCtx<'r, R>, args: Seq<Expr<N>>, r: Value<N>) -> bool {
    &&& r is Number || r is Error
    &&& room(ctx) ==> (lit_num(args[0]) is Some ==> r == Value::<N>::Error(ErrKind::Num))
}

/// What [`irr_fn`] is stated to give for the values its arguments evaluate to in `ctx`.
pub open spec fn irr_fn_reads<'r, N: Number, R: Resolver<N>>(ctx: EvalCtx<'r, R>, args: Seq<Expr<N>>, r: Value<N>) -> bool {
    &&& irr_read(ctx, args, r)
}

/// `IRR(values, [guess])` — the rate that makes the period-0-anchored present value zero: Newton
/// from `guess` (0.1 by default, also when the guess is not a finite rate above −1), then the
/// bisection fallback. Fewer than two flows, or no root found, is `#NUM!`.
pub fn irr_fn<N: Number, R: Resolver<N>>(ctx: &mut EvalCtx<R>, args: &[Expr<N>]) -> (r: Value<N>)
    requires
        1 <= args.len() <= 2,
    ensures
        restored(*old(ctx), *final(ctx)),
        r is Number || r is Error,
        room(*old(ctx)) ==> (lit_num(args[0]) is Some ==> r == Value::<N>::Error(ErrKind::Num)),
        irr_read(*old(ctx), args@, r),
    decreases args_size(args@), 7nat,
{
    proof {
        lemma_arg_size(args@, 0);
        if args.len() == 2 {
            lemma_arg_size(args@, 1);
        }
    }
    let rc = collect_numbers_in(ctx, args, 0, 1);
    proof {
        assert(collected(*old(ctx), args@, 0, 1, nums_result(rc)));
    }
    let cf = match rc {
        Ok(v) => v,
        Err(k) => {
            return Value::Error(k);
        },
    };
    if cf.len() < 2 {
        return Value::Error(ErrKind::Num);
    }
    let default_guess: N = ratio(1, 10);
    proof {
        lemma_restored_same(*old(ctx), *ctx);
    }
    let guess = if args.len() == 2 {
        let rg = one_num(ctx, &args[1]);
        proof {
            assert(num_read(*old(ctx), args@[1], rg));
        }
        match rg {
            Ok(x) => x,
            Err(k) => {
                return Value::Error(k);
            },
        }
    } else {
        default_guess
    };
    let start = if less_than(N::from_int(-1), guess) && guess.finite() { guess } else { default_guess };
    let problem = RootProblem::Periodic(cf);
    proof {
        assert(problem@ == RootEquation::Periodic(cf@));
    }
    if let Some(r) = newton_rate(&problem, start, ratio(1, 1_000_000), IRR_NEWTON_MAX, Some(N::from_int(-1))) {
        return finite_or_num(r);
    }
    match bisect_rate(&problem) {
        Some(r) => finite_or_num(r),
        None => Value::Error(ErrKind::Num),
    }
}

/// The annuity balance at a rate: `pv·t + pmt·(1 + rate·type)·(t − 1)/rate + fv` with `t` the
/// [`growth`] (the linear `pv + pmt·nper + fv` at a zero rate). Its root is the rate.
pub open spec fn spec_annuity_balance<N: Number>(rate: N, nper: N, pmt: N, pv: N, fv: N, typ: N) -> N {
    let one = N::spec_from_int(1);
    if spec_is_zero(rate) {
        pv.spec_plus(pmt.spec_times(nper)).spec_plus(fv)
    } else {
        let t = growth(rate, nper);
        pv.spec_times(t).spec_plus(pmt.spec_times(one.spec_plus(rate.spec_times(typ))).spec_times(t.spec_minus(one))
            .spec_over(rate)).spec_plus(fv)
    }
}

/// `FV` is the negated part of the annuity balance (the equation `RATE` solves) that does not
/// depend on the future value: for every future value `fv`, the balance at `rate` is that part plus
/// `fv`, and `FV` gives minus that part. So at a nonzero rate the present value enters grown by
/// `(1+rate)^nper` together with the accumulated payments, as the balance has it.
pub proof fn law_fv_negates_balance<N: Number>(rate: N, nper: N, pmt: N, pv: N, typ: N)
    ensures
        exists|part: N| spec_fv_core(rate, nper, pmt, pv, typ) == part.spec_negate()
            && forall|fv: N| #[trigger] spec_annuity_balance(rate, nper, pmt, pv, fv, typ) == part.spec_plus(fv),
{
    let one = N::spec_from_int(1);
    let part = if spec_is_zero(rate) {
        pv.spec_plus(pmt.spec_times(nper))
    } else {
        let t = growth(rate, nper);
        pv.spec_times(t).spec_plus(pmt.spec_times(one.spec_plus(rate.spec_times(typ))).spec_times(t.spec_minus(one)).spec_over(rate))
    };
    assert(spec_fv_core(rate, nper, pmt, pv, typ) == part.spec_negate());
    assert forall|fv: N| #[trigger] spec_annuity_balance(rate, nper, pmt, pv, fv, typ) == part.spec_plus(fv) by {}
}

/// `PMT` solves the annuity balance (the equation `RATE` solves) for the payment: at a nonzero
/// rate the balance is `A + pmt·K·T/rate + fv` for every payment and future value, with `A` the
/// grown present value, `K = 1 + rate·type` and `T = (1+rate)^nper − 1`, and `PMT` is
/// `−(fv + A)·rate/(K·T)`; at a zero rate the balance is `pv + pmt·nper + fv` and `PMT` is
/// `−(pv + fv)/nper`. `PMT` is `#DIV/0!` exactly when `K·T` (or `nper` at a zero rate) is zero.
pub proof fn law_pmt_solves_balance<N: Number>(rate: N, nper: N, pv: N, fv: N, typ: N)
    ensures
        !spec_is_zero(rate) ==> exists|a: N, k: N, t: N|
            (forall|pmt: N, f: N| #[trigger] spec_annuity_balance(rate, nper, pmt, pv, f, typ)
                == a.spec_plus(pmt.spec_times(k).spec_times(t).spec_over(rate)).spec_plus(f))
            && spec_annuity_pmt(rate, nper, pv, fv, typ) == fv.spec_plus(a).spec_negate().spec_times(rate).spec_over(k.spec_times(t))
            && (spec_annuity_denom_is_zero(rate, nper, typ) <==> spec_is_zero(k.spec_times(t))),
        spec_is_zero(rate) ==> (forall|pmt: N, f: N| #[trigger] spec_annuity_balance(rate, nper, pmt, pv, f, typ)
                == pv.spec_plus(pmt.spec_times(nper)).spec_plus(f))
            && spec_annuity_pmt(rate, nper, pv, fv, typ) == pv.spec_plus(fv).spec_negate().spec_over(nper)
            && (spec_annuity_denom_is_zero(rate, nper, typ) <==> spec_is_zero(nper)),
        spec_pmt(rate, nper, pv, fv, typ) == if spec_annuity_denom_is_zero(rate, nper, typ) {
            Value::<N>::Error(ErrKind::Div0)
        } else {
            spec_finite_or_num(spec_annuity_pmt(rate, nper, pv, fv, typ))
        },
{
    if !spec_is_zero(rate) {
        let one = N::spec_from_int(1);
        let g = growth(rate, nper);
        let a = pv.spec_times(g);
        let k = one.spec_plus(rate.spec_times(typ));
        let t = g.spec_minus(one);
        assert forall|pmt: N, f: N| #[trigger] spec_annuity_balance(rate, nper, pmt, pv, f, typ)
            == a.spec_plus(pmt.spec_times(k).spec_times(t).spec_over(rate)).spec_plus(f) by {}
        assert(spec_annuity_pmt(rate, nper, pv, fv, typ) == fv.spec_plus(a).spec_negate().spec_times(rate).spec_over(k.spec_times(t)));
    }
}

/// `IPMT` is the interest on the balance `FV` reaches after `per − 1` payments of `PMT`: that
/// future value times the rate (for payments at the end); for payments at the start, the first
/// payment holds no interest and later ones are that amount brought back one period.
pub proof fn law_ipmt_is_interest_on_fv<N: Number>(rate: N, per: N, nper: N, pv: N, fv: N, typ: N)
    ensures
        ({
            let one = N::spec_from_int(1);
            let interest = spec_fv_core(rate, per.spec_minus(one), spec_annuity_pmt(rate, nper, pv, fv, typ), pv, typ).spec_times(rate);
            spec_ipmt_core(rate, per, nper, pv, fv, typ) == if spec_is_zero(typ) {
                interest
            } else if per.spec_order(one) == Some(Order::Equal) {
                N::spec_from_int(0)
            } else {
                interest.spec_over(one.spec_plus(rate))
            }
        }),
{
}

/// `IPMT` and `PPMT` split `PMT`: for a period within `1…nper` and a payment that is defined, `IPMT`
/// is an interest part `i` and `PPMT` is the payment less `i`; outside that range both are `#NUM!`,
/// and both are `#DIV/0!` when the payment is.
pub proof fn law_ipmt_ppmt_split_pmt<N: Number>(rate: N, per: N, nper: N, pv: N, fv: N, typ: N)
    ensures
        (per.spec_order(N::spec_from_int(1)) == Some(Order::Less) || nper.spec_order(per) == Some(Order::Less))
            ==> spec_payment_part(rate, per, nper, pv, fv, typ, true) == Value::<N>::Error(ErrKind::Num)
                && spec_payment_part(rate, per, nper, pv, fv, typ, false) == Value::<N>::Error(ErrKind::Num),
        !(per.spec_order(N::spec_from_int(1)) == Some(Order::Less) || nper.spec_order(per) == Some(Order::Less))
            ==> (spec_pmt(rate, nper, pv, fv, typ) == Value::<N>::Error(ErrKind::Div0)
                    ==> spec_payment_part(rate, per, nper, pv, fv, typ, true) == Value::<N>::Error(ErrKind::Div0)
                        && spec_payment_part(rate, per, nper, pv, fv, typ, false) == Value::<N>::Error(ErrKind::Div0))
                && (!spec_annuity_denom_is_zero(rate, nper, typ) ==> exists|i: N|
                    spec_payment_part(rate, per, nper, pv, fv, typ, true) == spec_finite_or_num(i)
                    && spec_payment_part(rate, per, nper, pv, fv, typ, false) == spec_finite_or_num(spec_annuity_pmt(rate, nper, pv, fv, typ).spec_minus(i))),
{
    let i = spec_ipmt_core(rate, per, nper, pv, fv, typ);
    assert(spec_payment_part(rate, per, nper, pv, fv, typ, true) == spec_payment_part(rate, per, nper, pv, fv, typ, true));
    if !(per.spec_order(N::spec_from_int(1)) == Some(Order::Less) || nper.spec_order(per) == Some(Order::Less)) && !spec_annuity_denom_is_zero(rate, nper, typ) {
        assert(spec_payment_part(rate, per, nper, pv, fv, typ, true) == spec_finite_or_num(i));
    }
}

/// `NPV` discounts the `i`-th value (from 0) by `(1+rate)^(i+1)` — one period more than the
/// present value `IRR` zeroes, which leaves the first flow undiscounted; appending a value adds it
/// discounted by its position.
pub proof fn law_npv_discounts_by_position<N: Number>(rate: N, values: Seq<N>, x: N)
    requires
        values.len() < u32::MAX,
    ensures
        spec_npv(rate, values) == spec_finite_or_num(discounted_sum(N::spec_from_int(1).spec_plus(rate), values, values.len() as int, 1)),
        spec_irr_npv(rate, values) == discounted_sum(N::spec_from_int(1).spec_plus(rate), values, values.len() as int, 0),
        discounted_sum(N::spec_from_int(1).spec_plus(rate), values.push(x), values.len() + 1int, 1)
            == discounted_sum(N::spec_from_int(1).spec_plus(rate), values, values.len() as int, 1)
                .spec_plus(x.spec_over(spec_pow_int(N::spec_from_int(1).spec_plus(rate), (values.len() + 1) as u32))),
{
    let b = N::spec_from_int(1).spec_plus(rate);
    lemma_discounted_prefix(b, values, values.push(x), values.len() as int, 1);
}

/// A discounted sum over a prefix ignores what follows it.
proof fn lemma_discounted_prefix<N: Number>(b: N, a: Seq<N>, c: Seq<N>, k: int, shift: int)
    requires
        0 <= k <= a.len(),
        k <= c.len(),
        forall|j: int| 0 <= j < k ==> a[j] == c[j],
    ensures
        discounted_sum(b, a, k, shift) == discounted_sum(b, c, k, shift),
    decreases k,
{
    if k > 0 {
        lemma_discounted_prefix(b, a, c, k - 1, shift);
    }
}

/// The annuity balance at a rate (see [`spec_annuity_balance`]).
pub fn annuity_balance<N: Number>(rate: N, nper: N, pmt: N, pv: N, fv: N, typ: N) -> (r: N)
    ensures
        r == spec_annuity_balance(rate, nper, pmt, pv, fv, typ),
{
    let one = N::from_int(1);
    if is_zero(rate) {
        return pv.plus(pmt.times(nper)).plus(fv);
    }
    let t = pow_int(one.plus(rate), int_periods(nper));
    pv.times(t).plus(pmt.times(one.plus(rate.times(typ))).times(t.minus(one)).over(rate)).plus(fv)
}

/// The interest part of payment `per`: the balance after `per − 1` payments times the rate, brought
/// back one period for payments at the start (where the first payment holds no interest).
pub open spec fn spec_ipmt_core<N: Number>(rate: N, per: N, nper: N, pv: N, fv: N, typ: N) -> N {
    let one = N::spec_from_int(1);
    let pmt = spec_annuity_pmt(rate, nper, pv, fv, typ);
    let ip = spec_fv_core(rate, per.spec_minus(one), pmt, pv, typ).spec_times(rate);
    if spec_is_zero(typ) {
        ip
    } else if per.spec_order(one) == Some(Order::Equal) {
        N::spec_from_int(0)
    } else {
        ip.spec_over(one.spec_plus(rate))
    }
}

/// The interest part of payment `per` (see [`spec_ipmt_core`]).
pub fn ipmt_core<N: Number>(rate: N, per: N, nper: N, pv: N, fv: N, typ: N) -> (r: N)
    ensures
        r == spec_ipmt_core(rate, per, nper, pv, fv, typ),
{
    let one = N::from_int(1);
    let pmt = annuity_pmt(rate, nper, pv, fv, typ);
    let mut ip = fv_core(rate, per.minus(one), pmt, pv, typ).times(rate);
    if !is_zero(typ) {
        ip = ip.over(one.plus(rate));
        if per.order(one) == Some(Order::Equal) {
            ip = N::from_int(0);
        }
    }
    ip
}

/// What [`nper_fn`] is stated to give, for a context `ctx` and arguments `args`.
pub open spec fn nper_fn_gives<'r, N: Number, R: Resolver<N>>(ctx: EvalCtx<'r, R>, args: Seq<Expr<N>>, r: Value<N>) -> bool {
    &&& r is Number || r is Error
    &&& room(ctx) && all_lit_nums(args, 0, args.len() as int) ==> ({ let v = lit_nums(args, 0, args.len() as int); let z = N::spec_from_int(0);
        r == spec_nper(v[0], v[1], v[2], spec_nth_or(v, 3, z), spec_nth_or(v, 4, z)) })
}

/// `NPER(rate, pmt, pv, [fv], [type])` — the number of periods: `−(pv+fv)/pmt` at a zero rate (a
/// zero payment there is `#DIV/0!`), else `ln((w − fv)/(w + pv)) / ln(1 + rate)` with
/// `w = pmt·(1 + rate·type)/rate`; a ratio that is not positive is `#NUM!`.
pub fn nper_fn<N: Number, R: Resolver<N>>(ctx: &mut EvalCtx<R>, args: &[Expr<N>]) -> (r: Value<N>)
    requires
        3 <= args.len() <= 5,
    ensures
        restored(*old(ctx), *final(ctx)),
        r is Number || r is Error,
        room(*old(ctx)) && all_lit_nums(args@, 0, args@.len() as int) ==> ({ let v = lit_nums(args@, 0, args@.len() as int); let z = N::spec_from_int(0);
            r == spec_nper(v[0], v[1], v[2], spec_nth_or(v, 3, z), spec_nth_or(v, 4, z)) }),
    decreases args_size(args@), 7nat,
{
    let v = match scalars(ctx, args) {
        Ok(v) => v,
        Err(k) => {
            return Value::Error(k);
        },
    };
    let zero = N::from_int(0);
    let (rate, pmt, pv) = (v[0], v[1], v[2]);
    let fv = nth_or(&v, 3, zero);
    let typ = nth_or(&v, 4, zero);
    nper_of(rate, pmt, pv, fv, typ)
}

/// What `NPER` gives for its numbers: at a zero rate `#DIV/0!` for a zero payment, else
/// `−(pv+fv)/pmt`; otherwise with `w = pmt·(1 + rate·type)/rate` and `q = (w − fv)/(w + pv)`,
/// `#NUM!` unless `q` orders above zero, else `ln q / ln(1 + rate)`.
pub open spec fn spec_nper<N: Number>(rate: N, pmt: N, pv: N, fv: N, typ: N) -> Value<N> {
    let zero = N::spec_from_int(0);
    let one = N::spec_from_int(1);
    if spec_is_zero(rate) {
        if spec_is_zero(pmt) {
            Value::Error(ErrKind::Div0)
        } else {
            spec_finite_or_num(pv.spec_plus(fv).spec_negate().spec_over(pmt))
        }
    } else {
        let w = pmt.spec_times(one.spec_plus(rate.spec_times(typ))).spec_over(rate);
        let q = w.spec_minus(fv).spec_over(w.spec_plus(pv));
        if zero.spec_order(q) != Some(Order::Less) {
            Value::Error(ErrKind::Num)
        } else {
            spec_finite_or_num(q.spec_ln().spec_over(one.spec_plus(rate).spec_ln()))
        }
    }
}

/// What `NPER` gives for its numbers (see [`spec_nper`]).
pub fn nper_of<N: Number>(rate: N, pmt: N, pv: N, fv: N, typ: N) -> (r: Value<N>)
    ensures
        r == spec_nper(rate, pmt, pv, fv, typ),
{
    let zero = N::from_int(0);
    let one = N::from_int(1);
    if is_zero(rate) {
        if is_zero(pmt) {
            return Value::Error(ErrKind::Div0);
        }
        return finite_or_num(pv.plus(fv).negate().over(pmt));
    }
    let w = pmt.times(one.plus(rate.times(typ))).over(rate);
    let q = w.minus(fv).over(w.plus(pv));
    if !less_than(zero, q) {
        return Value::Error(ErrKind::Num);
    }
    finite_or_num(q.ln().over(one.plus(rate).ln()))
}

/// What [`rate_fn`] is stated to give, for a context `ctx` and arguments `args`.
pub open spec fn rate_fn_gives<'r, N: Number, R: Resolver<N>>(ctx: EvalCtx<'r, R>, args: Seq<Expr<N>>, r: Value<N>) -> bool {
    &&& r is Number || r is Error
    &&& room(ctx) && all_lit_nums(args, 0, args.len() as int) ==> ({
        let v = lit_nums(args, 0, args.len() as int);
        let z = N::spec_from_int(0);
        let one = N::spec_from_int(1);
        let (nper, pmt, pv) = (v[0], v[1], v[2]);
        let fv = spec_nth_or(v, 3, z);
        let typ = spec_nth_or(v, 4, z);
        let guess = spec_nth_or(v, 5, spec_ratio::<N>(1, 10));
        let start = if guess.spec_finite() { guess } else { spec_ratio::<N>(1, 10) };
        let total = pv.spec_magnitude().spec_plus(pmt.spec_times(nper).spec_magnitude()).spec_plus(fv.spec_magnitude());
        let scale = if total.spec_order(one) == Some(Order::Less) || total.spec_order(total) is None { one } else { total };
        r == match newton_from(RootEquation::Annuity(nper, pmt, pv, fv, typ), start,
            spec_ratio::<N>(1, 1_000_000).spec_times(scale), 100, None) {
            Some(x) => spec_finite_or_num(x),
            None => Value::Error(ErrKind::Num),
        }
    })
}

/// `RATE(nper, pmt, pv, [fv], [type], [guess])` — the rate that zeroes the annuity balance: Newton
/// from `guess` (0.1 by default, also for a non-finite guess) with a residual tolerance of `1e-6`
/// scaled by `max(|pv| + |pmt·nper| + |fv|, 1)`, at most 100 steps; no convergence is `#NUM!`.
pub fn rate_fn<N: Number, R: Resolver<N>>(ctx: &mut EvalCtx<R>, args: &[Expr<N>]) -> (r: Value<N>)
    requires
        3 <= args.len() <= 6,
    ensures
        restored(*old(ctx), *final(ctx)),
        r is Number || r is Error,
        room(*old(ctx)) && all_lit_nums(args@, 0, args@.len() as int) ==> ({
            let v = lit_nums(args@, 0, args@.len() as int);
            let z = N::spec_from_int(0);
            let one = N::spec_from_int(1);
            let (nper, pmt, pv) = (v[0], v[1], v[2]);
            let fv = spec_nth_or(v, 3, z);
            let typ = spec_nth_or(v, 4, z);
            let guess = spec_nth_or(v, 5, spec_ratio::<N>(1, 10));
            let start = if guess.spec_finite() { guess } else { spec_ratio::<N>(1, 10) };
            let total = pv.spec_magnitude().spec_plus(pmt.spec_times(nper).spec_magnitude()).spec_plus(fv.spec_magnitude());
            let scale = if total.spec_order(one) == Some(Order::Less) || total.spec_order(total) is None { one } else { total };
            r == match newton_from(RootEquation::Annuity(nper, pmt, pv, fv, typ), start,
                spec_ratio::<N>(1, 1_000_000).spec_times(scale), 100, None) {
                Some(x) => spec_finite_or_num(x),
                None => Value::Error(ErrKind::Num),
            }
        }),
    decreases args_size(args@), 7nat,
{
    let v = match scalars(ctx, args) {
        Ok(v) => v,
        Err(k) => {
            return Value::Error(k);
        },
    };
    let zero = N::from_int(0);
    let one = N::from_int(1);
    let default_guess: N = ratio(1, 10);
    let (nper, pmt, pv) = (v[0], v[1], v[2]);
    let fv = nth_or(&v, 3, zero);
    let typ = nth_or(&v, 4, zero);
    let guess = nth_or(&v, 5, default_guess);
    let start = if guess.finite() { guess } else { default_guess };
    let total = pv.magnitude().plus(pmt.times(nper).magnitude()).plus(fv.magnitude());
    let scale = if less_than(total, one) || total.order(total).is_none() { one } else { total };
    let problem = RootProblem::Annuity(nper, pmt, pv, fv, typ);
    match newton_rate(&problem, start, ratio::<N>(1, 1_000_000).times(scale), 100, None) {
        Some(r) => finite_or_num(r),
        None => Value::Error(ErrKind::Num),
    }
}

/// Shared body of `IPMT`/`PPMT`: `per` outside `1..=nper` is `#NUM!` and a vanishing annuity
/// denominator `#DIV/0!`; otherwise the interest part, or the payment less it.
fn payment_part<N: Number, R: Resolver<N>>(ctx: &mut EvalCtx<R>, args: &[Expr<N>], interest: bool) -> (r: Value<N>)
    requires
        4 <= args.len() <= 6,
    ensures
        restored(*old(ctx), *final(ctx)),
        r is Number || r is Error,
        room(*old(ctx)) && all_lit_nums(args@, 0, args@.len() as int) ==> ({ let v = lit_nums(args@, 0, args@.len() as int); let z = N::spec_from_int(0);
            r == spec_payment_part(v[0], v[1], v[2], v[3], spec_nth_or(v, 4, z), spec_nth_or(v, 5, z), interest) }),
    decreases args_size(args@), 6nat,
{
    let v = match scalars(ctx, args) {
        Ok(v) => v,
        Err(k) => {
            return Value::Error(k);
        },
    };
    let zero = N::from_int(0);
    let (rate, per, nper, pv) = (v[0], v[1], v[2], v[3]);
    let fv = nth_or(&v, 4, zero);
    let typ = nth_or(&v, 5, zero);
    payment_part_of(rate, per, nper, pv, fv, typ, interest)
}

/// What `IPMT` (with `interest`) or `PPMT` gives for its numbers: `#NUM!` unless
/// `1 <= per <= nper` (as far as they order), `#DIV/0!` when the annuity denominator vanishes, else
/// the interest part ([`spec_ipmt_core`]) or the payment less it.
pub open spec fn spec_payment_part<N: Number>(rate: N, per: N, nper: N, pv: N, fv: N, typ: N, interest: bool) -> Value<N> {
    if per.spec_order(N::spec_from_int(1)) == Some(Order::Less) || nper.spec_order(per) == Some(Order::Less) {
        Value::Error(ErrKind::Num)
    } else if spec_annuity_denom_is_zero(rate, nper, typ) {
        Value::Error(ErrKind::Div0)
    } else if interest {
        spec_finite_or_num(spec_ipmt_core(rate, per, nper, pv, fv, typ))
    } else {
        spec_finite_or_num(spec_annuity_pmt(rate, nper, pv, fv, typ).spec_minus(spec_ipmt_core(rate, per, nper, pv, fv, typ)))
    }
}

/// What `IPMT` / `PPMT` gives for its numbers (see [`spec_payment_part`]).
pub fn payment_part_of<N: Number>(rate: N, per: N, nper: N, pv: N, fv: N, typ: N, interest: bool) -> (r: Value<N>)
    ensures
        r == spec_payment_part(rate, per, nper, pv, fv, typ, interest),
{
    if less_than(per, N::from_int(1)) || less_than(nper, per) {
        return Value::Error(ErrKind::Num);
    }
    if annuity_denom_is_zero(rate, nper, typ) {
        return Value::Error(ErrKind::Div0);
    }
    let ip = ipmt_core(rate, per, nper, pv, fv, typ);
    if interest {
        finite_or_num(ip)
    } else {
        finite_or_num(annuity_pmt(rate, nper, pv, fv, typ).minus(ip))
    }
}

/// What [`ipmt_fn`] is stated to give, for a context `ctx` and arguments `args`.
pub open spec fn ipmt_fn_gives<'r, N: Number, R: Resolver<N>>(ctx: EvalCtx<'r, R>, args: Seq<Expr<N>>, r: Value<N>) -> bool {
    &&& r is Number || r is Error
    &&& room(ctx) && all_lit_nums(args, 0, args.len() as int) ==> ({ let v = lit_nums(args, 0, args.len() as int); let z = N::spec_from_int(0);
        r == spec_payment_part(v[0], v[1], v[2], v[3], spec_nth_or(v, 4, z), spec_nth_or(v, 5, z), true) })
}

/// `IPMT(rate, per, nper, pv, [fv], [type])` — the interest part of payment `per`.
pub fn ipmt_fn<N: Number, R: Resolver<N>>(ctx: &mut EvalCtx<R>, args: &[Expr<N>]) -> (r: Value<N>)
    requires
        4 <= args.len() <= 6,
    ensures
        restored(*old(ctx), *final(ctx)),
        r is Number || r is Error,
        room(*old(ctx)) && all_lit_nums(args@, 0, args@.len() as int) ==> ({ let v = lit_nums(args@, 0, args@.len() as int); let z = N::spec_from_int(0);
            r == spec_payment_part(v[0], v[1], v[2], v[3], spec_nth_or(v, 4, z), spec_nth_or(v, 5, z), true) }),
    decreases args_size(args@), 7nat,
{
    payment_part(ctx, args, true)
}

/// What [`ppmt_fn`] is stated to give, for a context `ctx` and arguments `args`.
pub open spec fn ppmt_fn_gives<'r, N: Number, R: Resolver<N>>(ctx: EvalCtx<'r, R>, args: Seq<Expr<N>>, r: Value<N>) -> bool {
    &&& r is Number || r is Error
    &&& room(ctx) && all_lit_nums(args, 0, args.len() as int) ==> ({ let v = lit_nums(args, 0, args.len() as int); let z = N::spec_from_int(0);
        r == spec_payment_part(v[0], v[1], v[2], v[3], spec_nth_or(v, 4, z), spec_nth_or(v, 5, z), false) })
}

/// `PPMT(rate, per, nper, pv, [fv], [type])` — the principal part of payment `per` (the payment
/// less its interest part).
pub fn ppmt_fn<N: Number, R: Resolver<N>>(ctx: &mut EvalCtx<R>, args: &[Expr<N>]) -> (r: Value<N>)
    requires
        4 <= args.len() <= 6,
    ensures
        restored(*old(ctx), *final(ctx)),
        r is Number || r is Error,
        room(*old(ctx)) && all_lit_nums(args@, 0, args@.len() as int) ==> ({ let v = lit_nums(args@, 0, args@.len() as int); let z = N::spec_from_int(0);
            r == spec_payment_part(v[0], v[1], v[2], v[3], spec_nth_or(v, 4, z), spec_nth_or(v, 5, z), false) }),
    decreases args_size(args@), 7nat,
{
    payment_part(ctx, args, false)
}

/// The Actual/365 tenors of a date stream from its first date, or `None` when a date precedes the
/// first.
pub fn day_tenors<N: Number>(dates: &Vec<N>) -> (r: Option<Vec<N>>)
    requires
        dates@.len() > 0,
    ensures
        r is None <==> exists|i: int| 0 <= i < dates@.len() && #[trigger] dates@[i].spec_order(dates@[0]) == Some(Order::Less),
        r matches Some(t) ==> t@.len() == dates@.len()
            && forall|i: int| 0 <= i < t@.len() ==> #[trigger] t@[i] == dates@[i].spec_minus(dates@[0]).spec_over(N::spec_from_int(365)),
{
    let d0 = dates[0];
    let year = N::from_int(365);
    let mut ts: Vec<N> = Vec::new();
    let mut i: usize = 0;
    while i < dates.len()
        invariant
            i <= dates@.len(),
            ts@.len() == i,
            d0 == dates@[0],
            year == N::spec_from_int(365),
            forall|j: int| 0 <= j < i ==> #[trigger] ts@[j] == dates@[j].spec_minus(dates@[0]).spec_over(N::spec_from_int(365)),
            forall|j: int| 0 <= j < i ==> #[trigger] dates@[j].spec_order(dates@[0]) != Some(Order::Less),
        decreases dates@.len() - i,
    {
        let d = dates[i];
        if less_than(d, d0) {
            assert(dates@[i as int].spec_order(dates@[0]) == Some(Order::Less));
            return None;
        }
        ts.push(d.minus(d0).over(year));
        i = i + 1;
    }
    Some(ts)
}

/// Every cell of a run is a number.
pub open spec fn all_number_cells<N>(c: Seq<Value<N>>) -> bool {
    forall|i: int| 0 <= i < c.len() ==> (#[trigger] c[i]) is Number
}

/// The numbers of a run of number cells.
pub open spec fn cell_numbers<N>(c: Seq<Value<N>>) -> Seq<N> {
    Seq::new(c.len(), |i: int| c[i]->Number_0)
}

/// The flows and floored dates of two literal arrays of numbers (see [`x_cashflows`]): `#NUM!`
/// for no flows or different counts; `None` unless both are well-formed literal arrays of numbers.
pub open spec fn lit_cashflows<N: Number>(a: Expr<N>, b: Expr<N>) -> Option<Result<(Seq<N>, Seq<N>), ErrKind>> {
    match a {
        Expr::Lit(Value::Array(s1, c1)) => match b {
            Expr::Lit(Value::Array(s2, c2)) => if c1@.len() == s1.rows * s1.cols && c2@.len() == s2.rows * s2.cols
                && all_number_cells(c1@) && all_number_cells(c2@) {
                Some(if c1@.len() == 0 || c1@.len() != c2@.len() {
                    Err(ErrKind::Num)
                } else {
                    Ok((cell_numbers(c1@), Seq::new(c2@.len(), |i: int| c2@[i]->Number_0.spec_floor_of())))
                })
            } else {
                None
            },
            _ => None,
        },
        _ => None,
    }
}

/// Whether the first `n` value cells `vc` and date cells `dc` coerce to the numbers `cv` and `dv`.
pub open spec fn cells_coerce<N: Number>(vc: Seq<Value<N>>, dc: Seq<Value<N>>, cv: Seq<N>, dv: Seq<N>, n: int) -> bool {
    &&& cv.len() == n
    &&& dv.len() == n
    &&& forall|j: int| 0 <= j < n ==> num_coercion(vc[j], Ok::<N, ErrKind>(#[trigger] cv[j])) && num_coercion(dc[j], Ok::<N, ErrKind>(dv[j]))
}

/// Whether a value coerces to some number.
pub open spec fn coerces_to_number<N: Number>(v: Value<N>) -> bool {
    exists|c: N| num_coercion(v, Ok::<N, ErrKind>(c))
}

/// The floors of a run of numbers.
pub open spec fn floors<N: Number>(d: Seq<N>) -> Seq<N> {
    Seq::new(d.len(), |j: int| d[j].spec_floor_of())
}

/// Whether `res` is what pairing value cells `vc` with date cells `dc` gives: `#NUM!` for no cells
/// or different counts; else, pair by pair, the first coercion error (a value's before its date's);
/// else the values and the floored dates.
pub open spec fn cash_pairs<N: Number>(vc: Seq<Value<N>>, dc: Seq<Value<N>>, res: Result<(Seq<N>, Seq<N>), ErrKind>) -> bool {
    if vc.len() == 0 || vc.len() != dc.len() {
        res == Err::<(Seq<N>, Seq<N>), ErrKind>(ErrKind::Num)
    } else {
        match res {
            Ok(p) => exists|dv: Seq<N>| #[trigger] cells_coerce(vc, dc, p.0, dv, vc.len() as int) && p.1 == floors(dv),
            Err(k) => exists|i: int, cv: Seq<N>, dv: Seq<N>| 0 <= i < vc.len() && #[trigger] cells_coerce(vc, dc, cv, dv, i)
                && (num_coercion(vc[i], Err::<N, ErrKind>(k)) || (coerces_to_number(vc[i]) && num_coercion(dc[i], Err::<N, ErrKind>(k)))),
        }
    }
}

/// Cells that all coerce pair to their numbers and floored dates.
proof fn lemma_cash_pairs_ok<N: Number>(vc: Seq<Value<N>>, dc: Seq<Value<N>>, cv: Seq<N>, dv: Seq<N>)
    requires
        vc.len() > 0,
        vc.len() == dc.len(),
        cells_coerce(vc, dc, cv, dv, vc.len() as int),
    ensures
        cash_pairs(vc, dc, Ok::<(Seq<N>, Seq<N>), ErrKind>((cv, floors(dv)))),
{
    let res = Ok::<(Seq<N>, Seq<N>), ErrKind>((cv, floors(dv)));
    assert(res is Ok);
    let p = res->Ok_0;
    assert(p.0 == cv);
    assert(cells_coerce(vc, dc, p.0, dv, vc.len() as int));
    assert(exists|dv2: Seq<N>| #[trigger] cells_coerce(vc, dc, p.0, dv2, vc.len() as int) && p.1 == floors(dv2));
}

/// A computed pair of runs, by their views.
pub open spec fn pairs_res<N>(r: Result<(Vec<N>, Vec<N>), ErrKind>) -> Result<(Seq<N>, Seq<N>), ErrKind> {
    match r {
        Ok(p) => Ok((p.0@, p.1@)),
        Err(k) => Err(k),
    }
}

/// Whether `res` is the flows and floored dates `args[iv]` and `args[id]` give, evaluated in `ctx`
/// in that order: the first one's error, the second one's error, then [`cash_pairs`] of their cells.
pub open spec fn cashflows_read<'r, N: Number, R: Resolver<N>>(ctx: EvalCtx<'r, R>, args: Seq<Expr<N>>, iv: int, id: int,
    res: Result<(Seq<N>, Seq<N>), ErrKind>) -> bool {
    exists|vw: Value<N>| #[trigger] arg_value(ctx, args[iv], vw) && match spec_block(vw) {
        Err(k) => res == Err::<(Seq<N>, Seq<N>), ErrKind>(k),
        Ok(vb) => exists|dw: Value<N>| #[trigger] arg_value(ctx, args[id], dw) && match spec_block(dw) {
            Err(k) => res == Err::<(Seq<N>, Seq<N>), ErrKind>(k),
            Ok(db) => cash_pairs(vb.2, db.2, res),
        },
    }
}

/// The flows of `args[iv]` and the floored dates of `args[id]`, coerced cell by cell: `#NUM!` for
/// no flows or different counts, the first coercion error otherwise.
fn x_cashflows<N: Number, R: Resolver<N>>(ctx: &mut EvalCtx<R>, args: &[Expr<N>], iv: usize, id: usize) -> (r: Result<(Vec<N>, Vec<N>), ErrKind>)
    requires
        iv < args.len(),
        id < args.len(),
    ensures
        restored(*old(ctx), *final(ctx)),
        r matches Ok(p) ==> p.0@.len() == p.1@.len() && p.0@.len() > 0,
        room(*old(ctx)) ==> (lit_cashflows(args[iv as int], args[id as int]) matches Some(res) ==> match res {
            Ok(p) => r matches Ok(q) && q.0@ == p.0 && q.1@ == p.1,
            Err(k) => r == Err::<(Vec<N>, Vec<N>), ErrKind>(k),
        }),
        cashflows_read(*old(ctx), args@, iv as int, id as int, pairs_res(r)),
    decreases args_size(args@), 4nat,
{
    proof {
        lemma_arg_size(args@, iv as int);
        lemma_arg_size(args@, id as int);
    }
    let rv = block(ctx, &args[iv]);
    let ghost vw = choose|w: Value<N>| #[trigger] arg_value(*old(ctx), args@[iv as int], w) && block_result(rv) == spec_block(w);
    let (_, _, vcells) = match rv {
        Ok(t) => t,
        Err(k) => {
            proof {
                assert(arg_value(*old(ctx), args@[iv as int], vw));
            }
            return Err(k);
        },
    };
    proof {
        lemma_restored_same(*old(ctx), *ctx);
    }
    let rd = block(ctx, &args[id]);
    let ghost dw = choose|w: Value<N>| #[trigger] arg_value(*old(ctx), args@[id as int], w) && block_result(rd) == spec_block(w);
    let (_, _, dcells) = match rd {
        Ok(t) => t,
        Err(k) => {
            proof {
                assert(arg_value(*old(ctx), args@[iv as int], vw));
                assert(arg_value(*old(ctx), args@[id as int], dw));
            }
            return Err(k);
        },
    };
    proof {
        assert(arg_value(*old(ctx), args@[iv as int], vw));
        assert(arg_value(*old(ctx), args@[id as int], dw));
    }
    if vcells.len() == 0 || vcells.len() != dcells.len() {
        return Err(ErrKind::Num);
    }
    let mut cf: Vec<N> = Vec::new();
    let mut ds: Vec<N> = Vec::new();
    let ghost mut dv: Seq<N> = Seq::empty();
    let mut i: usize = 0;
    let ghost lits = room(*old(ctx)) && lit_cashflows(args@[iv as int], args@[id as int]) is Some;
    let ghost c1 = args@[iv as int]->Lit_0->Array_1@;
    let ghost c2 = args@[id as int]->Lit_0->Array_1@;
    proof {
        if lits {
            assert forall|j: int| 0 <= j < vcells@.len() implies vcells@[j] == c1[j] by {
                lemma_same_cells_at(vcells@, c1, j);
                assert(c1[j] is Number);
            }
            assert forall|j: int| 0 <= j < dcells@.len() implies dcells@[j] == c2[j] by {
                lemma_same_cells_at(dcells@, c2, j);
                assert(c2[j] is Number);
            }
        }
    }
    while i < vcells.len()
        invariant
            i <= vcells@.len(),
            vcells@.len() == dcells@.len(),
            vcells@.len() > 0,
            cf@.len() == i,
            ds@.len() == i,
            restored(*old(ctx), *ctx),
            cells_coerce(vcells@, dcells@, cf@, dv, i as int),
            ds@ == floors(dv),
            arg_value(*old(ctx), args@[iv as int], vw),
            arg_value(*old(ctx), args@[id as int], dw),
            spec_block(vw) is Ok && spec_block(vw)->Ok_0.2 == vcells@,
            spec_block(dw) is Ok && spec_block(dw)->Ok_0.2 == dcells@,
            lits == (room(*old(ctx)) && lit_cashflows(args@[iv as int], args@[id as int]) is Some),
            c1 == args@[iv as int]->Lit_0->Array_1@,
            c2 == args@[id as int]->Lit_0->Array_1@,
            lits ==> all_number_cells(c1) && all_number_cells(c2) && c1.len() == vcells@.len() && c2.len() == dcells@.len(),
            lits ==> forall|j: int| 0 <= j < vcells@.len() ==> vcells@[j] == c1[j] && dcells@[j] == c2[j],
            lits ==> cf@ == cell_numbers(c1).subrange(0, i as int),
            lits ==> ds@ == Seq::new(c2.len(), |j: int| c2[j]->Number_0.spec_floor_of()).subrange(0, i as int),
        decreases vcells@.len() - i,
    {
        proof {
            if lits {
                assert(vcells@[i as int] == c1[i as int]);
                assert(c1[i as int] is Number);
                assert(dcells@[i as int] == c2[i as int]);
                assert(c2[i as int] is Number);
            }
        }
        let c = match coerce_num(&vcells[i]) {
            Ok(c) => c,
            Err(k) => {
                proof {
                    assert(cells_coerce(vcells@, dcells@, cf@, dv, i as int));
                }
                return Err(k);
            },
        };
        let d = match coerce_num(&dcells[i]) {
            Ok(d) => d,
            Err(k) => {
                proof {
                    assert(cells_coerce(vcells@, dcells@, cf@, dv, i as int));
                    assert(num_coercion(vcells@[i as int], Ok::<N, ErrKind>(c)));
                }
                return Err(k);
            },
        };
        cf.push(c);
        ds.push(d.floor_of());
        proof {
            let dv0 = dv;
            dv = dv.push(d);
            assert forall|j: int| 0 <= j < i + 1 implies num_coercion(vcells@[j], Ok::<N, ErrKind>(#[trigger] cf@[j]))
                && num_coercion(dcells@[j], Ok::<N, ErrKind>(dv[j])) by {
                if j < i {
                    assert(cf@[j] == cf@.drop_last()[j]);
                    assert(dv[j] == dv0[j]);
                }
            }
            assert(ds@ =~= floors(dv));
            if lits {
                assert(cf@ =~= cell_numbers(c1).subrange(0, i + 1));
                assert(ds@ =~= Seq::new(c2.len(), |j: int| c2[j]->Number_0.spec_floor_of()).subrange(0, i + 1));
            }
        }
        i = i + 1;
    }
    proof {
        if lits {
            assert(cf@ =~= cell_numbers(c1));
            assert(ds@ =~= Seq::new(c2.len(), |j: int| c2[j]->Number_0.spec_floor_of()));
        }
        assert(cells_coerce(vcells@, dcells@, cf@, dv, vcells@.len() as int));
        assert(i == vcells@.len());
        assert(ds@ == floors(dv));
        assert(!(vcells@.len() == 0 || vcells@.len() != dcells@.len()));
        assert(cells_coerce(vcells@, dcells@, cf@, dv, vcells@.len() as int) && ds@ == floors(dv));
        lemma_cash_pairs_ok(vcells@, dcells@, cf@, dv);
    }
    Ok((cf, ds))
}

/// The shorter of two lengths.
pub open spec fn min_len(a: nat, b: nat) -> int {
    if a < b { a as int } else { b as int }
}

/// `Σ_{i<k} cf_i / base^t_i`, summed left to right from zero.
pub open spec fn dated_sum<N: Number>(base: N, cf: Seq<N>, tenors: Seq<N>, k: int) -> N
    decreases k,
{
    if k <= 0 {
        N::spec_from_int(0)
    } else {
        dated_sum(base, cf, tenors, k - 1).spec_plus(cf[k - 1].spec_over(base.spec_power(tenors[k - 1])))
    }
}

/// A dated sum over a prefix ignores what follows it.
proof fn lemma_dated_prefix<N: Number>(b: N, a: Seq<N>, ta: Seq<N>, c: Seq<N>, tc: Seq<N>, k: int)
    requires
        0 <= k <= a.len(),
        k <= c.len(),
        k <= ta.len(),
        k <= tc.len(),
        forall|j: int| 0 <= j < k ==> a[j] == c[j] && ta[j] == tc[j],
    ensures
        dated_sum(b, a, ta, k) == dated_sum(b, c, tc, k),
    decreases k,
{
    if k > 0 {
        lemma_dated_prefix(b, a, ta, c, tc, k - 1);
    }
}

/// `XNPV` discounts each flow by its own tenor: adding a flow `c` at tenor `t` to flows and tenors
/// of equal length adds `c/(1+rate)^t` to the present value.
pub proof fn law_xnpv_discounts_by_tenor<N: Number>(rate: N, cf: Seq<N>, tenors: Seq<N>, c: N, t: N)
    requires
        cf.len() == tenors.len(),
    ensures
        spec_xnpv_at(rate, cf.push(c), tenors.push(t))
            == spec_xnpv_at(rate, cf, tenors).spec_plus(c.spec_over(N::spec_from_int(1).spec_plus(rate).spec_power(t))),
{
    let b = N::spec_from_int(1).spec_plus(rate);
    let n = cf.len() as int;
    lemma_dated_prefix(b, cf, tenors, cf.push(c), tenors.push(t), n);
    assert(cf.push(c)[n] == c && tenors.push(t)[n] == t);
}

/// The dated present value `Σ cf_i / (1+rate)^t_i` over the pairs both runs cover.
pub open spec fn spec_xnpv_at<N: Number>(rate: N, cf: Seq<N>, tenors: Seq<N>) -> N {
    dated_sum(N::spec_from_int(1).spec_plus(rate), cf, tenors, min_len(cf.len(), tenors.len()))
}

/// The dated present value (see [`spec_xnpv_at`]).
pub fn xnpv_at<N: Number>(rate: N, cf: &Vec<N>, tenors: &Vec<N>) -> (r: N)
    ensures
        r == spec_xnpv_at(rate, cf@, tenors@),
{
    let base = N::from_int(1).plus(rate);
    let mut acc = N::from_int(0);
    let mut i: usize = 0;
    while i < cf.len() && i < tenors.len()
        invariant
            i <= cf@.len(),
            i <= tenors@.len(),
            base == N::spec_from_int(1).spec_plus(rate),
            acc == dated_sum(base, cf@, tenors@, i as int),
        decreases cf@.len() - i,
    {
        acc = acc.plus(cf[i].over(base.power(tenors[i])));
        i = i + 1;
    }
    acc
}

/// `Σ_{i<k} −t_i·cf_i / base^(t_i+1)`, summed left to right from zero.
pub open spec fn dated_deriv_sum<N: Number>(base: N, cf: Seq<N>, tenors: Seq<N>, k: int) -> N
    decreases k,
{
    if k <= 0 {
        N::spec_from_int(0)
    } else {
        let t = tenors[k - 1];
        dated_deriv_sum(base, cf, tenors, k - 1).spec_plus(t.spec_negate().spec_times(cf[k - 1])
            .spec_over(base.spec_power(t.spec_plus(N::spec_from_int(1)))))
    }
}

/// The derivative of [`xnpv_at`] in the rate: `Σ −t_i·cf_i / (1+rate)^(t_i+1)`.
pub open spec fn spec_xnpv_deriv<N: Number>(rate: N, cf: Seq<N>, tenors: Seq<N>) -> N {
    dated_deriv_sum(N::spec_from_int(1).spec_plus(rate), cf, tenors, min_len(cf.len(), tenors.len()))
}

/// The derivative of [`xnpv_at`] in the rate (see [`spec_xnpv_deriv`]).
pub fn xnpv_deriv<N: Number>(rate: N, cf: &Vec<N>, tenors: &Vec<N>) -> (r: N)
    ensures
        r == spec_xnpv_deriv(rate, cf@, tenors@),
{
    let one = N::from_int(1);
    let base = one.plus(rate);
    let mut acc = N::from_int(0);
    let mut i: usize = 0;
    while i < cf.len() && i < tenors.len()
        invariant
            i <= cf@.len(),
            i <= tenors@.len(),
            one == N::spec_from_int(1),
            base == N::spec_from_int(1).spec_plus(rate),
            acc == dated_deriv_sum(base, cf@, tenors@, i as int),
        decreases cf@.len() - i,
    {
        let t = tenors[i];
        acc = acc.plus(t.negate().times(cf[i]).over(base.power(t.plus(one))));
        i = i + 1;
    }
    acc
}

/// What [`xnpv_fn`] is stated to give, for a context `ctx` and arguments `args`.
pub open spec fn xnpv_fn_gives<'r, N: Number, R: Resolver<N>>(ctx: EvalCtx<'r, R>, args: Seq<Expr<N>>, r: Value<N>) -> bool {
    &&& r is Number || r is Error
    &&& room(ctx) ==> (lit_num(args[0]) matches Some(rate) ==> (lit_cashflows(args[1], args[2]) matches Some(res) ==> r == match res {
        Err(k) => Value::<N>::Error(k),
        Ok(p) => if exists|i: int| 0 <= i < p.1.len() && #[trigger] p.1[i].spec_order(p.1[0]) == Some(Order::Less) {
            Value::<N>::Error(ErrKind::Num)
        } else {
            spec_finite_or_num(spec_xnpv_at(rate, p.0, Seq::new(p.1.len(), |i: int| p.1[i].spec_minus(p.1[0]).spec_over(N::spec_from_int(365)))))
        },
    }))
}

/// What [`xnpv_fn`] is stated to give for the values its arguments evaluate to in `ctx`.
pub open spec fn xnpv_fn_reads<'r, N: Number, R: Resolver<N>>(ctx: EvalCtx<'r, R>, args: Seq<Expr<N>>, r: Value<N>) -> bool {
    &&& xnpv_read(ctx, args, r)
}

/// What `XNPV` gives over its evaluated arguments: the rate `args[0]` (its error propagates), then
/// the flows and dates (see [`cashflows_read`]) and the dated present value: `#NUM!` when a date
/// orders before the first.
pub open spec fn xnpv_read<'r, N: Number, R: Resolver<N>>(ctx: EvalCtx<'r, R>, args: Seq<Expr<N>>, r: Value<N>) -> bool {
    exists|g: Result<N, ErrKind>| #[trigger] num_read(ctx, args[0], g) && match g {
        Err(k) => r == Value::<N>::Error(k),
        Ok(rate) => exists|cfr: Result<(Seq<N>, Seq<N>), ErrKind>| #[trigger] cashflows_read(ctx, args, 1, 2, cfr) && match cfr {
            Err(k) => r == Value::<N>::Error(k),
            Ok(p) => r == if exists|i: int| 0 <= i < p.1.len() && #[trigger] p.1[i].spec_order(p.1[0]) == Some(Order::Less) {
                Value::<N>::Error(ErrKind::Num)
            } else {
                spec_finite_or_num(spec_xnpv_at(rate, p.0, spec_tenors(p.1)))
            },
        },
    }
}

/// `XNPV(rate, values, dates)` — the present value of dated flows (see [`xnpv_at`]); mismatched or
/// empty streams, or a date before the first, are `#NUM!`.
pub fn xnpv_fn<N: Number, R: Resolver<N>>(ctx: &mut EvalCtx<R>, args: &[Expr<N>]) -> (r: Value<N>)
    requires
        args.len() == 3,
    ensures
        restored(*old(ctx), *final(ctx)),
        r is Number || r is Error,
        room(*old(ctx)) ==> (lit_num(args[0]) matches Some(rate) ==> (lit_cashflows(args[1], args[2]) matches Some(res) ==> r == match res {
            Err(k) => Value::<N>::Error(k),
            Ok(p) => if exists|i: int| 0 <= i < p.1.len() && #[trigger] p.1[i].spec_order(p.1[0]) == Some(Order::Less) {
                Value::<N>::Error(ErrKind::Num)
            } else {
                spec_finite_or_num(spec_xnpv_at(rate, p.0, Seq::new(p.1.len(), |i: int| p.1[i].spec_minus(p.1[0]).spec_over(N::spec_from_int(365)))))
            },
        })),
        xnpv_read(*old(ctx), args@, r),
    decreases args_size(args@), 7nat,
{
    proof {
        lemma_arg_size(args@, 0);
    }
    let rg = one_num(ctx, &args[0]);
    proof {
        assert(num_read(*old(ctx), args@[0], rg));
        lemma_restored_same(*old(ctx), *ctx);
    }
    let rate = match rg {
        Ok(x) => x,
        Err(k) => {
            return Value::Error(k);
        },
    };
    let rx = x_cashflows(ctx, args, 1, 2);
    proof {
        assert(cashflows_read(*old(ctx), args@, 1, 2, pairs_res(rx)));
    }
    let (cf, dates) = match rx {
        Ok(p) => p,
        Err(k) => {
            return Value::Error(k);
        },
    };
    let r = xnpv_of(rate, &cf, &dates);
    proof {
        assert(spec_tenors(dates@) =~= Seq::new(dates@.len(), |i: int| dates@[i].spec_minus(dates@[0]).spec_over(N::spec_from_int(365))));
    }
    r
}

/// What `XNPV` gives for a rate and its flows and dates (non-empty): `#NUM!` when a date orders
/// before the first, else the dated present value at the Actual/365 tenors (see
/// [`spec_xnpv_at`], [`spec_finite_or_num`]).
pub fn xnpv_of<N: Number>(rate: N, cf: &Vec<N>, dates: &Vec<N>) -> (r: Value<N>)
    requires
        dates@.len() > 0,
    ensures
        (exists|i: int| 0 <= i < dates@.len() && #[trigger] dates@[i].spec_order(dates@[0]) == Some(Order::Less))
            ==> r == Value::<N>::Error(ErrKind::Num),
        !(exists|i: int| 0 <= i < dates@.len() && #[trigger] dates@[i].spec_order(dates@[0]) == Some(Order::Less))
            ==> r == spec_finite_or_num(spec_xnpv_at(rate, cf@,
                Seq::new(dates@.len(), |i: int| dates@[i].spec_minus(dates@[0]).spec_over(N::spec_from_int(365))))),
{
    match day_tenors(dates) {
        Some(t) => {
            assert(t@ =~= Seq::new(dates@.len(), |i: int| dates@[i].spec_minus(dates@[0]).spec_over(N::spec_from_int(365))));
            finite_or_num(xnpv_at(rate, cf, &t))
        },
        None => Value::Error(ErrKind::Num),
    }
}

/// What [`xirr_fn`] is stated to give, for a context `ctx` and arguments `args`.
pub open spec fn xirr_fn_gives<'r, N: Number, R: Resolver<N>>(ctx: EvalCtx<'r, R>, args: Seq<Expr<N>>, r: Value<N>) -> bool {
    &&& r is Number || r is Error
    &&& room(ctx) ==> (lit_cashflows(args[0], args[1]) matches Some(res) ==> match res {
        Err(k) => r == Value::<N>::Error(k),
        Ok(p) => (p.0.len() < 2 ==> r == Value::<N>::Error(ErrKind::Num))
            && ((exists|i: int| 0 <= i < p.1.len() && #[trigger] p.1[i].spec_order(p.1[0]) == Some(Order::Less))
                ==> r == Value::<N>::Error(ErrKind::Num)),
    })
}

/// What [`xirr_fn`] is stated to give for the values its arguments evaluate to in `ctx`.
pub open spec fn xirr_fn_reads<'r, N: Number, R: Resolver<N>>(ctx: EvalCtx<'r, R>, args: Seq<Expr<N>>, r: Value<N>) -> bool {
    &&& xirr_read(ctx, args, r)
}

/// Actual/365 tenors of whole-day dates from the first.
pub open spec fn spec_tenors<N: Number>(d: Seq<N>) -> Seq<N> {
    Seq::new(d.len(), |i: int| d[i].spec_minus(d[0]).spec_over(N::spec_from_int(365)))
}

/// `Σ_{i<k} |cf_i|`, summed left to right from zero.
pub open spec fn abs_total<N: Number>(cf: Seq<N>, k: int) -> N
    decreases k,
{
    if k <= 0 {
        N::spec_from_int(0)
    } else {
        abs_total(cf, k - 1).spec_plus(cf[k - 1].spec_magnitude())
    }
}

/// The scale of XIRR's residual tolerance: `Σ|cf|`, or 1 when that is below 1 or unordered.
pub open spec fn xirr_scale<N: Number>(cf: Seq<N>) -> N {
    let t = abs_total(cf, cf.len() as int);
    let one = N::spec_from_int(1);
    if t.spec_order(one) == Some(Order::Less) || t.spec_order(t) is None { one } else { t }
}

/// A rate the Newton iteration reaches is finite, above the floor it was given (if any), and the
/// problem's value there is within the residual tolerance of zero.
proof fn lemma_newton_root<N: Number>(p: RootEquation<N>, rate: N, tol: N, left: nat, floor: Option<N>)
    ensures
        newton_from(p, rate, tol, left, floor) matches Some(x) ==> x.spec_finite()
            && at_most_spec(spec_root_value(p, x).spec_magnitude(), tol)
            && (floor matches Some(f) ==> !at_most_spec(x, f)),
    decreases left,
{
    if left > 0 {
        let y = spec_root_value(p, rate);
        let dy = spec_root_slope(p, rate);
        let next = rate.spec_minus(y.spec_over(dy));
        lemma_newton_root(p, next, tol, (left - 1) as nat, floor);
    }
}

/// `IRR` and `XIRR` give a rate their Newton iteration reaches only where it zeroes the present
/// value of the flows: that rate is the result, it is above −1, and the present value there (the
/// first flow undiscounted; for `XIRR` each flow at its Actual/365 tenor) is within the residual
/// tolerance of zero (`1e-6`, for `XIRR` scaled by the flows' size).
pub proof fn law_irr_is_root<N: Number>(cf: Seq<N>, tenors: Seq<N>, start: N)
    ensures
        newton_from(RootEquation::Periodic(cf), start, spec_ratio::<N>(1, 1_000_000), IRR_NEWTON_MAX as nat,
            Some(N::spec_from_int(-1i64))) matches Some(x) ==> irr_value(cf, start) == spec_finite_or_num(x)
            && at_most_spec(spec_irr_npv(x, cf).spec_magnitude(), spec_ratio::<N>(1, 1_000_000))
            && !at_most_spec(x, N::spec_from_int(-1i64)),
        newton_from(RootEquation::Dated(cf, tenors), start, spec_ratio::<N>(1, 1_000_000).spec_times(xirr_scale(cf)),
            IRR_NEWTON_MAX as nat, Some(N::spec_from_int(-1i64))) matches Some(x) ==> xirr_value(cf, tenors, start)
            == spec_finite_or_num(x)
            && at_most_spec(spec_xnpv_at(x, cf, tenors).spec_magnitude(), spec_ratio::<N>(1, 1_000_000).spec_times(xirr_scale(cf)))
            && !at_most_spec(x, N::spec_from_int(-1i64)),
{
    lemma_newton_root(RootEquation::Periodic(cf), start, spec_ratio::<N>(1, 1_000_000), IRR_NEWTON_MAX as nat,
        Some(N::spec_from_int(-1i64)));
    lemma_newton_root(RootEquation::Dated(cf, tenors), start, spec_ratio::<N>(1, 1_000_000).spec_times(xirr_scale(cf)),
        IRR_NEWTON_MAX as nat, Some(N::spec_from_int(-1i64)));
}

/// `RATE` gives a rate only where it zeroes the annuity balance: a rate the Newton iteration
/// reaches, from any start and for any residual tolerance, leaves the balance at that rate within
/// the tolerance of zero.
pub proof fn law_rate_zeroes_balance<N: Number>(nper: N, pmt: N, pv: N, fv: N, typ: N, start: N, tol: N)
    ensures
        newton_from(RootEquation::Annuity(nper, pmt, pv, fv, typ), start, tol, 100, None) matches Some(x)
            ==> at_most_spec(spec_annuity_balance(x, nper, pmt, pv, fv, typ).spec_magnitude(), tol),
{
    lemma_newton_root(RootEquation::Annuity(nper, pmt, pv, fv, typ), start, tol, 100, None);
}

/// What XIRR gives for flows `cf` at `tenors` from a Newton start: the rate Newton reaches (above
/// −1, residual within `1e-6·`[`xirr_scale`], at most 50 steps), else the rate the bisection
/// fallback reaches, each as a finite number (else `#NUM!`); `#NUM!` when neither finds one.
pub open spec fn xirr_value<N: Number>(cf: Seq<N>, tenors: Seq<N>, start: N) -> Value<N> {
    match newton_from(RootEquation::Dated(cf, tenors), start, spec_ratio::<N>(1, 1_000_000).spec_times(xirr_scale(cf)),
        IRR_NEWTON_MAX as nat, Some(N::spec_from_int(-1i64))) {
        Some(x) => spec_finite_or_num(x),
        None => match bisect_result(RootEquation::Dated(cf, tenors)) {
            Some(x) => spec_finite_or_num(x),
            None => Value::Error(ErrKind::Num),
        },
    }
}

/// What `XIRR` gives over its evaluated arguments: the flows and dates (see [`cashflows_read`]);
/// fewer than two flows, or a date before the first, is `#NUM!`; then the guess `args[2]` (0.1
/// when omitted; its error propagates) and [`xirr_value`] at the dates' tenors.
pub open spec fn xirr_read<'r, N: Number, R: Resolver<N>>(ctx: EvalCtx<'r, R>, args: Seq<Expr<N>>, r: Value<N>) -> bool {
    exists|cfr: Result<(Seq<N>, Seq<N>), ErrKind>| #[trigger] cashflows_read(ctx, args, 0, 1, cfr) && match cfr {
        Err(k) => r == Value::<N>::Error(k),
        Ok(p) => if p.0.len() < 2 {
            r == Value::<N>::Error(ErrKind::Num)
        } else if exists|i: int| 0 <= i < p.1.len() && #[trigger] p.1[i].spec_order(p.1[0]) == Some(Order::Less) {
            r == Value::<N>::Error(ErrKind::Num)
        } else if args.len() == 3 {
            exists|g: Result<N, ErrKind>| #[trigger] num_read(ctx, args[2], g) && match g {
                Err(k) => r == Value::<N>::Error(k),
                Ok(x) => r == xirr_value(p.0, spec_tenors(p.1), irr_start(x)),
            }
        } else {
            r == xirr_value(p.0, spec_tenors(p.1), spec_ratio::<N>(1, 10))
        },
    }
}

/// `XIRR(values, dates, [guess])` — the rate zeroing the dated present value: Newton from `guess`
/// (0.1 by default, also when it is not a finite rate above −1) with a residual tolerance of `1e-6`
/// scaled by `max(Σ|cf|, 1)`, then the bisection fallback. Fewer than two flows, mismatched streams,
/// a date before the first, or no root is `#NUM!`.
pub fn xirr_fn<N: Number, R: Resolver<N>>(ctx: &mut EvalCtx<R>, args: &[Expr<N>]) -> (r: Value<N>)
    requires
        2 <= args.len() <= 3,
    ensures
        restored(*old(ctx), *final(ctx)),
        r is Number || r is Error,
        room(*old(ctx)) ==> (lit_cashflows(args@[0], args@[1]) matches Some(res) ==> match res {
            Err(k) => r == Value::<N>::Error(k),
            Ok(p) => (p.0.len() < 2 ==> r == Value::<N>::Error(ErrKind::Num))
                && ((exists|i: int| 0 <= i < p.1.len() && #[trigger] p.1[i].spec_order(p.1[0]) == Some(Order::Less))
                    ==> r == Value::<N>::Error(ErrKind::Num)),
        }),
        xirr_read(*old(ctx), args@, r),
    decreases args_size(args@), 7nat,
{
    let rx = x_cashflows(ctx, args, 0, 1);
    proof {
        assert(cashflows_read(*old(ctx), args@, 0, 1, pairs_res(rx)));
        lemma_restored_same(*old(ctx), *ctx);
    }
    let (cf, dates) = match rx {
        Ok(p) => p,
        Err(k) => {
            return Value::Error(k);
        },
    };
    if cf.len() < 2 {
        return Value::Error(ErrKind::Num);
    }
    let tenors = match day_tenors(&dates) {
        Some(t) => t,
        None => {
            return Value::Error(ErrKind::Num);
        },
    };
    let default_guess: N = ratio(1, 10);
    let guess = if args.len() == 3 {
        proof {
            lemma_arg_size(args@, 2);
        }
        let rg = one_num(ctx, &args[2]);
        proof {
            assert(num_read(*old(ctx), args@[2], rg));
        }
        match rg {
            Ok(x) => x,
            Err(k) => {
                return Value::Error(k);
            },
        }
    } else {
        default_guess
    };
    let start = if less_than(N::from_int(-1), guess) && guess.finite() { guess } else { default_guess };
    let one = N::from_int(1);
    let mut total = N::from_int(0);
    let mut i: usize = 0;
    while i < cf.len()
        invariant
            i <= cf@.len(),
            total == abs_total(cf@, i as int),
        decreases cf@.len() - i,
    {
        total = total.plus(cf[i].magnitude());
        i = i + 1;
    }
    let scale = if less_than(total, one) || total.order(total).is_none() { one } else { total };
    proof {
        assert(tenors@ =~= spec_tenors(dates@));
        assert(scale == xirr_scale(cf@));
    }
    let problem = RootProblem::Dated(cf, tenors);
    if let Some(r) = newton_rate(&problem, start, ratio::<N>(1, 1_000_000).times(scale), IRR_NEWTON_MAX, Some(N::from_int(-1))) {
        return finite_or_num(r);
    }
    match bisect_rate(&problem) {
        Some(r) => finite_or_num(r),
        None => Value::Error(ErrKind::Num),
    }
}

} // verus!
