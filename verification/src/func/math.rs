//! Scalar math: `ABS`, `ROUND`, `ROUNDUP`, `ROUNDDOWN`, `INT`, `MOD`, `POWER`, `SQRT`, `CEILING`,
//! `FLOOR`. `MOD`'s sign follows the divisor; `INT` floors toward −∞; `SQRT` of a negative is
//! `#NUM!`; legacy `CEILING`/`FLOOR` reject different-signed arguments with `#NUM!` and treat a zero
//! significance asymmetrically (`CEILING` → 0, `FLOOR` → `#DIV/0!`).

use vstd::prelude::*;
use crate::func::helpers::two_num_read;
use crate::func::helpers::one_num_read;
use crate::eval::{is_zero, less_than, pow, restored, spec_is_zero, spec_pow, EvalCtx};
use crate::expr::{args_size, lemma_arg_size, Expr, Resolver};
use crate::func::helpers::{finite_or_num, lit_num, one_num, room, spec_finite_or_num, two_nums};
use crate::value::{ErrKind, Number, Order, Value};

verus! {

/// A digit count truncated toward zero and clamped to the band `[-308, 308]`.
pub open spec fn spec_digits_of<N: Number>(d: N) -> i32 {
    let t = d.spec_trunc_int();
    if t < -308 { -308i32 } else if t > 308 { 308i32 } else { t as i32 }
}

/// A digit count truncated toward zero and clamped to the band `[-308, 308]` (see
/// [`spec_digits_of`]).
pub fn digits_of<N: Number>(d: N) -> (r: i32)
    ensures
        -308 <= r <= 308,
        r == spec_digits_of(d),
{
    let t = d.trunc_int();
    if t < -308 {
        -308
    } else if t > 308 {
        308
    } else {
        t as i32
    }
}

/// What `ABS` gives for a number.
pub open spec fn spec_abs<N: Number>(x: N) -> Value<N> {
    Value::Number(x.spec_magnitude())
}

/// What `ROUND` gives for a number and a digit count: `round(n·f)/f` with `f = 10^digits`.
pub open spec fn spec_round<N: Number>(n: N, d: N) -> Value<N> {
    let f = N::spec_ten_to(spec_digits_of(d));
    spec_finite_or_num(n.spec_times(f).spec_round_of().spec_over(f))
}

/// What `ROUNDUP` (`up`) or `ROUNDDOWN` gives: the scaled magnitude rounded up (its sign kept), or
/// the scaled number truncated, scaled back.
pub open spec fn spec_round_dir<N: Number>(n: N, d: N, up: bool) -> Value<N> {
    let f = N::spec_ten_to(spec_digits_of(d));
    let scaled = n.spec_times(f);
    let rounded = if up {
        let c = scaled.spec_magnitude().spec_ceil_of();
        if scaled.spec_order(N::spec_from_int(0)) == Some(Order::Less) { c.spec_negate() } else { c }
    } else {
        scaled.spec_trunc_of()
    };
    spec_finite_or_num(rounded.spec_over(f))
}

/// What `INT` gives for a number.
pub open spec fn spec_int<N: Number>(x: N) -> Value<N> {
    spec_finite_or_num(x.spec_floor_of())
}

/// What `MOD` gives for a number and a divisor.
pub open spec fn spec_mod<N: Number>(n: N, d: N) -> Value<N> {
    if spec_is_zero(d) {
        Value::Error(ErrKind::Div0)
    } else {
        spec_finite_or_num(n.spec_minus(d.spec_times(n.spec_over(d).spec_floor_of())))
    }
}

/// What `SQRT` gives for a number.
pub open spec fn spec_sqrt<N: Number>(x: N) -> Value<N> {
    if x.spec_order(N::spec_from_int(0)) == Some(Order::Less) {
        Value::Error(ErrKind::Num)
    } else {
        spec_finite_or_num(x.spec_square_root())
    }
}

/// What `CEILING` (`up`) or `FLOOR` gives for a number and a significance.
pub open spec fn spec_ceiling_floor<N: Number>(n: N, s: N, up: bool) -> Value<N> {
    if spec_is_zero(s) {
        if up { Value::Number(N::spec_from_int(0)) } else { Value::Error(ErrKind::Div0) }
    } else if n.spec_times(s).spec_order(N::spec_from_int(0)) == Some(Order::Less) {
        Value::Error(ErrKind::Num)
    } else {
        let q = n.spec_over(s);
        spec_finite_or_num(s.spec_times(if up { q.spec_ceil_of() } else { q.spec_floor_of() }))
    }
}

/// The math functions in terms of the number operations: `ABS` is the magnitude (of a whole
/// number, its absolute value); `INT` rounds down (a whole number stays); `MOD` is
/// `n − d·floor(n/d)`, `#DIV/0!` for a zero divisor; `SQRT` of a negative is `#NUM!`;
/// `CEILING` / `FLOOR` round `n/s` up / down and scale back by `s`, `#NUM!` when `n` and `s` have
/// opposite signs, and a zero significance gives `0` / `#DIV/0!`; `ROUND`, `ROUNDUP` and
/// `ROUNDDOWN` scale by ten to the truncated digit count (clamped to ±308), round to nearest, away
/// from zero or toward zero, and scale back.
pub proof fn law_math_forms<N: Number>(x: N, n: N, d: N, i: i64)
    requires
        -0x20_0000_0000_0000 <= i <= 0x20_0000_0000_0000,
    ensures
        spec_abs(x) == Value::<N>::Number(x.spec_magnitude()),
        spec_abs(N::spec_from_int(i)) == Value::<N>::Number(N::spec_from_int((if i < 0 { -i } else { i as int }) as i64)),
        spec_int(x) == spec_finite_or_num(x.spec_floor_of()),
        spec_int(N::spec_from_int(i)) == spec_finite_or_num(N::spec_from_int(i)),
        spec_is_zero(d) ==> spec_mod(n, d) == Value::<N>::Error(ErrKind::Div0),
        !spec_is_zero(d) ==> spec_mod(n, d) == ({
            let q = n.spec_over(d).spec_floor_of();
            spec_finite_or_num(n.spec_minus(d.spec_times(q)))
        }),
        x.spec_order(N::spec_from_int(0)) == Some(Order::Less) ==> spec_sqrt(x) == Value::<N>::Error(ErrKind::Num),
        x.spec_order(N::spec_from_int(0)) != Some(Order::Less) ==> spec_sqrt(x) == spec_finite_or_num(x.spec_square_root()),
        spec_is_zero(d) ==> spec_ceiling_floor(n, d, true) == Value::<N>::Number(N::spec_from_int(0))
            && spec_ceiling_floor(n, d, false) == Value::<N>::Error(ErrKind::Div0),
        !spec_is_zero(d) && n.spec_times(d).spec_order(N::spec_from_int(0)) == Some(Order::Less)
            ==> spec_ceiling_floor(n, d, true) == Value::<N>::Error(ErrKind::Num) && spec_ceiling_floor(n, d, false) == Value::<N>::Error(ErrKind::Num),
        !spec_is_zero(d) && n.spec_times(d).spec_order(N::spec_from_int(0)) != Some(Order::Less) ==> ({
            let q = n.spec_over(d);
            spec_ceiling_floor(n, d, true) == spec_finite_or_num(d.spec_times(q.spec_ceil_of()))
                && spec_ceiling_floor(n, d, false) == spec_finite_or_num(d.spec_times(q.spec_floor_of()))
        }),
        ({
            let t = d.spec_trunc_int();
            let e: i32 = if t < -308 { -308i32 } else if t > 308 { 308i32 } else { t as i32 };
            let f = N::spec_ten_to(e);
            let scaled = n.spec_times(f);
            &&& spec_round(n, d) == spec_finite_or_num(scaled.spec_round_of().spec_over(f))
            &&& spec_round_dir(n, d, false) == spec_finite_or_num(scaled.spec_trunc_of().spec_over(f))
            &&& spec_round_dir(n, d, true) == spec_finite_or_num((if scaled.spec_order(N::spec_from_int(0)) == Some(Order::Less) {
                scaled.spec_magnitude().spec_ceil_of().spec_negate()
            } else {
                scaled.spec_magnitude().spec_ceil_of()
            }).spec_over(f))
        }),
{
    N::law_integral(i);
}

/// What [`abs_fn`] is stated to give, for a context `ctx` and arguments `args`.
pub open spec fn abs_fn_gives<'r, N: Number, R: Resolver<N>>(ctx: EvalCtx<'r, R>, args: Seq<Expr<N>>, r: Value<N>) -> bool {
    &&& r is Number || r is Error
    &&& room(ctx) ==> (lit_num(args[0]) matches Some(x) ==> r == spec_abs(x))
}

/// What [`abs_fn`] is stated to give for the values its arguments evaluate to in `ctx`.
pub open spec fn abs_fn_reads<'r, N: Number, R: Resolver<N>>(ctx: EvalCtx<'r, R>, args: Seq<Expr<N>>, r: Value<N>) -> bool {
    &&& one_num_read(ctx, args[0], (|x: N| spec_abs(x)), r)
}

/// `ABS(x)` — magnitude; an error propagates.
pub fn abs_fn<N: Number, R: Resolver<N>>(ctx: &mut EvalCtx<R>, args: &[Expr<N>]) -> (r: Value<N>)
    requires
        args.len() == 1,
    ensures
        restored(*old(ctx), *final(ctx)),
        r is Number || r is Error,
        room(*old(ctx)) ==> (lit_num(args[0]) matches Some(x) ==> r == spec_abs(x)),
        one_num_read(*old(ctx), args@[0], (|x: N| spec_abs(x)), r),
    decreases args_size(args@), 7nat,
{
    proof {
        lemma_arg_size(args@, 0);
    }
    match one_num(ctx, &args[0]) {
        Err(k) => Value::Error(k),
        Ok(n) => Value::Number(n.magnitude()),
    }
}

/// What [`round_fn`] is stated to give, for a context `ctx` and arguments `args`.
pub open spec fn round_fn_gives<'r, N: Number, R: Resolver<N>>(ctx: EvalCtx<'r, R>, args: Seq<Expr<N>>, r: Value<N>) -> bool {
    &&& r is Number || r is Error
    &&& room(ctx) ==> (lit_num(args[0]) matches Some(x) ==> (lit_num(args[1]) matches Some(y) ==> r == spec_round(x, y)))
}

/// What [`round_fn`] is stated to give for the values its arguments evaluate to in `ctx`.
pub open spec fn round_fn_reads<'r, N: Number, R: Resolver<N>>(ctx: EvalCtx<'r, R>, args: Seq<Expr<N>>, r: Value<N>) -> bool {
    &&& two_num_read(ctx, args, (|x: N, y: N| spec_round(x, y)), r)
}

/// `ROUND(x, digits)` — round to `digits` places, ties away from zero; negative `digits` rounds to
/// the left of the decimal point.
pub fn round_fn<N: Number, R: Resolver<N>>(ctx: &mut EvalCtx<R>, args: &[Expr<N>]) -> (r: Value<N>)
    requires
        args.len() == 2,
    ensures
        restored(*old(ctx), *final(ctx)),
        r is Number || r is Error,
        room(*old(ctx)) ==> (lit_num(args[0]) matches Some(x) ==> (lit_num(args[1]) matches Some(y) ==> r == spec_round(x, y))),
        two_num_read(*old(ctx), args@, (|x: N, y: N| spec_round(x, y)), r),
    decreases args_size(args@), 7nat,
{
    let (n, d) = match two_nums(ctx, args) {
        Ok(t) => t,
        Err(k) => {
            return Value::Error(k);
        },
    };
    let factor = N::ten_to(digits_of(d));
    finite_or_num(n.times(factor).round_of().over(factor))
}

/// Shared body of `ROUNDUP` (`up`: away from zero) and `ROUNDDOWN` (toward zero).
pub fn round_dir<N: Number, R: Resolver<N>>(ctx: &mut EvalCtx<R>, args: &[Expr<N>], up: bool) -> (r: Value<N>)
    requires
        args.len() == 2,
    ensures
        restored(*old(ctx), *final(ctx)),
        r is Number || r is Error,
        room(*old(ctx)) ==> (lit_num(args[0]) matches Some(x) ==> (lit_num(args[1]) matches Some(y) ==> r == spec_round_dir(x, y, up))),
        two_num_read(*old(ctx), args@, (|x: N, y: N| spec_round_dir(x, y, up)), r),
    decreases args_size(args@), 5nat,
{
    let (n, d) = match two_nums(ctx, args) {
        Ok(t) => t,
        Err(k) => {
            return Value::Error(k);
        },
    };
    let factor = N::ten_to(digits_of(d));
    let scaled = n.times(factor);
    let rounded = if up {
        let c = scaled.magnitude().ceil_of();
        if less_than(scaled, N::from_int(0)) { c.negate() } else { c }
    } else {
        scaled.trunc_of()
    };
    finite_or_num(rounded.over(factor))
}

/// What [`roundup`] is stated to give, for a context `ctx` and arguments `args`.
pub open spec fn roundup_gives<'r, N: Number, R: Resolver<N>>(ctx: EvalCtx<'r, R>, args: Seq<Expr<N>>, r: Value<N>) -> bool {
    &&& r is Number || r is Error
    &&& room(ctx) ==> (lit_num(args[0]) matches Some(x) ==> (lit_num(args[1]) matches Some(y) ==> r == spec_round_dir(x, y, true)))
}

/// What [`roundup`] is stated to give for the values its arguments evaluate to in `ctx`.
pub open spec fn roundup_reads<'r, N: Number, R: Resolver<N>>(ctx: EvalCtx<'r, R>, args: Seq<Expr<N>>, r: Value<N>) -> bool {
    &&& two_num_read(ctx, args, (|x: N, y: N| spec_round_dir(x, y, true)), r)
}

/// `ROUNDUP(x, digits)` — round the magnitude away from zero.
pub fn roundup<N: Number, R: Resolver<N>>(ctx: &mut EvalCtx<R>, args: &[Expr<N>]) -> (r: Value<N>)
    requires
        args.len() == 2,
    ensures
        restored(*old(ctx), *final(ctx)),
        r is Number || r is Error,
        room(*old(ctx)) ==> (lit_num(args[0]) matches Some(x) ==> (lit_num(args[1]) matches Some(y) ==> r == spec_round_dir(x, y, true))),
        two_num_read(*old(ctx), args@, (|x: N, y: N| spec_round_dir(x, y, true)), r),
    decreases args_size(args@), 7nat,
{
    round_dir(ctx, args, true)
}

/// What [`rounddown`] is stated to give, for a context `ctx` and arguments `args`.
pub open spec fn rounddown_gives<'r, N: Number, R: Resolver<N>>(ctx: EvalCtx<'r, R>, args: Seq<Expr<N>>, r: Value<N>) -> bool {
    &&& r is Number || r is Error
    &&& room(ctx) ==> (lit_num(args[0]) matches Some(x) ==> (lit_num(args[1]) matches Some(y) ==> r == spec_round_dir(x, y, false)))
}

/// What [`rounddown`] is stated to give for the values its arguments evaluate to in `ctx`.
pub open spec fn rounddown_reads<'r, N: Number, R: Resolver<N>>(ctx: EvalCtx<'r, R>, args: Seq<Expr<N>>, r: Value<N>) -> bool {
    &&& two_num_read(ctx, args, (|x: N, y: N| spec_round_dir(x, y, false)), r)
}

/// `ROUNDDOWN(x, digits)` — round the magnitude toward zero.
pub fn rounddown<N: Number, R: Resolver<N>>(ctx: &mut EvalCtx<R>, args: &[Expr<N>]) -> (r: Value<N>)
    requires
        args.len() == 2,
    ensures
        restored(*old(ctx), *final(ctx)),
        r is Number || r is Error,
        room(*old(ctx)) ==> (lit_num(args[0]) matches Some(x) ==> (lit_num(args[1]) matches Some(y) ==> r == spec_round_dir(x, y, false))),
        two_num_read(*old(ctx), args@, (|x: N, y: N| spec_round_dir(x, y, false)), r),
    decreases args_size(args@), 7nat,
{
    round_dir(ctx, args, false)
}

/// What [`int_fn`] is stated to give, for a context `ctx` and arguments `args`.
pub open spec fn int_fn_gives<'r, N: Number, R: Resolver<N>>(ctx: EvalCtx<'r, R>, args: Seq<Expr<N>>, r: Value<N>) -> bool {
    &&& r is Number || r is Error
    &&& room(ctx) ==> (lit_num(args[0]) matches Some(x) ==> r == spec_int(x))
}

/// What [`int_fn`] is stated to give for the values its arguments evaluate to in `ctx`.
pub open spec fn int_fn_reads<'r, N: Number, R: Resolver<N>>(ctx: EvalCtx<'r, R>, args: Seq<Expr<N>>, r: Value<N>) -> bool {
    &&& one_num_read(ctx, args[0], (|x: N| spec_int(x)), r)
}

/// `INT(x)` — round down toward −∞.
pub fn int_fn<N: Number, R: Resolver<N>>(ctx: &mut EvalCtx<R>, args: &[Expr<N>]) -> (r: Value<N>)
    requires
        args.len() == 1,
    ensures
        restored(*old(ctx), *final(ctx)),
        r is Number || r is Error,
        room(*old(ctx)) ==> (lit_num(args[0]) matches Some(x) ==> r == spec_int(x)),
        one_num_read(*old(ctx), args@[0], (|x: N| spec_int(x)), r),
    decreases args_size(args@), 7nat,
{
    proof {
        lemma_arg_size(args@, 0);
    }
    match one_num(ctx, &args[0]) {
        Err(k) => Value::Error(k),
        Ok(n) => finite_or_num(n.floor_of()),
    }
}

/// What [`mod_fn`] is stated to give, for a context `ctx` and arguments `args`.
pub open spec fn mod_fn_gives<'r, N: Number, R: Resolver<N>>(ctx: EvalCtx<'r, R>, args: Seq<Expr<N>>, r: Value<N>) -> bool {
    &&& r is Number || r is Error
    &&& room(ctx) ==> (lit_num(args[0]) matches Some(x) ==> (lit_num(args[1]) matches Some(y) ==> r == spec_mod(x, y)))
}

/// What [`mod_fn`] is stated to give for the values its arguments evaluate to in `ctx`.
pub open spec fn mod_fn_reads<'r, N: Number, R: Resolver<N>>(ctx: EvalCtx<'r, R>, args: Seq<Expr<N>>, r: Value<N>) -> bool {
    &&& two_num_read(ctx, args, (|x: N, y: N| spec_mod(x, y)), r)
}

/// `MOD(n, divisor)` — `n − divisor·⌊n/divisor⌋`, so the sign follows the divisor; a zero divisor
/// is `#DIV/0!`.
pub fn mod_fn<N: Number, R: Resolver<N>>(ctx: &mut EvalCtx<R>, args: &[Expr<N>]) -> (r: Value<N>)
    requires
        args.len() == 2,
    ensures
        restored(*old(ctx), *final(ctx)),
        r is Number || r is Error,
        room(*old(ctx)) ==> (lit_num(args[0]) matches Some(x) ==> (lit_num(args[1]) matches Some(y) ==> r == spec_mod(x, y))),
        two_num_read(*old(ctx), args@, (|x: N, y: N| spec_mod(x, y)), r),
    decreases args_size(args@), 7nat,
{
    let (n, divisor) = match two_nums(ctx, args) {
        Ok(t) => t,
        Err(k) => {
            return Value::Error(k);
        },
    };
    if is_zero(divisor) {
        return Value::Error(ErrKind::Div0);
    }
    finite_or_num(n.minus(divisor.times(n.over(divisor).floor_of())))
}

/// What [`power_fn`] is stated to give, for a context `ctx` and arguments `args`.
pub open spec fn power_fn_gives<'r, N: Number, R: Resolver<N>>(ctx: EvalCtx<'r, R>, args: Seq<Expr<N>>, r: Value<N>) -> bool {
    &&& r is Number || r is Error
    &&& room(ctx) ==> (lit_num(args[0]) matches Some(x) ==> (lit_num(args[1]) matches Some(y) ==> r == spec_pow(x, y)))
}

/// What [`power_fn`] is stated to give for the values its arguments evaluate to in `ctx`.
pub open spec fn power_fn_reads<'r, N: Number, R: Resolver<N>>(ctx: EvalCtx<'r, R>, args: Seq<Expr<N>>, r: Value<N>) -> bool {
    &&& two_num_read(ctx, args, (|x: N, y: N| spec_pow(x, y)), r)
}

/// `POWER(x, y)` — shares [`pow`] with the `^` operator.
pub fn power_fn<N: Number, R: Resolver<N>>(ctx: &mut EvalCtx<R>, args: &[Expr<N>]) -> (r: Value<N>)
    requires
        args.len() == 2,
    ensures
        restored(*old(ctx), *final(ctx)),
        r is Number || r is Error,
        room(*old(ctx)) ==> (lit_num(args[0]) matches Some(x) ==> (lit_num(args[1]) matches Some(y) ==> r == spec_pow(x, y))),
        two_num_read(*old(ctx), args@, (|x: N, y: N| spec_pow(x, y)), r),
    decreases args_size(args@), 7nat,
{
    match two_nums(ctx, args) {
        Ok((a, b)) => pow(a, b),
        Err(k) => Value::Error(k),
    }
}

/// What [`sqrt_fn`] is stated to give, for a context `ctx` and arguments `args`.
pub open spec fn sqrt_fn_gives<'r, N: Number, R: Resolver<N>>(ctx: EvalCtx<'r, R>, args: Seq<Expr<N>>, r: Value<N>) -> bool {
    &&& r is Number || r is Error
    &&& room(ctx) ==> (lit_num(args[0]) matches Some(x) ==> r == spec_sqrt(x))
}

/// What [`sqrt_fn`] is stated to give for the values its arguments evaluate to in `ctx`.
pub open spec fn sqrt_fn_reads<'r, N: Number, R: Resolver<N>>(ctx: EvalCtx<'r, R>, args: Seq<Expr<N>>, r: Value<N>) -> bool {
    &&& one_num_read(ctx, args[0], (|x: N| spec_sqrt(x)), r)
}

/// `SQRT(x)` — the non-negative square root; a negative argument is `#NUM!`.
pub fn sqrt_fn<N: Number, R: Resolver<N>>(ctx: &mut EvalCtx<R>, args: &[Expr<N>]) -> (r: Value<N>)
    requires
        args.len() == 1,
    ensures
        restored(*old(ctx), *final(ctx)),
        r is Number || r is Error,
        room(*old(ctx)) ==> (lit_num(args[0]) matches Some(x) ==> r == spec_sqrt(x)),
        one_num_read(*old(ctx), args@[0], (|x: N| spec_sqrt(x)), r),
    decreases args_size(args@), 7nat,
{
    proof {
        lemma_arg_size(args@, 0);
    }
    match one_num(ctx, &args[0]) {
        Err(k) => Value::Error(k),
        Ok(n) => {
            if less_than(n, N::from_int(0)) {
                Value::Error(ErrKind::Num)
            } else {
                finite_or_num(n.square_root())
            }
        },
    }
}

/// What [`ceiling_fn`] is stated to give, for a context `ctx` and arguments `args`.
pub open spec fn ceiling_fn_gives<'r, N: Number, R: Resolver<N>>(ctx: EvalCtx<'r, R>, args: Seq<Expr<N>>, r: Value<N>) -> bool {
    &&& r is Number || r is Error
    &&& room(ctx) ==> (lit_num(args[0]) matches Some(x) ==> (lit_num(args[1]) matches Some(y) ==> r == spec_ceiling_floor(x, y, true)))
}

/// What [`ceiling_fn`] is stated to give for the values its arguments evaluate to in `ctx`.
pub open spec fn ceiling_fn_reads<'r, N: Number, R: Resolver<N>>(ctx: EvalCtx<'r, R>, args: Seq<Expr<N>>, r: Value<N>) -> bool {
    &&& two_num_read(ctx, args, (|x: N, y: N| spec_ceiling_floor(x, y, true)), r)
}

/// `CEILING(number, significance)` — round away from zero to a multiple of `significance`;
/// different signs are `#NUM!`, a zero significance returns `0`.
pub fn ceiling_fn<N: Number, R: Resolver<N>>(ctx: &mut EvalCtx<R>, args: &[Expr<N>]) -> (r: Value<N>)
    requires
        args.len() == 2,
    ensures
        restored(*old(ctx), *final(ctx)),
        r is Number || r is Error,
        room(*old(ctx)) ==> (lit_num(args[0]) matches Some(x) ==> (lit_num(args[1]) matches Some(y) ==> r == spec_ceiling_floor(x, y, true))),
        two_num_read(*old(ctx), args@, (|x: N, y: N| spec_ceiling_floor(x, y, true)), r),
    decreases args_size(args@), 7nat,
{
    let (number, significance) = match two_nums(ctx, args) {
        Ok(t) => t,
        Err(k) => {
            return Value::Error(k);
        },
    };
    if is_zero(significance) {
        return Value::Number(N::from_int(0));
    }
    if less_than(number.times(significance), N::from_int(0)) {
        return Value::Error(ErrKind::Num);
    }
    finite_or_num(significance.times(number.over(significance).ceil_of()))
}

/// What [`floor_fn`] is stated to give, for a context `ctx` and arguments `args`.
pub open spec fn floor_fn_gives<'r, N: Number, R: Resolver<N>>(ctx: EvalCtx<'r, R>, args: Seq<Expr<N>>, r: Value<N>) -> bool {
    &&& r is Number || r is Error
    &&& room(ctx) ==> (lit_num(args[0]) matches Some(x) ==> (lit_num(args[1]) matches Some(y) ==> r == spec_ceiling_floor(x, y, false)))
}

/// What [`floor_fn`] is stated to give for the values its arguments evaluate to in `ctx`.
pub open spec fn floor_fn_reads<'r, N: Number, R: Resolver<N>>(ctx: EvalCtx<'r, R>, args: Seq<Expr<N>>, r: Value<N>) -> bool {
    &&& two_num_read(ctx, args, (|x: N, y: N| spec_ceiling_floor(x, y, false)), r)
}

/// `FLOOR(number, significance)` — round toward zero to a multiple of `significance`; different
/// signs are `#NUM!`, a zero significance is `#DIV/0!`.
pub fn floor_fn<N: Number, R: Resolver<N>>(ctx: &mut EvalCtx<R>, args: &[Expr<N>]) -> (r: Value<N>)
    requires
        args.len() == 2,
    ensures
        restored(*old(ctx), *final(ctx)),
        r is Number || r is Error,
        room(*old(ctx)) ==> (lit_num(args[0]) matches Some(x) ==> (lit_num(args[1]) matches Some(y) ==> r == spec_ceiling_floor(x, y, false))),
        two_num_read(*old(ctx), args@, (|x: N, y: N| spec_ceiling_floor(x, y, false)), r),
    decreases args_size(args@), 7nat,
{
    let (number, significance) = match two_nums(ctx, args) {
        Ok(t) => t,
        Err(k) => {
            return Value::Error(k);
        },
    };
    if is_zero(significance) {
        return Value::Error(ErrKind::Div0);
    }
    if less_than(number.times(significance), N::from_int(0)) {
        return Value::Error(ErrKind::Num);
    }
    finite_or_num(significance.times(number.over(significance).floor_of()))
}

} // verus!
