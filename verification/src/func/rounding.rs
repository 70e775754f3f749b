//! More arithmetic: `TRUNC`, `SIGN`, `MROUND`, the `.MATH` rounders, `EVEN`, `ODD`, `SUMSQ` and
//! `QUOTIENT`.

use vstd::prelude::*;
use crate::func::helpers::two_num_read;
use crate::func::helpers::one_num_read;
use crate::eval::{less_than, restored, spec_is_zero, EvalCtx};
use crate::expr::{args_size, lemma_arg_size, Expr, Resolver};
use crate::func::helpers::{collected, all_lit_nums, collect_numbers, finite_or_num, lit_arg, lit_num, lit_nums, one_num, room, spec_finite_or_num, two_nums};
use crate::value::{ErrKind, Number, Order, Value};

verus! {

/// Whether a number equals zero in the number order.
fn is_zero_number<N: Number>(x: N) -> (r: bool)
    ensures
        r == spec_is_zero(x),
{
    x.order(N::from_int(0)) == Some(Order::Equal)
}

/// The sign `x` copies onto a magnitude: negated when `x` carries a negative sign.
pub open spec fn spec_with_sign_of<N: Number>(magnitude: N, x: N) -> N {
    if x.spec_sign_negative() { magnitude.spec_negate() } else { magnitude }
}

/// The sign `x` copies onto a magnitude (see [`spec_with_sign_of`]).
fn with_sign_of<N: Number>(magnitude: N, x: N) -> (r: N)
    ensures
        r == spec_with_sign_of(magnitude, x),
{
    if x.sign_negative() { magnitude.negate() } else { magnitude }
}

/// Ten to the power of the digit count truncated toward zero and clamped to `[-308, 308]`.
pub open spec fn spec_digit_factor<N: Number>(digits: N) -> N {
    let t = digits.spec_trunc_of();
    let e: i32 = if t.spec_order(N::spec_from_int(-308i64)) == Some(Order::Less) {
        -308i32
    } else if N::spec_from_int(308i64).spec_order(t) == Some(Order::Less) {
        308i32
    } else {
        let v = t.spec_trunc_int();
        if v < -308 { -308i32 } else if v > 308 { 308i32 } else { v as i32 }
    };
    N::spec_ten_to(e)
}

/// Ten to the power of the truncated, clamped digit count (see [`spec_digit_factor`]).
fn digit_factor<N: Number>(digits: N) -> (r: N)
    ensures
        r == spec_digit_factor(digits),
{
    let t = digits.trunc_of();
    let e: i32 = if less_than(t, N::from_int(-308)) {
        -308
    } else if less_than(N::from_int(308), t) {
        308
    } else {
        let v = t.trunc_int();
        if v < -308 { -308 } else if v > 308 { 308 } else { v as i32 }
    };
    N::ten_to(e)
}

/// What `TRUNC` gives for a number and a digit count.
pub open spec fn spec_trunc<N: Number>(n: N, digits: N) -> Value<N> {
    let f = spec_digit_factor(digits);
    spec_finite_or_num(n.spec_times(f).spec_trunc_of().spec_over(f))
}

/// What `MROUND` gives for a number and a multiple.
pub open spec fn spec_mround<N: Number>(n: N, m: N) -> Value<N> {
    if spec_is_zero(m) {
        Value::Number(N::spec_from_int(0))
    } else if n.spec_times(m).spec_order(N::spec_from_int(0)) == Some(Order::Less) {
        Value::Error(ErrKind::Num)
    } else {
        spec_finite_or_num(m.spec_times(n.spec_over(m).spec_round_of()))
    }
}

/// What `CEILING.MATH` (`up`) or `FLOOR.MATH` gives for a number, a significance and a mode.
pub open spec fn spec_round_math<N: Number>(n: N, sig: N, mode: N, up: bool) -> Value<N> {
    if spec_is_zero(sig) {
        Value::Number(N::spec_from_int(0))
    } else {
        let m = sig.spec_magnitude();
        let ratio = n.spec_over(m);
        let flip = !spec_is_zero(mode) && n.spec_order(N::spec_from_int(0)) == Some(Order::Less);
        let ceil = if up { !flip } else { flip };
        spec_finite_or_num(m.spec_times(if ceil { ratio.spec_ceil_of() } else { ratio.spec_floor_of() }))
    }
}

/// What `EVEN` gives for a number.
pub open spec fn spec_even<N: Number>(n: N) -> Value<N> {
    let two = N::spec_from_int(2);
    spec_finite_or_num(spec_with_sign_of(n.spec_magnitude().spec_over(two).spec_ceil_of().spec_times(two), n))
}

/// What `ODD` gives for a number.
pub open spec fn spec_odd<N: Number>(n: N) -> Value<N> {
    let one = N::spec_from_int(1);
    let two = N::spec_from_int(2);
    spec_finite_or_num(spec_with_sign_of(two.spec_times(n.spec_magnitude().spec_minus(one).spec_over(two).spec_ceil_of()).spec_plus(one), n))
}

/// The rounding functions in terms of the number operations: `EVEN` rounds the magnitude up to an
/// even whole number and `ODD` to an odd one (`2·ceil((|n|−1)/2) + 1`), each keeping the number's
/// sign; `MROUND` is `m·round(n/m)`, `0` for a zero multiple and `#NUM!` when `n` and `m` have
/// opposite signs; `TRUNC` truncates at the digit count like `ROUNDDOWN`.
pub proof fn law_rounding_forms<N: Number>(n: N, m: N)
    ensures
        ({
            let two = N::spec_from_int(2);
            let up = n.spec_magnitude().spec_over(two).spec_ceil_of().spec_times(two);
            spec_even(n) == spec_finite_or_num(if n.spec_sign_negative() { up.spec_negate() } else { up })
        }),
        ({
            let one = N::spec_from_int(1);
            let two = N::spec_from_int(2);
            let up = two.spec_times(n.spec_magnitude().spec_minus(one).spec_over(two).spec_ceil_of()).spec_plus(one);
            spec_odd(n) == spec_finite_or_num(if n.spec_sign_negative() { up.spec_negate() } else { up })
        }),
        spec_is_zero(m) ==> spec_mround(n, m) == Value::<N>::Number(N::spec_from_int(0)),
        !spec_is_zero(m) && n.spec_times(m).spec_order(N::spec_from_int(0)) == Some(Order::Less) ==> spec_mround(n, m) == Value::<N>::Error(ErrKind::Num),
        !spec_is_zero(m) && n.spec_times(m).spec_order(N::spec_from_int(0)) != Some(Order::Less) ==> spec_mround(n, m) == ({
            let q = n.spec_over(m).spec_round_of();
            spec_finite_or_num(m.spec_times(q))
        }),
        ({
            let f = spec_digit_factor(m);
            spec_trunc(n, m) == spec_finite_or_num(n.spec_times(f).spec_trunc_of().spec_over(f))
        }),
{
}

/// The sign of a number is `1` above zero, `−1` below and `0` otherwise; for a whole number it is
/// the integer's sign.
pub proof fn law_sign<N: Number>(x: N, i: i64)
    requires
        -0x20_0000_0000_0000 <= i <= 0x20_0000_0000_0000,
    ensures
        spec_sign(x) == 1 <==> x.spec_order(N::spec_from_int(0)) == Some(Order::Greater),
        spec_sign(x) == -1 <==> x.spec_order(N::spec_from_int(0)) == Some(Order::Less),
        spec_sign(N::spec_from_int(i)) == if i > 0 { 1int } else if i < 0 { -1int } else { 0int },
{
    N::law_exact_integers(i, 0);
}

/// `Σ x²` over a run, summed left to right from zero.
pub open spec fn sum_squares<N: Number>(s: Seq<N>) -> N
    decreases s.len(),
{
    if s.len() == 0 { N::spec_from_int(0) } else { sum_squares(s.drop_last()).spec_plus(s.last().spec_times(s.last())) }
}

/// What `QUOTIENT` gives for a numerator and a denominator.
pub open spec fn spec_quotient<N: Number>(n: N, d: N) -> Value<N> {
    if spec_is_zero(d) { Value::Error(ErrKind::Div0) } else { spec_finite_or_num(n.spec_over(d).spec_trunc_of()) }
}

/// What [`trunc_fn`] is stated to give, for a context `ctx` and arguments `args`.
pub open spec fn trunc_fn_gives<'r, N: Number, R: Resolver<N>>(ctx: EvalCtx<'r, R>, args: Seq<Expr<N>>, r: Value<N>) -> bool {
    &&& r is Number || r is Error
    &&& room(ctx) ==> (lit_num(args[0]) matches Some(x) ==> (lit_arg(args, 1, N::spec_from_int(0)) matches Some(y)
        ==> r == spec_trunc(x, y)))
}

/// `TRUNC(number, [num_digits])` — `number` truncated toward zero to `num_digits` decimals
/// (default 0; negative digits truncate left of the point).
pub fn trunc_fn<N: Number, R: Resolver<N>>(ctx: &mut EvalCtx<R>, args: &[Expr<N>]) -> (r: Value<N>)
    requires
        1 <= args.len() <= 2,
    ensures
        restored(*old(ctx), *final(ctx)),
        r is Number || r is Error,
        room(*old(ctx)) ==> (lit_num(args[0]) matches Some(x) ==> (lit_arg(args@, 1, N::spec_from_int(0)) matches Some(y)
            ==> r == spec_trunc(x, y))),
    decreases args_size(args@), 7nat,
{
    proof {
        lemma_arg_size(args@, 0);
    }
    let n = match one_num(ctx, &args[0]) {
        Ok(x) => x,
        Err(k) => {
            return Value::Error(k);
        },
    };
    let digits = if args.len() == 2 {
        proof {
            lemma_arg_size(args@, 1);
        }
        match one_num(ctx, &args[1]) {
            Ok(d) => d,
            Err(k) => {
                return Value::Error(k);
            },
        }
    } else {
        N::from_int(0)
    };
    let factor = digit_factor(digits);
    finite_or_num(n.times(factor).trunc_of().over(factor))
}

/// The sign of a number: 1 above zero, -1 below, 0 otherwise.
pub open spec fn spec_sign<N: Number>(x: N) -> int {
    if x.spec_order(N::spec_from_int(0)) == Some(Order::Greater) {
        1
    } else if x.spec_order(N::spec_from_int(0)) == Some(Order::Less) {
        -1
    } else {
        0
    }
}

/// The sign of a number (see [`spec_sign`]).
pub fn sign_of<N: Number>(n: N) -> (r: i64)
    ensures
        r == spec_sign(n),
{
    match n.order(N::from_int(0)) {
        Some(Order::Greater) => 1,
        Some(Order::Less) => -1,
        _ => 0,
    }
}

/// What [`sign_fn`] is stated to give, for a context `ctx` and arguments `args`.
pub open spec fn sign_fn_gives<'r, N: Number, R: Resolver<N>>(ctx: EvalCtx<'r, R>, args: Seq<Expr<N>>, r: Value<N>) -> bool {
    &&& r is Number || r is Error
    &&& room(ctx) ==> (lit_num(args[0]) matches Some(x) ==> r == Value::<N>::Number(N::spec_from_int(spec_sign(x) as i64)))
}

/// What [`sign_fn`] is stated to give for the values its arguments evaluate to in `ctx`.
pub open spec fn sign_fn_reads<'r, N: Number, R: Resolver<N>>(ctx: EvalCtx<'r, R>, args: Seq<Expr<N>>, r: Value<N>) -> bool {
    &&& one_num_read(ctx, args[0], (|x: N| Value::<N>::Number(N::spec_from_int(spec_sign(x) as i64))), r)
}

/// `SIGN(number)` — 1, -1 or 0 (see [`sign_of`]).
pub fn sign_fn<N: Number, R: Resolver<N>>(ctx: &mut EvalCtx<R>, args: &[Expr<N>]) -> (r: Value<N>)
    requires
        args.len() == 1,
    ensures
        restored(*old(ctx), *final(ctx)),
        r is Number || r is Error,
        room(*old(ctx)) ==> (lit_num(args[0]) matches Some(x) ==> r == Value::<N>::Number(N::spec_from_int(spec_sign(x) as i64))),
        one_num_read(*old(ctx), args@[0], (|x: N| Value::<N>::Number(N::spec_from_int(spec_sign(x) as i64))), r),
    decreases args_size(args@), 7nat,
{
    proof {
        lemma_arg_size(args@, 0);
    }
    match one_num(ctx, &args[0]) {
        Err(k) => Value::Error(k),
        Ok(n) => Value::Number(N::from_int(sign_of(n))),
    }
}

/// What [`mround_fn`] is stated to give, for a context `ctx` and arguments `args`.
pub open spec fn mround_fn_gives<'r, N: Number, R: Resolver<N>>(ctx: EvalCtx<'r, R>, args: Seq<Expr<N>>, r: Value<N>) -> bool {
    &&& r is Number || r is Error
    &&& room(ctx) ==> (lit_num(args[0]) matches Some(x) ==> (lit_num(args[1]) matches Some(y) ==> r == spec_mround(x, y)))
}

/// What [`mround_fn`] is stated to give for the values its arguments evaluate to in `ctx`.
pub open spec fn mround_fn_reads<'r, N: Number, R: Resolver<N>>(ctx: EvalCtx<'r, R>, args: Seq<Expr<N>>, r: Value<N>) -> bool {
    &&& two_num_read(ctx, args, (|x: N, y: N| spec_mround(x, y)), r)
}

/// `MROUND(number, multiple)` — `number` rounded to the nearest multiple (ties away from zero); a
/// zero multiple gives 0 and operands of opposite signs are `#NUM!`.
pub fn mround_fn<N: Number, R: Resolver<N>>(ctx: &mut EvalCtx<R>, args: &[Expr<N>]) -> (r: Value<N>)
    requires
        args.len() == 2,
    ensures
        restored(*old(ctx), *final(ctx)),
        r is Number || r is Error,
        room(*old(ctx)) ==> (lit_num(args[0]) matches Some(x) ==> (lit_num(args[1]) matches Some(y) ==> r == spec_mround(x, y))),
        two_num_read(*old(ctx), args@, (|x: N, y: N| spec_mround(x, y)), r),
    decreases args_size(args@), 7nat,
{
    let (number, multiple) = match two_nums(ctx, args) {
        Ok(t) => t,
        Err(k) => {
            return Value::Error(k);
        },
    };
    if is_zero_number(multiple) {
        return Value::Number(N::from_int(0));
    }
    if less_than(number.times(multiple), N::from_int(0)) {
        return Value::Error(ErrKind::Num);
    }
    finite_or_num(multiple.times(number.over(multiple).round_of()))
}

/// Shared body of `CEILING.MATH` (`up`) and `FLOOR.MATH`: round to a multiple of the significance's
/// magnitude (default 1; zero gives 0), toward +∞ or −∞ — with a nonzero `mode`, a negative number
/// rounds the other way.
fn round_math<N: Number, R: Resolver<N>>(ctx: &mut EvalCtx<R>, args: &[Expr<N>], up: bool) -> (r: Value<N>)
    requires
        1 <= args.len() <= 3,
    ensures
        restored(*old(ctx), *final(ctx)),
        r is Number || r is Error,
        room(*old(ctx)) ==> (lit_num(args[0]) matches Some(x) ==> (lit_arg(args@, 1, N::spec_from_int(1)) matches Some(y)
            ==> (lit_arg(args@, 2, N::spec_from_int(0)) matches Some(z) ==> r == spec_round_math(x, y, z, up)))),
    decreases args_size(args@), 6nat,
{
    proof {
        lemma_arg_size(args@, 0);
    }
    let number = match one_num(ctx, &args[0]) {
        Ok(x) => x,
        Err(k) => {
            return Value::Error(k);
        },
    };
    let significance = if args.len() >= 2 {
        proof {
            lemma_arg_size(args@, 1);
        }
        match one_num(ctx, &args[1]) {
            Ok(s) => s,
            Err(k) => {
                return Value::Error(k);
            },
        }
    } else {
        N::from_int(1)
    };
    let mode = if args.len() == 3 {
        proof {
            lemma_arg_size(args@, 2);
        }
        match one_num(ctx, &args[2]) {
            Ok(m) => m,
            Err(k) => {
                return Value::Error(k);
            },
        }
    } else {
        N::from_int(0)
    };
    if is_zero_number(significance) {
        return Value::Number(N::from_int(0));
    }
    let sig = significance.magnitude();
    let ratio = number.over(sig);
    let flip = !is_zero_number(mode) && less_than(number, N::from_int(0));
    let ceil = if up { !flip } else { flip };
    let rounded = if ceil { ratio.ceil_of() } else { ratio.floor_of() };
    finite_or_num(sig.times(rounded))
}

/// `CEILING.MATH(number, [significance], [mode])` — round toward +∞ (see [`round_math`]).
pub fn ceiling_math_fn<N: Number, R: Resolver<N>>(ctx: &mut EvalCtx<R>, args: &[Expr<N>]) -> (r: Value<N>)
    requires
        1 <= args.len() <= 3,
    ensures
        restored(*old(ctx), *final(ctx)),
        r is Number || r is Error,
        room(*old(ctx)) ==> (lit_num(args[0]) matches Some(x) ==> (lit_arg(args@, 1, N::spec_from_int(1)) matches Some(y)
            ==> (lit_arg(args@, 2, N::spec_from_int(0)) matches Some(z) ==> r == spec_round_math(x, y, z, true)))),
    decreases args_size(args@), 7nat,
{
    round_math(ctx, args, true)
}

/// `FLOOR.MATH(number, [significance], [mode])` — round toward −∞ (see [`round_math`]).
pub fn floor_math_fn<N: Number, R: Resolver<N>>(ctx: &mut EvalCtx<R>, args: &[Expr<N>]) -> (r: Value<N>)
    requires
        1 <= args.len() <= 3,
    ensures
        restored(*old(ctx), *final(ctx)),
        r is Number || r is Error,
        room(*old(ctx)) ==> (lit_num(args[0]) matches Some(x) ==> (lit_arg(args@, 1, N::spec_from_int(1)) matches Some(y)
            ==> (lit_arg(args@, 2, N::spec_from_int(0)) matches Some(z) ==> r == spec_round_math(x, y, z, false)))),
    decreases args_size(args@), 7nat,
{
    round_math(ctx, args, false)
}

/// What [`even_fn`] is stated to give, for a context `ctx` and arguments `args`.
pub open spec fn even_fn_gives<'r, N: Number, R: Resolver<N>>(ctx: EvalCtx<'r, R>, args: Seq<Expr<N>>, r: Value<N>) -> bool {
    &&& r is Number || r is Error
    &&& room(ctx) ==> (lit_num(args[0]) matches Some(x) ==> r == spec_even(x))
}

/// What [`even_fn`] is stated to give for the values its arguments evaluate to in `ctx`.
pub open spec fn even_fn_reads<'r, N: Number, R: Resolver<N>>(ctx: EvalCtx<'r, R>, args: Seq<Expr<N>>, r: Value<N>) -> bool {
    &&& one_num_read(ctx, args[0], (|x: N| spec_even(x)), r)
}

/// `EVEN(number)` — round away from zero to the nearest even integer.
pub fn even_fn<N: Number, R: Resolver<N>>(ctx: &mut EvalCtx<R>, args: &[Expr<N>]) -> (r: Value<N>)
    requires
        args.len() == 1,
    ensures
        restored(*old(ctx), *final(ctx)),
        r is Number || r is Error,
        room(*old(ctx)) ==> (lit_num(args[0]) matches Some(x) ==> r == spec_even(x)),
        one_num_read(*old(ctx), args@[0], (|x: N| spec_even(x)), r),
    decreases args_size(args@), 7nat,
{
    proof {
        lemma_arg_size(args@, 0);
    }
    match one_num(ctx, &args[0]) {
        Err(k) => Value::Error(k),
        Ok(n) => {
            let two = N::from_int(2);
            finite_or_num(with_sign_of(n.magnitude().over(two).ceil_of().times(two), n))
        },
    }
}

/// What [`odd_fn`] is stated to give, for a context `ctx` and arguments `args`.
pub open spec fn odd_fn_gives<'r, N: Number, R: Resolver<N>>(ctx: EvalCtx<'r, R>, args: Seq<Expr<N>>, r: Value<N>) -> bool {
    &&& r is Number || r is Error
    &&& room(ctx) ==> (lit_num(args[0]) matches Some(x) ==> r == spec_odd(x))
}

/// What [`odd_fn`] is stated to give for the values its arguments evaluate to in `ctx`.
pub open spec fn odd_fn_reads<'r, N: Number, R: Resolver<N>>(ctx: EvalCtx<'r, R>, args: Seq<Expr<N>>, r: Value<N>) -> bool {
    &&& one_num_read(ctx, args[0], (|x: N| spec_odd(x)), r)
}

/// `ODD(number)` — round away from zero to the nearest odd integer (`ODD(0)` is 1).
pub fn odd_fn<N: Number, R: Resolver<N>>(ctx: &mut EvalCtx<R>, args: &[Expr<N>]) -> (r: Value<N>)
    requires
        args.len() == 1,
    ensures
        restored(*old(ctx), *final(ctx)),
        r is Number || r is Error,
        room(*old(ctx)) ==> (lit_num(args[0]) matches Some(x) ==> r == spec_odd(x)),
        one_num_read(*old(ctx), args@[0], (|x: N| spec_odd(x)), r),
    decreases args_size(args@), 7nat,
{
    proof {
        lemma_arg_size(args@, 0);
    }
    match one_num(ctx, &args[0]) {
        Err(k) => Value::Error(k),
        Ok(n) => {
            let one = N::from_int(1);
            let two = N::from_int(2);
            let odd = two.times(n.magnitude().minus(one).over(two).ceil_of()).plus(one);
            finite_or_num(with_sign_of(odd, n))
        },
    }
}

/// What [`sumsq`] is stated to give, for a context `ctx` and arguments `args`.
pub open spec fn sumsq_gives<'r, N: Number, R: Resolver<N>>(ctx: EvalCtx<'r, R>, args: Seq<Expr<N>>, r: Value<N>) -> bool {
    &&& r is Number || r is Error
    &&& room(ctx) && all_lit_nums(args, 0, args.len() as int)
        ==> r == spec_finite_or_num(sum_squares(lit_nums(args, 0, args.len() as int)))
}

/// What [`sumsq`] is stated to give for the values its arguments evaluate to in `ctx`.
pub open spec fn sumsq_reads<'r, N: Number, R: Resolver<N>>(ctx: EvalCtx<'r, R>, args: Seq<Expr<N>>, r: Value<N>) -> bool {
    &&& exists|res: Result<Seq<N>, ErrKind>| #[trigger] collected(ctx, args, 0, args.len() as int, res) && r == match res {
        Err(k) => Value::<N>::Error(k),
        Ok(s) => spec_finite_or_num(sum_squares(s)),
    }
}

/// `SUMSQ(a, b, …)` — the sum of the squares of the numeric data (0 for none).
pub fn sumsq<N: Number, R: Resolver<N>>(ctx: &mut EvalCtx<R>, args: &[Expr<N>]) -> (r: Value<N>)
    ensures
        restored(*old(ctx), *final(ctx)),
        r is Number || r is Error,
        room(*old(ctx)) && all_lit_nums(args@, 0, args@.len() as int)
            ==> r == spec_finite_or_num(sum_squares(lit_nums(args@, 0, args@.len() as int))),
        exists|res: Result<Seq<N>, ErrKind>| #[trigger] collected(*old(ctx), args@, 0, args@.len() as int, res) && r == match res {
            Err(k) => Value::<N>::Error(k),
            Ok(s) => spec_finite_or_num(sum_squares(s)),
        },
    decreases args_size(args@), 7nat,
{
    match collect_numbers(ctx, args) {
        Err(k) => Value::Error(k),
        Ok(nums) => {
            let mut total = N::from_int(0);
            let mut i: usize = 0;
            while i < nums.len()
                invariant
                    i <= nums@.len(),
                    total == sum_squares(nums@.subrange(0, i as int)),
                decreases nums@.len() - i,
            {
                assert(nums@.subrange(0, i + 1).drop_last() =~= nums@.subrange(0, i as int));
                total = total.plus(nums[i].times(nums[i]));
                i = i + 1;
            }
            assert(nums@.subrange(0, nums@.len() as int) =~= nums@);
            finite_or_num(total)
        },
    }
}

/// What [`quotient_fn`] is stated to give, for a context `ctx` and arguments `args`.
pub open spec fn quotient_fn_gives<'r, N: Number, R: Resolver<N>>(ctx: EvalCtx<'r, R>, args: Seq<Expr<N>>, r: Value<N>) -> bool {
    &&& r is Number || r is Error
    &&& room(ctx) ==> (lit_num(args[0]) matches Some(x) ==> (lit_num(args[1]) matches Some(y) ==> r == spec_quotient(x, y)))
}

/// What [`quotient_fn`] is stated to give for the values its arguments evaluate to in `ctx`.
pub open spec fn quotient_fn_reads<'r, N: Number, R: Resolver<N>>(ctx: EvalCtx<'r, R>, args: Seq<Expr<N>>, r: Value<N>) -> bool {
    &&& two_num_read(ctx, args, (|x: N, y: N| spec_quotient(x, y)), r)
}

/// `QUOTIENT` is the integer portion of the division: for a non-zero denominator, the number's
/// truncation toward zero (`trunc_of`, the same rounding `TRUNC` applies) of the numerator over the
/// denominator, and `#NUM!` when that is not finite; a zero denominator is `#DIV/0!`. An exact
/// integer quotient comes back as that integer.
pub proof fn law_quotient_truncates<N: Number>(n: N, d: N)
    ensures
        spec_is_zero(d) ==> spec_quotient(n, d) == Value::<N>::Error(ErrKind::Div0),
        !spec_is_zero(d) ==> spec_quotient(n, d) == ({
            let q = n.spec_over(d);
            spec_finite_or_num(q.spec_trunc_of())
        }),
        forall|q: i64| -0x20_0000_0000_0000 <= q <= 0x20_0000_0000_0000 && !spec_is_zero(d) && n.spec_over(d) == N::spec_from_int(q)
            ==> #[trigger] N::spec_from_int(q).spec_trunc_of() == N::spec_from_int(q) && spec_quotient(n, d) == spec_finite_or_num(N::spec_from_int(q)),
{
    assert forall|q: i64| -0x20_0000_0000_0000 <= q <= 0x20_0000_0000_0000 && !spec_is_zero(d) && n.spec_over(d) == N::spec_from_int(q)
        implies #[trigger] N::spec_from_int(q).spec_trunc_of() == N::spec_from_int(q) && spec_quotient(n, d) == spec_finite_or_num(N::spec_from_int(q)) by {
        N::law_integral(q);
    }
}

/// `QUOTIENT(numerator, denominator)` — the quotient truncated toward zero; a zero denominator is
/// `#DIV/0!`.
pub fn quotient_fn<N: Number, R: Resolver<N>>(ctx: &mut EvalCtx<R>, args: &[Expr<N>]) -> (r: Value<N>)
    requires
        args.len() == 2,
    ensures
        restored(*old(ctx), *final(ctx)),
        r is Number || r is Error,
        room(*old(ctx)) ==> (lit_num(args[0]) matches Some(x) ==> (lit_num(args[1]) matches Some(y) ==> r == spec_quotient(x, y))),
        two_num_read(*old(ctx), args@, (|x: N, y: N| spec_quotient(x, y)), r),
    decreases args_size(args@), 7nat,
{
    let (numerator, denominator) = match two_nums(ctx, args) {
        Ok(t) => t,
        Err(k) => {
            return Value::Error(k);
        },
    };
    if is_zero_number(denominator) {
        return Value::Error(ErrKind::Div0);
    }
    finite_or_num(numerator.over(denominator).trunc_of())
}

} // verus!
