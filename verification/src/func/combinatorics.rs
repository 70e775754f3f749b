//! Integer and counting functions: `GCD`, `LCM`, `FACT`, `COMBIN`. Arguments truncate toward zero;
//! a negative or out-of-domain argument is `#NUM!`, and integer results stay exact below `2^53`.

use vstd::prelude::*;
use crate::func::helpers::one_num_read;
use crate::eval::{less_than, restored, EvalCtx};
use crate::expr::{args_size, lemma_arg_size, Expr, Resolver};
use crate::func::helpers::{all_lit_nums, collect_numbers, finite_or_num, lit_num, lit_nums, one_num, room, spec_finite_or_num};
use crate::value::{ErrKind, Number, Order, Value};

verus! {

/// `2^53`: the integers below it are exactly representable in double precision.
pub const MAX_EXACT_INT: u64 = 9_007_199_254_740_992;

/// The greatest common divisor by Euclid's algorithm (`gcd(a, 0) = a`).
pub open spec fn spec_gcd(a: nat, b: nat) -> nat
    decreases b,
{
    if b == 0 {
        a
    } else {
        spec_gcd(b, a % b)
    }
}

/// Euclid's algorithm on two unsigned integers (see [`spec_gcd`]).
pub fn gcd2(a: u64, b: u64) -> (r: u64)
    ensures
        r == spec_gcd(a as nat, b as nat),
{
    let mut x = a;
    let mut y = b;
    while y != 0
        invariant
            spec_gcd(x as nat, y as nat) == spec_gcd(a as nat, b as nat),
        decreases y,
    {
        let t = x % y;
        x = y;
        y = t;
    }
    x
}

/// `d` divides `x`: `x` is `d` times some natural number.
pub open spec fn divides(d: nat, x: nat) -> bool {
    exists|k: nat| x == #[trigger] (d * k)
}

/// Euclid's step keeps common divisors: one of `b` and `a mod b` divides `a`.
proof fn lemma_divides_from_remainder(a: nat, b: nat, g: nat)
    requires
        b > 0,
        divides(g, b),
        divides(g, a % b),
    ensures
        divides(g, a),
{
    let k1 = choose|k: nat| b == #[trigger] (g * k);
    let k2 = choose|k: nat| a % b == #[trigger] (g * k);
    let q = a / b;
    assert(a == b * q + a % b) by (nonlinear_arith)
        requires
            b > 0,
            q == a / b,
    ;
    let k: nat = k1 * q + k2;
    assert(a == g * k) by (nonlinear_arith)
        requires
            a == b * q + a % b,
            b == g * k1,
            a % b == g * k2,
            k == k1 * q + k2,
    ;
}

/// Euclid's step keeps common divisors: a divisor of `a` and `b` divides `a mod b`.
proof fn lemma_divides_remainder(a: nat, b: nat, d: nat)
    requires
        b > 0,
        divides(d, a),
        divides(d, b),
    ensures
        divides(d, a % b),
{
    let ka = choose|k: nat| a == #[trigger] (d * k);
    let kb = choose|k: nat| b == #[trigger] (d * k);
    let q = a / b;
    assert(a == b * q + a % b) by (nonlinear_arith)
        requires
            b > 0,
            q == a / b,
    ;
    assert(d > 0) by (nonlinear_arith)
        requires
            b == d * kb,
            b > 0,
    ;
    assert(d * (ka - kb * q) == d * ka - d * (kb * q)) by (nonlinear_arith);
    assert(d * (kb * q) == (d * kb) * q) by (nonlinear_arith);
    assert(d * (ka - kb * q) == a % b);
    assert(ka - kb * q >= 0) by (nonlinear_arith)
        requires
            d * (ka - kb * q) == a % b,
            d > 0,
            a % b >= 0,
    ;
    let k: nat = (ka - kb * q) as nat;
    assert(a % b == d * k);
}

/// `GCD` computes the greatest common divisor: Euclid's result divides both numbers, and every
/// common divisor of them divides it.
pub proof fn law_gcd_is_greatest_common_divisor(a: nat, b: nat, d: nat)
    ensures
        divides(spec_gcd(a, b), a),
        divides(spec_gcd(a, b), b),
        divides(d, a) && divides(d, b) ==> divides(d, spec_gcd(a, b)),
    decreases b,
{
    if b == 0 {
        assert(a == a * 1nat);
        assert(b == a * 0nat);
    } else {
        let g = spec_gcd(a, b);
        assert(g == spec_gcd(b, a % b));
        law_gcd_is_greatest_common_divisor(b, a % b, d);
        lemma_divides_from_remainder(a, b, g);
        if divides(d, a) && divides(d, b) {
            lemma_divides_remainder(a, b, d);
        }
    }
}

/// The gcd of a positive number with anything is positive and no larger than it.
proof fn lemma_gcd_positive(a: nat, b: nat)
    requires
        b > 0,
    ensures
        0 < spec_gcd(a, b) <= b,
    decreases b,
{
    assert(spec_gcd(a, b) == spec_gcd(b, a % b));
    if a % b > 0 {
        lemma_gcd_positive(b, a % b);
    } else {
        assert(spec_gcd(b, 0) == b);
    }
}

/// The `GCD` of a list: `gcd` folded from 0 over it.
pub open spec fn gcd_all(xs: Seq<u64>) -> nat
    decreases xs.len(),
{
    if xs.len() == 0 {
        0
    } else {
        spec_gcd(gcd_all(xs.drop_last()), xs.last() as nat)
    }
}

/// The greatest common divisor of a list never exceeds its largest magnitude bound.
proof fn lemma_gcd_all_bound(xs: Seq<u64>, bound: nat)
    requires
        forall|i: int| 0 <= i < xs.len() ==> (#[trigger] xs[i] as nat) < bound,
    ensures
        gcd_all(xs) < bound || xs.len() == 0,
    decreases xs.len(),
{
    if xs.len() > 0 {
        let prefix = xs.drop_last();
        lemma_gcd_all_bound(prefix, bound);
        if xs.last() > 0 {
            lemma_gcd_positive(gcd_all(prefix), xs.last() as nat);
        } else {
            assert(gcd_all(xs) == gcd_all(prefix));
            if prefix.len() == 0 {
                assert(gcd_all(xs) == 0);
            }
        }
    }
}

/// Fold `gcd` over a list (see [`gcd_all`]).
pub fn gcd_list(xs: &Vec<u64>) -> (r: u64)
    ensures
        r == gcd_all(xs@),
{
    let mut acc: u64 = 0;
    let mut i: usize = 0;
    while i < xs.len()
        invariant
            i <= xs@.len(),
            acc == gcd_all(xs@.subrange(0, i as int)),
        decreases xs@.len() - i,
    {
        proof {
            assert(xs@.subrange(0, i + 1).drop_last() == xs@.subrange(0, i as int));
        }
        acc = gcd2(acc, xs[i]);
        i = i + 1;
    }
    proof {
        assert(xs@.subrange(0, xs@.len() as int) == xs@);
    }
    acc
}

/// The state of an `LCM` fold: a running multiple, a zero argument seen, or a result past `2^53`.
pub enum LcmState {
    Running(nat),
    Zero,
    TooBig,
}

/// One `LCM` step: a zero argument makes the result 0; otherwise the running value becomes
/// `acc / gcd(acc mod x, x) · x`, and reaching `2^53` stops the fold.
pub open spec fn lcm_step(st: LcmState, x: nat) -> LcmState {
    match st {
        LcmState::Running(acc) => if x == 0 {
            LcmState::Zero
        } else {
            let next = acc / spec_gcd(acc % x, x) * x;
            if next >= MAX_EXACT_INT { LcmState::TooBig } else { LcmState::Running(next) }
        },
        other => other,
    }
}

/// The `LCM` fold over a list, starting from 1.
pub open spec fn lcm_all(xs: Seq<u64>) -> LcmState
    decreases xs.len(),
{
    if xs.len() == 0 {
        LcmState::Running(1)
    } else {
        lcm_step(lcm_all(xs.drop_last()), xs.last() as nat)
    }
}

/// Fold `LCM` over a list of values below `2^53` (see [`lcm_all`]): `Ok(lcm)`, `Ok(0)` for a zero
/// argument, or `#NUM!` past `2^53`.
pub fn lcm_list(xs: &Vec<u64>) -> (r: Result<u64, ErrKind>)
    requires
        forall|i: int| 0 <= i < xs@.len() ==> (#[trigger] xs@[i]) < MAX_EXACT_INT,
    ensures
        match lcm_all(xs@) {
            LcmState::Running(v) => r == Ok::<u64, ErrKind>(v as u64) && v < MAX_EXACT_INT,
            LcmState::Zero => r == Ok::<u64, ErrKind>(0),
            LcmState::TooBig => r == Err::<u64, ErrKind>(ErrKind::Num),
        },
{
    let mut acc: u64 = 1;
    let mut i: usize = 0;
    while i < xs.len()
        invariant
            i <= xs@.len(),
            forall|j: int| 0 <= j < xs@.len() ==> (#[trigger] xs@[j]) < MAX_EXACT_INT,
            lcm_all(xs@.subrange(0, i as int)) == LcmState::Running(acc as nat),
            acc < MAX_EXACT_INT,
        decreases xs@.len() - i,
    {
        let ghost prefix = xs@.subrange(0, i + 1);
        proof {
            assert(prefix.drop_last() == xs@.subrange(0, i as int));
        }
        let x = xs[i];
        if x == 0 {
            proof {
                lemma_lcm_absorbs(xs@, i as int + 1);
            }
            return Ok(0);
        }
        let g = gcd2(acc % x, x);
        proof {
            lemma_gcd_positive((acc % x) as nat, x as nat);
        }
        let q = acc / g;
        assert(q * x <= acc * x) by (nonlinear_arith)
            requires
                q == acc / g,
                g > 0,
        ;
        assert(acc * x < MAX_EXACT_INT * MAX_EXACT_INT) by (nonlinear_arith)
            requires
                acc < MAX_EXACT_INT,
                x < MAX_EXACT_INT,
        ;
        let next: u128 = (q as u128) * (x as u128);
        if next >= MAX_EXACT_INT as u128 {
            proof {
                lemma_lcm_absorbs(xs@, i as int + 1);
            }
            return Err(ErrKind::Num);
        }
        acc = next as u64;
        i = i + 1;
    }
    proof {
        assert(xs@.subrange(0, xs@.len() as int) == xs@);
    }
    Ok(acc)
}

/// Once an `LCM` fold has stopped (a zero or a result past `2^53`), later arguments do not change it.
proof fn lemma_lcm_absorbs(xs: Seq<u64>, n: int)
    requires
        0 <= n <= xs.len(),
        !(lcm_all(xs.subrange(0, n)) is Running),
    ensures
        lcm_all(xs) == lcm_all(xs.subrange(0, n)),
    decreases xs.len() - n,
{
    if n < xs.len() {
        let next = xs.subrange(0, n + 1);
        assert(next.drop_last() == xs.subrange(0, n));
        lemma_lcm_absorbs(xs, n + 1);
    } else {
        assert(xs.subrange(0, n) == xs);
    }
}

/// Divisibility is transitive.
proof fn lemma_divides_trans(a: nat, b: nat, c: nat)
    requires
        divides(a, b),
        divides(b, c),
    ensures
        divides(a, c),
{
    let k1 = choose|k: nat| b == #[trigger] (a * k);
    let k2 = choose|k: nat| c == #[trigger] (b * k);
    let k: nat = k1 * k2;
    assert(c == a * k) by (nonlinear_arith)
        requires
            b == a * k1,
            c == b * k2,
            k == k1 * k2,
    ;
}

/// One `LCM` step from a running multiple `acc` by a non-zero `x` gives a multiple of both.
proof fn lemma_lcm_step_multiple(acc: nat, x: nat)
    requires
        x > 0,
    ensures
        divides(acc, acc / spec_gcd(acc % x, x) * x),
        divides(x, acc / spec_gcd(acc % x, x) * x),
{
    let g = spec_gcd(acc % x, x);
    law_gcd_is_greatest_common_divisor(acc % x, x, 0);
    lemma_gcd_positive(acc % x, x);
    lemma_divides_from_remainder(acc, x, g);
    let ka = choose|k: nat| acc == #[trigger] (g * k);
    let kx = choose|k: nat| x == #[trigger] (g * k);
    let q = acc / g;
    assert(q == ka) by (nonlinear_arith)
        requires
            acc == g * ka,
            g > 0,
            q == acc / g,
    ;
    let next = q * x;
    assert(next == acc * kx) by (nonlinear_arith)
        requires
            next == q * x,
            q == ka,
            acc == g * ka,
            x == g * kx,
    ;
    assert(next == x * q) by (nonlinear_arith)
        requires
            next == q * x,
    ;
}

/// `LCM` gives a common multiple: when the fold runs to a value, every argument divides it.
pub proof fn law_lcm_is_common_multiple(xs: Seq<u64>, i: int)
    requires
        lcm_all(xs) is Running,
        0 <= i < xs.len(),
    ensures
        divides(xs[i] as nat, lcm_all(xs)->Running_0),
    decreases xs.len(),
{
    let prefix = xs.drop_last();
    let x = xs.last() as nat;
    if !(lcm_all(prefix) is Running) {
        assert(lcm_step(lcm_all(prefix), x) == lcm_all(prefix));
    }
    let acc = lcm_all(prefix)->Running_0;
    assert(x > 0);
    lemma_lcm_step_multiple(acc, x);
    if i == xs.len() - 1 {
        assert(xs[i] as nat == x);
    } else {
        law_lcm_is_common_multiple(prefix, i);
        assert(prefix[i] == xs[i]);
        lemma_divides_trans(xs[i] as nat, acc, lcm_all(xs)->Running_0);
    }
}

/// One `GCD`/`LCM` datum as an integer: truncated toward zero; `None` (`#NUM!`) when negative or at
/// or past `2^53`.
pub open spec fn spec_nonneg_int<N: Number>(x: N) -> Option<u64> {
    let t = x.spec_trunc_of();
    if t.spec_order(N::spec_from_int(0)) == Some(Order::Less)
        || t.spec_order(N::spec_from_int(MAX_EXACT_INT as i64)) != Some(Order::Less)
        || t.spec_trunc_u64() >= MAX_EXACT_INT {
        None
    } else {
        Some(t.spec_trunc_u64())
    }
}

/// The integers of the first `n` data (see [`spec_nonneg_int`]), or `#NUM!` at the first that has
/// none.
pub open spec fn spec_gather_ints<N: Number>(nums: Seq<N>, n: int) -> Result<Seq<u64>, ErrKind>
    decreases n,
{
    if n <= 0 {
        Ok(Seq::<u64>::empty())
    } else {
        match spec_gather_ints(nums, n - 1) {
            Err(k) => Err(k),
            Ok(s) => match spec_nonneg_int(nums[n - 1]) {
                None => Err(ErrKind::Num),
                Some(v) => Ok(s.push(v)),
            },
        }
    }
}

/// Once the gathering of a prefix fails, every longer prefix fails the same way.
proof fn lemma_gather_err<N: Number>(nums: Seq<N>, i: int, n: int)
    requires
        0 <= i <= n,
        spec_gather_ints(nums, i) is Err,
    ensures
        spec_gather_ints(nums, n) == spec_gather_ints(nums, i),
    decreases n - i,
{
    if i < n {
        lemma_gather_err(nums, i, n - 1);
    }
}

/// Gather `GCD`/`LCM`'s integer arguments: each datum truncated toward zero; a negative one, or one
/// at or past `2^53`, is `#NUM!`.
fn gather_nonneg_ints<N: Number, R: Resolver<N>>(ctx: &mut EvalCtx<R>, args: &[Expr<N>]) -> (r: Result<Vec<u64>, ErrKind>)
    ensures
        restored(*old(ctx), *final(ctx)),
        r matches Ok(v) ==> forall|i: int| 0 <= i < v@.len() ==> (#[trigger] v@[i]) < MAX_EXACT_INT,
        room(*old(ctx)) && all_lit_nums(args@, 0, args@.len() as int) ==> match spec_gather_ints(lit_nums(args@, 0, args@.len() as int), args@.len() as int) {
            Ok(s) => r matches Ok(v) && v@ == s,
            Err(k) => r == Err::<Vec<u64>, ErrKind>(k),
        },
    decreases args_size(args@), 4nat,
{
    let nums = collect_numbers(ctx, args)?;
    let limit = N::from_int(MAX_EXACT_INT as i64);
    let mut ints: Vec<u64> = Vec::new();
    let mut i: usize = 0;
    while i < nums.len()
        invariant
            i <= nums@.len(),
            restored(*old(ctx), *ctx),
            forall|j: int| 0 <= j < ints@.len() ==> (#[trigger] ints@[j]) < MAX_EXACT_INT,
            spec_gather_ints(nums@, i as int) == Ok::<Seq<u64>, ErrKind>(ints@),
            limit == N::spec_from_int(MAX_EXACT_INT as i64),
            room(*old(ctx)) && all_lit_nums(args@, 0, args@.len() as int) ==> nums@ == lit_nums(args@, 0, args@.len() as int),
        decreases nums@.len() - i,
    {
        let t = nums[i].trunc_of();
        if less_than(t, N::from_int(0)) || !less_than(t, limit) {
            proof {
                assert(spec_nonneg_int(nums@[i as int]) is None);
                assert(spec_gather_ints(nums@, i + 1) is Err);
                lemma_gather_err(nums@, i + 1, nums@.len() as int);
            }
            return Err(ErrKind::Num);
        }
        let v = t.trunc_u64();
        if v >= MAX_EXACT_INT {
            proof {
                assert(spec_nonneg_int(nums@[i as int]) is None);
                assert(spec_gather_ints(nums@, i + 1) is Err);
                lemma_gather_err(nums@, i + 1, nums@.len() as int);
            }
            return Err(ErrKind::Num);
        }
        proof {
            assert(spec_nonneg_int(nums@[i as int]) == Some(v));
        }
        ints.push(v);
        proof {
            assert(spec_gather_ints(nums@, i + 1) == Ok::<Seq<u64>, ErrKind>(ints@));
        }
        i = i + 1;
    }
    Ok(ints)
}

/// What [`gcd_fn`] is stated to give, for a context `ctx` and arguments `args`.
pub open spec fn gcd_fn_gives<'r, N: Number, R: Resolver<N>>(ctx: EvalCtx<'r, R>, args: Seq<Expr<N>>, r: Value<N>) -> bool {
    &&& r is Number || r is Error
    &&& room(ctx) && all_lit_nums(args, 0, args.len() as int) ==> r == match spec_gather_ints(lit_nums(args, 0, args.len() as int), args.len() as int) {
        Ok(s) => Value::<N>::Number(N::spec_from_int(gcd_all(s) as i64)),
        Err(k) => Value::<N>::Error(k),
    }
}

/// `GCD(a, b, …)` — the greatest common divisor of the truncated arguments (see [`gcd_all`]); no
/// numeric datum, or all zeros, gives 0.
pub fn gcd_fn<N: Number, R: Resolver<N>>(ctx: &mut EvalCtx<R>, args: &[Expr<N>]) -> (r: Value<N>)
    ensures
        restored(*old(ctx), *final(ctx)),
        r is Number || r is Error,
        room(*old(ctx)) && all_lit_nums(args@, 0, args@.len() as int) ==> r == match spec_gather_ints(lit_nums(args@, 0, args@.len() as int), args@.len() as int) {
            Ok(s) => Value::<N>::Number(N::spec_from_int(gcd_all(s) as i64)),
            Err(k) => Value::<N>::Error(k),
        },
    decreases args_size(args@), 7nat,
{
    match gather_nonneg_ints(ctx, args) {
        Err(k) => Value::Error(k),
        Ok(ints) => {
            let g = gcd_list(&ints);
            proof {
                lemma_gcd_all_bound(ints@, MAX_EXACT_INT as nat);
            }
            Value::Number(N::from_int(g as i64))
        },
    }
}

/// What [`lcm_fn`] is stated to give, for a context `ctx` and arguments `args`.
pub open spec fn lcm_fn_gives<'r, N: Number, R: Resolver<N>>(ctx: EvalCtx<'r, R>, args: Seq<Expr<N>>, r: Value<N>) -> bool {
    &&& r is Number || r is Error
    &&& room(ctx) && all_lit_nums(args, 0, args.len() as int) ==> r == match spec_gather_ints(lit_nums(args, 0, args.len() as int), args.len() as int) {
        Ok(s) => match lcm_all(s) {
            LcmState::Running(v) => Value::<N>::Number(N::spec_from_int(v as i64)),
            LcmState::Zero => Value::<N>::Number(N::spec_from_int(0)),
            LcmState::TooBig => Value::<N>::Error(ErrKind::Num),
        },
        Err(k) => Value::<N>::Error(k),
    }
}

/// `LCM(a, b, …)` — the least common multiple of the truncated arguments (see [`lcm_list`]).
pub fn lcm_fn<N: Number, R: Resolver<N>>(ctx: &mut EvalCtx<R>, args: &[Expr<N>]) -> (r: Value<N>)
    ensures
        restored(*old(ctx), *final(ctx)),
        r is Number || r is Error,
        room(*old(ctx)) && all_lit_nums(args@, 0, args@.len() as int) ==> r == match spec_gather_ints(lit_nums(args@, 0, args@.len() as int), args@.len() as int) {
            Ok(s) => match lcm_all(s) {
                LcmState::Running(v) => Value::<N>::Number(N::spec_from_int(v as i64)),
                LcmState::Zero => Value::<N>::Number(N::spec_from_int(0)),
                LcmState::TooBig => Value::<N>::Error(ErrKind::Num),
            },
            Err(k) => Value::<N>::Error(k),
        },
    decreases args_size(args@), 7nat,
{
    match gather_nonneg_ints(ctx, args) {
        Err(k) => Value::Error(k),
        Ok(ints) => match lcm_list(&ints) {
            Ok(v) => Value::Number(N::from_int(v as i64)),
            Err(k) => Value::Error(k),
        },
    }
}

/// `2·3·…·top` multiplied out in the number domain.
pub open spec fn fact_product<N: Number>(top: int) -> N
    decreases top,
{
    if top < 2 { N::spec_from_int(1) } else { fact_product::<N>(top - 1).spec_times(N::spec_from_int(top as i64)) }
}

/// What `FACT` gives for a number: `#NUM!` for a negative or too-large truncation, else the product.
pub open spec fn spec_fact<N: Number>(x: N) -> Value<N> {
    let n = x.spec_trunc_of();
    if n.spec_order(N::spec_from_int(0)) == Some(Order::Less) || N::spec_from_int(170).spec_order(n) == Some(Order::Less)
        || !n.spec_finite() || n.spec_trunc_u64() > 170 {
        Value::Error(ErrKind::Num)
    } else {
        spec_finite_or_num(fact_product::<N>(n.spec_trunc_u64() as int))
    }
}

/// What [`fact_fn`] is stated to give, for a context `ctx` and arguments `args`.
pub open spec fn fact_fn_gives<'r, N: Number, R: Resolver<N>>(ctx: EvalCtx<'r, R>, args: Seq<Expr<N>>, r: Value<N>) -> bool {
    &&& r is Number || r is Error
    &&& room(ctx) ==> (lit_num(args[0]) matches Some(x) ==> r == spec_fact(x))
}

/// What [`fact_fn`] is stated to give for the values its arguments evaluate to in `ctx`.
pub open spec fn fact_fn_reads<'r, N: Number, R: Resolver<N>>(ctx: EvalCtx<'r, R>, args: Seq<Expr<N>>, r: Value<N>) -> bool {
    &&& one_num_read(ctx, args[0], (|x: N| spec_fact(x)), r)
}

/// `FACT(number)` — the factorial of the truncated argument, multiplied out in the number domain;
/// a negative argument, or one above 170 (where the result overflows), is `#NUM!`.
pub fn fact_fn<N: Number, R: Resolver<N>>(ctx: &mut EvalCtx<R>, args: &[Expr<N>]) -> (r: Value<N>)
    requires
        args.len() == 1,
    ensures
        restored(*old(ctx), *final(ctx)),
        r is Number || r is Error,
        room(*old(ctx)) ==> (lit_num(args[0]) matches Some(x) ==> r == spec_fact(x)),
        one_num_read(*old(ctx), args@[0], (|x: N| spec_fact(x)), r),
    decreases args_size(args@), 7nat,
{
    proof {
        lemma_arg_size(args@, 0);
    }
    let n = match one_num(ctx, &args[0]) {
        Ok(x) => x.trunc_of(),
        Err(k) => {
            return Value::Error(k);
        },
    };
    if less_than(n, N::from_int(0)) || less_than(N::from_int(170), n) || !n.finite() {
        return Value::Error(ErrKind::Num);
    }
    let top = n.trunc_u64();
    if top > 170 {
        return Value::Error(ErrKind::Num);
    }
    let mut r = N::from_int(1);
    let mut i: u64 = 2;
    while i <= top
        invariant
            top <= 170,
            2 <= i <= top + 2,
            i <= top + 1 || i == 2,
            r == fact_product::<N>(i - 1),
        decreases top + 1 - i,
    {
        r = r.times(N::from_int(i as i64));
        i = i + 1;
    }
    proof {
        assert(fact_product::<N>(0) == fact_product::<N>(1));
        if top >= 2 {
            assert(i == top + 1);
        } else {
            assert(i == 2);
        }
        assert(r == fact_product::<N>(top as int));
    }
    finite_or_num(r)
}

/// The binomial coefficient `C(n, k)`.
pub open spec fn binomial(n: nat, k: nat) -> nat
    decreases k,
{
    if k == 0 {
        1
    } else {
        binomial(n, (k - 1) as nat) * (n - (k - 1)) as nat / k
    }
}

/// `C(n, k)` computed exactly over `u128` by the multiplicative formula (each step's division is
/// exact), or `None` when a product overflows `u128`.
pub fn combin_exact(n: u64, k: u64) -> (r: Option<u128>)
    requires
        k <= n,
    ensures
        r matches Some(v) ==> v == binomial(n as nat, k as nat),
        r is None <==> exists|i: nat| i < k && #[trigger] binomial(n as nat, i) * (n - i) > u128::MAX,
{
    let mut acc: u128 = 1;
    let mut i: u64 = 0;
    while i < k
        invariant
            i <= k <= n,
            acc == binomial(n as nat, i as nat),
            forall|j: nat| j < i ==> #[trigger] binomial(n as nat, j) * (n - j) <= u128::MAX,
        decreases k - i,
    {
        let f = (n - i) as u128;
        let prod = match acc.checked_mul(f) {
            Some(p) => p,
            None => {
                assert(binomial(n as nat, i as nat) * (n - i) > u128::MAX);
                return None;
            },
        };
        acc = prod / (i as u128 + 1);
        i = i + 1;
    }
    Some(acc)
}

/// `C(n, i)` built by the multiplicative formula in the number domain, one factor pair per step.
pub open spec fn combin_product<N: Number>(n: u64, i: int) -> N
    decreases i,
{
    if i <= 0 {
        N::spec_from_int(1)
    } else {
        combin_product::<N>(n, i - 1).spec_over(N::spec_from_u128(i as u128)).spec_times(N::spec_from_u128((n - (i - 1)) as u128))
    }
}

/// What `COMBIN` gives for two numbers: `#NUM!` outside `0 <= k <= n` (after truncation), else
/// `C(n, k)` taken at the smaller of `k` and `n - k`, exactly when every partial product fits
/// `u128`, else by [`combin_product`].
pub open spec fn spec_combin<N: Number>(a: N, b: N) -> Value<N> {
    let n = a.spec_trunc_of();
    let k = b.spec_trunc_of();
    if n.spec_order(N::spec_from_int(0)) == Some(Order::Less) || k.spec_order(N::spec_from_int(0)) == Some(Order::Less)
        || n.spec_order(k) == Some(Order::Less) {
        Value::Error(ErrKind::Num)
    } else {
        let nu = n.spec_trunc_u64();
        let ku = k.spec_trunc_u64();
        if ku > nu {
            Value::Error(ErrKind::Num)
        } else {
            let ks: u64 = if ku <= nu - ku { ku } else { (nu - ku) as u64 };
            if forall|i: nat| i < ks ==> #[trigger] binomial(nu as nat, i) * (nu - i) <= u128::MAX {
                spec_finite_or_num(N::spec_from_u128(binomial(nu as nat, ks as nat) as u128))
            } else {
                spec_finite_or_num(combin_product::<N>(nu, ks as int))
            }
        }
    }
}

/// What [`combin_fn`] is stated to give, for a context `ctx` and arguments `args`.
pub open spec fn combin_fn_gives<'r, N: Number, R: Resolver<N>>(ctx: EvalCtx<'r, R>, args: Seq<Expr<N>>, r: Value<N>) -> bool {
    &&& r is Number || r is Error
    &&& room(ctx) ==> (lit_num(args[0]) matches Some(a) ==> (lit_num(args[1]) matches Some(b) ==> r == spec_combin(a, b)))
}

/// `COMBIN(number, number_chosen)` — the binomial coefficient of the truncated arguments: exact
/// (see [`combin_exact`]) and then rounded into the number domain, or, past `u128`, built by the
/// multiplicative formula in the number domain. `number_chosen` outside `0..=number` is `#NUM!`, as
/// is a result that overflows.
pub fn combin_fn<N: Number, R: Resolver<N>>(ctx: &mut EvalCtx<R>, args: &[Expr<N>]) -> (r: Value<N>)
    requires
        args.len() == 2,
    ensures
        restored(*old(ctx), *final(ctx)),
        r is Number || r is Error,
        room(*old(ctx)) ==> (lit_num(args[0]) matches Some(a) ==> (lit_num(args[1]) matches Some(b) ==> r == spec_combin(a, b))),
    decreases args_size(args@), 7nat,
{
    proof {
        lemma_arg_size(args@, 0);
        lemma_arg_size(args@, 1);
    }
    let n = match one_num(ctx, &args[0]) {
        Ok(x) => x.trunc_of(),
        Err(k) => {
            return Value::Error(k);
        },
    };
    let k = match one_num(ctx, &args[1]) {
        Ok(x) => x.trunc_of(),
        Err(e) => {
            return Value::Error(e);
        },
    };
    if less_than(n, N::from_int(0)) || less_than(k, N::from_int(0)) || less_than(n, k) {
        return Value::Error(ErrKind::Num);
    }
    let n_u = n.trunc_u64();
    let k_u = k.trunc_u64();
    if k_u > n_u {
        return Value::Error(ErrKind::Num);
    }
    let k_small = if k_u <= n_u - k_u { k_u } else { n_u - k_u };
    match combin_exact(n_u, k_small) {
        Some(exact) => finite_or_num(N::from_u128(exact)),
        None => {
            let mut r = N::from_int(1);
            let mut i: u64 = 0;
            while i < k_small
                invariant
                    k_small <= n_u,
                    i <= k_small,
                    r == combin_product::<N>(n_u, i as int),
                decreases k_small - i,
            {
                r = r.over(N::from_u128(i as u128 + 1)).times(N::from_u128((n_u - i) as u128));
                i = i + 1;
            }
            finite_or_num(r)
        },
    }
}

} // verus!
