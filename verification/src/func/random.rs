//! The random functions `RAND` and `RANDBETWEEN`, which read their draw from the resolver's
//! randomness source (so a host can pin it).

use vstd::prelude::*;
use crate::eval::{less_than, restored, EvalCtx};
use crate::expr::{args_size, lemma_arg_size, Expr, Resolver};
use crate::func::helpers::{finite_or_num, lit_num, one_num, room, spec_finite_or_num};
use crate::value::{ErrKind, Number, Order, Value};

verus! {

/// `RAND()` — a draw in `[0, 1)` from the resolver's randomness source.
pub fn rand_fn<N: Number, R: Resolver<N>>(ctx: &mut EvalCtx<R>, args: &[Expr<N>]) -> (r: Value<N>)
    ensures
        restored(*old(ctx), *final(ctx)),
        r is Number,
{
    Value::Number(ctx.rand_unit())
}

/// The whole number a draw `u` picks in the band from `bottom` rounded up to `top` rounded down
/// (see [`randbetween_of`]).
pub open spec fn spec_randbetween<N: Number>(bottom: N, top: N, u: N) -> Value<N> {
    let lo = bottom.spec_ceil_of();
    let hi = top.spec_floor_of();
    if hi.spec_order(lo) == Some(Order::Less) {
        Value::Error(ErrKind::Num)
    } else {
        spec_finite_or_num(lo.spec_plus(u.spec_times(hi.spec_minus(lo).spec_plus(N::spec_from_int(1))).spec_floor_of()))
    }
}

/// A whole number between `bottom` rounded up and `top` rounded down, picked by a draw `u` in
/// `[0, 1)` as `⌈bottom⌉ + ⌊u·(⌊top⌋ − ⌈bottom⌉ + 1)⌋`; an empty band is `#NUM!`.
pub fn randbetween_of<N: Number>(bottom: N, top: N, u: N) -> (r: Value<N>)
    ensures
        r is Number || r is Error,
        r == spec_randbetween(bottom, top, u),
{
    let lo = bottom.ceil_of();
    let hi = top.floor_of();
    if less_than(hi, lo) {
        return Value::Error(ErrKind::Num);
    }
    let span = hi.minus(lo).plus(N::from_int(1));
    let offset = u.times(span).floor_of();
    finite_or_num(lo.plus(offset))
}

/// `RANDBETWEEN(bottom, top)` — a random whole number in the band (see [`randbetween_of`]), with
/// the draw read from the resolver's randomness source.
pub fn randbetween_fn<N: Number, R: Resolver<N>>(ctx: &mut EvalCtx<R>, args: &[Expr<N>]) -> (r: Value<N>)
    requires
        args.len() == 2,
    ensures
        restored(*old(ctx), *final(ctx)),
        r is Number || r is Error,
        room(*old(ctx)) ==> (lit_num(args[0]) matches Some(x) ==> (lit_num(args[1]) matches Some(y)
            ==> if y.spec_floor_of().spec_order(x.spec_ceil_of()) == Some(Order::Less) {
            r == Value::<N>::Error(ErrKind::Num)
        } else {
            exists|u: N| r == #[trigger] spec_randbetween(x, y, u)
        })),
    decreases args_size(args@), 7nat,
{
    proof {
        lemma_arg_size(args@, 0);
        lemma_arg_size(args@, 1);
    }
    let bottom = match one_num(ctx, &args[0]) {
        Ok(v) => v,
        Err(k) => {
            return Value::Error(k);
        },
    };
    let top = match one_num(ctx, &args[1]) {
        Ok(v) => v,
        Err(k) => {
            return Value::Error(k);
        },
    };
    if less_than(top.floor_of(), bottom.ceil_of()) {
        return Value::Error(ErrKind::Num);
    }
    let u = ctx.rand_unit();
    let res = randbetween_of(bottom, top, u);
    proof {
        assert(res == spec_randbetween(bottom, top, u));
    }
    res
}

} // verus!
