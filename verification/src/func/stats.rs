//! Statistical extremes and order: `MIN`, `MAX`, `MEDIAN`, `RANK`. Data gathering follows `SUM`'s
//! direct-vs-in-range rule; errors propagate. No numeric datum is `0` for `MIN`/`MAX` and `#NUM!`
//! for `MEDIAN`.

use vstd::prelude::*;
use crate::eval::{is_zero, lemma_restored_same, less_than, num_coercion, number_order, restored, spec_number_order, spec_scalarize, EvalCtx};
use crate::expr::{args_size, lemma_arg_size, Expr, Resolver};
use crate::func::helpers::{all_lit_nums, arg_value, block, collect_numbers, collected, finite_or_num, lit_arg, lit_coerced, lit_num, lit_nums, one_num, room, spec_block, spec_finite_or_num};
use crate::func::regression::{lemma_same_cells_numbers, numbers_in_order, ordered_numbers_of};
use crate::eval::spec_is_zero;
use crate::value::{ErrKind, Number, Order, Value};

verus! {

/// What [`min_fn`] is stated to give, for a context `ctx` and arguments `args`.
pub open spec fn min_fn_gives<'r, N: Number, R: Resolver<N>>(ctx: EvalCtx<'r, R>, args: Seq<Expr<N>>, r: Value<N>) -> bool {
    &&& r is Number || r is Error
    &&& room(ctx) && all_lit_nums(args, 0, args.len() as int)
        ==> r == spec_extreme_of(lit_nums(args, 0, args.len() as int), true)
}

/// What [`min_fn`] is stated to give for the values its arguments evaluate to in `ctx`.
pub open spec fn min_fn_reads<'r, N: Number, R: Resolver<N>>(ctx: EvalCtx<'r, R>, args: Seq<Expr<N>>, r: Value<N>) -> bool {
    &&& exists|res: Result<Seq<N>, ErrKind>| #[trigger] collected(ctx, args, 0, args.len() as int, res) && r == match res {
        Err(k) => Value::<N>::Error(k),
        Ok(s) => spec_extreme_of(s, true),
    }
}

/// `MIN(a, b, …)` — the smallest number among the data; none is `0`.
pub fn min_fn<N: Number, R: Resolver<N>>(ctx: &mut EvalCtx<R>, args: &[Expr<N>]) -> (r: Value<N>)
    requires
        args.len() >= 1,
    ensures
        restored(*old(ctx), *final(ctx)),
        r is Number || r is Error,
        room(*old(ctx)) && all_lit_nums(args@, 0, args@.len() as int)
            ==> r == spec_extreme_of(lit_nums(args@, 0, args@.len() as int), true),
        exists|res: Result<Seq<N>, ErrKind>| #[trigger] collected(*old(ctx), args@, 0, args@.len() as int, res) && r == match res {
            Err(k) => Value::<N>::Error(k),
            Ok(s) => spec_extreme_of(s, true),
        },
    decreases args_size(args@), 7nat,
{
    extreme(ctx, args, true)
}

/// What [`max_fn`] is stated to give, for a context `ctx` and arguments `args`.
pub open spec fn max_fn_gives<'r, N: Number, R: Resolver<N>>(ctx: EvalCtx<'r, R>, args: Seq<Expr<N>>, r: Value<N>) -> bool {
    &&& r is Number || r is Error
    &&& room(ctx) && all_lit_nums(args, 0, args.len() as int)
        ==> r == spec_extreme_of(lit_nums(args, 0, args.len() as int), false)
}

/// What [`max_fn`] is stated to give for the values its arguments evaluate to in `ctx`.
pub open spec fn max_fn_reads<'r, N: Number, R: Resolver<N>>(ctx: EvalCtx<'r, R>, args: Seq<Expr<N>>, r: Value<N>) -> bool {
    &&& exists|res: Result<Seq<N>, ErrKind>| #[trigger] collected(ctx, args, 0, args.len() as int, res) && r == match res {
        Err(k) => Value::<N>::Error(k),
        Ok(s) => spec_extreme_of(s, false),
    }
}

/// `MAX(a, b, …)` — the largest number among the data; none is `0`.
pub fn max_fn<N: Number, R: Resolver<N>>(ctx: &mut EvalCtx<R>, args: &[Expr<N>]) -> (r: Value<N>)
    requires
        args.len() >= 1,
    ensures
        restored(*old(ctx), *final(ctx)),
        r is Number || r is Error,
        room(*old(ctx)) && all_lit_nums(args@, 0, args@.len() as int)
            ==> r == spec_extreme_of(lit_nums(args@, 0, args@.len() as int), false),
        exists|res: Result<Seq<N>, ErrKind>| #[trigger] collected(*old(ctx), args@, 0, args@.len() as int, res) && r == match res {
            Err(k) => Value::<N>::Error(k),
            Ok(s) => spec_extreme_of(s, false),
        },
    decreases args_size(args@), 7nat,
{
    extreme(ctx, args, false)
}

/// The running extreme of a non-empty run from its first number: a later number replaces it when it
/// orders strictly below (`smallest`) or above it.
pub open spec fn run_extreme<N: Number>(s: Seq<N>, smallest: bool) -> N
    decreases s.len(),
{
    if s.len() <= 1 {
        s[0]
    } else {
        let acc = run_extreme(s.drop_last(), smallest);
        let x = s.last();
        if smallest {
            if x.spec_order(acc) == Some(Order::Less) { x } else { acc }
        } else {
            if acc.spec_order(x) == Some(Order::Less) { x } else { acc }
        }
    }
}

/// `MIN` / `MAX` take one of the numbers, and no number orders strictly below (for `MIN`) or above
/// (for `MAX`) it.
pub proof fn law_run_extreme_is_extreme<N: Number>(s: Seq<N>, smallest: bool)
    requires
        s.len() > 0,
    ensures
        exists|i: int| 0 <= i < s.len() && s[i] == run_extreme(s, smallest),
        forall|j: int| 0 <= j < s.len() ==> #[trigger] s[j].spec_order(run_extreme(s, smallest)) != Some(if smallest { Order::Less } else { Order::Greater }),
    decreases s.len(),
{
    let x = run_extreme(s, smallest);
    if s.len() == 1 {
        N::law_order(s[0], s[0], s[0]);
        assert(s[0] == x);
    } else {
        let p = s.drop_last();
        let n = s.last();
        law_run_extreme_is_extreme(p, smallest);
        let e = run_extreme(p, smallest);
        let i0 = choose|i: int| 0 <= i < p.len() && p[i] == e;
        assert(s[i0] == e);
        assert(s[s.len() - 1] == n);
        assert forall|j: int| 0 <= j < s.len() implies #[trigger] s[j].spec_order(x) != Some(if smallest { Order::Less } else { Order::Greater }) by {
            N::law_order(s[j], e, n);
            N::law_order(s[j], n, e);
            N::law_order(n, e, s[j]);
            N::law_order(e, n, s[j]);
            N::law_order(n, n, n);
            N::law_order(e, e, e);
            if j < p.len() {
                assert(s[j] == p[j]);
                assert(p[j].spec_order(e) != Some(if smallest { Order::Less } else { Order::Greater }));
            }
        }
    }
}

/// What `MIN` (`smallest`) or `MAX` gives for its numbers: `0` for none.
pub open spec fn spec_extreme_of<N: Number>(s: Seq<N>, smallest: bool) -> Value<N> {
    if s.len() == 0 { Value::Number(N::spec_from_int(0)) } else { spec_finite_or_num(run_extreme(s, smallest)) }
}

/// What `MEDIAN` gives for its numbers: `#NUM!` for none, else the middle of the sorted run (see
/// [`spec_sorted`]), the mean of the two middles for an even count.
pub open spec fn spec_median<N: Number>(nums: Seq<N>) -> Value<N> {
    let s = spec_sorted(nums);
    let n = s.len() as int;
    if n == 0 {
        Value::Error(ErrKind::Num)
    } else {
        spec_finite_or_num(if n % 2 == 1 { s[n / 2] } else { s[n / 2 - 1].spec_plus(s[n / 2]).spec_over(N::spec_from_int(2)) })
    }
}

/// Shared body of `MIN` (`smallest`) and `MAX`.
pub fn extreme<N: Number, R: Resolver<N>>(ctx: &mut EvalCtx<R>, args: &[Expr<N>], smallest: bool) -> (r: Value<N>)
    ensures
        restored(*old(ctx), *final(ctx)),
        r is Number || r is Error,
        room(*old(ctx)) && all_lit_nums(args@, 0, args@.len() as int)
            ==> r == spec_extreme_of(lit_nums(args@, 0, args@.len() as int), smallest),
        exists|res: Result<Seq<N>, ErrKind>| #[trigger] collected(*old(ctx), args@, 0, args@.len() as int, res) && r == match res {
            Err(k) => Value::<N>::Error(k),
            Ok(s) => spec_extreme_of(s, smallest),
        },
    decreases args_size(args@), 5nat,
{
    match collect_numbers(ctx, args) {
        Err(k) => Value::Error(k),
        Ok(nums) => {
            if nums.len() == 0 {
                return Value::Number(N::from_int(0));
            }
            let mut acc = nums[0];
            let mut i: usize = 1;
            assert(nums@.subrange(0, 1).len() == 1);
            while i < nums.len()
                invariant
                    1 <= i <= nums.len(),
                    acc == run_extreme(nums@.subrange(0, i as int), smallest),
                decreases nums.len() - i,
            {
                assert(nums@.subrange(0, i + 1).drop_last() =~= nums@.subrange(0, i as int));
                let x = nums[i];
                if smallest {
                    if less_than(x, acc) {
                        acc = x;
                    }
                } else if less_than(acc, x) {
                    acc = x;
                }
                i = i + 1;
            }
            assert(nums@.subrange(0, nums@.len() as int) =~= nums@);
            finite_or_num(acc)
        },
    }
}

/// `x` inserted into a run from its end: it moves before each last number it orders below
/// (unordered counts as equal) and stops at the first it does not.
pub open spec fn insert_sorted<N: Number>(s: Seq<N>, x: N) -> Seq<N>
    decreases s.len(),
{
    if s.len() == 0 {
        seq![x]
    } else if spec_number_order(x, s.last()) == Order::Less {
        insert_sorted(s.drop_last(), x).push(s.last())
    } else {
        s.push(x)
    }
}

/// A run sorted ascending by insertion: each number in turn inserted (see [`insert_sorted`]) into
/// the sorted run of those before it.
pub open spec fn spec_sorted<N: Number>(s: Seq<N>) -> Seq<N>
    decreases s.len(),
{
    if s.len() == 0 {
        s
    } else {
        insert_sorted(spec_sorted(s.drop_last()), s.last())
    }
}

/// The numbers of a run sorted ascending (see [`spec_sorted`]; unordered pairs count as equal).
pub fn sorted<N: Number>(nums: Vec<N>) -> (r: Vec<N>)
    ensures
        r@.len() == nums@.len(),
        r@.to_multiset() == nums@.to_multiset(),
        r@ == spec_sorted(nums@),
{
    let mut v = nums;
    if v.len() == 0 {
        return v;
    }
    let mut i: usize = 1;
    proof {
        let s1 = nums@.subrange(0, 1);
        assert(s1.drop_last() =~= Seq::<N>::empty());
        assert(s1.last() == nums@[0]);
        assert(spec_sorted(Seq::<N>::empty()) == Seq::<N>::empty());
        assert(v@.subrange(0, 1) =~= seq![nums@[0]]);
        assert(spec_sorted(s1) == insert_sorted(Seq::<N>::empty(), nums@[0]));
    }
    while i < v.len()
        invariant
            1 <= i <= v@.len(),
            v@.len() == nums@.len(),
            v@.to_multiset() == nums@.to_multiset(),
            v@.subrange(0, i as int) == spec_sorted(nums@.subrange(0, i as int)),
            v@.subrange(i as int, v@.len() as int) == nums@.subrange(i as int, nums@.len() as int),
        decreases v.len() - i,
    {
        let ghost pre = v@.subrange(0, i as int);
        let ghost rest = v@.subrange(i + 1, v@.len() as int);
        let ghost x = v@[i as int];
        proof {
            assert(x == nums@[i as int]) by {
                assert(v@.subrange(i as int, v@.len() as int)[0] == nums@.subrange(i as int, nums@.len() as int)[0]);
            }
            assert(nums@.subrange(0, i + 1).drop_last() =~= nums@.subrange(0, i as int));
            assert(v@ =~= pre.subrange(0, i as int) + seq![x] + pre.subrange(i as int, i as int) + rest);
            assert(pre.subrange(0, i as int) =~= pre);
            assert(insert_sorted(pre, x) =~= insert_sorted(pre.subrange(0, i as int), x) + pre.subrange(i as int, i as int));
            assert forall|k: int| 0 <= k < rest.len() implies rest[k] == nums@.subrange(i + 1, nums@.len() as int)[k] by {
                assert(rest[k] == v@.subrange(i as int, v@.len() as int)[k + 1]);
            }
            assert(rest =~= nums@.subrange(i + 1, nums@.len() as int));
        }
        let mut j: usize = i;
        while j > 0 && number_order(v[j], v[j - 1]) == Order::Less
            invariant
                j <= i < v@.len(),
                v@.len() == nums@.len(),
                v@.to_multiset() == nums@.to_multiset(),
                pre.len() == i,
                v@ == pre.subrange(0, j as int) + seq![x] + pre.subrange(j as int, i as int) + rest,
                insert_sorted(pre, x) == insert_sorted(pre.subrange(0, j as int), x) + pre.subrange(j as int, i as int),
            decreases j,
        {
            let a = v[j - 1];
            let b = v[j];
            proof {
                lemma_swap_keeps_multiset(v@, j - 1, j as int);
                assert(a == pre[j - 1]);
                assert(b == x);
                let p = pre.subrange(0, j as int);
                assert(p.drop_last() =~= pre.subrange(0, j - 1));
                assert(p.last() == pre[j - 1]);
                assert(insert_sorted(p, x) == insert_sorted(pre.subrange(0, j - 1), x).push(pre[j - 1]));
                assert(insert_sorted(pre, x) =~= insert_sorted(pre.subrange(0, j - 1), x) + pre.subrange(j - 1, i as int));
            }
            v.set(j - 1, b);
            v.set(j, a);
            j = j - 1;
            proof {
                assert(v@ =~= pre.subrange(0, j as int) + seq![x] + pre.subrange(j as int, i as int) + rest);
            }
        }
        proof {
            let p = pre.subrange(0, j as int);
            if j == 0 {
                assert(p =~= Seq::<N>::empty());
                assert(insert_sorted(p, x) == seq![x]);
            } else {
                assert(p.last() == pre[j - 1]);
                assert(insert_sorted(p, x) == p.push(x));
            }
            assert(v@.subrange(0, i + 1) =~= insert_sorted(p, x) + pre.subrange(j as int, i as int));
            assert(spec_sorted(nums@.subrange(0, i + 1)) == insert_sorted(spec_sorted(nums@.subrange(0, i as int)), x));
            assert(v@.subrange(i + 1, v@.len() as int) =~= rest);
            assert(rest =~= nums@.subrange(i + 1, nums@.len() as int));
        }
        i = i + 1;
    }
    proof {
        assert(v@.subrange(0, v@.len() as int) =~= v@);
        assert(nums@.subrange(0, nums@.len() as int) =~= nums@);
    }
    v
}

/// Swapping two entries of a sequence keeps its multiset of entries.
proof fn lemma_swap_keeps_multiset<A>(s: Seq<A>, i: int, j: int)
    requires
        0 <= i < s.len(),
        0 <= j < s.len(),
        i != j,
    ensures
        s.update(i, s[j]).update(j, s[i]).to_multiset() == s.to_multiset(),
{
    broadcast use vstd::seq_lib::to_multiset_update, vstd::multiset::group_multiset_axioms,
        vstd::seq_lib::to_multiset_contains;
    let m = s.to_multiset();
    let t = s.update(i, s[j]);
    assert(t[j] == s[j]);
    assert(m.count(s[i]) > 0) by {
        assert(s.contains(s[i]));
    }
    let m1 = m.insert(s[j]).remove(s[i]);
    let m2 = m1.insert(s[i]).remove(s[j]);
    assert forall|x: A| #[trigger] m2.count(x) == m.count(x) by {
        if x == s[i] && x == s[j] {
        } else if x == s[i] {
        } else if x == s[j] {
        } else {
        }
    }
    assert(m2 =~= m);
}

/// Whether every number of a run is ordered against itself (none is unordered).
pub open spec fn all_ordered<N: Number>(s: Seq<N>) -> bool {
    forall|i: int| 0 <= i < s.len() ==> (#[trigger] s[i]).spec_order(s[i]) is Some
}

/// Whether `a` orders at or below `b`.
pub open spec fn at_or_below<N: Number>(a: N, b: N) -> bool {
    a.spec_order(b) is Some && a.spec_order(b) != Some(Order::Greater)
}

/// Whether a run ascends: each number at or below every later one.
pub open spec fn runs_ascending<N: Number>(s: Seq<N>) -> bool {
    forall|i: int, j: int| 0 <= i < j < s.len() ==> at_or_below(#[trigger] s[i], #[trigger] s[j])
}

/// Inserting an ordered number into an ascending run of ordered numbers keeps it ascending and adds
/// just that number.
proof fn lemma_insert_sorted<N: Number>(s: Seq<N>, x: N)
    requires
        runs_ascending(s),
        all_ordered(s),
        x.spec_order(x) is Some,
    ensures
        runs_ascending(insert_sorted(s, x)),
        insert_sorted(s, x).len() == s.len() + 1,
        insert_sorted(s, x).to_multiset() == s.to_multiset().insert(x),
        forall|k: int| 0 <= k < insert_sorted(s, x).len() ==> #[trigger] insert_sorted(s, x)[k] == x
            || s.contains(insert_sorted(s, x)[k]),
    decreases s.len(),
{
    broadcast use vstd::seq_lib::to_multiset_build, vstd::multiset::group_multiset_axioms;
    let t = insert_sorted(s, x);
    if s.len() == 0 {
        assert(s =~= Seq::<N>::empty());
        assert(Seq::<N>::empty().push(x) =~= t);
    } else {
        let last = s.last();
        let sp = s.drop_last();
        assert(s =~= sp.push(last));
        assert(last.spec_order(last) is Some);
        N::law_order(x, last, x);
        N::law_order(last, x, last);
        assert forall|i: int, j: int| 0 <= i < j < sp.len() implies at_or_below(#[trigger] sp[i], #[trigger] sp[j]) by {
            assert(sp[i] == s[i] && sp[j] == s[j]);
        }
        assert forall|i: int| 0 <= i < sp.len() implies (#[trigger] sp[i]).spec_order(sp[i]) is Some by {
            assert(sp[i] == s[i]);
        }
        if spec_number_order(x, last) == Order::Less {
            lemma_insert_sorted(sp, x);
            let u = insert_sorted(sp, x);
            assert(t == u.push(last));
            assert forall|i: int, j: int| 0 <= i < j < t.len() implies at_or_below(#[trigger] t[i], #[trigger] t[j]) by {
                if j == u.len() {
                    assert(t[j] == last && t[i] == u[i]);
                    if u[i] != x {
                        let k = choose|k: int| 0 <= k < sp.len() && sp[k] == u[i];
                        assert(s[k] == sp[k] && s[s.len() - 1] == last);
                    }
                } else {
                    assert(t[i] == u[i] && t[j] == u[j]);
                }
            }
            assert(t.to_multiset() =~= s.to_multiset().insert(x));
            assert forall|k: int| 0 <= k < t.len() implies #[trigger] t[k] == x || s.contains(t[k]) by {
                if k < u.len() {
                    assert(t[k] == u[k]);
                    if u[k] != x {
                        let m = choose|m: int| 0 <= m < sp.len() && sp[m] == u[k];
                        assert(s[m] == sp[m]);
                    }
                } else {
                    assert(s[s.len() - 1] == t[k]);
                }
            }
        } else {
            assert(t == s.push(x));
            assert(at_or_below(last, x));
            assert forall|i: int, j: int| 0 <= i < j < t.len() implies at_or_below(#[trigger] t[i], #[trigger] t[j]) by {
                if j == s.len() {
                    assert(t[i] == s[i] && t[j] == x);
                    if i < s.len() - 1 {
                        assert(at_or_below(s[i], s[s.len() - 1]));
                        N::law_order(s[i], last, x);
                    }
                } else {
                    assert(t[i] == s[i] && t[j] == s[j]);
                }
            }
            assert forall|k: int| 0 <= k < t.len() implies #[trigger] t[k] == x || s.contains(t[k]) by {
                if k < s.len() {
                    assert(t[k] == s[k]);
                }
            }
        }
    }
}

/// Sorting (as `SORT`, `SMALL`, `LARGE`, `MEDIAN` and the percentiles use it) rearranges a run of
/// ordered numbers into ascending order: the sorted run holds the same numbers, each as often, and
/// each number is at or below every later one.
pub proof fn law_sorted_ascends<N: Number>(s: Seq<N>)
    requires
        all_ordered(s),
    ensures
        runs_ascending(spec_sorted(s)),
        spec_sorted(s).len() == s.len(),
        spec_sorted(s).to_multiset() == s.to_multiset(),
        forall|k: int| 0 <= k < spec_sorted(s).len() ==> s.contains(#[trigger] spec_sorted(s)[k]),
    decreases s.len(),
{
    broadcast use vstd::seq_lib::to_multiset_build;
    if s.len() > 0 {
        let sp = s.drop_last();
        let x = s.last();
        assert(s =~= sp.push(x));
        assert forall|i: int| 0 <= i < sp.len() implies (#[trigger] sp[i]).spec_order(sp[i]) is Some by {
            assert(sp[i] == s[i]);
        }
        law_sorted_ascends(sp);
        let u = spec_sorted(sp);
        assert forall|i: int| 0 <= i < u.len() implies (#[trigger] u[i]).spec_order(u[i]) is Some by {
            assert(sp.contains(u[i]));
            let m = choose|m: int| 0 <= m < sp.len() && sp[m] == u[i];
        }
        assert(x == s[s.len() - 1]);
        lemma_insert_sorted(u, x);
        let t = spec_sorted(s);
        assert(t == insert_sorted(u, x));
        assert forall|k: int| 0 <= k < t.len() implies s.contains(#[trigger] t[k]) by {
            if t[k] == x {
                assert(s[s.len() - 1] == t[k]);
            } else {
                assert(u.contains(t[k]));
                let m = choose|m: int| 0 <= m < u.len() && u[m] == t[k];
                assert(sp.contains(u[m]));
                let q = choose|q: int| 0 <= q < sp.len() && sp[q] == u[m];
                assert(s[q] == sp[q]);
            }
        }
    }
}

/// Sorting keeps the count of a run.
proof fn lemma_sorted_len<N: Number>(s: Seq<N>)
    ensures
        spec_sorted(s).len() == s.len(),
    decreases s.len(),
{
    if s.len() > 0 {
        lemma_sorted_len(s.drop_last());
        lemma_insert_len(spec_sorted(s.drop_last()), s.last());
    }
}

/// Inserting into a run adds one to its count.
proof fn lemma_insert_len<N: Number>(s: Seq<N>, x: N)
    ensures
        insert_sorted(s, x).len() == s.len() + 1,
    decreases s.len(),
{
    if s.len() > 0 && spec_number_order(x, s.last()) == Order::Less {
        lemma_insert_len(s.drop_last(), x);
    }
}

/// `MEDIAN` takes the centre of the sorted numbers: for an odd count the number with as many
/// sorted numbers before it as after it; for an even count the mean of the two numbers with as
/// many before the first as after the second; `#NUM!` for no number.
pub proof fn law_median_centre<N: Number>(nums: Seq<N>)
    ensures
        nums.len() == 0 ==> spec_median(nums) == Value::<N>::Error(ErrKind::Num),
        nums.len() % 2 == 1 ==> exists|i: int| 0 <= i < nums.len() && i == nums.len() - 1 - i
            && spec_median(nums) == spec_finite_or_num(#[trigger] spec_sorted(nums)[i]),
        nums.len() > 0 && nums.len() % 2 == 0 ==> exists|i: int| 0 <= i && i + 1 < nums.len() && i == nums.len() - 2 - i
            && spec_median(nums) == spec_finite_or_num(#[trigger] spec_sorted(nums)[i].spec_plus(spec_sorted(nums)[i + 1])
                .spec_over(N::spec_from_int(2))),
{
    lemma_sorted_len(nums);
    let n = nums.len() as int;
    let s = spec_sorted(nums);
    if n % 2 == 1 {
        assert(spec_median(nums) == spec_finite_or_num(s[n / 2]));
    } else if n > 0 {
        assert(spec_median(nums) == spec_finite_or_num(s[n / 2 - 1].spec_plus(s[n / 2 - 1 + 1]).spec_over(N::spec_from_int(2))));
    }
}

/// What [`median_fn`] is stated to give, for a context `ctx` and arguments `args`.
pub open spec fn median_fn_gives<'r, N: Number, R: Resolver<N>>(ctx: EvalCtx<'r, R>, args: Seq<Expr<N>>, r: Value<N>) -> bool {
    &&& r is Number || r is Error
    &&& room(ctx) && all_lit_nums(args, 0, args.len() as int)
        ==> r == spec_median(lit_nums(args, 0, args.len() as int))
}

/// What [`median_fn`] is stated to give for the values its arguments evaluate to in `ctx`.
pub open spec fn median_fn_reads<'r, N: Number, R: Resolver<N>>(ctx: EvalCtx<'r, R>, args: Seq<Expr<N>>, r: Value<N>) -> bool {
    &&& exists|res: Result<Seq<N>, ErrKind>| #[trigger] collected(ctx, args, 0, args.len() as int, res) && r == match res {
        Err(k) => Value::<N>::Error(k),
        Ok(s) => spec_median(s),
    }
}

/// `MEDIAN(a, b, …)` — the middle of the sorted numeric data, averaging the two middles for an
/// even count; none is `#NUM!`.
pub fn median_fn<N: Number, R: Resolver<N>>(ctx: &mut EvalCtx<R>, args: &[Expr<N>]) -> (r: Value<N>)
    requires
        args.len() >= 1,
    ensures
        restored(*old(ctx), *final(ctx)),
        r is Number || r is Error,
        room(*old(ctx)) && all_lit_nums(args@, 0, args@.len() as int)
            ==> r == spec_median(lit_nums(args@, 0, args@.len() as int)),
        exists|res: Result<Seq<N>, ErrKind>| #[trigger] collected(*old(ctx), args@, 0, args@.len() as int, res) && r == match res {
            Err(k) => Value::<N>::Error(k),
            Ok(s) => spec_median(s),
        },
    decreases args_size(args@), 7nat,
{
    let nums = match collect_numbers(ctx, args) {
        Ok(n) => n,
        Err(k) => {
            return Value::Error(k);
        },
    };
    if nums.len() == 0 {
        return Value::Error(ErrKind::Num);
    }
    let s = sorted(nums);
    let n = s.len();
    let med = if n % 2 == 1 {
        s[n / 2]
    } else {
        s[n / 2 - 1].plus(s[n / 2]).over(N::from_int(2))
    };
    finite_or_num(med)
}

/// `RANK(number, ref, [order])` — the position of `number` among the numeric cells of `ref`:
/// descending by default, ascending for any non-zero `order`; ties share the best rank (one plus
/// the count of strictly better values). An error in `ref` propagates; a `number` absent from
/// `ref` is `#N/A`.
/// How many of the first `k` numbers rank strictly better than `x`: below it when ascending,
/// above it otherwise.
pub open spec fn rank_better_count<N: Number>(s: Seq<N>, x: N, ascending: bool, k: int) -> nat
    decreases k,
{
    if k <= 0 {
        0
    } else {
        rank_better_count(s, x, ascending, k - 1) + if (if ascending {
            s[k - 1].spec_order(x) == Some(Order::Less)
        } else {
            x.spec_order(s[k - 1]) == Some(Order::Less)
        }) { 1nat } else { 0nat }
    }
}

/// What `RANK` gives for `x` among the numbers `s`: `#N/A` when none equals it, else one more than
/// the count ranking better (saturating).
pub open spec fn spec_rank<N: Number>(s: Seq<N>, x: N, ascending: bool) -> Value<N> {
    if !(exists|i: int| 0 <= i < s.len() && #[trigger] s[i].spec_order(x) == Some(Order::Equal)) {
        Value::Error(ErrKind::Na)
    } else {
        let b = rank_better_count(s, x, ascending, s.len() as int);
        Value::Number(N::spec_from_int(if b >= i64::MAX { i64::MAX } else { (b + 1) as i64 }))
    }
}

#[verifier::loop_isolation(false)]
/// What [`rank_fn`] is stated to give, for a context `ctx` and arguments `args`.
pub open spec fn rank_fn_gives<'r, N: Number, R: Resolver<N>>(ctx: EvalCtx<'r, R>, args: Seq<Expr<N>>, r: Value<N>) -> bool {
    &&& r is Number || r is Error
    &&& room(ctx) ==> (lit_coerced(args[0]) matches Some(x) ==> match args[1] {
        Expr::Lit(Value::Array(sh, cells)) => cells@.len() == sh.rows * sh.cols ==> (lit_arg(args, 2, N::spec_from_int(0)) matches Some(o)
            ==> match numbers_in_order(cells@) {
            Err(k) => r == Value::<N>::Error(k),
            Ok(s) => r == spec_rank(s, x, args.len() == 3 && !spec_is_zero(o)),
        }),
        _ => true,
    })
}

/// What [`rank_fn`] is stated to give for the values its arguments evaluate to in `ctx`.
pub open spec fn rank_fn_reads<'r, N: Number, R: Resolver<N>>(ctx: EvalCtx<'r, R>, args: Seq<Expr<N>>, r: Value<N>) -> bool {
    &&& exists|v: Value<N>, c: Result<N, ErrKind>| #![trigger arg_value(ctx, args[0], v), num_coercion(spec_scalarize(v), c)]
        arg_value(ctx, args[0], v) && num_coercion(spec_scalarize(v), c) && match c {
        Err(k) => r == Value::<N>::Error(k),
        Ok(x) => exists|w: Value<N>| #[trigger] arg_value(ctx, args[1], w) && match spec_block(w) {
            Err(k) => r == Value::<N>::Error(k),
            Ok(b) => lit_arg(args, 2, N::spec_from_int(0)) matches Some(o) ==> match numbers_in_order(b.2) {
                Err(k) => r == Value::<N>::Error(k),
                Ok(s) => room(ctx) ==> r == spec_rank(s, x, args.len() == 3 && !spec_is_zero(o)),
            },
        },
    }
}

pub fn rank_fn<N: Number, R: Resolver<N>>(ctx: &mut EvalCtx<R>, args: &[Expr<N>]) -> (r: Value<N>)
    requires
        2 <= args.len() <= 3,
    ensures
        restored(*old(ctx), *final(ctx)),
        r is Number || r is Error,
        room(*old(ctx)) ==> (lit_coerced(args[0]) matches Some(x) ==> match args[1] {
            Expr::Lit(Value::Array(sh, cells)) => cells@.len() == sh.rows * sh.cols ==> (lit_arg(args@, 2, N::spec_from_int(0)) matches Some(o)
                ==> match numbers_in_order(cells@) {
                Err(k) => r == Value::<N>::Error(k),
                Ok(s) => r == spec_rank(s, x, args@.len() == 3 && !spec_is_zero(o)),
            }),
            _ => true,
        }),
        exists|v: Value<N>, c: Result<N, ErrKind>| #![trigger arg_value(*old(ctx), args@[0], v), num_coercion(spec_scalarize(v), c)]
            arg_value(*old(ctx), args@[0], v) && num_coercion(spec_scalarize(v), c) && match c {
            Err(k) => r == Value::<N>::Error(k),
            Ok(x) => exists|w: Value<N>| #[trigger] arg_value(*old(ctx), args@[1], w) && match spec_block(w) {
                Err(k) => r == Value::<N>::Error(k),
                Ok(b) => lit_arg(args@, 2, N::spec_from_int(0)) matches Some(o) ==> match numbers_in_order(b.2) {
                    Err(k) => r == Value::<N>::Error(k),
                    Ok(s) => room(*old(ctx)) ==> r == spec_rank(s, x, args@.len() == 3 && !spec_is_zero(o)),
                },
            },
        },
    decreases args_size(args@), 7nat,
{
    proof {
        lemma_arg_size(args@, 0);
        lemma_arg_size(args@, 1);
        if args.len() == 3 {
            lemma_arg_size(args@, 2);
        }
    }
    let res0 = one_num(ctx, &args[0]);
    let number = match res0 {
        Ok(n) => n,
        Err(k) => {
            return Value::Error(k);
        },
    };
    proof {
        lemma_restored_same(*old(ctx), *ctx);
    }
    let (_, _, cells) = match block(ctx, &args[1]) {
        Ok(t) => t,
        Err(k) => {
            return Value::Error(k);
        },
    };
    proof {
        match args@[1] {
            Expr::Lit(Value::Array(sh, cs)) => {
                if room(*old(ctx)) && cs@.len() == sh.rows * sh.cols {
                    lemma_same_cells_numbers(cells@, cs@);
                }
            },
            _ => {},
        }
    }
    let nums = match ordered_numbers_of(&cells) {
        Ok(v) => v,
        Err(k) => {
            return Value::Error(k);
        },
    };
    let ascending = if args.len() == 3 {
        match one_num(ctx, &args[2]) {
            Ok(o) => !is_zero(o),
            Err(k) => {
                return Value::Error(k);
            },
        }
    } else {
        false
    };
    let mut found = false;
    let mut better: u64 = 0;
    let mut j: usize = 0;
    while j < nums.len()
        invariant
            j <= nums.len(),
            better <= j,
            better == rank_better_count(nums@, number, ascending, j as int),
            found <==> exists|i: int| 0 <= i < j && #[trigger] nums@[i].spec_order(number) == Some(Order::Equal),
        decreases nums.len() - j,
    {
        let x = nums[j];
        if let Some(Order::Equal) = x.order(number) {
            found = true;
        }
        if ascending {
            if less_than(x, number) {
                better = better + 1;
            }
        } else if less_than(number, x) {
            better = better + 1;
        }
        j = j + 1;
    }
    if !found {
        return Value::Error(ErrKind::Na);
    }
    let rank = if better >= i64::MAX as u64 { i64::MAX } else { (better + 1) as i64 };
    Value::Number(N::from_int(rank))
}

} // verus!
