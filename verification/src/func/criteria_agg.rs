//! The criteria-aggregation family: `SUMIF`, `AVERAGEIF`, `COUNTIF` (one criterion over a range,
//! the value range defaulting to it) and `SUMIFS`, `AVERAGEIFS`, `MINIFS`, `MAXIFS`, `COUNTIFS`
//! (an AND across `(criteria_range, criteria)` pairs).
//!
//! Every criteria range and the value range must share one shape — a mismatch is a static
//! `#VALUE!`. A non-number in a value range is ignored; an error in a value range at a matching
//! position propagates; an error in a criteria range never matches; an error-valued criterion
//! propagates.

use vstd::prelude::*;
use crate::eval::{lemma_restored_same, less_than, restored, EvalCtx};
use crate::expr::{args_size, lemma_arg_size, Expr, Resolver};
use crate::func::aggregation::{clamp_count, count_value, fold_plus, int_numbers, int_sum, law_total_of_integers};
use crate::func::helpers::{arg_value, block, block_result, crit_read, criterion, finite_or_num, lit_num, room, spec_block, spec_finite_or_num};
use crate::criteria::{spec_matches, Comparand, Criterion, Op};
use crate::func::regression::lemma_same_cells_at;
use crate::value::{same_cells, same_value};
use crate::value::{ErrKind, Number, Order, Value};

verus! {

/// The reduction a masked aggregation performs.
#[derive(Clone, Copy, Debug, PartialEq, Eq, Structural)]
pub enum Reduce {
    Sum,
    Avg,
    Min,
    Max,
}

/// The first error among the first `k` cells at the positions `mask` marks true.
pub open spec fn masked_error<N>(cells: Seq<Value<N>>, mask: Seq<bool>, k: int) -> Option<ErrKind>
    decreases k,
{
    if k <= 0 {
        None
    } else {
        match masked_error(cells, mask, k - 1) {
            Some(e) => Some(e),
            None => if mask[k - 1] && cells[k - 1] is Error { Some(cells[k - 1]->Error_0) } else { None },
        }
    }
}

/// The numbers among the first `k` cells at the positions `mask` marks true, in order.
pub open spec fn masked_numbers<N>(cells: Seq<Value<N>>, mask: Seq<bool>, k: int) -> Seq<N>
    decreases k,
{
    if k <= 0 {
        Seq::empty()
    } else {
        let prev = masked_numbers(cells, mask, k - 1);
        if mask[k - 1] && cells[k - 1] is Number { prev.push(cells[k - 1]->Number_0) } else { prev }
    }
}

/// How many of the first `k` cells are numbers at marked positions.
pub open spec fn marked_number_count<N>(cells: Seq<Value<N>>, mask: Seq<bool>, k: int) -> nat
    decreases k,
{
    if k <= 0 {
        0
    } else {
        marked_number_count(cells, mask, k - 1) + if mask[k - 1] && cells[k - 1] is Number { 1nat } else { 0nat }
    }
}

/// The criteria functions reduce exactly the numbers at the matching positions: every number taken
/// is a number cell at a marked position, every number cell at a marked position is taken, and
/// there are as many as such cells; an unmarked cell never contributes.
pub proof fn law_masked_numbers_select<N>(cells: Seq<Value<N>>, mask: Seq<bool>, k: int)
    requires
        0 <= k <= cells.len(),
        k <= mask.len(),
    ensures
        masked_numbers(cells, mask, k).len() == marked_number_count(cells, mask, k),
        forall|m: int| 0 <= m < masked_numbers(cells, mask, k).len() ==> exists|j: int| 0 <= j < k && mask[j]
            && cells[j] == Value::<N>::Number(#[trigger] masked_numbers(cells, mask, k)[m]),
        forall|j: int| 0 <= j < k && mask[j] && #[trigger] cells[j] is Number ==> exists|m: int|
            0 <= m < masked_numbers(cells, mask, k).len() && masked_numbers(cells, mask, k)[m] == cells[j]->Number_0,
    decreases k,
{
    if k > 0 {
        law_masked_numbers_select(cells, mask, k - 1);
        let prev = masked_numbers(cells, mask, k - 1);
        let cur = masked_numbers(cells, mask, k);
        assert forall|m: int| 0 <= m < cur.len() implies exists|j: int| 0 <= j < k && mask[j]
            && cells[j] == Value::<N>::Number(#[trigger] cur[m]) by {
            if m < prev.len() {
                assert(cur[m] == prev[m]);
                let j = choose|j: int| 0 <= j < k - 1 && mask[j] && cells[j] == Value::<N>::Number(prev[m]);
                assert(0 <= j < k && mask[j] && cells[j] == Value::<N>::Number(cur[m]));
            } else {
                assert(mask[k - 1] && cells[k - 1] is Number);
                assert(cells[k - 1] == Value::<N>::Number(cur[m]));
            }
        }
        assert forall|j: int| 0 <= j < k && mask[j] && #[trigger] cells[j] is Number implies exists|m: int|
            0 <= m < cur.len() && cur[m] == cells[j]->Number_0 by {
            if j < k - 1 {
                let m = choose|m: int| 0 <= m < prev.len() && prev[m] == cells[j]->Number_0;
                assert(cur[m] == prev[m]);
            } else {
                assert(cur[cur.len() - 1] == cells[j]->Number_0);
            }
        }
    }
}

/// The smallest (or, with `largest`, the largest) of a run of numbers, the earliest kept among
/// those that do not order strictly beyond it; `None` for none.
pub open spec fn spec_extreme<N: Number>(s: Seq<N>, largest: bool) -> Option<N>
    decreases s.len(),
{
    if s.len() == 0 {
        None
    } else {
        let n = s.last();
        match spec_extreme(s.drop_last(), largest) {
            None => Some(n),
            Some(e) => Some(if largest {
                if e.spec_order(n) == Some(Order::Less) { n } else { e }
            } else {
                if n.spec_order(e) == Some(Order::Less) { n } else { e }
            }),
        }
    }
}

/// The extreme of a run is one of its numbers, and no number of the run orders strictly beyond it
/// (below it for the smallest, above it for the largest); a non-empty run has one.
pub proof fn law_extreme_is_extreme<N: Number>(s: Seq<N>, largest: bool)
    ensures
        s.len() > 0 <==> spec_extreme(s, largest) is Some,
        spec_extreme(s, largest) matches Some(x) ==> (exists|i: int| 0 <= i < s.len() && s[i] == x)
            && forall|j: int| 0 <= j < s.len() ==> #[trigger] s[j].spec_order(x) != Some(if largest { Order::Greater } else { Order::Less }),
    decreases s.len(),
{
    if s.len() > 0 {
        let p = s.drop_last();
        let n = s.last();
        law_extreme_is_extreme(p, largest);
        match spec_extreme(p, largest) {
            None => {
                assert(s[s.len() - 1] == n);
                N::law_order(n, n, n);
            },
            Some(e) => {
                let x = spec_extreme(s, largest)->0;
                let i0 = choose|i: int| 0 <= i < p.len() && p[i] == e;
                assert(s[i0] == e);
                assert(s[s.len() - 1] == n);
                assert forall|j: int| 0 <= j < s.len() implies #[trigger] s[j].spec_order(x) != Some(if largest { Order::Greater } else { Order::Less }) by {
                    N::law_order(s[j], e, n);
                    N::law_order(s[j], n, e);
                    N::law_order(n, e, s[j]);
                    N::law_order(e, n, s[j]);
                    N::law_order(n, n, n);
                    N::law_order(e, e, e);
                    if j < p.len() {
                        assert(s[j] == p[j]);
                        assert(p[j].spec_order(e) != Some(if largest { Order::Greater } else { Order::Less }));
                    }
                }
            },
        }
    }
}

/// `MINIFS` / `MAXIFS` over matching numbers give one of them, and no matching number orders
/// strictly below (for `MIN`) or above (for `MAX`) the result.
pub proof fn law_min_max_reduce<N: Number>(nums: Seq<N>, largest: bool)
    requires
        nums.len() > 0,
    ensures
        spec_reduce(nums, if largest { Reduce::Max } else { Reduce::Min }) matches Value::Number(x)
            && (exists|i: int| 0 <= i < nums.len() && nums[i] == x)
            && forall|j: int| 0 <= j < nums.len() ==> #[trigger] nums[j].spec_order(x) != Some(if largest { Order::Greater } else { Order::Less }),
{
    law_extreme_is_extreme(nums, largest);
}

/// `SUMIF` / `SUMIFS` of whole matching numbers (magnitudes within 2^40, at most 4096 of them)
/// give their exact integer total, and `AVERAGEIF` / `AVERAGEIFS` that total over the count of
/// matching numbers (`#DIV/0!` for none).
pub proof fn law_sum_avg_reduce_of_integers<N: Number>(xs: Seq<i64>)
    requires
        xs.len() <= 0x1000,
        forall|i: int| 0 <= i < xs.len() ==> -0x100_0000_0000 <= #[trigger] xs[i] <= 0x100_0000_0000,
    ensures
        spec_reduce(int_numbers::<N>(xs), Reduce::Sum) == spec_finite_or_num(N::spec_from_int(int_sum(xs, xs.len() as int) as i64)),
        xs.len() == 0 ==> spec_reduce(int_numbers::<N>(xs), Reduce::Avg) == Value::<N>::Error(ErrKind::Div0),
        xs.len() > 0 ==> spec_reduce(int_numbers::<N>(xs), Reduce::Avg)
            == spec_finite_or_num(N::spec_from_int(int_sum(xs, xs.len() as int) as i64).spec_over(N::spec_from_int(xs.len() as i64))),
{
    law_total_of_integers::<N>(xs);
}

/// What a masked reduction gives for the matching numbers: `Sum` their total from zero, `Avg`
/// that over their count (`#DIV/0!` for none), `Min`/`Max` the extreme (`0` for none).
pub open spec fn spec_reduce<N: Number>(nums: Seq<N>, reduce: Reduce) -> Value<N> {
    match reduce {
        Reduce::Sum => spec_finite_or_num(fold_plus(N::spec_from_int(0), nums)),
        Reduce::Avg => if nums.len() == 0 {
            Value::Error(ErrKind::Div0)
        } else {
            spec_finite_or_num(fold_plus(N::spec_from_int(0), nums).spec_over(N::spec_from_int(clamp_count(nums.len() as int))))
        },
        Reduce::Min => match spec_extreme(nums, false) {
            Some(e) => Value::Number(e),
            None => Value::Number(N::spec_from_int(0)),
        },
        Reduce::Max => match spec_extreme(nums, true) {
            Some(e) => Value::Number(e),
            None => Value::Number(N::spec_from_int(0)),
        },
    }
}

/// Reduce the numeric cells of `value_cells` at the positions `mask` marks true (over the
/// positions both cover). The first error at a marked position propagates; non-numbers are
/// ignored; otherwise the result is [`spec_reduce`] of the marked numbers.
pub fn reduce_masked<N: Number>(value_cells: &Vec<Value<N>>, mask: &Vec<bool>, reduce: Reduce) -> (r: Value<N>)
    ensures
        ({
            let k = if mask@.len() < value_cells@.len() { mask@.len() as int } else { value_cells@.len() as int };
            match masked_error(value_cells@, mask@, k) {
                Some(e) => r == Value::<N>::Error(e),
                None => r == spec_reduce(masked_numbers(value_cells@, mask@, k), reduce),
            }
        }),
{
    let mut sum = N::from_int(0);
    let mut count: u64 = 0;
    let mut extreme: Option<N> = None;
    let mut i: usize = 0;
    while i < mask.len() && i < value_cells.len()
        invariant
            i <= mask@.len(),
            i <= value_cells@.len(),
            masked_error(value_cells@, mask@, i as int) is None,
            sum == fold_plus(N::spec_from_int(0), masked_numbers(value_cells@, mask@, i as int)),
            count == masked_numbers(value_cells@, mask@, i as int).len(),
            count <= i,
            extreme == spec_extreme(masked_numbers(value_cells@, mask@, i as int), reduce == Reduce::Max),
        decreases mask.len() - i,
    {
        let ghost prev = masked_numbers(value_cells@, mask@, i as int);
        if mask[i] {
            match &value_cells[i] {
                Value::Error(k) => {
                    proof {
                        lemma_masked_error_sticks(value_cells@, mask@, i + 1, if mask@.len() < value_cells@.len() { mask@.len() as int } else { value_cells@.len() as int });
                    }
                    return Value::Error(*k);
                },
                Value::Number(n) => {
                    assert(masked_numbers(value_cells@, mask@, i + 1) == prev.push(*n));
                    assert(prev.push(*n).drop_last() =~= prev);
                    sum = sum.plus(*n);
                    count = count + 1;
                    extreme = Some(match extreme {
                        None => *n,
                        Some(e) => if reduce == Reduce::Max {
                            if less_than(e, *n) { *n } else { e }
                        } else {
                            if less_than(*n, e) { *n } else { e }
                        },
                    });
                },
                _ => {},
            }
        }
        i = i + 1;
    }
    let k: Ghost<int> = Ghost(if mask@.len() < value_cells@.len() { mask@.len() as int } else { value_cells@.len() as int });
    assert(i == k@);
    match reduce {
        Reduce::Sum => finite_or_num(sum),
        Reduce::Avg => {
            if count == 0 {
                Value::Error(ErrKind::Div0)
            } else {
                let c = if count > i64::MAX as u64 { i64::MAX } else { count as i64 };
                finite_or_num(sum.over(N::from_int(c)))
            }
        },
        _ => match extreme {
            Some(e) => Value::Number(e),
            None => Value::Number(N::from_int(0)),
        },
    }
}

/// Once the first error among the marked cells is met, every longer prefix reports it.
proof fn lemma_masked_error_sticks<N>(cells: Seq<Value<N>>, mask: Seq<bool>, i: int, k: int)
    requires
        0 <= i <= k,
        masked_error(cells, mask, i) is Some,
    ensures
        masked_error(cells, mask, k) == masked_error(cells, mask, i),
    decreases k - i,
{
    if i < k {
        lemma_masked_error_sticks(cells, mask, i + 1, k);
    }
}

/// How many of the first `k` cells satisfy a criterion.
pub open spec fn matching_count<N: Number>(crit: Criterion<N>, cells: Seq<Value<N>>, k: int) -> nat
    decreases k,
{
    if k <= 0 {
        0
    } else {
        matching_count(crit, cells, k - 1) + if spec_matches(crit, cells[k - 1]) { 1nat } else { 0nat }
    }
}

/// Runs that hold the same values have the same number of matching cells.
proof fn lemma_matching_same<N: Number>(c: Criterion<N>, x: Seq<Value<N>>, y: Seq<Value<N>>, k: int)
    requires
        same_cells(x, y),
        0 <= k <= x.len(),
    ensures
        matching_count(c, x, k) == matching_count(c, y, k),
    decreases k,
{
    if k > 0 {
        lemma_matching_same(c, x, y, k - 1);
        lemma_same_cells_at(x, y, k - 1);
        match x[k - 1] {
            Value::Array(..) => {
                assert(y[k - 1] is Array);
            },
            _ => {
                assert(x[k - 1] == y[k - 1]);
            },
        }
    }
}

/// Which cells satisfy a criterion, position by position.
pub fn match_mask<N: Number>(crit: &Criterion<N>, cells: &Vec<Value<N>>) -> (r: Vec<bool>)
    ensures
        r@.len() == cells@.len(),
        forall|j: int| 0 <= j < r@.len() ==> #[trigger] r@[j] == spec_matches(*crit, cells@[j]),
{
    let mut mask: Vec<bool> = Vec::new();
    let mut j: usize = 0;
    while j < cells.len()
        invariant
            j <= cells@.len(),
            mask@.len() == j,
            forall|i: int| 0 <= i < j ==> #[trigger] mask@[i] == spec_matches(*crit, cells@[i]),
        decreases cells@.len() - j,
    {
        mask.push(crit.matches(&cells[j]));
        j = j + 1;
    }
    mask
}

/// How many cells satisfy a criterion (see [`matching_count`]).
pub fn count_matching<N: Number>(crit: &Criterion<N>, cells: &Vec<Value<N>>) -> (r: u64)
    ensures
        r == matching_count(*crit, cells@, cells@.len() as int),
{
    let mut n: u64 = 0;
    let mut j: usize = 0;
    while j < cells.len()
        invariant
            j <= cells@.len(),
            n == matching_count(*crit, cells@, j as int),
            n <= j,
        decreases cells@.len() - j,
    {
        if crit.matches(&cells[j]) {
            n = n + 1;
        }
        j = j + 1;
    }
    n
}

/// The shape and cells of an evaluated range (when it forms a block).
pub open spec fn shape_of<N>(v: Value<N>) -> (u32, u32) {
    (spec_block(v)->Ok_0.0, spec_block(v)->Ok_0.1)
}

/// The cells of an evaluated range (when it forms a block).
pub open spec fn cells_of<N>(v: Value<N>) -> Seq<Value<N>> {
    spec_block(v)->Ok_0.2
}

/// Whether position `j` satisfies the first `q` criteria, each against its own range.
pub open spec fn all_match<N: Number>(crits: Seq<Result<Criterion<N>, ErrKind>>, ranges: Seq<Value<N>>, q: int, j: int) -> bool
    decreases q,
{
    if q <= 0 {
        true
    } else {
        all_match(crits, ranges, q - 1, j) && spec_matches(crits[q - 1]->Ok_0, cells_of(ranges[q - 1])[j])
    }
}

/// Whether criteria pair `p` evaluated cleanly: its range forms a block of the first range's shape
/// and its criterion parsed.
pub open spec fn pair_fine<N: Number>(ranges: Seq<Value<N>>, crits: Seq<Result<Criterion<N>, ErrKind>>, p: int) -> bool {
    spec_block(ranges[p]) is Ok && shape_of(ranges[p]) == shape_of(ranges[0]) && crits[p] is Ok
}

/// A computed mask, by its view.
pub open spec fn mask_res(r: Result<((u32, u32), Vec<bool>), ErrKind>) -> Result<((u32, u32), Seq<bool>), ErrKind> {
    match r {
        Ok(t) => Ok((t.0, t.1@)),
        Err(k) => Err(k),
    }
}

/// Whether `res` is the mask the criteria pairs from `args[start]` give, their ranges evaluated in
/// `ctx` to `ranges` and their criteria parsed to `crits`, pair by pair: the positions where every
/// criterion holds against its own range; or the first failure, after which nothing more is
/// evaluated — a range error, a range of another shape than the first (`#VALUE!`), a criterion
/// error, or no pair at all (`#VALUE!`).
pub open spec fn mask_by<'r, N: Number, R: Resolver<N>>(ctx: EvalCtx<'r, R>, args: Seq<Expr<N>>, start: int, ranges: Seq<Value<N>>,
    crits: Seq<Result<Criterion<N>, ErrKind>>, res: Result<((u32, u32), Seq<bool>), ErrKind>) -> bool {
    let q = ranges.len() as int;
    &&& crits.len() <= q
    &&& forall|p: int| 0 <= p < q ==> arg_value(ctx, args[start + 2 * p], #[trigger] ranges[p])
    &&& forall|p: int| 0 <= p < crits.len() ==> crit_read(ctx, args[start + 2 * p + 1], #[trigger] crits[p])
    &&& match res {
        Ok(t) => q >= 1 && start + 2 * q == args.len() && crits.len() == q
            && (forall|p: int| 0 <= p < q ==> #[trigger] pair_fine(ranges, crits, p))
            && t.0 == shape_of(ranges[0])
            && t.1 == Seq::new(cells_of(ranges[0]).len(), |j: int| all_match(crits, ranges, q, j)),
        Err(k) => if q == 0 {
            start == args.len() && k == ErrKind::Value
        } else {
            (forall|p: int| 0 <= p < q - 1 ==> #[trigger] pair_fine(ranges, crits, p)) && if crits.len() == q {
                spec_block(ranges[q - 1]) is Ok && shape_of(ranges[q - 1]) == shape_of(ranges[0]) && crits[q - 1] == Err::<Criterion<N>, ErrKind>(k)
            } else {
                crits.len() == q - 1 && (spec_block(ranges[q - 1]) == Err::<(u32, u32, Seq<Value<N>>), ErrKind>(k)
                    || (spec_block(ranges[q - 1]) is Ok && shape_of(ranges[q - 1]) != shape_of(ranges[0]) && k == ErrKind::Value))
            }
        },
    }
}

/// Build the AND-combined match mask for the `(criteria_range, criteria)` pairs starting at
/// `args[start]`, enforcing that every criteria range shares the first one's shape. Returns the
/// shared shape and the per-cell mask; no pair at all is `#VALUE!`.
pub fn build_mask<N: Number, R: Resolver<N>>(ctx: &mut EvalCtx<R>, args: &[Expr<N>], start: usize) -> (r: Result<((u32, u32), Vec<bool>), ErrKind>)
    requires
        start <= args.len(),
        (args.len() - start) % 2 == 0,
    ensures
        restored(*old(ctx), *final(ctx)),
        start == args.len() ==> r == Err::<((u32, u32), Vec<bool>), ErrKind>(ErrKind::Value),
        exists|ranges: Seq<Value<N>>, crits: Seq<Result<Criterion<N>, ErrKind>>|
            #[trigger] mask_by(*old(ctx), args@, start as int, ranges, crits, mask_res(r)),
    decreases args_size(args@), 4nat,
{
    let mut base: Option<(u32, u32)> = None;
    let mut mask: Vec<bool> = Vec::new();
    let mut i: usize = start;
    let ghost mut ranges: Seq<Value<N>> = Seq::empty();
    let ghost mut crits: Seq<Result<Criterion<N>, ErrKind>> = Seq::empty();
    while i < args.len()
        invariant
            start <= i <= args.len(),
            (args.len() - i) % 2 == 0,
            restored(*old(ctx), *ctx),
            i == start + 2 * ranges.len(),
            crits.len() == ranges.len(),
            forall|p: int| 0 <= p < ranges.len() ==> arg_value(*old(ctx), args@[start + 2 * p], #[trigger] ranges[p]),
            forall|p: int| 0 <= p < crits.len() ==> crit_read(*old(ctx), args@[start + 2 * p + 1], #[trigger] crits[p]),
            forall|p: int| 0 <= p < ranges.len() ==> #[trigger] pair_fine(ranges, crits, p),
            ranges.len() == 0 <==> base is None,
            base matches Some(b) ==> b == shape_of(ranges[0])
                && mask@ == Seq::new(cells_of(ranges[0]).len(), |j: int| all_match(crits, ranges, ranges.len() as int, j)),
        decreases args.len() - i,
    {
        proof {
            lemma_arg_size(args@, i as int);
            lemma_arg_size(args@, i + 1);
            lemma_restored_same(*old(ctx), *ctx);
        }
        let q: Ghost<int> = Ghost(ranges.len() as int);
        let rb = block(ctx, &args[i]);
        let ghost w = choose|w: Value<N>| #[trigger] arg_value(*old(ctx), args@[i as int], w) && block_result(rb) == spec_block(w);
        let ghost rs2 = ranges.push(w);
        proof {
            assert(rs2.drop_last() == ranges);
            assert forall|p: int| 0 <= p < q@ implies #[trigger] pair_fine(rs2, crits, p) by {
                assert(rs2[p] == ranges[p]);
                assert(pair_fine(ranges, crits, p));
            }
            assert(forall|p: int| 0 <= p < rs2.len() ==> arg_value(*old(ctx), args@[start + 2 * p], #[trigger] rs2[p]));
        }
        let (rows, cols, cells) = match rb {
            Ok(t) => t,
            Err(k) => {
                proof {
                    assert(mask_by(*old(ctx), args@, start as int, rs2, crits, Err::<((u32, u32), Seq<bool>), ErrKind>(k)));
                }
                return Err(k);
            },
        };
        match base {
            None => {
                base = Some((rows, cols));
                mask = Vec::new();
                let mut j: usize = 0;
                while j < cells.len()
                    invariant
                        j <= cells.len(),
                        mask@ == Seq::new(j as nat, |k: int| true),
                    decreases cells.len() - j,
                {
                    mask.push(true);
                    proof {
                        assert(mask@ =~= Seq::new((j + 1) as nat, |k: int| true));
                    }
                    j = j + 1;
                }
            },
            Some((br, bc)) => {
                if br != rows || bc != cols {
                    proof {
                        assert(shape_of(rs2[q@]) != shape_of(rs2[0]));
                        assert(mask_by(*old(ctx), args@, start as int, rs2, crits, Err::<((u32, u32), Seq<bool>), ErrKind>(ErrKind::Value)));
                    }
                    return Err(ErrKind::Value);
                }
            },
        }
        proof {
            lemma_restored_same(*old(ctx), *ctx);
            assert(spec_block(w) == Ok::<(u32, u32, Seq<Value<N>>), ErrKind>((rows, cols, cells@)));
            assert(rs2[q@] == w);
            lemma_block_len(w);
            if q@ > 0 {
                assert(rs2[0] == ranges[0]);
                assert(pair_fine(ranges, crits, 0));
                lemma_block_len(ranges[0]);
                assert(shape_of(w) == shape_of(rs2[0]));
            }
            assert(mask@.len() == cells@.len());
            assert(shape_of(rs2[q@]) == shape_of(rs2[0]));
            assert(spec_block(rs2[q@]) is Ok);
            assert forall|k: int| 0 <= k < mask@.len() implies mask@[k] == all_match(crits, ranges, q@, k) by {
                if q@ == 0 {
                } else {
                    assert(cells_of(ranges[0]).len() == mask@.len());
                }
            }
        }
        let rc = criterion(ctx, &args[i + 1]);
        let crit = match rc {
            Ok(c) => c,
            Err(k) => {
                proof {
                    let cs2 = crits.push(rc);
                    assert forall|p: int| 0 <= p < q@ implies #[trigger] pair_fine(rs2, cs2, p) by {
                        assert(rs2[p] == ranges[p]);
                        assert(cs2[p] == crits[p]);
                        assert(pair_fine(ranges, crits, p));
                    }
                    assert(forall|p: int| 0 <= p < cs2.len() ==> crit_read(*old(ctx), args@[start + 2 * p + 1], #[trigger] cs2[p]));
                    assert(mask_by(*old(ctx), args@, start as int, rs2, cs2, Err::<((u32, u32), Seq<bool>), ErrKind>(k)));
                }
                return Err(k);
            },
        };
        let ghost cs2 = crits.push(rc);
        proof {
            assert forall|k: int| 0 <= k < mask@.len() implies mask@[k] == all_match(cs2, rs2, q@, k) by {
                lemma_all_match_prefix(crits, ranges, cs2, rs2, q@, k);
            }
        }
        let mut j: usize = 0;
        while j < mask.len() && j < cells.len()
            invariant
                j <= mask@.len(),
                mask@.len() == cells@.len(),
                cells@ == cells_of(rs2[q@]),
                cs2[q@] == Ok::<Criterion<N>, ErrKind>(crit),
                0 <= q@,
                forall|k: int| 0 <= k < j ==> mask@[k] == all_match(cs2, rs2, q@ + 1, k),
                forall|k: int| j <= k < mask@.len() ==> mask@[k] == all_match(cs2, rs2, q@, k),
            decreases mask.len() - j,
        {
            assert(all_match(cs2, rs2, q@ + 1, j as int) == (all_match(cs2, rs2, q@, j as int)
                && spec_matches(crit, cells@[j as int])));
            if mask[j] && !crit.matches(&cells[j]) {
                mask.set(j, false);
            }
            j = j + 1;
        }
        proof {
            assert forall|p: int| 0 <= p < q@ + 1 implies #[trigger] pair_fine(rs2, cs2, p) by {
                if p < q@ {
                    assert(pair_fine(rs2, crits, p));
                    assert(cs2[p] == crits[p]);
                }
            }
            ranges = rs2;
            crits = cs2;
            assert(mask@ =~= Seq::new(cells_of(ranges[0]).len(), |k: int| all_match(crits, ranges, ranges.len() as int, k)));
        }
        i = i + 2;
    }
    match base {
        Some(b) => {
            proof {
                assert(mask_by(*old(ctx), args@, start as int, ranges, crits, Ok::<((u32, u32), Seq<bool>), ErrKind>((b, mask@))));
            }
            Ok((b, mask))
        },
        None => {
            proof {
                assert(mask_by(*old(ctx), args@, start as int, ranges, crits, Err::<((u32, u32), Seq<bool>), ErrKind>(ErrKind::Value)));
            }
            Err(ErrKind::Value)
        },
    }
}

/// A value that forms a block has as many cells as its shape holds.
proof fn lemma_block_len<N>(v: Value<N>)
    ensures
        spec_block(v) is Ok ==> cells_of(v).len() == shape_of(v).0 * shape_of(v).1,
{
}

/// Extending the criteria and ranges past the first `q` leaves what the first `q` match unchanged.
proof fn lemma_all_match_prefix<N: Number>(c1: Seq<Result<Criterion<N>, ErrKind>>, r1: Seq<Value<N>>,
    c2: Seq<Result<Criterion<N>, ErrKind>>, r2: Seq<Value<N>>, q: int, j: int)
    requires
        0 <= q <= c1.len(),
        q <= r1.len(),
        c1.len() <= c2.len(),
        r1.len() <= r2.len(),
        forall|p: int| 0 <= p < c1.len() ==> c2[p] == c1[p],
        forall|p: int| 0 <= p < r1.len() ==> r2[p] == r1[p],
    ensures
        all_match(c2, r2, q, j) == all_match(c1, r1, q, j),
    decreases q,
{
    if q > 0 {
        lemma_all_match_prefix(c1, r1, c2, r2, q - 1, j);
    }
}

/// Runs that hold the same values give the same masked error and numbers.
proof fn lemma_masked_same<N>(x: Seq<Value<N>>, y: Seq<Value<N>>, mask: Seq<bool>, k: int)
    requires
        same_cells(x, y),
        0 <= k <= x.len(),
    ensures
        masked_error(x, mask, k) == masked_error(y, mask, k),
        masked_numbers(x, mask, k) == masked_numbers(y, mask, k),
    decreases k,
{
    if k > 0 {
        lemma_masked_same(x, y, mask, k - 1);
        lemma_same_cells_at(x, y, k - 1);
        match x[k - 1] {
            Value::Array(..) => {
                assert(y[k - 1] is Array);
            },
            _ => {
                assert(x[k - 1] == y[k - 1]);
            },
        }
    }
}

/// The positions of a run that satisfy a criterion.
pub open spec fn crit_mask<N: Number>(c: Criterion<N>, cells: Seq<Value<N>>) -> Seq<bool> {
    Seq::new(cells.len(), |j: int| spec_matches(c, cells[j]))
}

/// A masked reduction of `vals` (see [`reduce_masked`]).
pub open spec fn spec_masked_reduce<N: Number>(vals: Seq<Value<N>>, mask: Seq<bool>, reduce: Reduce) -> Value<N> {
    let k = if mask.len() < vals.len() { mask.len() as int } else { vals.len() as int };
    match masked_error(vals, mask, k) {
        Some(e) => Value::Error(e),
        None => spec_reduce(masked_numbers(vals, mask, k), reduce),
    }
}

/// What `SUMIF` / `AVERAGEIF` give over a literal array range and a literal numeric criterion
/// (and an optional literal array value range): `#VALUE!` for different shapes, else the masked
/// reduction of the matching positions.
pub open spec fn single_if_outcome<N: Number>(args: Seq<Expr<N>>, reduce: Reduce, r: Value<N>) -> bool {
    match args[0] {
        Expr::Lit(Value::Array(sh, cells)) => cells@.len() == sh.rows * sh.cols ==> (lit_num(args[1]) matches Some(n) ==> ({
            let mask = crit_mask(Criterion { op: Op::Eq, comparand: Comparand::Num(n) }, cells@);
            if args.len() == 2 {
                r == spec_masked_reduce(cells@, mask, reduce)
            } else {
                match args[2] {
                    Expr::Lit(Value::Array(sh2, vcells)) => vcells@.len() == sh2.rows * sh2.cols ==> r == if sh2.rows != sh.rows || sh2.cols != sh.cols {
                        Value::<N>::Error(ErrKind::Value)
                    } else {
                        spec_masked_reduce(vcells@, mask, reduce)
                    },
                    _ => true,
                }
            }
        })),
        _ => true,
    }
}

/// Shared body of `SUMIF`/`AVERAGEIF`: one criterion over `args[0]`, reducing the value range
/// (`args[2]`, or `args[0]` itself when omitted) at the matching positions.
pub fn single_if<N: Number, R: Resolver<N>>(ctx: &mut EvalCtx<R>, args: &[Expr<N>], reduce: Reduce) -> (r: Value<N>)
    requires
        2 <= args.len() <= 3,
    ensures
        restored(*old(ctx), *final(ctx)),
        r is Number || r is Error,
        room(*old(ctx)) ==> single_if_outcome(args@, reduce, r),
    decreases args_size(args@), 5nat,
{
    proof {
        lemma_arg_size(args@, 0);
        lemma_arg_size(args@, 1);
        if args.len() == 3 {
            lemma_arg_size(args@, 2);
        }
    }
    let (rrows, rcols, rcells) = match block(ctx, &args[0]) {
        Ok(t) => t,
        Err(k) => {
            return Value::Error(k);
        },
    };
    let crit = match criterion(ctx, &args[1]) {
        Ok(c) => c,
        Err(k) => {
            return Value::Error(k);
        },
    };
    let mask = match_mask(&crit, &rcells);
    proof {
        match args@[0] {
            Expr::Lit(Value::Array(sh, cs)) => {
                if room(*old(ctx)) && cs@.len() == sh.rows * sh.cols && lit_num(args@[1]) is Some {
                    assert forall|j: int| 0 <= j < mask@.len() implies #[trigger] mask@[j] == crit_mask(crit, cs@)[j] by {
                        lemma_same_cells_at(rcells@, cs@, j);
                        match rcells@[j] {
                            Value::Array(..) => {
                                assert(cs@[j] is Array);
                            },
                            _ => {
                                assert(rcells@[j] == cs@[j]);
                            },
                        }
                    }
                    assert(mask@ =~= crit_mask(crit, cs@));
                    lemma_masked_same(rcells@, cs@, mask@, if mask@.len() < rcells@.len() { mask@.len() as int } else { rcells@.len() as int });
                }
            },
            _ => {},
        }
    }
    if args.len() == 3 {
        let (vrows, vcols, vcells) = match block(ctx, &args[2]) {
            Ok(t) => t,
            Err(k) => {
                return Value::Error(k);
            },
        };
        if vrows != rrows || vcols != rcols {
            return Value::Error(ErrKind::Value);
        }
        proof {
            match args@[2] {
                Expr::Lit(Value::Array(sh2, vs)) => {
                    if room(*old(ctx)) && vs@.len() == sh2.rows * sh2.cols {
                        lemma_masked_same(vcells@, vs@, mask@, if mask@.len() < vcells@.len() { mask@.len() as int } else { vcells@.len() as int });
                    }
                },
                _ => {},
            }
        }
        reduce_masked(&vcells, &mask, reduce)
    } else {
        reduce_masked(&rcells, &mask, reduce)
    }
}

/// What the `…IFS` reductions give over their evaluated arguments: the criteria pairs from
/// `args[1]` build a mask (see [`mask_by`]); its first failure is the result; else the value
/// range `args[0]`, evaluated after the pairs, must form a block of the mask's shape (`#VALUE!`
/// otherwise), and the result is the masked reduction of its cells.
pub open spec fn ifs_read<'r, N: Number, R: Resolver<N>>(ctx: EvalCtx<'r, R>, args: Seq<Expr<N>>, reduce: Reduce, r: Value<N>) -> bool {
    exists|ranges: Seq<Value<N>>, crits: Seq<Result<Criterion<N>, ErrKind>>, mres: Result<((u32, u32), Seq<bool>), ErrKind>|
        #[trigger] mask_by(ctx, args, 1, ranges, crits, mres) && match mres {
            Err(k) => r == Value::<N>::Error(k),
            Ok(t) => exists|w: Value<N>| #[trigger] arg_value(ctx, args[0], w) && match spec_block(w) {
                Err(k) => r == Value::<N>::Error(k),
                Ok(vb) => r == if vb.0 != t.0.0 || vb.1 != t.0.1 {
                    Value::<N>::Error(ErrKind::Value)
                } else {
                    spec_masked_reduce(vb.2, t.1, reduce)
                },
            },
        }
}

/// Shared body of `SUMIFS`/`AVERAGEIFS`/`MINIFS`/`MAXIFS`: the value range is `args[0]`, then whole
/// `(criteria_range, criteria)` pairs (a dangling criteria range is `#VALUE!`); the value range
/// must share the criteria ranges' shape.
pub fn multi_if<N: Number, R: Resolver<N>>(ctx: &mut EvalCtx<R>, args: &[Expr<N>], reduce: Reduce) -> (r: Value<N>)
    requires
        args.len() >= 3,
    ensures
        restored(*old(ctx), *final(ctx)),
        r is Number || r is Error,
        (args.len() - 1) % 2 == 1 ==> r == Value::<N>::Error(ErrKind::Value),
        (args.len() - 1) % 2 == 0 ==> ifs_read(*old(ctx), args@, reduce, r),
    decreases args_size(args@), 5nat,
{
    if (args.len() - 1) % 2 != 0 {
        return Value::Error(ErrKind::Value);
    }
    let rm = build_mask(ctx, args, 1);
    let ghost (ranges, crits) = choose|ranges: Seq<Value<N>>, crits: Seq<Result<Criterion<N>, ErrKind>>|
        #[trigger] mask_by(*old(ctx), args@, 1, ranges, crits, mask_res(rm));
    let ((brows, bcols), mask) = match rm {
        Ok(t) => t,
        Err(k) => {
            proof {
                assert(mask_by(*old(ctx), args@, 1, ranges, crits, mask_res(rm)));
            }
            return Value::Error(k);
        },
    };
    proof {
        lemma_arg_size(args@, 0);
        lemma_restored_same(*old(ctx), *ctx);
    }
    let rb = block(ctx, &args[0]);
    let ghost w = choose|w: Value<N>| #[trigger] arg_value(*old(ctx), args@[0], w) && block_result(rb) == spec_block(w);
    let (vrows, vcols, vcells) = match rb {
        Ok(t) => t,
        Err(k) => {
            proof {
                assert(mask_by(*old(ctx), args@, 1, ranges, crits, mask_res(rm)));
                assert(arg_value(*old(ctx), args@[0], w));
            }
            return Value::Error(k);
        },
    };
    if vrows != brows || vcols != bcols {
        proof {
            assert(mask_by(*old(ctx), args@, 1, ranges, crits, mask_res(rm)));
            assert(arg_value(*old(ctx), args@[0], w));
        }
        return Value::Error(ErrKind::Value);
    }
    let r = reduce_masked(&vcells, &mask, reduce);
    proof {
        assert(mask_by(*old(ctx), args@, 1, ranges, crits, mask_res(rm)));
        assert(arg_value(*old(ctx), args@[0], w));
    }
    r
}

/// What [`sumif`] is stated to give, for a context `ctx` and arguments `args`.
pub open spec fn sumif_gives<'r, N: Number, R: Resolver<N>>(ctx: EvalCtx<'r, R>, args: Seq<Expr<N>>, r: Value<N>) -> bool {
    &&& room(ctx) ==> single_if_outcome(args, Reduce::Sum, r)
    &&& r is Number || r is Error
}

/// `SUMIF(range, criteria, [sum_range])` — total the numbers at the matching positions.
pub fn sumif<N: Number, R: Resolver<N>>(ctx: &mut EvalCtx<R>, args: &[Expr<N>]) -> (r: Value<N>)
    requires
        2 <= args.len() <= 3,
    ensures
        room(*old(ctx)) ==> single_if_outcome(args@, Reduce::Sum, r),
        restored(*old(ctx), *final(ctx)),
        r is Number || r is Error,
    decreases args_size(args@), 7nat,
{
    single_if(ctx, args, Reduce::Sum)
}

/// What [`averageif`] is stated to give, for a context `ctx` and arguments `args`.
pub open spec fn averageif_gives<'r, N: Number, R: Resolver<N>>(ctx: EvalCtx<'r, R>, args: Seq<Expr<N>>, r: Value<N>) -> bool {
    &&& room(ctx) ==> single_if_outcome(args, Reduce::Avg, r)
    &&& r is Number || r is Error
}

/// `AVERAGEIF(range, criteria, [average_range])` — mean of the matching numbers; no match is
/// `#DIV/0!`.
pub fn averageif<N: Number, R: Resolver<N>>(ctx: &mut EvalCtx<R>, args: &[Expr<N>]) -> (r: Value<N>)
    requires
        2 <= args.len() <= 3,
    ensures
        room(*old(ctx)) ==> single_if_outcome(args@, Reduce::Avg, r),
        restored(*old(ctx), *final(ctx)),
        r is Number || r is Error,
    decreases args_size(args@), 7nat,
{
    single_if(ctx, args, Reduce::Avg)
}

/// What [`sumifs`] is stated to give, for a context `ctx` and arguments `args`.
pub open spec fn sumifs_gives<'r, N: Number, R: Resolver<N>>(ctx: EvalCtx<'r, R>, args: Seq<Expr<N>>, r: Value<N>) -> bool {
    &&& r is Number || r is Error
    &&& (args.len() - 1) % 2 == 1 ==> r == Value::<N>::Error(ErrKind::Value)
}

/// What [`sumifs`] is stated to give for the values its arguments evaluate to in `ctx`.
pub open spec fn sumifs_reads<'r, N: Number, R: Resolver<N>>(ctx: EvalCtx<'r, R>, args: Seq<Expr<N>>, r: Value<N>) -> bool {
    &&& (args.len() - 1) % 2 == 0 ==> ifs_read(ctx, args, Reduce::Sum, r)
}

/// `SUMIFS(sum_range, criteria_range1, criteria1, …)` — total where every criterion matches.
pub fn sumifs<N: Number, R: Resolver<N>>(ctx: &mut EvalCtx<R>, args: &[Expr<N>]) -> (r: Value<N>)
    requires
        args.len() >= 3,
    ensures
        restored(*old(ctx), *final(ctx)),
        r is Number || r is Error,
        (args.len() - 1) % 2 == 1 ==> r == Value::<N>::Error(ErrKind::Value),
        (args.len() - 1) % 2 == 0 ==> ifs_read(*old(ctx), args@, Reduce::Sum, r),
    decreases args_size(args@), 7nat,
{
    multi_if(ctx, args, Reduce::Sum)
}

/// What [`averageifs`] is stated to give, for a context `ctx` and arguments `args`.
pub open spec fn averageifs_gives<'r, N: Number, R: Resolver<N>>(ctx: EvalCtx<'r, R>, args: Seq<Expr<N>>, r: Value<N>) -> bool {
    &&& r is Number || r is Error
    &&& (args.len() - 1) % 2 == 1 ==> r == Value::<N>::Error(ErrKind::Value)
}

/// What [`averageifs`] is stated to give for the values its arguments evaluate to in `ctx`.
pub open spec fn averageifs_reads<'r, N: Number, R: Resolver<N>>(ctx: EvalCtx<'r, R>, args: Seq<Expr<N>>, r: Value<N>) -> bool {
    &&& (args.len() - 1) % 2 == 0 ==> ifs_read(ctx, args, Reduce::Avg, r)
}

/// `AVERAGEIFS(average_range, criteria_range1, criteria1, …)` — mean where every criterion
/// matches; no match is `#DIV/0!`.
pub fn averageifs<N: Number, R: Resolver<N>>(ctx: &mut EvalCtx<R>, args: &[Expr<N>]) -> (r: Value<N>)
    requires
        args.len() >= 3,
    ensures
        restored(*old(ctx), *final(ctx)),
        r is Number || r is Error,
        (args.len() - 1) % 2 == 1 ==> r == Value::<N>::Error(ErrKind::Value),
        (args.len() - 1) % 2 == 0 ==> ifs_read(*old(ctx), args@, Reduce::Avg, r),
    decreases args_size(args@), 7nat,
{
    multi_if(ctx, args, Reduce::Avg)
}

/// What [`minifs`] is stated to give, for a context `ctx` and arguments `args`.
pub open spec fn minifs_gives<'r, N: Number, R: Resolver<N>>(ctx: EvalCtx<'r, R>, args: Seq<Expr<N>>, r: Value<N>) -> bool {
    &&& r is Number || r is Error
    &&& (args.len() - 1) % 2 == 1 ==> r == Value::<N>::Error(ErrKind::Value)
}

/// What [`minifs`] is stated to give for the values its arguments evaluate to in `ctx`.
pub open spec fn minifs_reads<'r, N: Number, R: Resolver<N>>(ctx: EvalCtx<'r, R>, args: Seq<Expr<N>>, r: Value<N>) -> bool {
    &&& (args.len() - 1) % 2 == 0 ==> ifs_read(ctx, args, Reduce::Min, r)
}

/// `MINIFS(min_range, criteria_range1, criteria1, …)` — smallest matching number; no match is `0`.
pub fn minifs<N: Number, R: Resolver<N>>(ctx: &mut EvalCtx<R>, args: &[Expr<N>]) -> (r: Value<N>)
    requires
        args.len() >= 3,
    ensures
        restored(*old(ctx), *final(ctx)),
        r is Number || r is Error,
        (args.len() - 1) % 2 == 1 ==> r == Value::<N>::Error(ErrKind::Value),
        (args.len() - 1) % 2 == 0 ==> ifs_read(*old(ctx), args@, Reduce::Min, r),
    decreases args_size(args@), 7nat,
{
    multi_if(ctx, args, Reduce::Min)
}

/// What [`maxifs`] is stated to give, for a context `ctx` and arguments `args`.
pub open spec fn maxifs_gives<'r, N: Number, R: Resolver<N>>(ctx: EvalCtx<'r, R>, args: Seq<Expr<N>>, r: Value<N>) -> bool {
    &&& r is Number || r is Error
    &&& (args.len() - 1) % 2 == 1 ==> r == Value::<N>::Error(ErrKind::Value)
}

/// What [`maxifs`] is stated to give for the values its arguments evaluate to in `ctx`.
pub open spec fn maxifs_reads<'r, N: Number, R: Resolver<N>>(ctx: EvalCtx<'r, R>, args: Seq<Expr<N>>, r: Value<N>) -> bool {
    &&& (args.len() - 1) % 2 == 0 ==> ifs_read(ctx, args, Reduce::Max, r)
}

/// `MAXIFS(max_range, criteria_range1, criteria1, …)` — largest matching number; no match is `0`.
pub fn maxifs<N: Number, R: Resolver<N>>(ctx: &mut EvalCtx<R>, args: &[Expr<N>]) -> (r: Value<N>)
    requires
        args.len() >= 3,
    ensures
        restored(*old(ctx), *final(ctx)),
        r is Number || r is Error,
        (args.len() - 1) % 2 == 1 ==> r == Value::<N>::Error(ErrKind::Value),
        (args.len() - 1) % 2 == 0 ==> ifs_read(*old(ctx), args@, Reduce::Max, r),
    decreases args_size(args@), 7nat,
{
    multi_if(ctx, args, Reduce::Max)
}

/// What [`countif`] is stated to give, for a context `ctx` and arguments `args`.
pub open spec fn countif_gives<'r, N: Number, R: Resolver<N>>(ctx: EvalCtx<'r, R>, args: Seq<Expr<N>>, r: Value<N>) -> bool {
    &&& r is Number || r is Error
    &&& room(ctx) ==> match args[0] {
        Expr::Lit(Value::Array(sh, cells)) => cells@.len() == sh.rows * sh.cols ==> (lit_num(args[1]) matches Some(n)
            ==> r == Value::<N>::Number(N::spec_from_int(clamp_count(
                matching_count(Criterion { op: Op::Eq, comparand: Comparand::Num(n) }, cells@, cells@.len() as int) as int)))),
        _ => true,
    }
}

/// `COUNTIF(range, criteria)` — how many cells match (of any type); an error-valued criterion
/// propagates.
pub fn countif<N: Number, R: Resolver<N>>(ctx: &mut EvalCtx<R>, args: &[Expr<N>]) -> (r: Value<N>)
    requires
        args.len() == 2,
    ensures
        restored(*old(ctx), *final(ctx)),
        r is Number || r is Error,
        room(*old(ctx)) ==> match args[0] {
            Expr::Lit(Value::Array(sh, cells)) => cells@.len() == sh.rows * sh.cols ==> (lit_num(args[1]) matches Some(n)
                ==> r == Value::<N>::Number(N::spec_from_int(clamp_count(
                    matching_count(Criterion { op: Op::Eq, comparand: Comparand::Num(n) }, cells@, cells@.len() as int) as int)))),
            _ => true,
        },
    decreases args_size(args@), 7nat,
{
    proof {
        lemma_arg_size(args@, 0);
        lemma_arg_size(args@, 1);
    }
    let (_, _, cells) = match block(ctx, &args[0]) {
        Ok(t) => t,
        Err(k) => {
            return Value::Error(k);
        },
    };
    proof {
        match args@[0] {
            Expr::Lit(Value::Array(sh, cs)) => {
                if room(*old(ctx)) && cs@.len() == sh.rows * sh.cols {
                    assert forall|c: Criterion<N>| matching_count(c, cells@, cells@.len() as int) == #[trigger] matching_count(c, cs@, cs@.len() as int) by {
                        lemma_matching_same(c, cells@, cs@, cells@.len() as int);
                    }
                }
            },
            _ => {},
        }
    }
    let crit = match criterion(ctx, &args[1]) {
        Ok(c) => c,
        Err(k) => {
            return Value::Error(k);
        },
    };
    count_value(count_matching(&crit, &cells))
}

/// What [`countifs`] is stated to give, for a context `ctx` and arguments `args`.
pub open spec fn countifs_gives<'r, N: Number, R: Resolver<N>>(ctx: EvalCtx<'r, R>, args: Seq<Expr<N>>, r: Value<N>) -> bool {
    &&& r is Number || r is Error
    &&& args.len() % 2 == 1 ==> r == Value::<N>::Error(ErrKind::Value)
}

/// What [`countifs`] is stated to give for the values its arguments evaluate to in `ctx`.
pub open spec fn countifs_reads<'r, N: Number, R: Resolver<N>>(ctx: EvalCtx<'r, R>, args: Seq<Expr<N>>, r: Value<N>) -> bool {
    &&& args.len() % 2 == 0 ==> countifs_read(ctx, args, r)
}

/// How many of the first `k` positions a mask marks.
pub open spec fn marked_count(mask: Seq<bool>, k: int) -> nat
    decreases k,
{
    if k <= 0 {
        0
    } else {
        marked_count(mask, k - 1) + if mask[k - 1] { 1nat } else { 0nat }
    }
}

/// The positions among the first `k` at which a mask is true.
pub open spec fn marked_positions(mask: Seq<bool>, k: int) -> Set<int> {
    Set::new(|i: int| 0 <= i < k && mask[i])
}

/// `COUNTIFS` counts positions: how many of the first `k` positions a mask marks is the size of the
/// (finite) set of the marked positions.
pub proof fn law_marked_count_is_positions(mask: Seq<bool>, k: int)
    requires
        0 <= k <= mask.len(),
    ensures
        marked_positions(mask, k).finite(),
        marked_count(mask, k) == marked_positions(mask, k).len(),
    decreases k,
{
    if k == 0 {
        assert(marked_positions(mask, k) =~= Set::<int>::empty());
    } else {
        law_marked_count_is_positions(mask, k - 1);
        let prev = marked_positions(mask, k - 1);
        assert(!prev.contains(k - 1));
        if mask[k - 1] {
            assert(marked_positions(mask, k) =~= prev.insert(k - 1));
        } else {
            assert(marked_positions(mask, k) =~= prev);
        }
    }
}

/// `COUNTIF` agrees with `COUNTIFS` over one pair: the cells among the first `k` that satisfy a
/// criterion are as many as the positions its match mask marks, so as many as the set of the
/// positions whose cell satisfies it.
pub proof fn law_countif_counts_matches<N: Number>(c: Criterion<N>, cells: Seq<Value<N>>, k: int)
    requires
        0 <= k <= cells.len(),
    ensures
        matching_count(c, cells, k) == marked_count(crit_mask(c, cells), k),
        matching_count(c, cells, k) == Set::new(|i: int| 0 <= i < k && spec_matches(c, cells[i])).len(),
        Set::new(|i: int| 0 <= i < k && spec_matches(c, cells[i])).finite(),
    decreases k,
{
    if k > 0 {
        law_countif_counts_matches(c, cells, k - 1);
    }
    law_marked_count_is_positions(crit_mask(c, cells), k);
    assert(Set::new(|i: int| 0 <= i < k && spec_matches(c, cells[i])) =~= marked_positions(crit_mask(c, cells), k));
}

/// What `COUNTIFS` gives over its evaluated arguments: the first failure of the mask its criteria
/// pairs build (see [`mask_by`]), else how many positions the mask marks.
pub open spec fn countifs_read<'r, N: Number, R: Resolver<N>>(ctx: EvalCtx<'r, R>, args: Seq<Expr<N>>, r: Value<N>) -> bool {
    exists|ranges: Seq<Value<N>>, crits: Seq<Result<Criterion<N>, ErrKind>>, mres: Result<((u32, u32), Seq<bool>), ErrKind>|
        #[trigger] mask_by(ctx, args, 0, ranges, crits, mres) && match mres {
            Err(k) => r == Value::<N>::Error(k),
            Ok(t) => r == Value::<N>::Number(N::spec_from_int(clamp_count(marked_count(t.1, t.1.len() as int) as int))),
        }
}

/// `COUNTIFS(criteria_range1, criteria1, …)` — how many positions match every criterion; an odd
/// argument count is `#VALUE!`.
pub fn countifs<N: Number, R: Resolver<N>>(ctx: &mut EvalCtx<R>, args: &[Expr<N>]) -> (r: Value<N>)
    requires
        args.len() >= 2,
    ensures
        restored(*old(ctx), *final(ctx)),
        r is Number || r is Error,
        args.len() % 2 == 1 ==> r == Value::<N>::Error(ErrKind::Value),
        args.len() % 2 == 0 ==> countifs_read(*old(ctx), args@, r),
    decreases args_size(args@), 7nat,
{
    if args.len() % 2 != 0 {
        return Value::Error(ErrKind::Value);
    }
    let rm = build_mask(ctx, args, 0);
    let ghost (ranges, crits) = choose|ranges: Seq<Value<N>>, crits: Seq<Result<Criterion<N>, ErrKind>>|
        #[trigger] mask_by(*old(ctx), args@, 0, ranges, crits, mask_res(rm));
    proof {
        assert(mask_by(*old(ctx), args@, 0, ranges, crits, mask_res(rm)));
    }
    match rm {
        Ok((_, mask)) => {
            let mut n: u64 = 0;
            let mut j: usize = 0;
            while j < mask.len()
                invariant
                    j <= mask.len(),
                    n <= j,
                    n == marked_count(mask@, j as int),
                decreases mask.len() - j,
            {
                if mask[j] {
                    n = n + 1;
                }
                j = j + 1;
            }
            count_value(n)
        },
        Err(k) => Value::Error(k),
    }
}

} // verus!
