//! Implicit array evaluation: an array handed to a scalar-expecting argument position maps the
//! call element-wise and yields an array ([`eval_call`]); plus the element-wise selection of `IF`
//! over an array condition ([`map_if`]) and the element-wise catch of `IFERROR` / `IFNA`
//! ([`map_catch`]).

use vstd::prelude::*;
use crate::eval::{bool_of_scalar, coerce_bool, evaluates, lemma_restored_same, restored, spec_scalarize, EvalCtx};
use crate::expr::{args_size, lemma_arg_size, lemma_args_size_at_least_len, lemma_lit_args_size, Expr, FuncId, Resolver};
use crate::func::{row_outcome, row_reads, run_row, spec_arity_ok, spec_def, Broadcast, FuncDef};
use crate::value::{same_value, ErrKind, Number, Shape, Value};

verus! {

/// The shape a value in a scalar position forces a call to map over: a genuine (not 1×1) array's
/// shape, or `None`.
pub open spec fn forced_shape<N>(v: Value<N>) -> Option<Shape> {
    match v {
        Value::Array(s, _) => if s.rows == 1 && s.cols == 1 { None } else { Some(s) },
        _ => None,
    }
}

/// The shape shared by the scalar positions `pos` (in order) of the argument values: the first
/// forced shape, `#VALUE!` as soon as a later one differs, `None` when no position forces one. A
/// position past the arguments forces nothing.
pub open spec fn spec_broadcast_shape<N>(vals: Seq<Value<N>>, pos: Seq<usize>) -> Result<Option<Shape>, ErrKind>
    decreases pos.len(),
{
    if pos.len() == 0 {
        Ok(None)
    } else {
        match spec_broadcast_shape(vals, pos.drop_last()) {
            Err(k) => Err(k),
            Ok(prev) => {
                let p = pos.last() as int;
                let forced = if p < vals.len() { forced_shape(vals[p]) } else { None };
                match forced {
                    None => Ok(prev),
                    Some(s) => match prev {
                        None => Ok(Some(s)),
                        Some(e) => if e == s { Ok(Some(e)) } else { Err(ErrKind::Value) },
                    },
                }
            },
        }
    }
}

/// Once a prefix of the positions disagrees, the whole run does.
proof fn lemma_error_sticks<N>(vals: Seq<Value<N>>, pos: Seq<usize>, i: int)
    requires
        0 <= i <= pos.len(),
        spec_broadcast_shape(vals, pos.subrange(0, i)) is Err,
    ensures
        spec_broadcast_shape(vals, pos) == spec_broadcast_shape(vals, pos.subrange(0, i)),
    decreases pos.len() - i,
{
    if i < pos.len() {
        assert(pos.subrange(0, i + 1).drop_last() =~= pos.subrange(0, i));
        lemma_error_sticks(vals, pos, i + 1);
    } else {
        assert(pos.subrange(0, i) =~= pos);
    }
}

/// The common shape to map a call over (see [`spec_broadcast_shape`]): two scalar-position arrays
/// of different shapes are `#VALUE!`; a 1×1 array collapses to its cell and forces nothing.
pub fn broadcast_shape<N>(vals: &[Value<N>], positions: &[usize]) -> (r: Result<Option<Shape>, ErrKind>)
    ensures
        r == spec_broadcast_shape(vals@, positions@),
{
    let mut shape: Option<Shape> = None;
    let mut i: usize = 0;
    while i < positions.len()
        invariant
            i <= positions.len(),
            spec_broadcast_shape(vals@, positions@.subrange(0, i as int)) == Ok::<Option<Shape>, ErrKind>(shape),
        decreases positions.len() - i,
    {
        let p = positions[i];
        assert(positions@.subrange(0, i + 1).drop_last() =~= positions@.subrange(0, i as int));
        if p < vals.len() {
            match &vals[p] {
                Value::Array(s, _) => {
                    if !(s.rows == 1 && s.cols == 1) {
                        match shape {
                            None => {
                                shape = Some(*s);
                            },
                            Some(e) => {
                                if e != *s {
                                    proof {
                                        lemma_error_sticks(vals@, positions@, i + 1);
                                    }
                                    return Err(ErrKind::Value);
                                }
                            },
                        }
                    }
                },
                _ => {},
            }
        }
        i = i + 1;
    }
    assert(positions@.subrange(0, positions@.len() as int) =~= positions@);
    Ok(shape)
}

/// A branch of an array `IF` fits the condition's shape: it is not an array, or a 1×1 one, or an
/// array of exactly that shape.
pub open spec fn branch_fits<N>(v: Value<N>, shape: Shape) -> bool {
    match v {
        Value::Array(s, _) => (s.rows == 1 && s.cols == 1) || s == shape,
        _ => true,
    }
}

/// What a branch gives cell `i` of an array `IF`: a 1×1 array its single cell (blank if it holds
/// none), a larger array its `i`-th cell (`#N/A` past its cells), anything else itself.
pub open spec fn spec_branch_cell<N>(v: Value<N>, i: int) -> Value<N> {
    match v {
        Value::Array(s, cells) => if s.rows == 1 && s.cols == 1 {
            if cells@.len() > 0 { cells@[0] } else { Value::Blank }
        } else if 0 <= i < cells@.len() {
            cells@[i]
        } else {
            Value::Error(ErrKind::Na)
        },
        _ => v,
    }
}

/// Cell `i` of a branch (see [`spec_branch_cell`]).
fn branch_cell<N: Number>(v: &Value<N>, i: usize) -> (r: Value<N>)
    ensures
        same_value(r, spec_branch_cell(*v, i as int)),
{
    match v {
        Value::Array(s, cells) => {
            if s.rows == 1 && s.cols == 1 {
                if cells.len() > 0 { cells[0].duplicate() } else { Value::Blank }
            } else if i < cells.len() {
                cells[i].duplicate()
            } else {
                Value::Error(ErrKind::Na)
            }
        },
        other => other.duplicate(),
    }
}

/// What cell `i` of an array `IF` holds: the condition cell's boolean picks the `then` or `else`
/// branch's cell; a condition cell that is no boolean gives its coercion error.
pub open spec fn if_cell<N: Number>(c: Value<N>, then_v: Value<N>, else_v: Value<N>, i: int) -> Value<N> {
    match bool_of_scalar(spec_scalarize(c)) {
        Err(k) => Value::Error(k),
        Ok(b) => if b { spec_branch_cell(then_v, i) } else { spec_branch_cell(else_v, i) },
    }
}

/// `IF` over an array condition of a given shape: a branch that does not fit the shape (see
/// [`branch_fits`]) makes the result `#VALUE!`; otherwise cell by cell (over the condition's cells,
/// at most the shape's count) the selection of [`if_cell`].
pub fn map_if<N: Number>(shape: Shape, cond: &Vec<Value<N>>, then_v: &Value<N>, else_v: &Value<N>) -> (r: Value<N>)
    ensures
        !branch_fits(*then_v, shape) || !branch_fits(*else_v, shape) ==> r == Value::<N>::Error(ErrKind::Value),
        branch_fits(*then_v, shape) && branch_fits(*else_v, shape) ==> (r matches Value::Array(s, out) && s == shape
            && out@.len() == (if cond@.len() < shape.rows * shape.cols { cond@.len() as int } else { shape.rows * shape.cols })
            && forall|i: int| 0 <= i < out@.len() ==> same_value(#[trigger] out@[i], if_cell(cond@[i], *then_v, *else_v, i))),
{
    let fits_then = match then_v {
        Value::Array(s, _) => (s.rows == 1 && s.cols == 1) || *s == shape,
        _ => true,
    };
    let fits_else = match else_v {
        Value::Array(s, _) => (s.rows == 1 && s.cols == 1) || *s == shape,
        _ => true,
    };
    if !fits_then || !fits_else {
        return Value::Error(ErrKind::Value);
    }
    let (r64, c64) = (shape.rows as u64, shape.cols as u64);
    assert(r64 * c64 <= 0xffff_ffffu64 * 0xffff_ffffu64) by (nonlinear_arith)
        requires
            r64 <= 0xffff_ffffu64,
            c64 <= 0xffff_ffffu64,
    ;
    let count: u64 = r64 * c64;
    let mut out: Vec<Value<N>> = Vec::new();
    let mut i: usize = 0;
    while i < cond.len() && (i as u64) < count
        invariant
            i <= cond@.len(),
            i <= count,
            count == shape.rows * shape.cols,
            out@.len() == i,
            forall|k: int| 0 <= k < i ==> same_value(#[trigger] out@[k], if_cell(cond@[k], *then_v, *else_v, k)),
        decreases cond@.len() - i,
    {
        let v = match coerce_bool(&cond[i]) {
            Err(k) => Value::Error(k),
            Ok(b) => if b { branch_cell(then_v, i) } else { branch_cell(else_v, i) },
        };
        out.push(v);
        i = i + 1;
    }
    Value::Array(shape, out)
}

/// Which errors an element-wise catch replaces: any error (`IFERROR`) or only `#N/A` (`IFNA`).
#[derive(Clone, Copy, PartialEq, Eq, Structural)]
pub enum Catch {
    AnyError,
    NotAvailable,
}

/// Whether a catch of the given kind replaces a value.
pub open spec fn caught<N>(kind: Catch, v: Value<N>) -> bool {
    match kind {
        Catch::AnyError => v is Error,
        Catch::NotAvailable => v == Value::<N>::Error(ErrKind::Na),
    }
}

/// Whether a catch of the given kind replaces a value (see [`caught`]).
pub fn is_caught<N>(kind: Catch, v: &Value<N>) -> (r: bool)
    ensures
        r == caught(kind, *v),
{
    match v {
        Value::Error(k) => match kind {
            Catch::AnyError => true,
            Catch::NotAvailable => match k {
                ErrKind::Na => true,
                _ => false,
            },
        },
        _ => false,
    }
}

/// What cell `i` of an element-wise catch holds: the fallback's cell `i` (see
/// [`spec_branch_cell`]) where the value's cell is caught, the value's cell otherwise.
pub open spec fn catch_cell<N>(kind: Catch, c: Value<N>, fallback: Value<N>, i: int) -> Value<N> {
    if caught(kind, c) { spec_branch_cell(fallback, i) } else { c }
}

/// `IFERROR` / `IFNA` over an array value: a fallback that does not fit the array's shape (see
/// [`branch_fits`]) makes the result `#VALUE!`; otherwise every caught cell is replaced by the
/// fallback's cell (a scalar or 1×1 fallback broadcasts) and every other cell is kept.
pub fn map_catch<N: Number>(shape: Shape, cells: &Vec<Value<N>>, fallback: &Value<N>, kind: Catch) -> (r: Value<N>)
    ensures
        !branch_fits(*fallback, shape) ==> r == Value::<N>::Error(ErrKind::Value),
        branch_fits(*fallback, shape) ==> (r matches Value::Array(s, out) && s == shape
            && out@.len() == cells@.len()
            && forall|i: int| 0 <= i < out@.len() ==> same_value(#[trigger] out@[i], catch_cell(kind, cells@[i], *fallback, i))),
{
    let fits = match fallback {
        Value::Array(s, _) => (s.rows == 1 && s.cols == 1) || *s == shape,
        _ => true,
    };
    if !fits {
        return Value::Error(ErrKind::Value);
    }
    let mut out: Vec<Value<N>> = Vec::new();
    let mut i: usize = 0;
    while i < cells.len()
        invariant
            i <= cells@.len(),
            out@.len() == i,
            forall|k: int| 0 <= k < i ==> same_value(#[trigger] out@[k], catch_cell(kind, cells@[k], *fallback, k)),
        decreases cells@.len() - i,
    {
        let v = if is_caught(kind, &cells[i]) { branch_cell(fallback, i) } else { cells[i].duplicate() };
        out.push(v);
        i = i + 1;
    }
    Value::Array(shape, out)
}

/// Whether argument `idx` is a broadcasting position.
pub open spec fn spec_broadcasts(b: Broadcast, idx: int) -> bool {
    match b {
        Broadcast::Never => false,
        Broadcast::At(p) => idx == p,
        Broadcast::Every => true,
    }
}

/// The broadcasting positions of a call with `n` arguments, in order.
pub open spec fn spec_positions(b: Broadcast, n: nat) -> Seq<usize> {
    match b {
        Broadcast::Never => Seq::empty(),
        Broadcast::At(p) => seq![p],
        Broadcast::Every => Seq::new(n, |i: int| i as usize),
    }
}

/// The broadcasting positions of a call with `n` arguments (see [`spec_positions`]).
pub fn positions(b: Broadcast, n: usize) -> (r: Vec<usize>)
    ensures
        r@ == spec_positions(b, n as nat),
{
    match b {
        Broadcast::Never => Vec::new(),
        Broadcast::At(p) => vec![p],
        Broadcast::Every => {
            let mut v: Vec<usize> = Vec::new();
            let mut i: usize = 0;
            while i < n
                invariant
                    i <= n,
                    v@ == Seq::new(i as nat, |k: int| k as usize),
                decreases n - i,
            {
                v.push(i);
                i = i + 1;
                assert(v@ =~= Seq::new(i as nat, |k: int| k as usize));
            }
            v
        },
    }
}

/// What argument `v` gives cell `i` of a mapped call: a broadcasting position holding a genuine
/// (not 1×1) array gives its `i`-th cell (blank past its cells); anything else is given whole.
pub open spec fn spec_element_at<N>(v: Value<N>, at_pos: bool, i: int) -> Value<N> {
    if at_pos && forced_shape(v) is Some {
        match v {
            Value::Array(_, cells) => if 0 <= i < cells@.len() { cells@[i] } else { Value::Blank },
            _ => v,
        }
    } else {
        v
    }
}

/// What argument `v` gives cell `i` of a mapped call (see [`spec_element_at`]).
pub fn element_at<N: Number>(v: &Value<N>, at_pos: bool, i: usize) -> (r: Value<N>)
    ensures
        same_value(r, spec_element_at(*v, at_pos, i as int)),
{
    if at_pos {
        if let Value::Array(s, cells) = v {
            if !(s.rows == 1 && s.cols == 1) {
                return if i < cells.len() { cells[i].duplicate() } else { Value::Blank };
            }
        }
    }
    v.duplicate()
}

/// The leftmost argument value that is an error itself (an error inside an array does not count).
pub open spec fn leading_error<N>(vals: Seq<Value<N>>) -> Option<ErrKind>
    decreases vals.len(),
{
    if vals.len() == 0 {
        None
    } else {
        match leading_error(vals.drop_last()) {
            Some(k) => Some(k),
            None => match vals.last() {
                Value::Error(k) => Some(k),
                _ => None,
            },
        }
    }
}

/// Once a prefix holds an error, the whole run leads with it.
proof fn lemma_leading_error_sticks<N>(vals: Seq<Value<N>>, i: int)
    requires
        0 <= i <= vals.len(),
        leading_error(vals.subrange(0, i)) is Some,
    ensures
        leading_error(vals) == leading_error(vals.subrange(0, i)),
    decreases vals.len() - i,
{
    if i < vals.len() {
        assert(vals.subrange(0, i + 1).drop_last() =~= vals.subrange(0, i));
        lemma_leading_error_sticks(vals, i + 1);
    } else {
        assert(vals.subrange(0, i) =~= vals);
    }
}

/// The leftmost argument value that is an error itself (see [`leading_error`]).
pub fn first_scalar_error<N>(vals: &Vec<Value<N>>) -> (r: Option<ErrKind>)
    ensures
        r == leading_error(vals@),
{
    let mut i: usize = 0;
    while i < vals.len()
        invariant
            i <= vals@.len(),
            leading_error(vals@.subrange(0, i as int)) is None,
        decreases vals@.len() - i,
    {
        assert(vals@.subrange(0, i + 1).drop_last() =~= vals@.subrange(0, i as int));
        if let Value::Error(k) = &vals[i] {
            proof {
                lemma_leading_error_sticks(vals@, i + 1);
            }
            return Some(*k);
        }
        i = i + 1;
    }
    assert(vals@.subrange(0, i as int) =~= vals@);
    None
}

/// The literal arguments of cell `i` of a mapped call: each argument's [`spec_element_at`].
pub fn cell_args<N: Number>(vals: &Vec<Value<N>>, b: Broadcast, i: usize) -> (r: Vec<Expr<N>>)
    ensures
        r@.len() == vals@.len(),
        forall|idx: int| 0 <= idx < r@.len() ==> (#[trigger] r@[idx] matches Expr::Lit(v)
            && same_value(v, spec_element_at(vals@[idx], spec_broadcasts(b, idx), i as int))),
{
    let mut out: Vec<Expr<N>> = Vec::new();
    let mut idx: usize = 0;
    while idx < vals.len()
        invariant
            idx <= vals@.len(),
            out@.len() == idx,
            forall|j: int| 0 <= j < idx ==> (#[trigger] out@[j] matches Expr::Lit(v)
                && same_value(v, spec_element_at(vals@[j], spec_broadcasts(b, j), i as int))),
        decreases vals@.len() - idx,
    {
        let at_pos = match b {
            Broadcast::Never => false,
            Broadcast::At(p) => idx == p,
            Broadcast::Every => true,
        };
        out.push(Expr::Lit(element_at(&vals[idx], at_pos, i)));
        idx = idx + 1;
    }
    out
}

/// Every value as a literal argument, in order.
fn literal_args<N>(vals: Vec<Value<N>>) -> (r: Vec<Expr<N>>)
    ensures
        r@.len() == vals@.len(),
        forall|i: int| 0 <= i < r@.len() ==> #[trigger] r@[i] == Expr::Lit(vals@[i]),
{
    let mut out: Vec<Expr<N>> = Vec::new();
    let mut rest = vals;
    let ghost all = rest@;
    while rest.len() > 0
        invariant
            all.len() == out@.len() + rest@.len(),
            forall|j: int| 0 <= j < out@.len() ==> #[trigger] out@[j] == Expr::Lit(all[j]),
            forall|j: int| 0 <= j < rest@.len() ==> #[trigger] rest@[j] == all[out@.len() + j],
        decreases rest@.len(),
    {
        let v = rest.remove(0);
        out.push(Expr::Lit(v));
    }
    out
}

/// Whether `c` is what cell `i` of a call mapped over argument values `vals` gives: the row's
/// stated outcome on literal arguments holding each argument's [`spec_element_at`] for that cell.
pub open spec fn cell_holds<'r, N: Number, R: Resolver<N>>(id: FuncId, b: Broadcast, ctx: EvalCtx<'r, R>, vals: Seq<Value<N>>, i: int, c: Value<N>) -> bool {
    exists|lits: Seq<Expr<N>>| #[trigger] row_outcome(id, ctx, lits, c) && lits.len() == vals.len()
        && forall|j: int| 0 <= j < lits.len() ==> (#[trigger] lits[j] matches Expr::Lit(v)
            && same_value(v, spec_element_at(vals[j], spec_broadcasts(b, j), i)))
}

/// Whether `r` is a call mapped over every cell of `shape`: an array of that shape whose cell `i`
/// satisfies [`cell_holds`], or `#NUM!` when the shape has more cells than the machine can index.
pub open spec fn mapped_holds<'r, N: Number, R: Resolver<N>>(id: FuncId, b: Broadcast, ctx: EvalCtx<'r, R>, vals: Seq<Value<N>>, shape: Shape, r: Value<N>) -> bool {
    &&& shape.rows * shape.cols <= usize::MAX ==> (r matches Value::Array(s, out) && s == shape
        && out@.len() == shape.rows * shape.cols
        && forall|i: int| 0 <= i < out@.len() ==> cell_holds(id, b, ctx, vals, i, #[trigger] out@[i]))
    &&& shape.rows * shape.cols > usize::MAX ==> r == Value::<N>::Error(ErrKind::Num)
}

/// Whether `r` is what a broadcasting row gives once its arguments evaluated (at the context's
/// depth) to `vals`: broadcasting arrays of different shapes are `#VALUE!`; with no genuine array
/// there the row runs once on the values as literals; else an argument that is an error itself is
/// the result (the leftmost), and otherwise the call maps over the shared shape.
pub open spec fn broadcast_holds<'r, N: Number, R: Resolver<N>>(id: FuncId, b: Broadcast, ctx: EvalCtx<'r, R>, args: Seq<Expr<N>>, vals: Seq<Value<N>>, r: Value<N>) -> bool {
    &&& vals.len() == args.len()
    &&& forall|i: int| 0 <= i < vals.len() ==> evaluates(args[i], ctx.level() as int, ctx.source(), #[trigger] vals[i])
    &&& broadcast_result(id, b, ctx, vals, r)
}

/// Whether `r` is what a broadcasting row gives on argument values `vals` (see
/// [`broadcast_holds`]).
pub open spec fn broadcast_result<'r, N: Number, R: Resolver<N>>(id: FuncId, b: Broadcast, ctx: EvalCtx<'r, R>, vals: Seq<Value<N>>, r: Value<N>) -> bool {
    match spec_broadcast_shape(vals, spec_positions(b, vals.len())) {
        Err(k) => r == Value::<N>::Error(k),
        Ok(None) => row_outcome(id, ctx, Seq::new(vals.len(), |i: int| Expr::Lit(vals[i])), r),
        Ok(Some(shape)) => match leading_error(vals) {
            Some(k) => r == Value::<N>::Error(k),
            None => mapped_holds(id, b, ctx, vals, shape, r),
        },
    }
}

/// A call mapped over every cell of `shape`: cell `i` is the row's function run on
/// [`cell_args`]`(vals, b, i)`; the results tile the shape row-major. A shape with more cells
/// than the machine can index is `#NUM!`.
fn map_elementwise<N: Number, R: Resolver<N>>(
    id: FuncId,
    ctx: &mut EvalCtx<R>,
    args: &[Expr<N>],
    vals: &Vec<Value<N>>,
    b: Broadcast,
    shape: Shape,
) -> (r: Value<N>)
    requires
        spec_def(id.0) matches Some(f) && spec_arity_ok(f, args@.len()),
        vals@.len() == args@.len(),
    ensures
        restored(*old(ctx), *final(ctx)),
        shape.rows * shape.cols <= usize::MAX ==> (r matches Value::Array(s, out) && s == shape
            && out@.len() == shape.rows * shape.cols),
        shape.rows * shape.cols > usize::MAX ==> r == Value::<N>::Error(ErrKind::Num),
        mapped_holds(id, b, *old(ctx), vals@, shape, r),
    decreases args_size(args@), 11nat,
{
    let (r64, c64) = (shape.rows as u64, shape.cols as u64);
    assert(r64 * c64 <= 0xffff_ffffu64 * 0xffff_ffffu64) by (nonlinear_arith)
        requires
            r64 <= 0xffff_ffffu64,
            c64 <= 0xffff_ffffu64,
    ;
    let count: u64 = r64 * c64;
    if count > usize::MAX as u64 {
        return Value::Error(ErrKind::Num);
    }
    let mut out: Vec<Value<N>> = Vec::new();
    let mut i: usize = 0;
    while (i as u64) < count
        invariant
            i <= count,
            count == shape.rows * shape.cols,
            count <= usize::MAX,
            out@.len() == i,
            vals@.len() == args@.len(),
            spec_def(id.0) matches Some(f) && spec_arity_ok(f, args@.len()),
            restored(*old(ctx), *ctx),
            forall|j: int| 0 <= j < i ==> cell_holds(id, b, *old(ctx), vals@, j, #[trigger] out@[j]),
        decreases count - i,
    {
        let lits = cell_args(vals, b, i);
        proof {
            lemma_lit_args_size(lits@);
            lemma_args_size_at_least_len(args@);
        }
        let ghost before = *ctx;
        let c = run_row(id, ctx, &lits);
        proof {
            lemma_restored_same(*old(ctx), before);
            assert(row_outcome(id, *old(ctx), lits@, c));
            assert(cell_holds(id, b, *old(ctx), vals@, i as int, c));
        }
        out.push(c);
        i = i + 1;
    }
    Value::Array(shape, out)
}

/// Evaluate a call with implicit array evaluation over the row's broadcasting positions. A row
/// with none runs on its arguments as they stand. Otherwise every argument is evaluated once:
/// broadcasting arrays of different shapes are `#VALUE!` ([`broadcast_shape`]); with no genuine
/// array there, the row runs once on the values; else an argument that is an error itself makes
/// the whole call that (leftmost) error, and the call maps over the shared shape ([`map_elementwise`]).
pub fn eval_call<N: Number, R: Resolver<N>>(f: FuncDef, id: FuncId, ctx: &mut EvalCtx<R>, args: &[Expr<N>]) -> (r: Value<N>)
    requires
        spec_def(id.0) == Some(f),
        spec_arity_ok(f, args@.len()),
    ensures
        restored(*old(ctx), *final(ctx)),
        f.broadcast is Never ==> row_outcome(id, *old(ctx), args@, r) && row_reads(id, *old(ctx), args@, r),
        !(f.broadcast is Never) ==> exists|vals: Seq<Value<N>>| #[trigger] broadcast_holds(id, f.broadcast, *old(ctx), args@, vals, r),
    decreases args_size(args@), 12nat,
{
    if let Broadcast::Never = f.broadcast {
        return run_row(id, ctx, args);
    }
    let mut vals: Vec<Value<N>> = Vec::new();
    let mut i: usize = 0;
    while i < args.len()
        invariant
            i <= args@.len(),
            vals@.len() == i,
            restored(*old(ctx), *ctx),
            forall|j: int| 0 <= j < i ==> evaluates(args@[j], old(ctx).level() as int, old(ctx).source(), #[trigger] vals@[j]),
        decreases args@.len() - i,
    {
        proof {
            lemma_arg_size(args@, i as int);
        }
        vals.push(ctx.eval(&args[i]));
        i = i + 1;
    }
    proof {
        lemma_restored_same(*old(ctx), *ctx);
    }
    let ghost gv = vals@;
    let pos = positions(f.broadcast, args.len());
    let r = match broadcast_shape(vals.as_slice(), pos.as_slice()) {
        Err(k) => Value::Error(k),
        Ok(None) => {
            let lits = literal_args(vals);
            proof {
                assert forall|j: int| 0 <= j < lits@.len() implies #[trigger] lits@[j] is Lit by {}
                lemma_lit_args_size(lits@);
                lemma_args_size_at_least_len(args@);
                assert(lits@ =~= Seq::new(gv.len(), |j: int| Expr::Lit(gv[j])));
            }
            run_row(id, ctx, &lits)
        },
        Ok(Some(shape)) => match first_scalar_error(&vals) {
            Some(k) => Value::Error(k),
            None => map_elementwise(id, ctx, args, &vals, f.broadcast, shape),
        },
    };
    proof {
        assert(broadcast_holds(id, f.broadcast, *old(ctx), args@, gv, r));
    }
    r
}

} // verus!
