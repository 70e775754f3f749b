//! First-class evaluation values: [`Value`], [`ErrKind`], [`Shape`], and the [`Number`] domain
//! the engine computes in.
//!
//! The engine is written once over an abstract number type: every arithmetic primitive it needs
//! (IEEE operations, rounding, parsing and general-format rendering) is a method of [`Number`], and
//! everything built on top of them — coercion, error propagation, dispatch, criteria, text and
//! calendar logic — lives here and is verified for every implementation of it. The double-precision
//! implementation the spreadsheet runs on is supplied by the embedding application.

use vstd::prelude::*;

verus! {

/// A first-class spreadsheet error value.
#[derive(Clone, Copy, Debug, PartialEq, Eq, Hash, Structural)]
pub enum ErrKind {
    /// `#NULL!`
    Null,
    /// `#DIV/0!`
    Div0,
    /// `#VALUE!`
    Value,
    /// `#REF!`
    Ref,
    /// `#NAME?`
    Name,
    /// `#NUM!`
    Num,
    /// `#N/A`
    Na,
    /// `#SPILL!`
    Spill,
    /// `#CALC!`
    Calc,
}

/// The rectangular shape of an array value: `rows × cols`, cells stored row-major.
#[derive(Clone, Copy, Debug, PartialEq, Eq, Hash, Structural)]
pub struct Shape {
    pub rows: u32,
    pub cols: u32,
}

/// The outcome of comparing two numbers.
#[derive(Clone, Copy, Debug, PartialEq, Eq, Structural)]
pub enum Order {
    Less,
    Equal,
    Greater,
}

/// A decimal digit character.
pub open spec fn is_decimal_char(c: char) -> bool {
    '0' <= c <= '9'
}

/// The integer a run of decimal digit characters spells.
pub open spec fn decimal_value(s: Seq<char>) -> int
    decreases s.len(),
{
    if s.len() == 0 {
        0
    } else {
        decimal_value(s.drop_last()) * 10 + (s.last() as int - '0' as int)
    }
}

/// The arithmetic a spreadsheet number supports. Implementations are expected to behave as IEEE
/// double precision does (the embedding application supplies that one). Every numeric operation is
/// a function of its arguments, as the `spec_` functions name them (an implementation over IEEE
/// doubles gives every NaN result one canonical NaN); the text conversions are not named so. Beyond that, the contracts state the few laws double precision keeps exactly:
/// integers of at most 53 bits convert to and from numbers without loss and order as integers do,
/// a text without a digit parses to nothing, and a short run of decimal digits parses to the
/// integer it spells.
pub trait Number: Copy + Sized {
    /// The number `from_int(i)` returns.
    spec fn spec_from_int(i: i64) -> Self;
    /// The order `order` reports between `self` and `other`.
    spec fn spec_order(self, other: Self) -> Option<Order>;
    /// The number `plus` returns.
    spec fn spec_plus(self, other: Self) -> Self;
    /// The number `minus` returns.
    spec fn spec_minus(self, other: Self) -> Self;
    /// The number `times` returns.
    spec fn spec_times(self, other: Self) -> Self;
    /// The number `over` returns.
    spec fn spec_over(self, other: Self) -> Self;
    /// What `finite` reports.
    spec fn spec_finite(self) -> bool;
    /// The number `negate` returns.
    spec fn spec_negate(self) -> Self;
    /// The number `magnitude` returns.
    spec fn spec_magnitude(self) -> Self;
    /// The number `square_root` returns.
    spec fn spec_square_root(self) -> Self;
    /// The number `power` returns.
    spec fn spec_power(self, exponent: Self) -> Self;
    /// The number `ten_to` returns.
    spec fn spec_ten_to(exponent: i32) -> Self;
    /// The number `floor_of` returns.
    spec fn spec_floor_of(self) -> Self;
    /// The number `ceil_of` returns.
    spec fn spec_ceil_of(self) -> Self;
    /// The number `trunc_of` returns.
    spec fn spec_trunc_of(self) -> Self;
    /// The number `round_of` returns.
    spec fn spec_round_of(self) -> Self;
    /// What `sign_negative` reports.
    spec fn spec_sign_negative(self) -> bool;
    /// The number `ln` returns.
    spec fn spec_ln(self) -> Self;
    /// The number `log10` returns.
    spec fn spec_log10(self) -> Self;
    /// The number `exp` returns.
    spec fn spec_exp(self) -> Self;
    /// The integer `trunc_int` returns.
    spec fn spec_trunc_int(self) -> i64;
    /// The integer `floor_int` returns.
    spec fn spec_floor_int(self) -> i64;
    /// The integer `trunc_u64` returns.
    spec fn spec_trunc_u64(self) -> u64;
    /// The number `from_u128` returns.
    spec fn spec_from_u128(i: u128) -> Self;
    /// Integers of at most 53 bits are numbers exactly: each is finite, comes back unchanged through
    /// `floor_int` and `trunc_int`, two of them order as the integers do, and their sum, difference
    /// and non-zero product are exact while the result stays within 53 bits; a zero product (which
    /// may carry a negative sign) orders equal to zero.
    proof fn law_exact_integers(i: i64, j: i64)
        requires
            -0x20_0000_0000_0000 <= i <= 0x20_0000_0000_0000,
            -0x20_0000_0000_0000 <= j <= 0x20_0000_0000_0000,
        ensures
            Self::spec_from_int(i).spec_finite(),
            Self::spec_from_int(i).spec_floor_int() == i,
            Self::spec_from_int(i).spec_trunc_int() == i,
            Self::spec_from_int(i).spec_order(Self::spec_from_int(j))
                == Some(if i < j { Order::Less } else if i == j { Order::Equal } else { Order::Greater }),
            -0x20_0000_0000_0000 <= i + j <= 0x20_0000_0000_0000
                ==> Self::spec_from_int(i).spec_plus(Self::spec_from_int(j)) == Self::spec_from_int((i + j) as i64),
            -0x20_0000_0000_0000 <= i - j <= 0x20_0000_0000_0000
                ==> Self::spec_from_int(i).spec_minus(Self::spec_from_int(j)) == Self::spec_from_int((i - j) as i64),
            i * j != 0 && -0x20_0000_0000_0000 <= i * j <= 0x20_0000_0000_0000
                ==> Self::spec_from_int(i).spec_times(Self::spec_from_int(j)) == Self::spec_from_int((i * j) as i64),
            i * j == 0 ==> Self::spec_from_int(i).spec_times(Self::spec_from_int(j)).spec_order(Self::spec_from_int(0))
                == Some(Order::Equal);
    /// The order is a partial order whose incomparable elements compare with nothing (as IEEE
    /// doubles order, NaN aside from everything): it is antisymmetric, transitive, reflexive on the
    /// comparable elements, and any two comparable elements are ordered.
    proof fn law_order(a: Self, b: Self, c: Self)
        ensures
            a.spec_order(b) == Some(Order::Less) <==> b.spec_order(a) == Some(Order::Greater),
            a.spec_order(b) == Some(Order::Equal) <==> b.spec_order(a) == Some(Order::Equal),
            a.spec_order(b) is Some ==> a.spec_order(a) == Some(Order::Equal),
            a.spec_order(a) is Some && b.spec_order(b) is Some ==> a.spec_order(b) is Some,
            a.spec_order(b) != Some(Order::Greater) && a.spec_order(b) is Some && b.spec_order(c) != Some(Order::Greater)
                && b.spec_order(c) is Some ==> a.spec_order(c) != Some(Order::Greater) && a.spec_order(c) is Some,
            a.spec_order(b) == Some(Order::Less) && b.spec_order(c) is Some && b.spec_order(c) != Some(Order::Greater)
                ==> a.spec_order(c) == Some(Order::Less),
            a.spec_order(b) is Some && a.spec_order(b) != Some(Order::Greater) && b.spec_order(c) == Some(Order::Less)
                ==> a.spec_order(c) == Some(Order::Less);
    /// Rounding leaves an integer of at most 53 bits as it is (`floor_of`, `ceil_of`, `trunc_of` and
    /// `round_of` of it are itself), and its magnitude is its absolute value.
    proof fn law_integral(i: i64)
        requires
            -0x20_0000_0000_0000 <= i <= 0x20_0000_0000_0000,
        ensures
            Self::spec_from_int(i).spec_floor_of() == Self::spec_from_int(i),
            Self::spec_from_int(i).spec_ceil_of() == Self::spec_from_int(i),
            Self::spec_from_int(i).spec_trunc_of() == Self::spec_from_int(i),
            Self::spec_from_int(i).spec_round_of() == Self::spec_from_int(i),
            Self::spec_from_int(i).spec_magnitude() == Self::spec_from_int((if i < 0 { -i } else { i as int }) as i64);
    /// The number equal to the integer `i`. An integer of at most 53 bits comes back unchanged
    /// through `floor_int` and `trunc_int`, is finite, and orders against another such integer as
    /// the integers do.
    fn from_int(i: i64) -> (r: Self)
        ensures
            r == Self::spec_from_int(i),
            -0x20_0000_0000_0000 <= i <= 0x20_0000_0000_0000 ==> r.spec_finite() && r.spec_floor_int() == i
                && r.spec_trunc_int() == i,
            -0x20_0000_0000_0000 <= i <= 0x20_0000_0000_0000 ==> forall|j: i64|
                -0x20_0000_0000_0000 <= j <= 0x20_0000_0000_0000 ==> #[trigger] r.spec_order(Self::spec_from_int(j))
                    == Some(if i < j { Order::Less } else if i == j { Order::Equal } else { Order::Greater });
    /// Sum.
    fn plus(self, other: Self) -> (r: Self)
        ensures
            r == self.spec_plus(other);
    /// Difference.
    fn minus(self, other: Self) -> (r: Self)
        ensures
            r == self.spec_minus(other);
    /// Product.
    fn times(self, other: Self) -> (r: Self)
        ensures
            r == self.spec_times(other);
    /// Quotient.
    fn over(self, other: Self) -> (r: Self)
        ensures
            r == self.spec_over(other);
    /// Negation.
    fn negate(self) -> (r: Self)
        ensures
            r == self.spec_negate();
    /// Magnitude.
    fn magnitude(self) -> (r: Self)
        ensures
            r == self.spec_magnitude();
    /// `self` raised to the real power `exponent`.
    fn power(self, exponent: Self) -> (r: Self)
        ensures
            r == self.spec_power(exponent);
    /// Ten raised to the integer power `exponent`.
    fn ten_to(exponent: i32) -> (r: Self)
        ensures
            r == Self::spec_ten_to(exponent);
    /// Square root.
    fn square_root(self) -> (r: Self)
        ensures
            r == self.spec_square_root();
    /// Largest integer not above `self`.
    fn floor_of(self) -> (r: Self)
        ensures
            r == self.spec_floor_of();
    /// Smallest integer not below `self`.
    fn ceil_of(self) -> (r: Self)
        ensures
            r == self.spec_ceil_of();
    /// `self` with its fraction dropped (toward zero).
    fn trunc_of(self) -> (r: Self)
        ensures
            r == self.spec_trunc_of();
    /// `self` rounded to the nearest integer, ties away from zero.
    fn round_of(self) -> (r: Self)
        ensures
            r == self.spec_round_of();
    /// Whether `self` is neither infinite nor NaN.
    fn finite(self) -> (r: bool)
        ensures
            r == self.spec_finite();
    /// Whether `self` carries a negative sign (negative zero included).
    fn sign_negative(self) -> (r: bool)
        ensures
            r == self.spec_sign_negative();
    /// Natural logarithm.
    fn ln(self) -> (r: Self)
        ensures
            r == self.spec_ln();
    /// Base-10 logarithm.
    fn log10(self) -> (r: Self)
        ensures
            r == self.spec_log10();
    /// `e` raised to `self`.
    fn exp(self) -> (r: Self)
        ensures
            r == self.spec_exp();
    /// The order of `self` against `other`, or `None` when they are unordered (NaN).
    fn order(self, other: Self) -> (r: Option<Order>)
        ensures
            r == self.spec_order(other);
    /// `self` truncated toward zero as an integer, saturating at the `i64` bounds (NaN gives 0).
    fn trunc_int(self) -> (r: i64)
        ensures
            r == self.spec_trunc_int();
    /// `self` floored as an integer, saturating at the `i64` bounds (NaN gives 0).
    fn floor_int(self) -> (r: i64)
        ensures
            r == self.spec_floor_int();
    /// `self` truncated toward zero as an unsigned integer, saturating at the `u64` bounds (NaN and
    /// negatives give 0).
    fn trunc_u64(self) -> (r: u64)
        ensures
            r == self.spec_trunc_u64();
    /// The number nearest to the unsigned integer `i` (the same number `from_int` gives for an `i`
    /// within its range).
    fn from_u128(i: u128) -> (r: Self)
        ensures
            r == Self::spec_from_u128(i),
            i <= 0x7fff_ffff_ffff_ffff ==> r == Self::spec_from_int(i as i64);
    /// The finite number `text` spells, or `None` when it spells no finite number: a text without a
    /// decimal digit spells none, and one to fifteen decimal digits spell the integer they write.
    fn parse_text(text: &str) -> (r: Option<Self>)
        ensures
            r matches Some(n) ==> n.spec_finite(),
            (forall|i: int| 0 <= i < text@.len() ==> !is_decimal_char(#[trigger] text@[i])) ==> r is None,
            1 <= text@.len() <= 15 && (forall|i: int| 0 <= i < text@.len() ==> is_decimal_char(#[trigger] text@[i]))
                ==> r == Some(Self::spec_from_int(decimal_value(text@) as i64));
    /// The general-format text of `self` (shortest round-tripping form, no trailing `.0`).
    fn general_text(self) -> String;
    /// The integer digits of `self` rounded to a whole number, without sign handling beyond what
    /// the rendering produces (`{:.0}`).
    fn whole_text(self) -> String;
}

/// A first-class value: the result of evaluating any expression.
#[derive(Debug, PartialEq)]
pub enum Value<N> {
    Number(N),
    Text(String),
    Bool(bool),
    Blank,
    Error(ErrKind),
    /// A rectangular array of cells, row-major.
    Array(Shape, Vec<Value<N>>),
}

/// The size of a value, counting every nested cell.
pub open spec fn value_size<N>(v: Value<N>) -> nat
    decreases v,
{
    match v {
        Value::Array(_, cells) => 1 + cells_size(cells@),
        _ => 1,
    }
}

/// The total size of a run of cells.
pub open spec fn cells_size<N>(s: Seq<Value<N>>) -> nat
    decreases s,
{
    if s.len() == 0 {
        0
    } else {
        cells_size(s.drop_last()) + value_size(s.last())
    }
}

/// Two values are the same value: equal scalars, or arrays of the same shape whose cells are the
/// same value position by position.
pub open spec fn same_value<N>(a: Value<N>, b: Value<N>) -> bool
    decreases a,
{
    match a {
        Value::Array(s1, c1) => match b {
            Value::Array(s2, c2) => s1 == s2 && same_cells(c1@, c2@),
            _ => false,
        },
        _ => a == b,
    }
}

/// Two runs of cells hold the same values position by position.
pub open spec fn same_cells<N>(x: Seq<Value<N>>, y: Seq<Value<N>>) -> bool
    decreases x,
{
    if x.len() == 0 {
        y.len() == 0
    } else {
        y.len() == x.len() && same_cells(x.drop_last(), y.drop_last()) && same_value(x.last(), y.last())
    }
}

impl<N: Number + Copy> Value<N> {
    /// A copy of this value: the same value, cell for cell.
    pub fn duplicate(&self) -> (r: Value<N>)
        ensures
            same_value(r, *self),
        decreases value_size(*self), 1nat,
    {
        match self {
            Value::Number(n) => Value::Number(*n),
            Value::Text(t) => Value::Text(t.clone()),
            Value::Bool(b) => Value::Bool(*b),
            Value::Blank => Value::Blank,
            Value::Error(k) => Value::Error(*k),
            Value::Array(shape, cells) => Value::Array(*shape, duplicate_cells(cells)),
        }
    }
}

/// A copy of a run of cells, equal to it cell for cell.
pub fn duplicate_cells<N: Number + Copy>(cells: &Vec<Value<N>>) -> (r: Vec<Value<N>>)
    ensures
        same_cells(r@, cells@),
    decreases cells_size(cells@), 2nat,
{
    let mut r: Vec<Value<N>> = Vec::new();
    let mut i: usize = 0;
    while i < cells.len()
        invariant
            i <= cells.len(),
            r@.len() == i,
            same_cells(r@, cells@.subrange(0, i as int)),
        decreases cells.len() - i,
    {
        proof {
            lemma_cell_size_bound(cells@, i as int);
        }
        let c = cells[i].duplicate();
        let ghost old_r = r@;
        r.push(c);
        proof {
            assert(r@.drop_last() =~= old_r);
            assert(cells@.subrange(0, i + 1).drop_last() =~= cells@.subrange(0, i as int));
        }
        i = i + 1;
    }
    assert(cells@.subrange(0, cells@.len() as int) =~= cells@);
    r
}

/// Each cell is no larger than the run it belongs to.
pub proof fn lemma_cell_size_bound<N>(s: Seq<Value<N>>, i: int)
    requires
        0 <= i < s.len(),
    ensures
        value_size(s[i]) <= cells_size(s),
    decreases s.len(),
{
    if i < s.len() - 1 {
        lemma_cell_size_bound(s.drop_last(), i);
        assert(s.drop_last()[i] == s[i]);
    }
}

} // verus!
