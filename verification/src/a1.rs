//! Shared A1 address grammar: [`parse_a1`], [`format_cell`], [`format_column`].
//!
//! A1 is the syntax both the filename parser and the formula parser read. [`parse_a1`] is
//! deliberately lenient and *reports* canonical-form deviations (`col_had_lowercase`,
//! `row_had_leading_zero`, the `$` flags) rather than judging them; each consumer layers its own
//! policy on the raw parse.

use vstd::prelude::*;
use crate::strings::push_char;
use vstd::string::StringSliceAdditionalSpecFns;

verus! {

/// The raw components of a parsed A1 address, zero-based, before any layer's policy is applied.
#[derive(Clone, Copy, Debug, PartialEq, Eq)]
pub struct A1Address {
    /// Zero-based column index (`A` -> 0, `Z` -> 25, `AA` -> 26).
    pub col: u32,
    /// Zero-based row index (`1` -> 0).
    pub row: u32,
    /// A `$` preceded the column letters (`$A1`, `$A$1`).
    pub col_abs: bool,
    /// A `$` preceded the row digits (`A$1`, `$A$1`).
    pub row_abs: bool,
    /// The column contained at least one lowercase letter (`a1`).
    pub col_had_lowercase: bool,
    /// The row began with `0` (`A01`, `A0`).
    pub row_had_leading_zero: bool,
}

/// A located reason an A1 address string is not well-formed. `at` is a byte offset into the input.
#[derive(Clone, Copy, Debug, PartialEq, Eq)]
pub enum A1Error {
    /// The input was empty.
    Empty,
    /// No column letters where a column was required.
    MissingColumn { at: usize },
    /// No row digits where a row was required.
    MissingRow { at: usize },
    /// Trailing bytes after a complete address.
    UnexpectedChar { at: usize },
    /// The column index overflowed `u32`.
    ColumnOverflow,
    /// The row index overflowed `u32`.
    RowOverflow,
}

// ---------------------------------------------------------------------------------------------
// The grammar as mathematics: byte classes, the two digit systems, and the scan positions.
// ---------------------------------------------------------------------------------------------

pub open spec fn is_alpha(b: u8) -> bool {
    (65 <= b <= 90) || (97 <= b <= 122)
}

pub open spec fn is_lower(b: u8) -> bool {
    97 <= b <= 122
}

pub open spec fn is_digit(b: u8) -> bool {
    48 <= b <= 57
}

/// The bijective base-26 digit of a letter (`A`/`a` -> 1 … `Z`/`z` -> 26).
pub open spec fn letter_digit(b: u8) -> int {
    if is_lower(b) { b - 96 } else { b - 64 }
}

/// The bijective base-26 value of a run of letters (`A` -> 1, `Z` -> 26, `AA` -> 27).
pub open spec fn letters_value(s: Seq<u8>) -> int
    decreases s.len(),
{
    if s.len() == 0 {
        0
    } else {
        letters_value(s.drop_last()) * 26 + letter_digit(s.last())
    }
}

/// The decimal value of a run of digits.
pub open spec fn digits_value(s: Seq<u8>) -> int
    decreases s.len(),
{
    if s.len() == 0 {
        0
    } else {
        digits_value(s.drop_last()) * 10 + (s.last() - 48)
    }
}

/// The end of the maximal run of letters starting at `i`.
pub open spec fn letters_end(b: Seq<u8>, i: int) -> int
    decreases b.len() - i,
{
    if 0 <= i < b.len() && is_alpha(b[i]) {
        letters_end(b, i + 1)
    } else {
        i
    }
}

/// The end of the maximal run of digits starting at `i`.
pub open spec fn digits_end(b: Seq<u8>, i: int) -> int
    decreases b.len() - i,
{
    if 0 <= i < b.len() && is_digit(b[i]) {
        digits_end(b, i + 1)
    } else {
        i
    }
}

/// The parse of an A1 address given as UTF-8 bytes: `[$] LETTER+ [$] DIGIT+`, with the errors
/// reported in the order the scan meets them.
pub open spec fn spec_parse_a1(b: Seq<u8>) -> Result<A1Address, A1Error> {
    if b.len() == 0 {
        Err(A1Error::Empty)
    } else {
        let col_abs = b[0] == 36u8;
        let cs: int = if col_abs { 1 } else { 0 };
        let ce = letters_end(b, cs);
        let col_val = letters_value(b.subrange(cs, ce));
        if col_val > u32::MAX {
            Err(A1Error::ColumnOverflow)
        } else if ce == cs {
            Err(A1Error::MissingColumn { at: cs as usize })
        } else {
            let row_abs = ce < b.len() && b[ce] == 36u8;
            let rs: int = if row_abs { ce + 1 } else { ce };
            let re = digits_end(b, rs);
            let row_val = digits_value(b.subrange(rs, re));
            if row_val > u32::MAX {
                Err(A1Error::RowOverflow)
            } else if re == rs {
                Err(A1Error::MissingRow { at: rs as usize })
            } else if re != b.len() {
                Err(A1Error::UnexpectedChar { at: re as usize })
            } else {
                Ok(A1Address {
                    col: (col_val - 1) as u32,
                    row: if row_val == 0 { 0 } else { (row_val - 1) as u32 },
                    col_abs,
                    row_abs,
                    col_had_lowercase: exists|k: int| cs <= k < ce && is_lower(b[k]),
                    row_had_leading_zero: b[rs] == 48u8,
                })
            }
        }
    }
}

/// The canonical uppercase letters of the bijective base-26 number `n` (`1` -> `A`, `27` -> `AA`).
pub open spec fn column_letters(n: nat) -> Seq<u8>
    decreases n,
{
    if n == 0 {
        seq![]
    } else {
        column_letters(((n - 1) / 26) as nat).push((65 + (n - 1) % 26) as u8)
    }
}

/// The decimal digits of `n` (`0` -> `0`), most significant first, without leading zeros.
pub open spec fn decimal_digits(n: nat) -> Seq<u8>
    decreases n,
{
    if n < 10 {
        seq![(48 + n) as u8]
    } else {
        decimal_digits(n / 10).push((48 + n % 10) as u8)
    }
}

/// The characters of an ASCII byte string.
pub open spec fn ascii_chars(s: Seq<u8>) -> Seq<char> {
    Seq::new(s.len(), |i: int| s[i] as char)
}

/// The canonical A1 text of the zero-based cell `(col, row)`, as bytes.
pub open spec fn cell_text(col: u32, row: u32) -> Seq<u8> {
    column_letters((col + 1) as nat) + decimal_digits((row + 1) as nat)
}

// ---------------------------------------------------------------------------------------------
// Lemmas on the digit systems.
// ---------------------------------------------------------------------------------------------

/// Column letters round-trip: the letters of column number `n` read back as `n`, every one is an
/// uppercase `A`–`Z`, and a column from 1 up has at least one letter. [`format_column`] renders
/// these letters, so its text always reads back as the column it was given.
pub proof fn law_column_letters(n: nat)
    ensures
        letters_value(column_letters(n)) == n,
        forall|k: int| 0 <= k < column_letters(n).len() ==> 65 <= #[trigger] column_letters(n)[k] <= 90,
        n >= 1 ==> column_letters(n).len() >= 1,
    decreases n,
{
    if n > 0 {
        let q = ((n - 1) / 26) as nat;
        law_column_letters(q);
        let s = column_letters(n);
        assert(s.drop_last() =~= column_letters(q));
        assert(q * 26 + (n - 1) % 26 + 1 == n) by (nonlinear_arith)
            requires q == (n - 1) / 26, n >= 1;
    }
}

proof fn lemma_decimal_digits(n: nat)
    ensures
        digits_value(decimal_digits(n)) == n,
        forall|k: int| 0 <= k < decimal_digits(n).len() ==> is_digit(#[trigger] decimal_digits(n)[k]),
        decimal_digits(n).len() >= 1,
        n >= 1 ==> decimal_digits(n)[0] != 48u8,
    decreases n,
{
    let s = decimal_digits(n);
    if n >= 10 {
        lemma_decimal_digits(n / 10);
        assert(s.drop_last() =~= decimal_digits(n / 10));
        assert(s[0] == decimal_digits(n / 10)[0]);
        assert(s.last() == (48 + n % 10) as u8);
        assert(s.last() - 48 == n % 10);
        assert(digits_value(s) == digits_value(s.drop_last()) * 10 + (s.last() - 48));
        assert((n / 10) * 10 + n % 10 == n);
    } else {
        assert(s.drop_last() =~= Seq::<u8>::empty());
        assert(s.last() - 48 == n);
        assert(digits_value(s) == digits_value(s.drop_last()) * 10 + (s.last() - 48));
    }
}

proof fn lemma_letters_end(b: Seq<u8>, i: int, j: int)
    requires
        0 <= i <= j <= b.len(),
        forall|k: int| i <= k < j ==> is_alpha(#[trigger] b[k]),
        j == b.len() || !is_alpha(b[j]),
    ensures
        letters_end(b, i) == j,
    decreases j - i,
{
    if i < j {
        lemma_letters_end(b, i + 1, j);
    }
}

proof fn lemma_digits_end(b: Seq<u8>, i: int, j: int)
    requires
        0 <= i <= j <= b.len(),
        forall|k: int| i <= k < j ==> is_digit(#[trigger] b[k]),
        j == b.len() || !is_digit(b[j]),
    ensures
        digits_end(b, i) == j,
    decreases j - i,
{
    if i < j {
        lemma_digits_end(b, i + 1, j);
    }
}

proof fn lemma_letters_end_bounds(b: Seq<u8>, i: int)
    requires
        0 <= i <= b.len(),
    ensures
        i <= letters_end(b, i) <= b.len(),
        forall|k: int| i <= k < letters_end(b, i) ==> is_alpha(#[trigger] b[k]),
        letters_end(b, i) == b.len() || !is_alpha(b[letters_end(b, i)]),
    decreases b.len() - i,
{
    if i < b.len() && is_alpha(b[i]) {
        lemma_letters_end_bounds(b, i + 1);
    }
}

proof fn lemma_digits_end_bounds(b: Seq<u8>, i: int)
    requires
        0 <= i <= b.len(),
    ensures
        i <= digits_end(b, i) <= b.len(),
        forall|k: int| i <= k < digits_end(b, i) ==> is_digit(#[trigger] b[k]),
        digits_end(b, i) == b.len() || !is_digit(b[digits_end(b, i)]),
    decreases b.len() - i,
{
    if i < b.len() && is_digit(b[i]) {
        lemma_digits_end_bounds(b, i + 1);
    }
}

proof fn lemma_letters_value_step(s: Seq<u8>, i: int)
    requires
        0 <= i < s.len(),
    ensures
        letters_value(s.subrange(0, i + 1)) == letters_value(s.subrange(0, i)) * 26 + letter_digit(s[i]),
{
    assert(s.subrange(0, i + 1).drop_last() =~= s.subrange(0, i));
}

proof fn lemma_digits_value_step(s: Seq<u8>, i: int)
    requires
        0 <= i < s.len(),
    ensures
        digits_value(s.subrange(0, i + 1)) == digits_value(s.subrange(0, i)) * 10 + (s[i] - 48),
{
    assert(s.subrange(0, i + 1).drop_last() =~= s.subrange(0, i));
}

/// Extending a run of letters never lowers its value: a longer run is worth at least as much.
proof fn lemma_letters_value_mono(s: Seq<u8>, i: int, j: int)
    requires
        0 <= i <= j <= s.len(),
        forall|k: int| 0 <= k < s.len() ==> is_alpha(#[trigger] s[k]),
    ensures
        letters_value(s.subrange(0, i)) <= letters_value(s.subrange(0, j)),
    decreases j - i,
{
    if i < j {
        lemma_letters_value_mono(s, i, j - 1);
        lemma_letters_value_step(s, j - 1);
        lemma_letters_value_nonneg(s.subrange(0, j - 1));
    }
}

proof fn lemma_letters_value_nonneg(s: Seq<u8>)
    requires
        forall|k: int| 0 <= k < s.len() ==> is_alpha(#[trigger] s[k]),
    ensures
        letters_value(s) >= 0,
    decreases s.len(),
{
    if s.len() > 0 {
        lemma_letters_value_nonneg(s.drop_last());
    }
}

proof fn lemma_digits_value_mono(s: Seq<u8>, i: int, j: int)
    requires
        0 <= i <= j <= s.len(),
        forall|k: int| 0 <= k < s.len() ==> is_digit(#[trigger] s[k]),
    ensures
        digits_value(s.subrange(0, i)) <= digits_value(s.subrange(0, j)),
    decreases j - i,
{
    if i < j {
        lemma_digits_value_mono(s, i, j - 1);
        lemma_digits_value_step(s, j - 1);
        lemma_digits_value_nonneg(s.subrange(0, j - 1));
    }
}

proof fn lemma_digits_value_nonneg(s: Seq<u8>)
    requires
        forall|k: int| 0 <= k < s.len() ==> is_digit(#[trigger] s[k]),
    ensures
        digits_value(s) >= 0,
    decreases s.len(),
{
    if s.len() > 0 {
        lemma_digits_value_nonneg(s.drop_last());
    }
}

// ---------------------------------------------------------------------------------------------
// The executable grammar.
// ---------------------------------------------------------------------------------------------

/// Parse one A1 address. Never panics on hostile input — returns a located [`A1Error`].
///
/// Grammar: `[$] LETTER+ [$] DIGIT+`, ASCII only. Lowercase letters and a leading-zero row parse
/// successfully but are flagged for the caller.
pub fn parse_a1(s: &str) -> (res: Result<A1Address, A1Error>)
    ensures
        res == spec_parse_a1(s.spec_bytes()),
{
    let b = s.as_bytes();
    let ghost bs = b@;
    let n = b.len();
    if n == 0 {
        return Err(A1Error::Empty);
    }
    let mut i: usize = 0;
    let col_abs = b[i] == 36u8;
    if col_abs {
        i = i + 1;
    }
    let col_start = i;
    proof {
        lemma_letters_end_bounds(bs, col_start as int);
    }
    let ghost ce = letters_end(bs, col_start as int);
    let ghost cseq = bs.subrange(col_start as int, ce);
    assert forall|k: int| 0 <= k < cseq.len() implies is_alpha(#[trigger] cseq[k]) by {
        assert(cseq[k] == bs[col_start + k]);
    }
    let mut col_acc: u32 = 0;
    let mut col_had_lowercase = false;
    while i < n && ((65u8 <= b[i] && b[i] <= 90u8) || (97u8 <= b[i] && b[i] <= 122u8))
        invariant
            n == bs.len(),
            b@ == bs,
            bs == s.spec_bytes(),
            n > 0,
            col_abs == (bs[0] == 36u8),
            col_start == (if col_abs { 1usize } else { 0usize }),
            col_start <= i <= ce,
            ce == letters_end(bs, col_start as int),
            col_start <= ce <= n,
            cseq == bs.subrange(col_start as int, ce),
            forall|k: int| col_start <= k < ce ==> is_alpha(#[trigger] bs[k]),
            ce == n || !is_alpha(bs[ce]),
            col_acc == letters_value(cseq.subrange(0, i - col_start)),
            col_had_lowercase == exists|k: int| col_start <= k < i && is_lower(bs[k]),
            forall|k: int| 0 <= k < cseq.len() ==> is_alpha(#[trigger] cseq[k]),
        decreases n - i,
    {
        let ch = b[i];
        if 97u8 <= ch {
            col_had_lowercase = true;
        }
        let digit: u32 = if 97u8 <= ch { (ch - 96u8) as u32 } else { (ch - 64u8) as u32 };
        proof {
            lemma_letters_value_step(cseq, i - col_start);
            assert(cseq[i - col_start] == bs[i as int]);
        }
        let wide: u64 = (col_acc as u64) * 26 + (digit as u64);
        assert(i < ce);
        assert(digit == letter_digit(cseq[i - col_start]));
        assert(wide == letters_value(cseq.subrange(0, i - col_start + 1)));
        if wide > 4294967295u64 {
            proof {
                lemma_letters_value_mono(cseq, i - col_start + 1, cseq.len() as int);
                assert(cseq.subrange(0, cseq.len() as int) =~= cseq);
            }
            return Err(A1Error::ColumnOverflow);
        }
        col_acc = wide as u32;
        i = i + 1;
    }
    assert(i == ce);
    assert(cseq.subrange(0, i - col_start) =~= cseq);
    if i == col_start {
        return Err(A1Error::MissingColumn { at: col_start });
    }
    proof {
        lemma_letters_value_mono(cseq, 1, cseq.len() as int);
        lemma_letters_value_step(cseq, 0);
        assert(cseq.subrange(0, 0).len() == 0);
    }
    let col = col_acc - 1;

    let row_abs = i < n && b[i] == 36u8;
    if row_abs {
        i = i + 1;
    }
    let row_start = i;
    proof {
        lemma_digits_end_bounds(bs, row_start as int);
    }
    let ghost re = digits_end(bs, row_start as int);
    let ghost rseq = bs.subrange(row_start as int, re);
    assert forall|k: int| 0 <= k < rseq.len() implies is_digit(#[trigger] rseq[k]) by {
        assert(rseq[k] == bs[row_start + k]);
    }
    let mut row_acc: u32 = 0;
    let mut row_had_leading_zero = false;
    let mut first_digit = true;
    while i < n && 48u8 <= b[i] && b[i] <= 57u8
        invariant
            n == bs.len(),
            b@ == bs,
            bs == s.spec_bytes(),
            n > 0,
            col_abs == (bs[0] == 36u8),
            col_start == (if col_abs { 1usize } else { 0usize }),
            ce == letters_end(bs, col_start as int),
            cseq == bs.subrange(col_start as int, ce),
            ce > col_start,
            col_acc == letters_value(cseq),
            col_acc >= 1,
            row_abs == (ce < n && bs[ce] == 36u8),
            row_start == (if row_abs { ce + 1 } else { ce }),
            row_start <= i <= re,
            re == digits_end(bs, row_start as int),
            row_start <= re <= n,
            rseq == bs.subrange(row_start as int, re),
            forall|k: int| row_start <= k < re ==> is_digit(#[trigger] bs[k]),
            re == n || !is_digit(bs[re]),
            row_acc == digits_value(rseq.subrange(0, i - row_start)),
            first_digit == (i == row_start),
            row_had_leading_zero == (i > row_start && bs[row_start as int] == 48u8),
            forall|k: int| 0 <= k < rseq.len() ==> is_digit(#[trigger] rseq[k]),
        decreases n - i,
    {
        if first_digit && b[i] == 48u8 {
            row_had_leading_zero = true;
        }
        first_digit = false;
        let digit: u32 = (b[i] - 48u8) as u32;
        proof {
            lemma_digits_value_step(rseq, i - row_start);
            assert(rseq[i - row_start] == bs[i as int]);
        }
        let wide: u64 = (row_acc as u64) * 10 + (digit as u64);
        assert(i < re);
        assert(wide == digits_value(rseq.subrange(0, i - row_start + 1)));
        if wide > 4294967295u64 {
            proof {
                lemma_digits_value_mono(rseq, i - row_start + 1, rseq.len() as int);
                assert(rseq.subrange(0, rseq.len() as int) =~= rseq);
            }
            return Err(A1Error::RowOverflow);
        }
        row_acc = wide as u32;
        i = i + 1;
    }
    assert(i == re);
    assert(rseq.subrange(0, i - row_start) =~= rseq);
    if i == row_start {
        return Err(A1Error::MissingRow { at: row_start });
    }
    if i != n {
        return Err(A1Error::UnexpectedChar { at: i });
    }
    let row = if row_acc == 0 { 0 } else { row_acc - 1 };
    Ok(A1Address { col, row, col_abs, row_abs, col_had_lowercase, row_had_leading_zero })
}

/// Render a zero-based column index to canonical uppercase letters (`0` -> `"A"`, `26` -> `"AA"`).
pub fn format_column(col: u32) -> (out: String)
    ensures
        out@ == ascii_chars(column_letters((col + 1) as nat)),
{
    let mut n: u64 = col as u64 + 1;
    let mut rev: Vec<u8> = Vec::new();
    while n > 0
        invariant
            n <= col as u64 + 1,
            column_letters((col + 1) as nat) == column_letters(n as nat) + rev@.reverse(),
        decreases n,
    {
        let rem: u8 = ((n - 1) % 26) as u8;
        let ghost old_rev = rev@;
        rev.push(65u8 + rem);
        proof {
            assert(rev@.reverse() =~= seq![(65u8 + rem) as u8] + old_rev.reverse());
            assert(column_letters(n as nat) == column_letters(((n - 1) / 26) as nat).push((65 + (n - 1) % 26) as u8));
            assert(column_letters(n as nat) + old_rev.reverse() =~= column_letters(((n - 1) / 26) as nat) + rev@.reverse());
        }
        n = (n - 1) / 26;
    }
    let mut out = String::new();
    let mut k: usize = rev.len();
    let ghost full = rev@.reverse();
    assert(column_letters((col + 1) as nat) =~= full);
    while k > 0
        invariant
            k <= rev.len(),
            full == rev@.reverse(),
            out@ == ascii_chars(full.subrange(0, rev.len() - k)),
        decreases k,
    {
        k = k - 1;
        let c = rev[k];
        push_char(&mut out, c as char);
        assert(ascii_chars(full.subrange(0, rev.len() - k)) =~= ascii_chars(full.subrange(0, rev.len() - k - 1)).push(c as char));
    }
    assert(full.subrange(0, rev.len() as int) =~= full);
    out
}

/// The decimal text of `n`, most significant digit first.
pub fn format_decimal(n: u64) -> (out: String)
    ensures
        out@ == ascii_chars(decimal_digits(n as nat)),
{
    let mut m: u64 = n;
    let mut rev: Vec<u8> = Vec::new();
    rev.push(48u8 + (m % 10) as u8);
    m = m / 10;
    assert(decimal_digits(n as nat) == if n < 10 { seq![(48 + n) as u8] } else { decimal_digits((n / 10) as nat).push((48 + n % 10) as u8) });
    while m > 0
        invariant
            m <= n,
            rev.len() >= 1,
            m == 0 ==> decimal_digits(n as nat) == rev@.reverse(),
            m > 0 ==> decimal_digits(n as nat) == decimal_digits(m as nat) + rev@.reverse(),
        decreases m,
    {
        let ghost old_rev = rev@;
        rev.push(48u8 + (m % 10) as u8);
        proof {
            assert(rev@.reverse() =~= seq![(48 + m % 10) as u8] + old_rev.reverse());
            if m < 10 {
                assert(decimal_digits(m as nat) =~= seq![(48 + m) as u8]);
            } else {
                assert(decimal_digits(m as nat) == decimal_digits((m / 10) as nat).push((48 + m % 10) as u8));
            }
            assert(decimal_digits(n as nat) =~= if m / 10 > 0 { decimal_digits((m / 10) as nat) + rev@.reverse() } else { rev@.reverse() });
        }
        m = m / 10;
    }
    let mut out = String::new();
    let mut k: usize = rev.len();
    let ghost full = rev@.reverse();
    while k > 0
        invariant
            k <= rev.len(),
            full == rev@.reverse(),
            out@ == ascii_chars(full.subrange(0, rev.len() - k)),
        decreases k,
    {
        k = k - 1;
        let c = rev[k];
        push_char(&mut out, c as char);
        assert(ascii_chars(full.subrange(0, rev.len() - k)) =~= ascii_chars(full.subrange(0, rev.len() - k - 1)).push(c as char));
    }
    assert(full.subrange(0, rev.len() as int) =~= full);
    out
}

/// Render a zero-based `(col, row)` to a canonical A1 address (`(0,0)` -> `"A1"`).
pub fn format_cell(col: u32, row: u32) -> (out: String)
    ensures
        out@ == ascii_chars(cell_text(col, row)),
{
    let mut out = format_column(col);
    let digits = format_decimal(row as u64 + 1);
    out.append(digits.as_str());
    assert(ascii_chars(cell_text(col, row)) =~= ascii_chars(column_letters((col + 1) as nat)) + ascii_chars(decimal_digits((row + 1) as nat)));
    out
}

// ---------------------------------------------------------------------------------------------
// Laws.
// ---------------------------------------------------------------------------------------------

/// Only ASCII text parses: an address holding any byte outside ASCII is refused.
pub proof fn law_parse_a1_ascii_only(b: Seq<u8>, k: int)
    requires
        0 <= k < b.len(),
        b[k] >= 128,
    ensures
        spec_parse_a1(b) is Err,
{
    let cs: int = if b[0] == 36u8 { 1 } else { 0 };
    lemma_letters_end_bounds(b, cs);
    let ce = letters_end(b, cs);
    let rs: int = if ce < b.len() && b[ce] == 36u8 { ce + 1 } else { ce };
    lemma_digits_end_bounds(b, rs);
    let re = digits_end(b, rs);
    if spec_parse_a1(b) is Ok {
        assert(re == b.len());
        if k < cs {
            assert(b[k] == 36u8);
        } else if k < ce {
            assert(is_alpha(b[k]));
        } else if k < rs {
            assert(b[k] == 36u8);
        } else {
            assert(is_digit(b[k]));
        }
    }
}

/// The least value of `n` letters (`A…A`): `Σ_{i<n} 26^i`.
pub open spec fn least_letters_value(n: nat) -> int
    decreases n,
{
    if n == 0 { 0 } else { least_letters_value((n - 1) as nat) * 26 + 1 }
}

/// A run of `n` letters is worth at least `n` `A`s.
proof fn lemma_letters_value_least(s: Seq<u8>)
    requires
        forall|k: int| 0 <= k < s.len() ==> is_alpha(#[trigger] s[k]),
    ensures
        letters_value(s) >= least_letters_value(s.len()),
    decreases s.len(),
{
    if s.len() > 0 {
        lemma_letters_value_least(s.drop_last());
        assert(is_alpha(s[s.len() - 1]));
    }
}

/// A column of eight or more letters overflows: such an address is refused as `ColumnOverflow`.
pub proof fn law_parse_a1_long_column_overflows(b: Seq<u8>)
    requires
        b.len() > 0,
        letters_end(b, if b[0] == 36u8 { 1 } else { 0 }) - (if b[0] == 36u8 { 1int } else { 0int }) >= 8,
    ensures
        spec_parse_a1(b) == Err::<A1Address, A1Error>(A1Error::ColumnOverflow),
{
    let cs: int = if b[0] == 36u8 { 1 } else { 0 };
    lemma_letters_end_bounds(b, cs);
    let ce = letters_end(b, cs);
    let run = b.subrange(cs, ce);
    assert forall|k: int| 0 <= k < run.len() implies is_alpha(#[trigger] run[k]) by {
        assert(run[k] == b[cs + k]);
    }
    lemma_letters_value_mono(run, 8, run.len() as int);
    let head = run.subrange(0, 8);
    assert forall|k: int| 0 <= k < head.len() implies is_alpha(#[trigger] head[k]) by {
        assert(head[k] == run[k]);
    }
    lemma_letters_value_least(head);
    assert(least_letters_value(8) == 8353082583) by {
        reveal_with_fuel(least_letters_value, 9);
    }
    assert(run.subrange(0, run.len() as int) =~= run);
    assert(letters_value(run) >= 8353082583);
}

/// Parsing is the inverse of rendering: the canonical text of any cell whose one-based column and
/// row both fit in `u32` parses back to that cell, with no `$` anchors and no canonical-form deviations.
pub proof fn law_parse_format_roundtrip(col: u32, row: u32)
    requires
        col < u32::MAX,
        row < u32::MAX,
    ensures
        spec_parse_a1(cell_text(col, row)) == Ok::<A1Address, A1Error>(A1Address {
            col,
            row,
            col_abs: false,
            row_abs: false,
            col_had_lowercase: false,
            row_had_leading_zero: false,
        }),
{
    let l = column_letters((col + 1) as nat);
    let d = decimal_digits((row + 1) as nat);
    let b = l + d;
    law_column_letters((col + 1) as nat);
    lemma_decimal_digits((row + 1) as nat);
    assert(b[0] == l[0]);
    assert forall|k: int| 0 <= k < l.len() implies is_alpha(#[trigger] b[k]) by {
        assert(b[k] == l[k]);
    }
    if d.len() > 0 {
        assert(b[l.len() as int] == d[0]);
    }
    lemma_letters_end(b, 0, l.len() as int);
    assert(b.subrange(0, l.len() as int) =~= l);
    assert forall|k: int| l.len() <= k < b.len() implies is_digit(#[trigger] b[k]) by {
        assert(b[k] == d[k - l.len()]);
    }
    lemma_digits_end(b, l.len() as int, b.len() as int);
    assert(b.subrange(l.len() as int, b.len() as int) =~= d);
    assert(!(exists|k: int| 0 <= k < l.len() && is_lower(b[k]))) by {
        assert forall|k: int| 0 <= k < l.len() implies !is_lower(b[k]) by {
            assert(b[k] == l[k]);
        }
    }
}

/// Whether `b` is canonical A1 text with its column letters ending at `k`: uppercase letters, then
/// a row number without a leading zero.
pub open spec fn canonical_a1(b: Seq<u8>, k: int) -> bool {
    &&& 1 <= k < b.len()
    &&& forall|i: int| 0 <= i < k ==> 65 <= #[trigger] b[i] <= 90
    &&& forall|i: int| k <= i < b.len() ==> is_digit(#[trigger] b[i])
    &&& b[k] != 48u8
}

/// Uppercase letters are the column letters of the number they spell.
proof fn lemma_letters_canonical(s: Seq<u8>)
    requires
        forall|i: int| 0 <= i < s.len() ==> 65 <= #[trigger] s[i] <= 90,
    ensures
        column_letters(letters_value(s) as nat) == s,
        s.len() >= 1 ==> letters_value(s) >= 1,
    decreases s.len(),
{
    if s.len() > 0 {
        let p = s.drop_last();
        assert forall|i: int| 0 <= i < p.len() implies 65 <= #[trigger] p[i] <= 90 by {
            assert(p[i] == s[i]);
        }
        lemma_letters_canonical(p);
        assert forall|i: int| 0 <= i < p.len() implies is_alpha(#[trigger] p[i]) by {
            assert(p[i] == s[i]);
        }
        lemma_letters_value_nonneg(p);
        let v = letters_value(p);
        let d = s.last() - 64;
        assert(1 <= d <= 26);
        let n = v * 26 + d;
        assert(letters_value(s) == n);
        assert((n - 1) / 26 == v && (n - 1) % 26 == d - 1) by (nonlinear_arith)
            requires n == v * 26 + d, 1 <= d <= 26, v >= 0;
        assert(column_letters(n as nat) == column_letters(((n - 1) / 26) as nat).push((65 + (n - 1) % 26) as u8));
        assert(column_letters(n as nat) =~= s);
    }
}

/// Digits without a leading zero are the decimal digits of the number they spell.
proof fn lemma_digits_canonical(s: Seq<u8>)
    requires
        s.len() >= 1,
        s[0] != 48u8,
        forall|i: int| 0 <= i < s.len() ==> is_digit(#[trigger] s[i]),
    ensures
        decimal_digits(digits_value(s) as nat) == s,
        digits_value(s) >= 1,
    decreases s.len(),
{
    let p = s.drop_last();
    if p.len() == 0 {
        assert(s.drop_last() =~= Seq::<u8>::empty());
        assert(digits_value(s) == s.last() - 48);
        assert(decimal_digits(digits_value(s) as nat) =~= s);
    } else {
        assert(p[0] == s[0]);
        assert forall|i: int| 0 <= i < p.len() implies is_digit(#[trigger] p[i]) by {
            assert(p[i] == s[i]);
        }
        lemma_digits_canonical(p);
        let v = digits_value(p);
        let c = s.last() - 48;
        let n = v * 10 + c;
        assert(0 <= c <= 9);
        assert(digits_value(s) == n);
        assert(n >= 10 && n / 10 == v && n % 10 == c) by (nonlinear_arith)
            requires n == v * 10 + c, 0 <= c <= 9, v >= 1;
        assert(decimal_digits(n as nat) == decimal_digits((n / 10) as nat).push((48 + n % 10) as u8));
        assert(decimal_digits(n as nat) =~= s);
    }
}

/// Canonical A1 text parses and renders back to itself: for uppercase column letters and a row
/// without a leading zero that parse, [`format_cell`] of the parsed address gives the same text.
pub proof fn law_canonical_text_roundtrip(b: Seq<u8>, k: int)
    requires
        canonical_a1(b, k),
        spec_parse_a1(b) is Ok,
    ensures
        cell_text(spec_parse_a1(b)->Ok_0.col, spec_parse_a1(b)->Ok_0.row) == b,
{
    let l = b.subrange(0, k);
    let d = b.subrange(k, b.len() as int);
    assert(b[0] != 36u8);
    assert forall|i: int| 0 <= i < k implies is_alpha(#[trigger] b[i]) by {}
    assert(!is_alpha(b[k]));
    lemma_letters_end(b, 0, k);
    assert(b[k] != 36u8);
    assert forall|i: int| k <= i < b.len() implies is_digit(#[trigger] b[i]) by {}
    lemma_digits_end(b, k, b.len() as int);
    assert forall|i: int| 0 <= i < l.len() implies 65 <= #[trigger] l[i] <= 90 by {
        assert(l[i] == b[i]);
    }
    lemma_letters_canonical(l);
    assert forall|i: int| 0 <= i < d.len() implies is_digit(#[trigger] d[i]) by {
        assert(d[i] == b[k + i]);
    }
    assert(d[0] == b[k]);
    lemma_digits_canonical(d);
    let a = spec_parse_a1(b)->Ok_0;
    assert(a.col + 1 == letters_value(l));
    assert(a.row + 1 == digits_value(d));
    assert(l + d =~= b);
}

} // verus!
