//! Located refusals for the lexer/parser: [`DiagCode`] (the single-sourced registry), [`Span`],
//! [`Severity`], [`Diag`].
//!
//! A formula is a single parse unit: the parser stops at the first refusal, and the refusal stands
//! beside the (absent) tree. Evaluation never produces a `Diag` — an evaluation failure is a
//! first-class [`crate::value::ErrKind`] value.

use vstd::prelude::*;
use crate::a1::{ascii_chars, decimal_digits, format_decimal};

verus! {

/// A byte span into the formula string, `start..end` (half-open).
#[derive(Clone, Copy, Debug, PartialEq, Eq)]
pub struct Span {
    pub start: usize,
    pub end: usize,
}

impl Span {
    pub fn new(start: usize, end: usize) -> (r: Span)
        ensures
            r == (Span { start, end }),
    {
        Span { start, end }
    }

    /// A zero-width span at a single offset (for a refusal that points *between* bytes).
    pub fn at(offset: usize) -> (r: Span)
        ensures
            r == (Span { start: offset, end: offset }),
    {
        Span { start: offset, end: offset }
    }
}

/// Severity of a refusal. Every refusal the parser raises is an [`Severity::Error`];
/// [`Severity::Warning`] is reserved for advisory diagnostics on an accepted formula.
#[derive(Clone, Copy, Debug, PartialEq, Eq)]
pub enum Severity {
    Error,
    /// Reserved — no refusal uses this yet.
    Warning,
}

/// A stable refusal code — the API a consumer switches on. The wording of a `Diag`'s message is
/// free; the code is frozen.
#[derive(Clone, Copy, Debug, PartialEq, Eq)]
pub enum DiagCode {
    /// A byte that cannot begin any token.
    UnexpectedChar,
    /// A `"`-string with no closing quote before end-of-input.
    UnterminatedString,
    /// A numeric lexeme that does not parse to a finite number.
    InvalidNumber,
    /// The formula was empty (or only `=` / whitespace).
    EmptyFormula,
    /// A token appeared where a value/operand was expected.
    UnexpectedToken,
    /// Input ended mid-expression.
    UnexpectedEof,
    /// A `(` was never closed.
    UnclosedParen,
    /// A `)` with no matching `(`.
    UnbalancedParen,
    /// A function name that is not in the registry.
    UnknownFunction,
    /// A known function called with a wrong argument count.
    BadArity,
    /// A `{…}` array literal that is ragged or holds a non-constant element.
    MalformedArray,
    /// The union operator `,` outside a function-argument list.
    ReservedUnion,
    /// The intersection operator (whitespace between two references).
    ReservedIntersection,
    /// A dynamic `:` range whose endpoints are not both static cell references.
    ReservedDynamicRange,
    /// A bare defined-name.
    ReservedName,
    /// A 3D / multi-sheet range reference.
    ReservedCrossSheet,
    /// A reference-returning function (`INDIRECT`, `OFFSET`).
    ReservedRefFunction,
    /// A `TEXT` call whose literal format names no supported code.
    UnsupportedFormat,
    /// A `'`-quoted sheet name that is not well-formed.
    MalformedSheetName,
    /// Nesting exceeded the parser's depth bound.
    RecursionLimit,
}

/// The stable kebab-case code string of each refusal code.
pub open spec fn code_text(c: DiagCode) -> Seq<char> {
    match c {
        DiagCode::UnexpectedChar => "unexpected-char"@,
        DiagCode::UnterminatedString => "unterminated-string"@,
        DiagCode::InvalidNumber => "invalid-number"@,
        DiagCode::EmptyFormula => "empty-formula"@,
        DiagCode::UnexpectedToken => "unexpected-token"@,
        DiagCode::UnexpectedEof => "unexpected-eof"@,
        DiagCode::UnclosedParen => "unclosed-paren"@,
        DiagCode::UnbalancedParen => "unbalanced-paren"@,
        DiagCode::UnknownFunction => "unknown-function"@,
        DiagCode::BadArity => "bad-arity"@,
        DiagCode::MalformedArray => "malformed-array"@,
        DiagCode::ReservedUnion => "reserved-union"@,
        DiagCode::ReservedIntersection => "reserved-intersection"@,
        DiagCode::ReservedDynamicRange => "reserved-dynamic-range"@,
        DiagCode::ReservedName => "reserved-name"@,
        DiagCode::ReservedCrossSheet => "reserved-cross-sheet"@,
        DiagCode::ReservedRefFunction => "reserved-ref-function"@,
        DiagCode::UnsupportedFormat => "unsupported-format"@,
        DiagCode::MalformedSheetName => "malformed-sheet-name"@,
        DiagCode::RecursionLimit => "recursion-limit"@,
    }
}

/// Every diagnostic code has a non-empty text, and different codes have different texts, so a
/// code's text names it.
pub proof fn law_code_text_distinct(a: DiagCode, b: DiagCode)
    ensures
        code_text(a).len() > 0,
        a != b ==> code_text(a) != code_text(b),
{
    reveal_strlit("unexpected-char");
    reveal_strlit("unterminated-string");
    reveal_strlit("invalid-number");
    reveal_strlit("empty-formula");
    reveal_strlit("unexpected-token");
    reveal_strlit("unexpected-eof");
    reveal_strlit("unclosed-paren");
    reveal_strlit("unbalanced-paren");
    reveal_strlit("unknown-function");
    reveal_strlit("bad-arity");
    reveal_strlit("malformed-array");
    reveal_strlit("reserved-union");
    reveal_strlit("reserved-intersection");
    reveal_strlit("reserved-dynamic-range");
    reveal_strlit("reserved-name");
    reveal_strlit("reserved-cross-sheet");
    reveal_strlit("reserved-ref-function");
    reveal_strlit("unsupported-format");
    reveal_strlit("malformed-sheet-name");
    reveal_strlit("recursion-limit");
    if a != b && code_text(a) == code_text(b) {
        assert(code_text(a)[code_text(a).len() - 1] == code_text(b)[code_text(b).len() - 1]);
        assert(code_text(a)[2] == code_text(b)[2]);
        assert(code_text(a)[11] == code_text(b)[11]);
    }
}

/// The one-line summary of the rule each code enforces.
pub open spec fn summary_text(c: DiagCode) -> Seq<char> {
    match c {
        DiagCode::UnexpectedChar => "a byte that cannot begin any token"@,
        DiagCode::UnterminatedString => "a \"-string was not closed"@,
        DiagCode::InvalidNumber => "a numeric literal is not a finite number"@,
        DiagCode::EmptyFormula => "the formula is empty"@,
        DiagCode::UnexpectedToken => "a token appeared where a value was expected"@,
        DiagCode::UnexpectedEof => "input ended mid-expression"@,
        DiagCode::UnclosedParen => "a ( was never closed"@,
        DiagCode::UnbalancedParen => "a ) has no matching ("@,
        DiagCode::UnknownFunction => "the function name is not recognized"@,
        DiagCode::BadArity => "wrong number of arguments for this function"@,
        DiagCode::MalformedArray => "an array literal is ragged or holds a non-constant element"@,
        DiagCode::ReservedUnion => "the , union operator is reserved (not v1)"@,
        DiagCode::ReservedIntersection => "the space intersection operator is reserved (not v1)"@,
        DiagCode::ReservedDynamicRange => "a dynamic : range is reserved (not v1)"@,
        DiagCode::ReservedName => "a bare defined-name is reserved (not v1)"@,
        DiagCode::ReservedCrossSheet => "a 3D / multi-sheet range reference is reserved (not v1)"@,
        DiagCode::ReservedRefFunction => "a reference-returning function (INDIRECT/OFFSET) is reserved (not v1)"@,
        DiagCode::UnsupportedFormat => "the TEXT format code is not in the supported v1 subset"@,
        DiagCode::MalformedSheetName => "a quoted sheet name is not well-formed"@,
        DiagCode::RecursionLimit => "the formula nests deeper than the parser's bound"@,
    }
}

impl DiagCode {
    /// Every code, once, in declaration order.
    pub fn all() -> (r: Vec<DiagCode>)
        ensures
            r@.len() == 20,
            forall|c: DiagCode| #[trigger] r@.contains(c),
    {
        let r = vec![
            DiagCode::UnexpectedChar,
            DiagCode::UnterminatedString,
            DiagCode::InvalidNumber,
            DiagCode::EmptyFormula,
            DiagCode::UnexpectedToken,
            DiagCode::UnexpectedEof,
            DiagCode::UnclosedParen,
            DiagCode::UnbalancedParen,
            DiagCode::UnknownFunction,
            DiagCode::BadArity,
            DiagCode::MalformedArray,
            DiagCode::ReservedUnion,
            DiagCode::ReservedIntersection,
            DiagCode::ReservedDynamicRange,
            DiagCode::ReservedName,
            DiagCode::ReservedCrossSheet,
            DiagCode::ReservedRefFunction,
            DiagCode::UnsupportedFormat,
            DiagCode::MalformedSheetName,
            DiagCode::RecursionLimit,
        ];
        assert forall|c: DiagCode| #[trigger] r@.contains(c) by {
            let k: int = match c {
                DiagCode::UnexpectedChar => 0,
                DiagCode::UnterminatedString => 1,
                DiagCode::InvalidNumber => 2,
                DiagCode::EmptyFormula => 3,
                DiagCode::UnexpectedToken => 4,
                DiagCode::UnexpectedEof => 5,
                DiagCode::UnclosedParen => 6,
                DiagCode::UnbalancedParen => 7,
                DiagCode::UnknownFunction => 8,
                DiagCode::BadArity => 9,
                DiagCode::MalformedArray => 10,
                DiagCode::ReservedUnion => 11,
                DiagCode::ReservedIntersection => 12,
                DiagCode::ReservedDynamicRange => 13,
                DiagCode::ReservedName => 14,
                DiagCode::ReservedCrossSheet => 15,
                DiagCode::ReservedRefFunction => 16,
                DiagCode::UnsupportedFormat => 17,
                DiagCode::MalformedSheetName => 18,
                DiagCode::RecursionLimit => 19,
            };
            assert(r@[k] == c);
        }
        r
    }

    /// The stable kebab-case code string a consumer switches on and a `Diag` renders as
    /// `error[<code>]`.
    pub fn code_str(self) -> (r: &'static str)
        ensures
            r@ == code_text(self),
    {
        match self {
            DiagCode::UnexpectedChar => "unexpected-char",
            DiagCode::UnterminatedString => "unterminated-string",
            DiagCode::InvalidNumber => "invalid-number",
            DiagCode::EmptyFormula => "empty-formula",
            DiagCode::UnexpectedToken => "unexpected-token",
            DiagCode::UnexpectedEof => "unexpected-eof",
            DiagCode::UnclosedParen => "unclosed-paren",
            DiagCode::UnbalancedParen => "unbalanced-paren",
            DiagCode::UnknownFunction => "unknown-function",
            DiagCode::BadArity => "bad-arity",
            DiagCode::MalformedArray => "malformed-array",
            DiagCode::ReservedUnion => "reserved-union",
            DiagCode::ReservedIntersection => "reserved-intersection",
            DiagCode::ReservedDynamicRange => "reserved-dynamic-range",
            DiagCode::ReservedName => "reserved-name",
            DiagCode::ReservedCrossSheet => "reserved-cross-sheet",
            DiagCode::ReservedRefFunction => "reserved-ref-function",
            DiagCode::UnsupportedFormat => "unsupported-format",
            DiagCode::MalformedSheetName => "malformed-sheet-name",
            DiagCode::RecursionLimit => "recursion-limit",
        }
    }

    /// A one-line summary of the rule this code enforces.
    pub fn summary(self) -> (r: &'static str)
        ensures
            r@ == summary_text(self),
    {
        match self {
            DiagCode::UnexpectedChar => "a byte that cannot begin any token",
            DiagCode::UnterminatedString => "a \"-string was not closed",
            DiagCode::InvalidNumber => "a numeric literal is not a finite number",
            DiagCode::EmptyFormula => "the formula is empty",
            DiagCode::UnexpectedToken => "a token appeared where a value was expected",
            DiagCode::UnexpectedEof => "input ended mid-expression",
            DiagCode::UnclosedParen => "a ( was never closed",
            DiagCode::UnbalancedParen => "a ) has no matching (",
            DiagCode::UnknownFunction => "the function name is not recognized",
            DiagCode::BadArity => "wrong number of arguments for this function",
            DiagCode::MalformedArray => "an array literal is ragged or holds a non-constant element",
            DiagCode::ReservedUnion => "the , union operator is reserved (not v1)",
            DiagCode::ReservedIntersection => "the space intersection operator is reserved (not v1)",
            DiagCode::ReservedDynamicRange => "a dynamic : range is reserved (not v1)",
            DiagCode::ReservedName => "a bare defined-name is reserved (not v1)",
            DiagCode::ReservedCrossSheet => "a 3D / multi-sheet range reference is reserved (not v1)",
            DiagCode::ReservedRefFunction => "a reference-returning function (INDIRECT/OFFSET) is reserved (not v1)",
            DiagCode::UnsupportedFormat => "the TEXT format code is not in the supported v1 subset",
            DiagCode::MalformedSheetName => "a quoted sheet name is not well-formed",
            DiagCode::RecursionLimit => "the formula nests deeper than the parser's bound",
        }
    }

    /// Severity — every refusal rejects.
    pub fn severity(self) -> (r: Severity)
        ensures
            r == Severity::Error,
    {
        Severity::Error
    }
}

/// A located refusal: a stable [`DiagCode`], the [`Span`] it points at, and a free-form message.
#[derive(Clone, Debug, PartialEq, Eq)]
pub struct Diag {
    pub code: DiagCode,
    pub span: Span,
    pub message: String,
}

/// The rendered text of a refusal: `error[<code>]: <message> (at bytes <start>..<end>)`.
pub open spec fn diag_text(code: DiagCode, span: Span, message: Seq<char>) -> Seq<char> {
    "error["@ + code_text(code) + "]: "@ + message + " (at bytes "@
        + ascii_chars(decimal_digits(span.start as nat)) + ".."@
        + ascii_chars(decimal_digits(span.end as nat)) + ")"@
}

impl Diag {
    pub fn new(code: DiagCode, span: Span, message: &str) -> (r: Diag)
        ensures
            r.code == code,
            r.span == span,
            r.message@ == message@,
    {
        Diag { code, span, message: message.to_owned() }
    }

    /// The ASCII rendering of this refusal, located by its byte span.
    pub fn render(&self) -> (r: String)
        ensures
            r@ == diag_text(self.code, self.span, self.message@),
    {
        let mut out = String::new();
        out.append("error[");
        out.append(self.code.code_str());
        out.append("]: ");
        out.append(self.message.as_str());
        out.append(" (at bytes ");
        let start = format_decimal(self.span.start as u64);
        out.append(start.as_str());
        out.append("..");
        let end = format_decimal(self.span.end as u64);
        out.append(end.as_str());
        out.append(")");
        proof {
            reveal_strlit("error[");
            reveal_strlit("]: ");
            reveal_strlit(" (at bytes ");
            reveal_strlit("..");
            reveal_strlit(")");
        }
        assert(out@ =~= diag_text(self.code, self.span, self.message@));
        out
    }
}

} // verus!
