//! The grammar parser: turns DSL source text into the raw rule list
//! and metadata tags, or fails with a position-anchored syntax error.
//!
//! The grammar, with whitespace allowed between tokens:
//!
//! ```text
//! spec        := (section ("," section)*)? [","]
//! section     := "transitions" ":" "{" (rule ("," rule)*)? [","] "}"
//!              | "states_attr" ":" "#" "[" tag-text "]"
//! rule        := ["*"] input_state "+" event_name [pattern] [guard]
//!                ["/" action] "=" output_state [payload_expr]
//! input_state := ident ["(" ident ")"] | "_"
//! pattern     := "(" ("_" | ident | number) ")"
//! guard       := "[" ("true" | "false" | operand cmp operand) "]"
//! action      := "ctx" "=" expr
//! payload_expr:= "(" expr ")"
//! expr        := operand ["+" operand]
//! operand     := number | "ctx" | "state" | "event"
//! cmp         := "==" | "!=" | "<=" | ">=" | "<" | ">"
//! ```
//!
//! The whole grammar is stated as specification functions over the
//! source text's character sequence; each executable parsing function
//! returns exactly what the corresponding specification function says,
//! including the failure position and kind.  One error aborts the whole
//! parse; there is no recovery.

use vstd::prelude::*;
use crate::ast::ActionStmt;
use crate::ast::CmpOp;
use crate::ast::EventPattern;
use crate::ast::Expr;
use crate::ast::GuardExpr;
use crate::ast::Operand;
use crate::ast::StateDecl;
use crate::ast::StateDeclView;
use crate::ast::StateMachine;
use crate::ast::StateMachineView;
use crate::ast::StateTransition;
use crate::ast::TransitionView;

verus! {

/// The kinds of syntax error.
#[derive(Debug, PartialEq, Eq)]
pub enum ParseErrorKind {
    /// A top-level keyword other than `transitions` or `states_attr`.
    UnknownKeyword(String),
    /// An identifier was expected.
    ExpectedIdent,
    /// A specific punctuation character was expected.
    ExpectedChar(char),
    /// A numeric literal, `ctx`, `state` or `event` was expected.
    ExpectedOperand,
    /// A comparison operator was expected.
    ExpectedCmp,
    /// An action must assign to the context cell `ctx`.
    ExpectedCtx,
    /// A numeric literal that does not fit the payload type.
    NumberTooLarge,
    /// The input ended inside a metadata tag.
    UnterminatedTag,
}

/// Mathematical image of a [`ParseErrorKind`].
pub ghost enum ParseErrorKindView {
    UnknownKeyword(Seq<char>),
    ExpectedIdent,
    ExpectedChar(char),
    ExpectedOperand,
    ExpectedCmp,
    ExpectedCtx,
    NumberTooLarge,
    UnterminatedTag,
}

impl View for ParseErrorKind {
    type V = ParseErrorKindView;

    open spec fn view(&self) -> ParseErrorKindView {
        match self {
            ParseErrorKind::UnknownKeyword(s) => ParseErrorKindView::UnknownKeyword(s@),
            ParseErrorKind::ExpectedIdent => ParseErrorKindView::ExpectedIdent,
            ParseErrorKind::ExpectedChar(c) => ParseErrorKindView::ExpectedChar(*c),
            ParseErrorKind::ExpectedOperand => ParseErrorKindView::ExpectedOperand,
            ParseErrorKind::ExpectedCmp => ParseErrorKindView::ExpectedCmp,
            ParseErrorKind::ExpectedCtx => ParseErrorKindView::ExpectedCtx,
            ParseErrorKind::NumberTooLarge => ParseErrorKindView::NumberTooLarge,
            ParseErrorKind::UnterminatedTag => ParseErrorKindView::UnterminatedTag,
        }
    }
}

/// A syntax error, anchored to the character position it was found at.
#[derive(Debug, PartialEq, Eq)]
pub struct ParseError {
    pub pos: usize,
    pub kind: ParseErrorKind,
}

/// Mathematical image of a [`ParseError`].
pub ghost struct ParseErrorView {
    pub pos: int,
    pub kind: ParseErrorKindView,
}

impl View for ParseError {
    type V = ParseErrorView;

    open spec fn view(&self) -> ParseErrorView {
        ParseErrorView { pos: self.pos as int, kind: self.kind@ }
    }
}

impl ParseError {
    /// The human-readable message for this error; an unknown top-level
    /// keyword is reported with the keyword and the supported set.
    pub fn message(&self) -> (r: String)
        ensures
            self.kind@ matches ParseErrorKindView::UnknownKeyword(kw) ==> r@ == "Unknown keyword "@
                + kw + ". Supported keywords: [transitions, states_attr]"@,
    {
        match &self.kind {
            ParseErrorKind::UnknownKeyword(kw) => {
                let mut m = String::from_str("Unknown keyword ");
                m.append(kw.as_str());
                m.append(". Supported keywords: [transitions, states_attr]");
                m
            },
            ParseErrorKind::ExpectedIdent => String::from_str("expected an identifier"),
            ParseErrorKind::ExpectedChar(_) => String::from_str("unexpected character"),
            ParseErrorKind::ExpectedOperand => String::from_str(
                "expected a number, ctx, state or event",
            ),
            ParseErrorKind::ExpectedCmp => String::from_str("expected a comparison operator"),
            ParseErrorKind::ExpectedCtx => String::from_str(
                "an action must assign to the context ctx",
            ),
            ParseErrorKind::NumberTooLarge => String::from_str("numeric literal is too large"),
            ParseErrorKind::UnterminatedTag => String::from_str("unterminated metadata tag"),
        }
    }
}

/// The result of a specification-level parse step: the parsed value
/// and the position just after it, or the error.
pub ghost enum PRes<T> {
    Parsed(T, int),
    Failed(ParseErrorView),
}

/// Whitespace: space, tab, line feed, carriage return.
pub open spec fn is_ws_char(c: char) -> bool {
    c as int == 32 || c as int == 9 || c as int == 10 || c as int == 13
}

/// An ASCII decimal digit.
pub open spec fn is_digit_char(c: char) -> bool {
    48 <= c as int <= 57
}

/// An ASCII letter or underscore.
pub open spec fn is_ident_start_char(c: char) -> bool {
    (65 <= c as int <= 90) || (97 <= c as int <= 122) || c as int == 95
}

/// A letter, digit or underscore.
pub open spec fn is_ident_char(c: char) -> bool {
    is_ident_start_char(c) || is_digit_char(c)
}

/// First position at or after `i` holding no whitespace.
pub open spec fn spec_skip_ws(s: Seq<char>, i: int) -> int
    decreases s.len() - i,
{
    if i < s.len() && is_ws_char(s[i]) {
        spec_skip_ws(s, i + 1)
    } else {
        i
    }
}

/// Skipping whitespace stays within the input.
pub proof fn lemma_skip_ws(s: Seq<char>, i: int)
    requires
        0 <= i <= s.len(),
    ensures
        i <= spec_skip_ws(s, i) <= s.len(),
    decreases s.len() - i,
{
    if i < s.len() && is_ws_char(s[i]) {
        lemma_skip_ws(s, i + 1);
    }
}

/// End of the run of identifier characters starting at `i`.
pub open spec fn spec_scan_ident(s: Seq<char>, i: int) -> int
    decreases s.len() - i,
{
    if i < s.len() && is_ident_char(s[i]) {
        spec_scan_ident(s, i + 1)
    } else {
        i
    }
}

/// Scanning identifier characters stays within the input.
pub proof fn lemma_scan_ident(s: Seq<char>, i: int)
    requires
        0 <= i <= s.len(),
    ensures
        i <= spec_scan_ident(s, i) <= s.len(),
    decreases s.len() - i,
{
    if i < s.len() && is_ident_char(s[i]) {
        lemma_scan_ident(s, i + 1);
    }
}

/// An identifier at `i`: a letter or underscore followed by letters,
/// digits and underscores.
pub open spec fn spec_ident(s: Seq<char>, i: int) -> PRes<Seq<char>> {
    if i < s.len() && is_ident_start_char(s[i]) {
        PRes::Parsed(s.subrange(i, spec_scan_ident(s, i)), spec_scan_ident(s, i))
    } else {
        PRes::Failed(ParseErrorView { pos: i, kind: ParseErrorKindView::ExpectedIdent })
    }
}

/// A parsed identifier is non-empty and ends within the input.
pub proof fn lemma_ident(s: Seq<char>, i: int)
    requires
        0 <= i <= s.len(),
    ensures
        spec_ident(s, i) matches PRes::Parsed(w, j) ==> i < j <= s.len() && w.len() == j - i,
{
    if i < s.len() && is_ident_start_char(s[i]) {
        lemma_scan_ident(s, i + 1);
        assert(spec_scan_ident(s, i) == spec_scan_ident(s, i + 1));
    }
}

/// A run of digits folded into a payload value, failing where the
/// value would no longer fit.
pub open spec fn spec_digits(s: Seq<char>, i: int, acc: u64) -> PRes<u64>
    decreases s.len() - i,
{
    if i < s.len() && is_digit_char(s[i]) {
        if acc as int * 10 + (s[i] as int - 48) > u64::MAX as int {
            PRes::Failed(ParseErrorView { pos: i, kind: ParseErrorKindView::NumberTooLarge })
        } else {
            spec_digits(s, i + 1, (acc as int * 10 + (s[i] as int - 48)) as u64)
        }
    } else {
        PRes::Parsed(acc, i)
    }
}

/// Reading digits stays within the input.
pub proof fn lemma_digits(s: Seq<char>, i: int, acc: u64)
    requires
        0 <= i <= s.len(),
    ensures
        spec_digits(s, i, acc) matches PRes::Parsed(v, j) ==> i <= j <= s.len(),
    decreases s.len() - i,
{
    if i < s.len() && is_digit_char(s[i]) {
        if !(acc as int * 10 + (s[i] as int - 48) > u64::MAX as int) {
            lemma_digits(s, i + 1, (acc as int * 10 + (s[i] as int - 48)) as u64);
        }
    }
}

/// An operand at `i`: a numeric literal, or one of the bound names
/// `ctx`, `state` and `event`.
pub open spec fn spec_operand(s: Seq<char>, i: int) -> PRes<Operand> {
    if i < s.len() && is_digit_char(s[i]) {
        match spec_digits(s, i, 0u64) {
            PRes::Parsed(v, j) => PRes::Parsed(Operand::Lit(v), j),
            PRes::Failed(e) => PRes::Failed(e),
        }
    } else {
        match spec_ident(s, i) {
            PRes::Parsed(w, j) => {
                if w == "ctx"@ {
                    PRes::Parsed(Operand::Ctx, j)
                } else if w == "state"@ {
                    PRes::Parsed(Operand::StatePayload, j)
                } else if w == "event"@ {
                    PRes::Parsed(Operand::EventPayload, j)
                } else {
                    PRes::Failed(
                        ParseErrorView { pos: i, kind: ParseErrorKindView::ExpectedOperand },
                    )
                }
            },
            PRes::Failed(_) => PRes::Failed(
                ParseErrorView { pos: i, kind: ParseErrorKindView::ExpectedOperand },
            ),
        }
    }
}

/// A parsed operand consumes at least one character.
pub proof fn lemma_operand(s: Seq<char>, i: int)
    requires
        0 <= i <= s.len(),
    ensures
        spec_operand(s, i) matches PRes::Parsed(_, j) ==> i < j <= s.len(),
{
    if i < s.len() && is_digit_char(s[i]) {
        let d = s[i] as int - 48;
        if !(0u64 as int * 10 + d > u64::MAX as int) {
            lemma_digits(s, i + 1, (0u64 as int * 10 + d) as u64);
        }
    } else {
        lemma_ident(s, i);
    }
}

/// A comparison operator at `i`: the two-character operators are tried
/// before the one-character ones.
pub open spec fn spec_cmpop(s: Seq<char>, i: int) -> PRes<CmpOp> {
    if i + 1 < s.len() && s[i] as int == 61 && s[i + 1] as int == 61 {
        PRes::Parsed(CmpOp::Eq, i + 2)
    } else if i + 1 < s.len() && s[i] as int == 33 && s[i + 1] as int == 61 {
        PRes::Parsed(CmpOp::Ne, i + 2)
    } else if i + 1 < s.len() && s[i] as int == 60 && s[i + 1] as int == 61 {
        PRes::Parsed(CmpOp::Le, i + 2)
    } else if i + 1 < s.len() && s[i] as int == 62 && s[i + 1] as int == 61 {
        PRes::Parsed(CmpOp::Ge, i + 2)
    } else if i < s.len() && s[i] as int == 60 {
        PRes::Parsed(CmpOp::Lt, i + 1)
    } else if i < s.len() && s[i] as int == 62 {
        PRes::Parsed(CmpOp::Gt, i + 1)
    } else {
        PRes::Failed(ParseErrorView { pos: i, kind: ParseErrorKindView::ExpectedCmp })
    }
}

/// An expression at `i`: an operand, optionally followed by `+` and a
/// second operand.
pub open spec fn spec_expr(s: Seq<char>, i: int) -> PRes<Expr> {
    match spec_operand(s, i) {
        PRes::Parsed(a, j) => {
            let j1 = spec_skip_ws(s, j);
            if j1 < s.len() && s[j1] as int == 43 {
                let j2 = spec_skip_ws(s, j1 + 1);
                match spec_operand(s, j2) {
                    PRes::Parsed(b, j3) => PRes::Parsed(Expr::Add(a, b), j3),
                    PRes::Failed(e) => PRes::Failed(e),
                }
            } else {
                PRes::Parsed(Expr::Operand(a), j)
            }
        },
        PRes::Failed(e) => PRes::Failed(e),
    }
}

/// A parsed expression consumes at least one character.
pub proof fn lemma_expr(s: Seq<char>, i: int)
    requires
        0 <= i <= s.len(),
    ensures
        spec_expr(s, i) matches PRes::Parsed(_, j) ==> i < j <= s.len(),
{
    lemma_operand(s, i);
    match spec_operand(s, i) {
        PRes::Parsed(a, j) => {
            lemma_skip_ws(s, j);
            let j1 = spec_skip_ws(s, j);
            if j1 < s.len() && s[j1] as int == 43 {
                lemma_skip_ws(s, j1 + 1);
                lemma_operand(s, spec_skip_ws(s, j1 + 1));
            }
        },
        PRes::Failed(_) => {},
    }
}

/// A parenthesized event pattern at `i`: `_` or any identifier binds
/// any present payload; a numeric literal matches that payload.
pub open spec fn spec_pattern(s: Seq<char>, i: int) -> PRes<EventPattern> {
    if i < s.len() && s[i] as int == 40 {
        let i1 = spec_skip_ws(s, i + 1);
        let inner: PRes<EventPattern> = if i1 < s.len() && is_digit_char(s[i1]) {
            match spec_digits(s, i1, 0u64) {
                PRes::Parsed(v, j) => PRes::Parsed(EventPattern::Lit(v), j),
                PRes::Failed(e) => PRes::Failed(e),
            }
        } else {
            match spec_ident(s, i1) {
                PRes::Parsed(_, j) => PRes::Parsed(EventPattern::Any, j),
                PRes::Failed(e) => PRes::Failed(e),
            }
        };
        match inner {
            PRes::Parsed(p, j) => {
                let j1 = spec_skip_ws(s, j);
                if j1 < s.len() && s[j1] as int == 41 {
                    PRes::Parsed(p, j1 + 1)
                } else {
                    PRes::Failed(
                        ParseErrorView { pos: j1, kind: ParseErrorKindView::ExpectedChar(')') },
                    )
                }
            },
            PRes::Failed(e) => PRes::Failed(e),
        }
    } else {
        PRes::Failed(ParseErrorView { pos: i, kind: ParseErrorKindView::ExpectedChar('(') })
    }
}

/// A parsed pattern consumes at least one character.
pub proof fn lemma_pattern(s: Seq<char>, i: int)
    requires
        0 <= i <= s.len(),
    ensures
        spec_pattern(s, i) matches PRes::Parsed(_, j) ==> i < j <= s.len(),
{
    if i < s.len() && s[i] as int == 40 {
        lemma_skip_ws(s, i + 1);
        let i1 = spec_skip_ws(s, i + 1);
        if i1 < s.len() && is_digit_char(s[i1]) {
            let d = s[i1] as int - 48;
            if !(0u64 as int * 10 + d > u64::MAX as int) {
                lemma_digits(s, i1 + 1, (0u64 as int * 10 + d) as u64);
            }
        } else {
            lemma_ident(s, i1);
        }
        let inner: PRes<EventPattern> = if i1 < s.len() && is_digit_char(s[i1]) {
            match spec_digits(s, i1, 0u64) {
                PRes::Parsed(v, j) => PRes::Parsed(EventPattern::Lit(v), j),
                PRes::Failed(e) => PRes::Failed(e),
            }
        } else {
            match spec_ident(s, i1) {
                PRes::Parsed(_, j) => PRes::Parsed(EventPattern::Any, j),
                PRes::Failed(e) => PRes::Failed(e),
            }
        };
        match inner {
            PRes::Parsed(_, j) => {
                lemma_skip_ws(s, j);
            },
            PRes::Failed(_) => {},
        }
    }
}

/// A comparison guard at `i`: operand, comparison operator, operand.
pub open spec fn spec_cmp_guard(s: Seq<char>, i: int) -> PRes<GuardExpr> {
    match spec_operand(s, i) {
        PRes::Parsed(a, j) => {
            let j1 = spec_skip_ws(s, j);
            match spec_cmpop(s, j1) {
                PRes::Parsed(op, j2) => {
                    let j3 = spec_skip_ws(s, j2);
                    match spec_operand(s, j3) {
                        PRes::Parsed(b, j4) => PRes::Parsed(GuardExpr::Cmp(op, a, b), j4),
                        PRes::Failed(e) => PRes::Failed(e),
                    }
                },
                PRes::Failed(e) => PRes::Failed(e),
            }
        },
        PRes::Failed(e) => PRes::Failed(e),
    }
}

/// A bracketed guard at `i`: a boolean literal or a comparison.
pub open spec fn spec_guard(s: Seq<char>, i: int) -> PRes<GuardExpr> {
    if i < s.len() && s[i] as int == 91 {
        let i1 = spec_skip_ws(s, i + 1);
        let inner: PRes<GuardExpr> = match spec_ident(s, i1) {
            PRes::Parsed(w, j) => {
                if w == "true"@ {
                    PRes::Parsed(GuardExpr::Lit(true), j)
                } else if w == "false"@ {
                    PRes::Parsed(GuardExpr::Lit(false), j)
                } else {
                    spec_cmp_guard(s, i1)
                }
            },
            PRes::Failed(_) => spec_cmp_guard(s, i1),
        };
        match inner {
            PRes::Parsed(g, j) => {
                let j1 = spec_skip_ws(s, j);
                if j1 < s.len() && s[j1] as int == 93 {
                    PRes::Parsed(g, j1 + 1)
                } else {
                    PRes::Failed(
                        ParseErrorView { pos: j1, kind: ParseErrorKindView::ExpectedChar(']') },
                    )
                }
            },
            PRes::Failed(e) => PRes::Failed(e),
        }
    } else {
        PRes::Failed(ParseErrorView { pos: i, kind: ParseErrorKindView::ExpectedChar('[') })
    }
}

/// A parsed comparison guard ends within the input.
pub proof fn lemma_cmp_guard(s: Seq<char>, i: int)
    requires
        0 <= i <= s.len(),
    ensures
        spec_cmp_guard(s, i) matches PRes::Parsed(_, j) ==> i < j <= s.len(),
{
    lemma_operand(s, i);
    match spec_operand(s, i) {
        PRes::Parsed(a, j) => {
            lemma_skip_ws(s, j);
            let j1 = spec_skip_ws(s, j);
            match spec_cmpop(s, j1) {
                PRes::Parsed(op, j2) => {
                    lemma_skip_ws(s, j2);
                    lemma_operand(s, spec_skip_ws(s, j2));
                },
                PRes::Failed(_) => {},
            }
        },
        PRes::Failed(_) => {},
    }
}

/// A parsed guard consumes at least one character.
pub proof fn lemma_guard(s: Seq<char>, i: int)
    requires
        0 <= i <= s.len(),
    ensures
        spec_guard(s, i) matches PRes::Parsed(_, j) ==> i < j <= s.len(),
{
    if i < s.len() && s[i] as int == 91 {
        lemma_skip_ws(s, i + 1);
        let i1 = spec_skip_ws(s, i + 1);
        lemma_ident(s, i1);
        lemma_cmp_guard(s, i1);
        let inner: PRes<GuardExpr> = match spec_ident(s, i1) {
            PRes::Parsed(w, j) => {
                if w == "true"@ {
                    PRes::Parsed(GuardExpr::Lit(true), j)
                } else if w == "false"@ {
                    PRes::Parsed(GuardExpr::Lit(false), j)
                } else {
                    spec_cmp_guard(s, i1)
                }
            },
            PRes::Failed(_) => spec_cmp_guard(s, i1),
        };
        match inner {
            PRes::Parsed(_, j) => {
                lemma_skip_ws(s, j);
            },
            PRes::Failed(_) => {},
        }
    }
}

/// Decides whitespace.
fn ws_char(c: char) -> (b: bool)
    ensures
        b == is_ws_char(c),
{
    let u = c as u32;
    u == 32 || u == 9 || u == 10 || u == 13
}

/// Decides a decimal digit.
fn digit_char(c: char) -> (b: bool)
    ensures
        b == is_digit_char(c),
{
    let u = c as u32;
    48 <= u && u <= 57
}

/// Decides a letter or underscore.
fn ident_start_char(c: char) -> (b: bool)
    ensures
        b == is_ident_start_char(c),
{
    let u = c as u32;
    (65 <= u && u <= 90) || (97 <= u && u <= 122) || u == 95
}

/// Decides a letter, digit or underscore.
fn ident_char(c: char) -> (b: bool)
    ensures
        b == is_ident_char(c),
{
    ident_start_char(c) || digit_char(c)
}

/// Compares two string slices by their characters.
fn str_eq(a: &str, b: &str) -> (r: bool)
    ensures
        r == (a@ == b@),
{
    let sa = a.to_owned();
    let sb = b.to_owned();
    sa == sb
}

/// Skips whitespace.
fn skip_ws(s: &str, n: usize, i: usize) -> (r: usize)
    requires
        n == s@.len(),
        i <= n,
    ensures
        r as int == spec_skip_ws(s@, i as int),
        i <= r <= n,
    decreases n - i,
{
    if i < n {
        let c = s.get_char(i);
        if ws_char(c) {
            return skip_ws(s, n, i + 1);
        }
    }
    i
}

/// Scans to the end of a run of identifier characters.
fn scan_ident(s: &str, n: usize, i: usize) -> (r: usize)
    requires
        n == s@.len(),
        i <= n,
    ensures
        r as int == spec_scan_ident(s@, i as int),
        i <= r <= n,
    decreases n - i,
{
    if i < n {
        let c = s.get_char(i);
        if ident_char(c) {
            return scan_ident(s, n, i + 1);
        }
    }
    i
}

/// Reads an identifier.
fn read_ident(s: &str, n: usize, i: usize) -> (r: Result<(String, usize), ParseError>)
    requires
        n == s@.len(),
        i <= n,
    ensures
        match r {
            Ok((w, j)) => spec_ident(s@, i as int) == PRes::Parsed(w@, j as int) && i < j <= n,
            Err(e) => spec_ident(s@, i as int) == PRes::<Seq<char>>::Failed(e@),
        },
{
    if i < n {
        let c = s.get_char(i);
        if ident_start_char(c) {
            let j = scan_ident(s, n, i);
            proof {
                lemma_ident(s@, i as int);
            }
            let w = s.substring_char(i, j).to_owned();
            return Ok((w, j));
        }
    }
    Err(ParseError { pos: i, kind: ParseErrorKind::ExpectedIdent })
}

/// Reads a run of digits into a payload value.
fn read_digits(s: &str, n: usize, i: usize, acc: u64) -> (r: Result<(u64, usize), ParseError>)
    requires
        n == s@.len(),
        i <= n,
    ensures
        match r {
            Ok((v, j)) => spec_digits(s@, i as int, acc) == PRes::Parsed(v, j as int) && i <= j <= n,
            Err(e) => spec_digits(s@, i as int, acc) == PRes::<u64>::Failed(e@),
        },
    decreases n - i,
{
    if i < n {
        let c = s.get_char(i);
        if digit_char(c) {
            let d = (c as u32 - 48) as u64;
            proof {
                assert(d as int == s@[i as int] as int - 48);
            }
            match acc.checked_mul(10) {
                Some(x) => {
                    match x.checked_add(d) {
                        Some(y) => {
                            return read_digits(s, n, i + 1, y);
                        },
                        None => {
                            return Err(
                                ParseError { pos: i, kind: ParseErrorKind::NumberTooLarge },
                            );
                        },
                    }
                },
                None => {
                    return Err(ParseError { pos: i, kind: ParseErrorKind::NumberTooLarge });
                },
            }
        }
    }
    Ok((acc, i))
}

/// Whether the character at `i` is the one with code `code`.
fn peek_is(s: &str, n: usize, i: usize, code: u32) -> (b: bool)
    requires
        n == s@.len(),
        i <= n,
    ensures
        b == (i < s@.len() && s@[i as int] as int == code as int),
{
    if i < n {
        s.get_char(i) as u32 == code
    } else {
        false
    }
}

/// Reads an operand.
fn read_operand(s: &str, n: usize, i: usize) -> (r: Result<(Operand, usize), ParseError>)
    requires
        n == s@.len(),
        i <= n,
    ensures
        match r {
            Ok((op, j)) => spec_operand(s@, i as int) == PRes::Parsed(op, j as int) && i < j <= n,
            Err(e) => spec_operand(s@, i as int) == PRes::<Operand>::Failed(e@),
        },
{
    proof {
        lemma_operand(s@, i as int);
    }
    let is_dig = if i < n {
        digit_char(s.get_char(i))
    } else {
        false
    };
    if is_dig {
        match read_digits(s, n, i, 0) {
            Ok((v, j)) => Ok((Operand::Lit(v), j)),
            Err(e) => Err(e),
        }
    } else {
        match read_ident(s, n, i) {
            Ok((w, j)) => {
                if str_eq(w.as_str(), "ctx") {
                    Ok((Operand::Ctx, j))
                } else if str_eq(w.as_str(), "state") {
                    Ok((Operand::StatePayload, j))
                } else if str_eq(w.as_str(), "event") {
                    Ok((Operand::EventPayload, j))
                } else {
                    Err(ParseError { pos: i, kind: ParseErrorKind::ExpectedOperand })
                }
            },
            Err(_) => Err(ParseError { pos: i, kind: ParseErrorKind::ExpectedOperand }),
        }
    }
}

/// Reads a comparison operator.
fn read_cmpop(s: &str, n: usize, i: usize) -> (r: Result<(CmpOp, usize), ParseError>)
    requires
        n == s@.len(),
        i <= n,
    ensures
        match r {
            Ok((op, j)) => spec_cmpop(s@, i as int) == PRes::Parsed(op, j as int) && i < j <= n,
            Err(e) => spec_cmpop(s@, i as int) == PRes::<CmpOp>::Failed(e@),
        },
{
    if i < n && i + 1 < n {
        let a = s.get_char(i) as u32;
        let b = s.get_char(i + 1) as u32;
        if a == 61 && b == 61 {
            return Ok((CmpOp::Eq, i + 2));
        }
        if a == 33 && b == 61 {
            return Ok((CmpOp::Ne, i + 2));
        }
        if a == 60 && b == 61 {
            return Ok((CmpOp::Le, i + 2));
        }
        if a == 62 && b == 61 {
            return Ok((CmpOp::Ge, i + 2));
        }
    }
    if i < n {
        let a = s.get_char(i) as u32;
        if a == 60 {
            return Ok((CmpOp::Lt, i + 1));
        }
        if a == 62 {
            return Ok((CmpOp::Gt, i + 1));
        }
    }
    Err(ParseError { pos: i, kind: ParseErrorKind::ExpectedCmp })
}

/// Reads an expression.
fn read_expr(s: &str, n: usize, i: usize) -> (r: Result<(Expr, usize), ParseError>)
    requires
        n == s@.len(),
        i <= n,
    ensures
        match r {
            Ok((e, j)) => spec_expr(s@, i as int) == PRes::Parsed(e, j as int) && i < j <= n,
            Err(e) => spec_expr(s@, i as int) == PRes::<Expr>::Failed(e@),
        },
{
    proof {
        lemma_expr(s@, i as int);
        lemma_operand(s@, i as int);
    }
    match read_operand(s, n, i) {
        Ok((a, j)) => {
            let j1 = skip_ws(s, n, j);
            if peek_is(s, n, j1, 43) {
                let j2 = skip_ws(s, n, j1 + 1);
                match read_operand(s, n, j2) {
                    Ok((b, j3)) => Ok((Expr::Add(a, b), j3)),
                    Err(e) => Err(e),
                }
            } else {
                Ok((Expr::Operand(a), j))
            }
        },
        Err(e) => Err(e),
    }
}

/// Reads a parenthesized event pattern.
fn read_pattern(s: &str, n: usize, i: usize) -> (r: Result<(EventPattern, usize), ParseError>)
    requires
        n == s@.len(),
        i <= n,
    ensures
        match r {
            Ok((p, j)) => spec_pattern(s@, i as int) == PRes::Parsed(p, j as int) && i < j <= n,
            Err(e) => spec_pattern(s@, i as int) == PRes::<EventPattern>::Failed(e@),
        },
{
    proof {
        lemma_pattern(s@, i as int);
    }
    if peek_is(s, n, i, 40) {
        let i1 = skip_ws(s, n, i + 1);
        let is_dig = if i1 < n {
            digit_char(s.get_char(i1))
        } else {
            false
        };
        let inner: Result<(EventPattern, usize), ParseError> = if is_dig {
            match read_digits(s, n, i1, 0) {
                Ok((v, j)) => Ok((EventPattern::Lit(v), j)),
                Err(e) => Err(e),
            }
        } else {
            match read_ident(s, n, i1) {
                Ok((w, j)) => Ok((EventPattern::Any, j)),
                Err(e) => Err(e),
            }
        };
        match inner {
            Ok((p, j)) => {
                let j1 = skip_ws(s, n, j);
                if peek_is(s, n, j1, 41) {
                    Ok((p, j1 + 1))
                } else {
                    Err(ParseError { pos: j1, kind: ParseErrorKind::ExpectedChar(')') })
                }
            },
            Err(e) => Err(e),
        }
    } else {
        Err(ParseError { pos: i, kind: ParseErrorKind::ExpectedChar('(') })
    }
}

/// Reads a comparison guard.
fn read_cmp_guard(s: &str, n: usize, i: usize) -> (r: Result<(GuardExpr, usize), ParseError>)
    requires
        n == s@.len(),
        i <= n,
    ensures
        match r {
            Ok((g, j)) => spec_cmp_guard(s@, i as int) == PRes::Parsed(g, j as int) && i < j
                <= n,
            Err(e) => spec_cmp_guard(s@, i as int) == PRes::<GuardExpr>::Failed(e@),
        },
{
    proof {
        lemma_cmp_guard(s@, i as int);
        lemma_operand(s@, i as int);
    }
    match read_operand(s, n, i) {
        Ok((a, j)) => {
            let j1 = skip_ws(s, n, j);
            match read_cmpop(s, n, j1) {
                Ok((op, j2)) => {
                    let j3 = skip_ws(s, n, j2);
                    match read_operand(s, n, j3) {
                        Ok((b, j4)) => Ok((GuardExpr::Cmp(op, a, b), j4)),
                        Err(e) => Err(e),
                    }
                },
                Err(e) => Err(e),
            }
        },
        Err(e) => Err(e),
    }
}

/// Reads a bracketed guard.
fn read_guard(s: &str, n: usize, i: usize) -> (r: Result<(GuardExpr, usize), ParseError>)
    requires
        n == s@.len(),
        i <= n,
    ensures
        match r {
            Ok((g, j)) => spec_guard(s@, i as int) == PRes::Parsed(g, j as int) && i < j <= n,
            Err(e) => spec_guard(s@, i as int) == PRes::<GuardExpr>::Failed(e@),
        },
{
    proof {
        lemma_guard(s@, i as int);
    }
    if peek_is(s, n, i, 91) {
        let i1 = skip_ws(s, n, i + 1);
        let mut used_lit = false;
        let mut lit_val = false;
        let mut lit_end: usize = 0;
        match read_ident(s, n, i1) {
            Ok((w, j)) => {
                if str_eq(w.as_str(), "true") {
                    used_lit = true;
                    lit_val = true;
                    lit_end = j;
                } else if str_eq(w.as_str(), "false") {
                    used_lit = true;
                    lit_val = false;
                    lit_end = j;
                }
            },
            Err(_) => {},
        }
        let inner: Result<(GuardExpr, usize), ParseError> = if used_lit {
            Ok((GuardExpr::Lit(lit_val), lit_end))
        } else {
            read_cmp_guard(s, n, i1)
        };
        proof {
            lemma_ident(s@, i1 as int);
        }
        match inner {
            Ok((g, j)) => {
                let j1 = skip_ws(s, n, j);
                if peek_is(s, n, j1, 93) {
                    Ok((g, j1 + 1))
                } else {
                    Err(ParseError { pos: j1, kind: ParseErrorKind::ExpectedChar(']') })
                }
            },
            Err(e) => Err(e),
        }
    } else {
        Err(ParseError { pos: i, kind: ParseErrorKind::ExpectedChar('[') })
    }
}


/// An input state at `i`: `_` for the wildcard, or a state name with
/// an optional parenthesized payload-type marker.
pub open spec fn spec_in_state(s: Seq<char>, i: int) -> PRes<Option<StateDeclView>> {
    match spec_ident(s, i) {
        PRes::Parsed(w, j) => {
            if w == "_"@ {
                PRes::Parsed(None, j)
            } else {
                let j1 = spec_skip_ws(s, j);
                if j1 < s.len() && s[j1] as int == 40 {
                    let j2 = spec_skip_ws(s, j1 + 1);
                    match spec_ident(s, j2) {
                        PRes::Parsed(_, j3) => {
                            let j4 = spec_skip_ws(s, j3);
                            if j4 < s.len() && s[j4] as int == 41 {
                                PRes::Parsed(
                                    Some(StateDeclView { name: w, has_payload: true }),
                                    j4 + 1,
                                )
                            } else {
                                PRes::Failed(
                                    ParseErrorView {
                                        pos: j4,
                                        kind: ParseErrorKindView::ExpectedChar(')'),
                                    },
                                )
                            }
                        },
                        PRes::Failed(e) => PRes::Failed(e),
                    }
                } else {
                    PRes::Parsed(Some(StateDeclView { name: w, has_payload: false }), j)
                }
            }
        },
        PRes::Failed(e) => PRes::Failed(e),
    }
}

/// A parsed input state consumes at least one character.
pub proof fn lemma_in_state(s: Seq<char>, i: int)
    requires
        0 <= i <= s.len(),
    ensures
        spec_in_state(s, i) matches PRes::Parsed(_, j) ==> i < j <= s.len(),
{
    lemma_ident(s, i);
    match spec_ident(s, i) {
        PRes::Parsed(w, j) => {
            lemma_skip_ws(s, j);
            let j1 = spec_skip_ws(s, j);
            if j1 < s.len() && s[j1] as int == 40 {
                lemma_skip_ws(s, j1 + 1);
                let j2 = spec_skip_ws(s, j1 + 1);
                lemma_ident(s, j2);
                match spec_ident(s, j2) {
                    PRes::Parsed(_, j3) => {
                        lemma_skip_ws(s, j3);
                    },
                    PRes::Failed(_) => {},
                }
            }
        },
        PRes::Failed(_) => {},
    }
}

/// An action after `/` at `i`: `ctx` `=` expression.
pub open spec fn spec_action(s: Seq<char>, i: int) -> PRes<ActionStmt> {
    let i1 = spec_skip_ws(s, i);
    match spec_ident(s, i1) {
        PRes::Parsed(w, j) => {
            if w == "ctx"@ {
                let j1 = spec_skip_ws(s, j);
                if j1 < s.len() && s[j1] as int == 61 {
                    let j2 = spec_skip_ws(s, j1 + 1);
                    match spec_expr(s, j2) {
                        PRes::Parsed(e, j3) => PRes::Parsed(ActionStmt { expr: e }, j3),
                        PRes::Failed(e) => PRes::Failed(e),
                    }
                } else {
                    PRes::Failed(
                        ParseErrorView { pos: j1, kind: ParseErrorKindView::ExpectedChar('=') },
                    )
                }
            } else {
                PRes::Failed(ParseErrorView { pos: i1, kind: ParseErrorKindView::ExpectedCtx })
            }
        },
        PRes::Failed(e) => PRes::Failed(e),
    }
}

/// A parsed action ends within the input.
pub proof fn lemma_action(s: Seq<char>, i: int)
    requires
        0 <= i <= s.len(),
    ensures
        spec_action(s, i) matches PRes::Parsed(_, j) ==> i <= j <= s.len(),
{
    lemma_skip_ws(s, i);
    let i1 = spec_skip_ws(s, i);
    lemma_ident(s, i1);
    match spec_ident(s, i1) {
        PRes::Parsed(w, j) => {
            lemma_skip_ws(s, j);
            let j1 = spec_skip_ws(s, j);
            if j1 < s.len() && s[j1] as int == 61 {
                lemma_skip_ws(s, j1 + 1);
                lemma_expr(s, spec_skip_ws(s, j1 + 1));
            }
        },
        PRes::Failed(_) => {},
    }
}

/// One transition rule at `i`:
/// `[*] input_state + event [(pattern)] [[guard]] [/ action]
///  = output_state [(payload_expr)]`.
pub open spec fn spec_rule(s: Seq<char>, i: int) -> PRes<TransitionView> {
    let start = i < s.len() && s[i] as int == 42;
    let i0 = if start {
        spec_skip_ws(s, i + 1)
    } else {
        i
    };
    match spec_in_state(s, i0) {
        PRes::Parsed(ins, j) => {
            let j1 = spec_skip_ws(s, j);
            if j1 < s.len() && s[j1] as int == 43 {
                let j2 = spec_skip_ws(s, j1 + 1);
                match spec_ident(s, j2) {
                    PRes::Parsed(ev, j3) => {
                        let j4 = spec_skip_ws(s, j3);
                        let patres: PRes<Option<EventPattern>> = if j4 < s.len() && s[j4] as int
                            == 40 {
                            match spec_pattern(s, j4) {
                                PRes::Parsed(p, j5) => PRes::Parsed(Some(p), j5),
                                PRes::Failed(e) => PRes::Failed(e),
                            }
                        } else {
                            PRes::Parsed(None, j4)
                        };
                        match patres {
                            PRes::Parsed(pat, j5) => {
                                let j6 = spec_skip_ws(s, j5);
                                let guardres: PRes<Option<GuardExpr>> = if j6 < s.len()
                                    && s[j6] as int == 91 {
                                    match spec_guard(s, j6) {
                                        PRes::Parsed(g, j7) => PRes::Parsed(Some(g), j7),
                                        PRes::Failed(e) => PRes::Failed(e),
                                    }
                                } else {
                                    PRes::Parsed(None, j6)
                                };
                                match guardres {
                                    PRes::Parsed(gd, j7) => {
                                        let j8 = spec_skip_ws(s, j7);
                                        let actres: PRes<Option<ActionStmt>> = if j8 < s.len()
                                            && s[j8] as int == 47 {
                                            match spec_action(s, j8 + 1) {
                                                PRes::Parsed(a, j9) => PRes::Parsed(Some(a), j9),
                                                PRes::Failed(e) => PRes::Failed(e),
                                            }
                                        } else {
                                            PRes::Parsed(None, j8)
                                        };
                                        match actres {
                                            PRes::Parsed(act, j9) => {
                                                let j10 = spec_skip_ws(s, j9);
                                                if j10 < s.len() && s[j10] as int == 61 {
                                                    let j11 = spec_skip_ws(s, j10 + 1);
                                                    match spec_ident(s, j11) {
                                                        PRes::Parsed(outn, j12) => {
                                                            let j13 = spec_skip_ws(s, j12);
                                                            let exprres: PRes<Option<Expr>> = if j13
                                                                < s.len() && s[j13] as int == 40 {
                                                                let j14 = spec_skip_ws(s, j13 + 1);
                                                                match spec_expr(s, j14) {
                                                                    PRes::Parsed(e, j15) => {
                                                                        let j16 = spec_skip_ws(
                                                                            s,
                                                                            j15,
                                                                        );
                                                                        if j16 < s.len() && s[
                                                                            j16
                                                                        ] as int == 41 {
                                                                            PRes::Parsed(
                                                                                Some(e),
                                                                                j16 + 1,
                                                                            )
                                                                        } else {
                                                                            PRes::Failed(
                                                                                ParseErrorView {
                                                                                    pos: j16,
                                                                                    kind:
                                                                                        ParseErrorKindView::ExpectedChar(')'),
                                                                                },
                                                                            )
                                                                        }
                                                                    },
                                                                    PRes::Failed(e) => PRes::Failed(
                                                                        e,
                                                                    ),
                                                                }
                                                            } else {
                                                                PRes::Parsed(None, j12)
                                                            };
                                                            match exprres {
                                                                PRes::Parsed(oexpr, jf) => {
                                                                    PRes::Parsed(
                                                                        TransitionView {
                                                                            start,
                                                                            in_state: ins,
                                                                            event: ev,
                                                                            event_pattern: pat,
                                                                            guard: gd,
                                                                            actions: act,
                                                                            out_state: outn,
                                                                            out_state_data_expr:
                                                                                oexpr,
                                                                        },
                                                                        jf,
                                                                    )
                                                                },
                                                                PRes::Failed(e) => PRes::Failed(e),
                                                            }
                                                        },
                                                        PRes::Failed(e) => PRes::Failed(e),
                                                    }
                                                } else {
                                                    PRes::Failed(
                                                        ParseErrorView {
                                                            pos: j10,
                                                            kind: ParseErrorKindView::ExpectedChar(
                                                                '=',
                                                            ),
                                                        },
                                                    )
                                                }
                                            },
                                            PRes::Failed(e) => PRes::Failed(e),
                                        }
                                    },
                                    PRes::Failed(e) => PRes::Failed(e),
                                }
                            },
                            PRes::Failed(e) => PRes::Failed(e),
                        }
                    },
                    PRes::Failed(e) => PRes::Failed(e),
                }
            } else {
                PRes::Failed(
                    ParseErrorView { pos: j1, kind: ParseErrorKindView::ExpectedChar('+') },
                )
            }
        },
        PRes::Failed(e) => PRes::Failed(e),
    }
}

/// A parsed rule consumes at least one character.
pub proof fn lemma_rule(s: Seq<char>, i: int)
    requires
        0 <= i <= s.len(),
    ensures
        spec_rule(s, i) matches PRes::Parsed(_, j) ==> i < j <= s.len(),
{
    let start = i < s.len() && s[i] as int == 42;
    if start {
        lemma_skip_ws(s, i + 1);
    }
    let i0 = if start {
        spec_skip_ws(s, i + 1)
    } else {
        i
    };
    lemma_in_state(s, i0);
    match spec_in_state(s, i0) {
        PRes::Parsed(ins, j) => {
            lemma_skip_ws(s, j);
            let j1 = spec_skip_ws(s, j);
            if j1 < s.len() && s[j1] as int == 43 {
                lemma_skip_ws(s, j1 + 1);
                let j2 = spec_skip_ws(s, j1 + 1);
                lemma_ident(s, j2);
                match spec_ident(s, j2) {
                    PRes::Parsed(ev, j3) => {
                        lemma_skip_ws(s, j3);
                        let j4 = spec_skip_ws(s, j3);
                        lemma_pattern(s, j4);
                        let patres: PRes<Option<EventPattern>> = if j4 < s.len() && s[j4] as int
                            == 40 {
                            match spec_pattern(s, j4) {
                                PRes::Parsed(p, j5) => PRes::Parsed(Some(p), j5),
                                PRes::Failed(e) => PRes::Failed(e),
                            }
                        } else {
                            PRes::Parsed(None, j4)
                        };
                        match patres {
                            PRes::Parsed(pat, j5) => {
                                lemma_skip_ws(s, j5);
                                let j6 = spec_skip_ws(s, j5);
                                lemma_guard(s, j6);
                                let guardres: PRes<Option<GuardExpr>> = if j6 < s.len()
                                    && s[j6] as int == 91 {
                                    match spec_guard(s, j6) {
                                        PRes::Parsed(g, j7) => PRes::Parsed(Some(g), j7),
                                        PRes::Failed(e) => PRes::Failed(e),
                                    }
                                } else {
                                    PRes::Parsed(None, j6)
                                };
                                match guardres {
                                    PRes::Parsed(gd, j7) => {
                                        lemma_skip_ws(s, j7);
                                        let j8 = spec_skip_ws(s, j7);
                                        if j8 < s.len() && s[j8] as int == 47 {
                                            lemma_action(s, j8 + 1);
                                        }
                                        let actres: PRes<Option<ActionStmt>> = if j8 < s.len()
                                            && s[j8] as int == 47 {
                                            match spec_action(s, j8 + 1) {
                                                PRes::Parsed(a, j9) => PRes::Parsed(Some(a), j9),
                                                PRes::Failed(e) => PRes::Failed(e),
                                            }
                                        } else {
                                            PRes::Parsed(None, j8)
                                        };
                                        match actres {
                                            PRes::Parsed(act, j9) => {
                                                lemma_skip_ws(s, j9);
                                                let j10 = spec_skip_ws(s, j9);
                                                if j10 < s.len() && s[j10] as int == 61 {
                                                    lemma_skip_ws(s, j10 + 1);
                                                    let j11 = spec_skip_ws(s, j10 + 1);
                                                    lemma_ident(s, j11);
                                                    match spec_ident(s, j11) {
                                                        PRes::Parsed(outn, j12) => {
                                                            lemma_skip_ws(s, j12);
                                                            let j13 = spec_skip_ws(s, j12);
                                                            if j13 < s.len() && s[j13] as int
                                                                == 40 {
                                                                lemma_skip_ws(s, j13 + 1);
                                                                let j14 = spec_skip_ws(s, j13 + 1);
                                                                lemma_expr(s, j14);
                                                                match spec_expr(s, j14) {
                                                                    PRes::Parsed(e, j15) => {
                                                                        lemma_skip_ws(s, j15);
                                                                    },
                                                                    PRes::Failed(_) => {},
                                                                }
                                                            }
                                                        },
                                                        PRes::Failed(_) => {},
                                                    }
                                                }
                                            },
                                            PRes::Failed(_) => {},
                                        }
                                    },
                                    PRes::Failed(_) => {},
                                }
                            },
                            PRes::Failed(_) => {},
                        }
                    },
                    PRes::Failed(_) => {},
                }
            }
        },
        PRes::Failed(_) => {},
    }
}


/// Reads an input state.
fn read_in_state(s: &str, n: usize, i: usize) -> (r: Result<(Option<StateDecl>, usize), ParseError>)
    requires
        n == s@.len(),
        i <= n,
    ensures
        match r {
            Ok((d, j)) => spec_in_state(s@, i as int) == PRes::Parsed(
                match d {
                    Some(sd) => Some(sd@),
                    None => None,
                },
                j as int,
            ) && i < j <= n,
            Err(e) => spec_in_state(s@, i as int) == PRes::<Option<StateDeclView>>::Failed(e@),
        },
{
    proof {
        lemma_in_state(s@, i as int);
    }
    match read_ident(s, n, i) {
        Ok((w, j)) => {
            if str_eq(w.as_str(), "_") {
                Ok((None, j))
            } else {
                let j1 = skip_ws(s, n, j);
                if peek_is(s, n, j1, 40) {
                    let j2 = skip_ws(s, n, j1 + 1);
                    match read_ident(s, n, j2) {
                        Ok((_, j3)) => {
                            let j4 = skip_ws(s, n, j3);
                            if peek_is(s, n, j4, 41) {
                                Ok((Some(StateDecl { name: w, has_payload: true }), j4 + 1))
                            } else {
                                Err(
                                    ParseError {
                                        pos: j4,
                                        kind: ParseErrorKind::ExpectedChar(')'),
                                    },
                                )
                            }
                        },
                        Err(e) => Err(e),
                    }
                } else {
                    Ok((Some(StateDecl { name: w, has_payload: false }), j))
                }
            }
        },
        Err(e) => Err(e),
    }
}

/// Reads an action after `/`.
fn read_action(s: &str, n: usize, i: usize) -> (r: Result<(ActionStmt, usize), ParseError>)
    requires
        n == s@.len(),
        i <= n,
    ensures
        match r {
            Ok((a, j)) => spec_action(s@, i as int) == PRes::Parsed(a, j as int) && i <= j <= n,
            Err(e) => spec_action(s@, i as int) == PRes::<ActionStmt>::Failed(e@),
        },
{
    proof {
        lemma_action(s@, i as int);
    }
    let i1 = skip_ws(s, n, i);
    match read_ident(s, n, i1) {
        Ok((w, j)) => {
            if str_eq(w.as_str(), "ctx") {
                let j1 = skip_ws(s, n, j);
                if peek_is(s, n, j1, 61) {
                    let j2 = skip_ws(s, n, j1 + 1);
                    match read_expr(s, n, j2) {
                        Ok((e, j3)) => Ok((ActionStmt { expr: e }, j3)),
                        Err(e) => Err(e),
                    }
                } else {
                    Err(ParseError { pos: j1, kind: ParseErrorKind::ExpectedChar('=') })
                }
            } else {
                Err(ParseError { pos: i1, kind: ParseErrorKind::ExpectedCtx })
            }
        },
        Err(e) => Err(e),
    }
}

/// Reads one transition rule.
#[verifier::rlimit(50)]
fn read_rule(s: &str, n: usize, i: usize) -> (r: Result<(StateTransition, usize), ParseError>)
    requires
        n == s@.len(),
        i <= n,
    ensures
        match r {
            Ok((t, j)) => spec_rule(s@, i as int) == PRes::Parsed(t@, j as int) && i < j <= n,
            Err(e) => spec_rule(s@, i as int) == PRes::<TransitionView>::Failed(e@),
        },
{
    proof {
        lemma_rule(s@, i as int);
    }
    let start = peek_is(s, n, i, 42);
    let i0 = if start {
        skip_ws(s, n, i + 1)
    } else {
        i
    };
    let ins = match read_in_state(s, n, i0) {
        Ok(p) => p,
        Err(e) => {
            return Err(e);
        },
    };
    let j1 = skip_ws(s, n, ins.1);
    if !peek_is(s, n, j1, 43) {
        return Err(ParseError { pos: j1, kind: ParseErrorKind::ExpectedChar('+') });
    }
    let j2 = skip_ws(s, n, j1 + 1);
    let ev = match read_ident(s, n, j2) {
        Ok(p) => p,
        Err(e) => {
            return Err(e);
        },
    };
    let j4 = skip_ws(s, n, ev.1);
    let pat: (Option<EventPattern>, usize) = if peek_is(s, n, j4, 40) {
        match read_pattern(s, n, j4) {
            Ok((p, j5)) => (Some(p), j5),
            Err(e) => {
                return Err(e);
            },
        }
    } else {
        (None, j4)
    };
    let j6 = skip_ws(s, n, pat.1);
    let gd: (Option<GuardExpr>, usize) = if peek_is(s, n, j6, 91) {
        match read_guard(s, n, j6) {
            Ok((g, j7)) => (Some(g), j7),
            Err(e) => {
                return Err(e);
            },
        }
    } else {
        (None, j6)
    };
    let j8 = skip_ws(s, n, gd.1);
    let act: (Option<ActionStmt>, usize) = if peek_is(s, n, j8, 47) {
        match read_action(s, n, j8 + 1) {
            Ok((a, j9)) => (Some(a), j9),
            Err(e) => {
                return Err(e);
            },
        }
    } else {
        (None, j8)
    };
    let j10 = skip_ws(s, n, act.1);
    if !peek_is(s, n, j10, 61) {
        return Err(ParseError { pos: j10, kind: ParseErrorKind::ExpectedChar('=') });
    }
    let j11 = skip_ws(s, n, j10 + 1);
    let outn = match read_ident(s, n, j11) {
        Ok(p) => p,
        Err(e) => {
            return Err(e);
        },
    };
    let j13 = skip_ws(s, n, outn.1);
    let oexpr: (Option<Expr>, usize) = if peek_is(s, n, j13, 40) {
        let j14 = skip_ws(s, n, j13 + 1);
        match read_expr(s, n, j14) {
            Ok((e, j15)) => {
                let j16 = skip_ws(s, n, j15);
                if peek_is(s, n, j16, 41) {
                    (Some(e), j16 + 1)
                } else {
                    return Err(ParseError { pos: j16, kind: ParseErrorKind::ExpectedChar(')') });
                }
            },
            Err(e) => {
                return Err(e);
            },
        }
    } else {
        (None, outn.1)
    };
    let t = StateTransition {
        start,
        in_state: ins.0,
        event: ev.0,
        event_pattern: pat.0,
        guard: gd.0,
        actions: act.0,
        out_state: outn.0,
        out_state_data_expr: oexpr.0,
    };
    Ok((t, oexpr.1))
}


/// The text of a metadata tag runs from the opening bracket to the
/// first closing bracket.  Returns the position of that closing
/// bracket.
pub open spec fn spec_tag_scan(s: Seq<char>, i: int) -> PRes<int>
    decreases s.len() - i,
{
    if i >= s.len() {
        PRes::Failed(ParseErrorView { pos: i, kind: ParseErrorKindView::UnterminatedTag })
    } else if s[i] as int == 93 {
        PRes::Parsed(i, i + 1)
    } else {
        spec_tag_scan(s, i + 1)
    }
}

/// A found tag end lies within the input.
pub proof fn lemma_tag_scan(s: Seq<char>, i: int)
    requires
        0 <= i <= s.len(),
    ensures
        spec_tag_scan(s, i) matches PRes::Parsed(c, j) ==> i <= c < s.len() && j == c + 1,
    decreases s.len() - i,
{
    if i < s.len() && s[i] as int != 93 {
        lemma_tag_scan(s, i + 1);
    }
}

/// Appends a parsed rule to the raw rule set: a rule that names its
/// input state is explicit; one whose input state is the wildcard goes
/// to the wildcard list.
pub open spec fn rules_push(acc: StateMachineView, t: TransitionView) -> StateMachineView {
    if t.in_state is Some {
        StateMachineView {
            transitions: acc.transitions.push(t),
            wildcards: acc.wildcards,
            states_attrs: acc.states_attrs,
        }
    } else {
        StateMachineView {
            transitions: acc.transitions,
            wildcards: acc.wildcards.push(t),
            states_attrs: acc.states_attrs,
        }
    }
}

/// The rules of a `transitions` block from `i` on: rules separated by
/// commas, with an optional trailing comma, closed by `}`.
pub open spec fn spec_rules(s: Seq<char>, i: int, acc: StateMachineView) -> PRes<StateMachineView>
    decreases s.len() - i,
    when 0 <= i <= s.len()
    via spec_rules_dec
{
    match spec_rule(s, i) {
        PRes::Parsed(t, j) => {
            let acc2 = rules_push(acc, t);
            let j1 = spec_skip_ws(s, j);
            if j1 < s.len() && s[j1] as int == 125 {
                PRes::Parsed(acc2, j1 + 1)
            } else if j1 < s.len() && s[j1] as int == 44 {
                let j2 = spec_skip_ws(s, j1 + 1);
                if j2 < s.len() && s[j2] as int == 125 {
                    PRes::Parsed(acc2, j2 + 1)
                } else {
                    spec_rules(s, j2, acc2)
                }
            } else {
                PRes::Failed(
                    ParseErrorView { pos: j1, kind: ParseErrorKindView::ExpectedChar('}') },
                )
            }
        },
        PRes::Failed(e) => PRes::Failed(e),
    }
}

#[via_fn]
proof fn spec_rules_dec(s: Seq<char>, i: int, acc: StateMachineView) {
    lemma_rule(s, i);
    match spec_rule(s, i) {
        PRes::Parsed(t, j) => {
            lemma_skip_ws(s, j);
            let j1 = spec_skip_ws(s, j);
            if j1 < s.len() && s[j1] as int == 44 {
                lemma_skip_ws(s, j1 + 1);
            }
        },
        PRes::Failed(_) => {},
    }
}

/// A parsed rule list consumes at least one character.
pub proof fn lemma_rules(s: Seq<char>, i: int, acc: StateMachineView)
    requires
        0 <= i <= s.len(),
    ensures
        spec_rules(s, i, acc) matches PRes::Parsed(_, j) ==> i < j <= s.len(),
    decreases s.len() - i,
{
    lemma_rule(s, i);
    match spec_rule(s, i) {
        PRes::Parsed(t, j) => {
            lemma_skip_ws(s, j);
            let j1 = spec_skip_ws(s, j);
            if j1 < s.len() && s[j1] as int == 125 {
            } else if j1 < s.len() && s[j1] as int == 44 {
                lemma_skip_ws(s, j1 + 1);
                let j2 = spec_skip_ws(s, j1 + 1);
                if !(j2 < s.len() && s[j2] as int == 125) {
                    lemma_rules(s, j2, rules_push(acc, t));
                }
            }
        },
        PRes::Failed(_) => {},
    }
}

/// One top-level section at `i`: a `transitions` block or a
/// `states_attr` tag; any other keyword is a hard error naming it.
pub open spec fn spec_section(s: Seq<char>, i: int, acc: StateMachineView) -> PRes<
    StateMachineView,
> {
    match spec_ident(s, i) {
        PRes::Parsed(w, j) => {
            if w == "transitions"@ {
                let j1 = spec_skip_ws(s, j);
                if j1 < s.len() && s[j1] as int == 58 {
                    let j2 = spec_skip_ws(s, j1 + 1);
                    if j2 < s.len() && s[j2] as int == 123 {
                        let j3 = spec_skip_ws(s, j2 + 1);
                        if j3 < s.len() && s[j3] as int == 125 {
                            PRes::Parsed(acc, j3 + 1)
                        } else {
                            spec_rules(s, j3, acc)
                        }
                    } else {
                        PRes::Failed(
                            ParseErrorView {
                                pos: j2,
                                kind: ParseErrorKindView::ExpectedChar('{'),
                            },
                        )
                    }
                } else {
                    PRes::Failed(
                        ParseErrorView { pos: j1, kind: ParseErrorKindView::ExpectedChar(':') },
                    )
                }
            } else if w == "states_attr"@ {
                let j1 = spec_skip_ws(s, j);
                if j1 < s.len() && s[j1] as int == 58 {
                    let j2 = spec_skip_ws(s, j1 + 1);
                    if j2 < s.len() && s[j2] as int == 35 {
                        if j2 + 1 < s.len() && s[j2 + 1] as int == 91 {
                            match spec_tag_scan(s, j2 + 2) {
                                PRes::Parsed(c, j3) => PRes::Parsed(
                                    StateMachineView {
                                        transitions: acc.transitions,
                                        wildcards: acc.wildcards,
                                        states_attrs: acc.states_attrs.push(
                                            s.subrange(j2 + 2, c),
                                        ),
                                    },
                                    j3,
                                ),
                                PRes::Failed(e) => PRes::Failed(e),
                            }
                        } else {
                            PRes::Failed(
                                ParseErrorView {
                                    pos: j2 + 1,
                                    kind: ParseErrorKindView::ExpectedChar('['),
                                },
                            )
                        }
                    } else {
                        PRes::Failed(
                            ParseErrorView {
                                pos: j2,
                                kind: ParseErrorKindView::ExpectedChar('#'),
                            },
                        )
                    }
                } else {
                    PRes::Failed(
                        ParseErrorView { pos: j1, kind: ParseErrorKindView::ExpectedChar(':') },
                    )
                }
            } else {
                PRes::Failed(ParseErrorView { pos: i, kind: ParseErrorKindView::UnknownKeyword(w) })
            }
        },
        PRes::Failed(e) => PRes::Failed(e),
    }
}

/// A parsed section consumes at least one character.
pub proof fn lemma_section(s: Seq<char>, i: int, acc: StateMachineView)
    requires
        0 <= i <= s.len(),
    ensures
        spec_section(s, i, acc) matches PRes::Parsed(_, j) ==> i < j <= s.len(),
{
    lemma_ident(s, i);
    match spec_ident(s, i) {
        PRes::Parsed(w, j) => {
            lemma_skip_ws(s, j);
            let j1 = spec_skip_ws(s, j);
            if j1 < s.len() && s[j1] as int == 58 {
                lemma_skip_ws(s, j1 + 1);
                let j2 = spec_skip_ws(s, j1 + 1);
                if j2 < s.len() && s[j2] as int == 123 {
                    lemma_skip_ws(s, j2 + 1);
                    let j3 = spec_skip_ws(s, j2 + 1);
                    lemma_rules(s, j3, acc);
                }
                if j2 + 2 <= s.len() {
                    lemma_tag_scan(s, j2 + 2);
                }
            }
        },
        PRes::Failed(_) => {},
    }
}

/// The comma-separated top-level sections from `i` on, consuming the
/// rest of the input, with an optional trailing comma.
pub open spec fn spec_sections(s: Seq<char>, i: int, acc: StateMachineView) -> PRes<
    StateMachineView,
>
    decreases s.len() - i,
    when 0 <= i <= s.len()
    via spec_sections_dec
{
    match spec_section(s, i, acc) {
        PRes::Parsed(acc2, j) => {
            let j1 = spec_skip_ws(s, j);
            if j1 >= s.len() {
                PRes::Parsed(acc2, j1)
            } else if s[j1] as int == 44 {
                let j2 = spec_skip_ws(s, j1 + 1);
                if j2 >= s.len() {
                    PRes::Parsed(acc2, j2)
                } else {
                    spec_sections(s, j2, acc2)
                }
            } else {
                PRes::Failed(
                    ParseErrorView { pos: j1, kind: ParseErrorKindView::ExpectedChar(',') },
                )
            }
        },
        PRes::Failed(e) => PRes::Failed(e),
    }
}

#[via_fn]
proof fn spec_sections_dec(s: Seq<char>, i: int, acc: StateMachineView) {
    lemma_section(s, i, acc);
    match spec_section(s, i, acc) {
        PRes::Parsed(acc2, j) => {
            lemma_skip_ws(s, j);
            let j1 = spec_skip_ws(s, j);
            if j1 < s.len() && s[j1] as int == 44 {
                lemma_skip_ws(s, j1 + 1);
            }
        },
        PRes::Failed(_) => {},
    }
}

/// The empty raw rule set.
pub open spec fn empty_machine() -> StateMachineView {
    StateMachineView {
        transitions: Seq::empty(),
        wildcards: Seq::empty(),
        states_attrs: Seq::empty(),
    }
}

/// The whole grammar: whitespace-only input gives the empty rule set;
/// otherwise the comma-separated sections must consume the entire
/// input.
pub open spec fn spec_machine(s: Seq<char>) -> PRes<StateMachineView> {
    let i = spec_skip_ws(s, 0);
    if i >= s.len() {
        PRes::Parsed(empty_machine(), i)
    } else {
        spec_sections(s, i, empty_machine())
    }
}

/// Scans a metadata tag to its closing bracket.
fn read_tag_scan(s: &str, n: usize, i: usize) -> (r: Result<usize, ParseError>)
    requires
        n == s@.len(),
        i <= n,
    ensures
        match r {
            Ok(c) => spec_tag_scan(s@, i as int) == PRes::Parsed(c as int, c as int + 1) && i <= c
                < n,
            Err(e) => spec_tag_scan(s@, i as int) == PRes::<int>::Failed(e@),
        },
    decreases n - i,
{
    if i >= n {
        return Err(ParseError { pos: i, kind: ParseErrorKind::UnterminatedTag });
    }
    let c = s.get_char(i) as u32;
    if c == 93 {
        Ok(i)
    } else {
        read_tag_scan(s, n, i + 1)
    }
}

/// Reads the rules of a `transitions` block.
fn read_rules(s: &str, n: usize, i: usize, acc: StateMachine) -> (r: Result<
    (StateMachine, usize),
    ParseError,
>)
    requires
        n == s@.len(),
        i <= n,
        acc@.wf(),
    ensures
        match r {
            Ok((m, j)) => spec_rules(s@, i as int, acc@) == PRes::Parsed(m@, j as int) && i < j
                <= n && m@.wf(),
            Err(e) => spec_rules(s@, i as int, acc@) == PRes::<StateMachineView>::Failed(e@),
        },
    decreases n - i,
{
    let ghost acc0 = acc@;
    let mut acc = acc;
    match read_rule(s, n, i) {
        Ok((t, j)) => {
            let ghost tv = t@;
            if t.in_state.is_some() {
                acc.add_transition(t);
            } else {
                acc.add_wildcard(t);
            }
            proof {
                assert(acc@ == rules_push(acc0, tv));
            }
            let j1 = skip_ws(s, n, j);
            if peek_is(s, n, j1, 125) {
                Ok((acc, j1 + 1))
            } else if peek_is(s, n, j1, 44) {
                let j2 = skip_ws(s, n, j1 + 1);
                if peek_is(s, n, j2, 125) {
                    Ok((acc, j2 + 1))
                } else {
                    read_rules(s, n, j2, acc)
                }
            } else {
                Err(ParseError { pos: j1, kind: ParseErrorKind::ExpectedChar('}') })
            }
        },
        Err(e) => Err(e),
    }
}

/// Reads one top-level section.
fn read_section(s: &str, n: usize, i: usize, acc: StateMachine) -> (r: Result<
    (StateMachine, usize),
    ParseError,
>)
    requires
        n == s@.len(),
        i <= n,
        acc@.wf(),
    ensures
        match r {
            Ok((m, j)) => spec_section(s@, i as int, acc@) == PRes::Parsed(m@, j as int) && i < j
                <= n && m@.wf(),
            Err(e) => spec_section(s@, i as int, acc@) == PRes::<StateMachineView>::Failed(e@),
        },
{
    proof {
        lemma_section(s@, i as int, acc@);
    }
    let ghost acc0 = acc@;
    match read_ident(s, n, i) {
        Ok((w, j)) => {
            if str_eq(w.as_str(), "transitions") {
                let j1 = skip_ws(s, n, j);
                if peek_is(s, n, j1, 58) {
                    let j2 = skip_ws(s, n, j1 + 1);
                    if peek_is(s, n, j2, 123) {
                        let j3 = skip_ws(s, n, j2 + 1);
                        if peek_is(s, n, j3, 125) {
                            Ok((acc, j3 + 1))
                        } else {
                            read_rules(s, n, j3, acc)
                        }
                    } else {
                        Err(ParseError { pos: j2, kind: ParseErrorKind::ExpectedChar('{') })
                    }
                } else {
                    Err(ParseError { pos: j1, kind: ParseErrorKind::ExpectedChar(':') })
                }
            } else if str_eq(w.as_str(), "states_attr") {
                let j1 = skip_ws(s, n, j);
                if peek_is(s, n, j1, 58) {
                    let j2 = skip_ws(s, n, j1 + 1);
                    if peek_is(s, n, j2, 35) {
                        if peek_is(s, n, j2 + 1, 91) {
                            match read_tag_scan(s, n, j2 + 2) {
                                Ok(c) => {
                                    let tag = s.substring_char(j2 + 2, c).to_owned();
                                    let ghost tagv = tag@;
                                    let mut acc = acc;
                                    let mut tags: Vec<String> = Vec::new();
                                    tags.push(tag);
                                    proof {
                                        assert(crate::ast::attrs_view(tags@) =~= seq![tagv]);
                                    }
                                    acc.add_state_attrs(tags);
                                    proof {
                                        assert(acc@.states_attrs =~= acc0.states_attrs.push(
                                            s@.subrange(j2 + 2int, c as int),
                                        ));
                                    }
                                    Ok((acc, c + 1))
                                },
                                Err(e) => Err(e),
                            }
                        } else {
                            Err(
                                ParseError {
                                    pos: j2 + 1,
                                    kind: ParseErrorKind::ExpectedChar('['),
                                },
                            )
                        }
                    } else {
                        Err(ParseError { pos: j2, kind: ParseErrorKind::ExpectedChar('#') })
                    }
                } else {
                    Err(ParseError { pos: j1, kind: ParseErrorKind::ExpectedChar(':') })
                }
            } else {
                Err(ParseError { pos: i, kind: ParseErrorKind::UnknownKeyword(w) })
            }
        },
        Err(e) => Err(e),
    }
}

/// Reads the comma-separated top-level sections to the end of the
/// input.
fn read_sections(s: &str, n: usize, i: usize, acc: StateMachine) -> (r: Result<
    (StateMachine, usize),
    ParseError,
>)
    requires
        n == s@.len(),
        i <= n,
        acc@.wf(),
    ensures
        match r {
            Ok((m, j)) => spec_sections(s@, i as int, acc@) == PRes::Parsed(m@, j as int)
                && m@.wf(),
            Err(e) => spec_sections(s@, i as int, acc@) == PRes::<StateMachineView>::Failed(e@),
        },
    decreases n - i,
{
    match read_section(s, n, i, acc) {
        Ok((m, j)) => {
            let j1 = skip_ws(s, n, j);
            if j1 >= n {
                Ok((m, j1))
            } else if peek_is(s, n, j1, 44) {
                let j2 = skip_ws(s, n, j1 + 1);
                if j2 >= n {
                    Ok((m, j2))
                } else {
                    read_sections(s, n, j2, m)
                }
            } else {
                Err(ParseError { pos: j1, kind: ParseErrorKind::ExpectedChar(',') })
            }
        },
        Err(e) => Err(e),
    }
}

impl StateTransition {
    /// Parses one transition rule from the front of `input`
    /// (leading whitespace skipped), returning the rule and the
    /// position just after it.  The result is exactly what the rule
    /// grammar ([`spec_rule`]) says of the text.
    pub fn parse(input: &str) -> (r: Result<(StateTransition, usize), ParseError>)
        ensures
            match r {
                Ok((t, j)) => spec_rule(input@, spec_skip_ws(input@, 0)) == PRes::Parsed(
                    t@,
                    j as int,
                ),
                Err(e) => spec_rule(input@, spec_skip_ws(input@, 0)) == PRes::<
                    TransitionView,
                >::Failed(e@),
            },
    {
        let n = input.unicode_len();
        let i = skip_ws(input, n, 0);
        read_rule(input, n, i)
    }
}

impl StateMachine {
    /// Parses DSL source text into the raw rule list and metadata tags,
    /// or fails with the first syntax error, position-anchored.  The
    /// result is exactly what the grammar specification
    /// ([`spec_machine`]) says of the text.
    pub fn parse(input: &str) -> (r: Result<StateMachine, ParseError>)
        ensures
            match r {
                Ok(m) => ({
                    &&& spec_machine(input@) matches PRes::Parsed(v, _) && v == m@
                    &&& m@.wf()
                }),
                Err(e) => spec_machine(input@) == PRes::<StateMachineView>::Failed(e@),
            },
    {
        let n = input.unicode_len();
        let i = skip_ws(input, n, 0);
        if i >= n {
            let m = StateMachine::new();
            proof {
                assert(m@ == empty_machine());
            }
            Ok(m)
        } else {
            let acc = StateMachine::new();
            proof {
                assert(acc@ == empty_machine());
            }
            match read_sections(input, n, i, acc) {
                Ok((m, _)) => Ok(m),
                Err(e) => Err(e),
            }
        }
    }
}

} // verus!
