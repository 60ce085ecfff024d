//! The recursive-descent parser: consumes the token list (pre-filtered
//! of comments by the caller) and yields one result per top-level
//! expression attempt — a parsed expression tree or a parse error — each
//! tagged with the span of all tokens the attempt consumed.
//!
//! The grammar, precedence low to high, every binary operator
//! left-associative and built by iterative left-fold:
//!
//! ```text
//! expression -> equality
//! equality   -> comparison (("!="|"==") comparison)*
//! comparison -> term (("<"|"<="|">"|">=") term)*
//! term       -> factor (("-"|"+") factor)*
//! factor     -> unary (("/"|"*") unary)*
//! unary      -> ("-"|"!") unary | primary
//! primary    -> NIL | TRUE | FALSE | NUMBER | STRING | "(" expression ")"
//! ```
//!
//! The parse is specified functionally: [`sp_parse`] maps a token
//! position to the parse's outcome — success, or the exact error — and
//! the position just past the tokens consumed, and every parsing
//! function is proved equal to it; [`derives`], the derivation relation
//! of the grammar (levels `5` down to `0` for `equality` down to
//! `primary`, including the maximality of each left-fold), pins the
//! tree of a successful parse. On a parse error the parser synchronizes — discards tokens
//! through a semicolon, or up to a token that begins a statement-level
//! keyword form — so later top-level expressions still parse on their
//! own. The statement grammar itself is not implemented here: the
//! synchronization keywords are forward-compatible resumption points
//! only.

use vstd::prelude::*;
use crate::ast::{BinaryOperator, Expression, UnaryOperator};
use crate::numeric::{decimal_to_bits, ieee_of_decimal, is_numeral};
use crate::scanner::{tokens_wf, Token};
use crate::span::{Span, Spanned};
use crate::value::Value;

verus! {

/// A parse error: no usable leading token, a missing expected token, or
/// a number or string literal whose text is malformed.
#[derive(Copy, Clone, PartialEq, Eq, Structural, Debug)]
pub enum Error {
    ExpectedPrimary,
    Expected(Token),
    MalformedNumber,
    MalformedString,
}

/// Whether `t` is one of the binary operator tokens of grammar level
/// `lvl` (`5` equality, `4` comparison, `3` term, `2` factor).
pub open spec fn is_level_op(lvl: int, t: Token) -> bool {
    if lvl == 5 {
        t == Token::BangEqual || t == Token::EqualEqual
    } else if lvl == 4 {
        t == Token::Greater || t == Token::GreaterEqual || t == Token::Less || t
            == Token::LessEqual
    } else if lvl == 3 {
        t == Token::Minus || t == Token::Plus
    } else if lvl == 2 {
        t == Token::Slash || t == Token::Star
    } else {
        false
    }
}

/// The binary operator a binary-operator token stands for.
pub open spec fn op_of(t: Token) -> BinaryOperator {
    if t == Token::BangEqual {
        BinaryOperator::NotEqual
    } else if t == Token::EqualEqual {
        BinaryOperator::Equal
    } else if t == Token::Greater {
        BinaryOperator::Greater
    } else if t == Token::GreaterEqual {
        BinaryOperator::GreaterEqual
    } else if t == Token::Less {
        BinaryOperator::Less
    } else if t == Token::LessEqual {
        BinaryOperator::LessEqual
    } else if t == Token::Minus {
        BinaryOperator::Sub
    } else if t == Token::Plus {
        BinaryOperator::Add
    } else if t == Token::Slash {
        BinaryOperator::Div
    } else {
        BinaryOperator::Mul
    }
}

/// The unary operator a `-` or `!` token stands for.
pub open spec fn unary_op_of(t: Token) -> UnaryOperator {
    if t == Token::Minus {
        UnaryOperator::Neg
    } else {
        UnaryOperator::Not
    }
}

/// A well-formed string literal text: at least the two quotes, and it
/// ends on a closing quote. The literal's value is the text strictly
/// between the quotes.
pub open spec fn string_ok(text: Seq<u8>) -> bool {
    text.len() >= 2 && text[text.len() - 1] == 34
}

/// The expression `e` derives from tokens `[i, j)` at grammar level
/// `lvl`, and the derivation is maximal: token `j` cannot extend the
/// left-fold at this level.
pub open spec fn derives(
    s: Seq<u8>,
    toks: Seq<Spanned<Token>>,
    lvl: int,
    i: int,
    j: int,
    e: Expression,
) -> bool
    decreases e, lvl, 2int,
{
    &&& fold_derives(s, toks, lvl, i, j, e)
    &&& (j >= toks.len() || !is_level_op(lvl, toks[j].value))
}

/// The left-fold derivation at level `lvl`: either a single operand of
/// the next-higher precedence, or a binary node folding a shorter chain
/// with one more operand; level `1` is the right-recursive unary rule
/// and level `0` the primaries.
pub open spec fn fold_derives(
    s: Seq<u8>,
    toks: Seq<Spanned<Token>>,
    lvl: int,
    i: int,
    j: int,
    e: Expression,
) -> bool
    decreases e, lvl, 1int,
{
    if lvl >= 2 {
        ||| derives(s, toks, lvl - 1, i, j, e)
        ||| chain_step(s, toks, lvl, i, j, e)
    } else if lvl == 1 {
        if i < toks.len() && (toks[i].value == Token::Minus || toks[i].value == Token::Bang) {
            e matches Expression::Unary(op, inner) && op == unary_op_of(toks[i].value) && derives(
                s,
                toks,
                1,
                i + 1,
                j,
                *inner,
            )
        } else {
            derives(s, toks, 0, i, j, e)
        }
    } else {
        &&& 0 <= i < toks.len()
        &&& {
            let t = toks[i].value;
            let text = s.subrange(toks[i].span.start as int, toks[i].span.end as int);
            if t == Token::Nil {
                j == i + 1 && e == Expression::Literal(Value::Nil)
            } else if t == Token::True {
                j == i + 1 && e == Expression::Literal(Value::Boolean(true))
            } else if t == Token::False {
                j == i + 1 && e == Expression::Literal(Value::Boolean(false))
            } else if t == Token::Number {
                j == i + 1 && is_numeral(text) && e == Expression::Literal(
                    Value::Number(ieee_of_decimal(text)),
                )
            } else if t == Token::String {
                j == i + 1 && string_ok(text) && (e matches Expression::Literal(v)
                    && v matches Value::String(bytes) && bytes@ == s.subrange(
                    toks[i].span.start + 1,
                    toks[i].span.end - 1,
                ))
            } else if t == Token::LeftParen {
                &&& i + 2 <= j <= toks.len()
                &&& toks[j - 1].value == Token::RightParen
                &&& (e matches Expression::Grouping(inner) && derives(s, toks, 5, i + 1, j - 1, *inner))
            } else {
                false
            }
        }
    }
}

/// One more left-fold step at level `lvl`: a shorter chain, the level's
/// operator, and one operand of the next-higher precedence.
pub open spec fn chain_step(
    s: Seq<u8>,
    toks: Seq<Spanned<Token>>,
    lvl: int,
    i: int,
    j: int,
    e: Expression,
) -> bool
    decreases e, lvl, 0int,
{
    e is Binary && (exists|k: int|
        i <= k && k + 1 <= j && 0 <= k < toks.len() && #[trigger] is_level_op(lvl, toks[k].value)
            && e->Binary_0 == op_of(toks[k].value) && fold_derives(s, toks, lvl, i, k, *e->Binary_1)
            && derives(s, toks, lvl - 1, k + 1, j, *e->Binary_2))
}

/// One left-fold step: a chain over `[i, k)`, the level's operator at
/// `k`, and an operand of the next-higher precedence over `[k + 1, j)`
/// fold into a chain over `[i, j)`.
proof fn lemma_fold_step(
    s: Seq<u8>,
    toks: Seq<Spanned<Token>>,
    lvl: int,
    i: int,
    k: int,
    j: int,
    e: Expression,
)
    requires
        lvl >= 2,
        e is Binary,
        i <= k && k + 1 <= j && 0 <= k < toks.len(),
        is_level_op(lvl, toks[k].value),
        e->Binary_0 == op_of(toks[k].value),
        fold_derives(s, toks, lvl, i, k, *e->Binary_1),
        derives(s, toks, lvl - 1, k + 1, j, *e->Binary_2),
    ensures
        fold_derives(s, toks, lvl, i, j, e),
{
    assert(is_level_op(lvl, toks[k].value));
    assert(chain_step(s, toks, lvl, i, j, e));
}


/// The successor position the spec parser folds on, clamped into
/// `(lo - 1, hi]` so that its termination is syntactic. Wherever it is
/// applied, the position handed in is already in that range (an operand
/// consumes at least one token and never passes the end), so the clamp
/// changes nothing; the proofs of the parsing functions below establish
/// this at every use.
pub open spec fn next_pos(lo: int, j: int, hi: int) -> int {
    if j < lo {
        if lo > hi {
            hi
        } else {
            lo
        }
    } else if j > hi {
        hi
    } else {
        j
    }
}

/// What parsing one expression at grammar level `lvl` from token `i`
/// yields: whether it succeeds, the exact error otherwise, and the
/// position just past the tokens it consumed. This is the functional
/// account of the recursive-descent parse — levels `5` down to `2` are
/// the binary left-folds (continued by [`sp_tail`]), level `1` the unary
/// rule, level `0` the primaries. Together with [`derives`], which pins
/// the tree of a successful parse, it determines the parser completely.
pub open spec fn sp_parse(s: Seq<u8>, toks: Seq<Spanned<Token>>, lvl: int, i: int) -> (
    Result<(), Error>,
    int,
)
    decreases toks.len() - i, lvl, 1int,
{
    if lvl >= 2 {
        let (r, j) = sp_parse(s, toks, lvl - 1, i);
        if r is Ok && 0 <= i && i < toks.len() {
            sp_tail(s, toks, lvl, next_pos(i + 1, j, toks.len() as int))
        } else {
            (r, j)
        }
    } else if lvl == 1 {
        if 0 <= i && i < toks.len() && (toks[i].value == Token::Minus || toks[i].value
            == Token::Bang) {
            sp_parse(s, toks, 1, i + 1)
        } else {
            sp_parse(s, toks, 0, i)
        }
    } else {
        if !(0 <= i && i < toks.len()) {
            (Err(Error::ExpectedPrimary), i)
        } else {
            let t = toks[i].value;
            let text = s.subrange(toks[i].span.start as int, toks[i].span.end as int);
            if t == Token::Nil || t == Token::True || t == Token::False {
                (Ok(()), i + 1)
            } else if t == Token::Number {
                if is_numeral(text) {
                    (Ok(()), i + 1)
                } else {
                    (Err(Error::MalformedNumber), i + 1)
                }
            } else if t == Token::String {
                if string_ok(text) {
                    (Ok(()), i + 1)
                } else {
                    (Err(Error::MalformedString), i + 1)
                }
            } else if t == Token::LeftParen {
                let (r, j) = sp_parse(s, toks, 5, i + 1);
                if r is Err {
                    (r, j)
                } else if 0 <= j && j < toks.len() && toks[j].value == Token::RightParen {
                    (Ok(()), j + 1)
                } else {
                    (Err(Error::Expected(Token::RightParen)), j)
                }
            } else {
                (Err(Error::ExpectedPrimary), i + 1)
            }
        }
    }
}

/// The left-fold continuation at level `lvl`, standing just after a
/// parsed operand: while the next token is one of the level's
/// operators, consume it and one more operand; an operand's error is
/// the fold's error.
pub open spec fn sp_tail(s: Seq<u8>, toks: Seq<Spanned<Token>>, lvl: int, j: int) -> (
    Result<(), Error>,
    int,
)
    decreases toks.len() - j, lvl, 0int,
{
    if 0 <= j && j < toks.len() && is_level_op(lvl, toks[j].value) {
        let (r2, j2) = sp_parse(s, toks, lvl - 1, j + 1);
        if r2 is Ok {
            sp_tail(s, toks, lvl, next_pos(j + 2, j2, toks.len() as int))
        } else {
            (r2, j2)
        }
    } else {
        (Ok(()), j)
    }
}

/// Whether `t` begins one of the statement-level keyword forms at which
/// synchronization stops without consuming.
pub open spec fn starts_stmt(t: Token) -> bool {
    t == Token::Class || t == Token::If || t == Token::Var || t == Token::For || t == Token::Fun
        || t == Token::While || t == Token::Print || t == Token::Return
}

/// Where synchronization from position `i` stops: just past a consumed
/// semicolon, just past the token before a statement keyword, or the end
/// of the tokens.
pub open spec fn sync_stop(toks: Seq<Spanned<Token>>, i: int) -> int
    decreases toks.len() - i,
{
    if i < 0 || i >= toks.len() {
        toks.len() as int
    } else if toks[i].value == Token::Semicolon {
        i + 1
    } else if i + 1 < toks.len() && starts_stmt(toks[i + 1].value) {
        i + 1
    } else {
        sync_stop(toks, i + 1)
    }
}

/// Synchronization lands only on a safe resumption point: either the
/// tokens are exhausted, or a semicolon was just consumed, or the next
/// token (not consumed) begins a statement-level keyword form. This is
/// what lets a malformed top-level expression leave the following one
/// intact.
pub proof fn law_sync_resumption(toks: Seq<Spanned<Token>>, i: int)
    requires
        0 <= i <= toks.len(),
    ensures
        i <= sync_stop(toks, i) <= toks.len(),
        ({
            let m = sync_stop(toks, i);
            ||| m == toks.len()
            ||| (0 < m && toks[m - 1].value == Token::Semicolon)
            ||| (m < toks.len() && starts_stmt(toks[m].value))
        }),
    decreases toks.len() - i,
{
    if i < toks.len() && toks[i].value != Token::Semicolon && !(i + 1 < toks.len()
        && starts_stmt(toks[i + 1].value)) {
        law_sync_resumption(toks, i + 1);
    }
}

/// Whether `t` begins a statement-level keyword form (see
/// [`starts_stmt`]).
pub fn starts_statement(token: Token) -> (r: bool)
    ensures
        r == starts_stmt(token),
{
    matches!(
        token,
        Token::Class
            | Token::If
            | Token::Var
            | Token::For
            | Token::Fun
            | Token::While
            | Token::Print
            | Token::Return
    )
}

/// Whether every token span fits the source buffer: the condition under
/// which a parser over these tokens may be built.
pub fn spans_ok(input: &[u8], tokens: &Vec<Spanned<Token>>) -> (r: bool)
    ensures
        r == tokens_wf(tokens@, input@.len() as int),
{
    let mut k: usize = 0;
    while k < tokens.len()
        invariant
            k <= tokens@.len(),
            forall|m: int| 0 <= m < k ==> (#[trigger] tokens@[m].span).wf(input@.len() as int),
        decreases tokens@.len() - k,
    {
        let sp = tokens[k].span;
        if !(sp.start <= sp.end && sp.end <= input.len()) {
            return false;
        }
        k += 1;
    }
    true
}

/// The parser: a forward-only cursor over the token list, holding the
/// source buffer to resolve literal texts, and the end offset of the
/// last consumed token for span reporting.
pub struct Parser<'a> {
    pub input: &'a [u8],
    pub tokens: Vec<Spanned<Token>>,
    pub index: usize,
    pub end: usize,
}

impl<'a> Parser<'a> {
    /// The cursor is in bounds, every token span fits the buffer, and
    /// `end` is the end offset of the last consumed token.
    pub open spec fn wf(self) -> bool {
        &&& self.index <= self.tokens@.len()
        &&& tokens_wf(self.tokens@, self.input@.len() as int)
        &&& self.end == if self.index > 0 {
            self.tokens@[self.index - 1].span.end as int
        } else {
            0
        }
    }

    /// What every parsing step preserves: the buffer and tokens stay,
    /// and the cursor only moves forward.
    pub open spec fn advances(pre: Parser<'a>, post: Parser<'a>) -> bool {
        &&& post.input@ == pre.input@
        &&& post.tokens@ == pre.tokens@
        &&& pre.index <= post.index <= pre.tokens@.len()
    }

    /// A fresh parser over `input` and its token list.
    pub fn new(input: &'a [u8], tokens: Vec<Spanned<Token>>) -> (r: Parser<'a>)
        requires
            tokens_wf(tokens@, input@.len() as int),
        ensures
            r.wf(),
            r.input@ == input@,
            r.tokens@ == tokens@,
            r.index == 0,
            r.end == 0,
    {
        Parser { input, tokens, index: 0, end: 0 }
    }

    /// Consume one token, remembering its end offset.
    fn next_token(&mut self) -> (r: Option<Spanned<Token>>)
        requires
            old(self).wf(),
        ensures
            final(self).wf(),
            Self::advances(*old(self), *final(self)),
            match r {
                None => final(self).index == old(self).index && old(self).index
                    == old(self).tokens@.len() && final(self).end == old(self).end,
                Some(t) => old(self).index < old(self).tokens@.len()
                    && t == old(self).tokens@[old(self).index as int]
                    && final(self).index == old(self).index + 1
                    && final(self).end == t.span.end,
            },
    {
        if self.index < self.tokens.len() {
            let t = self.tokens[self.index];
            self.index = self.index + 1;
            self.end = t.span.end;
            Some(t)
        } else {
            None
        }
    }

    /// If the next token is a binary operator of level `lvl`, consume it
    /// and return the operator; otherwise leave the cursor alone.
    fn match_level_op(&mut self, lvl: u8) -> (r: Option<BinaryOperator>)
        requires
            old(self).wf(),
            2 <= lvl <= 5,
        ensures
            final(self).wf(),
            Self::advances(*old(self), *final(self)),
            match r {
                None => final(self).index == old(self).index && final(self).end == old(self).end
                    && (old(self).index >= old(self).tokens@.len() || !is_level_op(
                    lvl as int,
                    old(self).tokens@[old(self).index as int].value,
                )),
                Some(op) => old(self).index < old(self).tokens@.len() && is_level_op(
                    lvl as int,
                    old(self).tokens@[old(self).index as int].value,
                ) && op == op_of(old(self).tokens@[old(self).index as int].value)
                    && final(self).index == old(self).index + 1
                    && final(self).end == old(self).tokens@[old(self).index as int].span.end,
            },
    {
        if self.index >= self.tokens.len() {
            return None;
        }
        let t = self.tokens[self.index].value;
        let matched: Option<BinaryOperator> = if lvl == 5 {
            if t == Token::BangEqual {
                Some(BinaryOperator::NotEqual)
            } else if t == Token::EqualEqual {
                Some(BinaryOperator::Equal)
            } else {
                None
            }
        } else if lvl == 4 {
            if t == Token::Greater {
                Some(BinaryOperator::Greater)
            } else if t == Token::GreaterEqual {
                Some(BinaryOperator::GreaterEqual)
            } else if t == Token::Less {
                Some(BinaryOperator::Less)
            } else if t == Token::LessEqual {
                Some(BinaryOperator::LessEqual)
            } else {
                None
            }
        } else if lvl == 3 {
            if t == Token::Minus {
                Some(BinaryOperator::Sub)
            } else if t == Token::Plus {
                Some(BinaryOperator::Add)
            } else {
                None
            }
        } else {
            if t == Token::Slash {
                Some(BinaryOperator::Div)
            } else if t == Token::Star {
                Some(BinaryOperator::Mul)
            } else {
                None
            }
        };
        if matched.is_some() {
            let _ = self.next_token();
        }
        matched
    }

    /// Require the next token to be `expected`, consuming it; otherwise
    /// report it as missing without consuming anything.
    fn expect(&mut self, expected: Token) -> (r: Result<(), Error>)
        requires
            old(self).wf(),
        ensures
            final(self).wf(),
            Self::advances(*old(self), *final(self)),
            match r {
                Ok(_) => old(self).index < old(self).tokens@.len()
                    && old(self).tokens@[old(self).index as int].value == expected
                    && final(self).index == old(self).index + 1,
                Err(e) => e == Error::Expected(expected) && final(self).index == old(self).index
                    && final(self).end == old(self).end
                    && (old(self).index >= old(self).tokens@.len()
                        || old(self).tokens@[old(self).index as int].value != expected),
            },
    {
        if self.index < self.tokens.len() && self.tokens[self.index].value == expected {
            let _ = self.next_token();
            Ok(())
        } else {
            Err(Error::Expected(expected))
        }
    }

    /// The text of a number token must be a numeral — digits with at
    /// most one dot — and its value is the nearest double.
    fn parse_number(&self, span: Span) -> (r: Result<u64, Error>)
        requires
            self.wf(),
            span.wf(self.input@.len() as int),
        ensures
            ({
                let text = self.input@.subrange(span.start as int, span.end as int);
                match r {
                    Ok(b) => is_numeral(text) && b == ieee_of_decimal(text),
                    Err(e) => e == Error::MalformedNumber && !is_numeral(text),
                }
            }),
    {
        if check_numeral(self.input, span.start, span.end) {
            let digits = vstd::slice::slice_subrange(self.input, span.start, span.end);
            Ok(decimal_to_bits(digits))
        } else {
            Err(Error::MalformedNumber)
        }
    }

    /// The text of a string token must end on its closing quote; the
    /// literal's value is the bytes strictly between the quotes, with no
    /// escape processing.
    fn parse_string(&self, span: Span) -> (r: Result<Vec<u8>, Error>)
        requires
            self.wf(),
            span.wf(self.input@.len() as int),
        ensures
            ({
                let text = self.input@.subrange(span.start as int, span.end as int);
                match r {
                    Ok(v) => string_ok(text) && v@ == self.input@.subrange(
                        span.start + 1,
                        span.end - 1,
                    ),
                    Err(e) => e == Error::MalformedString && !string_ok(text),
                }
            }),
    {
        if span.end - span.start >= 2 && self.input[span.end - 1] == 34 {
            let s = vstd::slice::slice_subrange(self.input, span.start + 1, span.end - 1);
            Ok(vstd::slice::slice_to_vec(s))
        } else {
            Err(Error::MalformedString)
        }
    }

    /// `expression -> equality`.
    fn expression(&mut self) -> (r: Result<Expression, Error>)
        requires
            old(self).wf(),
        ensures
            final(self).wf(),
            Self::advances(*old(self), *final(self)),
            r matches Ok(e) ==> derives(
                old(self).input@,
                old(self).tokens@,
                5,
                old(self).index as int,
                final(self).index as int,
                e,
            ) && final(self).index > old(self).index,
            old(self).index < old(self).tokens@.len() && r is Err ==> final(self).index > old(
                self,
            ).index,
            ({
                let sp = sp_parse(
                    old(self).input@,
                    old(self).tokens@,
                    5,
                    old(self).index as int,
                );
                &&& final(self).index == sp.1
                &&& (match r {
                    Ok(_) => sp.0 is Ok,
                    Err(e) => sp.0 == Err::<(), Error>(e),
                })
            }),
        decreases old(self).tokens@.len() - old(self).index, 6int,
    {
        self.equality()
    }

    /// `equality -> comparison (("!="|"==") comparison)*`.
    fn equality(&mut self) -> (r: Result<Expression, Error>)
        requires
            old(self).wf(),
        ensures
            final(self).wf(),
            Self::advances(*old(self), *final(self)),
            r matches Ok(e) ==> derives(
                old(self).input@,
                old(self).tokens@,
                5,
                old(self).index as int,
                final(self).index as int,
                e,
            ) && final(self).index > old(self).index,
            old(self).index < old(self).tokens@.len() && r is Err ==> final(self).index > old(
                self,
            ).index,
            ({
                let sp = sp_parse(
                    old(self).input@,
                    old(self).tokens@,
                    5,
                    old(self).index as int,
                );
                &&& final(self).index == sp.1
                &&& (match r {
                    Ok(_) => sp.0 is Ok,
                    Err(e) => sp.0 == Err::<(), Error>(e),
                })
            }),
        decreases old(self).tokens@.len() - old(self).index, 5int,
    {
        let mut left = match self.comparison() {
            Ok(e) => e,
            Err(er) => {
                return Err(er);
            },
        };
        let mut op_opt = self.match_level_op(5);
        while op_opt.is_some()
            invariant
                self.wf(),
                Self::advances(*old(self), *self),
                old(self).index < self.index,
                match op_opt {
                    Some(op) => {
                        &&& old(self).index < self.index - 1 < self.tokens@.len()
                        &&& is_level_op(5, self.tokens@[self.index - 1].value)
                        &&& op == op_of(self.tokens@[self.index - 1].value)
                        &&& fold_derives(
                            self.input@,
                            self.tokens@,
                            5,
                            old(self).index as int,
                            self.index - 1,
                            left,
                        )
                    },
                    None => derives(
                        self.input@,
                        self.tokens@,
                        5,
                        old(self).index as int,
                        self.index as int,
                        left,
                    ),
                },
                match op_opt {
                    Some(_) => sp_parse(
                        self.input@,
                        self.tokens@,
                        5,
                        old(self).index as int,
                    ) == sp_tail(self.input@, self.tokens@, 5, self.index - 1),
                    None => sp_parse(
                        self.input@,
                        self.tokens@,
                        5,
                        old(self).index as int,
                    ) == sp_tail(self.input@, self.tokens@, 5, self.index as int),
                },
            decreases self.tokens@.len() - self.index + (if op_opt.is_some() {
                1int
            } else {
                0int
            }),
        {
            let op = op_opt.unwrap();
            let ghost k = self.index - 1;
            let right = match self.comparison() {
                Ok(e) => e,
                Err(er) => {
                    return Err(er);
                },
            };
            left = Expression::Binary(op, Box::new(left), Box::new(right));
            proof {
                lemma_fold_step(
                    self.input@,
                    self.tokens@,
                    5,
                    old(self).index as int,
                    k,
                    self.index as int,
                    left,
                );
            }
            op_opt = self.match_level_op(5);
        }
        Ok(left)
    }

    /// `comparison -> term (("<"|"<="|">"|">=") term)*`.
    fn comparison(&mut self) -> (r: Result<Expression, Error>)
        requires
            old(self).wf(),
        ensures
            final(self).wf(),
            Self::advances(*old(self), *final(self)),
            r matches Ok(e) ==> derives(
                old(self).input@,
                old(self).tokens@,
                4,
                old(self).index as int,
                final(self).index as int,
                e,
            ) && final(self).index > old(self).index,
            old(self).index < old(self).tokens@.len() && r is Err ==> final(self).index > old(
                self,
            ).index,
            ({
                let sp = sp_parse(
                    old(self).input@,
                    old(self).tokens@,
                    4,
                    old(self).index as int,
                );
                &&& final(self).index == sp.1
                &&& (match r {
                    Ok(_) => sp.0 is Ok,
                    Err(e) => sp.0 == Err::<(), Error>(e),
                })
            }),
        decreases old(self).tokens@.len() - old(self).index, 4int,
    {
        let mut left = match self.term() {
            Ok(e) => e,
            Err(er) => {
                return Err(er);
            },
        };
        let mut op_opt = self.match_level_op(4);
        while op_opt.is_some()
            invariant
                self.wf(),
                Self::advances(*old(self), *self),
                old(self).index < self.index,
                match op_opt {
                    Some(op) => {
                        &&& old(self).index < self.index - 1 < self.tokens@.len()
                        &&& is_level_op(4, self.tokens@[self.index - 1].value)
                        &&& op == op_of(self.tokens@[self.index - 1].value)
                        &&& fold_derives(
                            self.input@,
                            self.tokens@,
                            4,
                            old(self).index as int,
                            self.index - 1,
                            left,
                        )
                    },
                    None => derives(
                        self.input@,
                        self.tokens@,
                        4,
                        old(self).index as int,
                        self.index as int,
                        left,
                    ),
                },
                match op_opt {
                    Some(_) => sp_parse(
                        self.input@,
                        self.tokens@,
                        4,
                        old(self).index as int,
                    ) == sp_tail(self.input@, self.tokens@, 4, self.index - 1),
                    None => sp_parse(
                        self.input@,
                        self.tokens@,
                        4,
                        old(self).index as int,
                    ) == sp_tail(self.input@, self.tokens@, 4, self.index as int),
                },
            decreases self.tokens@.len() - self.index + (if op_opt.is_some() {
                1int
            } else {
                0int
            }),
        {
            let op = op_opt.unwrap();
            let ghost k = self.index - 1;
            let right = match self.term() {
                Ok(e) => e,
                Err(er) => {
                    return Err(er);
                },
            };
            left = Expression::Binary(op, Box::new(left), Box::new(right));
            proof {
                lemma_fold_step(
                    self.input@,
                    self.tokens@,
                    4,
                    old(self).index as int,
                    k,
                    self.index as int,
                    left,
                );
            }
            op_opt = self.match_level_op(4);
        }
        Ok(left)
    }

    /// `term -> factor (("-"|"+") factor)*`.
    fn term(&mut self) -> (r: Result<Expression, Error>)
        requires
            old(self).wf(),
        ensures
            final(self).wf(),
            Self::advances(*old(self), *final(self)),
            r matches Ok(e) ==> derives(
                old(self).input@,
                old(self).tokens@,
                3,
                old(self).index as int,
                final(self).index as int,
                e,
            ) && final(self).index > old(self).index,
            old(self).index < old(self).tokens@.len() && r is Err ==> final(self).index > old(
                self,
            ).index,
            ({
                let sp = sp_parse(
                    old(self).input@,
                    old(self).tokens@,
                    3,
                    old(self).index as int,
                );
                &&& final(self).index == sp.1
                &&& (match r {
                    Ok(_) => sp.0 is Ok,
                    Err(e) => sp.0 == Err::<(), Error>(e),
                })
            }),
        decreases old(self).tokens@.len() - old(self).index, 3int,
    {
        let mut left = match self.factor() {
            Ok(e) => e,
            Err(er) => {
                return Err(er);
            },
        };
        let mut op_opt = self.match_level_op(3);
        while op_opt.is_some()
            invariant
                self.wf(),
                Self::advances(*old(self), *self),
                old(self).index < self.index,
                match op_opt {
                    Some(op) => {
                        &&& old(self).index < self.index - 1 < self.tokens@.len()
                        &&& is_level_op(3, self.tokens@[self.index - 1].value)
                        &&& op == op_of(self.tokens@[self.index - 1].value)
                        &&& fold_derives(
                            self.input@,
                            self.tokens@,
                            3,
                            old(self).index as int,
                            self.index - 1,
                            left,
                        )
                    },
                    None => derives(
                        self.input@,
                        self.tokens@,
                        3,
                        old(self).index as int,
                        self.index as int,
                        left,
                    ),
                },
                match op_opt {
                    Some(_) => sp_parse(
                        self.input@,
                        self.tokens@,
                        3,
                        old(self).index as int,
                    ) == sp_tail(self.input@, self.tokens@, 3, self.index - 1),
                    None => sp_parse(
                        self.input@,
                        self.tokens@,
                        3,
                        old(self).index as int,
                    ) == sp_tail(self.input@, self.tokens@, 3, self.index as int),
                },
            decreases self.tokens@.len() - self.index + (if op_opt.is_some() {
                1int
            } else {
                0int
            }),
        {
            let op = op_opt.unwrap();
            let ghost k = self.index - 1;
            let right = match self.factor() {
                Ok(e) => e,
                Err(er) => {
                    return Err(er);
                },
            };
            left = Expression::Binary(op, Box::new(left), Box::new(right));
            proof {
                lemma_fold_step(
                    self.input@,
                    self.tokens@,
                    3,
                    old(self).index as int,
                    k,
                    self.index as int,
                    left,
                );
            }
            op_opt = self.match_level_op(3);
        }
        Ok(left)
    }

    /// `factor -> unary (("/"|"*") unary)*`.
    fn factor(&mut self) -> (r: Result<Expression, Error>)
        requires
            old(self).wf(),
        ensures
            final(self).wf(),
            Self::advances(*old(self), *final(self)),
            r matches Ok(e) ==> derives(
                old(self).input@,
                old(self).tokens@,
                2,
                old(self).index as int,
                final(self).index as int,
                e,
            ) && final(self).index > old(self).index,
            old(self).index < old(self).tokens@.len() && r is Err ==> final(self).index > old(
                self,
            ).index,
            ({
                let sp = sp_parse(
                    old(self).input@,
                    old(self).tokens@,
                    2,
                    old(self).index as int,
                );
                &&& final(self).index == sp.1
                &&& (match r {
                    Ok(_) => sp.0 is Ok,
                    Err(e) => sp.0 == Err::<(), Error>(e),
                })
            }),
        decreases old(self).tokens@.len() - old(self).index, 2int,
    {
        let mut left = match self.unary() {
            Ok(e) => e,
            Err(er) => {
                return Err(er);
            },
        };
        let mut op_opt = self.match_level_op(2);
        while op_opt.is_some()
            invariant
                self.wf(),
                Self::advances(*old(self), *self),
                old(self).index < self.index,
                match op_opt {
                    Some(op) => {
                        &&& old(self).index < self.index - 1 < self.tokens@.len()
                        &&& is_level_op(2, self.tokens@[self.index - 1].value)
                        &&& op == op_of(self.tokens@[self.index - 1].value)
                        &&& fold_derives(
                            self.input@,
                            self.tokens@,
                            2,
                            old(self).index as int,
                            self.index - 1,
                            left,
                        )
                    },
                    None => derives(
                        self.input@,
                        self.tokens@,
                        2,
                        old(self).index as int,
                        self.index as int,
                        left,
                    ),
                },
                match op_opt {
                    Some(_) => sp_parse(
                        self.input@,
                        self.tokens@,
                        2,
                        old(self).index as int,
                    ) == sp_tail(self.input@, self.tokens@, 2, self.index - 1),
                    None => sp_parse(
                        self.input@,
                        self.tokens@,
                        2,
                        old(self).index as int,
                    ) == sp_tail(self.input@, self.tokens@, 2, self.index as int),
                },
            decreases self.tokens@.len() - self.index + (if op_opt.is_some() {
                1int
            } else {
                0int
            }),
        {
            let op = op_opt.unwrap();
            let ghost k = self.index - 1;
            let right = match self.unary() {
                Ok(e) => e,
                Err(er) => {
                    return Err(er);
                },
            };
            left = Expression::Binary(op, Box::new(left), Box::new(right));
            proof {
                lemma_fold_step(
                    self.input@,
                    self.tokens@,
                    2,
                    old(self).index as int,
                    k,
                    self.index as int,
                    left,
                );
            }
            op_opt = self.match_level_op(2);
        }
        Ok(left)
    }

    /// `unary -> ("-"|"!") unary | primary`: right-associative by direct
    /// recursion.
    fn unary(&mut self) -> (r: Result<Expression, Error>)
        requires
            old(self).wf(),
        ensures
            final(self).wf(),
            Self::advances(*old(self), *final(self)),
            r matches Ok(e) ==> derives(
                old(self).input@,
                old(self).tokens@,
                1,
                old(self).index as int,
                final(self).index as int,
                e,
            ) && final(self).index > old(self).index,
            old(self).index < old(self).tokens@.len() && r is Err ==> final(self).index > old(
                self,
            ).index,
            ({
                let sp = sp_parse(
                    old(self).input@,
                    old(self).tokens@,
                    1,
                    old(self).index as int,
                );
                &&& final(self).index == sp.1
                &&& (match r {
                    Ok(_) => sp.0 is Ok,
                    Err(e) => sp.0 == Err::<(), Error>(e),
                })
            }),
        decreases old(self).tokens@.len() - old(self).index, 1int,
    {
        if self.index < self.tokens.len() {
            let t = self.tokens[self.index].value;
            if t == Token::Minus || t == Token::Bang {
                let operator = if t == Token::Minus {
                    UnaryOperator::Neg
                } else {
                    UnaryOperator::Not
                };
                let _ = self.next_token();
                let inner = match self.unary() {
                    Ok(e) => e,
                    Err(er) => {
                        return Err(er);
                    },
                };
                return Ok(Expression::Unary(operator, Box::new(inner)));
            }
        }
        self.primary()
    }

    /// `primary -> NIL | TRUE | FALSE | NUMBER | STRING | "(" expression
    /// ")"`: any other leading token, or none at all, is
    /// `ExpectedPrimary`; malformed literal texts fail here.
    fn primary(&mut self) -> (r: Result<Expression, Error>)
        requires
            old(self).wf(),
        ensures
            final(self).wf(),
            Self::advances(*old(self), *final(self)),
            r matches Ok(e) ==> derives(
                old(self).input@,
                old(self).tokens@,
                0,
                old(self).index as int,
                final(self).index as int,
                e,
            ) && final(self).index > old(self).index,
            old(self).index >= old(self).tokens@.len() ==> r == Err::<Expression, Error>(
                Error::ExpectedPrimary,
            ),
            ({
                let toks = old(self).tokens@;
                let i = old(self).index as int;
                i < toks.len() ==> {
                    let t = toks[i].value;
                    let text = old(self).input@.subrange(
                        toks[i].span.start as int,
                        toks[i].span.end as int,
                    );
                    &&& (t == Token::Number ==> (r is Ok <==> is_numeral(text)) && (r is Err
                        ==> r == Err::<Expression, Error>(Error::MalformedNumber)))
                    &&& (t == Token::String ==> (r is Ok <==> string_ok(text)) && (r is Err
                        ==> r == Err::<Expression, Error>(Error::MalformedString)))
                    &&& (t == Token::Nil || t == Token::True || t == Token::False ==> r is Ok)
                    &&& (!(t == Token::Nil || t == Token::True || t == Token::False || t
                        == Token::Number || t == Token::String || t == Token::LeftParen) ==> r
                        == Err::<Expression, Error>(Error::ExpectedPrimary))
                    &&& final(self).index >= i + 1
                }
            }),
            ({
                let sp = sp_parse(
                    old(self).input@,
                    old(self).tokens@,
                    0,
                    old(self).index as int,
                );
                &&& final(self).index == sp.1
                &&& (match r {
                    Ok(_) => sp.0 is Ok,
                    Err(e) => sp.0 == Err::<(), Error>(e),
                })
            }),
        decreases old(self).tokens@.len() - old(self).index, 0int,
    {
        let token = match self.next_token() {
            Some(t) => t,
            None => {
                return Err(Error::ExpectedPrimary);
            },
        };
        match token.value {
            Token::Nil => Ok(Expression::Literal(Value::Nil)),
            Token::True => Ok(Expression::Literal(Value::Boolean(true))),
            Token::False => Ok(Expression::Literal(Value::Boolean(false))),
            Token::Number => match self.parse_number(token.span) {
                Ok(b) => Ok(Expression::Literal(Value::Number(b))),
                Err(er) => Err(er),
            },
            Token::String => match self.parse_string(token.span) {
                Ok(v) => Ok(Expression::Literal(Value::String(v))),
                Err(er) => Err(er),
            },
            Token::LeftParen => {
                let expression = match self.expression() {
                    Ok(e) => e,
                    Err(er) => {
                        return Err(er);
                    },
                };
                match self.expect(Token::RightParen) {
                    Ok(_) => Ok(Expression::Grouping(Box::new(expression))),
                    Err(er) => Err(er),
                }
            },
            _ => Err(Error::ExpectedPrimary),
        }
    }

    /// Discard tokens until a semicolon is consumed or a token beginning
    /// a statement-level keyword form is next, so the following
    /// top-level expression parses on its own.
    pub fn synchronize(&mut self)
        requires
            old(self).wf(),
        ensures
            final(self).wf(),
            Self::advances(*old(self), *final(self)),
            final(self).index == sync_stop(old(self).tokens@, old(self).index as int),
    {
        while self.index < self.tokens.len()
            invariant
                self.wf(),
                Self::advances(*old(self), *self),
                sync_stop(self.tokens@, old(self).index as int) == sync_stop(
                    self.tokens@,
                    self.index as int,
                ),
            decreases self.tokens@.len() - self.index,
        {
            let token = self.next_token().unwrap();
            if token.value == Token::Semicolon {
                return;
            }
            if self.index < self.tokens.len() && starts_statement(self.tokens[self.index].value) {
                return;
            }
        }
    }

    /// Pull one top-level expression attempt: `None` once the tokens are
    /// exhausted; otherwise the parsed expression or the parse error,
    /// spanning every token the attempt consumed, synchronization
    /// included.
    pub fn next(&mut self) -> (r: Option<Spanned<Result<Expression, Error>>>)
        requires
            old(self).wf(),
        ensures
            final(self).wf(),
            Self::advances(*old(self), *final(self)),
            match r {
                None => old(self).index == old(self).tokens@.len() && *final(self) == *old(self),
                Some(sp) => {
                    let toks = old(self).tokens@;
                    let i = old(self).index as int;
                    &&& i < toks.len()
                    &&& final(self).index > i
                    &&& sp.span.start == toks[i].span.start
                    &&& sp.span.end == final(self).end
                    &&& final(self).end == toks[final(self).index - 1].span.end
                    &&& (sp.value matches Ok(e) ==> derives(
                        old(self).input@,
                        toks,
                        5,
                        i,
                        final(self).index as int,
                        e,
                    ))
                    &&& ({
                        let p = sp_parse(old(self).input@, toks, 5, i);
                        match sp.value {
                            Ok(_) => p.0 is Ok && final(self).index == p.1,
                            Err(e) => p.0 == Err::<(), Error>(e) && final(self).index
                                == sync_stop(toks, p.1),
                        }
                    })
                },
            },
    {
        if self.index >= self.tokens.len() {
            return None;
        }
        let start = self.tokens[self.index].span.start;
        let ghost i = self.index as int;
        let result = self.expression();
        if result.is_err() {
            let ghost m = self.index as int;
            self.synchronize();
            proof {
                assert(i < m <= old(self).tokens@.len());
                assert(self.index as int == sync_stop(old(self).tokens@, m));
            }
        }
        Some(Spanned { value: result, span: Span { start, end: self.end } })
    }
}


/// Precedence: a factor-level derivation whose root is a binary node
/// can only be a `/` or `*` node. Additions live strictly below factors
/// (inside groupings), never at their root.
pub proof fn law_factor_precedence(
    s: Seq<u8>,
    toks: Seq<Spanned<Token>>,
    i: int,
    j: int,
    e: Expression,
)
    requires
        derives(s, toks, 2, i, j, e),
        e is Binary,
    ensures
        e->Binary_0 == BinaryOperator::Div || e->Binary_0 == BinaryOperator::Mul,
{
    assert(fold_derives(s, toks, 2, i, j, e));
    if derives(s, toks, 1, i, j, e) {
        assert(fold_derives(s, toks, 1, i, j, e));
        if i < toks.len() && (toks[i].value == Token::Minus || toks[i].value == Token::Bang) {
            assert(e is Unary);
            assert(false);
        } else {
            assert(fold_derives(s, toks, 0, i, j, e));
            assert(false);
        }
    } else {
        assert(chain_step(s, toks, 2, i, j, e));
        let m = choose|m: int|
            i <= m && m + 1 <= j && 0 <= m < toks.len() && #[trigger] is_level_op(
                2,
                toks[m].value,
            ) && e->Binary_0 == op_of(toks[m].value) && fold_derives(s, toks, 2, i, m, *e->Binary_1)
                && derives(s, toks, 2 - 1, m + 1, j, *e->Binary_2);
        assert(toks[m].value == Token::Slash || toks[m].value == Token::Star);
    }
}

/// Left associativity: in a term-level derivation whose root is `+` or
/// `-`, the right operand is a factor, so it is never itself a `+` or
/// `-` node — chains of additions hang to the left.
pub proof fn law_term_left_associative(
    s: Seq<u8>,
    toks: Seq<Spanned<Token>>,
    i: int,
    j: int,
    e: Expression,
)
    requires
        derives(s, toks, 3, i, j, e),
        e is Binary,
        e->Binary_0 == BinaryOperator::Add || e->Binary_0 == BinaryOperator::Sub,
    ensures
        !(*e->Binary_2 is Binary && ((*e->Binary_2)->Binary_0 == BinaryOperator::Add || (
        *e->Binary_2)->Binary_0 == BinaryOperator::Sub)),
{
    assert(fold_derives(s, toks, 3, i, j, e));
    if derives(s, toks, 2, i, j, e) {
        law_factor_precedence(s, toks, i, j, e);
        assert(false);
    } else {
        assert(chain_step(s, toks, 3, i, j, e));
        let m = choose|m: int|
            i <= m && m + 1 <= j && 0 <= m < toks.len() && #[trigger] is_level_op(
                3,
                toks[m].value,
            ) && e->Binary_0 == op_of(toks[m].value) && fold_derives(s, toks, 3, i, m, *e->Binary_1)
                && derives(s, toks, 3 - 1, m + 1, j, *e->Binary_2);
        if *e->Binary_2 is Binary {
            law_factor_precedence(s, toks, m + 1, j, *e->Binary_2);
        }
    }
}

/// One top-level attempt: starting at token `i` it consumed the tokens
/// `[i, m)`, its span ends on the last consumed token, and a successful
/// result derives from exactly those tokens.
pub open spec fn attempt_to(
    s: Seq<u8>,
    toks: Seq<Spanned<Token>>,
    r: Spanned<Result<Expression, Error>>,
    i: int,
    m: int,
) -> bool {
    &&& i < m <= toks.len()
    &&& r.span.end == toks[m - 1].span.end
    &&& (r.value matches Ok(e) ==> derives(s, toks, 5, i, m, e))
    &&& ({
        let p = sp_parse(s, toks, 5, i);
        match r.value {
            Ok(_) => p.0 is Ok && m == p.1,
            Err(e) => p.0 == Err::<(), Error>(e) && m == sync_stop(toks, p.1),
        }
    })
}

/// `rs` is a chain of top-level attempts over the tokens `[i, j)`: each
/// attempt starts where the previous one stopped.
pub open spec fn attempts_from(
    s: Seq<u8>,
    toks: Seq<Spanned<Token>>,
    rs: Seq<Spanned<Result<Expression, Error>>>,
    i: int,
    j: int,
) -> bool
    decreases rs.len(),
{
    if rs.len() == 0 {
        j == i
    } else {
        &&& 0 <= i < toks.len()
        &&& rs[0].span.start == toks[i].span.start
        &&& exists|m: int|
            #[trigger] attempt_to(s, toks, rs[0], i, m) && attempts_from(
                s,
                toks,
                rs.subrange(1, rs.len() as int),
                m,
                j,
            )
    }
}

/// Extending a chain of attempts by the attempt that starts where it
/// stopped.
proof fn lemma_attempts_snoc(
    s: Seq<u8>,
    toks: Seq<Spanned<Token>>,
    rs: Seq<Spanned<Result<Expression, Error>>>,
    i: int,
    j: int,
    r: Spanned<Result<Expression, Error>>,
    m: int,
)
    requires
        attempts_from(s, toks, rs, i, j),
        0 <= j < toks.len(),
        r.span.start == toks[j].span.start,
        attempt_to(s, toks, r, j, m),
    ensures
        attempts_from(s, toks, rs.push(r), i, m),
    decreases rs.len(),
{
    let w = rs.push(r);
    if rs.len() == 0 {
        assert(w.subrange(1, w.len() as int) =~= Seq::<Spanned<Result<Expression, Error>>>::empty());
        assert(attempts_from(s, toks, w.subrange(1, w.len() as int), m, m));
        assert(w[0] == r);
        assert(attempt_to(s, toks, w[0], i, m));
    } else {
        let m0 = choose|m0: int|
            #[trigger] attempt_to(s, toks, rs[0], i, m0) && attempts_from(
                s,
                toks,
                rs.subrange(1, rs.len() as int),
                m0,
                j,
            );
        lemma_attempts_snoc(s, toks, rs.subrange(1, rs.len() as int), m0, j, r, m);
        assert(w.subrange(1, w.len() as int) =~= rs.subrange(1, rs.len() as int).push(r));
        assert(w[0] == rs[0]);
        assert(attempt_to(s, toks, w[0], i, m0));
    }
}

/// The whole front end over one source buffer: scan it, drop the
/// comment tokens, and parse every top-level expression attempt.
///
/// The result is the full chain of attempts over exactly the
/// comment-filtered token list of the buffer (`all` below is pinned by
/// [`links`] to be that token list).
pub fn parse_source(input: &[u8]) -> (results: Vec<Spanned<Result<Expression, Error>>>)
    ensures
        exists|all: Seq<Spanned<Token>>, p: int|
            0 <= p <= input@.len() && #[trigger] crate::scanner::links(input@, all, 0, p)
                && crate::scanner::ws_end(input@, p) == input@.len() && attempts_from(
                input@,
                all.filter(crate::scanner::not_comment()),
                results@,
                0,
                all.filter(crate::scanner::not_comment()).len() as int,
            ),
{
    let all = crate::scanner::scan_all(input);
    let ghost all_seq = all@;
    let tokens = crate::scanner::without_comments(all);
    let ghost toks = tokens@;
    proof {
        assert forall|k: int| 0 <= k < toks.len() implies (#[trigger] toks[k].span).wf(
            input@.len() as int,
        ) by {
            assert(all_seq.contains(toks[k]));
            let idx = choose|idx: int| 0 <= idx < all_seq.len() && all_seq[idx] == toks[k];
            assert(all_seq[idx].span.wf(input@.len() as int));
        }
    }
    let mut parser = Parser::new(input, tokens);
    let mut results: Vec<Spanned<Result<Expression, Error>>> = Vec::new();
    let ghost mut last: int = 0;
    proof {
        assert(attempts_from(input@, toks, results@, 0, 0));
    }
    let mut r_opt = parser.next();
    while r_opt.is_some()
        invariant
            parser.wf(),
            parser.input@ == input@,
            parser.tokens@ == toks,
            0 <= last <= toks.len(),
            attempts_from(input@, toks, results@, 0, last),
            match r_opt {
                Some(r) => {
                    &&& last < toks.len()
                    &&& r.span.start == toks[last].span.start
                    &&& attempt_to(input@, toks, r, last, parser.index as int)
                },
                None => last == toks.len() && parser.index == toks.len(),
            },
        decreases toks.len() - parser.index + (if r_opt.is_some() {
            1int
        } else {
            0int
        }),
    {
        let r = r_opt.unwrap();
        proof {
            lemma_attempts_snoc(input@, toks, results@, 0, last, r, parser.index as int);
        }
        let ghost new_last = parser.index as int;
        results.push(r);
        proof {
            last = new_last;
        }
        r_opt = parser.next();
    }
    results
}

/// Whether `input[from..to]` is a numeral: a leading digit, then digits
/// and dots with at most one dot in all.
fn check_numeral(input: &[u8], from: usize, to: usize) -> (r: bool)
    requires
        from <= to <= input@.len(),
    ensures
        r == is_numeral(input@.subrange(from as int, to as int)),
{
    let ghost text = input@.subrange(from as int, to as int);
    if from >= to {
        return false;
    }
    let first = input[from];
    if !(48 <= first && first <= 57) {
        proof {
            assert(text[0] == input@[from as int]);
        }
        return false;
    }
    let mut i = from;
    let mut seen_dot = false;
    let ghost mut dot_at: int = 0;
    while i < to
        invariant
            from <= i <= to <= input@.len(),
            text == input@.subrange(from as int, to as int),
            forall|k: int|
                from <= k < i ==> crate::numeric::is_digit(#[trigger] input@[k]) || input@[k]
                    == 46,
            seen_dot ==> from <= dot_at < i && input@[dot_at] == 46,
            forall|k: int| from <= k < i && #[trigger] input@[k] == 46 ==> seen_dot && k == dot_at,
        decreases to - i,
    {
        let b = input[i];
        if b == 46 {
            if seen_dot {
                proof {
                    assert(text[dot_at - from] == 46 && text[i - from] == 46);
                    assert(!is_numeral(text));
                }
                return false;
            }
            seen_dot = true;
            proof {
                dot_at = i as int;
            }
        } else if !(48 <= b && b <= 57) {
            proof {
                assert(text[i - from] == input@[i as int]);
            }
            return false;
        }
        i += 1;
    }
    proof {
        assert(text.len() > 0 && crate::numeric::is_digit(text[0]));
        assert(forall|k: int|
            0 <= k < text.len() ==> crate::numeric::is_digit(#[trigger] text[k]) || text[k] == 46);
        assert forall|k1: int, k2: int| 0 <= k1 < k2 < text.len() implies !(#[trigger] text[k1]
            == 46 && #[trigger] text[k2] == 46) by {
            if text[k1] == 46 && text[k2] == 46 {
                assert(input@[from + k1] == 46 && input@[from + k2] == 46);
            }
        }
    }
    true
}

} // verus!
