//! The lexer: classifies raw source bytes into spanned tokens.
//!
//! The scanner is a forward-only cursor over an immutable source buffer.
//! Each pull skips ASCII whitespace, consumes one token's worth of bytes,
//! and returns the token kind with its span. The lexer never fails: bytes
//! it cannot classify become `Unknown` tokens and scanning continues, so
//! a single pass surfaces every bad character. Validation of number and
//! string literal texts is deferred to the parser.
//!
//! [`token_at`] is the mathematical classification, and [`Scanner::next`]
//! is proved to compute exactly it.

use vstd::prelude::*;
use crate::span::{Span, Spanned};

verus! {

/// A token's classification. Tokens do not own text; their span resolves
/// against the source buffer on demand.
#[derive(Copy, Clone, PartialEq, Eq, Structural, Debug)]
pub enum Token {
    // Single-character tokens.
    LeftParen,
    RightParen,
    LeftBrace,
    RightBrace,
    Comma,
    Dot,
    Minus,
    Plus,
    Semicolon,
    Slash,
    Star,
    // One or two character tokens.
    Bang,
    BangEqual,
    Equal,
    EqualEqual,
    Greater,
    GreaterEqual,
    Less,
    LessEqual,
    // Literals.
    Identifier,
    String,
    Number,
    // Keywords.
    And,
    Class,
    Else,
    False,
    Fun,
    For,
    If,
    Nil,
    Or,
    Print,
    Return,
    Super,
    This,
    True,
    Var,
    While,
    // Comments.
    Comment,
    // Unknown.
    Unknown,
}

/// ASCII whitespace, as `u8::is_ascii_whitespace` has it.
pub open spec fn is_ws(b: u8) -> bool {
    b == 32 || b == 9 || b == 10 || b == 12 || b == 13
}

/// An ASCII letter or underscore: what may start an identifier.
pub open spec fn is_alpha(b: u8) -> bool {
    (65 <= b <= 90) || (97 <= b <= 122) || b == 95
}

/// An ASCII letter, digit or underscore: what may continue an identifier.
pub open spec fn is_alnum(b: u8) -> bool {
    is_alpha(b) || crate::numeric::is_digit(b)
}

/// A UTF-8 continuation byte: part of the multi-byte character whose
/// lead byte was just consumed.
pub open spec fn is_continuation(b: u8) -> bool {
    128 <= b < 192
}

/// ASCII whitespace, decided byte by byte.
fn is_ws_byte(b: u8) -> (r: bool)
    ensures
        r == is_ws(b),
{
    b == 32 || b == 9 || b == 10 || b == 12 || b == 13
}

/// A digit or a dot, decided byte by byte.
fn is_digit_or_dot_byte(b: u8) -> (r: bool)
    ensures
        r == (crate::numeric::is_digit(b) || b == 46),
{
    (48 <= b && b <= 57) || b == 46
}

/// An identifier-continuing byte, decided byte by byte.
fn is_alnum_byte(b: u8) -> (r: bool)
    ensures
        r == is_alnum(b),
{
    (65 <= b && b <= 90) || (97 <= b && b <= 122) || b == 95 || (48 <= b && b <= 57)
}

/// The first index at or after `i` whose byte fails `p`, or the buffer's
/// length if none does.
pub open spec fn scan_end(s: Seq<u8>, i: int, p: spec_fn(u8) -> bool) -> int
    decreases s.len() - i,
{
    if 0 <= i && i < s.len() && p(s[i]) {
        scan_end(s, i + 1, p)
    } else {
        i
    }
}

pub proof fn lemma_scan_end_bounds(s: Seq<u8>, i: int, p: spec_fn(u8) -> bool)
    requires
        0 <= i <= s.len(),
    ensures
        i <= scan_end(s, i, p) <= s.len(),
    decreases s.len() - i,
{
    if i < s.len() && p(s[i]) {
        lemma_scan_end_bounds(s, i + 1, p);
    }
}

/// The predicate whose failing index ends a run of whitespace.
pub open spec fn ws_pred() -> spec_fn(u8) -> bool {
    |b: u8| is_ws(b)
}

/// Where the token starting at `i` begins once whitespace is skipped.
pub open spec fn ws_end(s: Seq<u8>, i: int) -> int {
    scan_end(s, i, ws_pred())
}

/// The predicate whose failing index ends a line comment's text.
pub open spec fn not_newline_pred() -> spec_fn(u8) -> bool {
    |b: u8| b != 10
}

/// The predicate whose failing index ends a string literal's body.
pub open spec fn not_quote_pred() -> spec_fn(u8) -> bool {
    |b: u8| b != 34
}

/// The predicate whose failing index ends a number token.
pub open spec fn digit_dot_pred() -> spec_fn(u8) -> bool {
    |b: u8| crate::numeric::is_digit(b) || b == 46
}

/// The predicate whose failing index ends an identifier.
pub open spec fn alnum_pred() -> spec_fn(u8) -> bool {
    |b: u8| is_alnum(b)
}

/// The predicate whose failing index ends an unknown multi-byte character.
pub open spec fn continuation_pred() -> spec_fn(u8) -> bool {
    |b: u8| is_continuation(b)
}

/// The keyword table: a fixed lookup from an identifier's text, with
/// unmatched texts classified as `Identifier`.
pub open spec fn keyword_or_identifier(w: Seq<u8>) -> Token {
    if w == seq![97u8, 110u8, 100u8] {
        Token::And
    } else if w == seq![99u8, 108u8, 97u8, 115u8, 115u8] {
        Token::Class
    } else if w == seq![101u8, 108u8, 115u8, 101u8] {
        Token::Else
    } else if w == seq![102u8, 97u8, 108u8, 115u8, 101u8] {
        Token::False
    } else if w == seq![102u8, 111u8, 114u8] {
        Token::For
    } else if w == seq![102u8, 117u8, 110u8] {
        Token::Fun
    } else if w == seq![105u8, 102u8] {
        Token::If
    } else if w == seq![110u8, 105u8, 108u8] {
        Token::Nil
    } else if w == seq![111u8, 114u8] {
        Token::Or
    } else if w == seq![112u8, 114u8, 105u8, 110u8, 116u8] {
        Token::Print
    } else if w == seq![114u8, 101u8, 116u8, 117u8, 114u8, 110u8] {
        Token::Return
    } else if w == seq![115u8, 117u8, 112u8, 101u8, 114u8] {
        Token::Super
    } else if w == seq![116u8, 104u8, 105u8, 115u8] {
        Token::This
    } else if w == seq![116u8, 114u8, 117u8, 101u8] {
        Token::True
    } else if w == seq![118u8, 97u8, 114u8] {
        Token::Var
    } else if w == seq![119u8, 104u8, 105u8, 108u8, 101u8] {
        Token::While
    } else {
        Token::Identifier
    }
}

/// The two-character probe: `!`, `=`, `<`, `>` each check the next byte
/// for `=` to choose between their one- and two-character variants.
pub open spec fn two_char(s: Seq<u8>, start: int, matched: Token, unmatched: Token) -> (
    Token,
    int,
) {
    if start + 1 < s.len() && s[start + 1] == 61 {
        (matched, start + 2)
    } else {
        (unmatched, start + 1)
    }
}

/// The classification of the token starting at `start` (a non-whitespace
/// position inside the buffer): its kind, and the position just past it.
pub open spec fn token_at(s: Seq<u8>, start: int) -> (Token, int)
    recommends
        0 <= start < s.len(),
{
    let c = s[start];
    if c == 47 {
        if start + 1 < s.len() && s[start + 1] == 47 {
            (Token::Comment, scan_end(s, start + 1, not_newline_pred()))
        } else {
            (Token::Slash, start + 1)
        }
    } else if c == 40 {
        (Token::LeftParen, start + 1)
    } else if c == 41 {
        (Token::RightParen, start + 1)
    } else if c == 123 {
        (Token::LeftBrace, start + 1)
    } else if c == 125 {
        (Token::RightBrace, start + 1)
    } else if c == 44 {
        (Token::Comma, start + 1)
    } else if c == 46 {
        (Token::Dot, start + 1)
    } else if c == 45 {
        (Token::Minus, start + 1)
    } else if c == 43 {
        (Token::Plus, start + 1)
    } else if c == 59 {
        (Token::Semicolon, start + 1)
    } else if c == 42 {
        (Token::Star, start + 1)
    } else if c == 33 {
        two_char(s, start, Token::BangEqual, Token::Bang)
    } else if c == 61 {
        two_char(s, start, Token::EqualEqual, Token::Equal)
    } else if c == 60 {
        two_char(s, start, Token::LessEqual, Token::Less)
    } else if c == 62 {
        two_char(s, start, Token::GreaterEqual, Token::Greater)
    } else if c == 34 {
        let q = scan_end(s, start + 1, not_quote_pred());
        (Token::String, if q < s.len() {
            q + 1
        } else {
            q
        })
    } else if crate::numeric::is_digit(c) {
        (Token::Number, scan_end(s, start + 1, digit_dot_pred()))
    } else if is_alpha(c) {
        let end = scan_end(s, start + 1, alnum_pred());
        (keyword_or_identifier(s.subrange(start, end)), end)
    } else if c < 128 {
        (Token::Unknown, start + 1)
    } else {
        (Token::Unknown, scan_end(s, start + 1, continuation_pred()))
    }
}

/// The token starting at `start` ends past it and within the buffer.
pub proof fn lemma_token_at_bounds(s: Seq<u8>, start: int)
    requires
        0 <= start < s.len(),
    ensures
        start < token_at(s, start).1 <= s.len(),
{
    lemma_scan_end_bounds(s, start + 1, not_newline_pred());
    lemma_scan_end_bounds(s, start + 1, not_quote_pred());
    lemma_scan_end_bounds(s, start + 1, digit_dot_pred());
    lemma_scan_end_bounds(s, start + 1, alnum_pred());
    lemma_scan_end_bounds(s, start + 1, continuation_pred());
}

/// The lexer never fails on a string, terminated or not: any token
/// starting on a double quote is classified `String`, with a span that
/// simply does not end on a quote when the input ran out first; deciding
/// whether the literal is well formed is the parser's job.
pub proof fn law_unterminated_string_still_scans(s: Seq<u8>, start: int)
    requires
        0 <= start < s.len(),
        s[start] == 34,
    ensures
        token_at(s, start).0 == Token::String,
        start < token_at(s, start).1 <= s.len(),
{
    lemma_token_at_bounds(s, start);
}

/// The lexer: a lazy, forward-only, non-restartable cursor over the
/// source buffer, which must stay valid and unmodified for its lifetime.
pub struct Scanner<'a> {
    pub input: &'a [u8],
    pub pos: usize,
}

impl<'a> Scanner<'a> {
    /// The cursor stays within the buffer.
    pub open spec fn wf(self) -> bool {
        self.pos <= self.input@.len()
    }

    /// A fresh scanner over `input`, positioned at its start.
    pub fn new(input: &'a [u8]) -> (r: Scanner<'a>)
        ensures
            r.input@ == input@,
            r.pos == 0,
            r.wf(),
    {
        Scanner { input, pos: 0 }
    }

    /// Pull one token: skip ASCII whitespace, and either classify one
    /// token and return it with its span, or report the end of input.
    /// The lexer itself never fails.
    pub fn next(&mut self) -> (r: Option<Spanned<Token>>)
        requires
            old(self).wf(),
        ensures
            final(self).input == old(self).input,
            final(self).wf(),
            match r {
                None => ws_end(old(self).input@, old(self).pos as int) == old(self).input@.len()
                    && final(self).pos == old(self).input@.len(),
                Some(st) => {
                    let s = old(self).input@;
                    let start = ws_end(s, old(self).pos as int);
                    &&& start < s.len()
                    &&& st.span.start == start
                    &&& st.value == token_at(s, start).0
                    &&& final(self).pos == token_at(s, start).1
                    &&& st.span.end == final(self).pos
                    &&& old(self).pos <= start < final(self).pos <= s.len()
                },
            },
    {
        let ghost s = self.input@;
        let ghost p0 = self.pos as int;
        while self.pos < self.input.len() && is_ws_byte(self.input[self.pos])
            invariant
                self.input@ == s,
                p0 <= self.pos <= s.len(),
                ws_end(s, p0) == ws_end(s, self.pos as int),
            decreases s.len() - self.pos,
        {
            proof {
                assert(ws_pred()(s[self.pos as int]));
            }
            self.pos += 1;
        }
        assert(ws_end(s, p0) == self.pos as int);
        if self.pos >= self.input.len() {
            return None;
        }
        let start = self.pos;
        let c = self.input[self.pos];
        self.pos += 1;
        let token = if c == 47 {
            if self.pos < self.input.len() && self.input[self.pos] == 47 {
                self.pos = scan_not_newline(self.input, self.pos);
                Token::Comment
            } else {
                Token::Slash
            }
        } else if c == 40 {
            Token::LeftParen
        } else if c == 41 {
            Token::RightParen
        } else if c == 123 {
            Token::LeftBrace
        } else if c == 125 {
            Token::RightBrace
        } else if c == 44 {
            Token::Comma
        } else if c == 46 {
            Token::Dot
        } else if c == 45 {
            Token::Minus
        } else if c == 43 {
            Token::Plus
        } else if c == 59 {
            Token::Semicolon
        } else if c == 42 {
            Token::Star
        } else if c == 33 {
            self.if_peek_equal(Token::BangEqual, Token::Bang)
        } else if c == 61 {
            self.if_peek_equal(Token::EqualEqual, Token::Equal)
        } else if c == 60 {
            self.if_peek_equal(Token::LessEqual, Token::Less)
        } else if c == 62 {
            self.if_peek_equal(Token::GreaterEqual, Token::Greater)
        } else if c == 34 {
            let q = scan_not_quote(self.input, self.pos);
            self.pos = if q < self.input.len() {
                q + 1
            } else {
                q
            };
            Token::String
        } else if 48 <= c && c <= 57 {
            self.pos = scan_digits_dots(self.input, self.pos);
            Token::Number
        } else if (65 <= c && c <= 90) || (97 <= c && c <= 122) || c == 95 {
            let end = scan_alnum(self.input, self.pos);
            self.pos = end;
            keyword_or_identifier_at(self.input, start, end)
        } else if c < 128 {
            Token::Unknown
        } else {
            self.pos = scan_continuation(self.input, self.pos);
            Token::Unknown
        };
        Some(Spanned { value: token, span: Span { start, end: self.pos } })
    }

    /// The one-character lookahead for `!= == <= >=`: if the next byte is
    /// `=`, consume it and return `matched`, else return `unmatched`.
    fn if_peek_equal(&mut self, matched: Token, unmatched: Token) -> (t: Token)
        requires
            old(self).wf(),
            old(self).pos >= 1,
        ensures
            final(self).input == old(self).input,
            (t, final(self).pos as int) == two_char(
                old(self).input@,
                old(self).pos - 1,
                matched,
                unmatched,
            ),
            final(self).wf(),
    {
        if self.pos < self.input.len() && self.input[self.pos] == 61 {
            self.pos += 1;
            matched
        } else {
            unmatched
        }
    }
}

/// The first index at or after `from` holding a newline or the end of
/// the buffer: where a line comment's text stops.
fn scan_not_newline(input: &[u8], from: usize) -> (r: usize)
    requires
        from <= input@.len(),
    ensures
        r == scan_end(input@, from as int, not_newline_pred()),
        from <= r <= input@.len(),
{
    let mut i = from;
    while i < input.len() && input[i] != 10
        invariant
            from <= i <= input@.len(),
            scan_end(input@, from as int, not_newline_pred()) == scan_end(input@, i as int, not_newline_pred()),
        decreases input@.len() - i,
    {
        proof {
            assert(not_newline_pred()(input@[i as int]));
        }
        i += 1;
    }
    i
}

/// The first index at or after `from` holding a double quote or the end
/// of the buffer: where a string literal's body stops.
fn scan_not_quote(input: &[u8], from: usize) -> (r: usize)
    requires
        from <= input@.len(),
    ensures
        r == scan_end(input@, from as int, not_quote_pred()),
        from <= r <= input@.len(),
{
    let mut i = from;
    while i < input.len() && input[i] != 34
        invariant
            from <= i <= input@.len(),
            scan_end(input@, from as int, not_quote_pred()) == scan_end(input@, i as int, not_quote_pred()),
        decreases input@.len() - i,
    {
        proof {
            assert(not_quote_pred()(input@[i as int]));
        }
        i += 1;
    }
    i
}

/// The first index at or after `from` whose byte is neither a digit nor
/// a dot: where a number token stops.
fn scan_digits_dots(input: &[u8], from: usize) -> (r: usize)
    requires
        from <= input@.len(),
    ensures
        r == scan_end(input@, from as int, digit_dot_pred()),
        from <= r <= input@.len(),
{
    let mut i = from;
    while i < input.len() && is_digit_or_dot_byte(input[i])
        invariant
            from <= i <= input@.len(),
            scan_end(input@, from as int, digit_dot_pred()) == scan_end(input@, i as int, digit_dot_pred()),
        decreases input@.len() - i,
    {
        proof {
            assert(digit_dot_pred()(input@[i as int]));
        }
        i += 1;
    }
    i
}

/// The first index at or after `from` whose byte cannot continue an
/// identifier: where an identifier or keyword stops.
fn scan_alnum(input: &[u8], from: usize) -> (r: usize)
    requires
        from <= input@.len(),
    ensures
        r == scan_end(input@, from as int, alnum_pred()),
        from <= r <= input@.len(),
{
    let mut i = from;
    while i < input.len() && is_alnum_byte(input[i])
        invariant
            from <= i <= input@.len(),
            scan_end(input@, from as int, alnum_pred()) == scan_end(input@, i as int, alnum_pred()),
        decreases input@.len() - i,
    {
        proof {
            assert(alnum_pred()(input@[i as int]));
        }
        i += 1;
    }
    i
}

/// The first index at or after `from` whose byte is not a UTF-8
/// continuation byte: where an unknown multi-byte character stops.
fn scan_continuation(input: &[u8], from: usize) -> (r: usize)
    requires
        from <= input@.len(),
    ensures
        r == scan_end(input@, from as int, continuation_pred()),
        from <= r <= input@.len(),
{
    let mut i = from;
    while i < input.len() && 128 <= input[i] && input[i] < 192
        invariant
            from <= i <= input@.len(),
            scan_end(input@, from as int, continuation_pred()) == scan_end(input@, i as int, continuation_pred()),
        decreases input@.len() - i,
    {
        proof {
            assert(continuation_pred()(input@[i as int]));
        }
        i += 1;
    }
    i
}

/// Whether `input[start..end]` is exactly the two bytes `a b`.
fn word_is2(input: &[u8], start: usize, end: usize, a: u8, b: u8) -> (r: bool)
    requires
        start <= end <= input@.len(),
    ensures
        r == (input@.subrange(start as int, end as int) == seq![a, b]),
{
    let ghost w = input@.subrange(start as int, end as int);
    if end - start == 2 && input[start] == a && input[start + 1] == b {
        proof {
            assert(w =~= seq![a, b]);
        }
        true
    } else {
        proof {
            assert(w.len() == end - start);
            if w == seq![a, b] {
                assert(w[0] == a && w[1] == b && w.len() == 2);
                assert(input@[start as int] == w[0]);
                assert(input@[start as int + 1] == w[1]);
            }
        }
        false
    }
}

/// Whether `input[start..end]` is exactly the three bytes `a b c`.
fn word_is3(input: &[u8], start: usize, end: usize, a: u8, b: u8, c: u8) -> (r: bool)
    requires
        start <= end <= input@.len(),
    ensures
        r == (input@.subrange(start as int, end as int) == seq![a, b, c]),
{
    let ghost w = input@.subrange(start as int, end as int);
    if end - start == 3 && input[start] == a && input[start + 1] == b && input[start + 2] == c {
        proof {
            assert(w =~= seq![a, b, c]);
        }
        true
    } else {
        proof {
            assert(w.len() == end - start);
            if w == seq![a, b, c] {
                assert(w[0] == a && w[1] == b && w[2] == c && w.len() == 3);
                assert(input@[start as int] == w[0]);
                assert(input@[start as int + 1] == w[1]);
                assert(input@[start as int + 2] == w[2]);
            }
        }
        false
    }
}

/// Whether `input[start..end]` is exactly the four bytes `a b c d`.
fn word_is4(input: &[u8], start: usize, end: usize, a: u8, b: u8, c: u8, d: u8) -> (r: bool)
    requires
        start <= end <= input@.len(),
    ensures
        r == (input@.subrange(start as int, end as int) == seq![a, b, c, d]),
{
    let ghost w = input@.subrange(start as int, end as int);
    if end - start == 4 && input[start] == a && input[start + 1] == b && input[start + 2] == c
        && input[start + 3] == d {
        proof {
            assert(w =~= seq![a, b, c, d]);
        }
        true
    } else {
        proof {
            assert(w.len() == end - start);
            if w == seq![a, b, c, d] {
                assert(w[0] == a && w[1] == b && w[2] == c && w[3] == d && w.len() == 4);
                assert(input@[start as int] == w[0]);
                assert(input@[start as int + 1] == w[1]);
                assert(input@[start as int + 2] == w[2]);
                assert(input@[start as int + 3] == w[3]);
            }
        }
        false
    }
}

/// Whether `input[start..end]` is exactly the five bytes `a b c d e`.
fn word_is5(input: &[u8], start: usize, end: usize, a: u8, b: u8, c: u8, d: u8, e: u8) -> (r:
    bool)
    requires
        start <= end <= input@.len(),
    ensures
        r == (input@.subrange(start as int, end as int) == seq![a, b, c, d, e]),
{
    let ghost w = input@.subrange(start as int, end as int);
    if end - start == 5 && input[start] == a && input[start + 1] == b && input[start + 2] == c
        && input[start + 3] == d && input[start + 4] == e {
        proof {
            assert(w =~= seq![a, b, c, d, e]);
        }
        true
    } else {
        proof {
            assert(w.len() == end - start);
            if w == seq![a, b, c, d, e] {
                assert(w[0] == a && w[1] == b && w[2] == c && w[3] == d && w[4] == e && w.len()
                    == 5);
                assert(input@[start as int] == w[0]);
                assert(input@[start as int + 1] == w[1]);
                assert(input@[start as int + 2] == w[2]);
                assert(input@[start as int + 3] == w[3]);
                assert(input@[start as int + 4] == w[4]);
            }
        }
        false
    }
}

/// Whether `input[start..end]` is exactly the six bytes `a b c d e f`.
fn word_is6(
    input: &[u8],
    start: usize,
    end: usize,
    a: u8,
    b: u8,
    c: u8,
    d: u8,
    e: u8,
    f: u8,
) -> (r: bool)
    requires
        start <= end <= input@.len(),
    ensures
        r == (input@.subrange(start as int, end as int) == seq![a, b, c, d, e, f]),
{
    let ghost w = input@.subrange(start as int, end as int);
    if end - start == 6 && input[start] == a && input[start + 1] == b && input[start + 2] == c
        && input[start + 3] == d && input[start + 4] == e && input[start + 5] == f {
        proof {
            assert(w =~= seq![a, b, c, d, e, f]);
        }
        true
    } else {
        proof {
            assert(w.len() == end - start);
            if w == seq![a, b, c, d, e, f] {
                assert(w[0] == a && w[1] == b && w[2] == c && w[3] == d && w[4] == e && w[5] == f
                    && w.len() == 6);
                assert(input@[start as int] == w[0]);
                assert(input@[start as int + 1] == w[1]);
                assert(input@[start as int + 2] == w[2]);
                assert(input@[start as int + 3] == w[3]);
                assert(input@[start as int + 4] == w[4]);
                assert(input@[start as int + 5] == w[5]);
            }
        }
        false
    }
}

/// Well-formed token spans for a buffer of `len` bytes.
pub open spec fn tokens_wf(toks: Seq<Spanned<Token>>, len: int) -> bool {
    forall|k: int| 0 <= k < toks.len() ==> (#[trigger] toks[k].span).wf(len)
}

/// `v` is exactly the chain of tokens the scanner yields from position
/// `i`, ending with its cursor at `j` (the end of `v`'s last token, or
/// `i` itself when `v` is empty).
pub open spec fn links(s: Seq<u8>, v: Seq<Spanned<Token>>, i: int, j: int) -> bool
    decreases v.len(),
{
    if v.len() == 0 {
        j == i
    } else {
        let ws = ws_end(s, i);
        &&& ws < s.len()
        &&& v[0].span.start == ws
        &&& v[0].value == token_at(s, ws).0
        &&& v[0].span.end == token_at(s, ws).1
        &&& links(s, v.subrange(1, v.len() as int), v[0].span.end as int, j)
    }
}

/// Extending a token chain by the token that starts where it ended.
proof fn lemma_links_snoc(s: Seq<u8>, v: Seq<Spanned<Token>>, i: int, j: int, t: Spanned<Token>)
    requires
        links(s, v, i, j),
        ws_end(s, j) < s.len(),
        t.span.start == ws_end(s, j),
        t.value == token_at(s, ws_end(s, j)).0,
        t.span.end == token_at(s, ws_end(s, j)).1,
    ensures
        links(s, v.push(t), i, t.span.end as int),
    decreases v.len(),
{
    let w = v.push(t);
    if v.len() == 0 {
        assert(w.subrange(1, w.len() as int) =~= Seq::<Spanned<Token>>::empty());
        assert(links(s, w.subrange(1, w.len() as int), t.span.end as int, t.span.end as int));
        assert(w[0] == t);
        assert(links(s, w, i, t.span.end as int));
    } else {
        lemma_links_snoc(s, v.subrange(1, v.len() as int), v[0].span.end as int, j, t);
        assert(w.subrange(1, w.len() as int) =~= v.subrange(1, v.len() as int).push(t));
        assert(w[0] == v[0]);
        assert(links(s, w, i, t.span.end as int));
    }
}

/// Scan the whole buffer into its token list: exactly the chain of
/// tokens from position `0`, with only whitespace after the last.
pub fn scan_all(input: &[u8]) -> (v: Vec<Spanned<Token>>)
    ensures
        tokens_wf(v@, input@.len() as int),
        exists|p: int|
            0 <= p <= input@.len() && #[trigger] links(input@, v@, 0, p) && ws_end(input@, p)
                == input@.len(),
{
    let mut scanner = Scanner::new(input);
    let mut v: Vec<Spanned<Token>> = Vec::new();
    let ghost mut last: int = 0;
    proof {
        assert(links(input@, v@, 0, 0));
    }
    let mut t_opt = scanner.next();
    while t_opt.is_some()
        invariant
            scanner.wf(),
            scanner.input@ == input@,
            tokens_wf(v@, input@.len() as int),
            0 <= last <= input@.len(),
            links(input@, v@, 0, last),
            match t_opt {
                Some(t) => {
                    &&& ws_end(input@, last) < input@.len()
                    &&& t.span.start == ws_end(input@, last)
                    &&& t.value == token_at(input@, ws_end(input@, last)).0
                    &&& t.span.end == token_at(input@, ws_end(input@, last)).1
                    &&& scanner.pos == t.span.end
                    &&& last < t.span.end <= input@.len()
                },
                None => ws_end(input@, last) == input@.len(),
            },
        decreases input@.len() - scanner.pos + (if t_opt.is_some() {
            1int
        } else {
            0int
        }),
    {
        let t = t_opt.unwrap();
        proof {
            lemma_links_snoc(input@, v@, 0, last, t);
            lemma_token_at_bounds(input@, ws_end(input@, last));
            assert(t.span.wf(input@.len() as int));
        }
        let ghost prev = v@;
        v.push(t);
        proof {
            assert(forall|k: int| 0 <= k < prev.len() ==> v@[k] == prev[k]);
            assert(v@[v@.len() - 1] == t);
        }
        proof {
            last = t.span.end as int;
        }
        t_opt = scanner.next();
    }
    v
}

/// The tokens of `v` that are not comments, in order: the caller-side
/// filtering that drops `Comment` tokens before parsing.
pub open spec fn not_comment() -> spec_fn(Spanned<Token>) -> bool {
    |t: Spanned<Token>| t.value != Token::Comment
}

/// Drop the comment tokens, keeping every other token in order.
pub fn without_comments(v: Vec<Spanned<Token>>) -> (r: Vec<Spanned<Token>>)
    ensures
        r@ == v@.filter(not_comment()),
        forall|k: int| 0 <= k < r@.len() ==> v@.contains(#[trigger] r@[k]),
{
    let mut r: Vec<Spanned<Token>> = Vec::new();
    let mut i: usize = 0;
    proof {
        reveal(Seq::filter);
        assert(v@.subrange(0, 0) =~= Seq::<Spanned<Token>>::empty());
    }
    while i < v.len()
        invariant
            i <= v@.len(),
            r@ == v@.subrange(0, i as int).filter(not_comment()),
            forall|k: int| 0 <= k < r@.len() ==> v@.contains(#[trigger] r@[k]),
        decreases v@.len() - i,
    {
        let ghost prefix = v@.subrange(0, i as int);
        proof {
            reveal(Seq::filter);
            assert(v@.subrange(0, i + 1).drop_last() =~= prefix);
            assert(v@.subrange(0, i + 1).last() == v@[i as int]);
        }
        if v[i].value != Token::Comment {
            r.push(v[i]);
            proof {
                assert(v@.contains(v@[i as int]));
            }
        }
        i += 1;
    }
    proof {
        assert(v@.subrange(0, v@.len() as int) =~= v@);
    }
    r
}

/// Look `input[start..end]` up in the keyword table; unmatched words are
/// identifiers.
fn keyword_or_identifier_at(input: &[u8], start: usize, end: usize) -> (t: Token)
    requires
        start <= end <= input@.len(),
    ensures
        t == keyword_or_identifier(input@.subrange(start as int, end as int)),
{
    if word_is3(input, start, end, 97, 110, 100) {
        Token::And
    } else if word_is5(input, start, end, 99, 108, 97, 115, 115) {
        Token::Class
    } else if word_is4(input, start, end, 101, 108, 115, 101) {
        Token::Else
    } else if word_is5(input, start, end, 102, 97, 108, 115, 101) {
        Token::False
    } else if word_is3(input, start, end, 102, 111, 114) {
        Token::For
    } else if word_is3(input, start, end, 102, 117, 110) {
        Token::Fun
    } else if word_is2(input, start, end, 105, 102) {
        Token::If
    } else if word_is3(input, start, end, 110, 105, 108) {
        Token::Nil
    } else if word_is2(input, start, end, 111, 114) {
        Token::Or
    } else if word_is5(input, start, end, 112, 114, 105, 110, 116) {
        Token::Print
    } else if word_is6(input, start, end, 114, 101, 116, 117, 114, 110) {
        Token::Return
    } else if word_is5(input, start, end, 115, 117, 112, 101, 114) {
        Token::Super
    } else if word_is4(input, start, end, 116, 104, 105, 115) {
        Token::This
    } else if word_is4(input, start, end, 116, 114, 117, 101) {
        Token::True
    } else if word_is3(input, start, end, 118, 97, 114) {
        Token::Var
    } else if word_is5(input, start, end, 119, 104, 105, 108, 101) {
        Token::While
    } else {
        Token::Identifier
    }
}

} // verus!
