//! Lexical analysis: turns source text into a lazy, one-token-lookahead
//! stream of classified tokens.
//!
//! The whole tokenization is specified by the spec function [`scan`], which
//! gives the token beginning at a position of the text together with the
//! position just after it; the executable scanner is proved to follow it.
//! Positions and spans count characters from the start of the text.

use vstd::prelude::*;

use crate::errors::SynErrV;
use crate::errors::SyntaxError;

verus! {

/// The classification of a token.
#[derive(Debug, Clone, Copy, PartialEq, Eq, Structural)]
pub enum TokenKind {
    StringLiteral,
    NumberLiteral,
    Identifier,
    LeftParen,
    RightParen,
    Comma,
    Add,
    Subtract,
    Multiply,
    Divide,
    Equal,
    NotEqual,
    LessThan,
    LessThanOrEqual,
    GreaterThan,
    GreaterThanOrEqual,
    Eol,
    Eof,
}

/// What a token carries: nothing, an unsigned number, or a piece of text.
#[derive(Debug, PartialEq)]
pub enum TokenValue {
    Absent,
    Digit(usize),
    Text(String),
}

/// A half-open character-offset range into the source text.
#[derive(Debug, Clone, Copy, PartialEq, Eq, Structural)]
pub struct Span {
    pub start: usize,
    pub end: usize,
}

/// One classified token.
#[derive(Debug, PartialEq)]
pub struct Token {
    pub kind: TokenKind,
    pub span: Span,
    pub value: TokenValue,
}

/// The mathematical view of a token value.
pub enum TokenValueV {
    Absent,
    Digit(nat),
    Text(Seq<char>),
}

/// The mathematical view of a token.
pub struct TokenV {
    pub kind: TokenKind,
    pub start: nat,
    pub end: nat,
    pub value: TokenValueV,
}

impl View for TokenValue {
    type V = TokenValueV;

    open spec fn view(&self) -> TokenValueV {
        match self {
            TokenValue::Absent => TokenValueV::Absent,
            TokenValue::Digit(d) => TokenValueV::Digit(*d as nat),
            TokenValue::Text(s) => TokenValueV::Text(s@),
        }
    }
}

impl View for Token {
    type V = TokenV;

    open spec fn view(&self) -> TokenV {
        TokenV {
            kind: self.kind,
            start: self.span.start as nat,
            end: self.span.end as nat,
            value: self.value@,
        }
    }
}

impl Token {
    /// The placeholder token: end of input at offset zero.
    pub fn default() -> (r: Token)
        ensures
            r@ == (TokenV {
                kind: TokenKind::Eof,
                start: 0,
                end: 0,
                value: TokenValueV::Absent,
            }),
    {
        Token {
            kind: TokenKind::Eof,
            span: Span { start: 0, end: 0 },
            value: TokenValue::Absent,
        }
    }

    /// A structural copy; the result has the same view as the original.
    pub fn duplicate(&self) -> (r: Token)
        ensures
            r@ == self@,
    {
        Token {
            kind: self.kind,
            span: self.span,
            value: match &self.value {
                TokenValue::Absent => TokenValue::Absent,
                TokenValue::Digit(d) => TokenValue::Digit(*d),
                TokenValue::Text(s) => TokenValue::Text(s.clone()),
            },
        }
    }
}

/// A space, skipped between tokens.
pub open spec fn is_space_char(c: char) -> bool {
    c == ' '
}

/// A decimal digit.
pub open spec fn is_digit_char(c: char) -> bool {
    '0' <= c && c <= '9'
}

/// An uppercase letter, the only letters of the strict grammar.
pub open spec fn is_upper_char(c: char) -> bool {
    'A' <= c && c <= 'Z'
}

/// The numeric value of a decimal digit character.
pub open spec fn digit_char_val(c: char) -> nat {
    ((c as u32) - ('0' as u32)) as nat
}

/// The value of a run of decimal digit characters, most significant first.
pub open spec fn dec_val(s: Seq<char>) -> nat
    decreases s.len(),
{
    if s.len() == 0 {
        0
    } else {
        dec_val(s.drop_last()) * 10 + digit_char_val(s.last())
    }
}

/// The end of the maximal run of decimal digits beginning at `pos`.
pub open spec fn digit_run_end(s: Seq<char>, pos: int) -> int
    decreases s.len() - pos
    when 0 <= pos <= s.len()
{
    if pos >= s.len() || !is_digit_char(s[pos]) {
        pos
    } else {
        digit_run_end(s, pos + 1)
    }
}

/// The end of the maximal run of uppercase letters beginning at `pos`.
pub open spec fn upper_run_end(s: Seq<char>, pos: int) -> int
    decreases s.len() - pos
    when 0 <= pos <= s.len()
{
    if pos >= s.len() || !is_upper_char(s[pos]) {
        pos
    } else {
        upper_run_end(s, pos + 1)
    }
}

/// The index of the first `'"'` at or after `pos`, or the length when there
/// is none.
pub open spec fn close_quote_idx(s: Seq<char>, pos: int) -> int
    decreases s.len() - pos
    when 0 <= pos <= s.len()
{
    if pos >= s.len() {
        pos
    } else if s[pos] == '"' {
        pos
    } else {
        close_quote_idx(s, pos + 1)
    }
}

/// A token of one character at `pos`.
pub open spec fn punct_token(kind: TokenKind, pos: int) -> (TokenV, int) {
    (
        TokenV {
            kind: kind,
            start: pos as nat,
            end: (pos + 1) as nat,
            value: TokenValueV::Absent,
        },
        pos + 1,
    )
}

/// A token of two characters at `pos`.
pub open spec fn punct2_token(kind: TokenKind, pos: int) -> (TokenV, int) {
    (
        TokenV {
            kind: kind,
            start: pos as nat,
            end: (pos + 2) as nat,
            value: TokenValueV::Absent,
        },
        pos + 2,
    )
}

/// The token beginning at `pos` after skipping spaces, with the position
/// just after it; or the lexical fault found there. At the end of the text
/// the token is `Eof` and the position does not move.
pub open spec fn scan(s: Seq<char>, pos: int) -> Result<(TokenV, int), SynErrV>
    decreases s.len() - pos
    when 0 <= pos <= s.len()
{
    if pos >= s.len() {
        Result::Ok((
            TokenV {
                kind: TokenKind::Eof,
                start: pos as nat,
                end: pos as nat,
                value: TokenValueV::Absent,
            },
            pos,
        ))
    } else {
        let c = s[pos];
        if is_space_char(c) {
            scan(s, pos + 1)
        } else if c == '\n' {
            Result::Ok(punct_token(TokenKind::Eol, pos))
        } else if c == '"' {
            let close = close_quote_idx(s, pos + 1);
            if close < s.len() {
                Result::Ok((
                    TokenV {
                        kind: TokenKind::StringLiteral,
                        start: (pos + 1) as nat,
                        end: close as nat,
                        value: TokenValueV::Text(s.subrange(pos + 1, close)),
                    },
                    close + 1,
                ))
            } else {
                Result::Err(SynErrV::UnterminatedStringLiteral(s.len() as nat))
            }
        } else if is_digit_char(c) {
            let end = digit_run_end(s, pos);
            let v = dec_val(s.subrange(pos, end));
            if v > usize::MAX as nat {
                Result::Err(SynErrV::NumberLiteralOverflow(pos as nat))
            } else {
                Result::Ok((
                    TokenV {
                        kind: TokenKind::NumberLiteral,
                        start: pos as nat,
                        end: end as nat,
                        value: TokenValueV::Digit(v),
                    },
                    end,
                ))
            }
        } else if is_upper_char(c) {
            let end = upper_run_end(s, pos);
            Result::Ok((
                TokenV {
                    kind: TokenKind::Identifier,
                    start: pos as nat,
                    end: end as nat,
                    value: TokenValueV::Text(s.subrange(pos, end)),
                },
                end,
            ))
        } else if c == '+' {
            Result::Ok(punct_token(TokenKind::Add, pos))
        } else if c == '-' {
            Result::Ok(punct_token(TokenKind::Subtract, pos))
        } else if c == '*' {
            Result::Ok(punct_token(TokenKind::Multiply, pos))
        } else if c == '/' {
            Result::Ok(punct_token(TokenKind::Divide, pos))
        } else if c == '(' {
            Result::Ok(punct_token(TokenKind::LeftParen, pos))
        } else if c == ')' {
            Result::Ok(punct_token(TokenKind::RightParen, pos))
        } else if c == ',' {
            Result::Ok(punct_token(TokenKind::Comma, pos))
        } else if c == '=' {
            Result::Ok(punct_token(TokenKind::Equal, pos))
        } else if c == '>' {
            if pos + 1 < s.len() && s[pos + 1] == '=' {
                Result::Ok(punct2_token(TokenKind::GreaterThanOrEqual, pos))
            } else {
                Result::Ok(punct_token(TokenKind::GreaterThan, pos))
            }
        } else if c == '<' {
            if pos + 1 < s.len() && s[pos + 1] == '=' {
                Result::Ok(punct2_token(TokenKind::LessThanOrEqual, pos))
            } else if pos + 1 < s.len() && s[pos + 1] == '>' {
                Result::Ok(punct2_token(TokenKind::NotEqual, pos))
            } else {
                Result::Ok(punct_token(TokenKind::LessThan, pos))
            }
        } else {
            Result::Err(SynErrV::UnexpectedCharacter(c, pos as nat))
        }
    }
}

/// A digit run never moves backwards and never passes the end.
pub proof fn lemma_digit_run_bounds(s: Seq<char>, pos: int)
    requires
        0 <= pos <= s.len(),
    ensures
        pos <= digit_run_end(s, pos) <= s.len(),
    decreases s.len() - pos,
{
    if pos < s.len() && is_digit_char(s[pos]) {
        lemma_digit_run_bounds(s, pos + 1);
    }
}

/// A letter run never moves backwards and never passes the end.
pub proof fn lemma_upper_run_bounds(s: Seq<char>, pos: int)
    requires
        0 <= pos <= s.len(),
    ensures
        pos <= upper_run_end(s, pos) <= s.len(),
    decreases s.len() - pos,
{
    if pos < s.len() && is_upper_char(s[pos]) {
        lemma_upper_run_bounds(s, pos + 1);
    }
}

/// The closing quote search never moves backwards and never passes the end.
pub proof fn lemma_close_quote_bounds(s: Seq<char>, pos: int)
    requires
        0 <= pos <= s.len(),
    ensures
        pos <= close_quote_idx(s, pos) <= s.len(),
    decreases s.len() - pos,
{
    if pos < s.len() && s[pos] != '"' {
        lemma_close_quote_bounds(s, pos + 1);
    }
}

/// A scanned token sits between the scan's start and end positions, and
/// every token but end-of-input consumes at least one character.
pub proof fn lemma_scan_bounds(s: Seq<char>, pos: int)
    requires
        0 <= pos <= s.len(),
    ensures
        match scan(s, pos) {
            Result::Ok((t, p)) => pos <= p <= s.len() && t.start <= t.end && t.end as int <= p && (
            t.kind != TokenKind::Eof ==> p > pos),
            Result::Err(_) => true,
        },
    decreases s.len() - pos,
{
    if pos < s.len() {
        let c = s[pos];
        if is_space_char(c) {
            lemma_scan_bounds(s, pos + 1);
        } else if c == '"' {
            lemma_close_quote_bounds(s, pos + 1);
        } else if is_digit_char(c) {
            lemma_digit_run_bounds(s, pos + 1);
            assert(digit_run_end(s, pos) == digit_run_end(s, pos + 1));
        } else if is_upper_char(c) {
            lemma_upper_run_bounds(s, pos + 1);
            assert(upper_run_end(s, pos) == upper_run_end(s, pos + 1));
        }
    }
}

/// What a scanned token carries, by kind: numbers carry their value,
/// identifiers a nonempty run of uppercase letters, string literals their
/// text, everything else nothing.
pub proof fn lemma_scan_token_shape(s: Seq<char>, pos: int)
    requires
        0 <= pos <= s.len(),
    ensures
        match scan(s, pos) {
            Result::Ok((t, p)) => {
                &&& (t.kind == TokenKind::NumberLiteral ==> t.value is Digit)
                &&& (t.kind == TokenKind::StringLiteral ==> t.value is Text)
                &&& (t.kind == TokenKind::Identifier ==> (t.value matches TokenValueV::Text(name)
                    && name.len() >= 1 && (forall|k: int|
                    0 <= k < name.len() ==> is_upper_char(#[trigger] name[k]))))
                &&& (t.kind == TokenKind::Eol || t.kind == TokenKind::Eof ==> t.value is Absent)
            },
            Result::Err(_) => true,
        },
    decreases s.len() - pos,
{
    if pos < s.len() {
        let c = s[pos];
        if is_space_char(c) {
            lemma_scan_token_shape(s, pos + 1);
        } else if is_upper_char(c) {
            lemma_upper_run_all_upper(s, pos, pos);
            lemma_upper_run_bounds(s, pos + 1);
            assert(upper_run_end(s, pos) == upper_run_end(s, pos + 1));
        }
    }
}

/// Every character of an uppercase run is an uppercase letter.
proof fn lemma_upper_run_all_upper(s: Seq<char>, start: int, pos: int)
    requires
        0 <= start <= pos <= s.len(),
        forall|k: int| start <= k < pos ==> is_upper_char(#[trigger] s[k]),
    ensures
        forall|k: int|
            start <= k < upper_run_end(s, pos) ==> is_upper_char(#[trigger] s[k]),
        upper_run_end(s, pos) >= pos,
    decreases s.len() - pos,
{
    if pos < s.len() && is_upper_char(s[pos]) {
        lemma_upper_run_all_upper(s, start, pos + 1);
    }
}

/// How an executable scan result at `pos` relates to the specified one.
pub open spec fn scan_result_matches(
    s: Seq<char>,
    pos: int,
    r: Result<Token, SyntaxError>,
    new_pos: int,
) -> bool {
    match scan(s, pos) {
        Result::Ok((t, p)) => r matches Result::Ok(tok) && tok@ == t && new_pos == p,
        Result::Err(e) => r matches Result::Err(err) && err@ == e,
    }
}

/// Decimal digit test on one character.
fn is_digit(c: char) -> (r: bool)
    ensures
        r == is_digit_char(c),
{
    '0' <= c && c <= '9'
}

/// Uppercase letter test on one character.
fn is_upper(c: char) -> (r: bool)
    ensures
        r == is_upper_char(c),
{
    'A' <= c && c <= 'Z'
}

/// Scans the token beginning at `from`, returning it with the position just
/// after it. On a fault, the returned position is where scanning stopped.
fn scan_token(source: &str, from: usize) -> (r: (Result<Token, SyntaxError>, usize))
    requires
        from as int <= source@.len(),
    ensures
        from <= r.1,
        r.1 as int <= source@.len(),
        scan_result_matches(source@, from as int, r.0, r.1 as int),
{
    let len = source.unicode_len();
    let mut i = from;
    while i < len && source.get_char(i) == ' '
        invariant
            from <= i <= len,
            len == source@.len(),
            scan(source@, from as int) == scan(source@, i as int),
        decreases len - i,
    {
        i = i + 1;
    }
    if i >= len {
        return (
            (
                Result::Ok(
                    Token {
                        kind: TokenKind::Eof,
                        span: Span { start: i, end: i },
                        value: TokenValue::Absent,
                    },
                ),
                i,
            )
        );
    }
    let c = source.get_char(i);
    if c == '\n' {
        (
            (
                Result::Ok(
                    Token {
                        kind: TokenKind::Eol,
                        span: Span { start: i, end: i + 1 },
                        value: TokenValue::Absent,
                    },
                ),
                i + 1,
            )
        )
    } else if c == '"' {
        let mut j = i + 1;
        while j < len && source.get_char(j) != '"'
            invariant
                i + 1 <= j <= len,
                len == source@.len(),
                close_quote_idx(source@, i + 1 as int) == close_quote_idx(source@, j as int),
            decreases len - j,
        {
            j = j + 1;
        }
        if j >= len {
            ((Result::Err(SyntaxError::UnterminatedStringLiteral(len)), len))
        } else {
            let content = source.substring_char(i + 1, j);
            (
                (
                    Result::Ok(
                        Token {
                            kind: TokenKind::StringLiteral,
                            span: Span { start: i + 1, end: j },
                            value: TokenValue::Text(content.to_owned()),
                        },
                    ),
                    j + 1,
                )
            )
        }
    } else if '0' <= c && c <= '9' {
        let mut j = i;
        let mut value: usize = 0;
        let mut over = false;
        let limit: usize = usize::MAX / 10;
        let rem: usize = usize::MAX % 10;
        while j < len && is_digit(source.get_char(j))
            invariant
                i <= j <= len,
                len == source@.len(),
                digit_run_end(source@, i as int) == digit_run_end(source@, j as int),
                forall|k: int| i <= k < j ==> is_digit_char(source@[k]),
                limit == usize::MAX / 10,
                rem == usize::MAX % 10,
                !over ==> value as nat == dec_val(source@.subrange(i as int, j as int)),
                over ==> dec_val(source@.subrange(i as int, j as int)) > usize::MAX as nat,
            decreases len - j,
        {
            let d_char = source.get_char(j);
            let d = (d_char as u32 - '0' as u32) as usize;
            proof {
                assert(source@.subrange(i as int, j + 1 as int).drop_last()
                    =~= source@.subrange(i as int, j as int));
                assert(source@.subrange(i as int, j + 1 as int).last() == source@[j as int]);
            }
            if over || value > limit || (value == limit && d > rem) {
                proof {
                    if !over {
                        assert(value * 10 + d > usize::MAX);
                    }
                    assert(dec_val(source@.subrange(i as int, j + 1 as int))
                        == dec_val(source@.subrange(i as int, j as int)) * 10
                            + digit_char_val(source@[j as int]));
                }
                over = true;
            } else {
                proof {
                    assert(value * 10 + d <= usize::MAX);
                }
                value = value * 10 + d;
            }
            j = j + 1;
        }
        proof {
            assert(digit_run_end(source@, i as int) == j as int);
        }
        if over {
            ((Result::Err(SyntaxError::NumberLiteralOverflow(i)), j))
        } else {
            (
                (
                    Result::Ok(
                        Token {
                            kind: TokenKind::NumberLiteral,
                            span: Span { start: i, end: j },
                            value: TokenValue::Digit(value),
                        },
                    ),
                    j,
                )
            )
        }
    } else if 'A' <= c && c <= 'Z' {
        let mut j = i;
        while j < len && is_upper(source.get_char(j))
            invariant
                i <= j <= len,
                len == source@.len(),
                upper_run_end(source@, i as int) == upper_run_end(source@, j as int),
            decreases len - j,
        {
            j = j + 1;
        }
        let name = source.substring_char(i, j);
        (
            (
                Result::Ok(
                    Token {
                        kind: TokenKind::Identifier,
                        span: Span { start: i, end: j },
                        value: TokenValue::Text(name.to_owned()),
                    },
                ),
                j,
            )
        )
    } else if c == '+' || c == '-' || c == '*' || c == '/' || c == '(' || c == ')' || c == ',' || c
        == '=' {
        let kind = if c == '+' {
            TokenKind::Add
        } else if c == '-' {
            TokenKind::Subtract
        } else if c == '*' {
            TokenKind::Multiply
        } else if c == '/' {
            TokenKind::Divide
        } else if c == '(' {
            TokenKind::LeftParen
        } else if c == ')' {
            TokenKind::RightParen
        } else if c == ',' {
            TokenKind::Comma
        } else {
            TokenKind::Equal
        };
        (
            (
                Result::Ok(
                    Token {
                        kind,
                        span: Span { start: i, end: i + 1 },
                        value: TokenValue::Absent,
                    },
                ),
                i + 1,
            )
        )
    } else if c == '>' {
        if i + 1 < len && source.get_char(i + 1) == '=' {
            (
                (
                    Result::Ok(
                        Token {
                            kind: TokenKind::GreaterThanOrEqual,
                            span: Span { start: i, end: i + 2 },
                            value: TokenValue::Absent,
                        },
                    ),
                    i + 2,
                )
            )
        } else {
            (
                (
                    Result::Ok(
                        Token {
                            kind: TokenKind::GreaterThan,
                            span: Span { start: i, end: i + 1 },
                            value: TokenValue::Absent,
                        },
                    ),
                    i + 1,
                )
            )
        }
    } else if c == '<' {
        if i + 1 < len && source.get_char(i + 1) == '=' {
            (
                (
                    Result::Ok(
                        Token {
                            kind: TokenKind::LessThanOrEqual,
                            span: Span { start: i, end: i + 2 },
                            value: TokenValue::Absent,
                        },
                    ),
                    i + 2,
                )
            )
        } else if i + 1 < len && source.get_char(i + 1) == '>' {
            (
                (
                    Result::Ok(
                        Token {
                            kind: TokenKind::NotEqual,
                            span: Span { start: i, end: i + 2 },
                            value: TokenValue::Absent,
                        },
                    ),
                    i + 2,
                )
            )
        } else {
            (
                (
                    Result::Ok(
                        Token {
                            kind: TokenKind::LessThan,
                            span: Span { start: i, end: i + 1 },
                            value: TokenValue::Absent,
                        },
                    ),
                    i + 1,
                )
            )
        }
    } else {
        ((Result::Err(SyntaxError::UnexpectedCharacter(c, i)), i))
    }
}

/// The lazy token stream over a piece of source text, with one token of
/// lookahead.
pub struct Lexer<'a> {
    source: &'a str,
    pos: usize,
    next_token: Result<Token, SyntaxError>,
    token_pos: Ghost<int>,
}

impl<'a> Lexer<'a> {
    /// The text being tokenized.
    pub closed spec fn src(&self) -> Seq<char> {
        self.source@
    }

    /// The position at which the buffered (peekable) token begins.
    pub closed spec fn start_pos(&self) -> int {
        self.token_pos@
    }

    /// The position of the first character not yet consumed from the text:
    /// just after the buffered token.
    pub closed spec fn cur_pos(&self) -> int {
        self.pos as int
    }

    /// The scanner's invariant: the buffered token is the one that [`scan`]
    /// gives at `start_pos`, and consumption stopped just after it.
    pub closed spec fn wf(&self) -> bool {
        &&& 0 <= self.token_pos@ <= self.source@.len()
        &&& self.token_pos@ <= self.pos as int <= self.source@.len()
        &&& scan_result_matches(self.source@, self.token_pos@, self.next_token, self.pos as int)
    }

    /// The buffered token's scan never looks before its start.
    pub proof fn lemma_positions(&self)
        requires
            self.wf(),
        ensures
            0 <= self.start_pos() <= self.cur_pos() <= self.src().len(),
    {
    }

    /// When the buffered token scanned cleanly, consumption stopped exactly
    /// at its end.
    pub proof fn lemma_buffered(&self)
        requires
            self.wf(),
        ensures
            match scan(self.src(), self.start_pos()) {
                Result::Ok((_t, p)) => p == self.cur_pos(),
                Result::Err(_e) => true,
            },
    {
    }

    /// Starts a token stream at the beginning of `source`.
    pub fn new(source: &'a str) -> (r: Self)
        ensures
            r.wf(),
            r.src() == source@,
            r.start_pos() == 0,
            0 <= r.start_pos() <= r.cur_pos() <= r.src().len(),
    {
        let (tok, p) = scan_token(source, 0);
        Lexer { source, pos: p, next_token: tok, token_pos: Ghost(0) }
    }

    /// Consumes and returns the buffered token, advancing the stream. After
    /// a fault the stream does not advance past the faulting position.
    pub fn next(&mut self) -> (r: Result<Token, SyntaxError>)
        requires
            old(self).wf(),
        ensures
            final(self).wf(),
            final(self).src() == old(self).src(),
            scan_result_matches(
                old(self).src(),
                old(self).start_pos(),
                r,
                final(self).start_pos(),
            ),
            scan(old(self).src(), old(self).start_pos()) is Ok ==> final(self).start_pos() == old(
                self,
            ).cur_pos(),
            final(self).cur_pos() >= old(self).cur_pos(),
            final(self).start_pos() >= old(self).start_pos(),
            0 <= final(self).start_pos() <= final(self).cur_pos() <= final(self).src().len(),
            match scan(old(self).src(), old(self).start_pos()) {
                Result::Ok((t, p)) => t.kind != TokenKind::Eof ==> final(self).start_pos() > old(
                    self,
                ).start_pos(),
                Result::Err(_) => true,
            },
    {
        proof {
            lemma_scan_bounds(self.source@, self.token_pos@);
        }
        let (fresh_tok, fresh_pos) = scan_token(self.source, self.pos);
        let mut out = fresh_tok;
        core::mem::swap(&mut self.next_token, &mut out);
        self.token_pos = Ghost(self.pos as int);
        self.pos = fresh_pos;
        out
    }

    /// Returns the buffered token without consuming it.
    pub fn peek(&self) -> (r: Result<Token, SyntaxError>)
        requires
            self.wf(),
        ensures
            match scan(self.src(), self.start_pos()) {
                Result::Ok((t, p)) => (r matches Result::Ok(tok) && tok@ == t && p
                    == self.cur_pos()),
                Result::Err(e) => r matches Result::Err(err) && err@ == e,
            },
    {
        match &self.next_token {
            Result::Ok(t) => Result::Ok(t.duplicate()),
            Result::Err(e) => Result::Err(e.duplicate()),
        }
    }

    /// The number of characters consumed so far: everything up to and with
    /// the buffered token.
    pub fn offset(&self) -> (r: usize)
        ensures
            r as int == self.cur_pos(),
    {
        self.pos
    }
}

} // verus!
