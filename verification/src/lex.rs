use crate::error::{expected_msg, spec_eof_err, spec_eof_name, spec_expected_msg, ErrView,
    ParseError};
use crate::span::{Span, SpanView};
use crate::token::Token;
use vstd::prelude::*;

verus! {

// Byte values of the characters the lexer singles out.
pub const SPACE: u8 = 32;
pub const TAB: u8 = 9;
pub const CR: u8 = 13;
pub const LF: u8 = 10;
pub const SLASH: u8 = 47;
pub const QUOTE: u8 = 34;
pub const BACKSLASH: u8 = 92;
pub const UNDERSCORE: u8 = 95;
pub const DASH: u8 = 45;
pub const DIGIT_0: u8 = 48;
pub const DIGIT_9: u8 = 57;
pub const UPPER_A: u8 = 65;
pub const UPPER_Z: u8 = 90;
pub const LOWER_A: u8 = 97;
pub const LOWER_Z: u8 = 122;
pub const LOWER_N: u8 = 110;
pub const LOWER_T: u8 = 116;
pub const LOWER_R: u8 = 114;

// ---------------------------------------------------------------------------
// Lexical classes
// ---------------------------------------------------------------------------

/// Bytes that count as whitespace: space, tab, carriage return, newline.
pub open spec fn is_ws_byte(b: u8) -> bool {
    b == SPACE || b == TAB || b == CR || b == LF
}

/// Bytes that may start a bare identifier.
pub open spec fn is_id_start_byte(b: u8) -> bool {
    (LOWER_A <= b && b <= LOWER_Z) || (UPPER_A <= b && b <= UPPER_Z) || b == UNDERSCORE
}

/// Bytes that may continue a bare identifier.
pub open spec fn is_id_cont_byte(b: u8) -> bool {
    is_id_start_byte(b) || (DIGIT_0 <= b && b <= DIGIT_9) || b == DASH
}

/// Bytes that may follow a backslash inside a string literal.
pub open spec fn is_escape_byte(b: u8) -> bool {
    b == QUOTE || b == BACKSLASH || b == LOWER_N || b == LOWER_T || b == LOWER_R
}

/// The byte an escape sequence `\b` stands for. Unknown escapes never pass
/// the scanner; for them this returns the byte itself.
pub open spec fn escape_value(b: u8) -> u8 {
    if b == LOWER_N {
        LF
    } else if b == LOWER_T {
        TAB
    } else if b == LOWER_R {
        CR
    } else {
        b
    }
}

// ---------------------------------------------------------------------------
// Maximal-run scanners
// ---------------------------------------------------------------------------

/// End of the maximal run of whitespace bytes starting at `i`.
pub open spec fn ws_end(s: Seq<u8>, i: int) -> int
    decreases s.len() - i,
    when 0 <= i <= s.len()
{
    if i < s.len() && is_ws_byte(s[i]) {
        ws_end(s, i + 1)
    } else {
        i
    }
}

/// End of a line comment's text: everything up to, and not including, the
/// next newline (or the end of the input).
pub open spec fn comment_end(s: Seq<u8>, i: int) -> int
    decreases s.len() - i,
    when 0 <= i <= s.len()
{
    if i < s.len() && s[i] != LF {
        comment_end(s, i + 1)
    } else {
        i
    }
}

/// End of the maximal run of identifier bytes starting at `i`.
pub open spec fn id_end(s: Seq<u8>, i: int) -> int
    decreases s.len() - i,
    when 0 <= i <= s.len()
{
    if i < s.len() && is_id_cont_byte(s[i]) {
        id_end(s, i + 1)
    } else {
        i
    }
}

// ---------------------------------------------------------------------------
// String literals
// ---------------------------------------------------------------------------

/// The error for a string literal opened at `start` and never closed.
pub open spec fn unterminated_err(s: Seq<u8>, start: int) -> ErrView {
    ErrView {
        span: SpanView { start: start, end: s.len() as int },
        msg: spec_expected_msg("a closing quote"@, spec_eof_name()),
    }
}

/// The error for an invalid escape sequence beginning at `at`.
pub open spec fn bad_escape_err(s: Seq<u8>, at: int) -> ErrView {
    ErrView {
        span: SpanView {
            start: at,
            end: if at + 2 <= s.len() { at + 2 } else { s.len() as int },
        },
        msg: spec_expected_msg("a valid escape character"@, "an invalid escape"@),
    }
}

/// Scans the body of a string literal opened at `start`, with the cursor at
/// `j` (just past the opening quote). Returns the offset one past the
/// closing quote, or the lexical error the literal runs into.
pub open spec fn str_scan(s: Seq<u8>, start: int, j: int) -> Result<int, ErrView>
    decreases s.len() - j,
    when 0 <= j <= s.len()
{
    if j >= s.len() {
        Err(unterminated_err(s, start))
    } else if s[j] == QUOTE {
        Ok(j + 1)
    } else if s[j] == BACKSLASH {
        if j + 1 < s.len() && is_escape_byte(s[j + 1]) {
            str_scan(s, start, j + 2)
        } else {
            Err(bad_escape_err(s, j))
        }
    } else {
        str_scan(s, start, j + 1)
    }
}

/// The decoded content of the bytes in `[j, end)`, with escape sequences
/// resolved. `end` is the offset of the closing quote.
pub open spec fn decode_str(s: Seq<u8>, j: int, end: int) -> Seq<u8>
    decreases end - j,
    when j <= end <= s.len() && 0 <= j
{
    if j >= end {
        Seq::empty()
    } else if s[j] == BACKSLASH && j + 1 < end {
        seq![escape_value(s[j + 1])] + decode_str(s, j + 2, end)
    } else {
        seq![s[j]] + decode_str(s, j + 1, end)
    }
}

// ---------------------------------------------------------------------------
// Keywords
// ---------------------------------------------------------------------------

pub open spec fn kw_extend() -> Seq<u8> {
    seq![101, 120, 116, 101, 110, 100]
}

pub open spec fn kw_provide() -> Seq<u8> {
    seq![112, 114, 111, 118, 105, 100, 101]
}

pub open spec fn kw_require() -> Seq<u8> {
    seq![114, 101, 113, 117, 105, 114, 101]
}

pub open spec fn kw_implement() -> Seq<u8> {
    seq![105, 109, 112, 108, 101, 109, 101, 110, 116]
}

pub open spec fn kw_with() -> Seq<u8> {
    seq![119, 105, 116, 104]
}

/// The token an identifier-shaped word lexes to: one of the five keywords,
/// or a bare identifier.
pub open spec fn word_token(w: Seq<u8>) -> Token {
    if w == kw_extend() {
        Token::Extend
    } else if w == kw_provide() {
        Token::Provide
    } else if w == kw_require() {
        Token::Require
    } else if w == kw_implement() {
        Token::Implement
    } else if w == kw_with() {
        Token::With
    } else {
        Token::Id
    }
}

// ---------------------------------------------------------------------------
// The raw token at a position
// ---------------------------------------------------------------------------

/// The error for a byte no token may begin with.
pub open spec fn unrecognized_err(i: int) -> ErrView {
    ErrView {
        span: SpanView { start: i, end: i + 1 },
        msg: spec_expected_msg("a token"@, "an unrecognized character"@),
    }
}

/// The raw token beginning at offset `i` of `s`: its kind and its end
/// offset, or the lexical error at that position.
pub open spec fn lex_at(s: Seq<u8>, i: int) -> Result<(Token, int), ErrView>
    recommends
        0 <= i < s.len(),
{
    let b = s[i];
    if is_ws_byte(b) {
        Ok((Token::Whitespace, ws_end(s, i)))
    } else if b == SLASH {
        if i + 1 < s.len() && s[i + 1] == SLASH {
            Ok((Token::Comment, comment_end(s, i + 2)))
        } else {
            Err(unrecognized_err(i))
        }
    } else if b == QUOTE {
        match str_scan(s, i, i + 1) {
            Ok(e) => Ok((Token::StrLit, e)),
            Err(ev) => Err(ev),
        }
    } else if is_id_start_byte(b) {
        let e = id_end(s, i);
        Ok((word_token(s.subrange(i, e)), e))
    } else {
        Err(unrecognized_err(i))
    }
}

/// The first token at or after offset `i` that is neither whitespace nor a
/// comment: its kind, start and end, or `None` at the end of the input, or
/// the first lexical error on the way.
pub open spec fn filt(s: Seq<u8>, i: int) -> Result<Option<(Token, int, int)>, ErrView>
    decreases s.len() - i,
    when 0 <= i <= s.len()
{
    if i >= s.len() {
        Ok(None)
    } else {
        match lex_at(s, i) {
            Ok((t, e)) => if t == Token::Whitespace || t == Token::Comment {
                if i < e <= s.len() {
                    filt(s, e)
                } else {
                    Ok(None)
                }
            } else {
                Ok(Some((t, i, e)))
            },
            Err(ev) => Err(ev),
        }
    }
}

// ---------------------------------------------------------------------------
// Bounds lemmas
// ---------------------------------------------------------------------------

pub proof fn lemma_ws_end_bounds(s: Seq<u8>, i: int)
    requires
        0 <= i <= s.len(),
    ensures
        i <= ws_end(s, i) <= s.len(),
    decreases s.len() - i,
{
    if i < s.len() && is_ws_byte(s[i]) {
        lemma_ws_end_bounds(s, i + 1);
    }
}

pub proof fn lemma_comment_end_bounds(s: Seq<u8>, i: int)
    requires
        0 <= i <= s.len(),
    ensures
        i <= comment_end(s, i) <= s.len(),
    decreases s.len() - i,
{
    if i < s.len() && s[i] != LF {
        lemma_comment_end_bounds(s, i + 1);
    }
}

pub proof fn lemma_id_end_bounds(s: Seq<u8>, i: int)
    requires
        0 <= i <= s.len(),
    ensures
        i <= id_end(s, i) <= s.len(),
    decreases s.len() - i,
{
    if i < s.len() && is_id_cont_byte(s[i]) {
        lemma_id_end_bounds(s, i + 1);
    }
}

pub proof fn lemma_str_scan_bounds(s: Seq<u8>, start: int, j: int)
    requires
        0 <= j <= s.len(),
        str_scan(s, start, j) is Ok,
    ensures
        j < str_scan(s, start, j)->Ok_0 <= s.len(),
    decreases s.len() - j,
{
    if j >= s.len() {
    } else if s[j] == QUOTE {
    } else if s[j] == BACKSLASH {
        if j + 1 < s.len() && is_escape_byte(s[j + 1]) {
            lemma_str_scan_bounds(s, start, j + 2);
        }
    } else {
        lemma_str_scan_bounds(s, start, j + 1);
    }
}

/// A successfully lexed token is never empty and stays inside the buffer.
pub proof fn lemma_lex_at_bounds(s: Seq<u8>, i: int)
    requires
        0 <= i < s.len(),
        lex_at(s, i) is Ok,
    ensures
        i < lex_at(s, i)->Ok_0.1 <= s.len(),
{
    let b = s[i];
    if is_ws_byte(b) {
        lemma_ws_end_bounds(s, i + 1);
    } else if b == SLASH {
        if i + 1 < s.len() && s[i + 1] == SLASH {
            lemma_comment_end_bounds(s, i + 2);
        }
    } else if b == QUOTE {
        lemma_str_scan_bounds(s, i, i + 1);
    } else if is_id_start_byte(b) {
        lemma_id_end_bounds(s, i + 1);
    }
}

/// A filtered token lies inside the buffer, beyond the scan's starting
/// point, is a syntactic token (never whitespace or a comment), and is
/// exactly the raw token lexed at its own start offset.
pub proof fn lemma_filt_bounds(s: Seq<u8>, i: int)
    requires
        0 <= i <= s.len(),
    ensures
        filt(s, i) matches Ok(Some((t, st, en))) ==> {
            &&& i <= st < en <= s.len()
            &&& t != Token::Whitespace
            &&& t != Token::Comment
            &&& lex_at(s, st) == Ok::<(Token, int), ErrView>((t, en))
        },
    decreases s.len() - i,
{
    if i < s.len() {
        match lex_at(s, i) {
            Ok((t, e)) => {
                lemma_lex_at_bounds(s, i);
                if t == Token::Whitespace || t == Token::Comment {
                    lemma_filt_bounds(s, e);
                }
            },
            Err(_) => {},
        }
    }
}

/// A string-literal token holds at least its two quotes.
pub proof fn lemma_strlit_shape(s: Seq<u8>, i: int)
    requires
        0 <= i < s.len(),
        lex_at(s, i) matches Ok((Token::StrLit, _)),
    ensures
        i + 2 <= lex_at(s, i)->Ok_0.1 <= s.len(),
{
    assert(s[i] == QUOTE);
    lemma_str_scan_bounds(s, i, i + 1);
}

// ---------------------------------------------------------------------------
// Executable byte classifiers
// ---------------------------------------------------------------------------

fn is_ws(b: u8) -> (r: bool)
    ensures
        r == is_ws_byte(b),
{
    b == SPACE || b == TAB || b == CR || b == LF
}

fn is_id_start(b: u8) -> (r: bool)
    ensures
        r == is_id_start_byte(b),
{
    (LOWER_A <= b && b <= LOWER_Z) || (UPPER_A <= b && b <= UPPER_Z) || b == UNDERSCORE
}

fn is_id_cont(b: u8) -> (r: bool)
    ensures
        r == is_id_cont_byte(b),
{
    is_id_start(b) || (DIGIT_0 <= b && b <= DIGIT_9) || b == DASH
}

fn is_escape(b: u8) -> (r: bool)
    ensures
        r == is_escape_byte(b),
{
    b == QUOTE || b == BACKSLASH || b == LOWER_N || b == LOWER_T || b == LOWER_R
}

fn escape_byte(b: u8) -> (r: u8)
    ensures
        r == escape_value(b),
{
    if b == LOWER_N {
        LF
    } else if b == LOWER_T {
        TAB
    } else if b == LOWER_R {
        CR
    } else {
        b
    }
}

/// Decides whether the word `src[st..en]` is one of the five keywords.
fn classify_word(src: &[u8], st: usize, en: usize) -> (t: Token)
    requires
        st <= en <= src@.len(),
    ensures
        t == word_token(src@.subrange(st as int, en as int)),
{
    let ghost w = src@.subrange(st as int, en as int);
    let n = en - st;
    if n == 6 && src[st] == 101 && src[st + 1] == 120 && src[st + 2] == 116 && src[st + 3] == 101
        && src[st + 4] == 110 && src[st + 5] == 100 {
        proof {
            assert(w =~= kw_extend());
        }
        Token::Extend
    } else if n == 7 && src[st] == 112 && src[st + 1] == 114 && src[st + 2] == 111
        && src[st + 3] == 118 && src[st + 4] == 105 && src[st + 5] == 100 && src[st + 6] == 101 {
        proof {
            assert(w =~= kw_provide());
        }
        Token::Provide
    } else if n == 7 && src[st] == 114 && src[st + 1] == 101 && src[st + 2] == 113
        && src[st + 3] == 117 && src[st + 4] == 105 && src[st + 5] == 114 && src[st + 6] == 101 {
        proof {
            assert(w =~= kw_require());
        }
        Token::Require
    } else if n == 9 && src[st] == 105 && src[st + 1] == 109 && src[st + 2] == 112
        && src[st + 3] == 108 && src[st + 4] == 101 && src[st + 5] == 109 && src[st + 6] == 101
        && src[st + 7] == 110 && src[st + 8] == 116 {
        proof {
            assert(w =~= kw_implement());
        }
        Token::Implement
    } else if n == 4 && src[st] == 119 && src[st + 1] == 105 && src[st + 2] == 116
        && src[st + 3] == 104 {
        proof {
            assert(w =~= kw_with());
        }
        Token::With
    } else {
        proof {
            assert(w.len() == n);
            assert(w != kw_extend());
            assert(w != kw_provide());
            assert(w != kw_require());
            assert(w != kw_implement());
            assert(w != kw_with());
        }
        Token::Id
    }
}

// ---------------------------------------------------------------------------
// The tokenizer
// ---------------------------------------------------------------------------

/// A cursor into the source buffer that produces raw tokens on demand.
/// It is `Copy`, so a caller can duplicate it for non-destructive lookahead
/// and commit the copy back only when a speculative read succeeds.
#[derive(Clone, Copy)]
pub struct Tokenizer<'a> {
    pub src: &'a [u8],
    pub pos: usize,
}

impl<'a> Tokenizer<'a> {
    /// The cursor never points past the end of the buffer.
    pub open spec fn wf(self) -> bool {
        self.pos <= self.src@.len()
    }

    pub fn new(src: &'a [u8]) -> (t: Tokenizer<'a>)
        ensures
            t.src@ == src@,
            t.pos == 0,
            t.wf(),
    {
        Tokenizer { src, pos: 0 }
    }

    /// The raw text a span points at.
    pub fn get_span(&self, span: Span) -> (r: &'a [u8])
        requires
            span.start <= span.end,
            span.end <= self.src@.len(),
        ensures
            r@ == self.src@.subrange(span.start as int, span.end as int),
    {
        &self.src[span.start..span.end]
    }

    /// Produces the raw token at the cursor (whitespace and comments
    /// included), or `None` at the end of the input, or the lexical error
    /// at the cursor; on success the cursor moves past the token.
    #[verifier::loop_isolation(false)]
    pub fn next_raw(&mut self) -> (r: Result<Option<(Span, Token)>, ParseError>)
        requires
            old(self).wf(),
        ensures
            final(self).wf(),
            final(self).src@ == old(self).src@,
            old(self).pos == old(self).src@.len() ==> (r matches Ok(o) && o is None
                && final(self).pos == old(self).pos),
            old(self).pos < old(self).src@.len() ==> match lex_at(
                old(self).src@,
                old(self).pos as int,
            ) {
                Ok((t, e)) => {
                    &&& r matches Ok(o)
                    &&& o matches Some(p)
                    &&& p.0.start == old(self).pos
                    &&& p.0.end == e
                    &&& p.1 == t
                    &&& final(self).pos == e
                },
                Err(ev) => {
                    &&& r matches Err(pe)
                    &&& pe@ == ev
                    &&& final(self).pos == old(self).pos
                },
            },
    {
        let n = self.src.len();
        if self.pos >= n {
            return Ok(None);
        }
        let start = self.pos;
        let b = self.src[start];
        if is_ws(b) {
            let mut j = start + 1;
            while j < n && is_ws(self.src[j])
                invariant
                    start <= j <= n,
                    ws_end(self.src@, start as int) == ws_end(self.src@, j as int),
                decreases n - j,
            {
                j += 1;
            }
            self.pos = j;
            Ok(Some((Span { start, end: j }, Token::Whitespace)))
        } else if b == SLASH {
            if start + 1 < n && self.src[start + 1] == SLASH {
                let mut j = start + 2;
                while j < n && self.src[j] != LF
                    invariant
                        start + 2 <= j <= n,
                        comment_end(self.src@, (start + 2) as int) == comment_end(
                            self.src@,
                            j as int,
                        ),
                    decreases n - j,
                {
                    j += 1;
                }
                self.pos = j;
                Ok(Some((Span { start, end: j }, Token::Comment)))
            } else {
                Err(ParseError {
                    span: Span { start, end: start + 1 },
                    msg: expected_msg("a token", "an unrecognized character"),
                })
            }
        } else if b == QUOTE {
            let mut j = start + 1;
            loop
                invariant
                    self.src@ == old(self).src@,
                    self.pos == old(self).pos,
                    start + 1 <= j <= n,
                    str_scan(self.src@, start as int, (start + 1) as int) == str_scan(
                        self.src@,
                        start as int,
                        j as int,
                    ),
                decreases n - j,
            {
                if j >= n {
                    return Err(ParseError {
                        span: Span { start, end: n },
                        msg: expected_msg("a closing quote", "end of input"),
                    });
                }
                let c = self.src[j];
                if c == QUOTE {
                    self.pos = j + 1;
                    return Ok(Some((Span { start, end: j + 1 }, Token::StrLit)));
                } else if c == BACKSLASH {
                    if j + 1 < n && is_escape(self.src[j + 1]) {
                        j += 2;
                    } else {
                        let e = if j + 1 < n {
                            j + 2
                        } else {
                            n
                        };
                        return Err(ParseError {
                            span: Span { start: j, end: e },
                            msg: expected_msg("a valid escape character", "an invalid escape"),
                        });
                    }
                } else {
                    j += 1;
                }
            }
        } else if is_id_start(b) {
            let mut j = start + 1;
            while j < n && is_id_cont(self.src[j])
                invariant
                    start + 1 <= j <= n,
                    id_end(self.src@, start as int) == id_end(self.src@, j as int),
                decreases n - j,
            {
                j += 1;
            }
            let t = classify_word(self.src, start, j);
            self.pos = j;
            Ok(Some((Span { start, end: j }, t)))
        } else {
            Err(ParseError {
                span: Span { start, end: start + 1 },
                msg: expected_msg("a token", "an unrecognized character"),
            })
        }
    }

    /// Produces the next syntactic token, skipping whitespace and comments:
    /// the filtered view of the input that all syntax-level parsing reads.
    #[verifier::loop_isolation(false)]
    pub fn next(&mut self) -> (r: Result<Option<(Span, Token)>, ParseError>)
        requires
            old(self).wf(),
        ensures
            final(self).wf(),
            final(self).src@ == old(self).src@,
            match filt(old(self).src@, old(self).pos as int) {
                Ok(o) => match o {
                    None => r matches Ok(x) && x is None,
                    Some((t, st, en)) => {
                        &&& r matches Ok(x)
                        &&& x matches Some(p)
                        &&& p.0.start == st
                        &&& p.0.end == en
                        &&& p.1 == t
                        &&& final(self).pos == en
                        &&& old(self).pos <= st < en <= old(self).src@.len()
                        &&& t != Token::Whitespace
                        &&& t != Token::Comment
                    },
                },
                Err(ev) => r matches Err(pe) && pe@ == ev,
            },
    {
        loop
            invariant
                self.wf(),
                self.src@ == old(self).src@,
                old(self).pos <= self.pos,
                filt(old(self).src@, old(self).pos as int) == filt(self.src@, self.pos as int),
            decreases self.src@.len() - self.pos,
        {
            let ghost pos0 = self.pos as int;
            match self.next_raw() {
                Err(e) => {
                    return Err(e);
                },
                Ok(None) => {
                    return Ok(None);
                },
                Ok(Some((sp, t))) => {
                    proof {
                        lemma_lex_at_bounds(self.src@, pos0);
                        lemma_filt_bounds(self.src@, pos0);
                    }
                    match t {
                        Token::Whitespace => {},
                        Token::Comment => {},
                        _ => {
                            return Ok(Some((sp, t)));
                        },
                    }
                },
            }
        }
    }

    /// Consumes the next syntactic token, which must be of kind `t`;
    /// reports what was found instead otherwise.
    pub fn expect(&mut self, t: Token) -> (r: Result<Span, ParseError>)
        requires
            old(self).wf(),
        ensures
            final(self).wf(),
            final(self).src@ == old(self).src@,
            match expect_at(old(self).src@, old(self).pos as int, t) {
                Ok((sv, e)) => {
                    &&& r matches Ok(sp)
                    &&& sp@ == sv
                    &&& final(self).pos == e
                    &&& old(self).pos <= sv.start < sv.end <= old(self).src@.len()
                    &&& sv.end == e
                },
                Err(ev) => r matches Err(pe) && pe@ == ev,
            },
    {
        let n = self.src.len();
        match self.next()? {
            None => Err(ParseError {
                span: Span { start: n, end: n },
                msg: expected_msg(t.describe(), "end of input"),
            }),
            Some((sp, t2)) => {
                if t2 == t {
                    Ok(sp)
                } else {
                    Err(ParseError { span: sp, msg: expected_msg(t.describe(), t2.describe()) })
                }
            },
        }
    }

    /// The decoded content of the string literal a `StrLit` token's span
    /// points at, with its escape sequences resolved.
    pub fn parse_str(&self, span: Span) -> (r: Vec<u8>)
        requires
            span.start + 2 <= span.end,
            span.end <= self.src@.len(),
        ensures
            r@ == decode_str(self.src@, span.start + 1, span.end - 1),
    {
        let ghost s = self.src@;
        let end = span.end - 1;
        let mut j = span.start + 1;
        let mut out: Vec<u8> = Vec::new();
        while j < end
            invariant
                span.start + 1 <= j <= end,
                end == span.end - 1,
                span.end <= s.len(),
                s == self.src@,
                decode_str(s, span.start + 1, end as int) == out@ + decode_str(
                    s,
                    j as int,
                    end as int,
                ),
            decreases end - j,
        {
            let ghost out0 = out@;
            let ghost j0 = j as int;
            let c = self.src[j];
            if c == BACKSLASH && j + 1 < end {
                out.push(escape_byte(self.src[j + 1]));
                proof {
                    assert(decode_str(s, j0, end as int) == seq![escape_value(s[j0 + 1])]
                        + decode_str(s, j0 + 2, end as int));
                    assert(out@ =~= out0 + seq![escape_value(s[j0 + 1])]);
                    assert(out0 + (seq![escape_value(s[j0 + 1])] + decode_str(
                        s,
                        j0 + 2,
                        end as int,
                    )) =~= out@ + decode_str(s, j0 + 2, end as int));
                }
                j += 2;
            } else {
                out.push(c);
                proof {
                    assert(decode_str(s, j0, end as int) == seq![s[j0]] + decode_str(
                        s,
                        j0 + 1,
                        end as int,
                    ));
                    assert(out@ =~= out0 + seq![s[j0]]);
                    assert(out0 + (seq![s[j0]] + decode_str(s, j0 + 1, end as int)) =~= out@
                        + decode_str(s, j0 + 1, end as int));
                }
                j += 1;
            }
        }
        proof {
            assert(decode_str(s, j as int, end as int) == Seq::<u8>::empty());
            assert(out@ + Seq::<u8>::empty() =~= out@);
        }
        out
    }
}

/// The next syntactic token, which the caller demands be of kind `t`: its
/// span and the cursor position after it, or the uniform error naming `t`
/// and what was found instead.
pub open spec fn expect_at(s: Seq<u8>, i: int, t: Token) -> Result<(SpanView, int), ErrView> {
    match filt(s, i) {
        Err(ev) => Err(ev),
        Ok(None) => Err(spec_eof_err(s.len() as int, t.spec_describe())),
        Ok(Some((t2, st, en))) => if t2 == t {
            Ok((SpanView { start: st, end: en }, en))
        } else {
            Err(
                ErrView {
                    span: SpanView { start: st, end: en },
                    msg: spec_expected_msg(t.spec_describe(), t2.spec_describe()),
                },
            )
        },
    }
}

} // verus!
