use vstd::prelude::*;
use crate::ast::{Span, SpanM};
use crate::values::QueryError;
use vstd::string::StringSliceAdditionalSpecFns;
use vstd::slice::slice_to_vec;

verus! {

/// One lexical unit. Identifier, numeric-literal and string-literal tokens
/// carry their bytes; a numeric literal stays text until evaluation hands
/// it to the number capability. `Whitespace` and `Comment` exist as
/// classifications but never appear in the lexer's output.
#[derive(Debug)]
pub enum Token {
    Ident(Vec<u8>),
    Return,
    Number(Vec<u8>),
    String(Vec<u8>),
    Equals,
    Plus,
    Minus,
    Star,
    Slash,
    Percent,
    LParen,
    RParen,
    LBracket,
    RBracket,
    Comma,
    Semi,
    Whitespace,
    Comment,
}

/// The mathematical form of a token.
pub ghost enum TokenModel {
    Ident(Seq<u8>),
    Return,
    Number(Seq<u8>),
    String(Seq<u8>),
    Equals,
    Plus,
    Minus,
    Star,
    Slash,
    Percent,
    LParen,
    RParen,
    LBracket,
    RBracket,
    Comma,
    Semi,
    Whitespace,
    Comment,
}

pub open spec fn tok_view(t: Token) -> TokenModel {
    match t {
        Token::Ident(b) => TokenModel::Ident(b@),
        Token::Return => TokenModel::Return,
        Token::Number(b) => TokenModel::Number(b@),
        Token::String(b) => TokenModel::String(b@),
        Token::Equals => TokenModel::Equals,
        Token::Plus => TokenModel::Plus,
        Token::Minus => TokenModel::Minus,
        Token::Star => TokenModel::Star,
        Token::Slash => TokenModel::Slash,
        Token::Percent => TokenModel::Percent,
        Token::LParen => TokenModel::LParen,
        Token::RParen => TokenModel::RParen,
        Token::LBracket => TokenModel::LBracket,
        Token::RBracket => TokenModel::RBracket,
        Token::Comma => TokenModel::Comma,
        Token::Semi => TokenModel::Semi,
        Token::Whitespace => TokenModel::Whitespace,
        Token::Comment => TokenModel::Comment,
    }
}

impl View for Token {
    type V = TokenModel;

    open spec fn view(&self) -> TokenModel {
        tok_view(*self)
    }
}

pub open spec fn toks_view(ts: Seq<(Token, Span)>) -> Seq<(TokenModel, SpanM)> {
    ts.map_values(|p: (Token, Span)| (tok_view(p.0), p.1@))
}

pub open spec fn is_ws(b: u8) -> bool {
    b == 32 || b == 9 || b == 13 || b == 10
}

pub open spec fn is_digit(b: u8) -> bool {
    48 <= b <= 57
}

pub open spec fn is_alpha(b: u8) -> bool {
    (65 <= b <= 90) || (97 <= b <= 122) || b == 95
}

pub open spec fn is_ident_char(b: u8) -> bool {
    is_alpha(b) || is_digit(b)
}

/// End of the whitespace run starting at `i`.
pub open spec fn ws_end(s: Seq<u8>, i: int) -> int
    decreases s.len() - i,
{
    if 0 <= i < s.len() && is_ws(s[i]) {
        ws_end(s, i + 1)
    } else {
        i
    }
}

/// End of the identifier run starting at `i`.
pub open spec fn ident_end(s: Seq<u8>, i: int) -> int
    decreases s.len() - i,
{
    if 0 <= i < s.len() && is_ident_char(s[i]) {
        ident_end(s, i + 1)
    } else {
        i
    }
}

/// End of the digit run starting at `i`.
pub open spec fn digits_end(s: Seq<u8>, i: int) -> int
    decreases s.len() - i,
{
    if 0 <= i < s.len() && is_digit(s[i]) {
        digits_end(s, i + 1)
    } else {
        i
    }
}

/// End of a line comment starting at `i`: everything up to, and not
/// including, the next line feed.
pub open spec fn comment_end(s: Seq<u8>, i: int) -> int
    decreases s.len() - i,
{
    if 0 <= i < s.len() && s[i] != 10 {
        comment_end(s, i + 1)
    } else {
        i
    }
}

/// Position of the closing quote at or after `i`, if any.
pub open spec fn str_close(s: Seq<u8>, i: int) -> Option<int>
    decreases s.len() - i,
{
    if !(0 <= i < s.len()) {
        None
    } else if s[i] == 34 {
        Some(i)
    } else {
        str_close(s, i + 1)
    }
}

/// End of a numeric literal: digits, one optional dot, optional digits.
pub open spec fn num_end(s: Seq<u8>, i: int) -> int {
    let d1 = digits_end(s, i);
    if d1 < s.len() && s[d1] == 46 {
        digits_end(s, d1 + 1)
    } else {
        d1
    }
}

pub open spec fn return_bytes() -> Seq<u8> {
    seq![114u8, 101u8, 116u8, 117u8, 114u8, 110u8]  // "return"
}

/// What the lexer does at one position.
pub ghost enum LexStep {
    Tok(TokenModel, SpanM, int),
    Skip(int),
    Fail,
}

/// The longest-prefix rule applied at position `i` (meaningful for
/// `0 <= i < s.len()`): whitespace runs and comments are skipped, an
/// identifier run equal to `return` is the keyword, a digit starts a
/// numeric literal, a quote starts a string literal (no escapes), the
/// single-character operators stand for themselves, and any other byte is
/// a lexing failure.
pub open spec fn lex_step(s: Seq<u8>, i: int) -> LexStep {
    let b = s[i];
    if is_ws(b) {
        LexStep::Skip(ws_end(s, i))
    } else if b == 35 {
        LexStep::Skip(comment_end(s, i))
    } else if is_alpha(b) {
        let j = ident_end(s, i);
        if s.subrange(i, j) == return_bytes() {
            LexStep::Tok(TokenModel::Return, SpanM { lo: i, hi: j }, j)
        } else {
            LexStep::Tok(TokenModel::Ident(s.subrange(i, j)), SpanM { lo: i, hi: j }, j)
        }
    } else if is_digit(b) {
        let j = num_end(s, i);
        LexStep::Tok(TokenModel::Number(s.subrange(i, j)), SpanM { lo: i, hi: j }, j)
    } else if b == 34 {
        match str_close(s, i + 1) {
            Some(j) => LexStep::Tok(
                TokenModel::String(s.subrange(i + 1, j)),
                SpanM { lo: i, hi: j + 1 },
                j + 1,
            ),
            None => LexStep::Fail,
        }
    } else if b == 61 {
        LexStep::Tok(TokenModel::Equals, SpanM { lo: i, hi: i + 1 }, i + 1)
    } else if b == 43 {
        LexStep::Tok(TokenModel::Plus, SpanM { lo: i, hi: i + 1 }, i + 1)
    } else if b == 45 {
        LexStep::Tok(TokenModel::Minus, SpanM { lo: i, hi: i + 1 }, i + 1)
    } else if b == 42 {
        LexStep::Tok(TokenModel::Star, SpanM { lo: i, hi: i + 1 }, i + 1)
    } else if b == 47 {
        LexStep::Tok(TokenModel::Slash, SpanM { lo: i, hi: i + 1 }, i + 1)
    } else if b == 37 {
        LexStep::Tok(TokenModel::Percent, SpanM { lo: i, hi: i + 1 }, i + 1)
    } else if b == 40 {
        LexStep::Tok(TokenModel::LParen, SpanM { lo: i, hi: i + 1 }, i + 1)
    } else if b == 41 {
        LexStep::Tok(TokenModel::RParen, SpanM { lo: i, hi: i + 1 }, i + 1)
    } else if b == 91 {
        LexStep::Tok(TokenModel::LBracket, SpanM { lo: i, hi: i + 1 }, i + 1)
    } else if b == 93 {
        LexStep::Tok(TokenModel::RBracket, SpanM { lo: i, hi: i + 1 }, i + 1)
    } else if b == 44 {
        LexStep::Tok(TokenModel::Comma, SpanM { lo: i, hi: i + 1 }, i + 1)
    } else if b == 59 {
        LexStep::Tok(TokenModel::Semi, SpanM { lo: i, hi: i + 1 }, i + 1)
    } else {
        LexStep::Fail
    }
}

pub open spec fn clamp_pos(s: Seq<u8>, i: int, j: int) -> int {
    let j1 = if j > i {
        j
    } else {
        i + 1
    };
    if j1 <= s.len() {
        j1
    } else {
        s.len() as int
    }
}

/// The first token at or after `i`, skipping whitespace and comments.
pub ghost enum FirstTok {
    End,
    Fail,
    Tok(TokenModel, SpanM, int),
}

pub open spec fn first_tok(s: Seq<u8>, i: int) -> FirstTok
    decreases s.len() - i,
{
    if !(0 <= i < s.len()) {
        FirstTok::End
    } else {
        match lex_step(s, i) {
            LexStep::Fail => FirstTok::Fail,
            LexStep::Skip(j) => first_tok(s, clamp_pos(s, i, j)),
            LexStep::Tok(t, sp, j) => FirstTok::Tok(t, sp, clamp_pos(s, i, j)),
        }
    }
}

/// The whole token stream from position `i`: `None` on a lexing failure.
/// Whitespace and comments never appear in it.
pub open spec fn lex_m(s: Seq<u8>, i: int) -> Option<Seq<(TokenModel, SpanM)>>
    decreases s.len() - i,
{
    if !(0 <= i < s.len()) {
        Some(Seq::empty())
    } else {
        match lex_step(s, i) {
            LexStep::Fail => None,
            LexStep::Skip(j) => lex_m(s, clamp_pos(s, i, j)),
            LexStep::Tok(t, sp, j) => match lex_m(s, clamp_pos(s, i, j)) {
                Some(rest) => Some(seq![(t, sp)] + rest),
                None => None,
            },
        }
    }
}

/// `lex_m` seen through `first_tok`: the stream is empty at the end, fails
/// where the first token fails, and otherwise starts with the first token.
pub proof fn lemma_lex_first(s: Seq<u8>, i: int)
    ensures
        first_tok(s, i) is End ==> lex_m(s, i) == Some(Seq::<(TokenModel, SpanM)>::empty()),
        first_tok(s, i) is Fail ==> lex_m(s, i) is None,
        first_tok(s, i) matches FirstTok::Tok(t, sp, j) ==> lex_m(s, i) == (match lex_m(s, j) {
            Some(rest) => Some(seq![(t, sp)] + rest),
            None => None,
        }),
    decreases s.len() - i,
{
    if 0 <= i < s.len() {
        match lex_step(s, i) {
            LexStep::Skip(j) => {
                lemma_lex_first(s, clamp_pos(s, i, j));
            },
            _ => {},
        }
    }
}

/// A found token always lies ahead of the start position.
pub proof fn lemma_first_tok_progress(s: Seq<u8>, i: int)
    requires
        0 <= i,
    ensures
        first_tok(s, i) matches FirstTok::Tok(t, sp, j) ==> i < j <= s.len(),
    decreases s.len() - i,
{
    if 0 <= i < s.len() {
        match lex_step(s, i) {
            LexStep::Skip(j) => {
                lemma_first_tok_progress(s, clamp_pos(s, i, j));
            },
            _ => {},
        }
    }
}

/// Whitespace and comments never reach the token stream.
pub proof fn lemma_lex_no_trivia(s: Seq<u8>, i: int)
    ensures
        lex_m(s, i) matches Some(ts) ==> forall|k: int|
            0 <= k < ts.len() ==> !(#[trigger] ts[k].0 is Whitespace) && !(ts[k].0 is Comment),
    decreases s.len() - i,
{
    if 0 <= i < s.len() {
        match lex_step(s, i) {
            LexStep::Fail => {},
            LexStep::Skip(j) => {
                lemma_lex_no_trivia(s, clamp_pos(s, i, j));
            },
            LexStep::Tok(t, sp, j) => {
                lemma_lex_no_trivia(s, clamp_pos(s, i, j));
            },
        }
    }
}

// Bounds of the run-end helpers, so the clamps above are identities on the
// positions the executable lexer computes.

pub proof fn lemma_ws_end_bounds(s: Seq<u8>, i: int)
    requires
        0 <= i <= s.len(),
    ensures
        i <= ws_end(s, i) <= s.len(),
    decreases s.len() - i,
{
    if i < s.len() && is_ws(s[i]) {
        lemma_ws_end_bounds(s, i + 1);
    }
}

pub proof fn lemma_ident_end_bounds(s: Seq<u8>, i: int)
    requires
        0 <= i <= s.len(),
    ensures
        i <= ident_end(s, i) <= s.len(),
    decreases s.len() - i,
{
    if i < s.len() && is_ident_char(s[i]) {
        lemma_ident_end_bounds(s, i + 1);
    }
}

pub proof fn lemma_digits_end_bounds(s: Seq<u8>, i: int)
    requires
        0 <= i <= s.len(),
    ensures
        i <= digits_end(s, i) <= s.len(),
    decreases s.len() - i,
{
    if i < s.len() && is_digit(s[i]) {
        lemma_digits_end_bounds(s, i + 1);
    }
}

pub proof fn lemma_comment_end_bounds(s: Seq<u8>, i: int)
    requires
        0 <= i <= s.len(),
    ensures
        i <= comment_end(s, i) <= s.len(),
    decreases s.len() - i,
{
    if i < s.len() && s[i] != 10 {
        lemma_comment_end_bounds(s, i + 1);
    }
}

pub proof fn lemma_str_close_bounds(s: Seq<u8>, i: int)
    requires
        0 <= i <= s.len(),
    ensures
        str_close(s, i) matches Some(j) ==> i <= j < s.len(),
    decreases s.len() - i,
{
    if i < s.len() && s[i] != 34 {
        lemma_str_close_bounds(s, i + 1);
    }
}

// Executable scanners for the runs above.

fn ws_scan(src: &Vec<u8>, i: usize) -> (j: usize)
    requires
        i <= src@.len(),
    ensures
        j == ws_end(src@, i as int),
        i <= j <= src@.len(),
{
    let mut j: usize = i;
    while j < src.len() && (src[j] == 32 || src[j] == 9 || src[j] == 13 || src[j] == 10)
        invariant
            i <= j <= src@.len(),
            ws_end(src@, i as int) == ws_end(src@, j as int),
        decreases src@.len() - j,
    {
        j += 1;
    }
    j
}

fn ident_scan(src: &Vec<u8>, i: usize) -> (j: usize)
    requires
        i <= src@.len(),
    ensures
        j == ident_end(src@, i as int),
        i <= j <= src@.len(),
{
    let mut j: usize = i;
    while j < src.len() && ((65 <= src[j] && src[j] <= 90) || (97 <= src[j] && src[j] <= 122)
        || src[j] == 95 || (48 <= src[j] && src[j] <= 57))
        invariant
            i <= j <= src@.len(),
            ident_end(src@, i as int) == ident_end(src@, j as int),
        decreases src@.len() - j,
    {
        j += 1;
    }
    j
}

fn digits_scan(src: &Vec<u8>, i: usize) -> (j: usize)
    requires
        i <= src@.len(),
    ensures
        j == digits_end(src@, i as int),
        i <= j <= src@.len(),
{
    let mut j: usize = i;
    while j < src.len() && 48 <= src[j] && src[j] <= 57
        invariant
            i <= j <= src@.len(),
            digits_end(src@, i as int) == digits_end(src@, j as int),
        decreases src@.len() - j,
    {
        j += 1;
    }
    j
}

fn comment_scan(src: &Vec<u8>, i: usize) -> (j: usize)
    requires
        i <= src@.len(),
    ensures
        j == comment_end(src@, i as int),
        i <= j <= src@.len(),
{
    let mut j: usize = i;
    while j < src.len() && src[j] != 10
        invariant
            i <= j <= src@.len(),
            comment_end(src@, i as int) == comment_end(src@, j as int),
        decreases src@.len() - j,
    {
        j += 1;
    }
    j
}

fn str_scan(src: &Vec<u8>, i: usize) -> (r: Option<usize>)
    requires
        i <= src@.len(),
    ensures
        match r {
            Some(j) => str_close(src@, i as int) == Some(j as int) && i <= j < src@.len(),
            Option::<usize>::None => str_close(src@, i as int) is None,
        },
{
    let mut j: usize = i;
    while j < src.len() && src[j] != 34
        invariant
            i <= j <= src@.len(),
            str_close(src@, i as int) == str_close(src@, j as int),
        decreases src@.len() - j,
    {
        j += 1;
    }
    if j < src.len() {
        Some(j)
    } else {
        None
    }
}

/// A fresh copy of `src[lo..hi]`.
fn copy_range(src: &Vec<u8>, lo: usize, hi: usize) -> (r: Vec<u8>)
    requires
        lo <= hi <= src@.len(),
    ensures
        r@ == src@.subrange(lo as int, hi as int),
{
    let mut r: Vec<u8> = Vec::new();
    let mut k: usize = lo;
    while k < hi
        invariant
            lo <= k <= hi <= src@.len(),
            r@ =~= src@.subrange(lo as int, k as int),
        decreases hi - k,
    {
        r.push(src[k]);
        k += 1;
    }
    proof {
        assert(r@ =~= src@.subrange(lo as int, hi as int));
    }
    r
}

/// Whether `src[lo..hi]` spells the keyword `return`.
fn range_is_return(src: &Vec<u8>, lo: usize, hi: usize) -> (r: bool)
    requires
        lo <= hi <= src@.len(),
    ensures
        r == (src@.subrange(lo as int, hi as int) == return_bytes()),
{
    if hi - lo != 6 {
        proof {
            assert(src@.subrange(lo as int, hi as int).len() != return_bytes().len());
        }
        return false;
    }
    let ok = src[lo] == 114 && src[lo + 1] == 101 && src[lo + 2] == 116 && src[lo + 3] == 117
        && src[lo + 4] == 114 && src[lo + 5] == 110;
    proof {
        if ok {
            assert(src@.subrange(lo as int, hi as int) =~= return_bytes());
        } else {
            assert(src@.subrange(lo as int, hi as int) != return_bytes());
        }
    }
    ok
}

/// The tokenizer: walks the source bytes, producing one token per call.
pub struct Lexer {
    pub src: Vec<u8>,
    pub pos: usize,
}

impl Lexer {
    /// A lexer over the UTF-8 bytes of `s`, at the start.
    pub fn new(s: &str) -> (l: Lexer)
        ensures
            l.src@ == s.spec_bytes(),
            l.pos == 0,
    {
        Lexer { src: slice_to_vec(s.as_bytes()), pos: 0 }
    }

    /// The next token and its span: `Ok(None)` at the end of the input,
    /// the lexing-failure error on a byte no rule matches or an
    /// unterminated string literal.
    pub fn next(&mut self) -> (r: Result<Option<(Token, Span)>, QueryError>)
        ensures
            final(self).src@ == old(self).src@,
            match first_tok(old(self).src@, old(self).pos as int) {
                FirstTok::End => r matches Ok(ro) && ro is None,
                FirstTok::Fail => r == Err::<Option<(Token, Span)>, QueryError>(
                    QueryError::LexingError,
                ),
                FirstTok::Tok(t, sp, j) => r matches Ok(ro) && ro matches Some(p) && tok_view(
                    p.0,
                ) == t && p.1@ == sp && final(self).pos as int == j,
            },
    {
        let ghost s = self.src@;
        let ghost pos0 = self.pos as int;
        let mut i: usize = self.pos;
        if i > self.src.len() {
            // Out-of-range positions see the end of the input.
            return Ok(None);
        }
        while i < self.src.len()
            invariant
                i <= self.src@.len(),
                self.src@ == s,
                s == old(self).src@,
                pos0 == old(self).pos as int,
                first_tok(s, pos0) == first_tok(s, i as int),
            decreases self.src@.len() - i,
        {
            let b = self.src[i];
            if b == 32 || b == 9 || b == 13 || b == 10 {
                let j = ws_scan(&self.src, i);
                proof {
                    lemma_ws_end_bounds(s, i as int + 1);
                    assert(clamp_pos(s, i as int, j as int) == j as int);
                }
                i = j;
            } else if b == 35 {
                let j = comment_scan(&self.src, i);
                proof {
                    lemma_comment_end_bounds(s, i as int + 1);
                    assert(clamp_pos(s, i as int, j as int) == j as int);
                }
                i = j;
            } else if (65 <= b && b <= 90) || (97 <= b && b <= 122) || b == 95 {
                let j = ident_scan(&self.src, i);
                proof {
                    lemma_ident_end_bounds(s, i as int + 1);
                    assert(j > i);
                    assert(clamp_pos(s, i as int, j as int) == j as int);
                }
                let tok = if range_is_return(&self.src, i, j) {
                    Token::Return
                } else {
                    Token::Ident(copy_range(&self.src, i, j))
                };
                let span = Span { lo: i, hi: j };
                self.pos = j;
                return Ok(Some((tok, span)));
            } else if 48 <= b && b <= 57 {
                let d1 = digits_scan(&self.src, i);
                let j = if d1 < self.src.len() && self.src[d1] == 46 {
                    digits_scan(&self.src, d1 + 1)
                } else {
                    d1
                };
                proof {
                    lemma_digits_end_bounds(s, i as int + 1);
                    assert(j == num_end(s, i as int));
                    assert(j > i);
                    assert(clamp_pos(s, i as int, j as int) == j as int);
                }
                let tok = Token::Number(copy_range(&self.src, i, j));
                let span = Span { lo: i, hi: j };
                self.pos = j;
                return Ok(Some((tok, span)));
            } else if b == 34 {
                match str_scan(&self.src, i + 1) {
                    Some(j) => {
                        proof {
                            assert(clamp_pos(s, i as int, j as int + 1) == j as int + 1);
                        }
                        let tok = Token::String(copy_range(&self.src, i + 1, j));
                        let span = Span { lo: i, hi: j + 1 };
                        self.pos = j + 1;
                        return Ok(Some((tok, span)));
                    },
                    Option::None => {
                        return Err(QueryError::LexingError);
                    },
                }
            } else {
                let tok = match b {
                    61 => Token::Equals,
                    43 => Token::Plus,
                    45 => Token::Minus,
                    42 => Token::Star,
                    47 => Token::Slash,
                    37 => Token::Percent,
                    40 => Token::LParen,
                    41 => Token::RParen,
                    91 => Token::LBracket,
                    93 => Token::RBracket,
                    44 => Token::Comma,
                    59 => Token::Semi,
                    _ => {
                        return Err(QueryError::LexingError);
                    },
                };
                let span = Span { lo: i, hi: i + 1 };
                self.pos = i + 1;
                return Ok(Some((tok, span)));
            }
        }
        self.pos = i;
        Ok(None)
    }
}

/// Lexes a whole source text into its token stream.
pub fn tokenize(code: &str) -> (r: Result<Vec<(Token, Span)>, QueryError>)
    ensures
        match r {
            Ok(v) => lex_m(code.spec_bytes(), 0) == Some(toks_view(v@)),
            Err(e) => lex_m(code.spec_bytes(), 0) is None && e == QueryError::LexingError,
        },
{
    let ghost s = code.spec_bytes();
    let mut lx = Lexer::new(code);
    let mut toks: Vec<(Token, Span)> = Vec::new();
    proof {
        assert(toks_view(toks@) =~= Seq::<(TokenModel, SpanM)>::empty());
    }
    loop
        invariant
            s == code.spec_bytes(),
            lx.src@ == s,
            lx.pos <= s.len(),
            match lex_m(s, lx.pos as int) {
                Some(rest) => lex_m(s, 0) == Some(toks_view(toks@) + rest),
                None => lex_m(s, 0) is None,
            },
        decreases s.len() - lx.pos,
    {
        let ghost pos0 = lx.pos as int;
        let step = lx.next();
        proof {
            lemma_lex_first(s, pos0);
            lemma_first_tok_progress(s, pos0);
        }
        match step {
            Ok(Option::None) => {
                proof {
                    assert(toks_view(toks@) + Seq::<(TokenModel, SpanM)>::empty() =~= toks_view(
                        toks@,
                    ));
                }
                return Ok(toks);
            },
            Ok(Some(p)) => {
                let ghost oldtoks = toks@;
                toks.push(p);
                proof {
                    assert(toks_view(toks@) =~= toks_view(oldtoks).push(
                        (tok_view(p.0), p.1@),
                    ));
                    let t = first_tok(s, pos0)->Tok_0;
                    let sp = first_tok(s, pos0)->Tok_1;
                    let j = first_tok(s, pos0)->Tok_2;
                    match lex_m(s, j) {
                        Some(rest) => {
                            assert(lex_m(s, pos0) == Some(seq![(t, sp)] + rest));
                            assert(toks_view(oldtoks) + (seq![(t, sp)] + rest) =~= toks_view(
                                toks@,
                            ) + rest);
                        },
                        None => {},
                    }
                }
            },
            Err(e) => {
                return Err(e);
            },
        }
    }
}

} // verus!
