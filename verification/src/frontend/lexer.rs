//! The front end's lexer: a second, smaller tokenizer whose tokens carry the
//! line reached after the token and the column where it starts.
use vstd::prelude::*;
use vstd::utf8::{encode_utf8, is_char_boundary};
use crate::lexer::{
    all_ascii_digits, decimal, decimal_fits, ident_end, integer_value, integer_value_of, line_col,
};
use crate::text::{
    ascii_digit, chars_of, is_alphabetic, is_alphanumeric, is_whitespace, str_eq, string_of,
    char_alphabetic, char_whitespace,
};

verus! {

#[derive(Debug, PartialEq, Clone)]
pub enum Token {
    EOF,
    Identifier(String),
    LiteralInteger(i64),
    LiteralString(String),
    // Keywords
    Let,
    Mut,
    Fn,
    Const,
    Check,
    Except,
    HashMap,
    Bool,
    // Types
    TypeI8,
    TypeI16,
    TypeI32,
    TypeI64,
    TypeI128,
    TypeF32,
    TypeF64,
    TypeU8Array,  // [u8]
    // Directives
    JitBang,  // jit!
    // Operators & Punctuation
    LParen,
    RParen,
    LBrace,
    RBrace,
    LBracket,
    RBracket,
    Comma,
    Dot,
    Bang,
    Colon,
    SemiColon,
    Arrow,  // ->
    Assign,  // =
    LessThan,
    GreaterThan,
}

/// A token as a value.
pub enum TokV {
    EOF,
    Identifier(Seq<char>),
    LiteralInteger(i64),
    LiteralString(Seq<char>),
    Let,
    Mut,
    Fn,
    Const,
    Check,
    Except,
    HashMap,
    Bool,
    TypeI8,
    TypeI16,
    TypeI32,
    TypeI64,
    TypeI128,
    TypeF32,
    TypeF64,
    TypeU8Array,
    JitBang,
    LParen,
    RParen,
    LBrace,
    RBrace,
    LBracket,
    RBracket,
    Comma,
    Dot,
    Bang,
    Colon,
    SemiColon,
    Arrow,
    Assign,
    LessThan,
    GreaterThan,
}

impl View for Token {
    type V = TokV;

    open spec fn view(&self) -> TokV {
        match self {
            Token::EOF => TokV::EOF,
            Token::Identifier(s) => TokV::Identifier(s@),
            Token::LiteralInteger(v) => TokV::LiteralInteger(*v),
            Token::LiteralString(s) => TokV::LiteralString(s@),
            Token::Let => TokV::Let,
            Token::Mut => TokV::Mut,
            Token::Fn => TokV::Fn,
            Token::Const => TokV::Const,
            Token::Check => TokV::Check,
            Token::Except => TokV::Except,
            Token::HashMap => TokV::HashMap,
            Token::Bool => TokV::Bool,
            Token::TypeI8 => TokV::TypeI8,
            Token::TypeI16 => TokV::TypeI16,
            Token::TypeI32 => TokV::TypeI32,
            Token::TypeI64 => TokV::TypeI64,
            Token::TypeI128 => TokV::TypeI128,
            Token::TypeF32 => TokV::TypeF32,
            Token::TypeF64 => TokV::TypeF64,
            Token::TypeU8Array => TokV::TypeU8Array,
            Token::JitBang => TokV::JitBang,
            Token::LParen => TokV::LParen,
            Token::RParen => TokV::RParen,
            Token::LBrace => TokV::LBrace,
            Token::RBrace => TokV::RBrace,
            Token::LBracket => TokV::LBracket,
            Token::RBracket => TokV::RBracket,
            Token::Comma => TokV::Comma,
            Token::Dot => TokV::Dot,
            Token::Bang => TokV::Bang,
            Token::Colon => TokV::Colon,
            Token::SemiColon => TokV::SemiColon,
            Token::Arrow => TokV::Arrow,
            Token::Assign => TokV::Assign,
            Token::LessThan => TokV::LessThan,
            Token::GreaterThan => TokV::GreaterThan,
        }
    }
}

#[derive(Debug, Clone)]
pub struct TokenInfo {
    pub token: Token,
    pub line: usize,
    pub col: usize,
}

/// A token with its place, as a value.
pub struct TokenInfoV {
    pub token: TokV,
    pub line: nat,
    pub col: nat,
}

impl View for TokenInfo {
    type V = TokenInfoV;

    open spec fn view(&self) -> TokenInfoV {
        TokenInfoV { token: self.token@, line: self.line as nat, col: self.col as nat }
    }
}

// ---------------------------------------------------------------------------
// The lexical grammar. Positions count characters; `bytes` is the UTF-8
// encoding of the text, which the check for `[u8]` reads.
// ---------------------------------------------------------------------------

/// Keywords and type names of the front end.
pub open spec fn keyword(w: Seq<char>) -> Option<TokV> {
    if w == "let"@ {
        Some(TokV::Let)
    } else if w == "mut"@ {
        Some(TokV::Mut)
    } else if w == "fn"@ {
        Some(TokV::Fn)
    } else if w == "const"@ {
        Some(TokV::Const)
    } else if w == "check"@ {
        Some(TokV::Check)
    } else if w == "except"@ {
        Some(TokV::Except)
    } else if w == "HashMap"@ {
        Some(TokV::HashMap)
    } else if w == "bool"@ {
        Some(TokV::Bool)
    } else if w == "i8"@ {
        Some(TokV::TypeI8)
    } else if w == "i16"@ {
        Some(TokV::TypeI16)
    } else if w == "i32"@ {
        Some(TokV::TypeI32)
    } else if w == "i64"@ {
        Some(TokV::TypeI64)
    } else if w == "i128"@ {
        Some(TokV::TypeI128)
    } else if w == "f32"@ {
        Some(TokV::TypeF32)
    } else if w == "f64"@ {
        Some(TokV::TypeF64)
    } else {
        None
    }
}

/// Punctuation of one character; `-` not followed by `>`, and any other
/// character, give an `EOF` token as a placeholder.
pub open spec fn punct(c: char) -> TokV {
    if c == '(' {
        TokV::LParen
    } else if c == ')' {
        TokV::RParen
    } else if c == '{' {
        TokV::LBrace
    } else if c == '}' {
        TokV::RBrace
    } else if c == ']' {
        TokV::RBracket
    } else if c == ',' {
        TokV::Comma
    } else if c == '.' {
        TokV::Dot
    } else if c == '!' {
        TokV::Bang
    } else if c == ':' {
        TokV::Colon
    } else if c == ';' {
        TokV::SemiColon
    } else if c == '<' {
        TokV::LessThan
    } else if c == '>' {
        TokV::GreaterThan
    } else if c == '=' {
        TokV::Assign
    } else {
        TokV::EOF
    }
}

/// End of a run of ASCII digits that goes on at `q`.
pub open spec fn digits_end(s: Seq<char>, q: int) -> int
    decreases s.len() - q,
{
    if q >= s.len() || !ascii_digit(s[q]) {
        q
    } else {
        digits_end(s, q + 1)
    }
}

/// Position of the first `"` at or after `q`, or the end of the text.
pub open spec fn quote_end(s: Seq<char>, q: int) -> int
    decreases s.len() - q,
{
    if q >= s.len() || s[q] == '"' {
        q
    } else {
        quote_end(s, q + 1)
    }
}

/// The byte offset at which the lexer looks for `u8]` after a `[` at `p`:
/// the length of the text in bytes, less the number of characters after the `[`.
pub open spec fn u8_probe(s: Seq<char>, p: int) -> int {
    encode_utf8(s).len() - (s.len() - (p + 1))
}

/// Whether the bytes at `idx` read `u8]`.
pub open spec fn reads_u8_close(b: Seq<u8>, idx: int) -> bool {
    &&& 0 <= idx
    &&& idx + 3 <= b.len()
    &&& b[idx] == 'u' as u8
    &&& b[idx + 1] == '8' as u8
    &&& b[idx + 2] == ']' as u8
}

/// One step of the lexer at position `p` (inside the text): the token it
/// adds, if any, and the position after it; `None` where the lexer panics
/// (an integer that does not fit in `i64`, or a `[` whose probe offset
/// falls inside a character).
pub open spec fn step(s: Seq<char>, p: int) -> Option<(Option<TokenInfoV>, int)> {
    let c = s[p];
    let col = line_col(s, p).1;
    if char_whitespace(c) {
        Some((None, p + 1))
    } else if char_alphabetic(c) || c == '_' {
        let e = ident_end(s, p);
        let w = s.subrange(p, e);
        if w == "jit"@ && e < s.len() && s[e] == '!' {
            Some((Some(TokenInfoV { token: TokV::JitBang, line: line_col(s, e + 1).0, col }), e + 1))
        } else {
            let t = match keyword(w) {
                Some(k) => k,
                None => TokV::Identifier(w),
            };
            Some((Some(TokenInfoV { token: t, line: line_col(s, e).0, col }), e))
        }
    } else if ascii_digit(c) {
        let e = digits_end(s, p);
        let d = s.subrange(p, e);
        if decimal(d) <= i64::MAX {
            Some(
                (
                    Some(
                        TokenInfoV {
                            token: TokV::LiteralInteger(decimal(d) as i64),
                            line: line_col(s, e).0,
                            col,
                        },
                    ),
                    e,
                ),
            )
        } else {
            None
        }
    } else if c == '"' {
        let close = quote_end(s, p + 1);
        let e = if close < s.len() {
            close + 1
        } else {
            close
        };
        Some(
            (
                Some(
                    TokenInfoV {
                        token: TokV::LiteralString(s.subrange(p + 1, close)),
                        line: line_col(s, e).0,
                        col,
                    },
                ),
                e,
            ),
        )
    } else if c == '[' {
        let b = encode_utf8(s);
        let idx = u8_probe(s, p);
        if !is_char_boundary(b, idx) {
            None
        } else if reads_u8_close(b, idx) {
            Some((Some(TokenInfoV { token: TokV::TypeU8Array, line: line_col(s, p + 4).0, col }), p + 4))
        } else {
            Some((Some(TokenInfoV { token: TokV::LBracket, line: line_col(s, p + 1).0, col }), p + 1))
        }
    } else if c == '-' {
        if p + 1 < s.len() && s[p + 1] == '>' {
            Some((Some(TokenInfoV { token: TokV::Arrow, line: line_col(s, p + 2).0, col }), p + 2))
        } else {
            Some((Some(TokenInfoV { token: TokV::EOF, line: line_col(s, p + 1).0, col }), p + 1))
        }
    } else {
        Some((Some(TokenInfoV { token: punct(c), line: line_col(s, p + 1).0, col }), p + 1))
    }
}

/// The tokens from position `p` on, ending with `EOF` at the end of the text;
/// `None` where the lexer panics.
pub open spec fn tokens_from(s: Seq<char>, p: int) -> Option<Seq<TokenInfoV>>
    decreases s.len() - p,
{
    if p < 0 || p >= s.len() {
        let (l, c) = line_col(s, p);
        Some(seq![TokenInfoV { token: TokV::EOF, line: l, col: c }])
    } else {
        match step(s, p) {
            None => None,
            Some((t, q)) => {
                if q <= p || q > s.len() {
                    None
                } else {
                    match tokens_from(s, q) {
                        None => None,
                        Some(rest) => Some(
                            match t {
                                Some(t) => seq![t] + rest,
                                None => rest,
                            },
                        ),
                    }
                }
            },
        }
    }
}

pub proof fn lemma_digits_end(s: Seq<char>, q: int)
    requires
        0 <= q <= s.len(),
    ensures
        q <= digits_end(s, q) <= s.len(),
        forall|i: int| q <= i < digits_end(s, q) ==> ascii_digit(#[trigger] s[i]),
    decreases s.len() - q,
{
    if q < s.len() && ascii_digit(s[q]) {
        lemma_digits_end(s, q + 1);
    }
}

pub proof fn lemma_quote_end(s: Seq<char>, q: int)
    requires
        0 <= q <= s.len(),
    ensures
        q <= quote_end(s, q) <= s.len(),
        quote_end(s, q) < s.len() ==> s[quote_end(s, q)] == '"',
    decreases s.len() - q,
{
    if q < s.len() && s[q] != '"' {
        lemma_quote_end(s, q + 1);
    }
}

/// The step at a position inside the text moves forward, and stays in the text.
pub proof fn lemma_step(s: Seq<char>, p: int)
    requires
        0 <= p < s.len(),
        step(s, p) is Some,
    ensures
        p < (step(s, p)->0).1 <= s.len(),
{
    let c = s[p];
    if char_whitespace(c) {
    } else if char_alphabetic(c) || c == '_' {
        crate::lexer::lemma_ident_end(s, p + 1);
        assert(ident_end(s, p) == ident_end(s, p + 1));
    } else if ascii_digit(c) {
        lemma_digits_end(s, p + 1);
        assert(digits_end(s, p) == digits_end(s, p + 1));
    } else if c == '"' {
        lemma_quote_end(s, p + 1);
    } else if c == '[' {
        let b = encode_utf8(s);
        let idx = u8_probe(s, p);
        if reads_u8_close(b, idx) {
            lemma_probe_room(s, p);
        }
    }
}

/// The token that a punctuation character of one character stands for.
pub open spec fn punct_token_of(c: char) -> Option<TokV> {
    if c == '(' {
        Some(TokV::LParen)
    } else if c == ')' {
        Some(TokV::RParen)
    } else if c == '{' {
        Some(TokV::LBrace)
    } else if c == '}' {
        Some(TokV::RBrace)
    } else if c == ']' {
        Some(TokV::RBracket)
    } else if c == ',' {
        Some(TokV::Comma)
    } else if c == '.' {
        Some(TokV::Dot)
    } else if c == '!' {
        Some(TokV::Bang)
    } else if c == ':' {
        Some(TokV::Colon)
    } else if c == ';' {
        Some(TokV::SemiColon)
    } else if c == '<' {
        Some(TokV::LessThan)
    } else if c == '>' {
        Some(TokV::GreaterThan)
    } else if c == '=' {
        Some(TokV::Assign)
    } else {
        None
    }
}

/// Each punctuation character of one character stands for a token of its
/// own: two different such characters never give the same token.
pub proof fn lemma_punct_tokens_distinct(c1: char, c2: char)
    requires
        punct_token_of(c1) is Some,
        punct_token_of(c2) is Some,
        c1 != c2,
    ensures
        punct_token_of(c1) != punct_token_of(c2),
{
}

/// A punctuation character is read as one token of its own: `(` gives
/// `LParen`, `)` `RParen`, `{` `LBrace`, `}` `RBrace`, `]` `RBracket`, and so
/// on; the token takes that one character, at its column, and it is the first
/// token of the rest of the text.
pub proof fn lemma_punct_step(s: Seq<char>, p: int)
    requires
        0 <= p < s.len(),
        punct_token_of(s[p]) is Some,
    ensures
        step(s, p) == Some(
            (
                Some(
                    TokenInfoV {
                        token: punct_token_of(s[p])->0,
                        line: line_col(s, p + 1).0,
                        col: line_col(s, p).1,
                    },
                ),
                p + 1,
            ),
        ),
        tokens_from(s, p) is Some ==> (tokens_from(s, p)->0).len() > 0 && (tokens_from(
            s,
            p,
        )->0)[0].token == punct_token_of(s[p])->0,
        s[p] == '(' ==> (step(s, p)->0).0->0.token == TokV::LParen,
        s[p] == ')' ==> (step(s, p)->0).0->0.token == TokV::RParen,
        s[p] == '{' ==> (step(s, p)->0).0->0.token == TokV::LBrace,
        s[p] == '}' ==> (step(s, p)->0).0->0.token == TokV::RBrace,
        s[p] == ']' ==> (step(s, p)->0).0->0.token == TokV::RBracket,
{
    let c = s[p];
    assert(!char_whitespace(c));
    assert(!char_alphabetic(c));
    assert(!ascii_digit(c));
    assert(step(s, p) == Some(
        (
            Some(
                TokenInfoV {
                    token: punct_token_of(s[p])->0,
                    line: line_col(s, p + 1).0,
                    col: line_col(s, p).1,
                },
            ),
            p + 1,
        ),
    ));
}

/// Each character takes at least one byte, so past the probe offset there are
/// as many bytes as characters after the `[`.
pub proof fn lemma_probe_room(s: Seq<char>, p: int)
    requires
        0 <= p < s.len(),
        reads_u8_close(encode_utf8(s), u8_probe(s, p)),
    ensures
        p + 4 <= s.len(),
{
    assert(encode_utf8(s).len() - u8_probe(s, p) == s.len() - (p + 1));
}

pub struct Lexer {
    source: String,
    chars: Vec<char>,
    position: usize,
    line: usize,
    col: usize,
}

/// The keyword or type name spelled by `w`, if any, else an identifier.
fn word_token(ident: String) -> (t: Token)
    ensures
        t@ == (match keyword(ident@) {
            Some(k) => k,
            None => TokV::Identifier(ident@),
        }),
{
    let s = ident.as_str();
    if str_eq(s, "let") {
        Token::Let
    } else if str_eq(s, "mut") {
        Token::Mut
    } else if str_eq(s, "fn") {
        Token::Fn
    } else if str_eq(s, "const") {
        Token::Const
    } else if str_eq(s, "check") {
        Token::Check
    } else if str_eq(s, "except") {
        Token::Except
    } else if str_eq(s, "HashMap") {
        Token::HashMap
    } else if str_eq(s, "bool") {
        Token::Bool
    } else if str_eq(s, "i8") {
        Token::TypeI8
    } else if str_eq(s, "i16") {
        Token::TypeI16
    } else if str_eq(s, "i32") {
        Token::TypeI32
    } else if str_eq(s, "i64") {
        Token::TypeI64
    } else if str_eq(s, "i128") {
        Token::TypeI128
    } else if str_eq(s, "f32") {
        Token::TypeF32
    } else if str_eq(s, "f64") {
        Token::TypeF64
    } else {
        Token::Identifier(ident)
    }
}

impl Lexer {
    /// The text that the lexer reads.
    pub closed spec fn text(&self) -> Seq<char> {
        self.chars@
    }

    /// The position of the next character to read.
    pub closed spec fn pos(&self) -> int {
        self.position as int
    }

    /// The fields agree: the characters are those of the source, the position
    /// lies in them, and line and column are those of the position.
    pub closed spec fn wf(&self) -> bool {
        &&& self.chars@ == self.source@
        &&& self.position <= self.chars.len()
        &&& self.chars.len() < usize::MAX
        &&& line_col(self.chars@, self.position as int) == (self.line as nat, self.col as nat)
    }

    pub fn new(source: &str) -> (lexer: Self)
        requires
            source@.len() < usize::MAX,
        ensures
            lexer.wf(),
            lexer.text() == source@,
            lexer.pos() == 0,
    {
        let owned = source.to_owned();
        Self { chars: chars_of(source), source: owned, position: 0, line: 1, col: 1 }
    }

    fn next_char(&mut self) -> (r: Option<char>)
        requires
            old(self).wf(),
        ensures
            final(self).wf(),
            final(self).text() == old(self).text(),
            r == (if old(self).pos() < old(self).text().len() {
                Some(old(self).text()[old(self).pos()])
            } else {
                None
            }),
            final(self).pos() == (if old(self).pos() < old(self).text().len() {
                old(self).pos() + 1
            } else {
                old(self).pos()
            }),
    {
        if self.position < self.chars.len() {
            let ch = self.chars[self.position];
            proof {
                crate::lexer::lemma_line_col_bounds(self.chars@, self.position as int);
            }
            self.position += 1;
            if ch == '\n' {
                self.line += 1;
                self.col = 1;
            } else {
                self.col += 1;
            }
            Some(ch)
        } else {
            None
        }
    }

    fn peek_char(&self) -> (r: Option<char>)
        requires
            self.wf(),
        ensures
            r == (if self.pos() < self.text().len() {
                Some(self.text()[self.pos()])
            } else {
                None
            }),
    {
        if self.position < self.chars.len() {
            Some(self.chars[self.position])
        } else {
            None
        }
    }

    /// Whether the source bytes at the offset of the lexer's position, counted
    /// as the length in bytes less the characters left, read `u8]`. The lexer
    /// must not stand past the end, and that offset must start a character.
    fn probe_u8_close(&self) -> (r: bool)
        requires
            self.wf(),
            1 <= self.pos(),
            is_char_boundary(encode_utf8(self.text()), u8_probe(self.text(), self.pos() - 1)),
        ensures
            r == reads_u8_close(encode_utf8(self.text()), u8_probe(self.text(), self.pos() - 1)),
    {
        let s = self.source.as_str();
        let bytes = s.as_bytes();
        proof {
            crate::text::lemma_utf8_len_ge(self.chars@);
        }
        let idx = bytes.len() - (self.chars.len() - self.position);
        3 <= bytes.len() - idx && bytes[idx] == 'u' as u8 && bytes[idx + 1] == '8' as u8
            && bytes[idx + 2] == ']' as u8
    }

    /// One step of the lexer at its position: the token it adds, if any.
    #[verifier::rlimit(50)]
    fn step_token(&mut self) -> (r: Option<TokenInfo>)
        requires
            old(self).wf(),
            old(self).pos() < old(self).text().len(),
            step(old(self).text(), old(self).pos()) is Some,
        ensures
            final(self).wf(),
            final(self).text() == old(self).text(),
            step(old(self).text(), old(self).pos()) == Some(
                (
                    match r {
                        Some(t) => Some(t@),
                        None => None::<TokenInfoV>,
                    },
                    final(self).pos(),
                ),
            ),
    {
        let ghost s = self.chars@;
        let ghost p = self.position as int;
        let c = self.chars[self.position];
        let start_col = self.col;
        if is_whitespace(c) {
            self.next_char();
            return None;
        }
        if is_alphabetic(c) || c == '_' {
            return Some(self.lex_word(start_col));
        }
        if '0' <= c && c <= '9' {
            let mut val: Vec<char> = Vec::new();
            loop
                invariant
                    self.wf(),
                    self.chars@ == s,
                    0 <= p <= self.position <= s.len(),
                    val@ == s.subrange(p, self.position as int),
                    digits_end(s, self.position as int) == digits_end(s, p),
                ensures
                    self.wf(),
                    self.chars@ == s,
                    val@ == s.subrange(p, self.position as int),
                    digits_end(s, p) == self.position as int,
                decreases s.len() - self.position,
            {
                match self.peek_char() {
                    Some(c) => {
                        if '0' <= c && c <= '9' {
                            val.push(c);
                            self.next_char();
                            assert(val@ =~= s.subrange(p, self.position as int));
                        } else {
                            break;
                        }
                    },
                    None => break,
                }
            }
            proof {
                lemma_digits_end(s, p);
                assert(crate::lexer::all_ascii_digits(val@));
            }
            return Some(
                TokenInfo {
                    token: Token::LiteralInteger(integer_value_of(&val)),
                    line: self.line,
                    col: start_col,
                },
            );
        }
        if c == '"' {
            self.next_char();  // Skip opening quote
            let mut text: Vec<char> = Vec::new();
            loop
                invariant
                    self.wf(),
                    self.chars@ == s,
                    0 <= p && p + 1 <= self.position <= s.len(),
                    text@ == s.subrange(p + 1, self.position as int),
                    quote_end(s, self.position as int) == quote_end(s, p + 1),
                ensures
                    self.wf(),
                    self.chars@ == s,
                    text@ == s.subrange(p + 1, self.position as int),
                    quote_end(s, p + 1) == self.position as int,
                decreases s.len() - self.position,
            {
                match self.peek_char() {
                    Some(c) => {
                        if c == '"' {
                            break;
                        }
                        text.push(c);
                        self.next_char();
                        assert(text@ =~= s.subrange(p + 1, self.position as int));
                    },
                    None => break,
                }
            }
            self.next_char();  // Skip closing quote
            return Some(
                TokenInfo {
                    token: Token::LiteralString(string_of(&text)),
                    line: self.line,
                    col: start_col,
                },
            );
        }
        // [u8] handling
        if c == '[' {
            self.next_char();
            // Check for [u8]
            if self.probe_u8_close() {
                proof {
                    lemma_probe_room(s, p);
                }
                self.next_char();  // u
                self.next_char();  // 8
                self.next_char();  // ]
                return Some(TokenInfo { token: Token::TypeU8Array, line: self.line, col: start_col });
            }
            return Some(TokenInfo { token: Token::LBracket, line: self.line, col: start_col });
        }
        let token = self.lex_punct(c);
        Some(TokenInfo { token, line: self.line, col: start_col })
    }

    /// An identifier, keyword or `jit!` at the lexer's position.
    fn lex_word(&mut self, start_col: usize) -> (r: TokenInfo)
        requires
            old(self).wf(),
            old(self).pos() < old(self).text().len(),
            char_alphabetic(old(self).text()[old(self).pos()]) || old(self).text()[old(
                self,
            ).pos()] == '_',
            !char_whitespace(old(self).text()[old(self).pos()]),
            start_col == line_col(old(self).text(), old(self).pos()).1,
        ensures
            final(self).wf(),
            final(self).text() == old(self).text(),
            step(old(self).text(), old(self).pos()) == Some(
                (Some(r@), final(self).pos()),
            ),
    {
        let ghost s = self.chars@;
        let ghost p = self.position as int;
        let mut ident: Vec<char> = Vec::new();
        loop
            invariant
                self.wf(),
                self.chars@ == s,
                0 <= p <= self.position <= s.len(),
                ident@ == s.subrange(p, self.position as int),
                ident_end(s, self.position as int) == ident_end(s, p),
            ensures
                self.wf(),
                self.chars@ == s,
                ident@ == s.subrange(p, self.position as int),
                ident_end(s, p) == self.position as int,
            decreases s.len() - self.position,
        {
            match self.peek_char() {
                Some(c) => {
                    if is_alphanumeric(c) || c == '_' {
                        ident.push(c);
                        self.next_char();
                        assert(ident@ =~= s.subrange(p, self.position as int));
                    } else {
                        break;
                    }
                },
                None => break,
            }
        }
        let word = string_of(&ident);
        // Check for jit!
        if str_eq(word.as_str(), "jit") && self.peek_char() == Some('!') {
            self.next_char();
            return TokenInfo { token: Token::JitBang, line: self.line, col: start_col };
        }
        let token = word_token(word);
        TokenInfo { token, line: self.line, col: start_col }
    }

    /// Punctuation at the lexer's position.
    fn lex_punct(&mut self, c: char) -> (r: Token)
        requires
            old(self).wf(),
            old(self).pos() < old(self).text().len(),
            c == old(self).text()[old(self).pos()],
        ensures
            final(self).wf(),
            final(self).text() == old(self).text(),
            (r@, final(self).pos()) == (if c == '-' && old(self).pos() + 1 < old(
                self,
            ).text().len() && old(self).text()[old(self).pos() + 1] == '>' {
                (TokV::Arrow, old(self).pos() + 2)
            } else if c == '-' {
                (TokV::EOF, old(self).pos() + 1)
            } else {
                (punct(c), old(self).pos() + 1)
            }),
    {
        match c {
            '(' => {
                self.next_char();
                Token::LParen
            },
            ')' => {
                self.next_char();
                Token::RParen
            },
            '{' => {
                self.next_char();
                Token::LBrace
            },
            '}' => {
                self.next_char();
                Token::RBrace
            },
            ']' => {
                self.next_char();
                Token::RBracket
            },
            ',' => {
                self.next_char();
                Token::Comma
            },
            '.' => {
                self.next_char();
                Token::Dot
            },
            '!' => {
                self.next_char();
                Token::Bang
            },
            ':' => {
                self.next_char();
                Token::Colon
            },
            ';' => {
                self.next_char();
                Token::SemiColon
            },
            '<' => {
                self.next_char();
                Token::LessThan
            },
            '>' => {
                self.next_char();
                Token::GreaterThan
            },
            '=' => {
                self.next_char();
                Token::Assign
            },
            '-' => {
                self.next_char();
                if self.peek_char() == Some('>') {
                    self.next_char();
                    Token::Arrow
                } else {
                    Token::EOF  // Placeholder for Minus

                }
            },
            _ => {
                self.next_char();
                Token::EOF  // Placeholder for Unknown

            },
        }
    }

    /// Whether one step of the lexer at its position panics: an integer
    /// that does not fit in `i64`, or a `[` whose probe offset falls inside
    /// a character.
    fn step_panics(&self) -> (r: bool)
        requires
            self.wf(),
            self.pos() < self.text().len(),
        ensures
            r == (step(self.text(), self.pos()) is None),
    {
        let ghost s = self.chars@;
        let ghost p = self.position as int;
        let c = self.chars[self.position];
        if is_whitespace(c) || is_alphabetic(c) || c == '_' {
            return false;
        }
        if '0' <= c && c <= '9' {
            let mut val: Vec<char> = Vec::new();
            let mut k: usize = self.position;
            while k < self.chars.len() && '0' <= self.chars[k] && self.chars[k] <= '9'
                invariant
                    self.wf(),
                    self.chars@ == s,
                    p == self.position,
                    p <= k <= s.len(),
                    val@ == s.subrange(p, k as int),
                    digits_end(s, k as int) == digits_end(s, p),
                decreases s.len() - k,
            {
                val.push(self.chars[k]);
                k = k + 1;
                assert(val@ =~= s.subrange(p, k as int));
            }
            proof {
                lemma_digits_end(s, p);
                assert(all_ascii_digits(val@));
            }
            return !decimal_fits(&val);
        }
        if c == '[' {
            let text = self.source.as_str();
            assert(text@ == s);
            proof {
                crate::text::lemma_utf8_len_ge(s);
            }
            let bytes = text.as_bytes();
            let idx = bytes.len() - (self.chars.len() - (self.position + 1));
            assert(idx == u8_probe(s, p));
            return !text.is_char_boundary(idx);
        }
        false
    }

    /// Tokenizes the rest of the text as `tokenize` does, or gives `None`
    /// where `tokenize` would panic (an integer that does not fit in `i64`,
    /// or a `[` whose probe offset falls inside a character).
    pub fn try_tokenize(&mut self) -> (r: Option<Vec<TokenInfo>>)
        requires
            old(self).wf(),
        ensures
            final(self).wf(),
            final(self).text() == old(self).text(),
            r is Some <==> tokens_from(old(self).text(), old(self).pos()) is Some,
            r matches Some(tokens) ==> tokens@.map_values(|t: TokenInfo| t@) == tokens_from(
                old(self).text(),
                old(self).pos(),
            )->0,
    {
        let ghost s = self.chars@;
        let ghost p0 = self.position as int;
        let mut tokens: Vec<TokenInfo> = Vec::new();
        loop
            invariant
                self.wf(),
                self.chars@ == s,
                s == old(self).text(),
                p0 == old(self).pos(),
                0 <= p0 <= self.position <= s.len(),
                tokens_from(s, p0) is Some <==> tokens_from(s, self.position as int) is Some,
                tokens_from(s, self.position as int) is Some ==> tokens@.map_values(
                    |t: TokenInfo| t@,
                ) + tokens_from(s, self.position as int)->0 == tokens_from(s, p0)->0,
            decreases s.len() - self.position,
        {
            let ghost p = self.position as int;
            let ghost before = tokens@.map_values(|t: TokenInfo| t@);
            if self.peek_char().is_none() {
                let info = TokenInfo { token: Token::EOF, line: self.line, col: self.col };
                tokens.push(info);
                assert(tokens@.map_values(|t: TokenInfo| t@) =~= before.push(info@));
                assert(before + seq![info@] =~= before.push(info@));
                return Some(tokens);
            }
            if self.step_panics() {
                return None;
            }
            proof {
                lemma_step(s, p);
            }
            match self.step_token() {
                Some(info) => {
                    tokens.push(info);
                    proof {
                        assert(tokens@.map_values(|t: TokenInfo| t@) =~= before.push(info@));
                        if tokens_from(s, self.position as int) is Some {
                            assert(before + (seq![info@] + tokens_from(
                                s,
                                self.position as int,
                            )->0) =~= before.push(info@) + tokens_from(
                                s,
                                self.position as int,
                            )->0);
                        }
                    }
                },
                None => {},
            }
        }
    }

    pub fn tokenize(&mut self) -> (tokens: Vec<TokenInfo>)
        requires
            old(self).wf(),
            tokens_from(old(self).text(), old(self).pos()) is Some,
        ensures
            final(self).wf(),
            final(self).text() == old(self).text(),
            final(self).pos() == old(self).text().len(),
            tokens@.map_values(|t: TokenInfo| t@) == tokens_from(old(self).text(), old(self).pos())->0,
            tokens@.len() > 0,
            tokens@.last().token is EOF,
    {
        let ghost s = self.chars@;
        let ghost p0 = self.position as int;
        let mut tokens: Vec<TokenInfo> = Vec::new();
        loop
            invariant
                self.wf(),
                self.chars@ == s,
                0 <= p0 <= self.position <= s.len(),
                tokens_from(s, self.position as int) is Some,
                tokens@.map_values(|t: TokenInfo| t@) + tokens_from(s, self.position as int)->0
                    == tokens_from(s, p0)->0,
            ensures
                self.wf(),
                self.chars@ == s,
                self.position == s.len(),
                tokens@.map_values(|t: TokenInfo| t@) + tokens_from(s, self.position as int)->0
                    == tokens_from(s, p0)->0,
            decreases s.len() - self.position,
        {
            let ghost p = self.position as int;
            let ghost before = tokens@.map_values(|t: TokenInfo| t@);
            if self.peek_char().is_none() {
                break;
            }
            proof {
                lemma_step(s, p);
            }
            match self.step_token() {
                Some(info) => {
                    tokens.push(info);
                    assert(tokens@.map_values(|t: TokenInfo| t@) =~= before.push(info@));
                    assert(before + (seq![info@] + tokens_from(s, self.position as int)->0)
                        =~= before.push(info@) + tokens_from(s, self.position as int)->0);
                },
                None => {},
            }
        }
        let info = TokenInfo { token: Token::EOF, line: self.line, col: self.col };
        let ghost before = tokens@.map_values(|t: TokenInfo| t@);
        tokens.push(info);
        assert(tokens@.map_values(|t: TokenInfo| t@) =~= before.push(info@));
        assert(before + seq![info@] =~= before.push(info@));
        tokens
    }
}

} // verus!
