//! The lexer of the Spaceship language: it turns source text into tokens
//! that carry the line and column where they start.
use vstd::prelude::*;
use crate::text::{
    chars_of, is_alphabetic, is_alphanumeric, is_numeric, string_of, char_alphabetic,
    unicode_alphanumeric, char_numeric,
};

verus! {

/// Token types for the Spaceship language.
///
/// A floating-point literal carries its source text (digits and one `.`),
/// from which a caller reads the number it denotes.
#[derive(Debug, Clone, PartialEq)]
pub enum TokenType {
    // Literals
    Integer(i64),
    Float(String),
    String(String),
    True,
    False,
    // Keywords
    Let,
    Const,
    Fn,
    If,
    Else,
    While,
    For,
    Return,
    Check,
    Except,
    Process,
    Jit,
    // Types
    Bool,
    I8,
    I16,
    I32,
    I64,
    I128,
    U8,
    U16,
    U32,
    U64,
    U128,
    F32,
    F64,
    // Operators
    Plus,
    Minus,
    Star,
    Slash,
    Percent,
    Equal,
    EqualEqual,
    NotEqual,
    Less,
    LessEqual,
    Greater,
    GreaterEqual,
    And,
    Or,
    Not,
    Dot,
    Colon,
    Semicolon,
    Comma,
    Arrow,
    FatArrow,
    Pipe,
    Exclaim,
    Question,
    // Delimiters
    LeftParen,
    RightParen,
    LeftBrace,
    RightBrace,
    LeftBracket,
    RightBracket,
    // Identifiers
    Identifier(String),
    // Special
    Eof,
    Unknown(char),
}

/// The mathematical value of a token type: the kinds that carry text carry
/// it as a sequence of characters, the others stand for themselves.
pub enum Lexeme {
    Plain(TokenType),
    Text(Seq<char>),
    Float(Seq<char>),
    Ident(Seq<char>),
}

impl View for TokenType {
    type V = Lexeme;

    open spec fn view(&self) -> Lexeme {
        match self {
            TokenType::String(s) => Lexeme::Text(s@),
            TokenType::Float(s) => Lexeme::Float(s@),
            TokenType::Identifier(s) => Lexeme::Ident(s@),
            _ => Lexeme::Plain(*self),
        }
    }
}

#[derive(Debug, Clone)]
pub struct Token {
    pub token_type: TokenType,
    pub line: usize,
    pub column: usize,
}

/// A token as a value: its kind, and the line and column of its first character.
pub struct TokenView {
    pub kind: Lexeme,
    pub line: nat,
    pub column: nat,
}

impl View for Token {
    type V = TokenView;

    open spec fn view(&self) -> TokenView {
        TokenView { kind: self.token_type@, line: self.line as nat, column: self.column as nat }
    }
}

// ---------------------------------------------------------------------------
// The lexical grammar, as functions of the text and a position in it.
// ---------------------------------------------------------------------------

/// Line and column of position `p` of `s`: lines and columns count from 1,
/// a newline starts a new line, every other character moves one column on.
pub open spec fn line_col(s: Seq<char>, p: int) -> (nat, nat)
    decreases p,
{
    if p <= 0 {
        (1, 1)
    } else {
        let (l, c) = line_col(s, p - 1);
        if s[p - 1] == '\n' {
            (l + 1, 1)
        } else {
            (l, c + 1)
        }
    }
}

/// Blanks that separate tokens.
pub open spec fn is_blank(c: char) -> bool {
    c == ' ' || c == '\t' || c == '\n' || c == '\r'
}

/// End of a `//` comment whose text starts at `q`: the next newline, which is
/// left in place, or the end of the input.
pub open spec fn line_comment_end(s: Seq<char>, q: int) -> int
    decreases s.len() - q,
{
    if q >= s.len() || s[q] == '\n' {
        q
    } else {
        line_comment_end(s, q + 1)
    }
}

/// End of a `/* */` comment whose text starts at `q`: just after the first
/// `*/`, or the end of the input when there is none.
pub open spec fn block_comment_end(s: Seq<char>, q: int) -> int
    decreases s.len() - q,
{
    if q >= s.len() {
        q
    } else if s[q] == '*' && q + 1 < s.len() && s[q + 1] == '/' {
        q + 2
    } else {
        block_comment_end(s, q + 1)
    }
}

/// Position of the first character at or after `p` that belongs to a token:
/// blanks and comments are passed over. With `stop_nl`, a newline outside a
/// comment stops the scan.
pub open spec fn skip_end(s: Seq<char>, p: int, stop_nl: bool) -> int
    decreases s.len() - p,
{
    if p >= s.len() {
        p
    } else if stop_nl && s[p] == '\n' {
        p
    } else if is_blank(s[p]) {
        skip_end(s, p + 1, stop_nl)
    } else if s[p] == '/' && p + 1 < s.len() && s[p + 1] == '/' {
        proof {
            lemma_line_comment_end(s, p + 2);
        }
        skip_end(s, line_comment_end(s, p + 2), stop_nl)
    } else if s[p] == '/' && p + 1 < s.len() && s[p + 1] == '*' {
        proof {
            lemma_block_comment_end(s, p + 2);
        }
        skip_end(s, block_comment_end(s, p + 2), stop_nl)
    } else {
        p
    }
}

/// The character that `\c` stands for inside a string literal.
pub open spec fn unescape(c: char) -> char {
    if c == 'n' {
        '\n'
    } else if c == 't' {
        '\t'
    } else if c == 'r' {
        '\r'
    } else {
        c
    }
}

/// The contents of a string literal whose body starts at `q`, and the position
/// after it: the literal ends after its closing quote, or at the end of the input.
pub open spec fn string_body(s: Seq<char>, q: int) -> (Seq<char>, int)
    decreases s.len() - q,
{
    if q >= s.len() {
        (seq![], q)
    } else if s[q] == '"' {
        (seq![], q + 1)
    } else if s[q] == '\\' {
        if q + 1 < s.len() {
            let r = string_body(s, q + 2);
            (seq![unescape(s[q + 1])] + r.0, r.1)
        } else {
            (seq![], q + 1)
        }
    } else {
        let r = string_body(s, q + 1);
        (seq![s[q]] + r.0, r.1)
    }
}

/// End of a number that goes on at `q`, and whether it holds a `.`:
/// numeric characters, and at most one `.`.
pub open spec fn number_end(s: Seq<char>, q: int, dot: bool) -> (int, bool)
    decreases s.len() - q,
{
    if q >= s.len() {
        (q, dot)
    } else if char_numeric(s[q]) {
        number_end(s, q + 1, dot)
    } else if s[q] == '.' && !dot {
        number_end(s, q + 1, true)
    } else {
        (q, dot)
    }
}

/// End of an identifier that goes on at `q`.
pub open spec fn ident_end(s: Seq<char>, q: int) -> int
    decreases s.len() - q,
{
    if q >= s.len() || !(unicode_alphanumeric(s[q]) || s[q] == '_') {
        q
    } else {
        ident_end(s, q + 1)
    }
}

/// Decimal value of a sequence of ASCII digits.
pub open spec fn decimal(d: Seq<char>) -> int
    decreases d.len(),
{
    if d.len() == 0 {
        0
    } else {
        decimal(d.drop_last()) * 10 + (d.last() as int - '0' as int)
    }
}

pub open spec fn all_ascii_digits(d: Seq<char>) -> bool {
    forall|i: int| 0 <= i < d.len() ==> '0' <= #[trigger] d[i] && d[i] <= '9'
}

/// Value of an integer literal: the decimal value of its digits when they are
/// all ASCII digits and it fits in `i64`, else 0.
pub open spec fn integer_value(d: Seq<char>) -> i64 {
    if d.len() > 0 && all_ascii_digits(d) && decimal(d) <= i64::MAX {
        decimal(d) as i64
    } else {
        0
    }
}

/// Keywords and type names.
pub open spec fn keyword(w: Seq<char>) -> Option<TokenType> {
    if w == "let"@ {
        Some(TokenType::Let)
    } else if w == "const"@ {
        Some(TokenType::Const)
    } else if w == "fn"@ {
        Some(TokenType::Fn)
    } else if w == "if"@ {
        Some(TokenType::If)
    } else if w == "else"@ {
        Some(TokenType::Else)
    } else if w == "while"@ {
        Some(TokenType::While)
    } else if w == "for"@ {
        Some(TokenType::For)
    } else if w == "return"@ {
        Some(TokenType::Return)
    } else if w == "check"@ {
        Some(TokenType::Check)
    } else if w == "except"@ {
        Some(TokenType::Except)
    } else if w == "Process"@ {
        Some(TokenType::Process)
    } else if w == "jit"@ {
        Some(TokenType::Jit)
    } else if w == "true"@ {
        Some(TokenType::True)
    } else if w == "false"@ {
        Some(TokenType::False)
    } else if w == "bool"@ {
        Some(TokenType::Bool)
    } else if w == "i8"@ {
        Some(TokenType::I8)
    } else if w == "i16"@ {
        Some(TokenType::I16)
    } else if w == "i32"@ {
        Some(TokenType::I32)
    } else if w == "i64"@ {
        Some(TokenType::I64)
    } else if w == "i128"@ {
        Some(TokenType::I128)
    } else if w == "u8"@ {
        Some(TokenType::U8)
    } else if w == "u16"@ {
        Some(TokenType::U16)
    } else if w == "u32"@ {
        Some(TokenType::U32)
    } else if w == "u64"@ {
        Some(TokenType::U64)
    } else if w == "u128"@ {
        Some(TokenType::U128)
    } else if w == "f32"@ {
        Some(TokenType::F32)
    } else if w == "f64"@ {
        Some(TokenType::F64)
    } else {
        None
    }
}

/// Operators of two characters.
pub open spec fn two_char_token(c: char, d: char) -> Option<TokenType> {
    if c == '-' && d == '>' {
        Some(TokenType::Arrow)
    } else if c == '=' && d == '=' {
        Some(TokenType::EqualEqual)
    } else if c == '=' && d == '>' {
        Some(TokenType::FatArrow)
    } else if c == '!' && d == '=' {
        Some(TokenType::NotEqual)
    } else if c == '<' && d == '=' {
        Some(TokenType::LessEqual)
    } else if c == '>' && d == '=' {
        Some(TokenType::GreaterEqual)
    } else if c == '&' && d == '&' {
        Some(TokenType::And)
    } else if c == '|' && d == '|' {
        Some(TokenType::Or)
    } else {
        None
    }
}

/// Operators and delimiters of one character.
pub open spec fn one_char_token(c: char) -> Option<TokenType> {
    if c == '(' {
        Some(TokenType::LeftParen)
    } else if c == ')' {
        Some(TokenType::RightParen)
    } else if c == '{' {
        Some(TokenType::LeftBrace)
    } else if c == '}' {
        Some(TokenType::RightBrace)
    } else if c == '[' {
        Some(TokenType::LeftBracket)
    } else if c == ']' {
        Some(TokenType::RightBracket)
    } else if c == '+' {
        Some(TokenType::Plus)
    } else if c == '-' {
        Some(TokenType::Minus)
    } else if c == '*' {
        Some(TokenType::Star)
    } else if c == '/' {
        Some(TokenType::Slash)
    } else if c == '%' {
        Some(TokenType::Percent)
    } else if c == '=' {
        Some(TokenType::Equal)
    } else if c == '!' {
        Some(TokenType::Exclaim)
    } else if c == '<' {
        Some(TokenType::Less)
    } else if c == '>' {
        Some(TokenType::Greater)
    } else if c == '|' {
        Some(TokenType::Pipe)
    } else if c == '.' {
        Some(TokenType::Dot)
    } else if c == ':' {
        Some(TokenType::Colon)
    } else if c == ';' {
        Some(TokenType::Semicolon)
    } else if c == ',' {
        Some(TokenType::Comma)
    } else if c == '?' {
        Some(TokenType::Question)
    } else {
        None
    }
}

/// The number token that starts at `p`, and the position after it.
pub open spec fn number_token(s: Seq<char>, p: int) -> (Lexeme, int) {
    let (e, dot) = number_end(s, p, false);
    let text = s.subrange(p, e);
    if dot {
        (Lexeme::Float(text), e)
    } else {
        (Lexeme::Plain(TokenType::Integer(integer_value(text))), e)
    }
}

/// The identifier or keyword that starts at `p`, and the position after it.
pub open spec fn word_token(s: Seq<char>, p: int) -> (Lexeme, int) {
    let e = ident_end(s, p);
    let w = s.subrange(p, e);
    match keyword(w) {
        Some(t) => (Lexeme::Plain(t), e),
        None => (Lexeme::Ident(w), e),
    }
}

/// The token that starts at `p` (a position inside the text that is not a
/// blank and starts no comment), and the position after it.
pub open spec fn scan(s: Seq<char>, p: int) -> (Lexeme, int) {
    let c = s[p];
    if c == '"' {
        let (body, e) = string_body(s, p + 1);
        (Lexeme::Text(body), e)
    } else if p + 1 < s.len() && two_char_token(c, s[p + 1]) is Some {
        (Lexeme::Plain(two_char_token(c, s[p + 1])->0), p + 2)
    } else if one_char_token(c) is Some {
        (Lexeme::Plain(one_char_token(c)->0), p + 1)
    } else if c == '&' {
        (Lexeme::Plain(TokenType::Unknown('&')), p + 1)
    } else if char_numeric(c) {
        number_token(s, p)
    } else if char_alphabetic(c) || c == '_' {
        word_token(s, p)
    } else {
        (Lexeme::Plain(TokenType::Unknown(c)), p + 1)
    }
}

/// Tokens after which a line break ends a statement, as in Go: names,
/// literals, type names, `return`, and closing delimiters.
pub open spec fn ends_statement(k: Lexeme) -> bool {
    match k {
        Lexeme::Plain(t) => match t {
            TokenType::Integer(_) | TokenType::True | TokenType::False | TokenType::Return
            | TokenType::RightParen | TokenType::RightBracket | TokenType::RightBrace
            | TokenType::Bool | TokenType::I8 | TokenType::I16 | TokenType::I32 | TokenType::I64
            | TokenType::I128 | TokenType::U8 | TokenType::U16 | TokenType::U32 | TokenType::U64
            | TokenType::U128 | TokenType::F32 | TokenType::F64 => true,
            _ => false,
        },
        _ => true,
    }
}

/// The token that the lexer reads at position `p`, the position after it,
/// and whether a line break after it ends a statement. Blanks and comments
/// are passed over; when `nl` holds (the token before ends a statement) the
/// next line break is read as a `;`; the token carries the line and column
/// of its first character, and at the end of the text it is `Eof`.
pub open spec fn next_token_at(s: Seq<char>, p: int, nl: bool) -> (TokenView, int, bool) {
    let q = skip_end(s, p, nl);
    let (l, c) = line_col(s, q);
    if q >= s.len() {
        (TokenView { kind: Lexeme::Plain(TokenType::Eof), line: l, column: c }, q, false)
    } else if nl && s[q] == '\n' {
        (TokenView { kind: Lexeme::Plain(TokenType::Semicolon), line: l, column: c }, q + 1, false)
    } else {
        let (k, e) = scan(s, q);
        (TokenView { kind: k, line: l, column: c }, e, ends_statement(k))
    }
}

/// All tokens from position `p` on, the last of them `Eof`.
pub open spec fn tokens_from(s: Seq<char>, p: int, nl: bool) -> Seq<TokenView>
    decreases s.len() - p,
{
    let (t, e, nl2) = next_token_at(s, p, nl);
    if p < 0 || p > s.len() {
        seq![]
    } else if skip_end(s, p, nl) >= s.len() {
        seq![t]
    } else {
        proof {
            lemma_next_token_progress(s, p, nl);
        }
        seq![t] + tokens_from(s, e, nl2)
    }
}

/// Whether a token view is the end-of-input token.
pub open spec fn is_eof(t: TokenView) -> bool {
    t.kind == Lexeme::Plain(TokenType::Eof)
}

// ---------------------------------------------------------------------------
// Lemmas about the grammar.
// ---------------------------------------------------------------------------

pub proof fn lemma_line_col_bounds(s: Seq<char>, p: int)
    requires
        0 <= p,
    ensures
        1 <= line_col(s, p).0 <= p + 1,
        1 <= line_col(s, p).1 <= p + 1,
    decreases p,
{
    if p > 0 {
        lemma_line_col_bounds(s, p - 1);
    }
}

pub proof fn lemma_line_comment_end(s: Seq<char>, q: int)
    ensures
        q <= line_comment_end(s, q),
        q <= s.len() ==> line_comment_end(s, q) <= s.len(),
    decreases s.len() - q,
{
    if !(q >= s.len() || s[q] == '\n') {
        lemma_line_comment_end(s, q + 1);
    }
}

pub proof fn lemma_block_comment_end(s: Seq<char>, q: int)
    ensures
        q <= block_comment_end(s, q),
        q <= s.len() ==> block_comment_end(s, q) <= s.len(),
    decreases s.len() - q,
{
    if q < s.len() && !(s[q] == '*' && q + 1 < s.len() && s[q + 1] == '/') {
        lemma_block_comment_end(s, q + 1);
    }
}

pub proof fn lemma_skip_end(s: Seq<char>, p: int, nl: bool)
    requires
        0 <= p <= s.len(),
    ensures
        p <= skip_end(s, p, nl) <= s.len(),
    decreases s.len() - p,
{
    if p < s.len() && !(nl && s[p] == '\n') {
        if is_blank(s[p]) {
            lemma_skip_end(s, p + 1, nl);
        } else if s[p] == '/' && p + 1 < s.len() && s[p + 1] == '/' {
            lemma_line_comment_end(s, p + 2);
            lemma_skip_end(s, line_comment_end(s, p + 2), nl);
        } else if s[p] == '/' && p + 1 < s.len() && s[p + 1] == '*' {
            lemma_block_comment_end(s, p + 2);
            lemma_skip_end(s, block_comment_end(s, p + 2), nl);
        }
    }
}

pub proof fn lemma_string_body(s: Seq<char>, q: int)
    requires
        0 <= q <= s.len(),
    ensures
        q < string_body(s, q).1 <= s.len() || (q == s.len() && string_body(s, q).1 == q),
    decreases s.len() - q,
{
    if q < s.len() && s[q] != '"' {
        if s[q] == '\\' {
            if q + 1 < s.len() {
                lemma_string_body(s, q + 2);
            }
        } else {
            lemma_string_body(s, q + 1);
        }
    }
}

pub proof fn lemma_number_end(s: Seq<char>, q: int, dot: bool)
    requires
        0 <= q <= s.len(),
    ensures
        q <= number_end(s, q, dot).0 <= s.len(),
    decreases s.len() - q,
{
    if q < s.len() {
        if char_numeric(s[q]) {
            lemma_number_end(s, q + 1, dot);
        } else if s[q] == '.' && !dot {
            lemma_number_end(s, q + 1, true);
        }
    }
}

pub proof fn lemma_ident_end(s: Seq<char>, q: int)
    requires
        0 <= q <= s.len(),
    ensures
        q <= ident_end(s, q) <= s.len(),
    decreases s.len() - q,
{
    if q < s.len() && (unicode_alphanumeric(s[q]) || s[q] == '_') {
        lemma_ident_end(s, q + 1);
    }
}

/// A token that is read inside the text ends after its first character.
pub proof fn lemma_scan(s: Seq<char>, p: int)
    requires
        0 <= p < s.len(),
    ensures
        p < scan(s, p).1 <= s.len(),
        scan(s, p).0 != Lexeme::Plain(TokenType::Eof),
{
    let c = s[p];
    if c == '"' {
        lemma_string_body(s, p + 1);
    } else if p + 1 < s.len() && two_char_token(c, s[p + 1]) is Some {
    } else if one_char_token(c) is Some {
    } else if c == '&' {
    } else if char_numeric(c) {
        lemma_number_end(s, p + 1, false);
        assert(number_end(s, p, false) == number_end(s, p + 1, false));
    } else if char_alphabetic(c) || c == '_' {
        lemma_ident_end(s, p + 1);
        assert(ident_end(s, p) == ident_end(s, p + 1));
    }
}

pub proof fn lemma_next_token_progress(s: Seq<char>, p: int, nl: bool)
    requires
        0 <= p <= s.len(),
    ensures
        p <= skip_end(s, p, nl) <= s.len(),
        p <= next_token_at(s, p, nl).1 <= s.len(),
        skip_end(s, p, nl) < s.len() ==> p < next_token_at(s, p, nl).1,
        skip_end(s, p, nl) < s.len() ==> !is_eof(next_token_at(s, p, nl).0),
        skip_end(s, p, nl) >= s.len() ==> is_eof(next_token_at(s, p, nl).0) && next_token_at(
            s,
            p,
            nl,
        ).1 == s.len(),
{
    lemma_skip_end(s, p, nl);
    if skip_end(s, p, nl) < s.len() {
        lemma_scan(s, skip_end(s, p, nl));
    }
}

/// Tokenizing ends with exactly one `Eof` token, the last one.
pub proof fn lemma_tokens_from_eof(s: Seq<char>, p: int, nl: bool)
    requires
        0 <= p <= s.len(),
    ensures
        tokens_from(s, p, nl).len() >= 1,
        is_eof(tokens_from(s, p, nl).last()),
        forall|i: int|
            0 <= i < tokens_from(s, p, nl).len() - 1 ==> !is_eof(#[trigger] tokens_from(s, p, nl)[i]),
    decreases s.len() - p,
{
    lemma_next_token_progress(s, p, nl);
    if skip_end(s, p, nl) < s.len() {
        let (t, e, nl2) = next_token_at(s, p, nl);
        lemma_tokens_from_eof(s, e, nl2);
        let rest = tokens_from(s, e, nl2);
        let all = tokens_from(s, p, nl);
        assert(all == seq![t] + rest);
        assert forall|i: int| 0 <= i < all.len() - 1 implies !is_eof(#[trigger] all[i]) by {
            if i > 0 {
                assert(all[i] == rest[i - 1]);
            }
        }
    }
}

/// At the end of input the lexer stays there: the token after `Eof` is the
/// same `Eof`, at the same place, and the position does not move.
pub proof fn lemma_eof_repeats(s: Seq<char>, p: int, nl: bool)
    requires
        0 <= p <= s.len(),
        is_eof(next_token_at(s, p, nl).0),
    ensures
        next_token_at(s, p, nl).1 == s.len(),
        next_token_at(s, next_token_at(s, p, nl).1, next_token_at(s, p, nl).2) == next_token_at(
            s,
            p,
            nl,
        ),
{
    lemma_next_token_progress(s, p, nl);
    lemma_skip_end(s, s.len() as int, false);
    assert(skip_end(s, s.len() as int, false) == s.len());
}

/// Whether the place (line, column) `a` comes strictly before the place `b`.
pub open spec fn place_before(a: (nat, nat), b: (nat, nat)) -> bool {
    a.0 < b.0 || (a.0 == b.0 && a.1 < b.1)
}

/// The place of a token: its line and column.
pub open spec fn place_of(t: TokenView) -> (nat, nat) {
    (t.line, t.column)
}

/// A later position of a text is at a later place.
pub proof fn lemma_line_col_increasing(s: Seq<char>, a: int, b: int)
    requires
        0 <= a < b <= s.len(),
    ensures
        place_before(line_col(s, a), line_col(s, b)),
    decreases b - a,
{
    if b > a + 1 {
        lemma_line_col_increasing(s, a, b - 1);
    }
}

/// The tokens from position `p` on are at places from that of `p` on, each
/// strictly after the one before.
proof fn lemma_tokens_from_ordered(s: Seq<char>, p: int, nl: bool)
    requires
        0 <= p <= s.len(),
    ensures
        forall|i: int|
            0 <= i < tokens_from(s, p, nl).len() ==> !place_before(
                #[trigger] place_of(tokens_from(s, p, nl)[i]),
                line_col(s, p),
            ),
        forall|i: int, j: int|
            0 <= i < j < tokens_from(s, p, nl).len() ==> place_before(
                #[trigger] place_of(tokens_from(s, p, nl)[i]),
                #[trigger] place_of(tokens_from(s, p, nl)[j]),
            ),
    decreases s.len() - p,
{
    lemma_next_token_progress(s, p, nl);
    let q = skip_end(s, p, nl);
    let all = tokens_from(s, p, nl);
    let (t, e, nl2) = next_token_at(s, p, nl);
    assert(place_of(t) == line_col(s, q));
    if q > p {
        lemma_line_col_increasing(s, p, q);
    }
    if q < s.len() {
        assert(q < e) by {
            lemma_scan(s, q);
        }
        lemma_tokens_from_ordered(s, e, nl2);
        lemma_line_col_increasing(s, q, e);
        let rest = tokens_from(s, e, nl2);
        assert(all == seq![t] + rest);
        assert forall|i: int| 0 <= i < all.len() implies !place_before(
            #[trigger] place_of(all[i]),
            line_col(s, p),
        ) by {
            if i > 0 {
                assert(all[i] == rest[i - 1]);
                assert(!place_before(place_of(rest[i - 1]), line_col(s, e)));
            }
        }
        assert forall|i: int, j: int| 0 <= i < j < all.len() implies place_before(
            #[trigger] place_of(all[i]),
            #[trigger] place_of(all[j]),
        ) by {
            assert(all[j] == rest[j - 1]);
            assert(!place_before(place_of(rest[j - 1]), line_col(s, e)));
            if i > 0 {
                assert(all[i] == rest[i - 1]);
            }
        }
    }
}

/// Inside a string literal a backslash escapes the character after it:
/// `\n` stands for a line feed, `\t` for a tab, `\r` for a carriage
/// return, and any other escaped character (a quote, a backslash) for
/// itself. The two characters give one character of the contents, and the
/// literal goes on after them.
pub proof fn lemma_string_escapes(s: Seq<char>, q: int)
    requires
        0 <= q,
        q + 1 < s.len(),
        s[q] == '\\',
    ensures
        string_body(s, q).1 == string_body(s, q + 2).1,
        s[q + 1] == 'n' ==> string_body(s, q).0 == seq!['\n'] + string_body(s, q + 2).0,
        s[q + 1] == 't' ==> string_body(s, q).0 == seq!['\t'] + string_body(s, q + 2).0,
        s[q + 1] == 'r' ==> string_body(s, q).0 == seq!['\r'] + string_body(s, q + 2).0,
        s[q + 1] != 'n' && s[q + 1] != 't' && s[q + 1] != 'r' ==> string_body(s, q).0 == seq![
            s[q + 1],
        ] + string_body(s, q + 2).0,
{
}

/// Inside a string literal any character but a quote or a backslash stands
/// for itself, and a quote closes the literal.
pub proof fn lemma_string_plain_chars(s: Seq<char>, q: int)
    requires
        0 <= q < s.len(),
    ensures
        s[q] == '"' ==> string_body(s, q) == (Seq::<char>::empty(), q + 1),
        s[q] != '"' && s[q] != '\\' ==> string_body(s, q).0 == seq![s[q]] + string_body(
            s,
            q + 1,
        ).0 && string_body(s, q).1 == string_body(s, q + 1).1,
{
}

/// A text that starts with a quote starts with a string token, whose
/// contents are the literal's body read with its escapes.
pub proof fn lemma_leading_string_token(s: Seq<char>)
    requires
        s.len() > 0,
        s[0] == '"',
    ensures
        tokens_from(s, 0, false)[0].kind == Lexeme::Text(string_body(s, 1).0),
{
    assert(skip_end(s, 0, false) == 0);
}

/// Tokens come in the order of the text: each token of a tokenized text is
/// at a place (line, column) strictly after the token before it.
pub proof fn lemma_tokens_in_source_order(s: Seq<char>)
    ensures
        forall|i: int, j: int|
            0 <= i < j < tokens_from(s, 0, false).len() ==> place_before(
                #[trigger] place_of(tokens_from(s, 0, false)[i]),
                #[trigger] place_of(tokens_from(s, 0, false)[j]),
            ),
{
    lemma_tokens_from_ordered(s, 0, false);
}

// ---------------------------------------------------------------------------
// The lexer.
// ---------------------------------------------------------------------------

pub struct Lexer {
    input: Vec<char>,
    position: usize,
    line: usize,
    column: usize,
    /// The last token ends a statement, so the next line break reads as `;`.
    semicolon_pending: bool,
}

/// Whether a line break after a token of this type ends a statement.
fn ends_statement_of(t: &TokenType) -> (r: bool)
    ensures
        r == ends_statement(t@),
{
    match t {
        TokenType::Integer(_) | TokenType::Float(_) | TokenType::String(_) | TokenType::True
        | TokenType::False | TokenType::Return | TokenType::RightParen | TokenType::RightBracket
        | TokenType::RightBrace | TokenType::Bool | TokenType::I8 | TokenType::I16
        | TokenType::I32 | TokenType::I64 | TokenType::I128 | TokenType::U8 | TokenType::U16
        | TokenType::U32 | TokenType::U64 | TokenType::U128 | TokenType::F32 | TokenType::F64
        | TokenType::Identifier(_) => true,
        _ => false,
    }
}

/// Whether `w` holds exactly the characters of `k`.
fn word_is(w: &Vec<char>, k: &str) -> (r: bool)
    ensures
        r == (w@ == k@),
{
    let kc = chars_of(k);
    if w.len() != kc.len() {
        return false;
    }
    let mut i: usize = 0;
    while i < w.len()
        invariant
            w.len() == kc.len(),
            kc@ == k@,
            i <= w.len(),
            forall|j: int| 0 <= j < i ==> w@[j] == kc@[j],
        decreases w.len() - i,
    {
        if w[i] != kc[i] {
            return false;
        }
        i = i + 1;
    }
    assert(w@ =~= kc@);
    true
}

/// The keyword or type name spelled by `w`, if any.
fn keyword_of(w: &Vec<char>) -> (r: Option<TokenType>)
    ensures
        r == keyword(w@),
{
    if word_is(w, "let") {
        Some(TokenType::Let)
    } else if word_is(w, "const") {
        Some(TokenType::Const)
    } else if word_is(w, "fn") {
        Some(TokenType::Fn)
    } else if word_is(w, "if") {
        Some(TokenType::If)
    } else if word_is(w, "else") {
        Some(TokenType::Else)
    } else if word_is(w, "while") {
        Some(TokenType::While)
    } else if word_is(w, "for") {
        Some(TokenType::For)
    } else if word_is(w, "return") {
        Some(TokenType::Return)
    } else if word_is(w, "check") {
        Some(TokenType::Check)
    } else if word_is(w, "except") {
        Some(TokenType::Except)
    } else if word_is(w, "Process") {
        Some(TokenType::Process)
    } else if word_is(w, "jit") {
        Some(TokenType::Jit)
    } else if word_is(w, "true") {
        Some(TokenType::True)
    } else if word_is(w, "false") {
        Some(TokenType::False)
    } else if word_is(w, "bool") {
        Some(TokenType::Bool)
    } else if word_is(w, "i8") {
        Some(TokenType::I8)
    } else if word_is(w, "i16") {
        Some(TokenType::I16)
    } else if word_is(w, "i32") {
        Some(TokenType::I32)
    } else if word_is(w, "i64") {
        Some(TokenType::I64)
    } else if word_is(w, "i128") {
        Some(TokenType::I128)
    } else if word_is(w, "u8") {
        Some(TokenType::U8)
    } else if word_is(w, "u16") {
        Some(TokenType::U16)
    } else if word_is(w, "u32") {
        Some(TokenType::U32)
    } else if word_is(w, "u64") {
        Some(TokenType::U64)
    } else if word_is(w, "u128") {
        Some(TokenType::U128)
    } else if word_is(w, "f32") {
        Some(TokenType::F32)
    } else if word_is(w, "f64") {
        Some(TokenType::F64)
    } else {
        None
    }
}

proof fn lemma_decimal_prefix_monotone(d: Seq<char>, i: int, j: int)
    requires
        0 <= i <= j <= d.len(),
        all_ascii_digits(d.take(j)),
    ensures
        decimal(d.take(i)) <= decimal(d.take(j)),
        0 <= decimal(d.take(i)),
    decreases j - i + j,
{
    if j > 0 {
        assert(d.take(j).drop_last() =~= d.take(j - 1));
        assert(all_ascii_digits(d.take(j - 1))) by {
            assert forall|k: int| 0 <= k < d.take(j - 1).len() implies '0' <= #[trigger] d.take(
                j - 1,
            )[k] && d.take(j - 1)[k] <= '9' by {
                assert(d.take(j - 1)[k] == d.take(j)[k]);
            }
        }
        assert('0' <= d.take(j)[j - 1] <= '9');
        if i < j {
            lemma_decimal_prefix_monotone(d, i, j - 1);
        } else {
            lemma_decimal_prefix_monotone(d, j - 1, j - 1);
        }
        assert(decimal(d.take(j)) == decimal(d.take(j - 1)) * 10 + (d.take(j).last() as int
            - '0' as int));
    } else {
        assert(d.take(0).len() == 0);
    }
}

/// The value of an integer literal, as `str::parse::<i64>` followed by
/// `unwrap_or(0)` computes it for a run of numeric characters.
pub fn integer_value_of(d: &Vec<char>) -> (r: i64)
    ensures
        r == integer_value(d@),
{
    if d.len() == 0 {
        return 0;
    }
    let mut acc: i64 = 0;
    let mut i: usize = 0;
    while i < d.len()
        invariant
            i <= d.len(),
            all_ascii_digits(d@.take(i as int)),
            acc == decimal(d@.take(i as int)),
            acc >= 0,
        decreases d.len() - i,
    {
        let c = d[i];
        if !('0' <= c && c <= '9') {
            assert(!all_ascii_digits(d@)) by {
                assert(d@[i as int] == c);
            }
            return 0;
        }
        let digit: i64 = (c as u32 - '0' as u32) as i64;
        assert(d@.take(i + 1).drop_last() =~= d@.take(i as int));
        assert(d@.take(i + 1).last() == c);
        assert(all_ascii_digits(d@.take(i + 1))) by {
            assert forall|k: int| 0 <= k < d@.take(i + 1).len() implies '0' <= #[trigger] d@.take(
                i + 1,
            )[k] && d@.take(i + 1)[k] <= '9' by {
                if k < i {
                    assert(d@.take(i + 1)[k] == d@.take(i as int)[k]);
                }
            }
        }
        assert(decimal(d@.take(i + 1)) == decimal(d@.take(i as int)) * 10 + digit);
        match acc.checked_mul(10) {
            Some(m) => match m.checked_add(digit) {
                Some(n) => {
                    acc = n;
                },
                None => {
                    proof {
                        lemma_overflow_gives_zero(d@, i as int + 1);
                    }
                    return 0;
                },
            },
            None => {
                proof {
                    lemma_overflow_gives_zero(d@, i as int + 1);
                }
                return 0;
            },
        }
        i = i + 1;
    }
    assert(d@.take(d.len() as int) =~= d@);
    acc
}

/// Whether the decimal value of a run of ASCII digits fits in `i64`.
pub(crate) fn decimal_fits(d: &Vec<char>) -> (r: bool)
    requires
        all_ascii_digits(d@),
    ensures
        r == (decimal(d@) <= i64::MAX),
{
    let mut acc: i64 = 0;
    let mut i: usize = 0;
    while i < d.len()
        invariant
            i <= d.len(),
            all_ascii_digits(d@),
            acc == decimal(d@.take(i as int)),
            acc >= 0,
        decreases d.len() - i,
    {
        let c = d[i];
        assert(d@[i as int] == c);
        let digit: i64 = (c as u32 - '0' as u32) as i64;
        assert(d@.take(i + 1).drop_last() =~= d@.take(i as int));
        assert(d@.take(i + 1).last() == c);
        assert(decimal(d@.take(i + 1)) == decimal(d@.take(i as int)) * 10 + digit);
        assert(all_ascii_digits(d@.take(d.len() as int))) by {
            assert(d@.take(d.len() as int) =~= d@);
        }
        let next = match acc.checked_mul(10) {
            Some(m) => m.checked_add(digit),
            None => None,
        };
        match next {
            Some(n) => {
                acc = n;
            },
            None => {
                proof {
                    lemma_decimal_prefix_monotone(d@, i as int + 1, d.len() as int);
                    assert(d@.take(d.len() as int) =~= d@);
                }
                return false;
            },
        }
        i = i + 1;
    }
    assert(d@.take(d.len() as int) =~= d@);
    true
}

/// Once a prefix of digits exceeds `i64::MAX`, the literal's value is 0.
proof fn lemma_overflow_gives_zero(d: Seq<char>, j: int)
    requires
        0 < j <= d.len(),
        all_ascii_digits(d.take(j)),
        decimal(d.take(j)) > i64::MAX,
    ensures
        integer_value(d) == 0,
{
    if all_ascii_digits(d) {
        assert(d.take(d.len() as int) =~= d);
        lemma_decimal_prefix_monotone(d, j, d.len() as int);
    }
}

impl Lexer {
    /// The text that the lexer reads.
    pub closed spec fn text(&self) -> Seq<char> {
        self.input@
    }

    /// The position of the next character to read.
    pub closed spec fn pos(&self) -> int {
        self.position as int
    }

    /// Whether the next line break reads as `;`.
    pub closed spec fn pending(&self) -> bool {
        self.semicolon_pending
    }

    /// The position of a well-formed lexer lies in its text.
    pub proof fn lemma_pos_in_text(&self)
        requires
            self.wf(),
        ensures
            0 <= self.pos() <= self.text().len(),
    {
    }

    /// The lexer's fields agree: the position lies in the text, and line and
    /// column are those of the position.
    pub closed spec fn wf(&self) -> bool {
        &&& self.position <= self.input.len()
        &&& self.input.len() < usize::MAX
        &&& line_col(self.input@, self.position as int) == (self.line as nat, self.column as nat)
    }

    /// A lexer at the start of `input`, at line 1, column 1.
    pub fn new(input: &str) -> (lexer: Self)
        requires
            input@.len() < usize::MAX,
        ensures
            lexer.wf(),
            lexer.text() == input@,
            lexer.pos() == 0,
            !lexer.pending(),
    {
        Self { input: chars_of(input), position: 0, line: 1, column: 1, semicolon_pending: false }
    }

    /// Get the current character without consuming it
    fn peek(&self) -> (r: Option<char>)
        requires
            self.wf(),
        ensures
            r == (if self.pos() < self.text().len() {
                Some(self.text()[self.pos()])
            } else {
                None
            }),
    {
        if self.position < self.input.len() {
            Some(self.input[self.position])
        } else {
            None
        }
    }

    /// Get the next character without consuming it
    fn peek_next(&self) -> (r: Option<char>)
        requires
            self.wf(),
        ensures
            r == (if self.pos() + 1 < self.text().len() {
                Some(self.text()[self.pos() + 1])
            } else {
                None
            }),
    {
        if self.position + 1 < self.input.len() {
            Some(self.input[self.position + 1])
        } else {
            None
        }
    }

    /// Consume and return the current character
    fn next_char(&mut self) -> (r: Option<char>)
        requires
            old(self).wf(),
        ensures
            final(self).wf(),
            final(self).text() == old(self).text(),
            final(self).pending() == old(self).pending(),
            r == (if old(self).pos() < old(self).text().len() {
                Some(old(self).text()[old(self).pos()])
            } else {
                None
            }),
            final(self).pos() == (if old(self).pos() < old(self).text().len() {
                old(self).pos() + 1
            } else {
                old(self).pos()
            }),
    {
        if self.position < self.input.len() {
            let ch = self.input[self.position];
            proof {
                lemma_line_col_bounds(self.input@, self.position as int);
            }
            self.position += 1;
            if ch == '\n' {
                self.line += 1;
                self.column = 1;
            } else {
                self.column += 1;
            }
            Some(ch)
        } else {
            None
        }
    }

    /// Skip whitespace and comments
    fn skip_whitespace(&mut self)
        requires
            old(self).wf(),
        ensures
            final(self).wf(),
            final(self).text() == old(self).text(),
            final(self).pending() == old(self).pending(),
            final(self).pos() == skip_end(old(self).text(), old(self).pos(), old(self).pending()),
    {
        let ghost s = self.input@;
        let ghost nl = self.semicolon_pending;
        let ghost target = skip_end(s, self.position as int, nl);
        loop
            invariant
                self.wf(),
                self.input@ == s,
                self.semicolon_pending == nl,
                skip_end(s, self.position as int, nl) == target,
            ensures
                self.wf(),
                self.input@ == s,
                self.semicolon_pending == nl,
                self.position as int == target,
            decreases s.len() - self.position,
        {
            match self.peek() {
                None => break,
                Some(ch) => {
                    if ch == '\n' && self.semicolon_pending {
                        // The line break ends a statement: it is read as a token.
                        break;
                    } else if ch == ' ' || ch == '\t' || ch == '\n' || ch == '\r' {
                        self.next_char();
                    } else if ch == '/' && self.peek_next() == Some('/') {
                        // Single-line comment
                        self.next_char();
                        self.next_char();
                        let ghost start = self.position as int;
                        loop
                            invariant
                                self.wf(),
                                self.input@ == s,
                                self.semicolon_pending == nl,
                                start <= self.position,
                                line_comment_end(s, self.position as int) == line_comment_end(
                                    s,
                                    start,
                                ),
                            ensures
                                self.wf(),
                                self.input@ == s,
                                self.semicolon_pending == nl,
                                self.position as int == line_comment_end(s, start),
                                start <= self.position,
                            decreases s.len() - self.position,
                        {
                            match self.peek() {
                                None => break,
                                Some(c) => {
                                    if c == '\n' {
                                        break;
                                    }
                                    self.next_char();
                                },
                            }
                        }
                    } else if ch == '/' && self.peek_next() == Some('*') {
                        // Multi-line comment
                        self.next_char();
                        self.next_char();
                        let ghost start = self.position as int;
                        loop
                            invariant_except_break
                                block_comment_end(s, self.position as int) == block_comment_end(
                                    s,
                                    start,
                                ),
                            invariant
                                self.wf(),
                                self.input@ == s,
                                self.semicolon_pending == nl,
                                start <= self.position,
                            ensures
                                self.wf(),
                                self.input@ == s,
                                self.semicolon_pending == nl,
                                self.position as int == block_comment_end(s, start),
                                start <= self.position,
                            decreases s.len() - self.position,
                        {
                            match self.peek() {
                                None => break,
                                Some(c) => {
                                    if c == '*' && self.peek_next() == Some('/') {
                                        self.next_char();
                                        self.next_char();
                                        break;
                                    }
                                    self.next_char();
                                },
                            }
                        }
                    } else {
                        break;
                    }
                },
            }
        }
    }

    /// Read a string literal (double-quoted)
    fn read_string(&mut self) -> (r: String)
        requires
            old(self).wf(),
            old(self).pos() < old(self).text().len(),
            old(self).text()[old(self).pos()] == '"',
        ensures
            final(self).wf(),
            final(self).text() == old(self).text(),
            (r@, final(self).pos()) == string_body(old(self).text(), old(self).pos() + 1),
    {
        let ghost s = self.input@;
        let ghost start = self.position as int + 1;
        self.next_char();  // consume opening quote
        let mut result: Vec<char> = Vec::new();
        loop
            invariant_except_break
                string_body(s, start).0 == result@ + string_body(s, self.position as int).0,
                string_body(s, start).1 == string_body(s, self.position as int).1,
            invariant
                self.wf(),
                self.input@ == s,
                0 <= start <= self.position <= s.len(),
            ensures
                self.wf(),
                self.input@ == s,
                string_body(s, start) == (result@, self.position as int),
            decreases s.len() - self.position,
        {
            let ghost p = self.position as int;
            match self.peek() {
                None => {
                    assert(result@ + seq![] =~= result@);
                    break;
                },
                Some(ch) => {
                    if ch == '"' {
                        self.next_char();
                        assert(result@ + seq![] =~= result@);
                        break;
                    } else if ch == '\\' {
                        self.next_char();
                        match self.peek() {
                            Some(escaped) => {
                                let e = if escaped == 'n' {
                                    '\n'
                                } else if escaped == 't' {
                                    '\t'
                                } else if escaped == 'r' {
                                    '\r'
                                } else {
                                    escaped
                                };
                                let ghost old_result = result@;
                                result.push(e);
                                self.next_char();
                                assert(old_result + (seq![e] + string_body(s, p + 2).0) =~= result@
                                    + string_body(s, p + 2).0);
                            },
                            None => {
                                assert(result@ + seq![] =~= result@);
                                break;
                            },
                        }
                    } else {
                        let ghost old_result = result@;
                        result.push(ch);
                        self.next_char();
                        assert(old_result + (seq![ch] + string_body(s, p + 1).0) =~= result@
                            + string_body(s, p + 1).0);
                    }
                },
            }
        }
        string_of(&result)
    }

    /// Read a number (integer or float)
    fn read_number(&mut self) -> (r: TokenType)
        requires
            old(self).wf(),
            old(self).pos() < old(self).text().len(),
        ensures
            final(self).wf(),
            final(self).text() == old(self).text(),
            (r@, final(self).pos()) == number_token(old(self).text(), old(self).pos()),
    {
        let ghost s = self.input@;
        let ghost start = self.position as int;
        let mut num_str: Vec<char> = Vec::new();
        let mut is_float = false;
        loop
            invariant
                self.wf(),
                self.input@ == s,
                0 <= start <= self.position <= s.len(),
                num_str@ == s.subrange(start, self.position as int),
                number_end(s, self.position as int, is_float) == number_end(s, start, false),
            ensures
                self.wf(),
                self.input@ == s,
                num_str@ == s.subrange(start, self.position as int),
                number_end(s, start, false) == (self.position as int, is_float),
            decreases s.len() - self.position,
        {
            match self.peek() {
                None => break,
                Some(ch) => {
                    if is_numeric(ch) {
                        num_str.push(ch);
                        self.next_char();
                    } else if ch == '.' && !is_float {
                        is_float = true;
                        num_str.push(ch);
                        self.next_char();
                    } else {
                        break;
                    }
                    assert(num_str@ =~= s.subrange(start, self.position as int));
                },
            }
        }
        if is_float {
            TokenType::Float(string_of(&num_str))
        } else {
            TokenType::Integer(integer_value_of(&num_str))
        }
    }

    /// Read an identifier or keyword
    fn read_identifier(&mut self) -> (r: TokenType)
        requires
            old(self).wf(),
            old(self).pos() < old(self).text().len(),
        ensures
            final(self).wf(),
            final(self).text() == old(self).text(),
            (r@, final(self).pos()) == word_token(old(self).text(), old(self).pos()),
    {
        let ghost s = self.input@;
        let ghost start = self.position as int;
        let mut ident: Vec<char> = Vec::new();
        loop
            invariant
                self.wf(),
                self.input@ == s,
                0 <= start <= self.position <= s.len(),
                ident@ == s.subrange(start, self.position as int),
                ident_end(s, self.position as int) == ident_end(s, start),
            ensures
                self.wf(),
                self.input@ == s,
                ident@ == s.subrange(start, self.position as int),
                ident_end(s, start) == self.position as int,
            decreases s.len() - self.position,
        {
            match self.peek() {
                None => break,
                Some(ch) => {
                    if is_alphanumeric(ch) || ch == '_' {
                        ident.push(ch);
                        self.next_char();
                        assert(ident@ =~= s.subrange(start, self.position as int));
                    } else {
                        break;
                    }
                },
            }
        }
        match keyword_of(&ident) {
            Some(t) => t,
            None => TokenType::Identifier(string_of(&ident)),
        }
    }

    /// Get the next token
    pub fn next_token(&mut self) -> (token: Token)
        requires
            old(self).wf(),
        ensures
            final(self).wf(),
            final(self).text() == old(self).text(),
            (token@, final(self).pos(), final(self).pending()) == next_token_at(
                old(self).text(),
                old(self).pos(),
                old(self).pending(),
            ),
            is_eof(token@) ==> final(self).pos() == final(self).text().len(),
            !is_eof(token@) ==> old(self).pos() < final(self).pos(),
    {
        let ghost s = self.input@;
        let ghost p = self.position as int;
        proof {
            lemma_next_token_progress(s, p, self.semicolon_pending);
        }
        self.skip_whitespace();
        proof {
            lemma_skip_end(s, p, self.semicolon_pending);
        }
        let line = self.line;
        let column = self.column;
        match self.peek() {
            None => {
                self.semicolon_pending = false;
                Token { token_type: TokenType::Eof, line, column }
            },
            Some(ch) => {
                if ch == '\n' && self.semicolon_pending {
                    self.next_char();
                    self.semicolon_pending = false;
                    return Token { token_type: TokenType::Semicolon, line, column };
                }
                let ghost q = self.position as int;
                let token_type = match ch {
                    '(' => {
                        self.next_char();
                        TokenType::LeftParen
                    },
                    ')' => {
                        self.next_char();
                        TokenType::RightParen
                    },
                    '{' => {
                        self.next_char();
                        TokenType::LeftBrace
                    },
                    '}' => {
                        self.next_char();
                        TokenType::RightBrace
                    },
                    '[' => {
                        self.next_char();
                        TokenType::LeftBracket
                    },
                    ']' => {
                        self.next_char();
                        TokenType::RightBracket
                    },
                    '+' => {
                        self.next_char();
                        TokenType::Plus
                    },
                    '-' => {
                        self.next_char();
                        if self.peek() == Some('>') {
                            self.next_char();
                            TokenType::Arrow
                        } else {
                            TokenType::Minus
                        }
                    },
                    '*' => {
                        self.next_char();
                        TokenType::Star
                    },
                    '/' => {
                        self.next_char();
                        TokenType::Slash
                    },
                    '%' => {
                        self.next_char();
                        TokenType::Percent
                    },
                    '=' => {
                        self.next_char();
                        if self.peek() == Some('=') {
                            self.next_char();
                            TokenType::EqualEqual
                        } else if self.peek() == Some('>') {
                            self.next_char();
                            TokenType::FatArrow
                        } else {
                            TokenType::Equal
                        }
                    },
                    '!' => {
                        self.next_char();
                        if self.peek() == Some('=') {
                            self.next_char();
                            TokenType::NotEqual
                        } else {
                            TokenType::Exclaim
                        }
                    },
                    '<' => {
                        self.next_char();
                        if self.peek() == Some('=') {
                            self.next_char();
                            TokenType::LessEqual
                        } else {
                            TokenType::Less
                        }
                    },
                    '>' => {
                        self.next_char();
                        if self.peek() == Some('=') {
                            self.next_char();
                            TokenType::GreaterEqual
                        } else {
                            TokenType::Greater
                        }
                    },
                    '&' => {
                        self.next_char();
                        if self.peek() == Some('&') {
                            self.next_char();
                            TokenType::And
                        } else {
                            TokenType::Unknown(ch)
                        }
                    },
                    '|' => {
                        self.next_char();
                        if self.peek() == Some('|') {
                            self.next_char();
                            TokenType::Or
                        } else {
                            TokenType::Pipe
                        }
                    },
                    '.' => {
                        self.next_char();
                        TokenType::Dot
                    },
                    ':' => {
                        self.next_char();
                        TokenType::Colon
                    },
                    ';' => {
                        self.next_char();
                        TokenType::Semicolon
                    },
                    ',' => {
                        self.next_char();
                        TokenType::Comma
                    },
                    '?' => {
                        self.next_char();
                        TokenType::Question
                    },
                    '"' => TokenType::String(self.read_string()),
                    _ => {
                        if is_numeric(ch) {
                            self.read_number()
                        } else if is_alphabetic(ch) || ch == '_' {
                            self.read_identifier()
                        } else {
                            self.next_char();
                            TokenType::Unknown(ch)
                        }
                    },
                };
                self.semicolon_pending = ends_statement_of(&token_type);
                Token { token_type, line, column }
            },
        }
    }

    /// Tokenize the entire input into a vector of tokens
    pub fn tokenize(&mut self) -> (tokens: Vec<Token>)
        requires
            old(self).wf(),
        ensures
            final(self).wf(),
            final(self).text() == old(self).text(),
            final(self).pos() == old(self).text().len(),
            tokens@.map_values(|t: Token| t@) == tokens_from(
                old(self).text(),
                old(self).pos(),
                old(self).pending(),
            ),
            tokens@.len() >= 1,
            is_eof(tokens@.last()@),
            forall|i: int| 0 <= i < tokens@.len() - 1 ==> !is_eof(#[trigger] tokens@[i]@),
    {
        let ghost s = self.input@;
        let ghost p0 = self.position as int;
        let ghost nl0 = self.semicolon_pending;
        proof {
            lemma_tokens_from_eof(s, p0, nl0);
        }
        let mut tokens: Vec<Token> = Vec::new();
        loop
            invariant_except_break
                tokens@.map_values(|t: Token| t@) + tokens_from(
                    s,
                    self.position as int,
                    self.semicolon_pending,
                ) == tokens_from(s, p0, nl0),
            invariant
                self.wf(),
                self.input@ == s,
                0 <= p0 <= self.position <= s.len(),
            ensures
                self.wf(),
                self.input@ == s,
                self.position == s.len(),
                tokens@.map_values(|t: Token| t@) == tokens_from(s, p0, nl0),
            decreases s.len() - self.position,
        {
            let ghost p = self.position as int;
            let ghost nl = self.semicolon_pending;
            proof {
                lemma_next_token_progress(s, p, nl);
            }
            let token = self.next_token();
            let at_end = matches!(token.token_type, TokenType::Eof);
            let ghost before = tokens@.map_values(|t: Token| t@);
            tokens.push(token);
            assert(tokens@.map_values(|t: Token| t@) =~= before.push(token@));
            if at_end {
                assert(skip_end(s, p, nl) >= s.len()) by {
                    if skip_end(s, p, nl) < s.len() {
                        assert(!is_eof(token@));
                    }
                }
                assert(tokens_from(s, p, nl) == seq![token@]);
                assert(before + seq![token@] =~= before.push(token@));
                break;
            }
            assert(tokens_from(s, p, nl) == seq![token@] + tokens_from(
                s,
                self.position as int,
                self.semicolon_pending,
            ));
            assert(before + (seq![token@] + tokens_from(
                s,
                self.position as int,
                self.semicolon_pending,
            )) =~= before.push(token@) + tokens_from(
                s,
                self.position as int,
                self.semicolon_pending,
            ));
        }
        proof {
            let v = tokens@.map_values(|t: Token| t@);
            assert(v.len() == tokens@.len());
            assert(tokens@.last()@ == v.last());
            assert forall|i: int| 0 <= i < tokens@.len() - 1 implies !is_eof(
                #[trigger] tokens@[i]@,
            ) by {
                assert(tokens@[i]@ == v[i]);
            }
        }
        tokens
    }
}

} // verus!
