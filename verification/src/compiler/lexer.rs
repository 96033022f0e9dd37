//! The lexer: turns source characters into tokens, one at a time.

use vstd::prelude::*;
use crate::compiler::error::CompileError;
use crate::text::{
    all_digits, char_alnum, chars_eq, is_alphanumeric, chars_of, copy_string, digits_value, is_ascii_letter, is_digit,
    is_whitespace, is_ws, nat_hex, parse_digits, push_char, push_hex, push_str, string_from_chars,
    string_of,
};

verus! {

/// A lexical token. A float literal is carried as the text it was written
/// with (digits and exactly one `.`).
#[derive(Debug, PartialEq, Clone)]
pub enum Token {
    Apply(usize),
    Add,
    Sub,
    Mul,
    Div,
    Move,
    Borrow,
    MutBorrow,
    Define,
    Shape,
    DeBruijn(usize),
    Question,
    Bang,
    New,
    Get,
    SetField,
    Export,
    Let,
    Import,
    Eq,
    Lt,
    Gt,
    Dot,
    BitAnd,
    BitOr,
    BitXor,
    String(String),
    Len,
    Cat,
    StrSub,
    OtelEmit(usize),
    Loc,
    Reg,
    Read,
    Write,
    Str,
    Split,
    Pack(usize),
    MapField,
    Filter,
    Money,
    Panic,
    Trap,
    TimeNow,
    TimeNano,
    TimeZone,
    TimeGet,
    TimeSet,
    Metadata,
    Env,
    HttpClient,
    HttpServer,
    FileOpen,
    Router,
    HttpHeader,
    Identifier(String),
    Integer(i64),
    Float(String),
    EOF,
}

/// The mathematical content of a token: strings become character sequences.
pub enum TokenV {
    Apply(usize),
    Add,
    Sub,
    Mul,
    Div,
    Move,
    Borrow,
    MutBorrow,
    Define,
    Shape,
    DeBruijn(usize),
    Question,
    Bang,
    New,
    Get,
    SetField,
    Export,
    Let,
    Import,
    Eq,
    Lt,
    Gt,
    Dot,
    BitAnd,
    BitOr,
    BitXor,
    String(Seq<char>),
    Len,
    Cat,
    StrSub,
    OtelEmit(usize),
    Loc,
    Reg,
    Read,
    Write,
    Str,
    Split,
    Pack(usize),
    MapField,
    Filter,
    Money,
    Panic,
    Trap,
    TimeNow,
    TimeNano,
    TimeZone,
    TimeGet,
    TimeSet,
    Metadata,
    Env,
    HttpClient,
    HttpServer,
    FileOpen,
    Router,
    HttpHeader,
    Identifier(Seq<char>),
    Integer(i64),
    Float(Seq<char>),
    EOF,
}

impl View for Token {
    type V = TokenV;

    open spec fn view(&self) -> TokenV {
        match self {
            Token::Apply(n) => TokenV::Apply(*n),
            Token::Add => TokenV::Add,
            Token::Sub => TokenV::Sub,
            Token::Mul => TokenV::Mul,
            Token::Div => TokenV::Div,
            Token::Move => TokenV::Move,
            Token::Borrow => TokenV::Borrow,
            Token::MutBorrow => TokenV::MutBorrow,
            Token::Define => TokenV::Define,
            Token::Shape => TokenV::Shape,
            Token::DeBruijn(n) => TokenV::DeBruijn(*n),
            Token::Question => TokenV::Question,
            Token::Bang => TokenV::Bang,
            Token::New => TokenV::New,
            Token::Get => TokenV::Get,
            Token::SetField => TokenV::SetField,
            Token::Export => TokenV::Export,
            Token::Let => TokenV::Let,
            Token::Import => TokenV::Import,
            Token::Eq => TokenV::Eq,
            Token::Lt => TokenV::Lt,
            Token::Gt => TokenV::Gt,
            Token::Dot => TokenV::Dot,
            Token::BitAnd => TokenV::BitAnd,
            Token::BitOr => TokenV::BitOr,
            Token::BitXor => TokenV::BitXor,
            Token::String(s) => TokenV::String(s@),
            Token::Len => TokenV::Len,
            Token::Cat => TokenV::Cat,
            Token::StrSub => TokenV::StrSub,
            Token::OtelEmit(n) => TokenV::OtelEmit(*n),
            Token::Loc => TokenV::Loc,
            Token::Reg => TokenV::Reg,
            Token::Read => TokenV::Read,
            Token::Write => TokenV::Write,
            Token::Str => TokenV::Str,
            Token::Split => TokenV::Split,
            Token::Pack(n) => TokenV::Pack(*n),
            Token::MapField => TokenV::MapField,
            Token::Filter => TokenV::Filter,
            Token::Money => TokenV::Money,
            Token::Panic => TokenV::Panic,
            Token::Trap => TokenV::Trap,
            Token::TimeNow => TokenV::TimeNow,
            Token::TimeNano => TokenV::TimeNano,
            Token::TimeZone => TokenV::TimeZone,
            Token::TimeGet => TokenV::TimeGet,
            Token::TimeSet => TokenV::TimeSet,
            Token::Metadata => TokenV::Metadata,
            Token::Env => TokenV::Env,
            Token::HttpClient => TokenV::HttpClient,
            Token::HttpServer => TokenV::HttpServer,
            Token::FileOpen => TokenV::FileOpen,
            Token::Router => TokenV::Router,
            Token::HttpHeader => TokenV::HttpHeader,
            Token::Identifier(s) => TokenV::Identifier(s@),
            Token::Integer(i) => TokenV::Integer(*i),
            Token::Float(s) => TokenV::Float(s@),
            Token::EOF => TokenV::EOF,
        }
    }
}

impl Token {
    /// A copy of this token.
    pub fn copy(&self) -> (t: Token)
        ensures
            t@ == self@,
    {
        match self {
            Token::String(s) => Token::String(copy_string(s)),
            Token::Identifier(s) => Token::Identifier(copy_string(s)),
            Token::Float(s) => Token::Float(copy_string(s)),
            Token::Apply(n) => Token::Apply(*n),
            Token::DeBruijn(n) => Token::DeBruijn(*n),
            Token::OtelEmit(n) => Token::OtelEmit(*n),
            Token::Pack(n) => Token::Pack(*n),
            Token::Integer(i) => Token::Integer(*i),
            Token::Add => Token::Add,
            Token::Sub => Token::Sub,
            Token::Mul => Token::Mul,
            Token::Div => Token::Div,
            Token::Move => Token::Move,
            Token::Borrow => Token::Borrow,
            Token::MutBorrow => Token::MutBorrow,
            Token::Define => Token::Define,
            Token::Shape => Token::Shape,
            Token::Question => Token::Question,
            Token::Bang => Token::Bang,
            Token::New => Token::New,
            Token::Get => Token::Get,
            Token::SetField => Token::SetField,
            Token::Export => Token::Export,
            Token::Let => Token::Let,
            Token::Import => Token::Import,
            Token::Eq => Token::Eq,
            Token::Lt => Token::Lt,
            Token::Gt => Token::Gt,
            Token::Dot => Token::Dot,
            Token::BitAnd => Token::BitAnd,
            Token::BitOr => Token::BitOr,
            Token::BitXor => Token::BitXor,
            Token::Len => Token::Len,
            Token::Cat => Token::Cat,
            Token::StrSub => Token::StrSub,
            Token::Loc => Token::Loc,
            Token::Reg => Token::Reg,
            Token::Read => Token::Read,
            Token::Write => Token::Write,
            Token::Str => Token::Str,
            Token::Split => Token::Split,
            Token::MapField => Token::MapField,
            Token::Filter => Token::Filter,
            Token::Money => Token::Money,
            Token::Panic => Token::Panic,
            Token::Trap => Token::Trap,
            Token::TimeNow => Token::TimeNow,
            Token::TimeNano => Token::TimeNano,
            Token::TimeZone => Token::TimeZone,
            Token::TimeGet => Token::TimeGet,
            Token::TimeSet => Token::TimeSet,
            Token::Metadata => Token::Metadata,
            Token::Env => Token::Env,
            Token::HttpClient => Token::HttpClient,
            Token::HttpServer => Token::HttpServer,
            Token::FileOpen => Token::FileOpen,
            Token::Router => Token::Router,
            Token::HttpHeader => Token::HttpHeader,
            Token::EOF => Token::EOF,
        }
    }
}

// ---------------------------------------------------------------------------
// The lexical grammar, as functions on the source characters.
// ---------------------------------------------------------------------------

/// What the lexer finds at a position: a token, a character that starts no
/// token (error E001), or a number literal that does not denote a value
/// (an integer above `i64::MAX`, or a float with more than one `.`), on which
/// lexing cannot go on.
pub enum Lexed {
    Tok(TokenV),
    Invalid(char),
    Malformed,
}

/// Skips whitespace from `pos`, counting the newlines passed.
pub open spec fn skip_ws(s: Seq<char>, pos: int, line: int) -> (int, int)
    decreases s.len() - pos,
{
    if 0 <= pos < s.len() && is_ws(s[pos]) {
        skip_ws(s, pos + 1, if s[pos] == '\n' { line + 1 } else { line })
    } else {
        (pos, line)
    }
}

/// The end of the run of characters satisfying `p` that starts at `pos`.
pub open spec fn run_end(s: Seq<char>, pos: int, p: spec_fn(char) -> bool) -> int
    decreases s.len() - pos,
{
    if 0 <= pos < s.len() && p(s[pos]) {
        run_end(s, pos + 1, p)
    } else {
        pos
    }
}

/// A character that may continue a number literal.
pub open spec fn num_char(c: char) -> bool {
    is_digit(c) || c == '.'
}

/// A character that may continue an identifier: an alphanumeric character
/// or `_` (in ASCII, a letter, a digit or `_`).
pub open spec fn ident_char(c: char) -> bool {
    if (c as u32) < 128 {
        is_ascii_letter(c) || is_digit(c) || c == '_'
    } else {
        char_alnum(c)
    }
}

/// Any character but a newline.
pub open spec fn not_newline(c: char) -> bool {
    c != '\n'
}

/// The number of `.` in a sequence.
pub open spec fn count_dots(t: Seq<char>) -> nat
    decreases t.len(),
{
    if t.len() == 0 {
        0
    } else {
        count_dots(t.drop_last()) + if t.last() == '.' { 1nat } else { 0nat }
    }
}

/// A decimal digit string read as a `usize`, with `default` where it overflows.
pub open spec fn usize_or(t: Seq<char>, default: usize) -> usize {
    if digits_value(t) <= usize::MAX {
        digits_value(t) as usize
    } else {
        default
    }
}

/// The character that an escape `\c` inside a string literal stands for.
pub open spec fn unescape(c: char) -> char {
    if c == 'n' {
        '\n'
    } else if c == 't' {
        '\t'
    } else if c == 'r' {
        '\r'
    } else {
        c
    }
}

/// Reads the body of a string literal from `pos`, appending to `acc`; the
/// closing quote is consumed when present. Returns the text and the end.
pub open spec fn lex_str(s: Seq<char>, pos: int, acc: Seq<char>) -> (Seq<char>, int)
    decreases s.len() - pos,
{
    if pos < 0 || pos >= s.len() {
        (acc, pos)
    } else if s[pos] == '"' {
        (acc, pos + 1)
    } else if s[pos] == '\\' {
        if pos + 1 < s.len() {
            lex_str(s, pos + 2, acc.push(unescape(s[pos + 1])))
        } else {
            (acc, pos + 1)
        }
    } else {
        lex_str(s, pos + 1, acc.push(s[pos]))
    }
}

/// The token of a word: a keyword or an identifier.
pub open spec fn keyword(w: Seq<char>) -> TokenV {
    if w == seq!['m', 'a', 'p'] {
        TokenV::MapField
    } else if w == seq!['f', 'l', 't'] {
        TokenV::Filter
    } else if w == seq!['h', 't', 't', 'p'] {
        TokenV::HttpClient
    } else if w == seq!['s', 'r', 'v'] {
        TokenV::HttpServer
    } else if w == seq!['r', 't'] {
        TokenV::Router
    } else if w == seq!['h', 'd', 'r'] {
        TokenV::HttpHeader
    } else if w == seq!['e', 'n', 'v'] {
        TokenV::Env
    } else if w == seq!['f', 'o'] {
        TokenV::FileOpen
    } else if w == seq!['j', 'p'] {
        TokenV::Pack(1)
    } else if w == seq!['j', 'u'] {
        TokenV::Pack(2)
    } else if w == seq!['o', 'e'] {
        TokenV::OtelEmit(4)
    } else if w == seq!['s', 'l'] {
        TokenV::Len
    } else if w == seq!['s', 'c'] {
        TokenV::Cat
    } else if w == seq!['s', 's'] {
        TokenV::StrSub
    } else if w == seq!['s', 'f'] {
        TokenV::Loc
    } else if w == seq!['s', 'r'] {
        TokenV::Reg
    } else if w == seq!['s', 'p'] {
        TokenV::Split
    } else if w == seq!['t', 'n'] {
        TokenV::TimeNow
    } else if w == seq!['t', 'n', 's'] {
        TokenV::TimeNano
    } else if w == seq!['t', 'z'] {
        TokenV::TimeZone
    } else if w == seq!['t', 'g'] {
        TokenV::TimeGet
    } else if w == seq!['t', 's'] {
        TokenV::TimeSet
    } else if w == seq!['s', 't', 'r'] {
        TokenV::Str
    } else if w == seq!['g', 't'] {
        TokenV::Gt
    } else if w == seq!['l', 't'] {
        TokenV::Lt
    } else if w == seq!['x', 'o', 'r'] {
        TokenV::BitXor
    } else {
        TokenV::Identifier(w)
    }
}

/// The token of a character that is a token by itself.
pub open spec fn single_char_token(c: char) -> Option<TokenV> {
    if c == '+' {
        Some(TokenV::Add)
    } else if c == '-' {
        Some(TokenV::Sub)
    } else if c == '*' {
        Some(TokenV::Mul)
    } else if c == '>' {
        Some(TokenV::Move)
    } else if c == '$' {
        Some(TokenV::Borrow)
    } else if c == '~' {
        Some(TokenV::MutBorrow)
    } else if c == '=' {
        Some(TokenV::Eq)
    } else if c == '<' {
        Some(TokenV::Lt)
    } else if c == '.' {
        Some(TokenV::Dot)
    } else if c == '&' {
        Some(TokenV::BitAnd)
    } else if c == '|' {
        Some(TokenV::BitOr)
    } else if c == ':' {
        Some(TokenV::Define)
    } else if c == '#' {
        Some(TokenV::Shape)
    } else if c == '?' {
        Some(TokenV::Question)
    } else if c == '!' {
        Some(TokenV::Panic)
    } else if c == '`' {
        Some(TokenV::Bang)
    } else if c == '(' {
        Some(TokenV::Read)
    } else if c == ')' {
        Some(TokenV::Write)
    } else if c == '%' {
        Some(TokenV::Money)
    } else if c == 'N' {
        Some(TokenV::New)
    } else if c == 'G' {
        Some(TokenV::Get)
    } else if c == 'S' {
        Some(TokenV::SetField)
    } else if c == 'M' {
        Some(TokenV::Metadata)
    } else if c == 'X' {
        Some(TokenV::Export)
    } else if c == 'L' {
        Some(TokenV::Let)
    } else if c == 'I' {
        Some(TokenV::Import)
    } else {
        None
    }
}

/// The token of a number literal's text.
pub open spec fn number_token(t: Seq<char>) -> Lexed {
    if count_dots(t) > 0 {
        if count_dots(t) == 1 {
            Lexed::Tok(TokenV::Float(t))
        } else {
            Lexed::Malformed
        }
    } else if digits_value(t) <= i64::MAX {
        Lexed::Tok(TokenV::Integer(digits_value(t) as i64))
    } else {
        Lexed::Malformed
    }
}

/// Skips whitespace and comments (from `//` to the end of the line) from
/// `pos`, counting the newlines passed.
pub open spec fn trivia_end(s: Seq<char>, pos: int, line: int) -> (int, int)
    decreases s.len() - pos,
{
    let (p, l) = skip_ws(s, pos, line);
    if 0 <= pos && pos <= p && p + 1 < s.len() && s[p] == '/' && s[p + 1] == '/' {
        let e = run_end(s, p + 1, |c: char| not_newline(c));
        let (p3, l3) = if e < s.len() { (e + 1, l + 1) } else { (e, l) };
        if p3 > pos && p3 <= s.len() {
            trivia_end(s, p3, l3)
        } else {
            (p3, l3)
        }
    } else {
        (p, l)
    }
}

/// The token at `pos` once whitespace and comments are skipped, with the
/// position after it and the line counter there.
pub open spec fn lex_next(s: Seq<char>, pos: int, line: int) -> (Lexed, int, int) {
    let (p, l) = trivia_end(s, pos, line);
    if p < 0 || p >= s.len() {
        (Lexed::Tok(TokenV::EOF), p, l)
    } else {
        lex_after_spec(s, p + 1, l)
    }
}

/// The message of error E001 for a character that starts no token.
pub open spec fn invalid_char_message(c: char) -> Seq<char> {
    seq!['E', '0', '0', '1', ':', ' ', 'I', 'n', 'v', 'a', 'l', 'i', 'd', ' ', 'c', 'h', 'a', 'r', ' ', '\'']
        + seq![c] + seq!['\'', ' ', '(', '0', 'x'] + nat_hex(c as nat) + seq![')']
}

pub proof fn lemma_skip_ws(s: Seq<char>, pos: int, line: int)
    requires
        0 <= pos <= s.len(),
    ensures
        pos <= skip_ws(s, pos, line).0 <= s.len(),
        line <= skip_ws(s, pos, line).1,
        skip_ws(s, pos, line).1 - line <= skip_ws(s, pos, line).0 - pos,
    decreases s.len() - pos,
{
    if pos < s.len() && is_ws(s[pos]) {
        lemma_skip_ws(s, pos + 1, if s[pos] == '\n' { line + 1 } else { line });
    }
}

pub proof fn lemma_run_end(s: Seq<char>, pos: int, p: spec_fn(char) -> bool)
    requires
        0 <= pos <= s.len(),
    ensures
        pos <= run_end(s, pos, p) <= s.len(),
        forall|i: int| pos <= i < run_end(s, pos, p) ==> p(s[i]),
        run_end(s, pos, p) < s.len() ==> !p(s[run_end(s, pos, p)]),
    decreases s.len() - pos,
{
    if pos < s.len() && p(s[pos]) {
        lemma_run_end(s, pos + 1, p);
    }
}

pub proof fn lemma_lex_str(s: Seq<char>, pos: int, acc: Seq<char>)
    requires
        0 <= pos <= s.len(),
    ensures
        pos <= lex_str(s, pos, acc).1 <= s.len(),
    decreases s.len() - pos,
{
    if pos < s.len() && s[pos] != '"' {
        if s[pos] == '\\' {
            if pos + 1 < s.len() {
                lemma_lex_str(s, pos + 2, acc.push(unescape(s[pos + 1])));
            }
        } else {
            lemma_lex_str(s, pos + 1, acc.push(s[pos]));
        }
    }
}

pub proof fn lemma_trivia_end(s: Seq<char>, pos: int, line: int)
    requires
        0 <= pos <= s.len(),
    ensures
        pos <= trivia_end(s, pos, line).0 <= s.len(),
        line <= trivia_end(s, pos, line).1,
        trivia_end(s, pos, line).1 - line <= trivia_end(s, pos, line).0 - pos,
        ({
            let p = trivia_end(s, pos, line).0;
            !(p + 1 < s.len() && s[p] == '/' && s[p + 1] == '/')
        }),
    decreases s.len() - pos,
{
    lemma_skip_ws(s, pos, line);
    let (p, l) = skip_ws(s, pos, line);
    if p + 1 < s.len() && s[p] == '/' && s[p + 1] == '/' {
        lemma_run_end(s, p + 1, |c: char| not_newline(c));
        let e = run_end(s, p + 1, |c: char| not_newline(c));
        let (p3, l3) = if e < s.len() { (e + 1, l + 1) } else { (e, l) };
        lemma_trivia_end(s, p3, l3);
    }
}

pub proof fn lemma_lex_after(s: Seq<char>, pos: int, line: int)
    requires
        1 <= pos <= s.len(),
    ensures
        pos <= lex_after_spec(s, pos, line).1 <= s.len(),
        lex_after_spec(s, pos, line).2 == line,
{
    let ch = s[pos - 1];
    if ch == '@' {
        lemma_run_end(s, pos, |c: char| is_digit(c));
    } else if ch == '/' {
    } else if single_char_token(ch) is Some {
    } else if ch == '^' {
        if pos < s.len() && is_digit(s[pos]) {
            lemma_run_end(s, pos, |c: char| is_digit(c));
        }
    } else if ch == '"' {
        lemma_lex_str(s, pos, Seq::empty());
    } else if is_digit(ch) {
        lemma_run_end(s, pos, |c: char| num_char(c));
    } else if is_ascii_letter(ch) || ch == '_' {
        lemma_run_end(s, pos, |c: char| ident_char(c));
    }
}

/// Lexing never moves backwards, stays within the input, counts at most one
/// line per character passed, and moves forward on every token but the end.
pub proof fn lemma_lex_next(s: Seq<char>, pos: int, line: int)
    requires
        0 <= pos <= s.len(),
    ensures
        pos <= lex_next(s, pos, line).1 <= s.len(),
        line <= lex_next(s, pos, line).2,
        lex_next(s, pos, line).2 - line <= lex_next(s, pos, line).1 - pos,
        lex_next(s, pos, line).0 != Lexed::Tok(TokenV::EOF) ==> pos < lex_next(s, pos, line).1,
        lex_next(s, pos, line).0 == Lexed::Tok(TokenV::EOF) ==> lex_next(s, pos, line).1 == s.len(),
{
    lemma_trivia_end(s, pos, line);
    let (p, l) = trivia_end(s, pos, line);
    if p < s.len() {
        lemma_lex_after(s, p + 1, l);
        let ch = s[p];
        if ch == '@' || ch == '/' || single_char_token(ch) is Some || ch == '^' || ch == '"' {
        } else if is_digit(ch) {
            lemma_run_end(s, p + 1, |c: char| num_char(c));
            let e = run_end(s, p + 1, |c: char| num_char(c));
            let t = s.subrange(p, e);
            if count_dots(t) > 0 {
                if count_dots(t) == 1 {
                } else {
                }
            }
        }
    }
}

/// The index of the first `.` in a text (its length when there is none).
pub open spec fn dot_index(t: Seq<char>) -> int
    decreases t.len(),
{
    if t.len() == 0 {
        0
    } else if t[0] == '.' {
        0
    } else {
        1 + dot_index(t.drop_first())
    }
}

/// The text of a float literal: digits, one `.`, digits.
pub open spec fn float_text(t: Seq<char>) -> bool {
    let d = dot_index(t);
    &&& d < t.len()
    &&& all_digits(t.take(d))
    &&& all_digits(t.skip(d + 1))
}

proof fn lemma_count_dots_add(a: Seq<char>, b: Seq<char>)
    ensures
        count_dots(a + b) == count_dots(a) + count_dots(b),
    decreases b.len(),
{
    if b.len() == 0 {
        assert(a + b =~= a);
    } else {
        lemma_count_dots_add(a, b.drop_last());
        assert((a + b).drop_last() =~= a + b.drop_last());
        assert((a + b).last() == b.last());
    }
}

proof fn lemma_count_dots_zero(t: Seq<char>)
    ensures
        count_dots(t) == 0 <==> forall|i: int| 0 <= i < t.len() ==> t[i] != '.',
    decreases t.len(),
{
    if t.len() > 0 {
        lemma_count_dots_zero(t.drop_last());
        if count_dots(t) == 0 {
            assert forall|i: int| 0 <= i < t.len() implies t[i] != '.' by {
                if i < t.len() - 1 {
                    assert(t.drop_last()[i] == t[i]);
                }
            }
        } else if forall|i: int| 0 <= i < t.len() ==> t[i] != '.' {
            assert forall|i: int| 0 <= i < t.drop_last().len() implies t.drop_last()[i] != '.' by {
                assert(t.drop_last()[i] == t[i]);
            }
            assert(t[t.len() - 1] != '.');
        }
    }
}

proof fn lemma_dot_index(t: Seq<char>)
    ensures
        0 <= dot_index(t) <= t.len(),
        forall|i: int| 0 <= i < dot_index(t) ==> t[i] != '.',
        dot_index(t) < t.len() ==> t[dot_index(t)] == '.',
    decreases t.len(),
{
    if t.len() > 0 && t[0] != '.' {
        lemma_dot_index(t.drop_first());
        assert forall|i: int| 0 <= i < dot_index(t) implies t[i] != '.' by {
            if i > 0 {
                assert(t.drop_first()[i - 1] == t[i]);
            }
        }
    }
}

/// A run of digits and dots with exactly one dot is float text.
proof fn lemma_float_text(t: Seq<char>)
    requires
        forall|i: int| 0 <= i < t.len() ==> num_char(#[trigger] t[i]),
        count_dots(t) == 1,
    ensures
        float_text(t),
{
    lemma_dot_index(t);
    let d = dot_index(t);
    if d == t.len() {
        lemma_count_dots_zero(t);
    } else {
        let a = t.take(d);
        let b = t.skip(d + 1);
        assert(t =~= a + seq!['.'] + b);
        lemma_count_dots_add(a + seq!['.'], b);
        lemma_count_dots_add(a, seq!['.']);
        assert(seq!['.'].drop_last() =~= Seq::<char>::empty());
        assert(count_dots(seq!['.']) == 1);
        lemma_count_dots_zero(a);
        lemma_count_dots_zero(b);
        assert forall|i: int| 0 <= i < a.len() implies is_digit(#[trigger] a[i]) by {
            assert(a[i] == t[i]);
            assert(num_char(t[i]));
        }
        assert forall|i: int| 0 <= i < b.len() implies is_digit(#[trigger] b[i]) by {
            assert(b[i] == t[d + 1 + i]);
            assert(num_char(t[d + 1 + i]));
        }
    }
}

/// Every float token the lexer produces carries float text.
pub proof fn lemma_lex_float(s: Seq<char>, pos: int, line: int)
    requires
        0 <= pos <= s.len(),
    ensures
        lex_next(s, pos, line).0 matches Lexed::Tok(TokenV::Float(t)) ==> float_text(t),
{
    lemma_trivia_end(s, pos, line);
    let (p, l) = trivia_end(s, pos, line);
    if p < s.len() {
        let ch = s[p];
        if !(ch == '@' || ch == '/' || single_char_token(ch) is Some || ch == '^' || ch == '"') && is_digit(ch) {
            lemma_run_end(s, p + 1, |c: char| num_char(c));
            let e = run_end(s, p + 1, |c: char| num_char(c));
            let t = s.subrange(p, e);
            assert forall|i: int| 0 <= i < t.len() implies num_char(#[trigger] t[i]) by {
                assert(t[i] == s[p + i]);
                if i > 0 {
                    assert((|c: char| num_char(c))(s[p + i]));
                }
            }
            if count_dots(t) == 1 {
                lemma_float_text(t);
            }
        }
    }
}

/// The rest of the input from `pos` lexes without reaching a malformed number
/// literal, and no money marker `%` is followed by an integer whose value in
/// ten-thousandths overflows `i64`.
pub open spec fn stream_sound(s: Seq<char>, pos: int, line: int, after_money: bool) -> bool
    decreases s.len() - pos,
{
    if pos < 0 || pos > s.len() {
        true
    } else {
        let (lx, p, l) = lex_next(s, pos, line);
        match lx {
            Lexed::Malformed => false,
            Lexed::Invalid(_) => true,
            Lexed::Tok(t) => {
                (after_money && t is Integer ==> money_fits(t->Integer_0)) && (t is EOF || (
                p > pos && p <= s.len() && stream_sound(s, p, l, t is Money)))
            },
        }
    }
}

/// An integer amount of money whose value in ten-thousandths fits `i64`.
pub open spec fn money_fits(i: i64) -> bool {
    i64::MIN <= i * 10000 <= i64::MAX
}

pub proof fn lemma_stream_sound_step(s: Seq<char>, pos: int, line: int, after_money: bool)
    requires
        0 <= pos <= s.len(),
        stream_sound(s, pos, line, after_money),
    ensures
        !(lex_next(s, pos, line).0 is Malformed),
        lex_next(s, pos, line).0 matches Lexed::Tok(t) ==> (after_money && t is Integer ==> money_fits(t->Integer_0)),
        lex_next(s, pos, line).0 matches Lexed::Tok(t) ==> stream_sound(
            s,
            lex_next(s, pos, line).1,
            lex_next(s, pos, line).2,
            t is Money,
        ),
{
    lemma_lex_next(s, pos, line);
    let (lx, p, l) = lex_next(s, pos, line);
    if lx == Lexed::Tok(TokenV::EOF) {
        assert(p == s.len());
        lemma_lex_next(s, p, l);
        lemma_skip_ws(s, p, l);
    }
}

// ---------------------------------------------------------------------------
// The lexer itself.
// ---------------------------------------------------------------------------

pub struct Lexer {
    input: Vec<char>,
    pos: usize,
    pub line: usize,
    pub filename: String,
}

impl Lexer {
    /// The source characters.
    pub closed spec fn source(&self) -> Seq<char> {
        self.input@
    }

    /// How many characters have been consumed.
    pub closed spec fn position(&self) -> nat {
        self.pos as nat
    }

    /// The line counter.
    pub closed spec fn cur_line(&self) -> nat {
        self.line as nat
    }

    /// The file name that errors report.
    pub closed spec fn file(&self) -> Seq<char> {
        self.filename@
    }

    /// Reads the line counter.
    pub fn current_line(&self) -> (l: usize)
        ensures
            l == self.cur_line(),
    {
        self.line
    }

    /// Sets the file name that errors report.
    pub fn set_filename(&mut self, f: String)
        ensures
            final(self).file() == f@,
            final(self).source() == old(self).source(),
            final(self).position() == old(self).position(),
            final(self).cur_line() == old(self).cur_line(),
    {
        self.filename = f;
    }

    /// The position lies within the source, and the line counter cannot
    /// overflow while the rest of the source is read.
    pub open spec fn wf(&self) -> bool {
        &&& self.position() <= self.source().len()
        &&& self.cur_line() + (self.source().len() - self.position()) <= usize::MAX
    }

    /// The rest of the source lexes soundly (see `stream_sound`).
    pub open spec fn sound(&self, after_money: bool) -> bool {
        stream_sound(self.source(), self.position() as int, self.cur_line() as int, after_money)
    }

    pub fn new(input: &str) -> (l: Self)
        requires
            input@.len() < usize::MAX,
        ensures
            l.source() == input@,
            l.position() == 0,
            l.cur_line() == 1,
            l.file() == Seq::<char>::empty(),
            l.wf(),
    {
        Self { input: chars_of(input), pos: 0, line: 1, filename: String::new() }
    }

    /// Lexes the next token. Its contract is `lex_next`: the token, or error
    /// E001 naming the character with the current file and line.
    pub fn next_token(&mut self) -> (r: Result<Token, CompileError>)
        requires
            old(self).wf(),
            !(lex_next(old(self).source(), old(self).position() as int, old(self).cur_line() as int).0 is Malformed),
        ensures
            final(self).wf(),
            final(self).source() == old(self).source(),
            final(self).file() == old(self).file(),
            ({
                let (lx, p, l) = lex_next(old(self).source(), old(self).position() as int, old(self).cur_line() as int);
                &&& final(self).position() == p
                &&& final(self).cur_line() == l
                &&& match lx {
                    Lexed::Tok(t) => r matches Ok(tok) && tok@ == t,
                    Lexed::Invalid(c) => r matches Err(e) && e.code@ == invalid_char_message(c)
                        && e.filename@ == old(self).file() && e.line == l,
                    Lexed::Malformed => false,
                }
            }),
    {
        let ghost s = self.input@;
        proof {
            lemma_trivia_end(s, self.pos as int, self.line as int);
        }
        self.skip_trivia();
        if self.pos >= self.input.len() {
            return Ok(Token::EOF);
        }
        let ch = self.input[self.pos];
        self.pos = self.pos + 1;
        self.lex_after(ch)
    }

    /// Advances over whitespace and comments.
    fn skip_trivia(&mut self)
        requires
            old(self).pos <= old(self).input@.len(),
            old(self).line + (old(self).input@.len() - old(self).pos) <= usize::MAX,
        ensures
            final(self).input@ == old(self).input@,
            final(self).filename == old(self).filename,
            (final(self).pos as int, final(self).line as int) == trivia_end(
                old(self).input@,
                old(self).pos as int,
                old(self).line as int,
            ),
    {
        let ghost s = self.input@;
        let ghost target = trivia_end(s, self.pos as int, self.line as int);
        let mut go = true;
        while go
            invariant
                s == self.input@,
                self.pos <= s.len(),
                self.filename == old(self).filename,
                self.line + (s.len() - self.pos) <= usize::MAX,
                go ==> trivia_end(s, self.pos as int, self.line as int) == target,
                !go ==> (self.pos as int, self.line as int) == target,
            decreases s.len() - self.pos + if go { 1int } else { 0int },
        {
            let ghost pos_b = self.pos as int;
            let ghost line_b = self.line as int;
            proof {
                lemma_skip_ws(s, self.pos as int, self.line as int);
            }
            self.skip_whitespace();
            if self.pos < self.input.len() && self.pos + 1 < self.input.len() && self.input[self.pos] == '/'
                && self.input[self.pos + 1] == '/' {
                self.pos = self.pos + 1;
                let ghost p1 = self.pos as int;
                let ghost lw = self.line as int;
                proof {
                    lemma_run_end(s, p1, |c: char| not_newline(c));
                }
                while self.pos < self.input.len() && self.input[self.pos] != '\n'
                    invariant
                        s == self.input@,
                        p1 <= self.pos <= s.len(),
                        self.filename == old(self).filename,
                        self.line == lw,
                        self.line + (s.len() - p1) + 1 <= usize::MAX,
                        run_end(s, self.pos as int, |c: char| not_newline(c)) == run_end(
                            s,
                            p1,
                            |c: char| not_newline(c),
                        ),
                    decreases s.len() - self.pos,
                {
                    self.pos = self.pos + 1;
                }
                assert(self.pos == run_end(s, p1, |c: char| not_newline(c)));
                if self.pos < self.input.len() {
                    self.pos = self.pos + 1;
                    self.line = self.line + 1;
                }
                assert(trivia_end(s, pos_b, line_b) == trivia_end(s, self.pos as int, self.line as int));
            } else {
                go = false;
            }
        }
    }

    fn skip_whitespace(&mut self)
        requires
            old(self).pos <= old(self).input@.len(),
            old(self).line + (old(self).input@.len() - old(self).pos) <= usize::MAX,
        ensures
            final(self).input@ == old(self).input@,
            final(self).filename == old(self).filename,
            (final(self).pos as int, final(self).line as int) == skip_ws(
                old(self).input@,
                old(self).pos as int,
                old(self).line as int,
            ),
    {
        let ghost s = self.input@;
        let ghost target = skip_ws(s, self.pos as int, self.line as int);
        proof {
            lemma_skip_ws(s, self.pos as int, self.line as int);
        }
        while self.pos < self.input.len() && is_whitespace(self.input[self.pos])
            invariant
                s == self.input@,
                self.pos <= s.len(),
                self.filename == old(self).filename,
                skip_ws(s, self.pos as int, self.line as int) == target,
                self.line + (s.len() - self.pos) <= usize::MAX,
            decreases s.len() - self.pos,
        {
            if self.input[self.pos] == '\n' {
                self.line = self.line + 1;
            }
            self.pos = self.pos + 1;
        }
    }

    /// Lexes the token whose first character `ch` has just been consumed.
    fn lex_after(&mut self, ch: char) -> (r: Result<Token, CompileError>)
        requires
            1 <= old(self).pos <= old(self).input@.len(),
            old(self).input@[old(self).pos - 1] == ch,
            !(ch == '/' && old(self).pos < old(self).input@.len() && old(self).input@[old(self).pos as int] == '/'),
            old(self).line + (old(self).input@.len() - old(self).pos) <= usize::MAX,
            !(lex_after_spec(old(self).input@, old(self).pos as int, old(self).line as int).0 is Malformed),
        ensures
            final(self).wf(),
            final(self).input@ == old(self).input@,
            final(self).filename == old(self).filename,
            ({
                let (lx, p, l) = lex_after_spec(old(self).input@, old(self).pos as int, old(self).line as int);
                &&& final(self).pos == p
                &&& final(self).line == l
                &&& match lx {
                    Lexed::Tok(t) => r matches Ok(tok) && tok@ == t,
                    Lexed::Invalid(c) => r matches Err(e) && e.code@ == invalid_char_message(c)
                        && e.filename@ == old(self).filename@ && e.line == l,
                    Lexed::Malformed => false,
                }
            }),
    {
        let ghost s = self.input@;
        if ch == '@' {
            let start = self.pos;
            let e = self.scan_digits();
            let n = if e == start {
                1
            } else {
                self.digits_usize(start, e, 1)
            };
            return Ok(Token::Apply(n));
        }
        if ch == '/' {
            return Ok(Token::Div);
        }
        match single_token(ch) {
            Some(t) => {
                return Ok(t);
            },
            None => {},
        }
        if ch == '^' {
            if self.pos < self.input.len() && is_ascii_digit(self.input[self.pos]) {
                let start = self.pos;
                let e = self.scan_digits();
                let n = self.digits_usize(start, e, 0);
                return Ok(Token::DeBruijn(n));
            } else {
                return Ok(Token::Trap);
            }
        }
        if ch == '"' {
            return Ok(Token::String(self.lex_string()));
        }
        if is_ascii_digit(ch) {
            return Ok(self.lex_number());
        }
        if is_ascii_letter_exec(ch) || ch == '_' {
            return Ok(self.lex_identifier());
        }
        proof {
            reveal_strlit("E001: Invalid char '");
            reveal_strlit("' (0x");
        }
        let mut msg = string_of("E001: Invalid char '");
        push_char(&mut msg, ch);
        push_str(&mut msg, "' (0x");
        push_hex(&mut msg, ch as u32);
        push_char(&mut msg, ')');
        proof {
            assert(msg@ == invalid_char_message(ch));
        }
        Err(CompileError::new(msg.as_str(), self.filename.as_str(), self.line))
    }

    /// Advances over a run of ASCII digits; returns the end of the run.
    fn scan_digits(&mut self) -> (e: usize)
        requires
            old(self).pos <= old(self).input@.len(),
        ensures
            final(self).input@ == old(self).input@,
            final(self).filename == old(self).filename,
            final(self).line == old(self).line,
            e == final(self).pos,
            e == run_end(old(self).input@, old(self).pos as int, |c: char| is_digit(c)),
            old(self).pos <= e <= old(self).input@.len(),
            all_digits(old(self).input@.subrange(old(self).pos as int, e as int)),
    {
        let ghost s = self.input@;
        let ghost target = run_end(s, self.pos as int, |c: char| is_digit(c));
        proof {
            lemma_run_end(s, self.pos as int, |c: char| is_digit(c));
        }
        while self.pos < self.input.len() && is_ascii_digit(self.input[self.pos])
            invariant
                s == self.input@,
                self.pos <= s.len(),
                self.filename == old(self).filename,
                self.line == old(self).line,
                run_end(s, self.pos as int, |c: char| is_digit(c)) == target,
            decreases s.len() - self.pos,
        {
            self.pos = self.pos + 1;
        }
        proof {
            let sub = s.subrange(old(self).pos as int, self.pos as int);
            assert forall|i: int| 0 <= i < sub.len() implies is_digit(#[trigger] sub[i]) by {
                assert(sub[i] == s[old(self).pos + i]);
            }
        }
        self.pos
    }

    /// The digits in `[start, end)` read as a `usize`, or `default` on overflow.
    fn digits_usize(&self, start: usize, end: usize, default: usize) -> (n: usize)
        requires
            start <= end <= self.input@.len(),
            all_digits(self.input@.subrange(start as int, end as int)),
        ensures
            n == usize_or(self.input@.subrange(start as int, end as int), default),
    {
        let v = slice_chars(&self.input, start, end);
        match parse_digits(&v, usize::MAX as u64) {
            Some(x) => x as usize,
            None => default,
        }
    }

    fn lex_string(&mut self) -> (t: String)
        requires
            old(self).pos <= old(self).input@.len(),
        ensures
            final(self).input@ == old(self).input@,
            final(self).filename == old(self).filename,
            final(self).line == old(self).line,
            (t@, final(self).pos as int) == lex_str(old(self).input@, old(self).pos as int, Seq::empty()),
            old(self).pos <= final(self).pos <= old(self).input@.len(),
    {
        let ghost s = self.input@;
        let ghost target = lex_str(s, self.pos as int, Seq::empty());
        proof {
            lemma_lex_str(s, self.pos as int, Seq::empty());
        }
        let mut out: Vec<char> = Vec::new();
        while self.pos < self.input.len() && self.input[self.pos] != '"'
            invariant
                s == self.input@,
                self.pos <= s.len(),
                self.filename == old(self).filename,
                self.line == old(self).line,
                lex_str(s, self.pos as int, out@) == target,
            decreases s.len() - self.pos,
        {
            if self.input[self.pos] == '\\' {
                self.pos = self.pos + 1;
                if self.pos < self.input.len() {
                    let c = self.input[self.pos];
                    let u = if c == 'n' {
                        '\n'
                    } else if c == 't' {
                        '\t'
                    } else if c == 'r' {
                        '\r'
                    } else {
                        c
                    };
                    out.push(u);
                    self.pos = self.pos + 1;
                }
            } else {
                out.push(self.input[self.pos]);
                self.pos = self.pos + 1;
            }
        }
        if self.pos < self.input.len() {
            self.pos = self.pos + 1;
        }
        string_from_chars(&out)
    }

    /// Lexes a number literal whose first digit has just been consumed.
    fn lex_number(&mut self) -> (t: Token)
        requires
            1 <= old(self).pos <= old(self).input@.len(),
            is_digit(old(self).input@[old(self).pos - 1]),
            !(number_token(
                old(self).input@.subrange(
                    old(self).pos - 1,
                    run_end(old(self).input@, old(self).pos as int, |c: char| num_char(c)),
                ),
            ) is Malformed),
        ensures
            final(self).input@ == old(self).input@,
            final(self).filename == old(self).filename,
            final(self).line == old(self).line,
            final(self).pos == run_end(old(self).input@, old(self).pos as int, |c: char| num_char(c)),
            number_token(old(self).input@.subrange(old(self).pos - 1, final(self).pos as int))
                == Lexed::Tok(t@),
            old(self).pos <= final(self).pos <= old(self).input@.len(),
    {
        let ghost s = self.input@;
        let start = self.pos - 1;
        let ghost target = run_end(s, self.pos as int, |c: char| num_char(c));
        proof {
            lemma_run_end(s, self.pos as int, |c: char| num_char(c));
        }
        while self.pos < self.input.len() && (is_ascii_digit(self.input[self.pos]) || self.input[self.pos]
            == '.')
            invariant
                s == self.input@,
                self.pos <= s.len(),
                self.filename == old(self).filename,
                self.line == old(self).line,
                run_end(s, self.pos as int, |c: char| num_char(c)) == target,
            decreases s.len() - self.pos,
        {
            self.pos = self.pos + 1;
        }
        let text = slice_chars(&self.input, start, self.pos);
        let dots = count_dot_chars(&text);
        if dots > 0 {
            Token::Float(string_from_chars(&text))
        } else {
            proof {
                assert forall|i: int| 0 <= i < text@.len() implies is_digit(#[trigger] text@[i]) by {
                    assert(text@[i] == s[start + i]);
                    if i > 0 {
                        assert(num_char(s[start + i]));
                    }
                    lemma_no_dots(text@, i);
                }
            }
            match parse_digits(&text, i64::MAX as u64) {
                Some(v) => Token::Integer(v as i64),
                None => Token::Integer(0),
            }
        }
    }

    fn lex_identifier(&mut self) -> (t: Token)
        requires
            1 <= old(self).pos <= old(self).input@.len(),
        ensures
            final(self).input@ == old(self).input@,
            final(self).filename == old(self).filename,
            final(self).line == old(self).line,
            final(self).pos == run_end(old(self).input@, old(self).pos as int, |c: char| ident_char(c)),
            t@ == keyword(old(self).input@.subrange(old(self).pos - 1, final(self).pos as int)),
            old(self).pos <= final(self).pos <= old(self).input@.len(),
    {
        let ghost s = self.input@;
        let start = self.pos - 1;
        let ghost target = run_end(s, self.pos as int, |c: char| ident_char(c));
        proof {
            lemma_run_end(s, self.pos as int, |c: char| ident_char(c));
        }
        while self.pos < self.input.len() && (is_alphanumeric(self.input[self.pos]) || self.input[self.pos]
            == '_')
            invariant
                s == self.input@,
                self.pos <= s.len(),
                self.filename == old(self).filename,
                self.line == old(self).line,
                run_end(s, self.pos as int, |c: char| ident_char(c)) == target,
            decreases s.len() - self.pos,
        {
            self.pos = self.pos + 1;
        }
        let word = slice_chars(&self.input, start, self.pos);
        keyword_token(word)
    }
}

proof fn lemma_no_dots(t: Seq<char>, i: int)
    requires
        0 <= i < t.len(),
        count_dots(t) == 0,
    ensures
        t[i] != '.',
    decreases t.len(),
{
    if i < t.len() - 1 {
        assert(t.drop_last()[i] == t[i]);
        lemma_no_dots(t.drop_last(), i);
    }
}

impl Lexer {
    /// Whether the number literal that starts at `start` is malformed: more
    /// than one decimal point, or an integer beyond `i64`.
    fn number_malformed_at(&self, start: usize) -> (r: bool)
        requires
            start < self.input@.len(),
            is_digit(self.input@[start as int]),
        ensures
            r == (number_token(
                self.input@.subrange(start as int, run_end(self.input@, start + 1, |c: char| num_char(c))),
            ) is Malformed),
    {
        let ghost s = self.input@;
        let ghost target = run_end(s, start + 1, |c: char| num_char(c));
        proof {
            lemma_run_end(s, start + 1, |c: char| num_char(c));
        }
        let n = self.input.len();
        let mut e = start + 1;
        while e < n && (is_ascii_digit(self.input[e]) || self.input[e] == '.')
            invariant
                s == self.input@,
                n == s.len(),
                start + 1 <= e <= s.len(),
                run_end(s, e as int, |c: char| num_char(c)) == target,
            decreases s.len() - e,
        {
            e = e + 1;
        }
        let text = slice_chars(&self.input, start, e);
        let dots = count_dot_chars(&text);
        if dots > 0 {
            dots != 1
        } else {
            proof {
                lemma_run_end(s, start + 1, |c: char| num_char(c));
                assert forall|i: int| 0 <= i < text@.len() implies is_digit(#[trigger] text@[i]) by {
                    assert(text@[i] == s[start + i]);
                    if i > 0 {
                        assert(num_char(s[start + i]));
                    }
                    lemma_no_dots(text@, i);
                }
            }
            parse_digits(&text, i64::MAX as u64).is_none()
        }
    }

    /// Whether the rest of the source lexes soundly (see `stream_sound`):
    /// no malformed number literal, and no amount after a money marker that
    /// overflows in ten-thousandths. Lexing a source that is not sound is a
    /// fault; this is the test to make first.
    pub fn is_sound(&self) -> (r: bool)
        requires
            self.wf(),
        ensures
            r == self.sound(false),
    {
        let mut work = Lexer {
            input: slice_chars(&self.input, 0, self.input.len()),
            pos: self.pos,
            line: self.line,
            filename: String::new(),
        };
        let ghost s = self.input@;
        let mut after_money = false;
        loop
            invariant
                work.input@ == s,
                s == self.input@,
                work.wf(),
                self.sound(false) == stream_sound(s, work.pos as int, work.line as int, after_money),
            decreases s.len() - work.pos,
        {
            let ghost p0 = work.pos as int;
            let ghost l0 = work.line as int;
            let start_pos = work.pos;
            proof {
                lemma_trivia_end(s, work.pos as int, work.line as int);
            }
            work.skip_trivia();
            if work.pos >= work.input.len() {
                return true;
            }
            let ch = work.input[work.pos];
            if is_ascii_digit(ch) && work.number_malformed_at(work.pos) {
                return false;
            }
            work.pos = work.pos + 1;
            proof {
                assert(lex_next(s, p0, l0) == lex_after_spec(s, work.pos as int, work.line as int));
            }
            match work.lex_after(ch) {
                Err(_) => {
                    return true;
                },
                Ok(t) => {
                    let bad_amount = match t {
                        Token::Integer(i) => after_money && (i > 922337203685477 || i < -922337203685477),
                        _ => false,
                    };
                    proof {
                        match t@ {
                            TokenV::Integer(i) => {
                                assert(money_fits(i) <==> (-922337203685477 <= i && i <= 922337203685477)) by (nonlinear_arith);
                            },
                            _ => {},
                        }
                    }
                    if bad_amount {
                        return false;
                    }
                    if matches!(t, Token::EOF) {
                        return true;
                    }
                    if work.pos <= start_pos {
                        return false;
                    }
                    after_money = matches!(t, Token::Money);
                },
            }
        }
    }
}

fn count_dot_chars(t: &Vec<char>) -> (n: usize)
    ensures
        n == count_dots(t@),
{
    let mut n: usize = 0;
    let mut i: usize = 0;
    while i < t.len()
        invariant
            i <= t@.len(),
            n == count_dots(t@.take(i as int)),
            n <= i,
        decreases t@.len() - i,
    {
        proof {
            assert(t@.take(i + 1).drop_last() == t@.take(i as int));
        }
        if t[i] == '.' {
            n = n + 1;
        }
        i = i + 1;
    }
    proof {
        assert(t@.take(t@.len() as int) == t@);
    }
    n
}

/// The characters of `v` in `[start, end)`.
pub fn slice_chars(v: &Vec<char>, start: usize, end: usize) -> (r: Vec<char>)
    requires
        start <= end <= v@.len(),
    ensures
        r@ == v@.subrange(start as int, end as int),
{
    let mut r: Vec<char> = Vec::new();
    let mut i = start;
    while i < end
        invariant
            start <= i <= end <= v@.len(),
            r@ == v@.subrange(start as int, i as int),
        decreases end - i,
    {
        r.push(v[i]);
        proof {
            assert(v@.subrange(start as int, i + 1) == v@.subrange(start as int, i as int).push(v@[i as int]));
        }
        i = i + 1;
    }
    r
}

/// Decides `is_digit`.
pub fn is_ascii_digit(c: char) -> (r: bool)
    ensures
        r == is_digit(c),
{
    '0' <= c && c <= '9'
}

/// Decides `is_ascii_letter`.
pub fn is_ascii_letter_exec(c: char) -> (r: bool)
    ensures
        r == is_ascii_letter(c),
{
    ('a' <= c && c <= 'z') || ('A' <= c && c <= 'Z')
}

/// Whether the characters of `v` spell `lit`.
pub fn chars_are(v: &Vec<char>, lit: &str) -> (r: bool)
    ensures
        r == (v@ == lit@),
{
    let l = chars_of(lit);
    chars_eq(v, &l)
}

fn keyword_token(w: Vec<char>) -> (t: Token)
    ensures
        t@ == keyword(w@),
{
    proof {
        reveal_strlit("map");
        assert("map"@ =~= seq!['m', 'a', 'p']);
        reveal_strlit("flt");
        assert("flt"@ =~= seq!['f', 'l', 't']);
        reveal_strlit("http");
        assert("http"@ =~= seq!['h', 't', 't', 'p']);
        reveal_strlit("srv");
        assert("srv"@ =~= seq!['s', 'r', 'v']);
        reveal_strlit("rt");
        assert("rt"@ =~= seq!['r', 't']);
        reveal_strlit("hdr");
        assert("hdr"@ =~= seq!['h', 'd', 'r']);
        reveal_strlit("env");
        assert("env"@ =~= seq!['e', 'n', 'v']);
        reveal_strlit("fo");
        assert("fo"@ =~= seq!['f', 'o']);
        reveal_strlit("jp");
        assert("jp"@ =~= seq!['j', 'p']);
        reveal_strlit("ju");
        assert("ju"@ =~= seq!['j', 'u']);
        reveal_strlit("oe");
        assert("oe"@ =~= seq!['o', 'e']);
        reveal_strlit("sl");
        assert("sl"@ =~= seq!['s', 'l']);
        reveal_strlit("sc");
        assert("sc"@ =~= seq!['s', 'c']);
        reveal_strlit("ss");
        assert("ss"@ =~= seq!['s', 's']);
        reveal_strlit("sf");
        assert("sf"@ =~= seq!['s', 'f']);
        reveal_strlit("sr");
        assert("sr"@ =~= seq!['s', 'r']);
        reveal_strlit("sp");
        assert("sp"@ =~= seq!['s', 'p']);
        reveal_strlit("tn");
        assert("tn"@ =~= seq!['t', 'n']);
        reveal_strlit("tns");
        assert("tns"@ =~= seq!['t', 'n', 's']);
        reveal_strlit("tz");
        assert("tz"@ =~= seq!['t', 'z']);
        reveal_strlit("tg");
        assert("tg"@ =~= seq!['t', 'g']);
        reveal_strlit("ts");
        assert("ts"@ =~= seq!['t', 's']);
        reveal_strlit("str");
        assert("str"@ =~= seq!['s', 't', 'r']);
        reveal_strlit("gt");
        assert("gt"@ =~= seq!['g', 't']);
        reveal_strlit("lt");
        assert("lt"@ =~= seq!['l', 't']);
        reveal_strlit("xor");
        assert("xor"@ =~= seq!['x', 'o', 'r']);
    }
    if chars_are(&w, "map") {
        Token::MapField
    } else if chars_are(&w, "flt") {
        Token::Filter
    } else if chars_are(&w, "http") {
        Token::HttpClient
    } else if chars_are(&w, "srv") {
        Token::HttpServer
    } else if chars_are(&w, "rt") {
        Token::Router
    } else if chars_are(&w, "hdr") {
        Token::HttpHeader
    } else if chars_are(&w, "env") {
        Token::Env
    } else if chars_are(&w, "fo") {
        Token::FileOpen
    } else if chars_are(&w, "jp") {
        Token::Pack(1)
    } else if chars_are(&w, "ju") {
        Token::Pack(2)
    } else if chars_are(&w, "oe") {
        Token::OtelEmit(4)
    } else if chars_are(&w, "sl") {
        Token::Len
    } else if chars_are(&w, "sc") {
        Token::Cat
    } else if chars_are(&w, "ss") {
        Token::StrSub
    } else if chars_are(&w, "sf") {
        Token::Loc
    } else if chars_are(&w, "sr") {
        Token::Reg
    } else if chars_are(&w, "sp") {
        Token::Split
    } else if chars_are(&w, "tn") {
        Token::TimeNow
    } else if chars_are(&w, "tns") {
        Token::TimeNano
    } else if chars_are(&w, "tz") {
        Token::TimeZone
    } else if chars_are(&w, "tg") {
        Token::TimeGet
    } else if chars_are(&w, "ts") {
        Token::TimeSet
    } else if chars_are(&w, "str") {
        Token::Str
    } else if chars_are(&w, "gt") {
        Token::Gt
    } else if chars_are(&w, "lt") {
        Token::Lt
    } else if chars_are(&w, "xor") {
        Token::BitXor
    } else {
        Token::Identifier(string_from_chars(&w))
    }
}

fn single_token(c: char) -> (t: Option<Token>)
    ensures
        match single_char_token(c) {
            Some(v) => t matches Some(x) && x@ == v,
            None => t is None,
        },
{
    match c {
        '+' => Some(Token::Add),
        '-' => Some(Token::Sub),
        '*' => Some(Token::Mul),
        '>' => Some(Token::Move),
        '$' => Some(Token::Borrow),
        '~' => Some(Token::MutBorrow),
        '=' => Some(Token::Eq),
        '<' => Some(Token::Lt),
        '.' => Some(Token::Dot),
        '&' => Some(Token::BitAnd),
        '|' => Some(Token::BitOr),
        ':' => Some(Token::Define),
        '#' => Some(Token::Shape),
        '?' => Some(Token::Question),
        '!' => Some(Token::Panic),
        '`' => Some(Token::Bang),
        '(' => Some(Token::Read),
        ')' => Some(Token::Write),
        '%' => Some(Token::Money),
        'N' => Some(Token::New),
        'G' => Some(Token::Get),
        'S' => Some(Token::SetField),
        'M' => Some(Token::Metadata),
        'X' => Some(Token::Export),
        'L' => Some(Token::Let),
        'I' => Some(Token::Import),
        _ => None,
    }
}

/// `lex_next` once the first character (at `pos - 1`) has been consumed and
/// is not the start of a comment.
pub open spec fn lex_after_spec(s: Seq<char>, pos: int, line: int) -> (Lexed, int, int) {
    let ch = s[pos - 1];
    let p1 = pos;
    let l = line;
    if ch == '@' {
        let e = run_end(s, p1, |c: char| is_digit(c));
        let n = if e == p1 { 1 } else { usize_or(s.subrange(p1, e), 1) };
        (Lexed::Tok(TokenV::Apply(n)), e, l)
    } else if ch == '/' {
        (Lexed::Tok(TokenV::Div), p1, l)
    } else if single_char_token(ch) is Some {
        (Lexed::Tok(single_char_token(ch)->0), p1, l)
    } else if ch == '^' {
        if p1 < s.len() && is_digit(s[p1]) {
            let e = run_end(s, p1, |c: char| is_digit(c));
            (Lexed::Tok(TokenV::DeBruijn(usize_or(s.subrange(p1, e), 0))), e, l)
        } else {
            (Lexed::Tok(TokenV::Trap), p1, l)
        }
    } else if ch == '"' {
        let (t, e) = lex_str(s, p1, Seq::empty());
        (Lexed::Tok(TokenV::String(t)), e, l)
    } else if is_digit(ch) {
        let e = run_end(s, p1, |c: char| num_char(c));
        (number_token(s.subrange(p1 - 1, e)), e, l)
    } else if is_ascii_letter(ch) || ch == '_' {
        let e = run_end(s, p1, |c: char| ident_char(c));
        (Lexed::Tok(keyword(s.subrange(p1 - 1, e))), e, l)
    } else {
        (Lexed::Invalid(ch), p1, l)
    }
}

} // verus!
