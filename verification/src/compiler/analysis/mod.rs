//! Analyses over expressions: purity, a cost estimate, the names an
//! expression refers to, a structural fingerprint that ignores names, whether
//! an expression yields a heap pointer, and the removal of definitions that
//! nothing reachable uses.

pub mod verify;

use vstd::prelude::*;
use crate::compiler::ast::{Expr, ExprV, ParamV, view_exprs, view_strings, lemma_view_exprs};
use crate::compiler::lexer::{Token, TokenV};
use crate::compiler::table::find_entry;
use crate::text::{chars_of, str_eq, string_eq, string_of, copy_string, debug_string, debug_text, int_decimal, nat_decimal, push_char, push_i64, push_str, push_u64};

verus! {

/// Evaluating the expression has no effect beyond its value.
pub open spec fn pure(e: ExprV) -> bool
    decreases e, 0nat,
{
    match e {
        ExprV::Integer(a0) => true,
        ExprV::Float(a0) => true,
        ExprV::DeBruijn(a0) => true,
        ExprV::Identifier(a0) => true,
        ExprV::BinaryOp(a0, a1, a2) => pure(*a1) && pure(*a2),
        ExprV::Apply(a0, a1) => pure(*a0) && pure_list(a1),
        ExprV::Move(a0) => pure(*a0),
        ExprV::Borrow(a0) => pure(*a0),
        ExprV::MutBorrow(a0) => pure(*a0),
        ExprV::Define(a0, a1, a2, a3) => pure(*a2),
        ExprV::Shape(a0, a1, a2) => true,
        ExprV::New(a0, a1) => pure(*a1),
        ExprV::Get(a0, a1, a2) => pure(*a0) && pure(*a2),
        ExprV::SetField(a0, a1, a2, a3) => false,
        ExprV::If(a0, a1, a2) => pure(*a0) && pure(*a1) && pure(*a2),
        ExprV::Expand(a0) => true,
        ExprV::Let(a0, a1, a2) => pure(*a1) && pure(*a2),
        ExprV::Import(a0, a1, a2) => false,
        ExprV::String(a0) => true,
        ExprV::Len(a0) => pure(*a0),
        ExprV::Cat(a0, a1) => pure(*a0) && pure(*a1),
        ExprV::Sub(a0, a1, a2) => pure(*a0) && pure(*a1) && pure(*a2),
        ExprV::Loc(a0, a1) => pure(*a0) && pure(*a1),
        ExprV::Reg(a0, a1) => pure(*a0) && pure(*a1),
        ExprV::Read(a0) => false,
        ExprV::Write(a0, a1) => false,
        ExprV::Str(a0) => pure(*a0),
        ExprV::Split(a0, a1, a2) => pure(*a0) && pure(*a1) && pure(*a2),
        ExprV::TimeNow => false,
        ExprV::TimeNano => false,
        ExprV::TimeGet(a0, a1) => pure(*a0) && pure(*a1),
        ExprV::TimeSet(a0, a1, a2, a3, a4, a5) => pure(*a0) && pure(*a1) && pure(*a2) && pure(*a3) && pure(*a4) && pure(*a5),
        ExprV::Env(a0) => false,
        ExprV::Sequence(a0, a1) => pure(*a0) && pure(*a1),
        ExprV::Pack(a0) => pure(*a0),
        ExprV::Unpack(a0, a1) => pure(*a0),
        ExprV::Metadata(a0, a1, a2) => pure(*a0) && pure(*a1) && pure(*a2),
        ExprV::OtelEmit(a0, a1, a2, a3) => false,
        ExprV::MapField(a0, a1, a2) => pure(*a0) && pure(*a2),
        ExprV::Filter(a0, a1) => pure(*a0) && pure(*a1),
        ExprV::MoneyOp(a0, a1, a2) => pure(*a1) && pure(*a2),
        ExprV::MoneyStr(a0) => pure(*a0),
        ExprV::TimeOp(a0, a1, a2) => pure(*a1) && pure(*a2),
        ExprV::TimeZone => true,
        ExprV::Panic(a0) => false,
        ExprV::Trap(a0, a1) => false,
        ExprV::HttpClient(a0, a1, a2) => false,
        ExprV::HttpServer(a0, a1) => false,
        ExprV::HttpHeader(a0, a1) => false,
        ExprV::FileOpen(a0, a1) => false,
    }
}

pub open spec fn pure_list(es: Seq<ExprV>) -> bool
    decreases es, 0nat,
{
    es.len() == 0 || (pure(es[0]) && pure_list(es.subrange(1, es.len() as int)))
}

/// The estimated cost of evaluating an expression.
pub open spec fn complexity(e: ExprV) -> nat
    decreases e, 0nat,
{
    match e {
        ExprV::Integer(a0) => (1) as nat,
        ExprV::Float(a0) => (1) as nat,
        ExprV::DeBruijn(a0) => (1) as nat,
        ExprV::Identifier(a0) => (1) as nat,
        ExprV::BinaryOp(a0, a1, a2) => (5 + complexity(*a1) + complexity(*a2)) as nat,
        ExprV::Apply(a0, a1) => complexity(*a0) + complexity_list(a1) + 5,
        ExprV::Move(a0) => (1 + complexity(*a0)) as nat,
        ExprV::Borrow(a0) => (1 + complexity(*a0)) as nat,
        ExprV::MutBorrow(a0) => (1 + complexity(*a0)) as nat,
        ExprV::Define(a0, a1, a2, a3) => (complexity(*a2)) as nat,
        ExprV::Shape(a0, a1, a2) => (1) as nat,
        ExprV::New(a0, a1) => (10 + complexity(*a1)) as nat,
        ExprV::Get(a0, a1, a2) => (2 + complexity(*a0) + complexity(*a2)) as nat,
        ExprV::SetField(a0, a1, a2, a3) => (2 + complexity(*a0) + complexity(*a2) + complexity(*a3)) as nat,
        ExprV::If(a0, a1, a2) => (1 + complexity(*a0) + complexity(*a1) + complexity(*a2)) as nat,
        ExprV::Expand(a0) => (1) as nat,
        ExprV::Let(a0, a1, a2) => (1 + complexity(*a1) + complexity(*a2)) as nat,
        ExprV::Import(a0, a1, a2) => (1) as nat,
        ExprV::String(a0) => (1) as nat,
        ExprV::Len(a0) => (1 + complexity(*a0)) as nat,
        ExprV::Cat(a0, a1) => (5 + complexity(*a0) + complexity(*a1)) as nat,
        ExprV::Sub(a0, a1, a2) => (5 + complexity(*a0) + complexity(*a1) + complexity(*a2)) as nat,
        ExprV::Loc(a0, a1) => (5 + complexity(*a0) + complexity(*a1)) as nat,
        ExprV::Reg(a0, a1) => (5 + complexity(*a0) + complexity(*a1)) as nat,
        ExprV::Read(a0) => (1 + complexity(*a0)) as nat,
        ExprV::Write(a0, a1) => (1 + complexity(*a0) + complexity(*a1)) as nat,
        ExprV::Str(a0) => (1 + complexity(*a0)) as nat,
        ExprV::Split(a0, a1, a2) => (5 + complexity(*a0) + complexity(*a1) + complexity(*a2)) as nat,
        ExprV::TimeNow => (5) as nat,
        ExprV::TimeNano => (5) as nat,
        ExprV::TimeGet(a0, a1) => (5 + complexity(*a0) + complexity(*a1)) as nat,
        ExprV::TimeSet(a0, a1, a2, a3, a4, a5) => (10 + complexity(*a0) + complexity(*a1) + complexity(*a2) + complexity(*a3) + complexity(*a4) + complexity(*a5)) as nat,
        ExprV::Env(a0) => (5) as nat,
        ExprV::Sequence(a0, a1) => (5 + complexity(*a0) + complexity(*a1)) as nat,
        ExprV::Pack(a0) => (10 + complexity(*a0)) as nat,
        ExprV::Unpack(a0, a1) => (10 + complexity(*a0)) as nat,
        ExprV::Metadata(a0, a1, a2) => (complexity(*a2)) as nat,
        ExprV::OtelEmit(a0, a1, a2, a3) => (10 + complexity(*a0) + complexity(*a1) + complexity(*a2) + complexity(*a3)) as nat,
        ExprV::MapField(a0, a1, a2) => (20 + complexity(*a0) + complexity(*a2)) as nat,
        ExprV::Filter(a0, a1) => (20 + complexity(*a0) + complexity(*a1)) as nat,
        ExprV::MoneyOp(a0, a1, a2) => (5 + complexity(*a1) + complexity(*a2)) as nat,
        ExprV::MoneyStr(a0) => (10 + complexity(*a0)) as nat,
        ExprV::TimeOp(a0, a1, a2) => (5 + complexity(*a1) + complexity(*a2)) as nat,
        ExprV::TimeZone => (5) as nat,
        ExprV::Panic(a0) => (10 + complexity(*a0)) as nat,
        ExprV::Trap(a0, a1) => (20 + complexity(*a0) + complexity(*a1)) as nat,
        ExprV::HttpClient(a0, a1, a2) => (10 + complexity(*a0) + complexity(*a1) + complexity(*a2)) as nat,
        ExprV::HttpServer(a0, a1) => (10 + complexity(*a0) + complexity(*a1)) as nat,
        ExprV::HttpHeader(a0, a1) => (10 + complexity(*a0) + complexity(*a1)) as nat,
        ExprV::FileOpen(a0, a1) => (10 + complexity(*a0) + complexity(*a1)) as nat,
    }
}

pub open spec fn complexity_list(es: Seq<ExprV>) -> nat
    decreases es, 0nat,
{
    if es.len() == 0 {
        0
    } else {
        complexity(es[0]) + complexity_list(es.subrange(1, es.len() as int))
    }
}

/// The names an expression refers to, in order of appearance: identifiers,
/// template references and the shapes it allocates or unpacks into.
pub open spec fn calls_of(e: ExprV) -> Seq<Seq<char>>
    decreases e, 0nat,
{
    match e {
        ExprV::Integer(a0) => Seq::empty(),
        ExprV::Float(a0) => Seq::empty(),
        ExprV::DeBruijn(a0) => Seq::empty(),
        ExprV::Identifier(a0) => seq![a0],
        ExprV::BinaryOp(a0, a1, a2) => calls_of(*a1) + calls_of(*a2),
        ExprV::Apply(a0, a1) => calls_of(*a0) + calls_list(a1),
        ExprV::Move(a0) => calls_of(*a0),
        ExprV::Borrow(a0) => calls_of(*a0),
        ExprV::MutBorrow(a0) => calls_of(*a0),
        ExprV::Define(a0, a1, a2, a3) => calls_of(*a2),
        ExprV::Shape(a0, a1, a2) => Seq::empty(),
        ExprV::New(a0, a1) => seq![a0] + calls_of(*a1),
        ExprV::Get(a0, a1, a2) => calls_of(*a0) + calls_of(*a2),
        ExprV::SetField(a0, a1, a2, a3) => calls_of(*a0) + calls_of(*a2) + calls_of(*a3),
        ExprV::If(a0, a1, a2) => calls_of(*a0) + calls_of(*a1) + calls_of(*a2),
        ExprV::Expand(a0) => seq![a0],
        ExprV::Let(a0, a1, a2) => calls_of(*a1) + calls_of(*a2),
        ExprV::Import(a0, a1, a2) => Seq::empty(),
        ExprV::String(a0) => Seq::empty(),
        ExprV::Len(a0) => calls_of(*a0),
        ExprV::Cat(a0, a1) => Seq::empty(),
        ExprV::Sub(a0, a1, a2) => calls_of(*a0) + calls_of(*a1) + calls_of(*a2),
        ExprV::Loc(a0, a1) => calls_of(*a0) + calls_of(*a1),
        ExprV::Reg(a0, a1) => calls_of(*a0) + calls_of(*a1),
        ExprV::Read(a0) => calls_of(*a0),
        ExprV::Write(a0, a1) => calls_of(*a0) + calls_of(*a1),
        ExprV::Str(a0) => calls_of(*a0),
        ExprV::Split(a0, a1, a2) => calls_of(*a0) + calls_of(*a1) + calls_of(*a2),
        ExprV::TimeNow => Seq::empty(),
        ExprV::TimeNano => Seq::empty(),
        ExprV::TimeGet(a0, a1) => calls_of(*a0) + calls_of(*a1),
        ExprV::TimeSet(a0, a1, a2, a3, a4, a5) => calls_of(*a0) + calls_of(*a1) + calls_of(*a2) + calls_of(*a3) + calls_of(*a4) + calls_of(*a5),
        ExprV::Env(a0) => calls_of(*a0),
        ExprV::Sequence(a0, a1) => calls_of(*a0) + calls_of(*a1),
        ExprV::Pack(a0) => calls_of(*a0),
        ExprV::Unpack(a0, a1) => seq![a1] + calls_of(*a0),
        ExprV::Metadata(a0, a1, a2) => Seq::empty(),
        ExprV::OtelEmit(a0, a1, a2, a3) => Seq::empty(),
        ExprV::MapField(a0, a1, a2) => calls_of(*a0) + calls_of(*a2),
        ExprV::Filter(a0, a1) => calls_of(*a0) + calls_of(*a1),
        ExprV::MoneyOp(a0, a1, a2) => calls_of(*a1) + calls_of(*a2),
        ExprV::MoneyStr(a0) => calls_of(*a0),
        ExprV::TimeOp(a0, a1, a2) => calls_of(*a1) + calls_of(*a2),
        ExprV::TimeZone => Seq::empty(),
        ExprV::Panic(a0) => calls_of(*a0),
        ExprV::Trap(a0, a1) => calls_of(*a0) + calls_of(*a1),
        ExprV::HttpClient(a0, a1, a2) => calls_of(*a0) + calls_of(*a1) + calls_of(*a2),
        ExprV::HttpServer(a0, a1) => calls_of(*a0) + calls_of(*a1),
        ExprV::HttpHeader(a0, a1) => calls_of(*a0) + calls_of(*a1),
        ExprV::FileOpen(a0, a1) => calls_of(*a0) + calls_of(*a1),
    }
}

pub open spec fn calls_list(es: Seq<ExprV>) -> Seq<Seq<char>>
    decreases es, 0nat,
{
    if es.len() == 0 {
        Seq::empty()
    } else {
        calls_of(es[0]) + calls_list(es.subrange(1, es.len() as int))
    }
}

/// The `Debug` rendering of a token.
pub open spec fn token_debug(t: TokenV) -> Seq<char> {
    match t {
        TokenV::Apply(n) => "Apply("@ + nat_decimal(n as nat) + ")"@,
        TokenV::DeBruijn(n) => "DeBruijn("@ + nat_decimal(n as nat) + ")"@,
        TokenV::OtelEmit(n) => "OtelEmit("@ + nat_decimal(n as nat) + ")"@,
        TokenV::Pack(n) => "Pack("@ + nat_decimal(n as nat) + ")"@,
        TokenV::Integer(i) => "Integer("@ + int_decimal(i as int) + ")"@,
        TokenV::String(s) => "String("@ + debug_text(s) + ")"@,
        TokenV::Identifier(s) => "Identifier("@ + debug_text(s) + ")"@,
        TokenV::Float(s) => "Float("@ + debug_text(s) + ")"@,
        TokenV::Add => "Add"@,
        TokenV::Sub => "Sub"@,
        TokenV::Mul => "Mul"@,
        TokenV::Div => "Div"@,
        TokenV::Move => "Move"@,
        TokenV::Borrow => "Borrow"@,
        TokenV::MutBorrow => "MutBorrow"@,
        TokenV::Define => "Define"@,
        TokenV::Shape => "Shape"@,
        TokenV::Question => "Question"@,
        TokenV::Bang => "Bang"@,
        TokenV::New => "New"@,
        TokenV::Get => "Get"@,
        TokenV::SetField => "SetField"@,
        TokenV::Export => "Export"@,
        TokenV::Let => "Let"@,
        TokenV::Import => "Import"@,
        TokenV::Eq => "Eq"@,
        TokenV::Lt => "Lt"@,
        TokenV::Gt => "Gt"@,
        TokenV::Dot => "Dot"@,
        TokenV::BitAnd => "BitAnd"@,
        TokenV::BitOr => "BitOr"@,
        TokenV::BitXor => "BitXor"@,
        TokenV::Len => "Len"@,
        TokenV::Cat => "Cat"@,
        TokenV::StrSub => "StrSub"@,
        TokenV::Loc => "Loc"@,
        TokenV::Reg => "Reg"@,
        TokenV::Read => "Read"@,
        TokenV::Write => "Write"@,
        TokenV::Str => "Str"@,
        TokenV::Split => "Split"@,
        TokenV::MapField => "MapField"@,
        TokenV::Filter => "Filter"@,
        TokenV::Money => "Money"@,
        TokenV::Panic => "Panic"@,
        TokenV::Trap => "Trap"@,
        TokenV::TimeNow => "TimeNow"@,
        TokenV::TimeNano => "TimeNano"@,
        TokenV::TimeZone => "TimeZone"@,
        TokenV::TimeGet => "TimeGet"@,
        TokenV::TimeSet => "TimeSet"@,
        TokenV::Metadata => "Metadata"@,
        TokenV::Env => "Env"@,
        TokenV::HttpClient => "HttpClient"@,
        TokenV::HttpServer => "HttpServer"@,
        TokenV::FileOpen => "FileOpen"@,
        TokenV::Router => "Router"@,
        TokenV::HttpHeader => "HttpHeader"@,
        TokenV::EOF => "EOF"@,
    }
}

/// The shape of an expression with names, literal values and most
/// operators erased: two expressions that differ only in those get the same
/// fingerprint.
pub open spec fn fingerprint(e: ExprV) -> Seq<char>
    decreases e, 0nat,
{
    match e {
        ExprV::Integer(a0) => "i"@,
        ExprV::Float(a0) => "f"@,
        ExprV::DeBruijn(a0) => "^"@ + nat_decimal(a0 as nat),
        ExprV::Identifier(a0) => "v"@,
        ExprV::BinaryOp(a0, a1, a2) => token_debug(a0) + fingerprint(*a1) + fingerprint(*a2),
        ExprV::Apply(a0, a1) => "@"@ + nat_decimal(a1.len()) + fingerprint_list(a1),
        ExprV::Move(a0) => ">"@ + fingerprint(*a0),
        ExprV::Borrow(a0) => "$"@ + fingerprint(*a0),
        ExprV::MutBorrow(a0) => "~"@ + fingerprint(*a0),
        ExprV::Define(a0, a1, a2, a3) => ":"@ + Seq::new(a1.len(), |i: int| 'p') + fingerprint(*a2),
        ExprV::Shape(a0, a1, a2) => "#"@ + Seq::new(a1.len(), |i: int| 't'),
        ExprV::New(a0, a1) => "N"@ + fingerprint(*a1),
        ExprV::Get(a0, a1, a2) => "G"@ + fingerprint(*a0) + fingerprint(*a2),
        ExprV::SetField(a0, a1, a2, a3) => "S"@ + fingerprint(*a0) + fingerprint(*a2) + fingerprint(*a3),
        ExprV::If(a0, a1, a2) => "?"@ + fingerprint(*a0) + fingerprint(*a1) + fingerprint(*a2),
        ExprV::Expand(a0) => "!"@,
        ExprV::Let(a0, a1, a2) => "L"@ + fingerprint(*a1) + fingerprint(*a2),
        ExprV::Import(a0, a1, a2) => "I"@,
        ExprV::String(a0) => "s"@,
        ExprV::Len(a0) => "?"@,
        ExprV::Cat(a0, a1) => "?"@,
        ExprV::Sub(a0, a1, a2) => "?"@,
        ExprV::Loc(a0, a1) => "?"@,
        ExprV::Reg(a0, a1) => "?"@,
        ExprV::Read(a0) => "?"@,
        ExprV::Write(a0, a1) => "?"@,
        ExprV::Str(a0) => "?"@,
        ExprV::Split(a0, a1, a2) => "?"@,
        ExprV::TimeNow => "?"@,
        ExprV::TimeNano => "?"@,
        ExprV::TimeGet(a0, a1) => "?"@,
        ExprV::TimeSet(a0, a1, a2, a3, a4, a5) => "?"@,
        ExprV::Env(a0) => "?"@,
        ExprV::Sequence(a0, a1) => "."@ + fingerprint(*a0) + fingerprint(*a1),
        ExprV::Pack(a0) => "jp"@ + fingerprint(*a0),
        ExprV::Unpack(a0, a1) => "ju"@ + fingerprint(*a0),
        ExprV::Metadata(a0, a1, a2) => "?"@,
        ExprV::OtelEmit(a0, a1, a2, a3) => "?"@,
        ExprV::MapField(a0, a1, a2) => "map"@ + fingerprint(*a0) + fingerprint(*a2),
        ExprV::Filter(a0, a1) => "flt"@ + fingerprint(*a0) + fingerprint(*a1),
        ExprV::MoneyOp(a0, a1, a2) => "?"@,
        ExprV::MoneyStr(a0) => "?"@,
        ExprV::TimeOp(a0, a1, a2) => "?"@,
        ExprV::TimeZone => "?"@,
        ExprV::Panic(a0) => "?"@,
        ExprV::Trap(a0, a1) => "?"@,
        ExprV::HttpClient(a0, a1, a2) => "http"@ + fingerprint(*a0) + fingerprint(*a1) + fingerprint(*a2),
        ExprV::HttpServer(a0, a1) => "srv"@ + fingerprint(*a0) + fingerprint(*a1),
        ExprV::HttpHeader(a0, a1) => "hdr"@ + fingerprint(*a0) + fingerprint(*a1),
        ExprV::FileOpen(a0, a1) => "?"@,
    }
}

pub open spec fn fingerprint_list(es: Seq<ExprV>) -> Seq<char>
    decreases es, 0nat,
{
    if es.len() == 0 {
        Seq::empty()
    } else {
        fingerprint(es[0]) + fingerprint_list(es.subrange(1, es.len() as int))
    }
}

proof fn lemma_assoc<T>(a: Seq<T>, b: Seq<T>, c: Seq<T>)
    ensures
        (a + b) + c == a + (b + c),
{
    assert((a + b) + c =~= a + (b + c));
}

/// Appends `c` `n` times.
fn push_repeated(s: &mut String, c: char, n: usize)
    ensures
        final(s)@ == old(s)@ + Seq::new(n as nat, |i: int| c),
{
    let ghost start = s@;
    let mut i: usize = 0;
    while i < n
        invariant
            i <= n,
            s@ == start + Seq::new(i as nat, |k: int| c),
        decreases n - i,
    {
        push_char(s, c);
        proof {
            assert(s@ =~= start + Seq::new((i + 1) as nat, |k: int| c));
        }
        i = i + 1;
    }
}

/// Appends the `Debug` rendering of a token.
fn push_token_debug(s: &mut String, t: &Token)
    ensures
        final(s)@ == old(s)@ + token_debug(t@),
{
    let ghost start = s@;
    match t {
        Token::Apply(n) | Token::DeBruijn(n) | Token::OtelEmit(n) | Token::Pack(n) => {
            let name = match t {
                Token::Apply(_) => "Apply(",
                Token::DeBruijn(_) => "DeBruijn(",
                Token::OtelEmit(_) => "OtelEmit(",
                _ => "Pack(",
            };
            push_str(s, name);
            push_u64(s, *n as u64);
            push_str(s, ")");
            proof {
                lemma_assoc(start, name@, nat_decimal(*n as nat));
                lemma_assoc(start, name@ + nat_decimal(*n as nat), ")"@);
            }
        },
        Token::Integer(i) => {
            push_str(s, "Integer(");
            push_i64(s, *i);
            push_str(s, ")");
            proof {
                lemma_assoc(start, "Integer("@, int_decimal(*i as int));
                lemma_assoc(start, "Integer("@ + int_decimal(*i as int), ")"@);
            }
        },
        Token::String(x) | Token::Identifier(x) | Token::Float(x) => {
            let name = match t {
                Token::String(_) => "String(",
                Token::Identifier(_) => "Identifier(",
                _ => "Float(",
            };
            push_str(s, name);
            let d = debug_string(x.as_str());
            push_str(s, d.as_str());
            push_str(s, ")");
            proof {
                lemma_assoc(start, name@, debug_text(x@));
                lemma_assoc(start, name@ + debug_text(x@), ")"@);
            }
        },
        _ => {
            push_str(s, token_debug_name(t));
        },
    }
}

/// The `Debug` rendering of a token without a payload.
fn token_debug_name(t: &Token) -> (r: &'static str)
    requires
        !(t@ is Apply || t@ is DeBruijn || t@ is OtelEmit || t@ is Pack || t@ is Integer || t@ is String
            || t@ is Identifier || t@ is Float),
    ensures
        r@ == token_debug(t@),
{
    match t {
        Token::Add => "Add",
        Token::Sub => "Sub",
        Token::Mul => "Mul",
        Token::Div => "Div",
        Token::Move => "Move",
        Token::Borrow => "Borrow",
        Token::MutBorrow => "MutBorrow",
        Token::Define => "Define",
        Token::Shape => "Shape",
        Token::Question => "Question",
        Token::Bang => "Bang",
        Token::New => "New",
        Token::Get => "Get",
        Token::SetField => "SetField",
        Token::Export => "Export",
        Token::Let => "Let",
        Token::Import => "Import",
        Token::Eq => "Eq",
        Token::Lt => "Lt",
        Token::Gt => "Gt",
        Token::Dot => "Dot",
        Token::BitAnd => "BitAnd",
        Token::BitOr => "BitOr",
        Token::BitXor => "BitXor",
        Token::Len => "Len",
        Token::Cat => "Cat",
        Token::StrSub => "StrSub",
        Token::Loc => "Loc",
        Token::Reg => "Reg",
        Token::Read => "Read",
        Token::Write => "Write",
        Token::Str => "Str",
        Token::Split => "Split",
        Token::MapField => "MapField",
        Token::Filter => "Filter",
        Token::Money => "Money",
        Token::Panic => "Panic",
        Token::Trap => "Trap",
        Token::TimeNow => "TimeNow",
        Token::TimeNano => "TimeNano",
        Token::TimeZone => "TimeZone",
        Token::TimeGet => "TimeGet",
        Token::TimeSet => "TimeSet",
        Token::Metadata => "Metadata",
        Token::Env => "Env",
        Token::HttpClient => "HttpClient",
        Token::HttpServer => "HttpServer",
        Token::FileOpen => "FileOpen",
        Token::Router => "Router",
        Token::HttpHeader => "HttpHeader",
        Token::EOF => "EOF",
        _ => "",
    }
}

impl Expr {
    /// Whether evaluating this expression has no effect beyond its value.
    pub fn is_pure(&self) -> (r: bool)
        ensures
            r == pure(self@),
        decreases self, 1nat,
    {
        match self {
            Expr::Integer(a0) => true,
            Expr::Float(a0) => true,
            Expr::DeBruijn(a0) => true,
            Expr::Identifier(a0) => true,
            Expr::BinaryOp(a0, a1, a2) => a1.is_pure() && a2.is_pure(),
            Expr::Apply(a0, a1) => a0.is_pure() && all_pure(a1),
            Expr::Move(a0) => a0.is_pure(),
            Expr::Borrow(a0) => a0.is_pure(),
            Expr::MutBorrow(a0) => a0.is_pure(),
            Expr::Define(a0, a1, a2, a3) => a2.is_pure(),
            Expr::Shape(a0, a1, a2) => true,
            Expr::New(a0, a1) => a1.is_pure(),
            Expr::Get(a0, a1, a2) => a0.is_pure() && a2.is_pure(),
            Expr::SetField(a0, a1, a2, a3) => false,
            Expr::If(a0, a1, a2) => a0.is_pure() && a1.is_pure() && a2.is_pure(),
            Expr::Expand(a0) => true,
            Expr::Let(a0, a1, a2) => a1.is_pure() && a2.is_pure(),
            Expr::Import(a0, a1, a2) => false,
            Expr::String(a0) => true,
            Expr::Len(a0) => a0.is_pure(),
            Expr::Cat(a0, a1) => a0.is_pure() && a1.is_pure(),
            Expr::Sub(a0, a1, a2) => a0.is_pure() && a1.is_pure() && a2.is_pure(),
            Expr::Loc(a0, a1) => a0.is_pure() && a1.is_pure(),
            Expr::Reg(a0, a1) => a0.is_pure() && a1.is_pure(),
            Expr::Read(a0) => false,
            Expr::Write(a0, a1) => false,
            Expr::Str(a0) => a0.is_pure(),
            Expr::Split(a0, a1, a2) => a0.is_pure() && a1.is_pure() && a2.is_pure(),
            Expr::TimeNow => false,
            Expr::TimeNano => false,
            Expr::TimeGet(a0, a1) => a0.is_pure() && a1.is_pure(),
            Expr::TimeSet(a0, a1, a2, a3, a4, a5) => a0.is_pure() && a1.is_pure() && a2.is_pure() && a3.is_pure() && a4.is_pure() && a5.is_pure(),
            Expr::Env(a0) => false,
            Expr::Sequence(a0, a1) => a0.is_pure() && a1.is_pure(),
            Expr::Pack(a0) => a0.is_pure(),
            Expr::Unpack(a0, a1) => a0.is_pure(),
            Expr::Metadata(a0, a1, a2) => a0.is_pure() && a1.is_pure() && a2.is_pure(),
            Expr::OtelEmit(a0, a1, a2, a3) => false,
            Expr::MapField(a0, a1, a2) => a0.is_pure() && a2.is_pure(),
            Expr::Filter(a0, a1) => a0.is_pure() && a1.is_pure(),
            Expr::MoneyOp(a0, a1, a2) => a1.is_pure() && a2.is_pure(),
            Expr::MoneyStr(a0) => a0.is_pure(),
            Expr::TimeOp(a0, a1, a2) => a1.is_pure() && a2.is_pure(),
            Expr::TimeZone => true,
            Expr::Panic(a0) => false,
            Expr::Trap(a0, a1) => false,
            Expr::HttpClient(a0, a1, a2) => false,
            Expr::HttpServer(a0, a1) => false,
            Expr::HttpHeader(a0, a1) => false,
            Expr::FileOpen(a0, a1) => false,
        }
    }

    /// The estimated cost of evaluating this expression.
    pub fn complexity(&self) -> (r: usize)
        requires
            complexity(self@) <= usize::MAX,
        ensures
            r == complexity(self@),
        decreases self, 1nat,
    {
        match self {
            Expr::Integer(a0) => 1,
            Expr::Float(a0) => 1,
            Expr::DeBruijn(a0) => 1,
            Expr::Identifier(a0) => 1,
            Expr::BinaryOp(a0, a1, a2) => 5 + a1.complexity() + a2.complexity(),
            Expr::Apply(a0, a1) => {
                let f = a0.complexity();
                let s = sum_complexity(a1);
                f + s + 5
            },
            Expr::Move(a0) => 1 + a0.complexity(),
            Expr::Borrow(a0) => 1 + a0.complexity(),
            Expr::MutBorrow(a0) => 1 + a0.complexity(),
            Expr::Define(a0, a1, a2, a3) => a2.complexity(),
            Expr::Shape(a0, a1, a2) => 1,
            Expr::New(a0, a1) => 10 + a1.complexity(),
            Expr::Get(a0, a1, a2) => 2 + a0.complexity() + a2.complexity(),
            Expr::SetField(a0, a1, a2, a3) => 2 + a0.complexity() + a2.complexity() + a3.complexity(),
            Expr::If(a0, a1, a2) => 1 + a0.complexity() + a1.complexity() + a2.complexity(),
            Expr::Expand(a0) => 1,
            Expr::Let(a0, a1, a2) => 1 + a1.complexity() + a2.complexity(),
            Expr::Import(a0, a1, a2) => 1,
            Expr::String(a0) => 1,
            Expr::Len(a0) => 1 + a0.complexity(),
            Expr::Cat(a0, a1) => 5 + a0.complexity() + a1.complexity(),
            Expr::Sub(a0, a1, a2) => 5 + a0.complexity() + a1.complexity() + a2.complexity(),
            Expr::Loc(a0, a1) => 5 + a0.complexity() + a1.complexity(),
            Expr::Reg(a0, a1) => 5 + a0.complexity() + a1.complexity(),
            Expr::Read(a0) => 1 + a0.complexity(),
            Expr::Write(a0, a1) => 1 + a0.complexity() + a1.complexity(),
            Expr::Str(a0) => 1 + a0.complexity(),
            Expr::Split(a0, a1, a2) => 5 + a0.complexity() + a1.complexity() + a2.complexity(),
            Expr::TimeNow => 5,
            Expr::TimeNano => 5,
            Expr::TimeGet(a0, a1) => 5 + a0.complexity() + a1.complexity(),
            Expr::TimeSet(a0, a1, a2, a3, a4, a5) => 10 + a0.complexity() + a1.complexity() + a2.complexity() + a3.complexity() + a4.complexity() + a5.complexity(),
            Expr::Env(a0) => 5,
            Expr::Sequence(a0, a1) => 5 + a0.complexity() + a1.complexity(),
            Expr::Pack(a0) => 10 + a0.complexity(),
            Expr::Unpack(a0, a1) => 10 + a0.complexity(),
            Expr::Metadata(a0, a1, a2) => a2.complexity(),
            Expr::OtelEmit(a0, a1, a2, a3) => 10 + a0.complexity() + a1.complexity() + a2.complexity() + a3.complexity(),
            Expr::MapField(a0, a1, a2) => 20 + a0.complexity() + a2.complexity(),
            Expr::Filter(a0, a1) => 20 + a0.complexity() + a1.complexity(),
            Expr::MoneyOp(a0, a1, a2) => 5 + a1.complexity() + a2.complexity(),
            Expr::MoneyStr(a0) => 10 + a0.complexity(),
            Expr::TimeOp(a0, a1, a2) => 5 + a1.complexity() + a2.complexity(),
            Expr::TimeZone => 5,
            Expr::Panic(a0) => 10 + a0.complexity(),
            Expr::Trap(a0, a1) => 20 + a0.complexity() + a1.complexity(),
            Expr::HttpClient(a0, a1, a2) => 10 + a0.complexity() + a1.complexity() + a2.complexity(),
            Expr::HttpServer(a0, a1) => 10 + a0.complexity() + a1.complexity(),
            Expr::HttpHeader(a0, a1) => 10 + a0.complexity() + a1.complexity(),
            Expr::FileOpen(a0, a1) => 10 + a0.complexity() + a1.complexity(),
        }
    }
}

/// Whether every expression of a list is pure.
fn all_pure(args: &Vec<Expr>) -> (r: bool)
    ensures
        r == pure_list(view_exprs(args@)),
    decreases args@, 0nat,
{
    let ghost av = view_exprs(args@);
    proof {
        lemma_view_exprs(args@);
        assert(av.subrange(0, av.len() as int) =~= av);
    }
    let mut i: usize = 0;
    while i < args.len()
        invariant
            i <= args@.len(),
            av == view_exprs(args@),
            av.len() == args@.len(),
            forall|k: int| 0 <= k < args@.len() ==> #[trigger] av[k] == args@[k]@,
            pure_list(av) == pure_list(av.subrange(i as int, av.len() as int)),
        decreases args@.len() - i,
    {
        let ghost rest = av.subrange(i as int, av.len() as int);
        proof {
            assert(rest[0] == av[i as int]);
            assert(rest.subrange(1, rest.len() as int) =~= av.subrange(i + 1, av.len() as int));
        }
        if !args[i].is_pure() {
            return false;
        }
        i = i + 1;
    }
    proof {
        assert(av.subrange(i as int, av.len() as int) =~= Seq::<ExprV>::empty());
    }
    true
}

/// The summed cost of a list of expressions.
fn sum_complexity(args: &Vec<Expr>) -> (r: usize)
    requires
        complexity_list(view_exprs(args@)) <= usize::MAX,
    ensures
        r == complexity_list(view_exprs(args@)),
    decreases args@, 0nat,
{
    let ghost av = view_exprs(args@);
    proof {
        lemma_view_exprs(args@);
        assert(av.subrange(0, av.len() as int) =~= av);
    }
    let mut i: usize = 0;
    let mut sum: usize = 0;
    while i < args.len()
        invariant
            i <= args@.len(),
            av == view_exprs(args@),
            av.len() == args@.len(),
            forall|k: int| 0 <= k < args@.len() ==> #[trigger] av[k] == args@[k]@,
            complexity_list(av) <= usize::MAX,
            complexity_list(av) == sum + complexity_list(av.subrange(i as int, av.len() as int)),
        decreases args@.len() - i,
    {
        let ghost rest = av.subrange(i as int, av.len() as int);
        proof {
            assert(rest[0] == av[i as int]);
            assert(rest.subrange(1, rest.len() as int) =~= av.subrange(i + 1, av.len() as int));
        }
        let c = args[i].complexity();
        sum = sum + c;
        i = i + 1;
    }
    proof {
        assert(av.subrange(i as int, av.len() as int) =~= Seq::<ExprV>::empty());
    }
    sum
}

impl Expr {
    /// The names this expression refers to, in order (see `calls_of`).
    pub fn get_calls(&self) -> (r: Vec<String>)
        ensures
            view_strings(r@) == calls_of(self@),
    {
        let mut calls: Vec<String> = Vec::new();
        self.collect_calls(&mut calls);
        proof {
            assert(view_strings(Seq::<String>::empty()) + calls_of(self@) =~= calls_of(self@));
        }
        calls
    }

    /// The structural fingerprint of this expression (see `fingerprint`).
    pub fn structural_fingerprint(&self) -> (r: String)
        ensures
            r@ == fingerprint(self@),
    {
        let mut s = String::new();
        self.collect_fingerprint(&mut s);
        proof {
            assert(Seq::<char>::empty() + fingerprint(self@) =~= fingerprint(self@));
        }
        s
    }

    /// Appends the names this expression refers to (see `calls_of`).
    fn collect_calls(&self, calls: &mut Vec<String>)
        ensures
            view_strings(final(calls)@) == view_strings(old(calls)@) + calls_of(self@),
        decreases self, 1nat,
    {
        match self {
            Expr::Integer(..) | Expr::Float(..) | Expr::DeBruijn(..) | Expr::Identifier(..) | Expr::BinaryOp(..) | Expr::Apply(..) | Expr::Move(..) | Expr::Borrow(..) | Expr::MutBorrow(..) | Expr::Define(..) => self.collect_calls_1(calls),
            Expr::Shape(..) | Expr::New(..) | Expr::Get(..) | Expr::SetField(..) | Expr::If(..) | Expr::Expand(..) | Expr::Let(..) | Expr::Import(..) | Expr::String(..) | Expr::Len(..) => self.collect_calls_2(calls),
            Expr::Cat(..) | Expr::Sub(..) | Expr::Loc(..) | Expr::Reg(..) | Expr::Read(..) | Expr::Write(..) | Expr::Str(..) | Expr::Split(..) | Expr::TimeNow | Expr::TimeNano => self.collect_calls_3(calls),
            Expr::TimeGet(..) | Expr::TimeSet(..) | Expr::Env(..) | Expr::Sequence(..) | Expr::Pack(..) | Expr::Unpack(..) | Expr::Metadata(..) | Expr::OtelEmit(..) | Expr::MapField(..) | Expr::Filter(..) => self.collect_calls_4(calls),
            Expr::MoneyOp(..) | Expr::MoneyStr(..) | Expr::TimeOp(..) | Expr::TimeZone | Expr::Panic(..) | Expr::Trap(..) | Expr::HttpClient(..) | Expr::HttpServer(..) | Expr::HttpHeader(..) | Expr::FileOpen(..) => self.collect_calls_5(calls),
        }
    }

    #[verifier::spinoff_prover]
    fn collect_calls_1(&self, calls: &mut Vec<String>)
        requires
            self@ is Integer || self@ is Float || self@ is DeBruijn || self@ is Identifier || self@ is BinaryOp || self@ is Apply || self@ is Move || self@ is Borrow || self@ is MutBorrow || self@ is Define,
        ensures
            view_strings(final(calls)@) == view_strings(old(calls)@) + calls_of(self@),
        decreases self, 0nat,
    {
        let ghost start = view_strings(calls@);
        match self {
            Expr::Integer(a0) => {
                assert(view_strings(calls@) =~= start + calls_of(self@));
            },
            Expr::Float(a0) => {
                assert(view_strings(calls@) =~= start + calls_of(self@));
            },
            Expr::DeBruijn(a0) => {
                assert(view_strings(calls@) =~= start + calls_of(self@));
            },
            Expr::Identifier(a0) => {
                let ghost before = calls@;
                calls.push(copy_string(a0));
                proof {
                    assert(view_strings(calls@) =~= view_strings(before).push(a0@));
                    assert(view_strings(before).push(a0@) =~= view_strings(before) + seq![a0@]);
                }
                assert(view_strings(calls@) == start + (seq![a0@]));
                assert(calls_of(self@) == seq![a0@]);
            },
            Expr::BinaryOp(a0, a1, a2) => {
                a1.collect_calls(calls);
                assert(view_strings(calls@) == start + (calls_of((**a1)@)));
                a2.collect_calls(calls);
                proof {
                    lemma_assoc(start, calls_of((**a1)@), calls_of((**a2)@));
                }
                assert(view_strings(calls@) == start + (calls_of((**a1)@) + calls_of((**a2)@)));
                assert(calls_of(self@) == calls_of((**a1)@) + calls_of((**a2)@));
            },
            Expr::Apply(a0, a1) => {
                proof {
                    lemma_view_exprs(a1@);
                }
                a0.collect_calls(calls);
                assert(view_strings(calls@) == start + (calls_of((**a0)@)));
                collect_calls_list(a1, calls);
                proof {
                    lemma_assoc(start, calls_of((**a0)@), calls_list(view_exprs(a1@)));
                }
                assert(view_strings(calls@) == start + (calls_of((**a0)@) + calls_list(view_exprs(a1@))));
                assert(calls_of(self@) == calls_of((**a0)@) + calls_list(view_exprs(a1@)));
            },
            Expr::Move(a0) => {
                a0.collect_calls(calls);
                assert(view_strings(calls@) == start + (calls_of((**a0)@)));
                assert(calls_of(self@) == calls_of((**a0)@));
            },
            Expr::Borrow(a0) => {
                a0.collect_calls(calls);
                assert(view_strings(calls@) == start + (calls_of((**a0)@)));
                assert(calls_of(self@) == calls_of((**a0)@));
            },
            Expr::MutBorrow(a0) => {
                a0.collect_calls(calls);
                assert(view_strings(calls@) == start + (calls_of((**a0)@)));
                assert(calls_of(self@) == calls_of((**a0)@));
            },
            Expr::Define(a0, a1, a2, a3) => {
                a2.collect_calls(calls);
                assert(view_strings(calls@) == start + (calls_of((**a2)@)));
                assert(calls_of(self@) == calls_of((**a2)@));
            },
            _ => {
                assert(false);
            },
        }
    }

    #[verifier::spinoff_prover]
    fn collect_calls_2(&self, calls: &mut Vec<String>)
        requires
            self@ is Shape || self@ is New || self@ is Get || self@ is SetField || self@ is If || self@ is Expand || self@ is Let || self@ is Import || self@ is String || self@ is Len,
        ensures
            view_strings(final(calls)@) == view_strings(old(calls)@) + calls_of(self@),
        decreases self, 0nat,
    {
        let ghost start = view_strings(calls@);
        match self {
            Expr::Shape(a0, a1, a2) => {
                assert(view_strings(calls@) =~= start + calls_of(self@));
            },
            Expr::New(a0, a1) => {
                let ghost before = calls@;
                calls.push(copy_string(a0));
                proof {
                    assert(view_strings(calls@) =~= view_strings(before).push(a0@));
                    assert(view_strings(before).push(a0@) =~= view_strings(before) + seq![a0@]);
                }
                assert(view_strings(calls@) == start + (seq![a0@]));
                a1.collect_calls(calls);
                proof {
                    lemma_assoc(start, seq![a0@], calls_of((**a1)@));
                }
                assert(view_strings(calls@) == start + (seq![a0@] + calls_of((**a1)@)));
                assert(calls_of(self@) == seq![a0@] + calls_of((**a1)@));
            },
            Expr::Get(a0, a1, a2) => {
                a0.collect_calls(calls);
                assert(view_strings(calls@) == start + (calls_of((**a0)@)));
                a2.collect_calls(calls);
                proof {
                    lemma_assoc(start, calls_of((**a0)@), calls_of((**a2)@));
                }
                assert(view_strings(calls@) == start + (calls_of((**a0)@) + calls_of((**a2)@)));
                assert(calls_of(self@) == calls_of((**a0)@) + calls_of((**a2)@));
            },
            Expr::SetField(a0, a1, a2, a3) => {
                a0.collect_calls(calls);
                assert(view_strings(calls@) == start + (calls_of((**a0)@)));
                a2.collect_calls(calls);
                proof {
                    lemma_assoc(start, calls_of((**a0)@), calls_of((**a2)@));
                }
                assert(view_strings(calls@) == start + (calls_of((**a0)@) + calls_of((**a2)@)));
                a3.collect_calls(calls);
                proof {
                    lemma_assoc(start, calls_of((**a0)@) + calls_of((**a2)@), calls_of((**a3)@));
                }
                assert(view_strings(calls@) == start + (calls_of((**a0)@) + calls_of((**a2)@) + calls_of((**a3)@)));
                assert(calls_of(self@) == calls_of((**a0)@) + calls_of((**a2)@) + calls_of((**a3)@));
            },
            Expr::If(a0, a1, a2) => {
                a0.collect_calls(calls);
                assert(view_strings(calls@) == start + (calls_of((**a0)@)));
                a1.collect_calls(calls);
                proof {
                    lemma_assoc(start, calls_of((**a0)@), calls_of((**a1)@));
                }
                assert(view_strings(calls@) == start + (calls_of((**a0)@) + calls_of((**a1)@)));
                a2.collect_calls(calls);
                proof {
                    lemma_assoc(start, calls_of((**a0)@) + calls_of((**a1)@), calls_of((**a2)@));
                }
                assert(view_strings(calls@) == start + (calls_of((**a0)@) + calls_of((**a1)@) + calls_of((**a2)@)));
                assert(calls_of(self@) == calls_of((**a0)@) + calls_of((**a1)@) + calls_of((**a2)@));
            },
            Expr::Expand(a0) => {
                let ghost before = calls@;
                calls.push(copy_string(a0));
                proof {
                    assert(view_strings(calls@) =~= view_strings(before).push(a0@));
                    assert(view_strings(before).push(a0@) =~= view_strings(before) + seq![a0@]);
                }
                assert(view_strings(calls@) == start + (seq![a0@]));
                assert(calls_of(self@) == seq![a0@]);
            },
            Expr::Let(a0, a1, a2) => {
                a1.collect_calls(calls);
                assert(view_strings(calls@) == start + (calls_of((**a1)@)));
                a2.collect_calls(calls);
                proof {
                    lemma_assoc(start, calls_of((**a1)@), calls_of((**a2)@));
                }
                assert(view_strings(calls@) == start + (calls_of((**a1)@) + calls_of((**a2)@)));
                assert(calls_of(self@) == calls_of((**a1)@) + calls_of((**a2)@));
            },
            Expr::Import(a0, a1, a2) => {
                assert(view_strings(calls@) =~= start + calls_of(self@));
            },
            Expr::String(a0) => {
                assert(view_strings(calls@) =~= start + calls_of(self@));
            },
            Expr::Len(a0) => {
                a0.collect_calls(calls);
                assert(view_strings(calls@) == start + (calls_of((**a0)@)));
                assert(calls_of(self@) == calls_of((**a0)@));
            },
            _ => {
                assert(false);
            },
        }
    }

    #[verifier::spinoff_prover]
    fn collect_calls_3(&self, calls: &mut Vec<String>)
        requires
            self@ is Cat || self@ is Sub || self@ is Loc || self@ is Reg || self@ is Read || self@ is Write || self@ is Str || self@ is Split || self@ is TimeNow || self@ is TimeNano,
        ensures
            view_strings(final(calls)@) == view_strings(old(calls)@) + calls_of(self@),
        decreases self, 0nat,
    {
        let ghost start = view_strings(calls@);
        match self {
            Expr::Cat(a0, a1) => {
                assert(view_strings(calls@) =~= start + calls_of(self@));
            },
            Expr::Sub(a0, a1, a2) => {
                a0.collect_calls(calls);
                assert(view_strings(calls@) == start + (calls_of((**a0)@)));
                a1.collect_calls(calls);
                proof {
                    lemma_assoc(start, calls_of((**a0)@), calls_of((**a1)@));
                }
                assert(view_strings(calls@) == start + (calls_of((**a0)@) + calls_of((**a1)@)));
                a2.collect_calls(calls);
                proof {
                    lemma_assoc(start, calls_of((**a0)@) + calls_of((**a1)@), calls_of((**a2)@));
                }
                assert(view_strings(calls@) == start + (calls_of((**a0)@) + calls_of((**a1)@) + calls_of((**a2)@)));
                assert(calls_of(self@) == calls_of((**a0)@) + calls_of((**a1)@) + calls_of((**a2)@));
            },
            Expr::Loc(a0, a1) => {
                a0.collect_calls(calls);
                assert(view_strings(calls@) == start + (calls_of((**a0)@)));
                a1.collect_calls(calls);
                proof {
                    lemma_assoc(start, calls_of((**a0)@), calls_of((**a1)@));
                }
                assert(view_strings(calls@) == start + (calls_of((**a0)@) + calls_of((**a1)@)));
                assert(calls_of(self@) == calls_of((**a0)@) + calls_of((**a1)@));
            },
            Expr::Reg(a0, a1) => {
                a0.collect_calls(calls);
                assert(view_strings(calls@) == start + (calls_of((**a0)@)));
                a1.collect_calls(calls);
                proof {
                    lemma_assoc(start, calls_of((**a0)@), calls_of((**a1)@));
                }
                assert(view_strings(calls@) == start + (calls_of((**a0)@) + calls_of((**a1)@)));
                assert(calls_of(self@) == calls_of((**a0)@) + calls_of((**a1)@));
            },
            Expr::Read(a0) => {
                a0.collect_calls(calls);
                assert(view_strings(calls@) == start + (calls_of((**a0)@)));
                assert(calls_of(self@) == calls_of((**a0)@));
            },
            Expr::Write(a0, a1) => {
                a0.collect_calls(calls);
                assert(view_strings(calls@) == start + (calls_of((**a0)@)));
                a1.collect_calls(calls);
                proof {
                    lemma_assoc(start, calls_of((**a0)@), calls_of((**a1)@));
                }
                assert(view_strings(calls@) == start + (calls_of((**a0)@) + calls_of((**a1)@)));
                assert(calls_of(self@) == calls_of((**a0)@) + calls_of((**a1)@));
            },
            Expr::Str(a0) => {
                a0.collect_calls(calls);
                assert(view_strings(calls@) == start + (calls_of((**a0)@)));
                assert(calls_of(self@) == calls_of((**a0)@));
            },
            Expr::Split(a0, a1, a2) => {
                a0.collect_calls(calls);
                assert(view_strings(calls@) == start + (calls_of((**a0)@)));
                a1.collect_calls(calls);
                proof {
                    lemma_assoc(start, calls_of((**a0)@), calls_of((**a1)@));
                }
                assert(view_strings(calls@) == start + (calls_of((**a0)@) + calls_of((**a1)@)));
                a2.collect_calls(calls);
                proof {
                    lemma_assoc(start, calls_of((**a0)@) + calls_of((**a1)@), calls_of((**a2)@));
                }
                assert(view_strings(calls@) == start + (calls_of((**a0)@) + calls_of((**a1)@) + calls_of((**a2)@)));
                assert(calls_of(self@) == calls_of((**a0)@) + calls_of((**a1)@) + calls_of((**a2)@));
            },
            Expr::TimeNow => {
                assert(view_strings(calls@) =~= start + calls_of(self@));
            },
            Expr::TimeNano => {
                assert(view_strings(calls@) =~= start + calls_of(self@));
            },
            _ => {
                assert(false);
            },
        }
    }

    #[verifier::spinoff_prover]
    fn collect_calls_4(&self, calls: &mut Vec<String>)
        requires
            self@ is TimeGet || self@ is TimeSet || self@ is Env || self@ is Sequence || self@ is Pack || self@ is Unpack || self@ is Metadata || self@ is OtelEmit || self@ is MapField || self@ is Filter,
        ensures
            view_strings(final(calls)@) == view_strings(old(calls)@) + calls_of(self@),
        decreases self, 0nat,
    {
        let ghost start = view_strings(calls@);
        match self {
            Expr::TimeGet(a0, a1) => {
                a0.collect_calls(calls);
                assert(view_strings(calls@) == start + (calls_of((**a0)@)));
                a1.collect_calls(calls);
                proof {
                    lemma_assoc(start, calls_of((**a0)@), calls_of((**a1)@));
                }
                assert(view_strings(calls@) == start + (calls_of((**a0)@) + calls_of((**a1)@)));
                assert(calls_of(self@) == calls_of((**a0)@) + calls_of((**a1)@));
            },
            Expr::TimeSet(a0, a1, a2, a3, a4, a5) => {
                a0.collect_calls(calls);
                assert(view_strings(calls@) == start + (calls_of((**a0)@)));
                a1.collect_calls(calls);
                proof {
                    lemma_assoc(start, calls_of((**a0)@), calls_of((**a1)@));
                }
                assert(view_strings(calls@) == start + (calls_of((**a0)@) + calls_of((**a1)@)));
                a2.collect_calls(calls);
                proof {
                    lemma_assoc(start, calls_of((**a0)@) + calls_of((**a1)@), calls_of((**a2)@));
                }
                assert(view_strings(calls@) == start + (calls_of((**a0)@) + calls_of((**a1)@) + calls_of((**a2)@)));
                a3.collect_calls(calls);
                proof {
                    lemma_assoc(start, calls_of((**a0)@) + calls_of((**a1)@) + calls_of((**a2)@), calls_of((**a3)@));
                }
                assert(view_strings(calls@) == start + (calls_of((**a0)@) + calls_of((**a1)@) + calls_of((**a2)@) + calls_of((**a3)@)));
                a4.collect_calls(calls);
                proof {
                    lemma_assoc(start, calls_of((**a0)@) + calls_of((**a1)@) + calls_of((**a2)@) + calls_of((**a3)@), calls_of((**a4)@));
                }
                assert(view_strings(calls@) == start + (calls_of((**a0)@) + calls_of((**a1)@) + calls_of((**a2)@) + calls_of((**a3)@) + calls_of((**a4)@)));
                a5.collect_calls(calls);
                proof {
                    lemma_assoc(start, calls_of((**a0)@) + calls_of((**a1)@) + calls_of((**a2)@) + calls_of((**a3)@) + calls_of((**a4)@), calls_of((**a5)@));
                }
                assert(view_strings(calls@) == start + (calls_of((**a0)@) + calls_of((**a1)@) + calls_of((**a2)@) + calls_of((**a3)@) + calls_of((**a4)@) + calls_of((**a5)@)));
                assert(calls_of(self@) == calls_of((**a0)@) + calls_of((**a1)@) + calls_of((**a2)@) + calls_of((**a3)@) + calls_of((**a4)@) + calls_of((**a5)@));
            },
            Expr::Env(a0) => {
                a0.collect_calls(calls);
                assert(view_strings(calls@) == start + (calls_of((**a0)@)));
                assert(calls_of(self@) == calls_of((**a0)@));
            },
            Expr::Sequence(a0, a1) => {
                a0.collect_calls(calls);
                assert(view_strings(calls@) == start + (calls_of((**a0)@)));
                a1.collect_calls(calls);
                proof {
                    lemma_assoc(start, calls_of((**a0)@), calls_of((**a1)@));
                }
                assert(view_strings(calls@) == start + (calls_of((**a0)@) + calls_of((**a1)@)));
                assert(calls_of(self@) == calls_of((**a0)@) + calls_of((**a1)@));
            },
            Expr::Pack(a0) => {
                a0.collect_calls(calls);
                assert(view_strings(calls@) == start + (calls_of((**a0)@)));
                assert(calls_of(self@) == calls_of((**a0)@));
            },
            Expr::Unpack(a0, a1) => {
                let ghost before = calls@;
                calls.push(copy_string(a1));
                proof {
                    assert(view_strings(calls@) =~= view_strings(before).push(a1@));
                    assert(view_strings(before).push(a1@) =~= view_strings(before) + seq![a1@]);
                }
                assert(view_strings(calls@) == start + (seq![a1@]));
                a0.collect_calls(calls);
                proof {
                    lemma_assoc(start, seq![a1@], calls_of((**a0)@));
                }
                assert(view_strings(calls@) == start + (seq![a1@] + calls_of((**a0)@)));
                assert(calls_of(self@) == seq![a1@] + calls_of((**a0)@));
            },
            Expr::Metadata(a0, a1, a2) => {
                assert(view_strings(calls@) =~= start + calls_of(self@));
            },
            Expr::OtelEmit(a0, a1, a2, a3) => {
                assert(view_strings(calls@) =~= start + calls_of(self@));
            },
            Expr::MapField(a0, a1, a2) => {
                a0.collect_calls(calls);
                assert(view_strings(calls@) == start + (calls_of((**a0)@)));
                a2.collect_calls(calls);
                proof {
                    lemma_assoc(start, calls_of((**a0)@), calls_of((**a2)@));
                }
                assert(view_strings(calls@) == start + (calls_of((**a0)@) + calls_of((**a2)@)));
                assert(calls_of(self@) == calls_of((**a0)@) + calls_of((**a2)@));
            },
            Expr::Filter(a0, a1) => {
                a0.collect_calls(calls);
                assert(view_strings(calls@) == start + (calls_of((**a0)@)));
                a1.collect_calls(calls);
                proof {
                    lemma_assoc(start, calls_of((**a0)@), calls_of((**a1)@));
                }
                assert(view_strings(calls@) == start + (calls_of((**a0)@) + calls_of((**a1)@)));
                assert(calls_of(self@) == calls_of((**a0)@) + calls_of((**a1)@));
            },
            _ => {
                assert(false);
            },
        }
    }

    #[verifier::spinoff_prover]
    fn collect_calls_5(&self, calls: &mut Vec<String>)
        requires
            self@ is MoneyOp || self@ is MoneyStr || self@ is TimeOp || self@ is TimeZone || self@ is Panic || self@ is Trap || self@ is HttpClient || self@ is HttpServer || self@ is HttpHeader || self@ is FileOpen,
        ensures
            view_strings(final(calls)@) == view_strings(old(calls)@) + calls_of(self@),
        decreases self, 0nat,
    {
        let ghost start = view_strings(calls@);
        match self {
            Expr::MoneyOp(a0, a1, a2) => {
                a1.collect_calls(calls);
                assert(view_strings(calls@) == start + (calls_of((**a1)@)));
                a2.collect_calls(calls);
                proof {
                    lemma_assoc(start, calls_of((**a1)@), calls_of((**a2)@));
                }
                assert(view_strings(calls@) == start + (calls_of((**a1)@) + calls_of((**a2)@)));
                assert(calls_of(self@) == calls_of((**a1)@) + calls_of((**a2)@));
            },
            Expr::MoneyStr(a0) => {
                a0.collect_calls(calls);
                assert(view_strings(calls@) == start + (calls_of((**a0)@)));
                assert(calls_of(self@) == calls_of((**a0)@));
            },
            Expr::TimeOp(a0, a1, a2) => {
                a1.collect_calls(calls);
                assert(view_strings(calls@) == start + (calls_of((**a1)@)));
                a2.collect_calls(calls);
                proof {
                    lemma_assoc(start, calls_of((**a1)@), calls_of((**a2)@));
                }
                assert(view_strings(calls@) == start + (calls_of((**a1)@) + calls_of((**a2)@)));
                assert(calls_of(self@) == calls_of((**a1)@) + calls_of((**a2)@));
            },
            Expr::TimeZone => {
                assert(view_strings(calls@) =~= start + calls_of(self@));
            },
            Expr::Panic(a0) => {
                a0.collect_calls(calls);
                assert(view_strings(calls@) == start + (calls_of((**a0)@)));
                assert(calls_of(self@) == calls_of((**a0)@));
            },
            Expr::Trap(a0, a1) => {
                a0.collect_calls(calls);
                assert(view_strings(calls@) == start + (calls_of((**a0)@)));
                a1.collect_calls(calls);
                proof {
                    lemma_assoc(start, calls_of((**a0)@), calls_of((**a1)@));
                }
                assert(view_strings(calls@) == start + (calls_of((**a0)@) + calls_of((**a1)@)));
                assert(calls_of(self@) == calls_of((**a0)@) + calls_of((**a1)@));
            },
            Expr::HttpClient(a0, a1, a2) => {
                a0.collect_calls(calls);
                assert(view_strings(calls@) == start + (calls_of((**a0)@)));
                a1.collect_calls(calls);
                proof {
                    lemma_assoc(start, calls_of((**a0)@), calls_of((**a1)@));
                }
                assert(view_strings(calls@) == start + (calls_of((**a0)@) + calls_of((**a1)@)));
                a2.collect_calls(calls);
                proof {
                    lemma_assoc(start, calls_of((**a0)@) + calls_of((**a1)@), calls_of((**a2)@));
                }
                assert(view_strings(calls@) == start + (calls_of((**a0)@) + calls_of((**a1)@) + calls_of((**a2)@)));
                assert(calls_of(self@) == calls_of((**a0)@) + calls_of((**a1)@) + calls_of((**a2)@));
            },
            Expr::HttpServer(a0, a1) => {
                a0.collect_calls(calls);
                assert(view_strings(calls@) == start + (calls_of((**a0)@)));
                a1.collect_calls(calls);
                proof {
                    lemma_assoc(start, calls_of((**a0)@), calls_of((**a1)@));
                }
                assert(view_strings(calls@) == start + (calls_of((**a0)@) + calls_of((**a1)@)));
                assert(calls_of(self@) == calls_of((**a0)@) + calls_of((**a1)@));
            },
            Expr::HttpHeader(a0, a1) => {
                a0.collect_calls(calls);
                assert(view_strings(calls@) == start + (calls_of((**a0)@)));
                a1.collect_calls(calls);
                proof {
                    lemma_assoc(start, calls_of((**a0)@), calls_of((**a1)@));
                }
                assert(view_strings(calls@) == start + (calls_of((**a0)@) + calls_of((**a1)@)));
                assert(calls_of(self@) == calls_of((**a0)@) + calls_of((**a1)@));
            },
            Expr::FileOpen(a0, a1) => {
                a0.collect_calls(calls);
                assert(view_strings(calls@) == start + (calls_of((**a0)@)));
                a1.collect_calls(calls);
                proof {
                    lemma_assoc(start, calls_of((**a0)@), calls_of((**a1)@));
                }
                assert(view_strings(calls@) == start + (calls_of((**a0)@) + calls_of((**a1)@)));
                assert(calls_of(self@) == calls_of((**a0)@) + calls_of((**a1)@));
            },
            _ => {
                assert(false);
            },
        }
    }

    /// Appends the fingerprint of this expression.
    fn collect_fingerprint(&self, s: &mut String)
        ensures
            final(s)@ == old(s)@ + fingerprint(self@),
        decreases self, 1nat,
    {
        match self {
            Expr::Integer(..) | Expr::Float(..) | Expr::DeBruijn(..) | Expr::Identifier(..) | Expr::BinaryOp(..) | Expr::Apply(..) | Expr::Move(..) | Expr::Borrow(..) | Expr::MutBorrow(..) | Expr::Define(..) => self.collect_fingerprint_1(s),
            Expr::Shape(..) | Expr::New(..) | Expr::Get(..) | Expr::SetField(..) | Expr::If(..) | Expr::Expand(..) | Expr::Let(..) | Expr::Import(..) | Expr::String(..) | Expr::Len(..) => self.collect_fingerprint_2(s),
            Expr::Cat(..) | Expr::Sub(..) | Expr::Loc(..) | Expr::Reg(..) | Expr::Read(..) | Expr::Write(..) | Expr::Str(..) | Expr::Split(..) | Expr::TimeNow | Expr::TimeNano => self.collect_fingerprint_3(s),
            Expr::TimeGet(..) | Expr::TimeSet(..) | Expr::Env(..) | Expr::Sequence(..) | Expr::Pack(..) | Expr::Unpack(..) | Expr::Metadata(..) | Expr::OtelEmit(..) | Expr::MapField(..) | Expr::Filter(..) => self.collect_fingerprint_4(s),
            Expr::MoneyOp(..) | Expr::MoneyStr(..) | Expr::TimeOp(..) | Expr::TimeZone | Expr::Panic(..) | Expr::Trap(..) | Expr::HttpClient(..) | Expr::HttpServer(..) | Expr::HttpHeader(..) | Expr::FileOpen(..) => self.collect_fingerprint_5(s),
        }
    }

    #[verifier::spinoff_prover]
    fn collect_fingerprint_1(&self, s: &mut String)
        requires
            self@ is Integer || self@ is Float || self@ is DeBruijn || self@ is Identifier || self@ is BinaryOp || self@ is Apply || self@ is Move || self@ is Borrow || self@ is MutBorrow || self@ is Define,
        ensures
            final(s)@ == old(s)@ + fingerprint(self@),
        decreases self, 0nat,
    {
        let ghost start = s@;
        match self {
            Expr::Integer(a0) => {
                push_str(s, "i");
                assert(s@ == start + ("i"@));
                assert(fingerprint(self@) == "i"@);
            },
            Expr::Float(a0) => {
                push_str(s, "f");
                assert(s@ == start + ("f"@));
                assert(fingerprint(self@) == "f"@);
            },
            Expr::DeBruijn(a0) => {
                push_str(s, "^");
                assert(s@ == start + ("^"@));
                push_u64(s, *a0 as u64);
                proof {
                    lemma_assoc(start, "^"@, nat_decimal(*a0 as nat));
                }
                assert(s@ == start + ("^"@ + nat_decimal(*a0 as nat)));
                assert(fingerprint(self@) == "^"@ + nat_decimal(*a0 as nat));
            },
            Expr::Identifier(a0) => {
                push_str(s, "v");
                assert(s@ == start + ("v"@));
                assert(fingerprint(self@) == "v"@);
            },
            Expr::BinaryOp(a0, a1, a2) => {
                push_token_debug(s, a0);
                assert(s@ == start + (token_debug(a0@)));
                a1.collect_fingerprint(s);
                proof {
                    lemma_assoc(start, token_debug(a0@), fingerprint((**a1)@));
                }
                assert(s@ == start + (token_debug(a0@) + fingerprint((**a1)@)));
                a2.collect_fingerprint(s);
                proof {
                    lemma_assoc(start, token_debug(a0@) + fingerprint((**a1)@), fingerprint((**a2)@));
                }
                assert(s@ == start + (token_debug(a0@) + fingerprint((**a1)@) + fingerprint((**a2)@)));
                assert(fingerprint(self@) == token_debug(a0@) + fingerprint((**a1)@) + fingerprint((**a2)@));
            },
            Expr::Apply(a0, a1) => {
                proof {
                    lemma_view_exprs(a1@);
                }
                push_str(s, "@");
                assert(s@ == start + ("@"@));
                push_u64(s, a1.len() as u64);
                proof {
                    lemma_assoc(start, "@"@, nat_decimal(a1@.len()));
                }
                assert(s@ == start + ("@"@ + nat_decimal(a1@.len())));
                collect_fingerprint_list(a1, s);
                proof {
                    lemma_assoc(start, "@"@ + nat_decimal(a1@.len()), fingerprint_list(view_exprs(a1@)));
                }
                assert(s@ == start + ("@"@ + nat_decimal(a1@.len()) + fingerprint_list(view_exprs(a1@))));
                assert(fingerprint(self@) == "@"@ + nat_decimal(a1@.len()) + fingerprint_list(view_exprs(a1@)));
            },
            Expr::Move(a0) => {
                push_str(s, ">");
                assert(s@ == start + (">"@));
                a0.collect_fingerprint(s);
                proof {
                    lemma_assoc(start, ">"@, fingerprint((**a0)@));
                }
                assert(s@ == start + (">"@ + fingerprint((**a0)@)));
                assert(fingerprint(self@) == ">"@ + fingerprint((**a0)@));
            },
            Expr::Borrow(a0) => {
                push_str(s, "$");
                assert(s@ == start + ("$"@));
                a0.collect_fingerprint(s);
                proof {
                    lemma_assoc(start, "$"@, fingerprint((**a0)@));
                }
                assert(s@ == start + ("$"@ + fingerprint((**a0)@)));
                assert(fingerprint(self@) == "$"@ + fingerprint((**a0)@));
            },
            Expr::MutBorrow(a0) => {
                push_str(s, "~");
                assert(s@ == start + ("~"@));
                a0.collect_fingerprint(s);
                proof {
                    lemma_assoc(start, "~"@, fingerprint((**a0)@));
                }
                assert(s@ == start + ("~"@ + fingerprint((**a0)@)));
                assert(fingerprint(self@) == "~"@ + fingerprint((**a0)@));
            },
            Expr::Define(a0, a1, a2, a3) => {
                proof {
                    assert(crate::compiler::ast::view_params(a1@).len() == a1@.len());
                }
                push_str(s, ":");
                assert(s@ == start + (":"@));
                push_repeated(s, 'p', a1.len());
                proof {
                    lemma_assoc(start, ":"@, Seq::new(a1@.len(), |i: int| 'p'));
                }
                assert(s@ == start + (":"@ + Seq::new(a1@.len(), |i: int| 'p')));
                a2.collect_fingerprint(s);
                proof {
                    lemma_assoc(start, ":"@ + Seq::new(a1@.len(), |i: int| 'p'), fingerprint((**a2)@));
                }
                assert(s@ == start + (":"@ + Seq::new(a1@.len(), |i: int| 'p') + fingerprint((**a2)@)));
                assert(fingerprint(self@) == ":"@ + Seq::new(a1@.len(), |i: int| 'p') + fingerprint((**a2)@));
            },
            _ => {
                assert(false);
            },
        }
    }

    #[verifier::spinoff_prover]
    fn collect_fingerprint_2(&self, s: &mut String)
        requires
            self@ is Shape || self@ is New || self@ is Get || self@ is SetField || self@ is If || self@ is Expand || self@ is Let || self@ is Import || self@ is String || self@ is Len,
        ensures
            final(s)@ == old(s)@ + fingerprint(self@),
        decreases self, 0nat,
    {
        let ghost start = s@;
        match self {
            Expr::Shape(a0, a1, a2) => {
                proof {
                    assert(view_strings(a1@).len() == a1@.len());
                }
                push_str(s, "#");
                assert(s@ == start + ("#"@));
                push_repeated(s, 't', a1.len());
                proof {
                    lemma_assoc(start, "#"@, Seq::new(a1@.len(), |i: int| 't'));
                }
                assert(s@ == start + ("#"@ + Seq::new(a1@.len(), |i: int| 't')));
                assert(fingerprint(self@) == "#"@ + Seq::new(a1@.len(), |i: int| 't'));
            },
            Expr::New(a0, a1) => {
                push_str(s, "N");
                assert(s@ == start + ("N"@));
                a1.collect_fingerprint(s);
                proof {
                    lemma_assoc(start, "N"@, fingerprint((**a1)@));
                }
                assert(s@ == start + ("N"@ + fingerprint((**a1)@)));
                assert(fingerprint(self@) == "N"@ + fingerprint((**a1)@));
            },
            Expr::Get(a0, a1, a2) => {
                push_str(s, "G");
                assert(s@ == start + ("G"@));
                a0.collect_fingerprint(s);
                proof {
                    lemma_assoc(start, "G"@, fingerprint((**a0)@));
                }
                assert(s@ == start + ("G"@ + fingerprint((**a0)@)));
                a2.collect_fingerprint(s);
                proof {
                    lemma_assoc(start, "G"@ + fingerprint((**a0)@), fingerprint((**a2)@));
                }
                assert(s@ == start + ("G"@ + fingerprint((**a0)@) + fingerprint((**a2)@)));
                assert(fingerprint(self@) == "G"@ + fingerprint((**a0)@) + fingerprint((**a2)@));
            },
            Expr::SetField(a0, a1, a2, a3) => {
                push_str(s, "S");
                assert(s@ == start + ("S"@));
                a0.collect_fingerprint(s);
                proof {
                    lemma_assoc(start, "S"@, fingerprint((**a0)@));
                }
                assert(s@ == start + ("S"@ + fingerprint((**a0)@)));
                a2.collect_fingerprint(s);
                proof {
                    lemma_assoc(start, "S"@ + fingerprint((**a0)@), fingerprint((**a2)@));
                }
                assert(s@ == start + ("S"@ + fingerprint((**a0)@) + fingerprint((**a2)@)));
                a3.collect_fingerprint(s);
                proof {
                    lemma_assoc(start, "S"@ + fingerprint((**a0)@) + fingerprint((**a2)@), fingerprint((**a3)@));
                }
                assert(s@ == start + ("S"@ + fingerprint((**a0)@) + fingerprint((**a2)@) + fingerprint((**a3)@)));
                assert(fingerprint(self@) == "S"@ + fingerprint((**a0)@) + fingerprint((**a2)@) + fingerprint((**a3)@));
            },
            Expr::If(a0, a1, a2) => {
                push_str(s, "?");
                assert(s@ == start + ("?"@));
                a0.collect_fingerprint(s);
                proof {
                    lemma_assoc(start, "?"@, fingerprint((**a0)@));
                }
                assert(s@ == start + ("?"@ + fingerprint((**a0)@)));
                a1.collect_fingerprint(s);
                proof {
                    lemma_assoc(start, "?"@ + fingerprint((**a0)@), fingerprint((**a1)@));
                }
                assert(s@ == start + ("?"@ + fingerprint((**a0)@) + fingerprint((**a1)@)));
                a2.collect_fingerprint(s);
                proof {
                    lemma_assoc(start, "?"@ + fingerprint((**a0)@) + fingerprint((**a1)@), fingerprint((**a2)@));
                }
                assert(s@ == start + ("?"@ + fingerprint((**a0)@) + fingerprint((**a1)@) + fingerprint((**a2)@)));
                assert(fingerprint(self@) == "?"@ + fingerprint((**a0)@) + fingerprint((**a1)@) + fingerprint((**a2)@));
            },
            Expr::Expand(a0) => {
                push_str(s, "!");
                assert(s@ == start + ("!"@));
                assert(fingerprint(self@) == "!"@);
            },
            Expr::Let(a0, a1, a2) => {
                push_str(s, "L");
                assert(s@ == start + ("L"@));
                a1.collect_fingerprint(s);
                proof {
                    lemma_assoc(start, "L"@, fingerprint((**a1)@));
                }
                assert(s@ == start + ("L"@ + fingerprint((**a1)@)));
                a2.collect_fingerprint(s);
                proof {
                    lemma_assoc(start, "L"@ + fingerprint((**a1)@), fingerprint((**a2)@));
                }
                assert(s@ == start + ("L"@ + fingerprint((**a1)@) + fingerprint((**a2)@)));
                assert(fingerprint(self@) == "L"@ + fingerprint((**a1)@) + fingerprint((**a2)@));
            },
            Expr::Import(a0, a1, a2) => {
                push_str(s, "I");
                assert(s@ == start + ("I"@));
                assert(fingerprint(self@) == "I"@);
            },
            Expr::String(a0) => {
                push_str(s, "s");
                assert(s@ == start + ("s"@));
                assert(fingerprint(self@) == "s"@);
            },
            Expr::Len(a0) => {
                push_str(s, "?");
                assert(s@ == start + ("?"@));
                assert(fingerprint(self@) == "?"@);
            },
            _ => {
                assert(false);
            },
        }
    }

    #[verifier::spinoff_prover]
    fn collect_fingerprint_3(&self, s: &mut String)
        requires
            self@ is Cat || self@ is Sub || self@ is Loc || self@ is Reg || self@ is Read || self@ is Write || self@ is Str || self@ is Split || self@ is TimeNow || self@ is TimeNano,
        ensures
            final(s)@ == old(s)@ + fingerprint(self@),
        decreases self, 0nat,
    {
        let ghost start = s@;
        match self {
            Expr::Cat(a0, a1) => {
                push_str(s, "?");
                assert(s@ == start + ("?"@));
                assert(fingerprint(self@) == "?"@);
            },
            Expr::Sub(a0, a1, a2) => {
                push_str(s, "?");
                assert(s@ == start + ("?"@));
                assert(fingerprint(self@) == "?"@);
            },
            Expr::Loc(a0, a1) => {
                push_str(s, "?");
                assert(s@ == start + ("?"@));
                assert(fingerprint(self@) == "?"@);
            },
            Expr::Reg(a0, a1) => {
                push_str(s, "?");
                assert(s@ == start + ("?"@));
                assert(fingerprint(self@) == "?"@);
            },
            Expr::Read(a0) => {
                push_str(s, "?");
                assert(s@ == start + ("?"@));
                assert(fingerprint(self@) == "?"@);
            },
            Expr::Write(a0, a1) => {
                push_str(s, "?");
                assert(s@ == start + ("?"@));
                assert(fingerprint(self@) == "?"@);
            },
            Expr::Str(a0) => {
                push_str(s, "?");
                assert(s@ == start + ("?"@));
                assert(fingerprint(self@) == "?"@);
            },
            Expr::Split(a0, a1, a2) => {
                push_str(s, "?");
                assert(s@ == start + ("?"@));
                assert(fingerprint(self@) == "?"@);
            },
            Expr::TimeNow => {
                push_str(s, "?");
                assert(s@ == start + ("?"@));
                assert(fingerprint(self@) == "?"@);
            },
            Expr::TimeNano => {
                push_str(s, "?");
                assert(s@ == start + ("?"@));
                assert(fingerprint(self@) == "?"@);
            },
            _ => {
                assert(false);
            },
        }
    }

    #[verifier::spinoff_prover]
    fn collect_fingerprint_4(&self, s: &mut String)
        requires
            self@ is TimeGet || self@ is TimeSet || self@ is Env || self@ is Sequence || self@ is Pack || self@ is Unpack || self@ is Metadata || self@ is OtelEmit || self@ is MapField || self@ is Filter,
        ensures
            final(s)@ == old(s)@ + fingerprint(self@),
        decreases self, 0nat,
    {
        let ghost start = s@;
        match self {
            Expr::TimeGet(a0, a1) => {
                push_str(s, "?");
                assert(s@ == start + ("?"@));
                assert(fingerprint(self@) == "?"@);
            },
            Expr::TimeSet(a0, a1, a2, a3, a4, a5) => {
                push_str(s, "?");
                assert(s@ == start + ("?"@));
                assert(fingerprint(self@) == "?"@);
            },
            Expr::Env(a0) => {
                push_str(s, "?");
                assert(s@ == start + ("?"@));
                assert(fingerprint(self@) == "?"@);
            },
            Expr::Sequence(a0, a1) => {
                push_str(s, ".");
                assert(s@ == start + ("."@));
                a0.collect_fingerprint(s);
                proof {
                    lemma_assoc(start, "."@, fingerprint((**a0)@));
                }
                assert(s@ == start + ("."@ + fingerprint((**a0)@)));
                a1.collect_fingerprint(s);
                proof {
                    lemma_assoc(start, "."@ + fingerprint((**a0)@), fingerprint((**a1)@));
                }
                assert(s@ == start + ("."@ + fingerprint((**a0)@) + fingerprint((**a1)@)));
                assert(fingerprint(self@) == "."@ + fingerprint((**a0)@) + fingerprint((**a1)@));
            },
            Expr::Pack(a0) => {
                push_str(s, "jp");
                assert(s@ == start + ("jp"@));
                a0.collect_fingerprint(s);
                proof {
                    lemma_assoc(start, "jp"@, fingerprint((**a0)@));
                }
                assert(s@ == start + ("jp"@ + fingerprint((**a0)@)));
                assert(fingerprint(self@) == "jp"@ + fingerprint((**a0)@));
            },
            Expr::Unpack(a0, a1) => {
                push_str(s, "ju");
                assert(s@ == start + ("ju"@));
                a0.collect_fingerprint(s);
                proof {
                    lemma_assoc(start, "ju"@, fingerprint((**a0)@));
                }
                assert(s@ == start + ("ju"@ + fingerprint((**a0)@)));
                assert(fingerprint(self@) == "ju"@ + fingerprint((**a0)@));
            },
            Expr::Metadata(a0, a1, a2) => {
                push_str(s, "?");
                assert(s@ == start + ("?"@));
                assert(fingerprint(self@) == "?"@);
            },
            Expr::OtelEmit(a0, a1, a2, a3) => {
                push_str(s, "?");
                assert(s@ == start + ("?"@));
                assert(fingerprint(self@) == "?"@);
            },
            Expr::MapField(a0, a1, a2) => {
                push_str(s, "map");
                assert(s@ == start + ("map"@));
                a0.collect_fingerprint(s);
                proof {
                    lemma_assoc(start, "map"@, fingerprint((**a0)@));
                }
                assert(s@ == start + ("map"@ + fingerprint((**a0)@)));
                a2.collect_fingerprint(s);
                proof {
                    lemma_assoc(start, "map"@ + fingerprint((**a0)@), fingerprint((**a2)@));
                }
                assert(s@ == start + ("map"@ + fingerprint((**a0)@) + fingerprint((**a2)@)));
                assert(fingerprint(self@) == "map"@ + fingerprint((**a0)@) + fingerprint((**a2)@));
            },
            Expr::Filter(a0, a1) => {
                push_str(s, "flt");
                assert(s@ == start + ("flt"@));
                a0.collect_fingerprint(s);
                proof {
                    lemma_assoc(start, "flt"@, fingerprint((**a0)@));
                }
                assert(s@ == start + ("flt"@ + fingerprint((**a0)@)));
                a1.collect_fingerprint(s);
                proof {
                    lemma_assoc(start, "flt"@ + fingerprint((**a0)@), fingerprint((**a1)@));
                }
                assert(s@ == start + ("flt"@ + fingerprint((**a0)@) + fingerprint((**a1)@)));
                assert(fingerprint(self@) == "flt"@ + fingerprint((**a0)@) + fingerprint((**a1)@));
            },
            _ => {
                assert(false);
            },
        }
    }

    #[verifier::spinoff_prover]
    fn collect_fingerprint_5(&self, s: &mut String)
        requires
            self@ is MoneyOp || self@ is MoneyStr || self@ is TimeOp || self@ is TimeZone || self@ is Panic || self@ is Trap || self@ is HttpClient || self@ is HttpServer || self@ is HttpHeader || self@ is FileOpen,
        ensures
            final(s)@ == old(s)@ + fingerprint(self@),
        decreases self, 0nat,
    {
        let ghost start = s@;
        match self {
            Expr::MoneyOp(a0, a1, a2) => {
                push_str(s, "?");
                assert(s@ == start + ("?"@));
                assert(fingerprint(self@) == "?"@);
            },
            Expr::MoneyStr(a0) => {
                push_str(s, "?");
                assert(s@ == start + ("?"@));
                assert(fingerprint(self@) == "?"@);
            },
            Expr::TimeOp(a0, a1, a2) => {
                push_str(s, "?");
                assert(s@ == start + ("?"@));
                assert(fingerprint(self@) == "?"@);
            },
            Expr::TimeZone => {
                push_str(s, "?");
                assert(s@ == start + ("?"@));
                assert(fingerprint(self@) == "?"@);
            },
            Expr::Panic(a0) => {
                push_str(s, "?");
                assert(s@ == start + ("?"@));
                assert(fingerprint(self@) == "?"@);
            },
            Expr::Trap(a0, a1) => {
                push_str(s, "?");
                assert(s@ == start + ("?"@));
                assert(fingerprint(self@) == "?"@);
            },
            Expr::HttpClient(a0, a1, a2) => {
                push_str(s, "http");
                assert(s@ == start + ("http"@));
                a0.collect_fingerprint(s);
                proof {
                    lemma_assoc(start, "http"@, fingerprint((**a0)@));
                }
                assert(s@ == start + ("http"@ + fingerprint((**a0)@)));
                a1.collect_fingerprint(s);
                proof {
                    lemma_assoc(start, "http"@ + fingerprint((**a0)@), fingerprint((**a1)@));
                }
                assert(s@ == start + ("http"@ + fingerprint((**a0)@) + fingerprint((**a1)@)));
                a2.collect_fingerprint(s);
                proof {
                    lemma_assoc(start, "http"@ + fingerprint((**a0)@) + fingerprint((**a1)@), fingerprint((**a2)@));
                }
                assert(s@ == start + ("http"@ + fingerprint((**a0)@) + fingerprint((**a1)@) + fingerprint((**a2)@)));
                assert(fingerprint(self@) == "http"@ + fingerprint((**a0)@) + fingerprint((**a1)@) + fingerprint((**a2)@));
            },
            Expr::HttpServer(a0, a1) => {
                push_str(s, "srv");
                assert(s@ == start + ("srv"@));
                a0.collect_fingerprint(s);
                proof {
                    lemma_assoc(start, "srv"@, fingerprint((**a0)@));
                }
                assert(s@ == start + ("srv"@ + fingerprint((**a0)@)));
                a1.collect_fingerprint(s);
                proof {
                    lemma_assoc(start, "srv"@ + fingerprint((**a0)@), fingerprint((**a1)@));
                }
                assert(s@ == start + ("srv"@ + fingerprint((**a0)@) + fingerprint((**a1)@)));
                assert(fingerprint(self@) == "srv"@ + fingerprint((**a0)@) + fingerprint((**a1)@));
            },
            Expr::HttpHeader(a0, a1) => {
                push_str(s, "hdr");
                assert(s@ == start + ("hdr"@));
                a0.collect_fingerprint(s);
                proof {
                    lemma_assoc(start, "hdr"@, fingerprint((**a0)@));
                }
                assert(s@ == start + ("hdr"@ + fingerprint((**a0)@)));
                a1.collect_fingerprint(s);
                proof {
                    lemma_assoc(start, "hdr"@ + fingerprint((**a0)@), fingerprint((**a1)@));
                }
                assert(s@ == start + ("hdr"@ + fingerprint((**a0)@) + fingerprint((**a1)@)));
                assert(fingerprint(self@) == "hdr"@ + fingerprint((**a0)@) + fingerprint((**a1)@));
            },
            Expr::FileOpen(a0, a1) => {
                push_str(s, "?");
                assert(s@ == start + ("?"@));
                assert(fingerprint(self@) == "?"@);
            },
            _ => {
                assert(false);
            },
        }
    }

}

/// Appends the names each argument refers to.
fn collect_calls_list(args: &Vec<Expr>, calls: &mut Vec<String>)
    ensures
        view_strings(final(calls)@) == view_strings(old(calls)@) + calls_list(view_exprs(args@)),
    decreases args@, 0nat,
{
    let ghost start = view_strings(calls@);
    let ghost av = view_exprs(args@);
    proof {
        lemma_view_exprs(args@);
        assert(av.subrange(0, av.len() as int) =~= av);
        assert(start + calls_list(av) =~= view_strings(calls@) + calls_list(av.subrange(0, av.len() as int)));
    }
    let mut i: usize = 0;
    while i < args.len()
        invariant
            i <= args@.len(),
            av == view_exprs(args@),
            av.len() == args@.len(),
            forall|k: int| 0 <= k < args@.len() ==> #[trigger] av[k] == args@[k]@,
            start + calls_list(av) == view_strings(calls@) + calls_list(av.subrange(i as int, av.len() as int)),
        decreases args@.len() - i,
    {
        let ghost rest = av.subrange(i as int, av.len() as int);
        let ghost before = view_strings(calls@);
        proof {
            assert(rest[0] == av[i as int]);
            assert(rest.subrange(1, rest.len() as int) =~= av.subrange(i + 1, av.len() as int));
        }
        args[i].collect_calls(calls);
        proof {
            lemma_assoc(before, calls_of(av[i as int]), calls_list(av.subrange(i + 1, av.len() as int)));
        }
        i = i + 1;
    }
    proof {
        assert(av.subrange(i as int, av.len() as int) =~= Seq::<ExprV>::empty());
        assert(view_strings(calls@) + Seq::<Seq<char>>::empty() =~= view_strings(calls@));
    }
}

/// Appends the fingerprint of each argument.
fn collect_fingerprint_list(args: &Vec<Expr>, s: &mut String)
    ensures
        final(s)@ == old(s)@ + fingerprint_list(view_exprs(args@)),
    decreases args@, 0nat,
{
    let ghost start = s@;
    let ghost av = view_exprs(args@);
    proof {
        lemma_view_exprs(args@);
        assert(av.subrange(0, av.len() as int) =~= av);
    }
    let mut i: usize = 0;
    while i < args.len()
        invariant
            i <= args@.len(),
            av == view_exprs(args@),
            av.len() == args@.len(),
            forall|k: int| 0 <= k < args@.len() ==> #[trigger] av[k] == args@[k]@,
            start + fingerprint_list(av) == s@ + fingerprint_list(av.subrange(i as int, av.len() as int)),
        decreases args@.len() - i,
    {
        let ghost rest = av.subrange(i as int, av.len() as int);
        let ghost before = s@;
        proof {
            assert(rest[0] == av[i as int]);
            assert(rest.subrange(1, rest.len() as int) =~= av.subrange(i + 1, av.len() as int));
        }
        args[i].collect_fingerprint(s);
        proof {
            lemma_assoc(before, fingerprint(av[i as int]), fingerprint_list(av.subrange(i + 1, av.len() as int)));
        }
        i = i + 1;
    }
    proof {
        assert(av.subrange(i as int, av.len() as int) =~= Seq::<ExprV>::empty());
        assert(s@ + Seq::<char>::empty() =~= s@);
    }
}

/// `suf` is a suffix of `s`.
pub open spec fn ends_with(s: Seq<char>, suf: Seq<char>) -> bool {
    suf.len() <= s.len() && s.subrange(s.len() - suf.len(), s.len() as int) == suf
}

/// A runtime function that hands back a heap pointer: one of the built-in
/// names, or a name ending in one of their module-qualified forms.
pub open spec fn ptr_function(name: Seq<char>) -> bool {
    ||| name == "http_get"@
    ||| name == "http_post"@
    ||| name == "get"@
    ||| name == "post"@
    ||| name == "json_parse"@
    ||| name == "parse"@
    ||| name == "json_stringify"@
    ||| name == "stringify"@
    ||| name == "json_get_str"@
    ||| name == "get_str"@
    ||| name == "sign"@
    ||| name == "encrypt"@
    ||| name == "decrypt"@
    ||| name == "unwrap"@
    ||| name == "serve"@
    ||| name == "https_serve"@
    ||| name == "accept"@
    ||| name == "decode"@
    ||| name == "encode_b64url"@
    ||| name == "decode_b64url"@
    ||| name == "greet"@
    ||| name == "connect"@
    ||| name == "connect_binding"@
    ||| name == "query"@
    ||| name == "error"@
    ||| name == "db_connect"@
    ||| name == "db_connect_binding"@
    ||| name == "db_query"@
    ||| name == "db_error"@
    ||| ends_with(name, "_get"@)
    ||| ends_with(name, "_post"@)
    ||| ends_with(name, "_parse"@)
    ||| ends_with(name, "_stringify"@)
    ||| ends_with(name, "_get_str"@)
    ||| ends_with(name, "_sign"@)
    ||| ends_with(name, "_encrypt"@)
    ||| ends_with(name, "_decrypt"@)
    ||| ends_with(name, "_unwrap"@)
    ||| ends_with(name, "_serve"@)
    ||| ends_with(name, "_https_serve"@)
    ||| ends_with(name, "_accept"@)
    ||| ends_with(name, "_decode"@)
    ||| ends_with(name, "_encode_b64url"@)
    ||| ends_with(name, "_decode_b64url"@)
    ||| ends_with(name, "_greet"@)
    ||| ends_with(name, "_connect"@)
    ||| ends_with(name, "_connect_binding"@)
    ||| ends_with(name, "_query"@)
    ||| ends_with(name, "_error"@)
}

/// Whether an expression yields a heap pointer, given which stack slots hold
/// pointers (the last slot is De Bruijn index 0) and which functions return
/// one.
pub open spec fn returns_ptr_spec(e: ExprV, stack: Seq<bool>, fns: Seq<(Seq<char>, bool)>) -> bool
    decreases e,
{
    match e {
        ExprV::String(_) | ExprV::New(_, _) | ExprV::Unpack(_, _) | ExprV::MapField(_, _, _) | ExprV::Filter(_, _)
        | ExprV::Cat(_, _) | ExprV::Sub(_, _, _) | ExprV::Read(_) | ExprV::Str(_) | ExprV::Split(_, _, _) | ExprV::Pack(_)
        | ExprV::Env(_) | ExprV::MoneyStr(_) | ExprV::TimeZone | ExprV::FileOpen(_, _) | ExprV::HttpClient(_, _, _)
        | ExprV::HttpHeader(_, _) => true,
        ExprV::HttpServer(op, _) => match *op {
            ExprV::Integer(k) => 0 <= k <= 3,
            _ => false,
        },
        ExprV::Let(_, v, b) => returns_ptr_spec(*b, stack.push(returns_ptr_spec(*v, stack, fns)), fns),
        ExprV::Sequence(_, b) => returns_ptr_spec(*b, stack, fns),
        ExprV::Move(x) => returns_ptr_spec(*x, stack, fns),
        ExprV::Borrow(x) => returns_ptr_spec(*x, stack, fns),
        ExprV::MutBorrow(x) => returns_ptr_spec(*x, stack, fns),
        ExprV::Trap(t, f) => returns_ptr_spec(*t, stack, fns) || returns_ptr_spec(*f, stack, fns),
        ExprV::If(_, t, f) => returns_ptr_spec(*t, stack, fns) || returns_ptr_spec(*f, stack, fns),
        ExprV::SetField(_, _, _, v) => returns_ptr_spec(*v, stack, fns),
        ExprV::DeBruijn(idx) => idx < stack.len() && stack[stack.len() - 1 - idx],
        ExprV::Apply(f, _) => match *f {
            ExprV::Identifier(name) => ptr_function(name) || find_entry(fns, name) == Some(true),
            _ => false,
        },
        _ => false,
    }
}

/// Whether `s` ends with `suf`.
pub(crate) fn ends_with_str(s: &str, suf: &str) -> (r: bool)
    ensures
        r == ends_with(s@, suf@),
{
    let a = chars_of(s);
    let b = chars_of(suf);
    if b.len() > a.len() {
        return false;
    }
    let alen = a.len();
    let off = alen - b.len();
    let mut i: usize = 0;
    while i < b.len()
        invariant
            alen == a@.len(),
            a@ == s@,
            b@ == suf@,
            off == a@.len() - b@.len(),
            off + b@.len() == a@.len(),
            i <= b@.len(),
            forall|k: int| 0 <= k < i ==> a@[off + k] == b@[k],
        decreases b@.len() - i,
    {
        assert(off + i < a@.len());
        if a[off + i] != b[i] {
            proof {
                assert(s@.subrange(s@.len() - suf@.len(), s@.len() as int)[i as int] != suf@[i as int]);
            }
            return false;
        }
        i = i + 1;
    }
    proof {
        assert(s@.subrange(s@.len() - suf@.len(), s@.len() as int) =~= suf@);
    }
    true
}

/// Whether a runtime function hands back a heap pointer (see `ptr_function`).
fn is_ptr_function(name: &str) -> (r: bool)
    ensures
        r == ptr_function(name@),
{
    (str_eq(name, "http_get")
        || str_eq(name, "http_post")
        || str_eq(name, "get")
        || str_eq(name, "post")
        || str_eq(name, "json_parse")
        || str_eq(name, "parse")
        || str_eq(name, "json_stringify")
        || str_eq(name, "stringify")
        || str_eq(name, "json_get_str")
        || str_eq(name, "get_str")
        || str_eq(name, "sign")
        || str_eq(name, "encrypt")
        || str_eq(name, "decrypt")
        || str_eq(name, "unwrap")
        || str_eq(name, "serve")
        || str_eq(name, "https_serve")
        || str_eq(name, "accept")
        || str_eq(name, "decode")
        || str_eq(name, "encode_b64url")
        || str_eq(name, "decode_b64url")
        || str_eq(name, "greet")
        || str_eq(name, "connect")
        || str_eq(name, "connect_binding")
        || str_eq(name, "query")
        || str_eq(name, "error")
        || str_eq(name, "db_connect")
        || str_eq(name, "db_connect_binding")
        || str_eq(name, "db_query")
        || str_eq(name, "db_error"))
        || (ends_with_str(name, "_get")
        || ends_with_str(name, "_post")
        || ends_with_str(name, "_parse")
        || ends_with_str(name, "_stringify")
        || ends_with_str(name, "_get_str")
        || ends_with_str(name, "_sign")
        || ends_with_str(name, "_encrypt")
        || ends_with_str(name, "_decrypt")
        || ends_with_str(name, "_unwrap")
        || ends_with_str(name, "_serve")
        || ends_with_str(name, "_https_serve")
        || ends_with_str(name, "_accept")
        || ends_with_str(name, "_decode")
        || ends_with_str(name, "_encode_b64url")
        || ends_with_str(name, "_decode_b64url")
        || ends_with_str(name, "_greet")
        || ends_with_str(name, "_connect")
        || ends_with_str(name, "_connect_binding")
        || ends_with_str(name, "_query")
        || ends_with_str(name, "_error"))
}

/// The flag stored under `name`.
pub(crate) fn lookup_flag(t: &Vec<(String, bool)>, name: &str) -> (r: Option<bool>)
    ensures
        r == find_entry(t@.map_values(|p: (String, bool)| (p.0@, p.1)), name@),
{
    let ghost tv = t@.map_values(|p: (String, bool)| (p.0@, p.1));
    let mut i: usize = 0;
    proof {
        assert(tv.skip(0) =~= tv);
    }
    while i < t.len()
        invariant
            i <= t@.len(),
            tv == t@.map_values(|p: (String, bool)| (p.0@, p.1)),
            find_entry(tv, name@) == find_entry(tv.skip(i as int), name@),
        decreases t@.len() - i,
    {
        proof {
            assert(tv.skip(i as int).drop_first() =~= tv.skip(i + 1));
            assert(tv.skip(i as int)[0] == tv[i as int]);
        }
        if str_eq(t[i].0.as_str(), name) {
            return Some(t[i].1);
        }
        i = i + 1;
    }
    None
}

impl Expr {
    /// Whether this expression yields a heap pointer (see `returns_ptr_spec`).
    pub fn returns_ptr_with_stack(&self, stack_ptrs: &[bool], fn_returns_ptr: &Vec<(String, bool)>) -> (r: bool)
        ensures
            r == returns_ptr_spec(self@, stack_ptrs@, fn_returns_ptr@.map_values(|p: (String, bool)| (p.0@, p.1))),
        decreases self,
    {
        match self {
            Expr::String(_) | Expr::New(_, _) | Expr::Unpack(_, _) | Expr::MapField(_, _, _) | Expr::Filter(_, _)
            | Expr::Cat(_, _) | Expr::Sub(_, _, _) | Expr::Read(_) | Expr::Str(_) | Expr::Split(_, _, _) | Expr::Pack(_)
            | Expr::Env(_) | Expr::MoneyStr(_) | Expr::TimeZone | Expr::FileOpen(_, _) | Expr::HttpClient(_, _, _)
            | Expr::HttpHeader(_, _) => true,
            Expr::HttpServer(op, _) => match &**op {
                Expr::Integer(k) => {
                    assert((**op)@ == ExprV::Integer(*k));
                    0 <= *k && *k <= 3
                },
                _ => false,
            },
            Expr::Let(_, v, b) => {
                let ghost (vv, bv) = ((**v)@, (**b)@);
                let ghost fns = fn_returns_ptr@.map_values(|p: (String, bool)| (p.0@, p.1));
                assert(returns_ptr_spec(self@, stack_ptrs@, fns) == returns_ptr_spec(bv, stack_ptrs@.push(returns_ptr_spec(vv, stack_ptrs@, fns)), fns));
                let val_ptr = v.returns_ptr_with_stack(stack_ptrs, fn_returns_ptr);
                let mut new_stack: Vec<bool> = Vec::new();
                let mut i: usize = 0;
                while i < stack_ptrs.len()
                    invariant
                        i <= stack_ptrs@.len(),
                        new_stack@ == stack_ptrs@.take(i as int),
                    decreases stack_ptrs@.len() - i,
                {
                    new_stack.push(stack_ptrs[i]);
                    proof {
                        assert(stack_ptrs@.take(i + 1) =~= stack_ptrs@.take(i as int).push(stack_ptrs@[i as int]));
                    }
                    i = i + 1;
                }
                proof {
                    assert(stack_ptrs@.take(stack_ptrs@.len() as int) =~= stack_ptrs@);
                }
                new_stack.push(val_ptr);
                b.returns_ptr_with_stack(new_stack.as_slice(), fn_returns_ptr)
            },
            Expr::Sequence(_, b) => b.returns_ptr_with_stack(stack_ptrs, fn_returns_ptr),
            Expr::Move(x) | Expr::Borrow(x) | Expr::MutBorrow(x) => x.returns_ptr_with_stack(stack_ptrs, fn_returns_ptr),
            Expr::Trap(t, f) | Expr::If(_, t, f) => t.returns_ptr_with_stack(stack_ptrs, fn_returns_ptr)
                || f.returns_ptr_with_stack(stack_ptrs, fn_returns_ptr),
            Expr::SetField(_, _, _, v) => v.returns_ptr_with_stack(stack_ptrs, fn_returns_ptr),
            Expr::DeBruijn(idx) => {
                if *idx < stack_ptrs.len() {
                    stack_ptrs[stack_ptrs.len() - 1 - *idx]
                } else {
                    false
                }
            },
            Expr::Apply(f, _) => match &**f {
                Expr::Identifier(name) => {
                    assert((**f)@ == ExprV::Identifier(name@));
                    if is_ptr_function(name.as_str()) {
                        return true;
                    }
                    match lookup_flag(fn_returns_ptr, name.as_str()) {
                        Some(ret) => ret,
                        None => false,
                    }
                },
                _ => false,
            },
            _ => false,
        }
    }

    /// Whether this expression yields a heap pointer with no bound slots and
    /// no known functions.
    pub fn returns_ptr(&self) -> (r: bool)
        ensures
            r == returns_ptr_spec(self@, Seq::empty(), Seq::empty()),
    {
        let empty: Vec<(String, bool)> = Vec::new();
        let no_slots: Vec<bool> = Vec::new();
        let r = self.returns_ptr_with_stack(no_slots.as_slice(), &empty);
        proof {
            assert(empty@.map_values(|p: (String, bool)| (p.0@, p.1)) =~= Seq::empty());
        }
        r
    }
}

/// A definition that is kept whatever uses it: `main`, or an exported one.
pub open spec fn root_define(e: ExprV) -> bool {
    match e {
        ExprV::Define(n, _, _, x) => n == "main"@ || x,
        _ => false,
    }
}

/// The names of the root definitions and of the exported shapes among the
/// first `n` expressions.
pub open spec fn root_names(es: Seq<ExprV>, n: int) -> Set<Seq<char>>
    decreases n,
{
    if n <= 0 {
        Set::empty()
    } else {
        let r = root_names(es, n - 1);
        match es[n - 1] {
            ExprV::Define(name, _, _, x) => if name == "main"@ || x {
                r.insert(name)
            } else {
                r
            },
            ExprV::Shape(name, _, x) => if x {
                r.insert(name)
            } else {
                r
            },
            _ => r,
        }
    }
}

/// The name of the last root definition among the first `n` expressions.
pub open spec fn last_root(es: Seq<ExprV>, n: int) -> Option<Seq<char>>
    decreases n,
{
    if n <= 0 {
        None
    } else if root_define(es[n - 1]) {
        Some(es[n - 1]->Define_0)
    } else {
        last_root(es, n - 1)
    }
}

/// A definition whose references count: a root, or a definition with a
/// reachable name. The search for further definitions marks a name as done
/// with the first definition of it that it visits, which is the last root;
/// a definition that shares its name and is not a root itself is passed
/// over.
pub open spec fn visited_define(e: ExprV, reach: Set<Seq<char>>, last: Option<Seq<char>>) -> bool {
    root_define(e) || match e {
        ExprV::Define(n, _, _, _) => reach.contains(n) && last != Some(n),
        _ => false,
    }
}

/// The names that the visited definitions among the first `n` expressions
/// refer to.
pub open spec fn calls_from(es: Seq<ExprV>, n: int, reach: Set<Seq<char>>, last: Option<Seq<char>>) -> Set<Seq<char>>
    decreases n,
{
    if n <= 0 {
        Set::empty()
    } else {
        let c = calls_from(es, n - 1, reach, last);
        if visited_define(es[n - 1], reach, last) {
            c + calls_of(es[n - 1]).to_set()
        } else {
            c
        }
    }
}

/// The names reachable after `k` rounds of following references.
pub open spec fn reach_rounds(es: Seq<ExprV>, k: nat) -> Set<Seq<char>>
    decreases k,
{
    if k == 0 {
        root_names(es, es.len() as int)
    } else {
        let r = reach_rounds(es, (k - 1) as nat);
        r + calls_from(es, es.len() as int, r, last_root(es, es.len() as int))
    }
}

/// The names reachable from the roots.
pub open spec fn reachable_names(es: Seq<ExprV>) -> Set<Seq<char>> {
    reach_rounds(es, es.len() + 1)
}

/// Whether an expression survives pruning: a definition or an import with a
/// reachable name, a shape with a reachable name or exported, and anything
/// else.
pub open spec fn kept(e: ExprV, reach: Set<Seq<char>>) -> bool {
    match e {
        ExprV::Define(n, _, _, _) => reach.contains(n),
        ExprV::Import(_, s, _) => reach.contains(s),
        ExprV::Shape(n, _, x) => reach.contains(n) || x,
        _ => true,
    }
}

/// The expressions among the first `n` that survive pruning, in order.
pub open spec fn kept_upto(es: Seq<ExprV>, reach: Set<Seq<char>>, n: int) -> Seq<ExprV>
    decreases n,
{
    if n <= 0 {
        Seq::empty()
    } else if kept(es[n - 1], reach) {
        kept_upto(es, reach, n - 1).push(es[n - 1])
    } else {
        kept_upto(es, reach, n - 1)
    }
}

/// A module without the definitions, imports and shapes that nothing
/// reachable from `main` and the exported items uses.
pub open spec fn pruned(es: Seq<ExprV>) -> Seq<ExprV> {
    kept_upto(es, reachable_names(es), es.len() as int)
}

/// Once a round adds nothing, no later round does.
pub proof fn lemma_rounds_stable(es: Seq<ExprV>, k: nat, m: nat)
    requires
        reach_rounds(es, k + 1) == reach_rounds(es, k),
        k <= m,
    ensures
        reach_rounds(es, m) == reach_rounds(es, k),
    decreases m - k,
{
    if m > k {
        lemma_rounds_stable(es, k, (m - 1) as nat);
        assert(reach_rounds(es, m) == reach_rounds(es, (m - 1) as nat) + calls_from(
            es,
            es.len() as int,
            reach_rounds(es, (m - 1) as nat),
            last_root(es, es.len() as int),
        ));
    }
}

/// The number of visited definitions among the first `n` expressions.
pub open spec fn visited_count(es: Seq<ExprV>, n: int, reach: Set<Seq<char>>, last: Option<Seq<char>>) -> nat
    decreases n,
{
    if n <= 0 {
        0
    } else {
        visited_count(es, n - 1, reach, last) + if visited_define(es[n - 1], reach, last) {
            1nat
        } else {
            0nat
        }
    }
}

/// A larger reachable set visits at least the same definitions; visiting
/// as many means visiting the same, which gives the same references.
proof fn lemma_visited_mono(es: Seq<ExprV>, n: int, r1: Set<Seq<char>>, r2: Set<Seq<char>>, last: Option<Seq<char>>)
    requires
        r1.subset_of(r2),
        0 <= n <= es.len(),
    ensures
        visited_count(es, n, r1, last) <= visited_count(es, n, r2, last),
        visited_count(es, n, r2, last) <= n,
        visited_count(es, n, r1, last) == visited_count(es, n, r2, last) ==> calls_from(es, n, r1, last)
            == calls_from(es, n, r2, last),
    decreases n,
{
    if n > 0 {
        lemma_visited_mono(es, n - 1, r1, r2, last);
    }
}

/// Each round keeps every name reached before.
proof fn lemma_rounds_grow(es: Seq<ExprV>, j: nat, k: nat)
    requires
        j <= k,
    ensures
        reach_rounds(es, j).subset_of(reach_rounds(es, k)),
    decreases k - j,
{
    if j < k {
        lemma_rounds_grow(es, j, (k - 1) as nat);
    }
}

/// Either the rounds settle within the first `k + 1`, or the round after
/// them visits at least `k + 1` definitions.
proof fn lemma_find_stable(es: Seq<ExprV>, k: nat) -> (j: nat)
    ensures
        (j <= k && reach_rounds(es, j + 2) == reach_rounds(es, j + 1)) || visited_count(
            es,
            es.len() as int,
            reach_rounds(es, k + 1),
            last_root(es, es.len() as int),
        ) >= k + 1,
    decreases k,
{
    let n = es.len() as int;
    let last = last_root(es, n);
    if k == 0 {
        lemma_rounds_grow(es, 0, 1);
        lemma_visited_mono(es, n, reach_rounds(es, 0), reach_rounds(es, 1), last);
        if visited_count(es, n, reach_rounds(es, 0), last) == visited_count(es, n, reach_rounds(es, 1), last) {
            assert(reach_rounds(es, 2) =~= reach_rounds(es, 1));
        }
        0
    } else {
        let j = lemma_find_stable(es, (k - 1) as nat);
        if j <= k - 1 && reach_rounds(es, j + 2) == reach_rounds(es, j + 1) {
            j
        } else {
            lemma_rounds_grow(es, k, k + 1);
            lemma_visited_mono(es, n, reach_rounds(es, k), reach_rounds(es, k + 1), last);
            if visited_count(es, n, reach_rounds(es, k), last) == visited_count(es, n, reach_rounds(es, k + 1), last) {
                assert(reach_rounds(es, k + 2) =~= reach_rounds(es, k + 1));
                k
            } else {
                k
            }
        }
    }
}

/// An expression with every name it uses or binds (variables, functions,
/// parameters, template references, shapes, fields, modules) and every
/// literal value (numbers and strings) blanked, and every export mark
/// cleared: what is left is the tree, its operators, its arities and its
/// slot references.
pub open spec fn anonymize(e: ExprV) -> ExprV
    decreases e, 0nat,
{
    match e {
        ExprV::Integer(a0) => ExprV::Integer(0i64),
        ExprV::Float(a0) => ExprV::Float(Seq::empty()),
        ExprV::DeBruijn(a0) => ExprV::DeBruijn(a0),
        ExprV::Identifier(a0) => ExprV::Identifier(Seq::empty()),
        ExprV::BinaryOp(a0, a1, a2) => ExprV::BinaryOp(a0, Box::new(anonymize(*a1)), Box::new(anonymize(*a2))),
        ExprV::Apply(a0, a1) => ExprV::Apply(Box::new(anonymize(*a0)), anonymize_list(a1)),
        ExprV::Move(a0) => ExprV::Move(Box::new(anonymize(*a0))),
        ExprV::Borrow(a0) => ExprV::Borrow(Box::new(anonymize(*a0))),
        ExprV::MutBorrow(a0) => ExprV::MutBorrow(Box::new(anonymize(*a0))),
        ExprV::Define(a0, a1, a2, a3) => ExprV::Define(Seq::empty(), Seq::new(a1.len(), |i: int| ParamV { name: Seq::empty(), expand: false }), Box::new(anonymize(*a2)), false),
        ExprV::Shape(a0, a1, a2) => ExprV::Shape(Seq::empty(), Seq::new(a1.len(), |i: int| Seq::<char>::empty()), false),
        ExprV::New(a0, a1) => ExprV::New(Seq::empty(), Box::new(anonymize(*a1))),
        ExprV::Get(a0, a1, a2) => ExprV::Get(Box::new(anonymize(*a0)), Seq::empty(), Box::new(anonymize(*a2))),
        ExprV::SetField(a0, a1, a2, a3) => ExprV::SetField(Box::new(anonymize(*a0)), Seq::empty(), Box::new(anonymize(*a2)), Box::new(anonymize(*a3))),
        ExprV::If(a0, a1, a2) => ExprV::If(Box::new(anonymize(*a0)), Box::new(anonymize(*a1)), Box::new(anonymize(*a2))),
        ExprV::Expand(a0) => ExprV::Expand(Seq::empty()),
        ExprV::Let(a0, a1, a2) => ExprV::Let(Seq::empty(), Box::new(anonymize(*a1)), Box::new(anonymize(*a2))),
        ExprV::Import(a0, a1, a2) => ExprV::Import(Seq::empty(), Seq::empty(), a2),
        ExprV::String(a0) => ExprV::String(Seq::empty()),
        ExprV::Len(a0) => ExprV::Len(Box::new(anonymize(*a0))),
        ExprV::Cat(a0, a1) => ExprV::Cat(Box::new(anonymize(*a0)), Box::new(anonymize(*a1))),
        ExprV::Sub(a0, a1, a2) => ExprV::Sub(Box::new(anonymize(*a0)), Box::new(anonymize(*a1)), Box::new(anonymize(*a2))),
        ExprV::Loc(a0, a1) => ExprV::Loc(Box::new(anonymize(*a0)), Box::new(anonymize(*a1))),
        ExprV::Reg(a0, a1) => ExprV::Reg(Box::new(anonymize(*a0)), Box::new(anonymize(*a1))),
        ExprV::Read(a0) => ExprV::Read(Box::new(anonymize(*a0))),
        ExprV::Write(a0, a1) => ExprV::Write(Box::new(anonymize(*a0)), Box::new(anonymize(*a1))),
        ExprV::Str(a0) => ExprV::Str(Box::new(anonymize(*a0))),
        ExprV::Split(a0, a1, a2) => ExprV::Split(Box::new(anonymize(*a0)), Box::new(anonymize(*a1)), Box::new(anonymize(*a2))),
        ExprV::TimeNow => ExprV::TimeNow,
        ExprV::TimeNano => ExprV::TimeNano,
        ExprV::TimeGet(a0, a1) => ExprV::TimeGet(Box::new(anonymize(*a0)), Box::new(anonymize(*a1))),
        ExprV::TimeSet(a0, a1, a2, a3, a4, a5) => ExprV::TimeSet(Box::new(anonymize(*a0)), Box::new(anonymize(*a1)), Box::new(anonymize(*a2)), Box::new(anonymize(*a3)), Box::new(anonymize(*a4)), Box::new(anonymize(*a5))),
        ExprV::Env(a0) => ExprV::Env(Box::new(anonymize(*a0))),
        ExprV::Sequence(a0, a1) => ExprV::Sequence(Box::new(anonymize(*a0)), Box::new(anonymize(*a1))),
        ExprV::Pack(a0) => ExprV::Pack(Box::new(anonymize(*a0))),
        ExprV::Unpack(a0, a1) => ExprV::Unpack(Box::new(anonymize(*a0)), Seq::empty()),
        ExprV::Metadata(a0, a1, a2) => ExprV::Metadata(Box::new(anonymize(*a0)), Box::new(anonymize(*a1)), Box::new(anonymize(*a2))),
        ExprV::OtelEmit(a0, a1, a2, a3) => ExprV::OtelEmit(Box::new(anonymize(*a0)), Box::new(anonymize(*a1)), Box::new(anonymize(*a2)), Box::new(anonymize(*a3))),
        ExprV::MapField(a0, a1, a2) => ExprV::MapField(Box::new(anonymize(*a0)), Seq::empty(), Box::new(anonymize(*a2))),
        ExprV::Filter(a0, a1) => ExprV::Filter(Box::new(anonymize(*a0)), Box::new(anonymize(*a1))),
        ExprV::MoneyOp(a0, a1, a2) => ExprV::MoneyOp(a0, Box::new(anonymize(*a1)), Box::new(anonymize(*a2))),
        ExprV::MoneyStr(a0) => ExprV::MoneyStr(Box::new(anonymize(*a0))),
        ExprV::TimeOp(a0, a1, a2) => ExprV::TimeOp(a0, Box::new(anonymize(*a1)), Box::new(anonymize(*a2))),
        ExprV::TimeZone => ExprV::TimeZone,
        ExprV::Panic(a0) => ExprV::Panic(Box::new(anonymize(*a0))),
        ExprV::Trap(a0, a1) => ExprV::Trap(Box::new(anonymize(*a0)), Box::new(anonymize(*a1))),
        ExprV::HttpClient(a0, a1, a2) => ExprV::HttpClient(Box::new(anonymize(*a0)), Box::new(anonymize(*a1)), Box::new(anonymize(*a2))),
        ExprV::HttpServer(a0, a1) => ExprV::HttpServer(Box::new(anonymize(*a0)), Box::new(anonymize(*a1))),
        ExprV::HttpHeader(a0, a1) => ExprV::HttpHeader(Box::new(anonymize(*a0)), Box::new(anonymize(*a1))),
        ExprV::FileOpen(a0, a1) => ExprV::FileOpen(Box::new(anonymize(*a0)), Box::new(anonymize(*a1))),
    }
}

/// `anonymize` applied to each expression of a list.
pub open spec fn anonymize_list(es: Seq<ExprV>) -> Seq<ExprV>
    decreases es, 0nat,
{
    if es.len() == 0 {
        Seq::empty()
    } else {
        seq![anonymize(es[0])] + anonymize_list(es.subrange(1, es.len() as int))
    }
}

/// Blanking names and literal values leaves the fingerprint as it is.
proof fn lemma_fingerprint_anonymize(e: ExprV)
    ensures
        fingerprint(anonymize(e)) == fingerprint(e),
    decreases e, 0nat,
{
    match e {
        ExprV::BinaryOp(_, a1, a2) => {
            lemma_fingerprint_anonymize(*a1);
            lemma_fingerprint_anonymize(*a2);
        },
        ExprV::Apply(a0, a1) => {
            lemma_fingerprint_anonymize(*a0);
            lemma_fingerprint_anonymize_list(a1);
        },
        ExprV::Move(a0) => {
            lemma_fingerprint_anonymize(*a0);
        },
        ExprV::Borrow(a0) => {
            lemma_fingerprint_anonymize(*a0);
        },
        ExprV::MutBorrow(a0) => {
            lemma_fingerprint_anonymize(*a0);
        },
        ExprV::Define(_, a1, a2, _) => {
            assert(Seq::new(a1.len(), |i: int| 'p') =~= Seq::new(anonymize(e)->Define_1.len(), |i: int| 'p'));
            lemma_fingerprint_anonymize(*a2);
        },
        ExprV::Shape(_, a1, _) => {
            assert(Seq::new(a1.len(), |i: int| 't') =~= Seq::new(anonymize(e)->Shape_1.len(), |i: int| 't'));
        },
        ExprV::New(_, a1) => {
            lemma_fingerprint_anonymize(*a1);
        },
        ExprV::Get(a0, _, a2) => {
            lemma_fingerprint_anonymize(*a0);
            lemma_fingerprint_anonymize(*a2);
        },
        ExprV::SetField(a0, _, a2, a3) => {
            lemma_fingerprint_anonymize(*a0);
            lemma_fingerprint_anonymize(*a2);
            lemma_fingerprint_anonymize(*a3);
        },
        ExprV::If(a0, a1, a2) => {
            lemma_fingerprint_anonymize(*a0);
            lemma_fingerprint_anonymize(*a1);
            lemma_fingerprint_anonymize(*a2);
        },
        ExprV::Let(_, a1, a2) => {
            lemma_fingerprint_anonymize(*a1);
            lemma_fingerprint_anonymize(*a2);
        },
        ExprV::Len(a0) => {
            lemma_fingerprint_anonymize(*a0);
        },
        ExprV::Cat(a0, a1) => {
            lemma_fingerprint_anonymize(*a0);
            lemma_fingerprint_anonymize(*a1);
        },
        ExprV::Sub(a0, a1, a2) => {
            lemma_fingerprint_anonymize(*a0);
            lemma_fingerprint_anonymize(*a1);
            lemma_fingerprint_anonymize(*a2);
        },
        ExprV::Loc(a0, a1) => {
            lemma_fingerprint_anonymize(*a0);
            lemma_fingerprint_anonymize(*a1);
        },
        ExprV::Reg(a0, a1) => {
            lemma_fingerprint_anonymize(*a0);
            lemma_fingerprint_anonymize(*a1);
        },
        ExprV::Read(a0) => {
            lemma_fingerprint_anonymize(*a0);
        },
        ExprV::Write(a0, a1) => {
            lemma_fingerprint_anonymize(*a0);
            lemma_fingerprint_anonymize(*a1);
        },
        ExprV::Str(a0) => {
            lemma_fingerprint_anonymize(*a0);
        },
        ExprV::Split(a0, a1, a2) => {
            lemma_fingerprint_anonymize(*a0);
            lemma_fingerprint_anonymize(*a1);
            lemma_fingerprint_anonymize(*a2);
        },
        ExprV::TimeGet(a0, a1) => {
            lemma_fingerprint_anonymize(*a0);
            lemma_fingerprint_anonymize(*a1);
        },
        ExprV::TimeSet(a0, a1, a2, a3, a4, a5) => {
            lemma_fingerprint_anonymize(*a0);
            lemma_fingerprint_anonymize(*a1);
            lemma_fingerprint_anonymize(*a2);
            lemma_fingerprint_anonymize(*a3);
            lemma_fingerprint_anonymize(*a4);
            lemma_fingerprint_anonymize(*a5);
        },
        ExprV::Env(a0) => {
            lemma_fingerprint_anonymize(*a0);
        },
        ExprV::Sequence(a0, a1) => {
            lemma_fingerprint_anonymize(*a0);
            lemma_fingerprint_anonymize(*a1);
        },
        ExprV::Pack(a0) => {
            lemma_fingerprint_anonymize(*a0);
        },
        ExprV::Unpack(a0, _) => {
            lemma_fingerprint_anonymize(*a0);
        },
        ExprV::Metadata(a0, a1, a2) => {
            lemma_fingerprint_anonymize(*a0);
            lemma_fingerprint_anonymize(*a1);
            lemma_fingerprint_anonymize(*a2);
        },
        ExprV::OtelEmit(a0, a1, a2, a3) => {
            lemma_fingerprint_anonymize(*a0);
            lemma_fingerprint_anonymize(*a1);
            lemma_fingerprint_anonymize(*a2);
            lemma_fingerprint_anonymize(*a3);
        },
        ExprV::MapField(a0, _, a2) => {
            lemma_fingerprint_anonymize(*a0);
            lemma_fingerprint_anonymize(*a2);
        },
        ExprV::Filter(a0, a1) => {
            lemma_fingerprint_anonymize(*a0);
            lemma_fingerprint_anonymize(*a1);
        },
        ExprV::MoneyOp(_, a1, a2) => {
            lemma_fingerprint_anonymize(*a1);
            lemma_fingerprint_anonymize(*a2);
        },
        ExprV::MoneyStr(a0) => {
            lemma_fingerprint_anonymize(*a0);
        },
        ExprV::TimeOp(_, a1, a2) => {
            lemma_fingerprint_anonymize(*a1);
            lemma_fingerprint_anonymize(*a2);
        },
        ExprV::Panic(a0) => {
            lemma_fingerprint_anonymize(*a0);
        },
        ExprV::Trap(a0, a1) => {
            lemma_fingerprint_anonymize(*a0);
            lemma_fingerprint_anonymize(*a1);
        },
        ExprV::HttpClient(a0, a1, a2) => {
            lemma_fingerprint_anonymize(*a0);
            lemma_fingerprint_anonymize(*a1);
            lemma_fingerprint_anonymize(*a2);
        },
        ExprV::HttpServer(a0, a1) => {
            lemma_fingerprint_anonymize(*a0);
            lemma_fingerprint_anonymize(*a1);
        },
        ExprV::HttpHeader(a0, a1) => {
            lemma_fingerprint_anonymize(*a0);
            lemma_fingerprint_anonymize(*a1);
        },
        ExprV::FileOpen(a0, a1) => {
            lemma_fingerprint_anonymize(*a0);
            lemma_fingerprint_anonymize(*a1);
        },
        _ => {},
    }
}

/// Blanking names and literal values leaves a list's fingerprints, and its
/// length, as they are.
proof fn lemma_fingerprint_anonymize_list(es: Seq<ExprV>)
    ensures
        fingerprint_list(anonymize_list(es)) == fingerprint_list(es),
        anonymize_list(es).len() == es.len(),
    decreases es, 0nat,
{
    if es.len() > 0 {
        let r = es.subrange(1, es.len() as int);
        lemma_fingerprint_anonymize(es[0]);
        lemma_fingerprint_anonymize_list(r);
        let a = anonymize_list(es);
        assert(a[0] == anonymize(es[0]));
        assert(a.subrange(1, a.len() as int) =~= anonymize_list(r));
    }
}

/// Structural search ignores names and literal values: two expressions that
/// differ only in the names they use or bind (variables, functions,
/// parameters, template references, shapes, fields, modules), in their
/// literal values and in export marks, so that blanking those gives the same
/// expression, get the same fingerprint.
pub proof fn lemma_fingerprint_ignores_names_and_literals(e1: ExprV, e2: ExprV)
    requires
        anonymize(e1) == anonymize(e2),
    ensures
        fingerprint(e1) == fingerprint(e2),
{
    lemma_fingerprint_anonymize(e1);
    lemma_fingerprint_anonymize(e2);
}

/// A larger reachable set visits more definitions, and so reaches more
/// names.
proof fn lemma_calls_from_mono(es: Seq<ExprV>, n: int, r1: Set<Seq<char>>, r2: Set<Seq<char>>, last: Option<Seq<char>>)
    requires
        r1.subset_of(r2),
    ensures
        calls_from(es, n, r1, last).subset_of(calls_from(es, n, r2, last)),
    decreases n,
{
    if n > 0 {
        lemma_calls_from_mono(es, n - 1, r1, r2, last);
    }
}

/// Every round stays within a set that holds the roots and is closed under
/// references.
proof fn lemma_rounds_within(es: Seq<ExprV>, s: Set<Seq<char>>, k: nat)
    requires
        root_names(es, es.len() as int).subset_of(s),
        calls_from(es, es.len() as int, s, last_root(es, es.len() as int)).subset_of(s),
    ensures
        reach_rounds(es, k).subset_of(s),
    decreases k,
{
    if k > 0 {
        lemma_rounds_within(es, s, (k - 1) as nat);
        lemma_calls_from_mono(es, es.len() as int, reach_rounds(es, (k - 1) as nat), s, last_root(es, es.len() as int));
    }
}

/// Pruning keeps no more than it must: the reachable names lie within every
/// set that holds the names of `main`, of the exported definitions and of
/// the exported shapes, and every name that the definitions it visits refer
/// to. With `lemma_reachable_closed`, they are the least such set.
pub proof fn lemma_reachable_least(es: Seq<ExprV>, s: Set<Seq<char>>)
    requires
        root_names(es, es.len() as int).subset_of(s),
        calls_from(es, es.len() as int, s, last_root(es, es.len() as int)).subset_of(s),
    ensures
        reachable_names(es).subset_of(s),
{
    lemma_rounds_within(es, s, es.len() + 1);
}

/// The immediate sub-expressions of an expression, in the order they are
/// written: the operands of an operator, the callee and arguments of a
/// call, the value and body of a binding, the body of a definition.
pub open spec fn children(e: ExprV) -> Seq<ExprV> {
    match e {
        ExprV::BinaryOp(_, a1, a2) => seq![*a1, *a2],
        ExprV::Apply(a0, a1) => seq![*a0] + a1,
        ExprV::Move(a0) => seq![*a0],
        ExprV::Borrow(a0) => seq![*a0],
        ExprV::MutBorrow(a0) => seq![*a0],
        ExprV::Define(_, _, a2, _) => seq![*a2],
        ExprV::New(_, a1) => seq![*a1],
        ExprV::Get(a0, _, a2) => seq![*a0, *a2],
        ExprV::SetField(a0, _, a2, a3) => seq![*a0, *a2, *a3],
        ExprV::If(a0, a1, a2) => seq![*a0, *a1, *a2],
        ExprV::Let(_, a1, a2) => seq![*a1, *a2],
        ExprV::Len(a0) => seq![*a0],
        ExprV::Cat(a0, a1) => seq![*a0, *a1],
        ExprV::Sub(a0, a1, a2) => seq![*a0, *a1, *a2],
        ExprV::Loc(a0, a1) => seq![*a0, *a1],
        ExprV::Reg(a0, a1) => seq![*a0, *a1],
        ExprV::Read(a0) => seq![*a0],
        ExprV::Write(a0, a1) => seq![*a0, *a1],
        ExprV::Str(a0) => seq![*a0],
        ExprV::Split(a0, a1, a2) => seq![*a0, *a1, *a2],
        ExprV::TimeGet(a0, a1) => seq![*a0, *a1],
        ExprV::TimeSet(a0, a1, a2, a3, a4, a5) => seq![*a0, *a1, *a2, *a3, *a4, *a5],
        ExprV::Env(a0) => seq![*a0],
        ExprV::Sequence(a0, a1) => seq![*a0, *a1],
        ExprV::Pack(a0) => seq![*a0],
        ExprV::Unpack(a0, _) => seq![*a0],
        ExprV::Metadata(a0, a1, a2) => seq![*a0, *a1, *a2],
        ExprV::OtelEmit(a0, a1, a2, a3) => seq![*a0, *a1, *a2, *a3],
        ExprV::MapField(a0, _, a2) => seq![*a0, *a2],
        ExprV::Filter(a0, a1) => seq![*a0, *a1],
        ExprV::MoneyOp(_, a1, a2) => seq![*a1, *a2],
        ExprV::MoneyStr(a0) => seq![*a0],
        ExprV::TimeOp(_, a1, a2) => seq![*a1, *a2],
        ExprV::Panic(a0) => seq![*a0],
        ExprV::Trap(a0, a1) => seq![*a0, *a1],
        ExprV::HttpClient(a0, a1, a2) => seq![*a0, *a1, *a2],
        ExprV::HttpServer(a0, a1) => seq![*a0, *a1],
        ExprV::HttpHeader(a0, a1) => seq![*a0, *a1],
        ExprV::FileOpen(a0, a1) => seq![*a0, *a1],
        _ => Seq::empty(),
    }
}

/// `a + b` holds exactly what `a` or `b` holds.
proof fn lemma_concat_contains<A>(a: Seq<A>, b: Seq<A>, x: A)
    ensures
        (a + b).contains(x) <==> (a.contains(x) || b.contains(x)),
{
    if a.contains(x) {
        let k = choose|k: int| 0 <= k < a.len() && a[k] == x;
        assert((a + b)[k] == x);
    }
    if b.contains(x) {
        let k = choose|k: int| 0 <= k < b.len() && b[k] == x;
        assert((a + b)[a.len() + k] == x);
    }
    if (a + b).contains(x) {
        let k = choose|k: int| 0 <= k < (a + b).len() && (a + b)[k] == x;
        if k < a.len() {
            assert(a[k] == x);
        } else {
            assert(b[k - a.len()] == x);
        }
    }
}

/// The names of a list's calls include those of each of its expressions.
proof fn lemma_calls_list_has(es: Seq<ExprV>, k: int, x: Seq<char>)
    requires
        0 <= k < es.len(),
        calls_of(es[k]).contains(x),
    ensures
        calls_list(es).contains(x),
    decreases k,
{
    let r = es.subrange(1, es.len() as int);
    if k > 0 {
        assert(r[k - 1] == es[k]);
        lemma_calls_list_has(r, k - 1, x);
    }
    lemma_concat_contains(calls_of(es[0]), calls_list(r), x);
}

/// References reach the whole expression: a name that any immediate
/// sub-expression refers to (in every branch of a conditional, every
/// argument of a call, the value and body of a binding) is among the names
/// the expression refers to. Concatenation, annotations and telemetry
/// emission are not searched for references.
pub proof fn lemma_calls_cover_parts(e: ExprV, i: int, x: Seq<char>)
    requires
        0 <= i < children(e).len(),
        !(e is Cat),
        !(e is Metadata),
        !(e is OtelEmit),
        calls_of(children(e)[i]).contains(x),
    ensures
        calls_of(e).contains(x),
{
    match e {
        ExprV::BinaryOp(a0, a1, a2) => {
            lemma_concat_contains(calls_of(*a1), calls_of(*a2), x);
        },
        ExprV::Apply(a0, a1) => {
            if i > 0 {
                assert(children(e)[i] == a1[i - 1]);
                lemma_calls_list_has(a1, i - 1, x);
            }
            lemma_concat_contains(calls_of(*a0), calls_list(a1), x);
        },
        ExprV::Move(a0) => {},
        ExprV::Borrow(a0) => {},
        ExprV::MutBorrow(a0) => {},
        ExprV::Define(a0, a1, a2, a3) => {},
        ExprV::New(a0, a1) => {
            lemma_concat_contains(seq![a0], calls_of(*a1), x);
        },
        ExprV::Get(a0, a1, a2) => {
            lemma_concat_contains(calls_of(*a0), calls_of(*a2), x);
        },
        ExprV::SetField(a0, a1, a2, a3) => {
            lemma_concat_contains(calls_of(*a0), calls_of(*a2), x);
            lemma_concat_contains(calls_of(*a0) + calls_of(*a2), calls_of(*a3), x);
        },
        ExprV::If(a0, a1, a2) => {
            lemma_concat_contains(calls_of(*a0), calls_of(*a1), x);
            lemma_concat_contains(calls_of(*a0) + calls_of(*a1), calls_of(*a2), x);
        },
        ExprV::Let(a0, a1, a2) => {
            lemma_concat_contains(calls_of(*a1), calls_of(*a2), x);
        },
        ExprV::Len(a0) => {},
        ExprV::Sub(a0, a1, a2) => {
            lemma_concat_contains(calls_of(*a0), calls_of(*a1), x);
            lemma_concat_contains(calls_of(*a0) + calls_of(*a1), calls_of(*a2), x);
        },
        ExprV::Loc(a0, a1) => {
            lemma_concat_contains(calls_of(*a0), calls_of(*a1), x);
        },
        ExprV::Reg(a0, a1) => {
            lemma_concat_contains(calls_of(*a0), calls_of(*a1), x);
        },
        ExprV::Read(a0) => {},
        ExprV::Write(a0, a1) => {
            lemma_concat_contains(calls_of(*a0), calls_of(*a1), x);
        },
        ExprV::Str(a0) => {},
        ExprV::Split(a0, a1, a2) => {
            lemma_concat_contains(calls_of(*a0), calls_of(*a1), x);
            lemma_concat_contains(calls_of(*a0) + calls_of(*a1), calls_of(*a2), x);
        },
        ExprV::TimeGet(a0, a1) => {
            lemma_concat_contains(calls_of(*a0), calls_of(*a1), x);
        },
        ExprV::TimeSet(a0, a1, a2, a3, a4, a5) => {
            lemma_concat_contains(calls_of(*a0), calls_of(*a1), x);
            lemma_concat_contains(calls_of(*a0) + calls_of(*a1), calls_of(*a2), x);
            lemma_concat_contains(calls_of(*a0) + calls_of(*a1) + calls_of(*a2), calls_of(*a3), x);
            lemma_concat_contains(calls_of(*a0) + calls_of(*a1) + calls_of(*a2) + calls_of(*a3), calls_of(*a4), x);
            lemma_concat_contains(calls_of(*a0) + calls_of(*a1) + calls_of(*a2) + calls_of(*a3) + calls_of(*a4), calls_of(*a5), x);
        },
        ExprV::Env(a0) => {},
        ExprV::Sequence(a0, a1) => {
            lemma_concat_contains(calls_of(*a0), calls_of(*a1), x);
        },
        ExprV::Pack(a0) => {},
        ExprV::Unpack(a0, a1) => {
            lemma_concat_contains(seq![a1], calls_of(*a0), x);
        },
        ExprV::MapField(a0, a1, a2) => {
            lemma_concat_contains(calls_of(*a0), calls_of(*a2), x);
        },
        ExprV::Filter(a0, a1) => {
            lemma_concat_contains(calls_of(*a0), calls_of(*a1), x);
        },
        ExprV::MoneyOp(a0, a1, a2) => {
            lemma_concat_contains(calls_of(*a1), calls_of(*a2), x);
        },
        ExprV::MoneyStr(a0) => {},
        ExprV::TimeOp(a0, a1, a2) => {
            lemma_concat_contains(calls_of(*a1), calls_of(*a2), x);
        },
        ExprV::Panic(a0) => {},
        ExprV::Trap(a0, a1) => {
            lemma_concat_contains(calls_of(*a0), calls_of(*a1), x);
        },
        ExprV::HttpClient(a0, a1, a2) => {
            lemma_concat_contains(calls_of(*a0), calls_of(*a1), x);
            lemma_concat_contains(calls_of(*a0) + calls_of(*a1), calls_of(*a2), x);
        },
        ExprV::HttpServer(a0, a1) => {
            lemma_concat_contains(calls_of(*a0), calls_of(*a1), x);
        },
        ExprV::HttpHeader(a0, a1) => {
            lemma_concat_contains(calls_of(*a0), calls_of(*a1), x);
        },
        ExprV::FileOpen(a0, a1) => {
            lemma_concat_contains(calls_of(*a0), calls_of(*a1), x);
        },
        _ => {},
    }
}

/// A name refers to itself.
pub proof fn lemma_calls_of_name(x: Seq<char>)
    ensures
        calls_of(ExprV::Identifier(x)).contains(x),
{
    assert(calls_of(ExprV::Identifier(x))[0] == x);
}

/// Each expression of a pure list is pure.
proof fn lemma_pure_list_items(es: Seq<ExprV>, k: int)
    requires
        pure_list(es),
        0 <= k < es.len(),
    ensures
        pure(es[k]),
    decreases k,
{
    if k > 0 {
        let r = es.subrange(1, es.len() as int);
        assert(r[k - 1] == es[k]);
        lemma_pure_list_items(r, k - 1);
    }
}

/// A list whose expressions are all pure is pure.
proof fn lemma_pure_list_all(es: Seq<ExprV>)
    requires
        forall|k: int| 0 <= k < es.len() ==> pure(#[trigger] es[k]),
    ensures
        pure_list(es),
    decreases es.len(),
{
    if es.len() > 0 {
        let r = es.subrange(1, es.len() as int);
        assert forall|k: int| 0 <= k < r.len() implies pure(#[trigger] r[k]) by {
            assert(r[k] == es[k + 1]);
        }
        lemma_pure_list_all(r);
    }
}

/// Effects are never hidden: every immediate sub-expression of a pure
/// expression is pure, so an expression with an effect among its parts (a
/// panic, I/O, the clock, the environment), in a branch, an argument or an
/// operand, has an effect itself.
pub proof fn lemma_pure_parts(e: ExprV, i: int)
    requires
        pure(e),
        0 <= i < children(e).len(),
    ensures
        pure(children(e)[i]),
{
    match e {
        ExprV::Apply(f, args) => {
            if i > 0 {
                assert(children(e)[i] == args[i - 1]);
                lemma_pure_list_items(args, i - 1);
            }
        },
        _ => {},
    }
}

/// Effects are impure: a panic, a trap, reading or writing a file or
/// stream, opening a file, an HTTP operation, reading the clock or the
/// environment, telemetry, an import and a field write are never pure,
/// whatever their operands.
pub proof fn lemma_effects_impure(e: ExprV)
    requires
        e is Panic || e is Trap || e is Read || e is Write || e is FileOpen || e is HttpClient || e is HttpServer
            || e is HttpHeader || e is TimeNow || e is TimeNano || e is Env || e is OtelEmit || e is Import
            || e is SetField,
    ensures
        !pure(e),
{
}

/// A call is pure exactly when its callee and every argument are.
pub proof fn lemma_pure_call(f: ExprV, args: Seq<ExprV>)
    ensures
        pure(ExprV::Apply(Box::new(f), args)) <==> (pure(f) && forall|k: int| 0 <= k < args.len() ==> pure(
            #[trigger] args[k],
        )),
{
    if pure(ExprV::Apply(Box::new(f), args)) {
        assert forall|k: int| 0 <= k < args.len() implies pure(#[trigger] args[k]) by {
            lemma_pure_list_items(args, k);
        }
    }
    if pure(f) && forall|k: int| 0 <= k < args.len() ==> pure(#[trigger] args[k]) {
        lemma_pure_list_all(args);
    }
}

/// A conditional's fingerprint tells its parts apart: of two conditionals
/// whose parts agree in fingerprint in two of the three places (condition,
/// then branch, else branch), the fingerprints agree exactly when the third
/// parts' do.
pub proof fn lemma_fingerprint_if_parts(c1: ExprV, t1: ExprV, f1: ExprV, c2: ExprV, t2: ExprV, f2: ExprV)
    requires
        (fingerprint(c1) == fingerprint(c2) && fingerprint(t1) == fingerprint(t2)) || (fingerprint(c1)
            == fingerprint(c2) && fingerprint(f1) == fingerprint(f2)) || (fingerprint(t1) == fingerprint(t2)
            && fingerprint(f1) == fingerprint(f2)),
    ensures
        fingerprint(ExprV::If(Box::new(c1), Box::new(t1), Box::new(f1))) == fingerprint(
            ExprV::If(Box::new(c2), Box::new(t2), Box::new(f2)),
        ) <==> (fingerprint(c1) == fingerprint(c2) && fingerprint(t1) == fingerprint(t2) && fingerprint(f1)
            == fingerprint(f2)),
{
    let (a1, b1, d1) = (fingerprint(c1), fingerprint(t1), fingerprint(f1));
    let (a2, b2, d2) = (fingerprint(c2), fingerprint(t2), fingerprint(f2));
    let s1 = fingerprint(ExprV::If(Box::new(c1), Box::new(t1), Box::new(f1)));
    let s2 = fingerprint(ExprV::If(Box::new(c2), Box::new(t2), Box::new(f2)));
    reveal_strlit("?");
    assert(s1 == "?"@ + a1 + b1 + d1);
    assert(s2 == "?"@ + a2 + b2 + d2);
    if s1 == s2 {
        let k1 = 1 + a1.len();
        let k2 = 1 + a1.len() + b1.len();
        if a1 == a2 && b1 == b2 {
            assert(d1 =~= s1.subrange(k2 as int, s1.len() as int));
            assert(d2 =~= s2.subrange(k2 as int, s2.len() as int));
        } else if a1 == a2 && d1 == d2 {
            assert(b1.len() == b2.len());
            assert(b1 =~= s1.subrange(k1 as int, k2 as int));
            assert(b2 =~= s2.subrange(k1 as int, k2 as int));
        } else {
            assert(a1.len() == a2.len());
            assert(a1 =~= s1.subrange(1, k1 as int));
            assert(a2 =~= s2.subrange(1, k1 as int));
        }
    }
}

/// A slot reference counts bindings from the innermost one: with one more
/// binding on the stack, `^0` is that binding and `^(i+1)` is what `^i` was
/// before it.
pub proof fn lemma_slot_innermost(i: usize, stack: Seq<bool>, b: bool, fns: Seq<(Seq<char>, bool)>)
    ensures
        returns_ptr_spec(ExprV::DeBruijn(i), stack.push(b), fns) == if i == 0 {
            b
        } else {
            returns_ptr_spec(ExprV::DeBruijn((i - 1) as usize), stack, fns)
        },
{
}

/// Under two bindings, `^0` yields a pointer exactly when the inner value
/// does and `^1` exactly when the outer value does.
pub proof fn lemma_slots_of_two_bindings(
    a: Seq<char>,
    v1: ExprV,
    b: Seq<char>,
    v2: ExprV,
    stack: Seq<bool>,
    fns: Seq<(Seq<char>, bool)>,
)
    ensures
        returns_ptr_spec(
            ExprV::Let(a, Box::new(v1), Box::new(ExprV::Let(b, Box::new(v2), Box::new(ExprV::DeBruijn(0))))),
            stack,
            fns,
        ) == returns_ptr_spec(v2, stack.push(returns_ptr_spec(v1, stack, fns)), fns),
        returns_ptr_spec(
            ExprV::Let(a, Box::new(v1), Box::new(ExprV::Let(b, Box::new(v2), Box::new(ExprV::DeBruijn(1))))),
            stack,
            fns,
        ) == returns_ptr_spec(v1, stack, fns),
{
    let s1 = stack.push(returns_ptr_spec(v1, stack, fns));
    let s2 = s1.push(returns_ptr_spec(v2, s1, fns));
    let i0 = ExprV::Let(b, Box::new(v2), Box::new(ExprV::DeBruijn(0)));
    let i1 = ExprV::Let(b, Box::new(v2), Box::new(ExprV::DeBruijn(1)));
    assert(returns_ptr_spec(ExprV::DeBruijn(0), s2, fns) == returns_ptr_spec(v2, s1, fns));
    assert(returns_ptr_spec(ExprV::DeBruijn(1), s2, fns) == returns_ptr_spec(v1, stack, fns));
    assert(returns_ptr_spec(i0, s1, fns) == returns_ptr_spec(ExprV::DeBruijn(0), s2, fns));
    assert(returns_ptr_spec(i1, s1, fns) == returns_ptr_spec(ExprV::DeBruijn(1), s2, fns));
    assert(returns_ptr_spec(ExprV::Let(a, Box::new(v1), Box::new(i0)), stack, fns) == returns_ptr_spec(i0, s1, fns));
    assert(returns_ptr_spec(ExprV::Let(a, Box::new(v1), Box::new(i1)), stack, fns) == returns_ptr_spec(i1, s1, fns));
}

/// `t` stands somewhere inside `s`.
pub open spec fn occurs_in(t: Seq<char>, s: Seq<char>) -> bool {
    exists|k: int| 0 <= k && k + t.len() <= s.len() && #[trigger] s.subrange(k, k + t.len()) == t
}

proof fn lemma_occurs_mid(a: Seq<char>, t: Seq<char>, b: Seq<char>)
    ensures
        occurs_in(t, a + t + b),
{
    let s = a + t + b;
    assert(s.subrange(a.len() as int, (a.len() + t.len()) as int) =~= t);
}

proof fn lemma_occurs_trans(t: Seq<char>, u: Seq<char>, s: Seq<char>)
    requires
        occurs_in(t, u),
        occurs_in(u, s),
    ensures
        occurs_in(t, s),
{
    let k1 = choose|k: int| 0 <= k && k + t.len() <= u.len() && #[trigger] u.subrange(k, k + t.len()) == t;
    let k2 = choose|k: int| 0 <= k && k + u.len() <= s.len() && #[trigger] s.subrange(k, k + u.len()) == u;
    assert forall|j: int| 0 <= j < t.len() implies s.subrange(k2 + k1, k2 + k1 + t.len())[j] == t[j] by {
        assert(u.subrange(k1, k1 + t.len())[j] == u[k1 + j]);
        assert(s.subrange(k2, k2 + u.len())[k1 + j] == s[k2 + k1 + j]);
    }
    assert(s.subrange(k2 + k1, k2 + k1 + t.len()) =~= t);
}

/// The fingerprint of each expression of a list stands inside the list's.
proof fn lemma_fingerprint_list_occurs(es: Seq<ExprV>, k: int)
    requires
        0 <= k < es.len(),
    ensures
        occurs_in(fingerprint(es[k]), fingerprint_list(es)),
    decreases k,
{
    let r = es.subrange(1, es.len() as int);
    if k == 0 {
        lemma_occurs_mid(Seq::empty(), fingerprint(es[0]), fingerprint_list(r));
        assert(fingerprint_list(es) =~= Seq::<char>::empty() + fingerprint(es[0]) + fingerprint_list(r));
    } else {
        assert(r[k - 1] == es[k]);
        lemma_fingerprint_list_occurs(r, k - 1);
        lemma_occurs_mid(fingerprint(es[0]), fingerprint_list(r), Seq::empty());
        assert(fingerprint_list(es) =~= fingerprint(es[0]) + fingerprint_list(r) + Seq::<char>::empty());
        lemma_occurs_trans(fingerprint(es[k]), fingerprint_list(r), fingerprint_list(es));
    }
}

/// The forms whose structure a fingerprint records part by part: operators,
/// calls, moves and borrows, definitions, allocations, field accesses,
/// conditionals, bindings, sequences, packing, field maps and filters, and
/// the HTTP operations.
pub open spec fn fingerprint_records(e: ExprV) -> bool {
    ||| e is BinaryOp
    ||| e is Apply
    ||| e is Move
    ||| e is Borrow
    ||| e is MutBorrow
    ||| e is Define
    ||| e is New
    ||| e is Get
    ||| e is SetField
    ||| e is If
    ||| e is Let
    ||| e is Sequence
    ||| e is Pack
    ||| e is Unpack
    ||| e is MapField
    ||| e is Filter
    ||| e is HttpClient
    ||| e is HttpServer
    ||| e is HttpHeader
}

/// A fingerprint keeps the structure of every part it records: for the
/// forms it records, the fingerprint of each immediate sub-expression (all
/// but the callee of a call) stands inside the fingerprint of the whole, so
/// a branch, operand or argument is never dropped from it.
pub proof fn lemma_fingerprint_holds_parts(e: ExprV, i: int)
    requires
        fingerprint_records(e),
        0 <= i < children(e).len(),
        !(e is Apply && i == 0),
    ensures
        occurs_in(fingerprint(children(e)[i]), fingerprint(e)),
{
    match e {
        ExprV::BinaryOp(a0, a1, a2) => {
            assert(fingerprint(e) == token_debug(a0) + fingerprint(*a1) + fingerprint(*a2));
            if i == 0 {
                assert(children(e)[i] == *a1);
                lemma_occurs_mid(token_debug(a0), fingerprint(*a1), fingerprint(*a2));
            }
            if i == 1 {
                assert(children(e)[i] == *a2);
                lemma_occurs_mid(token_debug(a0) + fingerprint(*a1), fingerprint(*a2), Seq::<char>::empty());
                assert(fingerprint(e) =~= token_debug(a0) + fingerprint(*a1) + fingerprint(*a2) + (Seq::<char>::empty()));
            }
            assert(occurs_in(fingerprint(children(e)[i]), fingerprint(e)));
        },
        ExprV::Apply(a0, a1) => {
            reveal_strlit("@");
            if i >= 1 {
                assert(children(e)[i] == a1[i - 1]);
                lemma_fingerprint_list_occurs(a1, i - 1);
                lemma_occurs_mid("@"@ + nat_decimal(a1.len()), fingerprint_list(a1), Seq::<char>::empty());
                assert(fingerprint(e) =~= "@"@ + nat_decimal(a1.len()) + fingerprint_list(a1) + (Seq::<char>::empty()));
                lemma_occurs_trans(fingerprint(a1[i - 1]), fingerprint_list(a1), fingerprint(e));
            }
            assert(occurs_in(fingerprint(children(e)[i]), fingerprint(e)));
        },
        ExprV::Move(a0) => {
            reveal_strlit(">");
            if i == 0 {
                assert(children(e)[i] == *a0);
                lemma_occurs_mid(">"@, fingerprint(*a0), Seq::<char>::empty());
                assert(fingerprint(e) =~= ">"@ + fingerprint(*a0) + (Seq::<char>::empty()));
            }
            assert(occurs_in(fingerprint(children(e)[i]), fingerprint(e)));
        },
        ExprV::Borrow(a0) => {
            reveal_strlit("$");
            if i == 0 {
                assert(children(e)[i] == *a0);
                lemma_occurs_mid("$"@, fingerprint(*a0), Seq::<char>::empty());
                assert(fingerprint(e) =~= "$"@ + fingerprint(*a0) + (Seq::<char>::empty()));
            }
            assert(occurs_in(fingerprint(children(e)[i]), fingerprint(e)));
        },
        ExprV::MutBorrow(a0) => {
            reveal_strlit("~");
            if i == 0 {
                assert(children(e)[i] == *a0);
                lemma_occurs_mid("~"@, fingerprint(*a0), Seq::<char>::empty());
                assert(fingerprint(e) =~= "~"@ + fingerprint(*a0) + (Seq::<char>::empty()));
            }
            assert(occurs_in(fingerprint(children(e)[i]), fingerprint(e)));
        },
        ExprV::Define(a0, a1, a2, a3) => {
            reveal_strlit(":");
            if i == 0 {
                assert(children(e)[i] == *a2);
                lemma_occurs_mid(":"@ + Seq::new(a1.len(), |j: int| 'p'), fingerprint(*a2), Seq::<char>::empty());
                assert(fingerprint(e) =~= ":"@ + Seq::new(a1.len(), |j: int| 'p') + fingerprint(*a2) + (Seq::<char>::empty()));
            }
            assert(occurs_in(fingerprint(children(e)[i]), fingerprint(e)));
        },
        ExprV::New(a0, a1) => {
            reveal_strlit("N");
            if i == 0 {
                assert(children(e)[i] == *a1);
                lemma_occurs_mid("N"@, fingerprint(*a1), Seq::<char>::empty());
                assert(fingerprint(e) =~= "N"@ + fingerprint(*a1) + (Seq::<char>::empty()));
            }
            assert(occurs_in(fingerprint(children(e)[i]), fingerprint(e)));
        },
        ExprV::Get(a0, a1, a2) => {
            reveal_strlit("G");
            if i == 0 {
                assert(children(e)[i] == *a0);
                lemma_occurs_mid("G"@, fingerprint(*a0), fingerprint(*a2));
                assert(fingerprint(e) =~= "G"@ + fingerprint(*a0) + (fingerprint(*a2)));
            }
            if i == 1 {
                assert(children(e)[i] == *a2);
                lemma_occurs_mid("G"@ + fingerprint(*a0), fingerprint(*a2), Seq::<char>::empty());
                assert(fingerprint(e) =~= "G"@ + fingerprint(*a0) + fingerprint(*a2) + (Seq::<char>::empty()));
            }
            assert(occurs_in(fingerprint(children(e)[i]), fingerprint(e)));
        },
        ExprV::SetField(a0, a1, a2, a3) => {
            reveal_strlit("S");
            if i == 0 {
                assert(children(e)[i] == *a0);
                lemma_occurs_mid("S"@, fingerprint(*a0), fingerprint(*a2) + fingerprint(*a3));
                assert(fingerprint(e) =~= "S"@ + fingerprint(*a0) + (fingerprint(*a2) + fingerprint(*a3)));
            }
            if i == 1 {
                assert(children(e)[i] == *a2);
                lemma_occurs_mid("S"@ + fingerprint(*a0), fingerprint(*a2), fingerprint(*a3));
                assert(fingerprint(e) =~= "S"@ + fingerprint(*a0) + fingerprint(*a2) + (fingerprint(*a3)));
            }
            if i == 2 {
                assert(children(e)[i] == *a3);
                lemma_occurs_mid("S"@ + fingerprint(*a0) + fingerprint(*a2), fingerprint(*a3), Seq::<char>::empty());
                assert(fingerprint(e) =~= "S"@ + fingerprint(*a0) + fingerprint(*a2) + fingerprint(*a3) + (Seq::<char>::empty()));
            }
            assert(occurs_in(fingerprint(children(e)[i]), fingerprint(e)));
        },
        ExprV::If(a0, a1, a2) => {
            reveal_strlit("?");
            if i == 0 {
                assert(children(e)[i] == *a0);
                lemma_occurs_mid("?"@, fingerprint(*a0), fingerprint(*a1) + fingerprint(*a2));
                assert(fingerprint(e) =~= "?"@ + fingerprint(*a0) + (fingerprint(*a1) + fingerprint(*a2)));
            }
            if i == 1 {
                assert(children(e)[i] == *a1);
                lemma_occurs_mid("?"@ + fingerprint(*a0), fingerprint(*a1), fingerprint(*a2));
                assert(fingerprint(e) =~= "?"@ + fingerprint(*a0) + fingerprint(*a1) + (fingerprint(*a2)));
            }
            if i == 2 {
                assert(children(e)[i] == *a2);
                lemma_occurs_mid("?"@ + fingerprint(*a0) + fingerprint(*a1), fingerprint(*a2), Seq::<char>::empty());
                assert(fingerprint(e) =~= "?"@ + fingerprint(*a0) + fingerprint(*a1) + fingerprint(*a2) + (Seq::<char>::empty()));
            }
            assert(occurs_in(fingerprint(children(e)[i]), fingerprint(e)));
        },
        ExprV::Let(a0, a1, a2) => {
            reveal_strlit("L");
            if i == 0 {
                assert(children(e)[i] == *a1);
                lemma_occurs_mid("L"@, fingerprint(*a1), fingerprint(*a2));
                assert(fingerprint(e) =~= "L"@ + fingerprint(*a1) + (fingerprint(*a2)));
            }
            if i == 1 {
                assert(children(e)[i] == *a2);
                lemma_occurs_mid("L"@ + fingerprint(*a1), fingerprint(*a2), Seq::<char>::empty());
                assert(fingerprint(e) =~= "L"@ + fingerprint(*a1) + fingerprint(*a2) + (Seq::<char>::empty()));
            }
            assert(occurs_in(fingerprint(children(e)[i]), fingerprint(e)));
        },
        ExprV::Sequence(a0, a1) => {
            reveal_strlit(".");
            if i == 0 {
                assert(children(e)[i] == *a0);
                lemma_occurs_mid("."@, fingerprint(*a0), fingerprint(*a1));
                assert(fingerprint(e) =~= "."@ + fingerprint(*a0) + (fingerprint(*a1)));
            }
            if i == 1 {
                assert(children(e)[i] == *a1);
                lemma_occurs_mid("."@ + fingerprint(*a0), fingerprint(*a1), Seq::<char>::empty());
                assert(fingerprint(e) =~= "."@ + fingerprint(*a0) + fingerprint(*a1) + (Seq::<char>::empty()));
            }
            assert(occurs_in(fingerprint(children(e)[i]), fingerprint(e)));
        },
        ExprV::Pack(a0) => {
            reveal_strlit("jp");
            if i == 0 {
                assert(children(e)[i] == *a0);
                lemma_occurs_mid("jp"@, fingerprint(*a0), Seq::<char>::empty());
                assert(fingerprint(e) =~= "jp"@ + fingerprint(*a0) + (Seq::<char>::empty()));
            }
            assert(occurs_in(fingerprint(children(e)[i]), fingerprint(e)));
        },
        ExprV::Unpack(a0, a1) => {
            reveal_strlit("ju");
            if i == 0 {
                assert(children(e)[i] == *a0);
                lemma_occurs_mid("ju"@, fingerprint(*a0), Seq::<char>::empty());
                assert(fingerprint(e) =~= "ju"@ + fingerprint(*a0) + (Seq::<char>::empty()));
            }
            assert(occurs_in(fingerprint(children(e)[i]), fingerprint(e)));
        },
        ExprV::MapField(a0, a1, a2) => {
            reveal_strlit("map");
            if i == 0 {
                assert(children(e)[i] == *a0);
                lemma_occurs_mid("map"@, fingerprint(*a0), fingerprint(*a2));
                assert(fingerprint(e) =~= "map"@ + fingerprint(*a0) + (fingerprint(*a2)));
            }
            if i == 1 {
                assert(children(e)[i] == *a2);
                lemma_occurs_mid("map"@ + fingerprint(*a0), fingerprint(*a2), Seq::<char>::empty());
                assert(fingerprint(e) =~= "map"@ + fingerprint(*a0) + fingerprint(*a2) + (Seq::<char>::empty()));
            }
            assert(occurs_in(fingerprint(children(e)[i]), fingerprint(e)));
        },
        ExprV::Filter(a0, a1) => {
            reveal_strlit("flt");
            if i == 0 {
                assert(children(e)[i] == *a0);
                lemma_occurs_mid("flt"@, fingerprint(*a0), fingerprint(*a1));
                assert(fingerprint(e) =~= "flt"@ + fingerprint(*a0) + (fingerprint(*a1)));
            }
            if i == 1 {
                assert(children(e)[i] == *a1);
                lemma_occurs_mid("flt"@ + fingerprint(*a0), fingerprint(*a1), Seq::<char>::empty());
                assert(fingerprint(e) =~= "flt"@ + fingerprint(*a0) + fingerprint(*a1) + (Seq::<char>::empty()));
            }
            assert(occurs_in(fingerprint(children(e)[i]), fingerprint(e)));
        },
        ExprV::HttpClient(a0, a1, a2) => {
            reveal_strlit("http");
            if i == 0 {
                assert(children(e)[i] == *a0);
                lemma_occurs_mid("http"@, fingerprint(*a0), fingerprint(*a1) + fingerprint(*a2));
                assert(fingerprint(e) =~= "http"@ + fingerprint(*a0) + (fingerprint(*a1) + fingerprint(*a2)));
            }
            if i == 1 {
                assert(children(e)[i] == *a1);
                lemma_occurs_mid("http"@ + fingerprint(*a0), fingerprint(*a1), fingerprint(*a2));
                assert(fingerprint(e) =~= "http"@ + fingerprint(*a0) + fingerprint(*a1) + (fingerprint(*a2)));
            }
            if i == 2 {
                assert(children(e)[i] == *a2);
                lemma_occurs_mid("http"@ + fingerprint(*a0) + fingerprint(*a1), fingerprint(*a2), Seq::<char>::empty());
                assert(fingerprint(e) =~= "http"@ + fingerprint(*a0) + fingerprint(*a1) + fingerprint(*a2) + (Seq::<char>::empty()));
            }
            assert(occurs_in(fingerprint(children(e)[i]), fingerprint(e)));
        },
        ExprV::HttpServer(a0, a1) => {
            reveal_strlit("srv");
            if i == 0 {
                assert(children(e)[i] == *a0);
                lemma_occurs_mid("srv"@, fingerprint(*a0), fingerprint(*a1));
                assert(fingerprint(e) =~= "srv"@ + fingerprint(*a0) + (fingerprint(*a1)));
            }
            if i == 1 {
                assert(children(e)[i] == *a1);
                lemma_occurs_mid("srv"@ + fingerprint(*a0), fingerprint(*a1), Seq::<char>::empty());
                assert(fingerprint(e) =~= "srv"@ + fingerprint(*a0) + fingerprint(*a1) + (Seq::<char>::empty()));
            }
            assert(occurs_in(fingerprint(children(e)[i]), fingerprint(e)));
        },
        ExprV::HttpHeader(a0, a1) => {
            reveal_strlit("hdr");
            if i == 0 {
                assert(children(e)[i] == *a0);
                lemma_occurs_mid("hdr"@, fingerprint(*a0), fingerprint(*a1));
                assert(fingerprint(e) =~= "hdr"@ + fingerprint(*a0) + (fingerprint(*a1)));
            }
            if i == 1 {
                assert(children(e)[i] == *a1);
                lemma_occurs_mid("hdr"@ + fingerprint(*a0), fingerprint(*a1), Seq::<char>::empty());
                assert(fingerprint(e) =~= "hdr"@ + fingerprint(*a0) + fingerprint(*a1) + (Seq::<char>::empty()));
            }
            assert(occurs_in(fingerprint(children(e)[i]), fingerprint(e)));
        },
        _ => {},
    }
}

/// Fingerprints find similar functions whatever their names: two
/// definitions with the same body and as many parameters get the same
/// fingerprint, whatever the definitions' names, their parameters' names and
/// whether they are exported.
pub proof fn lemma_fingerprint_ignores_names(
    n1: Seq<char>,
    ps1: Seq<ParamV>,
    x1: bool,
    n2: Seq<char>,
    ps2: Seq<ParamV>,
    x2: bool,
    body: ExprV,
)
    requires
        ps1.len() == ps2.len(),
    ensures
        fingerprint(ExprV::Define(n1, ps1, Box::new(body), x1))
            == fingerprint(ExprV::Define(n2, ps2, Box::new(body), x2)),
{
    assert(Seq::new(ps1.len(), |i: int| 'p') =~= Seq::new(ps2.len(), |i: int| 'p'));
}

/// Dead-code elimination keeps everything live: the names of `main`, of the
/// exported definitions and of the exported shapes are reachable, and every
/// name that a visited definition refers to is reachable too, so pruning
/// never removes a definition that something kept calls.
pub proof fn lemma_reachable_closed(es: Seq<ExprV>)
    ensures
        root_names(es, es.len() as int).subset_of(reachable_names(es)),
        calls_from(es, es.len() as int, reachable_names(es), last_root(es, es.len() as int)).subset_of(
            reachable_names(es),
        ),
{
    let n = es.len() as int;
    let last = last_root(es, n);
    lemma_rounds_grow(es, 0, (n + 1) as nat);
    let j = lemma_find_stable(es, n as nat);
    lemma_visited_mono(es, n, reach_rounds(es, (n + 1) as nat), reach_rounds(es, (n + 1) as nat), last);
    assert(j <= n && reach_rounds(es, j + 2) == reach_rounds(es, j + 1));
    lemma_rounds_stable(es, j + 1, (n + 1) as nat);
    lemma_rounds_stable(es, j + 1, (n + 2) as nat);
    assert(reach_rounds(es, (n + 2) as nat) == reach_rounds(es, (n + 1) as nat) + calls_from(
        es,
        n,
        reach_rounds(es, (n + 1) as nat),
        last,
    ));
}

/// The set of names a list holds.
pub open spec fn name_set(v: Seq<String>) -> Set<Seq<char>> {
    view_strings(v).to_set()
}

/// Whether a list of names holds `x`.
pub(crate) fn has_name(v: &Vec<String>, x: &str) -> (r: bool)
    ensures
        r == name_set(v@).contains(x@),
{
    let ghost vv = view_strings(v@);
    let mut i: usize = 0;
    while i < v.len()
        invariant
            i <= v@.len(),
            vv == view_strings(v@),
            forall|j: int| 0 <= j < i ==> vv[j] != x@,
        decreases v@.len() - i,
    {
        if str_eq(v[i].as_str(), x) {
            proof {
                assert(vv[i as int] == x@);
                assert(vv.contains(x@));
            }
            return true;
        }
        i = i + 1;
    }
    proof {
        assert(!vv.contains(x@));
    }
    false
}

/// Adds a name to a list unless it is there; says whether it was added.
fn add_name(v: &mut Vec<String>, x: &str) -> (added: bool)
    ensures
        name_set(final(v)@) == name_set(old(v)@).insert(x@),
        added == !name_set(old(v)@).contains(x@),
{
    if has_name(v, x) {
        proof {
            assert(name_set(v@).insert(x@) =~= name_set(v@));
        }
        false
    } else {
        let ghost old_v = v@;
        let s = string_of(x);
        v.push(s);
        proof {
            assert(v@ == old_v.push(s));
            assert(view_strings(v@) =~= view_strings(old_v).push(x@)) by {
                assert forall|k: int| 0 <= k < v@.len() implies #[trigger] view_strings(v@)[k]
                    == view_strings(old_v).push(x@)[k] by {
                    if k < old_v.len() {
                        assert(v@[k] == old_v[k]);
                    } else {
                        assert(v@[k] == s);
                    }
                }
            }
            view_strings(old_v).lemma_push_to_set_commute(x@);
            assert(name_set(v@) =~= name_set(old_v).insert(x@));
        }
        true
    }
}

/// Adds every name of `calls`; says whether any was new.
fn add_names(v: &mut Vec<String>, calls: &Vec<String>) -> (added: bool)
    ensures
        name_set(final(v)@) == name_set(old(v)@) + name_set(calls@),
        added == !(name_set(calls@).subset_of(name_set(old(v)@))),
{
    let ghost start = name_set(v@);
    let ghost cv = view_strings(calls@);
    let mut added = false;
    let mut i: usize = 0;
    while i < calls.len()
        invariant
            i <= calls@.len(),
            cv == view_strings(calls@),
            name_set(v@) == start + cv.take(i as int).to_set(),
            added == !(cv.take(i as int).to_set().subset_of(start)),
        decreases calls@.len() - i,
    {
        let a = add_name(v, calls[i].as_str());
        proof {
            assert(calls[i as int]@ == cv[i as int]);
            assert(cv.take(i + 1) =~= cv.take(i as int).push(cv[i as int]));
            cv.take(i as int).lemma_push_to_set_commute(cv[i as int]);
            assert(cv.take(i + 1).to_set() =~= cv.take(i as int).to_set().insert(cv[i as int]));
            assert(name_set(v@) =~= start + cv.take(i + 1).to_set());
        }
        added = added || a;
        i = i + 1;
    }
    proof {
        assert(cv.take(calls@.len() as int) =~= cv);
    }
    added
}

/// Removes the definitions, imports and shapes that nothing reachable from
/// `main` and the exported items uses (see `pruned`).
pub fn prune_dead_code(expressions: Vec<Expr>) -> (r: Vec<Expr>)
    ensures
        view_exprs(r@) == pruned(view_exprs(expressions@)),
{
    let ghost es = view_exprs(expressions@);
    let n = expressions.len();
    proof {
        lemma_view_exprs(expressions@);
    }
    let mut reach: Vec<String> = Vec::new();
    let mut last: Option<String> = None;
    let mut i: usize = 0;
    proof {
        assert(name_set(reach@) =~= Set::<Seq<char>>::empty());
    }
    while i < n
        invariant
            n == expressions@.len(),
            es == view_exprs(expressions@),
            es.len() == n,
            forall|k: int| 0 <= k < n ==> #[trigger] es[k] == expressions@[k]@,
            i <= n,
            name_set(reach@) == root_names(es, i as int),
            match (last, last_root(es, i as int)) {
                (Some(a), Some(b)) => a@ == b,
                (None, None) => true,
                _ => false,
            },
        decreases n - i,
    {
        match &expressions[i] {
            Expr::Define(name, _, _, exported) => {
                if str_eq(name.as_str(), "main") || *exported {
                    add_name(&mut reach, name.as_str());
                    last = Some(copy_string(name));
                }
            },
            Expr::Shape(name, _, exported) => {
                if *exported {
                    add_name(&mut reach, name.as_str());
                }
            },
            _ => {},
        }
        i = i + 1;
    }
    let ghost lastv = last_root(es, n as int);
    let mut left: usize = n;
    let ghost mut rd: nat = 0;
    loop
        invariant_except_break
            left <= n,
            rd + left == n,
            name_set(reach@) == reach_rounds(es, rd),
        invariant
            n == expressions@.len(),
            es == view_exprs(expressions@),
            es.len() == n,
            forall|k: int| 0 <= k < n ==> #[trigger] es[k] == expressions@[k]@,
            lastv == last_root(es, n as int),
            match (last, lastv) {
                (Some(a), Some(b)) => a@ == b,
                (None, None) => true,
                _ => false,
            },
        ensures
            name_set(reach@) == reachable_names(es),
        decreases left,
    {
        let snapshot = crate::compiler::ast::copy_strings(&reach);
        let ghost snap = name_set(snapshot@);
        proof {
            assert(snap == name_set(reach@)) by {
                assert(view_strings(snapshot@) == view_strings(reach@));
            }
        }
        let mut changed = false;
        let mut j: usize = 0;
        proof {
            assert(name_set(reach@) =~= snap + calls_from(es, 0, snap, lastv));
        }
        while j < n
            invariant
                n == expressions@.len(),
                es == view_exprs(expressions@),
                forall|k: int| 0 <= k < n ==> #[trigger] es[k] == expressions@[k]@,
                j <= n,
                snap == name_set(snapshot@),
                match (last, lastv) {
                    (Some(a), Some(b)) => a@ == b,
                    (None, None) => true,
                    _ => false,
                },
                name_set(reach@) == snap + calls_from(es, j as int, snap, lastv),
                changed == !(calls_from(es, j as int, snap, lastv).subset_of(snap)),
            decreases n - j,
        {
            let e = &expressions[j];
            let visit = match e {
                Expr::Define(name, _, _, exported) => {
                    if str_eq(name.as_str(), "main") || *exported {
                        true
                    } else if has_name(&snapshot, name.as_str()) {
                        match &last {
                            Some(l) => !string_eq(l, name),
                            None => true,
                        }
                    } else {
                        false
                    }
                },
                _ => false,
            };
            assert(visit == visited_define(es[j as int], snap, lastv));
            if visit {
                let calls = e.get_calls();
                let a = add_names(&mut reach, &calls);
                proof {
                    assert(name_set(calls@) == calls_of(es[j as int]).to_set());
                    assert(name_set(reach@) =~= snap + calls_from(es, j + 1, snap, lastv));
                }
                changed = changed || a;
            }
            proof {
                assert(calls_from(es, j + 1, snap, lastv) == if visited_define(es[j as int], snap, lastv) {
                    calls_from(es, j as int, snap, lastv) + calls_of(es[j as int]).to_set()
                } else {
                    calls_from(es, j as int, snap, lastv)
                });
            }
            j = j + 1;
        }
        proof {
            assert(reach_rounds(es, rd + 1) == snap + calls_from(es, n as int, snap, lastv));
        }
        if !changed {
            proof {
                assert(name_set(reach@) =~= snap);
                lemma_rounds_stable(es, rd, (n + 1) as nat);
            }
            break;
        }
        if left == 0 {
            break;
        }
        left = left - 1;
        proof {
            rd = rd + 1;
        }
    }
    let ghost reachv = reachable_names(es);
    let mut out: Vec<Expr> = Vec::new();
    let mut k: usize = 0;
    proof {
        assert(view_exprs(out@) =~= Seq::<ExprV>::empty());
    }
    while k < n
        invariant
            n == expressions@.len(),
            es == view_exprs(expressions@),
            forall|q: int| 0 <= q < n ==> #[trigger] es[q] == expressions@[q]@,
            k <= n,
            name_set(reach@) == reachv,
            view_exprs(out@) == kept_upto(es, reachv, k as int),
        decreases n - k,
    {
        let e = &expressions[k];
        let keep = match e {
            Expr::Define(name, _, _, _) => has_name(&reach, name.as_str()),
            Expr::Import(_, symbol, _) => has_name(&reach, symbol.as_str()),
            Expr::Shape(name, _, exported) => *exported || has_name(&reach, name.as_str()),
            _ => true,
        };
        assert(keep == kept(es[k as int], reachv));
        if keep {
            let c = e.deep_copy();
            let ghost old_out = out@;
            out.push(c);
            proof {
                crate::compiler::ast::lemma_view_exprs_push(old_out, c);
            }
        }
        k = k + 1;
    }
    out
}

} // verus!
