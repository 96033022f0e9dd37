//! Printing expressions back as source text that parses to the same
//! expression.

use vstd::prelude::*;
use crate::compiler::ast::{Expr, ExprV, Param, ParamV, view_exprs, view_params, view_strings, lemma_view_exprs};
use crate::compiler::lexer::{Token, TokenV};
use crate::text::{int_decimal, nat_decimal, push_char, push_i64, push_str, push_u64};

verus! {

/// An expression to print, at an indentation depth (four spaces per level).
pub struct PrettyExpr<'a> {
    pub expr: &'a Expr,
    pub depth: usize,
}

/// The source text of an operator token (`???` for a token that is not one).
pub open spec fn token_text(t: TokenV) -> Seq<char> {
    match t {
        TokenV::Add => "+"@,
        TokenV::Sub => "-"@,
        TokenV::Mul => "*"@,
        TokenV::Div => "/"@,
        TokenV::Eq => "="@,
        TokenV::Lt => "<"@,
        TokenV::Gt => "gt"@,
        TokenV::BitAnd => "&"@,
        TokenV::BitOr => "|"@,
        TokenV::BitXor => "xor"@,
        _ => "???"@,
    }
}

/// The source text of an operator token.
pub fn format_token(token: &Token) -> (r: &'static str)
    ensures
        r@ == token_text(token@),
{
    match token {
        Token::Add => "+",
        Token::Sub => "-",
        Token::Mul => "*",
        Token::Div => "/",
        Token::Eq => "=",
        Token::Lt => "<",
        Token::Gt => "gt",
        Token::BitAnd => "&",
        Token::BitOr => "|",
        Token::BitXor => "xor",
        _ => "???",
    }
}

/// How a character is written inside a string literal.
pub open spec fn escape_char(c: char) -> Seq<char> {
    if c == '\\' {
        seq!['\\', '\\']
    } else if c == '"' {
        seq!['\\', '"']
    } else if c == '\n' {
        seq!['\\', 'n']
    } else if c == '\t' {
        seq!['\\', 't']
    } else if c == '\r' {
        seq!['\\', 'r']
    } else {
        seq![c]
    }
}

/// A text written as the inside of a string literal.
pub open spec fn escaped(s: Seq<char>) -> Seq<char>
    decreases s.len(),
{
    if s.len() == 0 {
        Seq::empty()
    } else {
        escaped(s.drop_last()) + escape_char(s.last())
    }
}

/// Appends the escaped form of `s`.
fn write_escaped(out: &mut String, s: &str)
    ensures
        final(out)@ == old(out)@ + escaped(s@),
{
    let ghost start = out@;
    let chars = crate::text::chars_of(s);
    let mut i: usize = 0;
    while i < chars.len()
        invariant
            i <= chars@.len(),
            chars@ == s@,
            out@ == start + escaped(s@.take(i as int)),
        decreases chars@.len() - i,
    {
        let c = chars[i];
        let ghost before = out@;
        if c == '\\' {
            push_char(out, '\\');
            push_char(out, '\\');
        } else if c == '"' {
            push_char(out, '\\');
            push_char(out, '"');
        } else if c == '\n' {
            push_char(out, '\\');
            push_char(out, 'n');
        } else if c == '\t' {
            push_char(out, '\\');
            push_char(out, 't');
        } else if c == '\r' {
            push_char(out, '\\');
            push_char(out, 'r');
        } else {
            push_char(out, c);
        }
        proof {
            assert(s@.take(i + 1).drop_last() =~= s@.take(i as int));
            assert(s@.take(i + 1).last() == c);
            assert(out@ =~= before + escape_char(c));
        }
        i = i + 1;
    }
    proof {
        assert(s@.take(s@.len() as int) =~= s@);
    }
}

/// A string written as the inside of a string literal: backslash, double
/// quote, newline, tab and carriage return are escaped.
pub fn escape_string(s: &str) -> (r: String)
    ensures
        r@ == escaped(s@),
{
    let mut out = String::new();
    write_escaped(&mut out, s);
    out
}

/// Four spaces per level.
pub open spec fn indent(d: nat) -> Seq<char>
    decreases d,
{
    if d == 0 {
        Seq::empty()
    } else {
        indent((d - 1) as nat) + seq![' ', ' ', ' ', ' ']
    }
}

fn write_indent(out: &mut String, depth: usize)
    ensures
        final(out)@ == old(out)@ + indent(depth as nat),
{
    let ghost start = out@;
    let mut i: usize = 0;
    while i < depth
        invariant
            i <= depth,
            out@ == start + indent(i as nat),
        decreases depth - i,
    {
        push_char(out, ' ');
        push_char(out, ' ');
        push_char(out, ' ');
        push_char(out, ' ');
        proof {
            assert(out@ =~= start + indent((i + 1) as nat));
        }
        i = i + 1;
    }
}

/// The parameters of a definition: ` name` each, with a backtick after a
/// template parameter.
pub open spec fn params_text(ps: Seq<ParamV>) -> Seq<char>
    decreases ps.len(),
{
    if ps.len() == 0 {
        Seq::empty()
    } else {
        params_text(ps.drop_last()) + seq![' '] + ps.last().name + if ps.last().expand {
            seq!['`']
        } else {
            Seq::empty()
        }
    }
}

fn write_params(out: &mut String, ps: &Vec<Param>)
    ensures
        final(out)@ == old(out)@ + params_text(view_params(ps@)),
{
    let ghost start = out@;
    let ghost pv = view_params(ps@);
    let mut i: usize = 0;
    while i < ps.len()
        invariant
            i <= ps@.len(),
            pv == view_params(ps@),
            out@ == start + params_text(pv.take(i as int)),
        decreases ps@.len() - i,
    {
        let ghost before = out@;
        push_char(out, ' ');
        push_str(out, ps[i].name.as_str());
        if ps[i].expand {
            push_char(out, '`');
        }
        proof {
            assert(pv.take(i + 1).drop_last() =~= pv.take(i as int));
            assert(pv.take(i + 1).last() == ps@[i as int]@);
            assert(out@ =~= before + seq![' '] + ps@[i as int].name@ + if ps@[i as int].expand {
                seq!['`']
            } else {
                Seq::empty()
            });
        }
        i = i + 1;
    }
    proof {
        assert(pv.take(ps@.len() as int) =~= pv);
    }
}

/// The fields of a shape: ` name` each.
pub open spec fn fields_text(fs: Seq<Seq<char>>) -> Seq<char>
    decreases fs.len(),
{
    if fs.len() == 0 {
        Seq::empty()
    } else {
        fields_text(fs.drop_last()) + seq![' '] + fs.last()
    }
}

fn write_fields(out: &mut String, fs: &Vec<String>)
    ensures
        final(out)@ == old(out)@ + fields_text(view_strings(fs@)),
{
    let ghost start = out@;
    let ghost fv = view_strings(fs@);
    let mut i: usize = 0;
    while i < fs.len()
        invariant
            i <= fs@.len(),
            fv == view_strings(fs@),
            out@ == start + fields_text(fv.take(i as int)),
        decreases fs@.len() - i,
    {
        let ghost before = out@;
        push_char(out, ' ');
        push_str(out, fs[i].as_str());
        proof {
            assert(fv.take(i + 1).drop_last() =~= fv.take(i as int));
            assert(fv.take(i + 1).last() == fs@[i as int]@);
            assert(out@ =~= before + seq![' '] + fs@[i as int]@);
        }
        i = i + 1;
    }
    proof {
        assert(fv.take(fs@.len() as int) =~= fv);
    }
}

pub open spec fn max_nat(a: nat, b: nat) -> nat {
    if a >= b {
        a
    } else {
        b
    }
}

/// How many levels of indentation printing an expression adds: one for the
/// body of a definition and for the branches of a conditional.
pub open spec fn nesting(e: ExprV) -> nat
    decreases e, 0nat,
{
    match e {
        ExprV::Integer(a0) => 0,
        ExprV::Float(a0) => 0,
        ExprV::DeBruijn(a0) => 0,
        ExprV::Identifier(a0) => 0,
        ExprV::BinaryOp(a0, a1, a2) => max_nat(nesting(*a1), nesting(*a2)),
        ExprV::Apply(a0, a1) => max_nat(nesting(*a0), nesting_list(a1)),
        ExprV::Move(a0) => nesting(*a0),
        ExprV::Borrow(a0) => nesting(*a0),
        ExprV::MutBorrow(a0) => nesting(*a0),
        ExprV::Define(a0, a1, a2, a3) => 1 + nesting(*a2),
        ExprV::Shape(a0, a1, a2) => 0,
        ExprV::New(a0, a1) => nesting(*a1),
        ExprV::Get(a0, a1, a2) => max_nat(nesting(*a0), nesting(*a2)),
        ExprV::SetField(a0, a1, a2, a3) => max_nat(max_nat(nesting(*a0), nesting(*a2)), nesting(*a3)),
        ExprV::If(a0, a1, a2) => max_nat(max_nat(nesting(*a0), 1 + nesting(*a1)), 1 + nesting(*a2)),
        ExprV::Expand(a0) => 0,
        ExprV::Let(a0, a1, a2) => max_nat(nesting(*a1), nesting(*a2)),
        ExprV::Import(a0, a1, a2) => 0,
        ExprV::String(a0) => 0,
        ExprV::Len(a0) => nesting(*a0),
        ExprV::Cat(a0, a1) => max_nat(nesting(*a0), nesting(*a1)),
        ExprV::Sub(a0, a1, a2) => max_nat(max_nat(nesting(*a0), nesting(*a1)), nesting(*a2)),
        ExprV::Loc(a0, a1) => max_nat(nesting(*a0), nesting(*a1)),
        ExprV::Reg(a0, a1) => max_nat(nesting(*a0), nesting(*a1)),
        ExprV::Read(a0) => nesting(*a0),
        ExprV::Write(a0, a1) => max_nat(nesting(*a0), nesting(*a1)),
        ExprV::Str(a0) => nesting(*a0),
        ExprV::Split(a0, a1, a2) => max_nat(max_nat(nesting(*a0), nesting(*a1)), nesting(*a2)),
        ExprV::TimeNow => 0,
        ExprV::TimeNano => 0,
        ExprV::TimeGet(a0, a1) => max_nat(nesting(*a0), nesting(*a1)),
        ExprV::TimeSet(a0, a1, a2, a3, a4, a5) => max_nat(max_nat(max_nat(max_nat(max_nat(nesting(*a0), nesting(*a1)), nesting(*a2)), nesting(*a3)), nesting(*a4)), nesting(*a5)),
        ExprV::Env(a0) => nesting(*a0),
        ExprV::Sequence(a0, a1) => max_nat(nesting(*a0), nesting(*a1)),
        ExprV::Pack(a0) => nesting(*a0),
        ExprV::Unpack(a0, a1) => nesting(*a0),
        ExprV::Metadata(a0, a1, a2) => max_nat(max_nat(nesting(*a0), nesting(*a1)), nesting(*a2)),
        ExprV::OtelEmit(a0, a1, a2, a3) => max_nat(max_nat(max_nat(nesting(*a0), nesting(*a1)), nesting(*a2)), nesting(*a3)),
        ExprV::MapField(a0, a1, a2) => max_nat(nesting(*a0), nesting(*a2)),
        ExprV::Filter(a0, a1) => max_nat(nesting(*a0), nesting(*a1)),
        ExprV::MoneyOp(a0, a1, a2) => max_nat(nesting(*a1), nesting(*a2)),
        ExprV::MoneyStr(a0) => nesting(*a0),
        ExprV::TimeOp(a0, a1, a2) => max_nat(nesting(*a1), nesting(*a2)),
        ExprV::TimeZone => 0,
        ExprV::Panic(a0) => nesting(*a0),
        ExprV::Trap(a0, a1) => max_nat(nesting(*a0), nesting(*a1)),
        ExprV::HttpClient(a0, a1, a2) => max_nat(max_nat(nesting(*a0), nesting(*a1)), nesting(*a2)),
        ExprV::HttpServer(a0, a1) => max_nat(nesting(*a0), nesting(*a1)),
        ExprV::HttpHeader(a0, a1) => max_nat(nesting(*a0), nesting(*a1)),
        ExprV::FileOpen(a0, a1) => max_nat(nesting(*a0), nesting(*a1)),
    }
}

/// The deepest nesting among a list of expressions.
pub open spec fn nesting_list(es: Seq<ExprV>) -> nat
    decreases es, 0nat,
{
    if es.len() == 0 {
        0
    } else {
        max_nat(nesting(es[0]), nesting_list(es.subrange(1, es.len() as int)))
    }
}

/// The source text of an expression printed at depth `d`.
pub open spec fn pretty(e: ExprV, d: nat) -> Seq<char>
    decreases e, 0nat,
{
    match e {
        ExprV::Integer(a0) => int_decimal(a0 as int),
        ExprV::Float(a0) => a0,
        ExprV::DeBruijn(a0) => "^"@ + nat_decimal(a0 as nat),
        ExprV::Identifier(a0) => a0,
        ExprV::BinaryOp(a0, a1, a2) => token_text(a0) + " "@ + pretty(*a1, d) + " "@ + pretty(*a2, d),
        ExprV::Apply(a0, a1) => "@"@ + nat_decimal(a1.len()) + " "@ + pretty(*a0, d) + pretty_list(a1, d),
        ExprV::Move(a0) => "> "@ + pretty(*a0, d),
        ExprV::Borrow(a0) => "$ "@ + pretty(*a0, d),
        ExprV::MutBorrow(a0) => "~ "@ + pretty(*a0, d),
        ExprV::Define(a0, a1, a2, a3) => (if a3 { "X "@ } else { Seq::empty() }) + ": "@ + a0 + params_text(a1) + "\n    "@ + indent(d) + pretty(*a2, d + 1),
        ExprV::Shape(a0, a1, a2) => (if a2 { "X "@ } else { Seq::empty() }) + "# "@ + a0 + fields_text(a1),
        ExprV::New(a0, a1) => "N "@ + a0 + " "@ + pretty(*a1, d),
        ExprV::Get(a0, a1, a2) => "G "@ + pretty(*a0, d) + " "@ + a1 + " "@ + pretty(*a2, d),
        ExprV::SetField(a0, a1, a2, a3) => "S "@ + pretty(*a0, d) + " "@ + a1 + " "@ + pretty(*a2, d) + " "@ + pretty(*a3, d),
        ExprV::If(a0, a1, a2) => "? "@ + pretty(*a0, d) + "\n    "@ + indent(d) + pretty(*a1, d + 1) + "\n    "@ + indent(d) + pretty(*a2, d + 1),
        ExprV::Expand(a0) => "`"@ + a0,
        ExprV::Let(a0, a1, a2) => "L "@ + a0 + " "@ + pretty(*a1, d) + "\n"@ + indent(d) + pretty(*a2, d),
        ExprV::Import(a0, a1, a2) => "I "@ + a0 + " "@ + a1,
        ExprV::String(a0) => "\""@ + escaped(a0) + "\""@,
        ExprV::Len(a0) => "sl "@ + pretty(*a0, d),
        ExprV::Cat(a0, a1) => "sc "@ + pretty(*a0, d) + " "@ + pretty(*a1, d),
        ExprV::Sub(a0, a1, a2) => "ss "@ + pretty(*a0, d) + " "@ + pretty(*a1, d) + " "@ + pretty(*a2, d),
        ExprV::Loc(a0, a1) => "sf "@ + pretty(*a0, d) + " "@ + pretty(*a1, d),
        ExprV::Reg(a0, a1) => "sr "@ + pretty(*a0, d) + " "@ + pretty(*a1, d),
        ExprV::Read(a0) => "( "@ + pretty(*a0, d),
        ExprV::Write(a0, a1) => ") "@ + pretty(*a0, d) + " "@ + pretty(*a1, d),
        ExprV::Str(a0) => "str "@ + pretty(*a0, d),
        ExprV::Split(a0, a1, a2) => "sp "@ + pretty(*a0, d) + " "@ + pretty(*a1, d) + " "@ + pretty(*a2, d),
        ExprV::TimeNow => "tn"@,
        ExprV::TimeNano => "tns"@,
        ExprV::TimeGet(a0, a1) => "tg "@ + pretty(*a0, d) + " "@ + pretty(*a1, d),
        ExprV::TimeSet(a0, a1, a2, a3, a4, a5) => "ts "@ + pretty(*a0, d) + " "@ + pretty(*a1, d) + " "@ + pretty(*a2, d) + " "@ + pretty(*a3, d) + " "@ + pretty(*a4, d) + " "@ + pretty(*a5, d),
        ExprV::Env(a0) => "env "@ + pretty(*a0, d),
        ExprV::Sequence(a0, a1) => ". "@ + pretty(*a0, d) + "\n"@ + indent(d) + pretty(*a1, d),
        ExprV::Pack(a0) => "jp "@ + pretty(*a0, d),
        ExprV::Unpack(a0, a1) => "ju "@ + pretty(*a0, d) + " \""@ + a1 + "\""@,
        ExprV::Metadata(a0, a1, a2) => "M "@ + pretty(*a0, d) + " "@ + pretty(*a1, d) + " "@ + pretty(*a2, d),
        ExprV::OtelEmit(a0, a1, a2, a3) => "oe "@ + pretty(*a0, d) + " "@ + pretty(*a1, d) + " "@ + pretty(*a2, d) + " "@ + pretty(*a3, d),
        ExprV::MapField(a0, a1, a2) => "map "@ + pretty(*a0, d) + " \""@ + a1 + "\" "@ + pretty(*a2, d),
        ExprV::Filter(a0, a1) => "flt "@ + pretty(*a0, d) + " "@ + pretty(*a1, d),
        ExprV::MoneyOp(a0, a1, a2) => "% "@ + token_text(a0) + " "@ + pretty(*a1, d) + " "@ + pretty(*a2, d),
        ExprV::MoneyStr(a0) => "% str "@ + pretty(*a0, d),
        ExprV::TimeOp(a0, a1, a2) => "tn "@ + token_text(a0) + " "@ + pretty(*a1, d) + " "@ + pretty(*a2, d),
        ExprV::TimeZone => "tz"@,
        ExprV::Panic(a0) => "! "@ + pretty(*a0, d),
        ExprV::Trap(a0, a1) => "^ "@ + pretty(*a0, d) + " "@ + pretty(*a1, d),
        ExprV::HttpClient(a0, a1, a2) => "http "@ + pretty(*a0, d) + " "@ + pretty(*a1, d) + " "@ + pretty(*a2, d),
        ExprV::HttpServer(a0, a1) => "srv "@ + pretty(*a0, d) + " "@ + pretty(*a1, d),
        ExprV::HttpHeader(a0, a1) => "hdr "@ + pretty(*a0, d) + " "@ + pretty(*a1, d),
        ExprV::FileOpen(a0, a1) => "fo "@ + pretty(*a0, d) + " "@ + pretty(*a1, d),
    }
}

/// The arguments of a call: ` arg` each.
pub open spec fn pretty_list(es: Seq<ExprV>, d: nat) -> Seq<char>
    decreases es, 0nat,
{
    if es.len() == 0 {
        Seq::empty()
    } else {
        seq![' '] + pretty(es[0], d) + pretty_list(es.subrange(1, es.len() as int), d)
    }
}

/// Appends the source text of `expr` printed at `depth`.
fn write_expr(out: &mut String, expr: &Expr, depth: usize)
    requires
        depth + nesting(expr@) <= usize::MAX,
    ensures
        final(out)@ == old(out)@ + pretty(expr@, depth as nat),
    decreases expr, 1nat,
{
    match expr {
        Expr::Integer(..) | Expr::Float(..) | Expr::DeBruijn(..) | Expr::Identifier(..) | Expr::BinaryOp(..) | Expr::Apply(..) | Expr::Move(..) | Expr::Borrow(..) | Expr::MutBorrow(..) | Expr::Define(..) => write_expr_part1(out, expr, depth),
        Expr::Shape(..) | Expr::New(..) | Expr::Get(..) | Expr::SetField(..) | Expr::If(..) | Expr::Expand(..) | Expr::Let(..) | Expr::Import(..) | Expr::String(..) | Expr::Len(..) => write_expr_part2(out, expr, depth),
        Expr::Cat(..) | Expr::Sub(..) | Expr::Loc(..) | Expr::Reg(..) | Expr::Read(..) | Expr::Write(..) | Expr::Str(..) | Expr::Split(..) | Expr::TimeNow | Expr::TimeNano => write_expr_part3(out, expr, depth),
        Expr::TimeGet(..) | Expr::TimeSet(..) | Expr::Env(..) | Expr::Sequence(..) | Expr::Pack(..) | Expr::Unpack(..) | Expr::Metadata(..) | Expr::OtelEmit(..) | Expr::MapField(..) | Expr::Filter(..) => write_expr_part4(out, expr, depth),
        Expr::MoneyOp(..) | Expr::MoneyStr(..) | Expr::TimeOp(..) | Expr::TimeZone | Expr::Panic(..) | Expr::Trap(..) | Expr::HttpClient(..) | Expr::HttpServer(..) | Expr::HttpHeader(..) | Expr::FileOpen(..) => write_expr_part5(out, expr, depth),
    }
}

proof fn lemma_assoc(a: Seq<char>, b: Seq<char>, c: Seq<char>)
    ensures
        (a + b) + c == a + (b + c),
{
    assert((a + b) + c =~= a + (b + c));
}

/// Appends the source text of `expr` printed at `depth`, for Integer, Float, DeBruijn, Identifier, BinaryOp, Apply, Move, Borrow, MutBorrow and Define.
#[verifier::spinoff_prover]
fn write_expr_part1(out: &mut String, expr: &Expr, depth: usize)
    requires
        depth + nesting(expr@) <= usize::MAX,
        expr@ is Integer || expr@ is Float || expr@ is DeBruijn || expr@ is Identifier || expr@ is BinaryOp || expr@ is Apply || expr@ is Move || expr@ is Borrow || expr@ is MutBorrow || expr@ is Define,
    ensures
        final(out)@ == old(out)@ + pretty(expr@, depth as nat),
    decreases expr, 0nat,
{
    let ghost start = out@;
    match expr {
        Expr::Integer(a0) => {
            push_i64(out, *a0);
            assert(out@ == start + (int_decimal(*a0 as int)));
            assert(pretty(expr@, depth as nat) == int_decimal(*a0 as int));
        },
        Expr::Float(a0) => {
            push_str(out, a0.as_str());
            assert(out@ == start + (a0@));
            assert(pretty(expr@, depth as nat) == a0@);
        },
        Expr::DeBruijn(a0) => {
            push_str(out, "^");
            assert(out@ == start + ("^"@));
            push_u64(out, *a0 as u64);
            proof {
                lemma_assoc(start, "^"@, nat_decimal(*a0 as nat));
            }
            assert(out@ == start + ("^"@ + nat_decimal(*a0 as nat)));
            assert(pretty(expr@, depth as nat) == "^"@ + nat_decimal(*a0 as nat));
        },
        Expr::Identifier(a0) => {
            push_str(out, a0.as_str());
            assert(out@ == start + (a0@));
            assert(pretty(expr@, depth as nat) == a0@);
        },
        Expr::BinaryOp(a0, a1, a2) => {
            push_str(out, format_token(a0));
            assert(out@ == start + (token_text(a0@)));
            push_str(out, " ");
            proof {
                lemma_assoc(start, token_text(a0@), " "@);
            }
            assert(out@ == start + (token_text(a0@) + " "@));
            write_expr(out, a1, depth);
            proof {
                lemma_assoc(start, token_text(a0@) + " "@, pretty((**a1)@, depth as nat));
            }
            assert(out@ == start + (token_text(a0@) + " "@ + pretty((**a1)@, depth as nat)));
            push_str(out, " ");
            proof {
                lemma_assoc(start, token_text(a0@) + " "@ + pretty((**a1)@, depth as nat), " "@);
            }
            assert(out@ == start + (token_text(a0@) + " "@ + pretty((**a1)@, depth as nat) + " "@));
            write_expr(out, a2, depth);
            proof {
                lemma_assoc(start, token_text(a0@) + " "@ + pretty((**a1)@, depth as nat) + " "@, pretty((**a2)@, depth as nat));
            }
            assert(out@ == start + (token_text(a0@) + " "@ + pretty((**a1)@, depth as nat) + " "@ + pretty((**a2)@, depth as nat)));
            assert(pretty(expr@, depth as nat) == token_text(a0@) + " "@ + pretty((**a1)@, depth as nat) + " "@ + pretty((**a2)@, depth as nat));
        },
        Expr::Apply(a0, a1) => {
            proof {
                lemma_view_exprs(a1@);
            }
            push_str(out, "@");
            assert(out@ == start + ("@"@));
            push_u64(out, a1.len() as u64);
            proof {
                lemma_assoc(start, "@"@, nat_decimal(a1@.len()));
            }
            assert(out@ == start + ("@"@ + nat_decimal(a1@.len())));
            push_str(out, " ");
            proof {
                lemma_assoc(start, "@"@ + nat_decimal(a1@.len()), " "@);
            }
            assert(out@ == start + ("@"@ + nat_decimal(a1@.len()) + " "@));
            write_expr(out, a0, depth);
            proof {
                lemma_assoc(start, "@"@ + nat_decimal(a1@.len()) + " "@, pretty((**a0)@, depth as nat));
            }
            assert(out@ == start + ("@"@ + nat_decimal(a1@.len()) + " "@ + pretty((**a0)@, depth as nat)));
            write_list(out, a1, depth);
            proof {
                lemma_assoc(start, "@"@ + nat_decimal(a1@.len()) + " "@ + pretty((**a0)@, depth as nat), pretty_list(view_exprs(a1@), depth as nat));
            }
            assert(out@ == start + ("@"@ + nat_decimal(a1@.len()) + " "@ + pretty((**a0)@, depth as nat) + pretty_list(view_exprs(a1@), depth as nat)));
            assert(pretty(expr@, depth as nat) == "@"@ + nat_decimal(a1@.len()) + " "@ + pretty((**a0)@, depth as nat) + pretty_list(view_exprs(a1@), depth as nat));
        },
        Expr::Move(a0) => {
            push_str(out, "> ");
            assert(out@ == start + ("> "@));
            write_expr(out, a0, depth);
            proof {
                lemma_assoc(start, "> "@, pretty((**a0)@, depth as nat));
            }
            assert(out@ == start + ("> "@ + pretty((**a0)@, depth as nat)));
            assert(pretty(expr@, depth as nat) == "> "@ + pretty((**a0)@, depth as nat));
        },
        Expr::Borrow(a0) => {
            push_str(out, "$ ");
            assert(out@ == start + ("$ "@));
            write_expr(out, a0, depth);
            proof {
                lemma_assoc(start, "$ "@, pretty((**a0)@, depth as nat));
            }
            assert(out@ == start + ("$ "@ + pretty((**a0)@, depth as nat)));
            assert(pretty(expr@, depth as nat) == "$ "@ + pretty((**a0)@, depth as nat));
        },
        Expr::MutBorrow(a0) => {
            push_str(out, "~ ");
            assert(out@ == start + ("~ "@));
            write_expr(out, a0, depth);
            proof {
                lemma_assoc(start, "~ "@, pretty((**a0)@, depth as nat));
            }
            assert(out@ == start + ("~ "@ + pretty((**a0)@, depth as nat)));
            assert(pretty(expr@, depth as nat) == "~ "@ + pretty((**a0)@, depth as nat));
        },
        Expr::Define(a0, a1, a2, a3) => {
            if *a3 {
                push_str(out, "X ");
            }
            proof {
                assert(out@ =~= start + (if *a3 { "X "@ } else { Seq::<char>::empty() }));
            }
            push_str(out, ": ");
            proof {
                lemma_assoc(start, (if *a3 { "X "@ } else { Seq::<char>::empty() }), ": "@);
            }
            assert(out@ == start + ((if *a3 { "X "@ } else { Seq::<char>::empty() }) + ": "@));
            push_str(out, a0.as_str());
            proof {
                lemma_assoc(start, (if *a3 { "X "@ } else { Seq::<char>::empty() }) + ": "@, a0@);
            }
            assert(out@ == start + ((if *a3 { "X "@ } else { Seq::<char>::empty() }) + ": "@ + a0@));
            write_params(out, a1);
            proof {
                lemma_assoc(start, (if *a3 { "X "@ } else { Seq::<char>::empty() }) + ": "@ + a0@, params_text(view_params(a1@)));
            }
            assert(out@ == start + ((if *a3 { "X "@ } else { Seq::<char>::empty() }) + ": "@ + a0@ + params_text(view_params(a1@))));
            push_str(out, "\n    ");
            proof {
                lemma_assoc(start, (if *a3 { "X "@ } else { Seq::<char>::empty() }) + ": "@ + a0@ + params_text(view_params(a1@)), "\n    "@);
            }
            assert(out@ == start + ((if *a3 { "X "@ } else { Seq::<char>::empty() }) + ": "@ + a0@ + params_text(view_params(a1@)) + "\n    "@));
            write_indent(out, depth);
            proof {
                lemma_assoc(start, (if *a3 { "X "@ } else { Seq::<char>::empty() }) + ": "@ + a0@ + params_text(view_params(a1@)) + "\n    "@, indent(depth as nat));
            }
            assert(out@ == start + ((if *a3 { "X "@ } else { Seq::<char>::empty() }) + ": "@ + a0@ + params_text(view_params(a1@)) + "\n    "@ + indent(depth as nat)));
            write_expr(out, a2, depth + 1);
            proof {
                lemma_assoc(start, (if *a3 { "X "@ } else { Seq::<char>::empty() }) + ": "@ + a0@ + params_text(view_params(a1@)) + "\n    "@ + indent(depth as nat), pretty((**a2)@, (depth + 1) as nat));
            }
            assert(out@ == start + ((if *a3 { "X "@ } else { Seq::<char>::empty() }) + ": "@ + a0@ + params_text(view_params(a1@)) + "\n    "@ + indent(depth as nat) + pretty((**a2)@, (depth + 1) as nat)));
            assert(pretty(expr@, depth as nat) == (if *a3 { "X "@ } else { Seq::<char>::empty() }) + ": "@ + a0@ + params_text(view_params(a1@)) + "\n    "@ + indent(depth as nat) + pretty((**a2)@, (depth + 1) as nat));
        },
        _ => {
            assert(false);
        },
    }
}

/// Appends the source text of `expr` printed at `depth`, for Shape, New, Get, SetField, If, Expand, Let, Import, String and Len.
#[verifier::spinoff_prover]
fn write_expr_part2(out: &mut String, expr: &Expr, depth: usize)
    requires
        depth + nesting(expr@) <= usize::MAX,
        expr@ is Shape || expr@ is New || expr@ is Get || expr@ is SetField || expr@ is If || expr@ is Expand || expr@ is Let || expr@ is Import || expr@ is String || expr@ is Len,
    ensures
        final(out)@ == old(out)@ + pretty(expr@, depth as nat),
    decreases expr, 0nat,
{
    let ghost start = out@;
    match expr {
        Expr::Shape(a0, a1, a2) => {
            if *a2 {
                push_str(out, "X ");
            }
            proof {
                assert(out@ =~= start + (if *a2 { "X "@ } else { Seq::<char>::empty() }));
            }
            push_str(out, "# ");
            proof {
                lemma_assoc(start, (if *a2 { "X "@ } else { Seq::<char>::empty() }), "# "@);
            }
            assert(out@ == start + ((if *a2 { "X "@ } else { Seq::<char>::empty() }) + "# "@));
            push_str(out, a0.as_str());
            proof {
                lemma_assoc(start, (if *a2 { "X "@ } else { Seq::<char>::empty() }) + "# "@, a0@);
            }
            assert(out@ == start + ((if *a2 { "X "@ } else { Seq::<char>::empty() }) + "# "@ + a0@));
            write_fields(out, a1);
            proof {
                lemma_assoc(start, (if *a2 { "X "@ } else { Seq::<char>::empty() }) + "# "@ + a0@, fields_text(view_strings(a1@)));
            }
            assert(out@ == start + ((if *a2 { "X "@ } else { Seq::<char>::empty() }) + "# "@ + a0@ + fields_text(view_strings(a1@))));
            assert(pretty(expr@, depth as nat) == (if *a2 { "X "@ } else { Seq::<char>::empty() }) + "# "@ + a0@ + fields_text(view_strings(a1@)));
        },
        Expr::New(a0, a1) => {
            push_str(out, "N ");
            assert(out@ == start + ("N "@));
            push_str(out, a0.as_str());
            proof {
                lemma_assoc(start, "N "@, a0@);
            }
            assert(out@ == start + ("N "@ + a0@));
            push_str(out, " ");
            proof {
                lemma_assoc(start, "N "@ + a0@, " "@);
            }
            assert(out@ == start + ("N "@ + a0@ + " "@));
            write_expr(out, a1, depth);
            proof {
                lemma_assoc(start, "N "@ + a0@ + " "@, pretty((**a1)@, depth as nat));
            }
            assert(out@ == start + ("N "@ + a0@ + " "@ + pretty((**a1)@, depth as nat)));
            assert(pretty(expr@, depth as nat) == "N "@ + a0@ + " "@ + pretty((**a1)@, depth as nat));
        },
        Expr::Get(a0, a1, a2) => {
            push_str(out, "G ");
            assert(out@ == start + ("G "@));
            write_expr(out, a0, depth);
            proof {
                lemma_assoc(start, "G "@, pretty((**a0)@, depth as nat));
            }
            assert(out@ == start + ("G "@ + pretty((**a0)@, depth as nat)));
            push_str(out, " ");
            proof {
                lemma_assoc(start, "G "@ + pretty((**a0)@, depth as nat), " "@);
            }
            assert(out@ == start + ("G "@ + pretty((**a0)@, depth as nat) + " "@));
            push_str(out, a1.as_str());
            proof {
                lemma_assoc(start, "G "@ + pretty((**a0)@, depth as nat) + " "@, a1@);
            }
            assert(out@ == start + ("G "@ + pretty((**a0)@, depth as nat) + " "@ + a1@));
            push_str(out, " ");
            proof {
                lemma_assoc(start, "G "@ + pretty((**a0)@, depth as nat) + " "@ + a1@, " "@);
            }
            assert(out@ == start + ("G "@ + pretty((**a0)@, depth as nat) + " "@ + a1@ + " "@));
            write_expr(out, a2, depth);
            proof {
                lemma_assoc(start, "G "@ + pretty((**a0)@, depth as nat) + " "@ + a1@ + " "@, pretty((**a2)@, depth as nat));
            }
            assert(out@ == start + ("G "@ + pretty((**a0)@, depth as nat) + " "@ + a1@ + " "@ + pretty((**a2)@, depth as nat)));
            assert(pretty(expr@, depth as nat) == "G "@ + pretty((**a0)@, depth as nat) + " "@ + a1@ + " "@ + pretty((**a2)@, depth as nat));
        },
        Expr::SetField(a0, a1, a2, a3) => {
            push_str(out, "S ");
            assert(out@ == start + ("S "@));
            write_expr(out, a0, depth);
            proof {
                lemma_assoc(start, "S "@, pretty((**a0)@, depth as nat));
            }
            assert(out@ == start + ("S "@ + pretty((**a0)@, depth as nat)));
            push_str(out, " ");
            proof {
                lemma_assoc(start, "S "@ + pretty((**a0)@, depth as nat), " "@);
            }
            assert(out@ == start + ("S "@ + pretty((**a0)@, depth as nat) + " "@));
            push_str(out, a1.as_str());
            proof {
                lemma_assoc(start, "S "@ + pretty((**a0)@, depth as nat) + " "@, a1@);
            }
            assert(out@ == start + ("S "@ + pretty((**a0)@, depth as nat) + " "@ + a1@));
            push_str(out, " ");
            proof {
                lemma_assoc(start, "S "@ + pretty((**a0)@, depth as nat) + " "@ + a1@, " "@);
            }
            assert(out@ == start + ("S "@ + pretty((**a0)@, depth as nat) + " "@ + a1@ + " "@));
            write_expr(out, a2, depth);
            proof {
                lemma_assoc(start, "S "@ + pretty((**a0)@, depth as nat) + " "@ + a1@ + " "@, pretty((**a2)@, depth as nat));
            }
            assert(out@ == start + ("S "@ + pretty((**a0)@, depth as nat) + " "@ + a1@ + " "@ + pretty((**a2)@, depth as nat)));
            push_str(out, " ");
            proof {
                lemma_assoc(start, "S "@ + pretty((**a0)@, depth as nat) + " "@ + a1@ + " "@ + pretty((**a2)@, depth as nat), " "@);
            }
            assert(out@ == start + ("S "@ + pretty((**a0)@, depth as nat) + " "@ + a1@ + " "@ + pretty((**a2)@, depth as nat) + " "@));
            write_expr(out, a3, depth);
            proof {
                lemma_assoc(start, "S "@ + pretty((**a0)@, depth as nat) + " "@ + a1@ + " "@ + pretty((**a2)@, depth as nat) + " "@, pretty((**a3)@, depth as nat));
            }
            assert(out@ == start + ("S "@ + pretty((**a0)@, depth as nat) + " "@ + a1@ + " "@ + pretty((**a2)@, depth as nat) + " "@ + pretty((**a3)@, depth as nat)));
            assert(pretty(expr@, depth as nat) == "S "@ + pretty((**a0)@, depth as nat) + " "@ + a1@ + " "@ + pretty((**a2)@, depth as nat) + " "@ + pretty((**a3)@, depth as nat));
        },
        Expr::If(a0, a1, a2) => {
            push_str(out, "? ");
            assert(out@ == start + ("? "@));
            write_expr(out, a0, depth);
            proof {
                lemma_assoc(start, "? "@, pretty((**a0)@, depth as nat));
            }
            assert(out@ == start + ("? "@ + pretty((**a0)@, depth as nat)));
            push_str(out, "\n    ");
            proof {
                lemma_assoc(start, "? "@ + pretty((**a0)@, depth as nat), "\n    "@);
            }
            assert(out@ == start + ("? "@ + pretty((**a0)@, depth as nat) + "\n    "@));
            write_indent(out, depth);
            proof {
                lemma_assoc(start, "? "@ + pretty((**a0)@, depth as nat) + "\n    "@, indent(depth as nat));
            }
            assert(out@ == start + ("? "@ + pretty((**a0)@, depth as nat) + "\n    "@ + indent(depth as nat)));
            write_expr(out, a1, depth + 1);
            proof {
                lemma_assoc(start, "? "@ + pretty((**a0)@, depth as nat) + "\n    "@ + indent(depth as nat), pretty((**a1)@, (depth + 1) as nat));
            }
            assert(out@ == start + ("? "@ + pretty((**a0)@, depth as nat) + "\n    "@ + indent(depth as nat) + pretty((**a1)@, (depth + 1) as nat)));
            push_str(out, "\n    ");
            proof {
                lemma_assoc(start, "? "@ + pretty((**a0)@, depth as nat) + "\n    "@ + indent(depth as nat) + pretty((**a1)@, (depth + 1) as nat), "\n    "@);
            }
            assert(out@ == start + ("? "@ + pretty((**a0)@, depth as nat) + "\n    "@ + indent(depth as nat) + pretty((**a1)@, (depth + 1) as nat) + "\n    "@));
            write_indent(out, depth);
            proof {
                lemma_assoc(start, "? "@ + pretty((**a0)@, depth as nat) + "\n    "@ + indent(depth as nat) + pretty((**a1)@, (depth + 1) as nat) + "\n    "@, indent(depth as nat));
            }
            assert(out@ == start + ("? "@ + pretty((**a0)@, depth as nat) + "\n    "@ + indent(depth as nat) + pretty((**a1)@, (depth + 1) as nat) + "\n    "@ + indent(depth as nat)));
            write_expr(out, a2, depth + 1);
            proof {
                lemma_assoc(start, "? "@ + pretty((**a0)@, depth as nat) + "\n    "@ + indent(depth as nat) + pretty((**a1)@, (depth + 1) as nat) + "\n    "@ + indent(depth as nat), pretty((**a2)@, (depth + 1) as nat));
            }
            assert(out@ == start + ("? "@ + pretty((**a0)@, depth as nat) + "\n    "@ + indent(depth as nat) + pretty((**a1)@, (depth + 1) as nat) + "\n    "@ + indent(depth as nat) + pretty((**a2)@, (depth + 1) as nat)));
            assert(pretty(expr@, depth as nat) == "? "@ + pretty((**a0)@, depth as nat) + "\n    "@ + indent(depth as nat) + pretty((**a1)@, (depth + 1) as nat) + "\n    "@ + indent(depth as nat) + pretty((**a2)@, (depth + 1) as nat));
        },
        Expr::Expand(a0) => {
            push_str(out, "`");
            assert(out@ == start + ("`"@));
            push_str(out, a0.as_str());
            proof {
                lemma_assoc(start, "`"@, a0@);
            }
            assert(out@ == start + ("`"@ + a0@));
            assert(pretty(expr@, depth as nat) == "`"@ + a0@);
        },
        Expr::Let(a0, a1, a2) => {
            push_str(out, "L ");
            assert(out@ == start + ("L "@));
            push_str(out, a0.as_str());
            proof {
                lemma_assoc(start, "L "@, a0@);
            }
            assert(out@ == start + ("L "@ + a0@));
            push_str(out, " ");
            proof {
                lemma_assoc(start, "L "@ + a0@, " "@);
            }
            assert(out@ == start + ("L "@ + a0@ + " "@));
            write_expr(out, a1, depth);
            proof {
                lemma_assoc(start, "L "@ + a0@ + " "@, pretty((**a1)@, depth as nat));
            }
            assert(out@ == start + ("L "@ + a0@ + " "@ + pretty((**a1)@, depth as nat)));
            push_str(out, "\n");
            proof {
                lemma_assoc(start, "L "@ + a0@ + " "@ + pretty((**a1)@, depth as nat), "\n"@);
            }
            assert(out@ == start + ("L "@ + a0@ + " "@ + pretty((**a1)@, depth as nat) + "\n"@));
            write_indent(out, depth);
            proof {
                lemma_assoc(start, "L "@ + a0@ + " "@ + pretty((**a1)@, depth as nat) + "\n"@, indent(depth as nat));
            }
            assert(out@ == start + ("L "@ + a0@ + " "@ + pretty((**a1)@, depth as nat) + "\n"@ + indent(depth as nat)));
            write_expr(out, a2, depth);
            proof {
                lemma_assoc(start, "L "@ + a0@ + " "@ + pretty((**a1)@, depth as nat) + "\n"@ + indent(depth as nat), pretty((**a2)@, depth as nat));
            }
            assert(out@ == start + ("L "@ + a0@ + " "@ + pretty((**a1)@, depth as nat) + "\n"@ + indent(depth as nat) + pretty((**a2)@, depth as nat)));
            assert(pretty(expr@, depth as nat) == "L "@ + a0@ + " "@ + pretty((**a1)@, depth as nat) + "\n"@ + indent(depth as nat) + pretty((**a2)@, depth as nat));
        },
        Expr::Import(a0, a1, a2) => {
            push_str(out, "I ");
            assert(out@ == start + ("I "@));
            push_str(out, a0.as_str());
            proof {
                lemma_assoc(start, "I "@, a0@);
            }
            assert(out@ == start + ("I "@ + a0@));
            push_str(out, " ");
            proof {
                lemma_assoc(start, "I "@ + a0@, " "@);
            }
            assert(out@ == start + ("I "@ + a0@ + " "@));
            push_str(out, a1.as_str());
            proof {
                lemma_assoc(start, "I "@ + a0@ + " "@, a1@);
            }
            assert(out@ == start + ("I "@ + a0@ + " "@ + a1@));
            assert(pretty(expr@, depth as nat) == "I "@ + a0@ + " "@ + a1@);
        },
        Expr::String(a0) => {
            push_str(out, "\"");
            assert(out@ == start + ("\""@));
            write_escaped(out, a0.as_str());
            proof {
                lemma_assoc(start, "\""@, escaped(a0@));
            }
            assert(out@ == start + ("\""@ + escaped(a0@)));
            push_str(out, "\"");
            proof {
                lemma_assoc(start, "\""@ + escaped(a0@), "\""@);
            }
            assert(out@ == start + ("\""@ + escaped(a0@) + "\""@));
            assert(pretty(expr@, depth as nat) == "\""@ + escaped(a0@) + "\""@);
        },
        Expr::Len(a0) => {
            push_str(out, "sl ");
            assert(out@ == start + ("sl "@));
            write_expr(out, a0, depth);
            proof {
                lemma_assoc(start, "sl "@, pretty((**a0)@, depth as nat));
            }
            assert(out@ == start + ("sl "@ + pretty((**a0)@, depth as nat)));
            assert(pretty(expr@, depth as nat) == "sl "@ + pretty((**a0)@, depth as nat));
        },
        _ => {
            assert(false);
        },
    }
}

/// Appends the source text of `expr` printed at `depth`, for Cat, Sub, Loc, Reg, Read, Write, Str, Split, TimeNow and TimeNano.
#[verifier::spinoff_prover]
fn write_expr_part3(out: &mut String, expr: &Expr, depth: usize)
    requires
        depth + nesting(expr@) <= usize::MAX,
        expr@ is Cat || expr@ is Sub || expr@ is Loc || expr@ is Reg || expr@ is Read || expr@ is Write || expr@ is Str || expr@ is Split || expr@ is TimeNow || expr@ is TimeNano,
    ensures
        final(out)@ == old(out)@ + pretty(expr@, depth as nat),
    decreases expr, 0nat,
{
    let ghost start = out@;
    match expr {
        Expr::Cat(a0, a1) => {
            push_str(out, "sc ");
            assert(out@ == start + ("sc "@));
            write_expr(out, a0, depth);
            proof {
                lemma_assoc(start, "sc "@, pretty((**a0)@, depth as nat));
            }
            assert(out@ == start + ("sc "@ + pretty((**a0)@, depth as nat)));
            push_str(out, " ");
            proof {
                lemma_assoc(start, "sc "@ + pretty((**a0)@, depth as nat), " "@);
            }
            assert(out@ == start + ("sc "@ + pretty((**a0)@, depth as nat) + " "@));
            write_expr(out, a1, depth);
            proof {
                lemma_assoc(start, "sc "@ + pretty((**a0)@, depth as nat) + " "@, pretty((**a1)@, depth as nat));
            }
            assert(out@ == start + ("sc "@ + pretty((**a0)@, depth as nat) + " "@ + pretty((**a1)@, depth as nat)));
            assert(pretty(expr@, depth as nat) == "sc "@ + pretty((**a0)@, depth as nat) + " "@ + pretty((**a1)@, depth as nat));
        },
        Expr::Sub(a0, a1, a2) => {
            push_str(out, "ss ");
            assert(out@ == start + ("ss "@));
            write_expr(out, a0, depth);
            proof {
                lemma_assoc(start, "ss "@, pretty((**a0)@, depth as nat));
            }
            assert(out@ == start + ("ss "@ + pretty((**a0)@, depth as nat)));
            push_str(out, " ");
            proof {
                lemma_assoc(start, "ss "@ + pretty((**a0)@, depth as nat), " "@);
            }
            assert(out@ == start + ("ss "@ + pretty((**a0)@, depth as nat) + " "@));
            write_expr(out, a1, depth);
            proof {
                lemma_assoc(start, "ss "@ + pretty((**a0)@, depth as nat) + " "@, pretty((**a1)@, depth as nat));
            }
            assert(out@ == start + ("ss "@ + pretty((**a0)@, depth as nat) + " "@ + pretty((**a1)@, depth as nat)));
            push_str(out, " ");
            proof {
                lemma_assoc(start, "ss "@ + pretty((**a0)@, depth as nat) + " "@ + pretty((**a1)@, depth as nat), " "@);
            }
            assert(out@ == start + ("ss "@ + pretty((**a0)@, depth as nat) + " "@ + pretty((**a1)@, depth as nat) + " "@));
            write_expr(out, a2, depth);
            proof {
                lemma_assoc(start, "ss "@ + pretty((**a0)@, depth as nat) + " "@ + pretty((**a1)@, depth as nat) + " "@, pretty((**a2)@, depth as nat));
            }
            assert(out@ == start + ("ss "@ + pretty((**a0)@, depth as nat) + " "@ + pretty((**a1)@, depth as nat) + " "@ + pretty((**a2)@, depth as nat)));
            assert(pretty(expr@, depth as nat) == "ss "@ + pretty((**a0)@, depth as nat) + " "@ + pretty((**a1)@, depth as nat) + " "@ + pretty((**a2)@, depth as nat));
        },
        Expr::Loc(a0, a1) => {
            push_str(out, "sf ");
            assert(out@ == start + ("sf "@));
            write_expr(out, a0, depth);
            proof {
                lemma_assoc(start, "sf "@, pretty((**a0)@, depth as nat));
            }
            assert(out@ == start + ("sf "@ + pretty((**a0)@, depth as nat)));
            push_str(out, " ");
            proof {
                lemma_assoc(start, "sf "@ + pretty((**a0)@, depth as nat), " "@);
            }
            assert(out@ == start + ("sf "@ + pretty((**a0)@, depth as nat) + " "@));
            write_expr(out, a1, depth);
            proof {
                lemma_assoc(start, "sf "@ + pretty((**a0)@, depth as nat) + " "@, pretty((**a1)@, depth as nat));
            }
            assert(out@ == start + ("sf "@ + pretty((**a0)@, depth as nat) + " "@ + pretty((**a1)@, depth as nat)));
            assert(pretty(expr@, depth as nat) == "sf "@ + pretty((**a0)@, depth as nat) + " "@ + pretty((**a1)@, depth as nat));
        },
        Expr::Reg(a0, a1) => {
            push_str(out, "sr ");
            assert(out@ == start + ("sr "@));
            write_expr(out, a0, depth);
            proof {
                lemma_assoc(start, "sr "@, pretty((**a0)@, depth as nat));
            }
            assert(out@ == start + ("sr "@ + pretty((**a0)@, depth as nat)));
            push_str(out, " ");
            proof {
                lemma_assoc(start, "sr "@ + pretty((**a0)@, depth as nat), " "@);
            }
            assert(out@ == start + ("sr "@ + pretty((**a0)@, depth as nat) + " "@));
            write_expr(out, a1, depth);
            proof {
                lemma_assoc(start, "sr "@ + pretty((**a0)@, depth as nat) + " "@, pretty((**a1)@, depth as nat));
            }
            assert(out@ == start + ("sr "@ + pretty((**a0)@, depth as nat) + " "@ + pretty((**a1)@, depth as nat)));
            assert(pretty(expr@, depth as nat) == "sr "@ + pretty((**a0)@, depth as nat) + " "@ + pretty((**a1)@, depth as nat));
        },
        Expr::Read(a0) => {
            push_str(out, "( ");
            assert(out@ == start + ("( "@));
            write_expr(out, a0, depth);
            proof {
                lemma_assoc(start, "( "@, pretty((**a0)@, depth as nat));
            }
            assert(out@ == start + ("( "@ + pretty((**a0)@, depth as nat)));
            assert(pretty(expr@, depth as nat) == "( "@ + pretty((**a0)@, depth as nat));
        },
        Expr::Write(a0, a1) => {
            push_str(out, ") ");
            assert(out@ == start + (") "@));
            write_expr(out, a0, depth);
            proof {
                lemma_assoc(start, ") "@, pretty((**a0)@, depth as nat));
            }
            assert(out@ == start + (") "@ + pretty((**a0)@, depth as nat)));
            push_str(out, " ");
            proof {
                lemma_assoc(start, ") "@ + pretty((**a0)@, depth as nat), " "@);
            }
            assert(out@ == start + (") "@ + pretty((**a0)@, depth as nat) + " "@));
            write_expr(out, a1, depth);
            proof {
                lemma_assoc(start, ") "@ + pretty((**a0)@, depth as nat) + " "@, pretty((**a1)@, depth as nat));
            }
            assert(out@ == start + (") "@ + pretty((**a0)@, depth as nat) + " "@ + pretty((**a1)@, depth as nat)));
            assert(pretty(expr@, depth as nat) == ") "@ + pretty((**a0)@, depth as nat) + " "@ + pretty((**a1)@, depth as nat));
        },
        Expr::Str(a0) => {
            push_str(out, "str ");
            assert(out@ == start + ("str "@));
            write_expr(out, a0, depth);
            proof {
                lemma_assoc(start, "str "@, pretty((**a0)@, depth as nat));
            }
            assert(out@ == start + ("str "@ + pretty((**a0)@, depth as nat)));
            assert(pretty(expr@, depth as nat) == "str "@ + pretty((**a0)@, depth as nat));
        },
        Expr::Split(a0, a1, a2) => {
            push_str(out, "sp ");
            assert(out@ == start + ("sp "@));
            write_expr(out, a0, depth);
            proof {
                lemma_assoc(start, "sp "@, pretty((**a0)@, depth as nat));
            }
            assert(out@ == start + ("sp "@ + pretty((**a0)@, depth as nat)));
            push_str(out, " ");
            proof {
                lemma_assoc(start, "sp "@ + pretty((**a0)@, depth as nat), " "@);
            }
            assert(out@ == start + ("sp "@ + pretty((**a0)@, depth as nat) + " "@));
            write_expr(out, a1, depth);
            proof {
                lemma_assoc(start, "sp "@ + pretty((**a0)@, depth as nat) + " "@, pretty((**a1)@, depth as nat));
            }
            assert(out@ == start + ("sp "@ + pretty((**a0)@, depth as nat) + " "@ + pretty((**a1)@, depth as nat)));
            push_str(out, " ");
            proof {
                lemma_assoc(start, "sp "@ + pretty((**a0)@, depth as nat) + " "@ + pretty((**a1)@, depth as nat), " "@);
            }
            assert(out@ == start + ("sp "@ + pretty((**a0)@, depth as nat) + " "@ + pretty((**a1)@, depth as nat) + " "@));
            write_expr(out, a2, depth);
            proof {
                lemma_assoc(start, "sp "@ + pretty((**a0)@, depth as nat) + " "@ + pretty((**a1)@, depth as nat) + " "@, pretty((**a2)@, depth as nat));
            }
            assert(out@ == start + ("sp "@ + pretty((**a0)@, depth as nat) + " "@ + pretty((**a1)@, depth as nat) + " "@ + pretty((**a2)@, depth as nat)));
            assert(pretty(expr@, depth as nat) == "sp "@ + pretty((**a0)@, depth as nat) + " "@ + pretty((**a1)@, depth as nat) + " "@ + pretty((**a2)@, depth as nat));
        },
        Expr::TimeNow => {
            push_str(out, "tn");
            assert(out@ == start + ("tn"@));
            assert(pretty(expr@, depth as nat) == "tn"@);
        },
        Expr::TimeNano => {
            push_str(out, "tns");
            assert(out@ == start + ("tns"@));
            assert(pretty(expr@, depth as nat) == "tns"@);
        },
        _ => {
            assert(false);
        },
    }
}

/// Appends the source text of `expr` printed at `depth`, for TimeGet, TimeSet, Env, Sequence, Pack, Unpack, Metadata, OtelEmit, MapField and Filter.
#[verifier::spinoff_prover]
fn write_expr_part4(out: &mut String, expr: &Expr, depth: usize)
    requires
        depth + nesting(expr@) <= usize::MAX,
        expr@ is TimeGet || expr@ is TimeSet || expr@ is Env || expr@ is Sequence || expr@ is Pack || expr@ is Unpack || expr@ is Metadata || expr@ is OtelEmit || expr@ is MapField || expr@ is Filter,
    ensures
        final(out)@ == old(out)@ + pretty(expr@, depth as nat),
    decreases expr, 0nat,
{
    let ghost start = out@;
    match expr {
        Expr::TimeGet(a0, a1) => {
            push_str(out, "tg ");
            assert(out@ == start + ("tg "@));
            write_expr(out, a0, depth);
            proof {
                lemma_assoc(start, "tg "@, pretty((**a0)@, depth as nat));
            }
            assert(out@ == start + ("tg "@ + pretty((**a0)@, depth as nat)));
            push_str(out, " ");
            proof {
                lemma_assoc(start, "tg "@ + pretty((**a0)@, depth as nat), " "@);
            }
            assert(out@ == start + ("tg "@ + pretty((**a0)@, depth as nat) + " "@));
            write_expr(out, a1, depth);
            proof {
                lemma_assoc(start, "tg "@ + pretty((**a0)@, depth as nat) + " "@, pretty((**a1)@, depth as nat));
            }
            assert(out@ == start + ("tg "@ + pretty((**a0)@, depth as nat) + " "@ + pretty((**a1)@, depth as nat)));
            assert(pretty(expr@, depth as nat) == "tg "@ + pretty((**a0)@, depth as nat) + " "@ + pretty((**a1)@, depth as nat));
        },
        Expr::TimeSet(a0, a1, a2, a3, a4, a5) => {
            push_str(out, "ts ");
            assert(out@ == start + ("ts "@));
            write_expr(out, a0, depth);
            proof {
                lemma_assoc(start, "ts "@, pretty((**a0)@, depth as nat));
            }
            assert(out@ == start + ("ts "@ + pretty((**a0)@, depth as nat)));
            push_str(out, " ");
            proof {
                lemma_assoc(start, "ts "@ + pretty((**a0)@, depth as nat), " "@);
            }
            assert(out@ == start + ("ts "@ + pretty((**a0)@, depth as nat) + " "@));
            write_expr(out, a1, depth);
            proof {
                lemma_assoc(start, "ts "@ + pretty((**a0)@, depth as nat) + " "@, pretty((**a1)@, depth as nat));
            }
            assert(out@ == start + ("ts "@ + pretty((**a0)@, depth as nat) + " "@ + pretty((**a1)@, depth as nat)));
            push_str(out, " ");
            proof {
                lemma_assoc(start, "ts "@ + pretty((**a0)@, depth as nat) + " "@ + pretty((**a1)@, depth as nat), " "@);
            }
            assert(out@ == start + ("ts "@ + pretty((**a0)@, depth as nat) + " "@ + pretty((**a1)@, depth as nat) + " "@));
            write_expr(out, a2, depth);
            proof {
                lemma_assoc(start, "ts "@ + pretty((**a0)@, depth as nat) + " "@ + pretty((**a1)@, depth as nat) + " "@, pretty((**a2)@, depth as nat));
            }
            assert(out@ == start + ("ts "@ + pretty((**a0)@, depth as nat) + " "@ + pretty((**a1)@, depth as nat) + " "@ + pretty((**a2)@, depth as nat)));
            push_str(out, " ");
            proof {
                lemma_assoc(start, "ts "@ + pretty((**a0)@, depth as nat) + " "@ + pretty((**a1)@, depth as nat) + " "@ + pretty((**a2)@, depth as nat), " "@);
            }
            assert(out@ == start + ("ts "@ + pretty((**a0)@, depth as nat) + " "@ + pretty((**a1)@, depth as nat) + " "@ + pretty((**a2)@, depth as nat) + " "@));
            write_expr(out, a3, depth);
            proof {
                lemma_assoc(start, "ts "@ + pretty((**a0)@, depth as nat) + " "@ + pretty((**a1)@, depth as nat) + " "@ + pretty((**a2)@, depth as nat) + " "@, pretty((**a3)@, depth as nat));
            }
            assert(out@ == start + ("ts "@ + pretty((**a0)@, depth as nat) + " "@ + pretty((**a1)@, depth as nat) + " "@ + pretty((**a2)@, depth as nat) + " "@ + pretty((**a3)@, depth as nat)));
            push_str(out, " ");
            proof {
                lemma_assoc(start, "ts "@ + pretty((**a0)@, depth as nat) + " "@ + pretty((**a1)@, depth as nat) + " "@ + pretty((**a2)@, depth as nat) + " "@ + pretty((**a3)@, depth as nat), " "@);
            }
            assert(out@ == start + ("ts "@ + pretty((**a0)@, depth as nat) + " "@ + pretty((**a1)@, depth as nat) + " "@ + pretty((**a2)@, depth as nat) + " "@ + pretty((**a3)@, depth as nat) + " "@));
            write_expr(out, a4, depth);
            proof {
                lemma_assoc(start, "ts "@ + pretty((**a0)@, depth as nat) + " "@ + pretty((**a1)@, depth as nat) + " "@ + pretty((**a2)@, depth as nat) + " "@ + pretty((**a3)@, depth as nat) + " "@, pretty((**a4)@, depth as nat));
            }
            assert(out@ == start + ("ts "@ + pretty((**a0)@, depth as nat) + " "@ + pretty((**a1)@, depth as nat) + " "@ + pretty((**a2)@, depth as nat) + " "@ + pretty((**a3)@, depth as nat) + " "@ + pretty((**a4)@, depth as nat)));
            push_str(out, " ");
            proof {
                lemma_assoc(start, "ts "@ + pretty((**a0)@, depth as nat) + " "@ + pretty((**a1)@, depth as nat) + " "@ + pretty((**a2)@, depth as nat) + " "@ + pretty((**a3)@, depth as nat) + " "@ + pretty((**a4)@, depth as nat), " "@);
            }
            assert(out@ == start + ("ts "@ + pretty((**a0)@, depth as nat) + " "@ + pretty((**a1)@, depth as nat) + " "@ + pretty((**a2)@, depth as nat) + " "@ + pretty((**a3)@, depth as nat) + " "@ + pretty((**a4)@, depth as nat) + " "@));
            write_expr(out, a5, depth);
            proof {
                lemma_assoc(start, "ts "@ + pretty((**a0)@, depth as nat) + " "@ + pretty((**a1)@, depth as nat) + " "@ + pretty((**a2)@, depth as nat) + " "@ + pretty((**a3)@, depth as nat) + " "@ + pretty((**a4)@, depth as nat) + " "@, pretty((**a5)@, depth as nat));
            }
            assert(out@ == start + ("ts "@ + pretty((**a0)@, depth as nat) + " "@ + pretty((**a1)@, depth as nat) + " "@ + pretty((**a2)@, depth as nat) + " "@ + pretty((**a3)@, depth as nat) + " "@ + pretty((**a4)@, depth as nat) + " "@ + pretty((**a5)@, depth as nat)));
            assert(pretty(expr@, depth as nat) == "ts "@ + pretty((**a0)@, depth as nat) + " "@ + pretty((**a1)@, depth as nat) + " "@ + pretty((**a2)@, depth as nat) + " "@ + pretty((**a3)@, depth as nat) + " "@ + pretty((**a4)@, depth as nat) + " "@ + pretty((**a5)@, depth as nat));
        },
        Expr::Env(a0) => {
            push_str(out, "env ");
            assert(out@ == start + ("env "@));
            write_expr(out, a0, depth);
            proof {
                lemma_assoc(start, "env "@, pretty((**a0)@, depth as nat));
            }
            assert(out@ == start + ("env "@ + pretty((**a0)@, depth as nat)));
            assert(pretty(expr@, depth as nat) == "env "@ + pretty((**a0)@, depth as nat));
        },
        Expr::Sequence(a0, a1) => {
            push_str(out, ". ");
            assert(out@ == start + (". "@));
            write_expr(out, a0, depth);
            proof {
                lemma_assoc(start, ". "@, pretty((**a0)@, depth as nat));
            }
            assert(out@ == start + (". "@ + pretty((**a0)@, depth as nat)));
            push_str(out, "\n");
            proof {
                lemma_assoc(start, ". "@ + pretty((**a0)@, depth as nat), "\n"@);
            }
            assert(out@ == start + (". "@ + pretty((**a0)@, depth as nat) + "\n"@));
            write_indent(out, depth);
            proof {
                lemma_assoc(start, ". "@ + pretty((**a0)@, depth as nat) + "\n"@, indent(depth as nat));
            }
            assert(out@ == start + (". "@ + pretty((**a0)@, depth as nat) + "\n"@ + indent(depth as nat)));
            write_expr(out, a1, depth);
            proof {
                lemma_assoc(start, ". "@ + pretty((**a0)@, depth as nat) + "\n"@ + indent(depth as nat), pretty((**a1)@, depth as nat));
            }
            assert(out@ == start + (". "@ + pretty((**a0)@, depth as nat) + "\n"@ + indent(depth as nat) + pretty((**a1)@, depth as nat)));
            assert(pretty(expr@, depth as nat) == ". "@ + pretty((**a0)@, depth as nat) + "\n"@ + indent(depth as nat) + pretty((**a1)@, depth as nat));
        },
        Expr::Pack(a0) => {
            push_str(out, "jp ");
            assert(out@ == start + ("jp "@));
            write_expr(out, a0, depth);
            proof {
                lemma_assoc(start, "jp "@, pretty((**a0)@, depth as nat));
            }
            assert(out@ == start + ("jp "@ + pretty((**a0)@, depth as nat)));
            assert(pretty(expr@, depth as nat) == "jp "@ + pretty((**a0)@, depth as nat));
        },
        Expr::Unpack(a0, a1) => {
            push_str(out, "ju ");
            assert(out@ == start + ("ju "@));
            write_expr(out, a0, depth);
            proof {
                lemma_assoc(start, "ju "@, pretty((**a0)@, depth as nat));
            }
            assert(out@ == start + ("ju "@ + pretty((**a0)@, depth as nat)));
            push_str(out, " \"");
            proof {
                lemma_assoc(start, "ju "@ + pretty((**a0)@, depth as nat), " \""@);
            }
            assert(out@ == start + ("ju "@ + pretty((**a0)@, depth as nat) + " \""@));
            push_str(out, a1.as_str());
            proof {
                lemma_assoc(start, "ju "@ + pretty((**a0)@, depth as nat) + " \""@, a1@);
            }
            assert(out@ == start + ("ju "@ + pretty((**a0)@, depth as nat) + " \""@ + a1@));
            push_str(out, "\"");
            proof {
                lemma_assoc(start, "ju "@ + pretty((**a0)@, depth as nat) + " \""@ + a1@, "\""@);
            }
            assert(out@ == start + ("ju "@ + pretty((**a0)@, depth as nat) + " \""@ + a1@ + "\""@));
            assert(pretty(expr@, depth as nat) == "ju "@ + pretty((**a0)@, depth as nat) + " \""@ + a1@ + "\""@);
        },
        Expr::Metadata(a0, a1, a2) => {
            push_str(out, "M ");
            assert(out@ == start + ("M "@));
            write_expr(out, a0, depth);
            proof {
                lemma_assoc(start, "M "@, pretty((**a0)@, depth as nat));
            }
            assert(out@ == start + ("M "@ + pretty((**a0)@, depth as nat)));
            push_str(out, " ");
            proof {
                lemma_assoc(start, "M "@ + pretty((**a0)@, depth as nat), " "@);
            }
            assert(out@ == start + ("M "@ + pretty((**a0)@, depth as nat) + " "@));
            write_expr(out, a1, depth);
            proof {
                lemma_assoc(start, "M "@ + pretty((**a0)@, depth as nat) + " "@, pretty((**a1)@, depth as nat));
            }
            assert(out@ == start + ("M "@ + pretty((**a0)@, depth as nat) + " "@ + pretty((**a1)@, depth as nat)));
            push_str(out, " ");
            proof {
                lemma_assoc(start, "M "@ + pretty((**a0)@, depth as nat) + " "@ + pretty((**a1)@, depth as nat), " "@);
            }
            assert(out@ == start + ("M "@ + pretty((**a0)@, depth as nat) + " "@ + pretty((**a1)@, depth as nat) + " "@));
            write_expr(out, a2, depth);
            proof {
                lemma_assoc(start, "M "@ + pretty((**a0)@, depth as nat) + " "@ + pretty((**a1)@, depth as nat) + " "@, pretty((**a2)@, depth as nat));
            }
            assert(out@ == start + ("M "@ + pretty((**a0)@, depth as nat) + " "@ + pretty((**a1)@, depth as nat) + " "@ + pretty((**a2)@, depth as nat)));
            assert(pretty(expr@, depth as nat) == "M "@ + pretty((**a0)@, depth as nat) + " "@ + pretty((**a1)@, depth as nat) + " "@ + pretty((**a2)@, depth as nat));
        },
        Expr::OtelEmit(a0, a1, a2, a3) => {
            push_str(out, "oe ");
            assert(out@ == start + ("oe "@));
            write_expr(out, a0, depth);
            proof {
                lemma_assoc(start, "oe "@, pretty((**a0)@, depth as nat));
            }
            assert(out@ == start + ("oe "@ + pretty((**a0)@, depth as nat)));
            push_str(out, " ");
            proof {
                lemma_assoc(start, "oe "@ + pretty((**a0)@, depth as nat), " "@);
            }
            assert(out@ == start + ("oe "@ + pretty((**a0)@, depth as nat) + " "@));
            write_expr(out, a1, depth);
            proof {
                lemma_assoc(start, "oe "@ + pretty((**a0)@, depth as nat) + " "@, pretty((**a1)@, depth as nat));
            }
            assert(out@ == start + ("oe "@ + pretty((**a0)@, depth as nat) + " "@ + pretty((**a1)@, depth as nat)));
            push_str(out, " ");
            proof {
                lemma_assoc(start, "oe "@ + pretty((**a0)@, depth as nat) + " "@ + pretty((**a1)@, depth as nat), " "@);
            }
            assert(out@ == start + ("oe "@ + pretty((**a0)@, depth as nat) + " "@ + pretty((**a1)@, depth as nat) + " "@));
            write_expr(out, a2, depth);
            proof {
                lemma_assoc(start, "oe "@ + pretty((**a0)@, depth as nat) + " "@ + pretty((**a1)@, depth as nat) + " "@, pretty((**a2)@, depth as nat));
            }
            assert(out@ == start + ("oe "@ + pretty((**a0)@, depth as nat) + " "@ + pretty((**a1)@, depth as nat) + " "@ + pretty((**a2)@, depth as nat)));
            push_str(out, " ");
            proof {
                lemma_assoc(start, "oe "@ + pretty((**a0)@, depth as nat) + " "@ + pretty((**a1)@, depth as nat) + " "@ + pretty((**a2)@, depth as nat), " "@);
            }
            assert(out@ == start + ("oe "@ + pretty((**a0)@, depth as nat) + " "@ + pretty((**a1)@, depth as nat) + " "@ + pretty((**a2)@, depth as nat) + " "@));
            write_expr(out, a3, depth);
            proof {
                lemma_assoc(start, "oe "@ + pretty((**a0)@, depth as nat) + " "@ + pretty((**a1)@, depth as nat) + " "@ + pretty((**a2)@, depth as nat) + " "@, pretty((**a3)@, depth as nat));
            }
            assert(out@ == start + ("oe "@ + pretty((**a0)@, depth as nat) + " "@ + pretty((**a1)@, depth as nat) + " "@ + pretty((**a2)@, depth as nat) + " "@ + pretty((**a3)@, depth as nat)));
            assert(pretty(expr@, depth as nat) == "oe "@ + pretty((**a0)@, depth as nat) + " "@ + pretty((**a1)@, depth as nat) + " "@ + pretty((**a2)@, depth as nat) + " "@ + pretty((**a3)@, depth as nat));
        },
        Expr::MapField(a0, a1, a2) => {
            push_str(out, "map ");
            assert(out@ == start + ("map "@));
            write_expr(out, a0, depth);
            proof {
                lemma_assoc(start, "map "@, pretty((**a0)@, depth as nat));
            }
            assert(out@ == start + ("map "@ + pretty((**a0)@, depth as nat)));
            push_str(out, " \"");
            proof {
                lemma_assoc(start, "map "@ + pretty((**a0)@, depth as nat), " \""@);
            }
            assert(out@ == start + ("map "@ + pretty((**a0)@, depth as nat) + " \""@));
            push_str(out, a1.as_str());
            proof {
                lemma_assoc(start, "map "@ + pretty((**a0)@, depth as nat) + " \""@, a1@);
            }
            assert(out@ == start + ("map "@ + pretty((**a0)@, depth as nat) + " \""@ + a1@));
            push_str(out, "\" ");
            proof {
                lemma_assoc(start, "map "@ + pretty((**a0)@, depth as nat) + " \""@ + a1@, "\" "@);
            }
            assert(out@ == start + ("map "@ + pretty((**a0)@, depth as nat) + " \""@ + a1@ + "\" "@));
            write_expr(out, a2, depth);
            proof {
                lemma_assoc(start, "map "@ + pretty((**a0)@, depth as nat) + " \""@ + a1@ + "\" "@, pretty((**a2)@, depth as nat));
            }
            assert(out@ == start + ("map "@ + pretty((**a0)@, depth as nat) + " \""@ + a1@ + "\" "@ + pretty((**a2)@, depth as nat)));
            assert(pretty(expr@, depth as nat) == "map "@ + pretty((**a0)@, depth as nat) + " \""@ + a1@ + "\" "@ + pretty((**a2)@, depth as nat));
        },
        Expr::Filter(a0, a1) => {
            push_str(out, "flt ");
            assert(out@ == start + ("flt "@));
            write_expr(out, a0, depth);
            proof {
                lemma_assoc(start, "flt "@, pretty((**a0)@, depth as nat));
            }
            assert(out@ == start + ("flt "@ + pretty((**a0)@, depth as nat)));
            push_str(out, " ");
            proof {
                lemma_assoc(start, "flt "@ + pretty((**a0)@, depth as nat), " "@);
            }
            assert(out@ == start + ("flt "@ + pretty((**a0)@, depth as nat) + " "@));
            write_expr(out, a1, depth);
            proof {
                lemma_assoc(start, "flt "@ + pretty((**a0)@, depth as nat) + " "@, pretty((**a1)@, depth as nat));
            }
            assert(out@ == start + ("flt "@ + pretty((**a0)@, depth as nat) + " "@ + pretty((**a1)@, depth as nat)));
            assert(pretty(expr@, depth as nat) == "flt "@ + pretty((**a0)@, depth as nat) + " "@ + pretty((**a1)@, depth as nat));
        },
        _ => {
            assert(false);
        },
    }
}

/// Appends the source text of `expr` printed at `depth`, for MoneyOp, MoneyStr, TimeOp, TimeZone, Panic, Trap, HttpClient, HttpServer, HttpHeader and FileOpen.
#[verifier::spinoff_prover]
fn write_expr_part5(out: &mut String, expr: &Expr, depth: usize)
    requires
        depth + nesting(expr@) <= usize::MAX,
        expr@ is MoneyOp || expr@ is MoneyStr || expr@ is TimeOp || expr@ is TimeZone || expr@ is Panic || expr@ is Trap || expr@ is HttpClient || expr@ is HttpServer || expr@ is HttpHeader || expr@ is FileOpen,
    ensures
        final(out)@ == old(out)@ + pretty(expr@, depth as nat),
    decreases expr, 0nat,
{
    let ghost start = out@;
    match expr {
        Expr::MoneyOp(a0, a1, a2) => {
            push_str(out, "% ");
            assert(out@ == start + ("% "@));
            push_str(out, format_token(a0));
            proof {
                lemma_assoc(start, "% "@, token_text(a0@));
            }
            assert(out@ == start + ("% "@ + token_text(a0@)));
            push_str(out, " ");
            proof {
                lemma_assoc(start, "% "@ + token_text(a0@), " "@);
            }
            assert(out@ == start + ("% "@ + token_text(a0@) + " "@));
            write_expr(out, a1, depth);
            proof {
                lemma_assoc(start, "% "@ + token_text(a0@) + " "@, pretty((**a1)@, depth as nat));
            }
            assert(out@ == start + ("% "@ + token_text(a0@) + " "@ + pretty((**a1)@, depth as nat)));
            push_str(out, " ");
            proof {
                lemma_assoc(start, "% "@ + token_text(a0@) + " "@ + pretty((**a1)@, depth as nat), " "@);
            }
            assert(out@ == start + ("% "@ + token_text(a0@) + " "@ + pretty((**a1)@, depth as nat) + " "@));
            write_expr(out, a2, depth);
            proof {
                lemma_assoc(start, "% "@ + token_text(a0@) + " "@ + pretty((**a1)@, depth as nat) + " "@, pretty((**a2)@, depth as nat));
            }
            assert(out@ == start + ("% "@ + token_text(a0@) + " "@ + pretty((**a1)@, depth as nat) + " "@ + pretty((**a2)@, depth as nat)));
            assert(pretty(expr@, depth as nat) == "% "@ + token_text(a0@) + " "@ + pretty((**a1)@, depth as nat) + " "@ + pretty((**a2)@, depth as nat));
        },
        Expr::MoneyStr(a0) => {
            push_str(out, "% str ");
            assert(out@ == start + ("% str "@));
            write_expr(out, a0, depth);
            proof {
                lemma_assoc(start, "% str "@, pretty((**a0)@, depth as nat));
            }
            assert(out@ == start + ("% str "@ + pretty((**a0)@, depth as nat)));
            assert(pretty(expr@, depth as nat) == "% str "@ + pretty((**a0)@, depth as nat));
        },
        Expr::TimeOp(a0, a1, a2) => {
            push_str(out, "tn ");
            assert(out@ == start + ("tn "@));
            push_str(out, format_token(a0));
            proof {
                lemma_assoc(start, "tn "@, token_text(a0@));
            }
            assert(out@ == start + ("tn "@ + token_text(a0@)));
            push_str(out, " ");
            proof {
                lemma_assoc(start, "tn "@ + token_text(a0@), " "@);
            }
            assert(out@ == start + ("tn "@ + token_text(a0@) + " "@));
            write_expr(out, a1, depth);
            proof {
                lemma_assoc(start, "tn "@ + token_text(a0@) + " "@, pretty((**a1)@, depth as nat));
            }
            assert(out@ == start + ("tn "@ + token_text(a0@) + " "@ + pretty((**a1)@, depth as nat)));
            push_str(out, " ");
            proof {
                lemma_assoc(start, "tn "@ + token_text(a0@) + " "@ + pretty((**a1)@, depth as nat), " "@);
            }
            assert(out@ == start + ("tn "@ + token_text(a0@) + " "@ + pretty((**a1)@, depth as nat) + " "@));
            write_expr(out, a2, depth);
            proof {
                lemma_assoc(start, "tn "@ + token_text(a0@) + " "@ + pretty((**a1)@, depth as nat) + " "@, pretty((**a2)@, depth as nat));
            }
            assert(out@ == start + ("tn "@ + token_text(a0@) + " "@ + pretty((**a1)@, depth as nat) + " "@ + pretty((**a2)@, depth as nat)));
            assert(pretty(expr@, depth as nat) == "tn "@ + token_text(a0@) + " "@ + pretty((**a1)@, depth as nat) + " "@ + pretty((**a2)@, depth as nat));
        },
        Expr::TimeZone => {
            push_str(out, "tz");
            assert(out@ == start + ("tz"@));
            assert(pretty(expr@, depth as nat) == "tz"@);
        },
        Expr::Panic(a0) => {
            push_str(out, "! ");
            assert(out@ == start + ("! "@));
            write_expr(out, a0, depth);
            proof {
                lemma_assoc(start, "! "@, pretty((**a0)@, depth as nat));
            }
            assert(out@ == start + ("! "@ + pretty((**a0)@, depth as nat)));
            assert(pretty(expr@, depth as nat) == "! "@ + pretty((**a0)@, depth as nat));
        },
        Expr::Trap(a0, a1) => {
            push_str(out, "^ ");
            assert(out@ == start + ("^ "@));
            write_expr(out, a0, depth);
            proof {
                lemma_assoc(start, "^ "@, pretty((**a0)@, depth as nat));
            }
            assert(out@ == start + ("^ "@ + pretty((**a0)@, depth as nat)));
            push_str(out, " ");
            proof {
                lemma_assoc(start, "^ "@ + pretty((**a0)@, depth as nat), " "@);
            }
            assert(out@ == start + ("^ "@ + pretty((**a0)@, depth as nat) + " "@));
            write_expr(out, a1, depth);
            proof {
                lemma_assoc(start, "^ "@ + pretty((**a0)@, depth as nat) + " "@, pretty((**a1)@, depth as nat));
            }
            assert(out@ == start + ("^ "@ + pretty((**a0)@, depth as nat) + " "@ + pretty((**a1)@, depth as nat)));
            assert(pretty(expr@, depth as nat) == "^ "@ + pretty((**a0)@, depth as nat) + " "@ + pretty((**a1)@, depth as nat));
        },
        Expr::HttpClient(a0, a1, a2) => {
            push_str(out, "http ");
            assert(out@ == start + ("http "@));
            write_expr(out, a0, depth);
            proof {
                lemma_assoc(start, "http "@, pretty((**a0)@, depth as nat));
            }
            assert(out@ == start + ("http "@ + pretty((**a0)@, depth as nat)));
            push_str(out, " ");
            proof {
                lemma_assoc(start, "http "@ + pretty((**a0)@, depth as nat), " "@);
            }
            assert(out@ == start + ("http "@ + pretty((**a0)@, depth as nat) + " "@));
            write_expr(out, a1, depth);
            proof {
                lemma_assoc(start, "http "@ + pretty((**a0)@, depth as nat) + " "@, pretty((**a1)@, depth as nat));
            }
            assert(out@ == start + ("http "@ + pretty((**a0)@, depth as nat) + " "@ + pretty((**a1)@, depth as nat)));
            push_str(out, " ");
            proof {
                lemma_assoc(start, "http "@ + pretty((**a0)@, depth as nat) + " "@ + pretty((**a1)@, depth as nat), " "@);
            }
            assert(out@ == start + ("http "@ + pretty((**a0)@, depth as nat) + " "@ + pretty((**a1)@, depth as nat) + " "@));
            write_expr(out, a2, depth);
            proof {
                lemma_assoc(start, "http "@ + pretty((**a0)@, depth as nat) + " "@ + pretty((**a1)@, depth as nat) + " "@, pretty((**a2)@, depth as nat));
            }
            assert(out@ == start + ("http "@ + pretty((**a0)@, depth as nat) + " "@ + pretty((**a1)@, depth as nat) + " "@ + pretty((**a2)@, depth as nat)));
            assert(pretty(expr@, depth as nat) == "http "@ + pretty((**a0)@, depth as nat) + " "@ + pretty((**a1)@, depth as nat) + " "@ + pretty((**a2)@, depth as nat));
        },
        Expr::HttpServer(a0, a1) => {
            push_str(out, "srv ");
            assert(out@ == start + ("srv "@));
            write_expr(out, a0, depth);
            proof {
                lemma_assoc(start, "srv "@, pretty((**a0)@, depth as nat));
            }
            assert(out@ == start + ("srv "@ + pretty((**a0)@, depth as nat)));
            push_str(out, " ");
            proof {
                lemma_assoc(start, "srv "@ + pretty((**a0)@, depth as nat), " "@);
            }
            assert(out@ == start + ("srv "@ + pretty((**a0)@, depth as nat) + " "@));
            write_expr(out, a1, depth);
            proof {
                lemma_assoc(start, "srv "@ + pretty((**a0)@, depth as nat) + " "@, pretty((**a1)@, depth as nat));
            }
            assert(out@ == start + ("srv "@ + pretty((**a0)@, depth as nat) + " "@ + pretty((**a1)@, depth as nat)));
            assert(pretty(expr@, depth as nat) == "srv "@ + pretty((**a0)@, depth as nat) + " "@ + pretty((**a1)@, depth as nat));
        },
        Expr::HttpHeader(a0, a1) => {
            push_str(out, "hdr ");
            assert(out@ == start + ("hdr "@));
            write_expr(out, a0, depth);
            proof {
                lemma_assoc(start, "hdr "@, pretty((**a0)@, depth as nat));
            }
            assert(out@ == start + ("hdr "@ + pretty((**a0)@, depth as nat)));
            push_str(out, " ");
            proof {
                lemma_assoc(start, "hdr "@ + pretty((**a0)@, depth as nat), " "@);
            }
            assert(out@ == start + ("hdr "@ + pretty((**a0)@, depth as nat) + " "@));
            write_expr(out, a1, depth);
            proof {
                lemma_assoc(start, "hdr "@ + pretty((**a0)@, depth as nat) + " "@, pretty((**a1)@, depth as nat));
            }
            assert(out@ == start + ("hdr "@ + pretty((**a0)@, depth as nat) + " "@ + pretty((**a1)@, depth as nat)));
            assert(pretty(expr@, depth as nat) == "hdr "@ + pretty((**a0)@, depth as nat) + " "@ + pretty((**a1)@, depth as nat));
        },
        Expr::FileOpen(a0, a1) => {
            push_str(out, "fo ");
            assert(out@ == start + ("fo "@));
            write_expr(out, a0, depth);
            proof {
                lemma_assoc(start, "fo "@, pretty((**a0)@, depth as nat));
            }
            assert(out@ == start + ("fo "@ + pretty((**a0)@, depth as nat)));
            push_str(out, " ");
            proof {
                lemma_assoc(start, "fo "@ + pretty((**a0)@, depth as nat), " "@);
            }
            assert(out@ == start + ("fo "@ + pretty((**a0)@, depth as nat) + " "@));
            write_expr(out, a1, depth);
            proof {
                lemma_assoc(start, "fo "@ + pretty((**a0)@, depth as nat) + " "@, pretty((**a1)@, depth as nat));
            }
            assert(out@ == start + ("fo "@ + pretty((**a0)@, depth as nat) + " "@ + pretty((**a1)@, depth as nat)));
            assert(pretty(expr@, depth as nat) == "fo "@ + pretty((**a0)@, depth as nat) + " "@ + pretty((**a1)@, depth as nat));
        },
        _ => {
            assert(false);
        },
    }
}

/// Appends ` arg` for each argument.
fn write_list(out: &mut String, args: &Vec<Expr>, depth: usize)
    requires
        depth + nesting_list(view_exprs(args@)) <= usize::MAX,
    ensures
        final(out)@ == old(out)@ + pretty_list(view_exprs(args@), depth as nat),
    decreases args@, 0nat,
{
    let ghost start = out@;
    let ghost av = view_exprs(args@);
    proof {
        lemma_view_exprs(args@);
        assert(av.subrange(0, av.len() as int) =~= av);
    }
    let mut i: usize = 0;
    while i < args.len()
        invariant
            i <= args@.len(),
            av == view_exprs(args@),
            av.len() == args@.len(),
            forall|k: int| 0 <= k < args@.len() ==> #[trigger] av[k] == args@[k]@,
            depth + nesting_list(av) <= usize::MAX,
            start + pretty_list(av, depth as nat) == out@ + pretty_list(av.subrange(i as int, av.len() as int), depth as nat),
        decreases args@.len() - i,
    {
        let ghost rest = av.subrange(i as int, av.len() as int);
        let ghost before = out@;
        proof {
            lemma_nesting_list(av, i as int);
            assert(rest[0] == av[i as int]);
            assert(rest.subrange(1, rest.len() as int) =~= av.subrange(i + 1, av.len() as int));
        }
        push_char(out, ' ');
        write_expr(out, &args[i], depth);
        proof {
            assert(out@ + pretty_list(av.subrange(i + 1, av.len() as int), depth as nat) =~= before + pretty_list(rest, depth as nat));
        }
        i = i + 1;
    }
    proof {
        assert(av.subrange(i as int, av.len() as int) =~= Seq::<ExprV>::empty());
        assert(out@ + Seq::<char>::empty() =~= out@);
    }
}

/// Each element of a list nests no deeper than the list.
proof fn lemma_nesting_list(es: Seq<ExprV>, i: int)
    requires
        0 <= i < es.len(),
    ensures
        nesting(es[i]) <= nesting_list(es),
    decreases es.len(),
{
    if i > 0 {
        let rest = es.subrange(1, es.len() as int);
        lemma_nesting_list(rest, i - 1);
        assert(rest[i - 1] == es[i]);
    }
}

impl<'a> PrettyExpr<'a> {
    pub fn new(expr: &'a Expr, depth: usize) -> (p: Self)
        ensures
            p.expr == expr,
            p.depth == depth,
    {
        Self { expr, depth }
    }

    /// The indentation of this depth: four spaces per level.
    pub fn indent(&self) -> (s: String)
        ensures
            s@ == indent(self.depth as nat),
    {
        let mut s = String::new();
        write_indent(&mut s, self.depth);
        s
    }

    /// The source text of the expression at this depth (see `pretty`).
    pub fn render(&self) -> (s: String)
        requires
            self.depth + nesting(self.expr@) <= usize::MAX,
        ensures
            s@ == pretty(self.expr@, self.depth as nat),
    {
        let mut s = String::new();
        write_expr(&mut s, self.expr, self.depth);
        proof {
            assert(Seq::<char>::empty() + pretty(self.expr@, self.depth as nat) =~= pretty(self.expr@, self.depth as nat));
        }
        s
    }
}

} // verus!
