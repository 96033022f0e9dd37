//! The abstract syntax tree and the shape inference shared by the ownership analysis and
//! the code generator.

pub mod display;

use vstd::prelude::*;
use crate::compiler::lexer::{Token, TokenV};
use crate::text::copy_string;

verus! {

/// A function parameter; `expand` marks a template parameter (written with a
/// trailing backtick).
#[derive(Debug, PartialEq, Clone)]
pub struct Param {
    pub name: String,
    pub expand: bool,
}

/// The mathematical content of a parameter.
pub struct ParamV {
    pub name: Seq<char>,
    pub expand: bool,
}

impl View for Param {
    type V = ParamV;

    open spec fn view(&self) -> ParamV {
        ParamV { name: self.name@, expand: self.expand }
    }
}

impl Param {
    /// A copy of this parameter.
    pub fn copy(&self) -> (p: Param)
        ensures
            p@ == self@,
    {
        Param { name: copy_string(&self.name), expand: self.expand }
    }
}

/// An expression. A float literal is carried as its written text.
#[derive(Debug, PartialEq)]
pub enum Expr {
    Integer(i64),
    Float(String),
    DeBruijn(usize),
    Identifier(String),
    BinaryOp(Token, Box<Expr>, Box<Expr>),
    Apply(Box<Expr>, Vec<Expr>),
    Move(Box<Expr>),
    Borrow(Box<Expr>),
    MutBorrow(Box<Expr>),
    Define(String, Vec<Param>, Box<Expr>, bool),
    Shape(String, Vec<String>, bool),
    New(String, Box<Expr>),
    Get(Box<Expr>, String, Box<Expr>),
    SetField(Box<Expr>, String, Box<Expr>, Box<Expr>),
    If(Box<Expr>, Box<Expr>, Box<Expr>),
    Expand(String),
    Let(String, Box<Expr>, Box<Expr>),
    Import(String, String, usize),
    String(String),
    Len(Box<Expr>),
    Cat(Box<Expr>, Box<Expr>),
    Sub(Box<Expr>, Box<Expr>, Box<Expr>),
    Loc(Box<Expr>, Box<Expr>),
    Reg(Box<Expr>, Box<Expr>),
    Read(Box<Expr>),
    Write(Box<Expr>, Box<Expr>),
    Str(Box<Expr>),
    Split(Box<Expr>, Box<Expr>, Box<Expr>),
    TimeNow,
    TimeNano,
    TimeGet(Box<Expr>, Box<Expr>),
    TimeSet(Box<Expr>, Box<Expr>, Box<Expr>, Box<Expr>, Box<Expr>, Box<Expr>),
    Env(Box<Expr>),
    Sequence(Box<Expr>, Box<Expr>),
    Pack(Box<Expr>),
    Unpack(Box<Expr>, String),
    Metadata(Box<Expr>, Box<Expr>, Box<Expr>),
    OtelEmit(Box<Expr>, Box<Expr>, Box<Expr>, Box<Expr>),
    MapField(Box<Expr>, String, Box<Expr>),
    Filter(Box<Expr>, Box<Expr>),
    MoneyOp(Token, Box<Expr>, Box<Expr>),
    MoneyStr(Box<Expr>),
    TimeOp(Token, Box<Expr>, Box<Expr>),
    TimeZone,
    Panic(Box<Expr>),
    Trap(Box<Expr>, Box<Expr>),
    HttpClient(Box<Expr>, Box<Expr>, Box<Expr>),
    HttpServer(Box<Expr>, Box<Expr>),
    HttpHeader(Box<Expr>, Box<Expr>),
    FileOpen(Box<Expr>, Box<Expr>),
}

/// The mathematical content of an expression: strings become character
/// sequences and vectors become sequences.
pub enum ExprV {
    Integer(i64),
    Float(Seq<char>),
    DeBruijn(usize),
    Identifier(Seq<char>),
    BinaryOp(TokenV, Box<ExprV>, Box<ExprV>),
    Apply(Box<ExprV>, Seq<ExprV>),
    Move(Box<ExprV>),
    Borrow(Box<ExprV>),
    MutBorrow(Box<ExprV>),
    Define(Seq<char>, Seq<ParamV>, Box<ExprV>, bool),
    Shape(Seq<char>, Seq<Seq<char>>, bool),
    New(Seq<char>, Box<ExprV>),
    Get(Box<ExprV>, Seq<char>, Box<ExprV>),
    SetField(Box<ExprV>, Seq<char>, Box<ExprV>, Box<ExprV>),
    If(Box<ExprV>, Box<ExprV>, Box<ExprV>),
    Expand(Seq<char>),
    Let(Seq<char>, Box<ExprV>, Box<ExprV>),
    Import(Seq<char>, Seq<char>, usize),
    String(Seq<char>),
    Len(Box<ExprV>),
    Cat(Box<ExprV>, Box<ExprV>),
    Sub(Box<ExprV>, Box<ExprV>, Box<ExprV>),
    Loc(Box<ExprV>, Box<ExprV>),
    Reg(Box<ExprV>, Box<ExprV>),
    Read(Box<ExprV>),
    Write(Box<ExprV>, Box<ExprV>),
    Str(Box<ExprV>),
    Split(Box<ExprV>, Box<ExprV>, Box<ExprV>),
    TimeNow,
    TimeNano,
    TimeGet(Box<ExprV>, Box<ExprV>),
    TimeSet(Box<ExprV>, Box<ExprV>, Box<ExprV>, Box<ExprV>, Box<ExprV>, Box<ExprV>),
    Env(Box<ExprV>),
    Sequence(Box<ExprV>, Box<ExprV>),
    Pack(Box<ExprV>),
    Unpack(Box<ExprV>, Seq<char>),
    Metadata(Box<ExprV>, Box<ExprV>, Box<ExprV>),
    OtelEmit(Box<ExprV>, Box<ExprV>, Box<ExprV>, Box<ExprV>),
    MapField(Box<ExprV>, Seq<char>, Box<ExprV>),
    Filter(Box<ExprV>, Box<ExprV>),
    MoneyOp(TokenV, Box<ExprV>, Box<ExprV>),
    MoneyStr(Box<ExprV>),
    TimeOp(TokenV, Box<ExprV>, Box<ExprV>),
    TimeZone,
    Panic(Box<ExprV>),
    Trap(Box<ExprV>, Box<ExprV>),
    HttpClient(Box<ExprV>, Box<ExprV>, Box<ExprV>),
    HttpServer(Box<ExprV>, Box<ExprV>),
    HttpHeader(Box<ExprV>, Box<ExprV>),
    FileOpen(Box<ExprV>, Box<ExprV>),
}

/// The views of a sequence of expressions.
pub open spec fn view_exprs(v: Seq<Expr>) -> Seq<ExprV>
    decreases v,
{
    if v.len() == 0 {
        Seq::empty()
    } else {
        seq![expr_view(v[0])] + view_exprs(v.drop_first())
    }
}

/// The views of a sequence of parameters.
pub open spec fn view_params(v: Seq<Param>) -> Seq<ParamV> {
    v.map_values(|p: Param| p@)
}

/// The views of a sequence of strings.
pub open spec fn view_strings(v: Seq<String>) -> Seq<Seq<char>> {
    v.map_values(|s: String| s@)
}

/// The view of an expression.
pub open spec fn expr_view(e: Expr) -> ExprV
    decreases e,
{
        match e {
        Expr::Integer(a0) => ExprV::Integer(a0),
        Expr::Float(a0) => ExprV::Float(a0@),
        Expr::DeBruijn(a0) => ExprV::DeBruijn(a0),
        Expr::Identifier(a0) => ExprV::Identifier(a0@),
        Expr::BinaryOp(a0, a1, a2) => ExprV::BinaryOp(a0@, Box::new(expr_view(*a1)), Box::new(expr_view(*a2))),
        Expr::Apply(a0, a1) => ExprV::Apply(Box::new(expr_view(*a0)), view_exprs(a1@)),
        Expr::Move(a0) => ExprV::Move(Box::new(expr_view(*a0))),
        Expr::Borrow(a0) => ExprV::Borrow(Box::new(expr_view(*a0))),
        Expr::MutBorrow(a0) => ExprV::MutBorrow(Box::new(expr_view(*a0))),
        Expr::Define(a0, a1, a2, a3) => ExprV::Define(a0@, view_params(a1@), Box::new(expr_view(*a2)), a3),
        Expr::Shape(a0, a1, a2) => ExprV::Shape(a0@, view_strings(a1@), a2),
        Expr::New(a0, a1) => ExprV::New(a0@, Box::new(expr_view(*a1))),
        Expr::Get(a0, a1, a2) => ExprV::Get(Box::new(expr_view(*a0)), a1@, Box::new(expr_view(*a2))),
        Expr::SetField(a0, a1, a2, a3) => ExprV::SetField(Box::new(expr_view(*a0)), a1@, Box::new(expr_view(*a2)), Box::new(expr_view(*a3))),
        Expr::If(a0, a1, a2) => ExprV::If(Box::new(expr_view(*a0)), Box::new(expr_view(*a1)), Box::new(expr_view(*a2))),
        Expr::Expand(a0) => ExprV::Expand(a0@),
        Expr::Let(a0, a1, a2) => ExprV::Let(a0@, Box::new(expr_view(*a1)), Box::new(expr_view(*a2))),
        Expr::Import(a0, a1, a2) => ExprV::Import(a0@, a1@, a2),
        Expr::String(a0) => ExprV::String(a0@),
        Expr::Len(a0) => ExprV::Len(Box::new(expr_view(*a0))),
        Expr::Cat(a0, a1) => ExprV::Cat(Box::new(expr_view(*a0)), Box::new(expr_view(*a1))),
        Expr::Sub(a0, a1, a2) => ExprV::Sub(Box::new(expr_view(*a0)), Box::new(expr_view(*a1)), Box::new(expr_view(*a2))),
        Expr::Loc(a0, a1) => ExprV::Loc(Box::new(expr_view(*a0)), Box::new(expr_view(*a1))),
        Expr::Reg(a0, a1) => ExprV::Reg(Box::new(expr_view(*a0)), Box::new(expr_view(*a1))),
        Expr::Read(a0) => ExprV::Read(Box::new(expr_view(*a0))),
        Expr::Write(a0, a1) => ExprV::Write(Box::new(expr_view(*a0)), Box::new(expr_view(*a1))),
        Expr::Str(a0) => ExprV::Str(Box::new(expr_view(*a0))),
        Expr::Split(a0, a1, a2) => ExprV::Split(Box::new(expr_view(*a0)), Box::new(expr_view(*a1)), Box::new(expr_view(*a2))),
        Expr::TimeNow => ExprV::TimeNow,
        Expr::TimeNano => ExprV::TimeNano,
        Expr::TimeGet(a0, a1) => ExprV::TimeGet(Box::new(expr_view(*a0)), Box::new(expr_view(*a1))),
        Expr::TimeSet(a0, a1, a2, a3, a4, a5) => ExprV::TimeSet(Box::new(expr_view(*a0)), Box::new(expr_view(*a1)), Box::new(expr_view(*a2)), Box::new(expr_view(*a3)), Box::new(expr_view(*a4)), Box::new(expr_view(*a5))),
        Expr::Env(a0) => ExprV::Env(Box::new(expr_view(*a0))),
        Expr::Sequence(a0, a1) => ExprV::Sequence(Box::new(expr_view(*a0)), Box::new(expr_view(*a1))),
        Expr::Pack(a0) => ExprV::Pack(Box::new(expr_view(*a0))),
        Expr::Unpack(a0, a1) => ExprV::Unpack(Box::new(expr_view(*a0)), a1@),
        Expr::Metadata(a0, a1, a2) => ExprV::Metadata(Box::new(expr_view(*a0)), Box::new(expr_view(*a1)), Box::new(expr_view(*a2))),
        Expr::OtelEmit(a0, a1, a2, a3) => ExprV::OtelEmit(Box::new(expr_view(*a0)), Box::new(expr_view(*a1)), Box::new(expr_view(*a2)), Box::new(expr_view(*a3))),
        Expr::MapField(a0, a1, a2) => ExprV::MapField(Box::new(expr_view(*a0)), a1@, Box::new(expr_view(*a2))),
        Expr::Filter(a0, a1) => ExprV::Filter(Box::new(expr_view(*a0)), Box::new(expr_view(*a1))),
        Expr::MoneyOp(a0, a1, a2) => ExprV::MoneyOp(a0@, Box::new(expr_view(*a1)), Box::new(expr_view(*a2))),
        Expr::MoneyStr(a0) => ExprV::MoneyStr(Box::new(expr_view(*a0))),
        Expr::TimeOp(a0, a1, a2) => ExprV::TimeOp(a0@, Box::new(expr_view(*a1)), Box::new(expr_view(*a2))),
        Expr::TimeZone => ExprV::TimeZone,
        Expr::Panic(a0) => ExprV::Panic(Box::new(expr_view(*a0))),
        Expr::Trap(a0, a1) => ExprV::Trap(Box::new(expr_view(*a0)), Box::new(expr_view(*a1))),
        Expr::HttpClient(a0, a1, a2) => ExprV::HttpClient(Box::new(expr_view(*a0)), Box::new(expr_view(*a1)), Box::new(expr_view(*a2))),
        Expr::HttpServer(a0, a1) => ExprV::HttpServer(Box::new(expr_view(*a0)), Box::new(expr_view(*a1))),
        Expr::HttpHeader(a0, a1) => ExprV::HttpHeader(Box::new(expr_view(*a0)), Box::new(expr_view(*a1))),
        Expr::FileOpen(a0, a1) => ExprV::FileOpen(Box::new(expr_view(*a0)), Box::new(expr_view(*a1))),
    }

}

impl View for Expr {
    type V = ExprV;

    open spec fn view(&self) -> ExprV {
        expr_view(*self)
    }
}

pub proof fn lemma_view_exprs(v: Seq<Expr>)
    ensures
        view_exprs(v).len() == v.len(),
        forall|i: int| 0 <= i < v.len() ==> #[trigger] view_exprs(v)[i] == v[i]@,
    decreases v.len(),
{
    if v.len() > 0 {
        lemma_view_exprs(v.drop_first());
        assert forall|i: int| 0 <= i < v.len() implies #[trigger] view_exprs(v)[i] == v[i]@ by {
            if i > 0 {
                assert(v.drop_first()[i - 1] == v[i]);
            }
        }
    }
}

pub proof fn lemma_view_exprs_push(v: Seq<Expr>, e: Expr)
    ensures
        view_exprs(v.push(e)) == view_exprs(v).push(e@),
{
    lemma_view_exprs(v);
    lemma_view_exprs(v.push(e));
    assert(view_exprs(v.push(e)) =~= view_exprs(v).push(e@));
}

/// A copy of a sequence of strings.
pub fn copy_strings(v: &Vec<String>) -> (r: Vec<String>)
    ensures
        view_strings(r@) == view_strings(v@),
{
    let mut r: Vec<String> = Vec::new();
    let mut i: usize = 0;
    while i < v.len()
        invariant
            i <= v@.len(),
            view_strings(r@) == view_strings(v@.take(i as int)),
        decreases v@.len() - i,
    {
        let c = copy_string(&v[i]);
        let ghost old_r = r@;
        r.push(c);
        proof {
            assert(v@.take(i + 1) == v@.take(i as int).push(v@[i as int]));
            assert(view_strings(r@) =~= view_strings(old_r).push(c@));
            assert(view_strings(v@.take(i + 1)) =~= view_strings(v@.take(i as int)).push(v@[i as int]@));
        }
        i = i + 1;
    }
    proof {
        assert(v@.take(v@.len() as int) == v@);
    }
    r
}

/// A copy of a sequence of parameters.
pub fn copy_params(v: &Vec<Param>) -> (r: Vec<Param>)
    ensures
        view_params(r@) == view_params(v@),
{
    let mut r: Vec<Param> = Vec::new();
    let mut i: usize = 0;
    while i < v.len()
        invariant
            i <= v@.len(),
            view_params(r@) == view_params(v@.take(i as int)),
        decreases v@.len() - i,
    {
        let c = v[i].copy();
        let ghost old_r = r@;
        r.push(c);
        proof {
            assert(v@.take(i + 1) == v@.take(i as int).push(v@[i as int]));
            assert(view_params(r@) =~= view_params(old_r).push(c@));
            assert(view_params(v@.take(i + 1)) =~= view_params(v@.take(i as int)).push(v@[i as int]@));
        }
        i = i + 1;
    }
    proof {
        assert(v@.take(v@.len() as int) == v@);
    }
    r
}

/// A deep copy of a sequence of expressions.
pub fn copy_exprs(v: &Vec<Expr>) -> (r: Vec<Expr>)
    ensures
        view_exprs(r@) == view_exprs(v@),
    decreases v@, 0nat,
{
    let mut r: Vec<Expr> = Vec::new();
    let mut i: usize = 0;
    while i < v.len()
        invariant
            i <= v@.len(),
            view_exprs(r@) == view_exprs(v@.take(i as int)),
        decreases v@.len() - i,
    {
        let c = v[i].deep_copy();
        proof {
            lemma_view_exprs_push(r@, c);
            lemma_view_exprs_push(v@.take(i as int), v@[i as int]);
            assert(v@.take(i + 1) == v@.take(i as int).push(v@[i as int]));
        }
        r.push(c);
        i = i + 1;
    }
    proof {
        assert(v@.take(v@.len() as int) == v@);
    }
    r
}

impl Expr {
    /// A deep copy of this expression.
    pub fn deep_copy(&self) -> (e: Expr)
        ensures
            e@ == self@,
        decreases self, 1nat,
    {
        match self {
            Expr::Integer(a0) => Expr::Integer(*a0),
            Expr::Float(a0) => Expr::Float(copy_string(a0)),
            Expr::DeBruijn(a0) => Expr::DeBruijn(*a0),
            Expr::Identifier(a0) => Expr::Identifier(copy_string(a0)),
            Expr::BinaryOp(a0, a1, a2) => Expr::BinaryOp(a0.copy(), Box::new(a1.deep_copy()), Box::new(a2.deep_copy())),
            Expr::Apply(a0, a1) => Expr::Apply(Box::new(a0.deep_copy()), copy_exprs(a1)),
            Expr::Move(a0) => Expr::Move(Box::new(a0.deep_copy())),
            Expr::Borrow(a0) => Expr::Borrow(Box::new(a0.deep_copy())),
            Expr::MutBorrow(a0) => Expr::MutBorrow(Box::new(a0.deep_copy())),
            Expr::Define(a0, a1, a2, a3) => Expr::Define(copy_string(a0), copy_params(a1), Box::new(a2.deep_copy()), *a3),
            Expr::Shape(a0, a1, a2) => Expr::Shape(copy_string(a0), copy_strings(a1), *a2),
            Expr::New(a0, a1) => Expr::New(copy_string(a0), Box::new(a1.deep_copy())),
            Expr::Get(a0, a1, a2) => Expr::Get(Box::new(a0.deep_copy()), copy_string(a1), Box::new(a2.deep_copy())),
            Expr::SetField(a0, a1, a2, a3) => Expr::SetField(Box::new(a0.deep_copy()), copy_string(a1), Box::new(a2.deep_copy()), Box::new(a3.deep_copy())),
            Expr::If(a0, a1, a2) => Expr::If(Box::new(a0.deep_copy()), Box::new(a1.deep_copy()), Box::new(a2.deep_copy())),
            Expr::Expand(a0) => Expr::Expand(copy_string(a0)),
            Expr::Let(a0, a1, a2) => Expr::Let(copy_string(a0), Box::new(a1.deep_copy()), Box::new(a2.deep_copy())),
            Expr::Import(a0, a1, a2) => Expr::Import(copy_string(a0), copy_string(a1), *a2),
            Expr::String(a0) => Expr::String(copy_string(a0)),
            Expr::Len(a0) => Expr::Len(Box::new(a0.deep_copy())),
            Expr::Cat(a0, a1) => Expr::Cat(Box::new(a0.deep_copy()), Box::new(a1.deep_copy())),
            Expr::Sub(a0, a1, a2) => Expr::Sub(Box::new(a0.deep_copy()), Box::new(a1.deep_copy()), Box::new(a2.deep_copy())),
            Expr::Loc(a0, a1) => Expr::Loc(Box::new(a0.deep_copy()), Box::new(a1.deep_copy())),
            Expr::Reg(a0, a1) => Expr::Reg(Box::new(a0.deep_copy()), Box::new(a1.deep_copy())),
            Expr::Read(a0) => Expr::Read(Box::new(a0.deep_copy())),
            Expr::Write(a0, a1) => Expr::Write(Box::new(a0.deep_copy()), Box::new(a1.deep_copy())),
            Expr::Str(a0) => Expr::Str(Box::new(a0.deep_copy())),
            Expr::Split(a0, a1, a2) => Expr::Split(Box::new(a0.deep_copy()), Box::new(a1.deep_copy()), Box::new(a2.deep_copy())),
            Expr::TimeNow => Expr::TimeNow,
            Expr::TimeNano => Expr::TimeNano,
            Expr::TimeGet(a0, a1) => Expr::TimeGet(Box::new(a0.deep_copy()), Box::new(a1.deep_copy())),
            Expr::TimeSet(a0, a1, a2, a3, a4, a5) => Expr::TimeSet(Box::new(a0.deep_copy()), Box::new(a1.deep_copy()), Box::new(a2.deep_copy()), Box::new(a3.deep_copy()), Box::new(a4.deep_copy()), Box::new(a5.deep_copy())),
            Expr::Env(a0) => Expr::Env(Box::new(a0.deep_copy())),
            Expr::Sequence(a0, a1) => Expr::Sequence(Box::new(a0.deep_copy()), Box::new(a1.deep_copy())),
            Expr::Pack(a0) => Expr::Pack(Box::new(a0.deep_copy())),
            Expr::Unpack(a0, a1) => Expr::Unpack(Box::new(a0.deep_copy()), copy_string(a1)),
            Expr::Metadata(a0, a1, a2) => Expr::Metadata(Box::new(a0.deep_copy()), Box::new(a1.deep_copy()), Box::new(a2.deep_copy())),
            Expr::OtelEmit(a0, a1, a2, a3) => Expr::OtelEmit(Box::new(a0.deep_copy()), Box::new(a1.deep_copy()), Box::new(a2.deep_copy()), Box::new(a3.deep_copy())),
            Expr::MapField(a0, a1, a2) => Expr::MapField(Box::new(a0.deep_copy()), copy_string(a1), Box::new(a2.deep_copy())),
            Expr::Filter(a0, a1) => Expr::Filter(Box::new(a0.deep_copy()), Box::new(a1.deep_copy())),
            Expr::MoneyOp(a0, a1, a2) => Expr::MoneyOp(a0.copy(), Box::new(a1.deep_copy()), Box::new(a2.deep_copy())),
            Expr::MoneyStr(a0) => Expr::MoneyStr(Box::new(a0.deep_copy())),
            Expr::TimeOp(a0, a1, a2) => Expr::TimeOp(a0.copy(), Box::new(a1.deep_copy()), Box::new(a2.deep_copy())),
            Expr::TimeZone => Expr::TimeZone,
            Expr::Panic(a0) => Expr::Panic(Box::new(a0.deep_copy())),
            Expr::Trap(a0, a1) => Expr::Trap(Box::new(a0.deep_copy()), Box::new(a1.deep_copy())),
            Expr::HttpClient(a0, a1, a2) => Expr::HttpClient(Box::new(a0.deep_copy()), Box::new(a1.deep_copy()), Box::new(a2.deep_copy())),
            Expr::HttpServer(a0, a1) => Expr::HttpServer(Box::new(a0.deep_copy()), Box::new(a1.deep_copy())),
            Expr::HttpHeader(a0, a1) => Expr::HttpHeader(Box::new(a0.deep_copy()), Box::new(a1.deep_copy())),
            Expr::FileOpen(a0, a1) => Expr::FileOpen(Box::new(a0.deep_copy()), Box::new(a1.deep_copy())),
        }
    }
}

impl Clone for Expr {
    fn clone(&self) -> (e: Self)
        ensures
            e@ == self@,
    {
        self.deep_copy()
    }
}

/// The shape an expression evaluates to, where it can be told: the shape a
/// `New` or `Unpack` names, the shape of the instance a `Map` or `Filter`
/// works on, the shape recorded for a stack slot a De Bruijn index names
/// (index 0 is the last slot), seen through moves and borrows.
pub open spec fn shape_of(e: ExprV, stack_shapes: Seq<Option<Seq<char>>>) -> Option<Seq<char>>
    decreases e,
{
    match e {
        ExprV::New(name, _) => Some(name),
        ExprV::Unpack(_, name) => Some(name),
        ExprV::MapField(inner, _, _) => shape_of(*inner, stack_shapes),
        ExprV::Filter(inner, _) => shape_of(*inner, stack_shapes),
        ExprV::DeBruijn(idx) => if idx < stack_shapes.len() {
            stack_shapes[stack_shapes.len() - 1 - idx]
        } else {
            None
        },
        ExprV::Move(inner) => shape_of(*inner, stack_shapes),
        ExprV::Borrow(inner) => shape_of(*inner, stack_shapes),
        ExprV::MutBorrow(inner) => shape_of(*inner, stack_shapes),
        _ => None,
    }
}

/// The views of a sequence of optional names.
pub open spec fn view_opt_names(v: Seq<Option<String>>) -> Seq<Option<Seq<char>>> {
    v.map_values(|o: Option<String>| match o {
        Some(s) => Some(s@),
        None => None,
    })
}

/// A copy of an optional name.
pub fn copy_opt_name(o: &Option<String>) -> (r: Option<String>)
    ensures
        match (r, *o) {
            (Some(a), Some(b)) => a@ == b@,
            (None, None) => true,
            _ => false,
        },
{
    match o {
        Some(s) => Some(copy_string(s)),
        None => None,
    }
}

/// Infers the shape of `expr` from the shapes of the stack slots; see `shape_of`.
pub fn infer_shape_from_stack(expr: &Expr, stack_shapes: &[Option<String>]) -> (r: Option<String>)
    ensures
        match (r, shape_of(expr@, view_opt_names(stack_shapes@))) {
            (Some(a), Some(b)) => a@ == b,
            (None, None) => true,
            _ => false,
        },
    decreases expr,
{
    match expr {
        Expr::New(name, _) => Some(copy_string(name)),
        Expr::Unpack(_, name) => Some(copy_string(name)),
        Expr::MapField(e, _, _) => infer_shape_from_stack(e, stack_shapes),
        Expr::Filter(e, _) => infer_shape_from_stack(e, stack_shapes),
        Expr::DeBruijn(idx) => {
            if *idx < stack_shapes.len() {
                copy_opt_name(&stack_shapes[stack_shapes.len() - 1 - *idx])
            } else {
                None
            }
        },
        Expr::Move(inner) => infer_shape_from_stack(inner, stack_shapes),
        Expr::Borrow(inner) => infer_shape_from_stack(inner, stack_shapes),
        Expr::MutBorrow(inner) => infer_shape_from_stack(inner, stack_shapes),
        _ => None,
    }
}

} // verus!
