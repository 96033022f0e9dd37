//! The ownership analysis: every function body is walked with a stack of slot
//! states (one per bound value, innermost last), so that a moved value is not
//! read or moved again, a borrowed value is not moved, both branches of a
//! conditional leave the stack alike, and names, shapes and fields exist.

use vstd::prelude::*;
use crate::compiler::ast::{Expr, ExprV, Param, ParamV, copy_opt_name, infer_shape_from_stack, shape_of, view_opt_names, view_params, view_strings};
use crate::compiler::codegen::VariableState;
use crate::compiler::error::{CompileError, ErrorView};
use crate::compiler::analysis::children;
use crate::compiler::grammar::is_binop;
use crate::compiler::lexer::{Token, TokenV};
use crate::compiler::signature::{view_funcs, view_shapes};
use crate::compiler::table::{find_entry, insert_fields, insert_number, lookup_fields, lookup_number, table_insert};
use crate::text::{copy_string, push_str, string_eq, string_of};

verus! {

/// What the analysis knows while it walks a function body: the shapes and
/// their fields, the functions and their arities, the state and the shape of
/// each stack slot, and the slot of each template parameter.
pub struct VerificationContext {
    pub shapes: Vec<(String, Vec<String>)>,
    pub functions: Vec<(String, usize)>,
    pub stack: Vec<VariableState>,
    pub stack_shapes: Vec<Option<String>>,
    pub expand_map: Vec<(String, usize)>,
}

/// The tables a check consults, as sequences of named entries.
pub struct CheckEnv {
    pub shapes: Seq<(Seq<char>, Seq<Seq<char>>)>,
    pub funcs: Seq<(Seq<char>, usize)>,
    pub expand: Seq<(Seq<char>, usize)>,
}

/// The outcome of a check: the verdict and the slot states afterwards.
pub type Checked = (Result<(), Seq<char>>, Seq<VariableState>);

impl VerificationContext {
    /// One shape per stack slot.
    pub open spec fn wf(&self) -> bool {
        self.stack@.len() == self.stack_shapes@.len()
    }

    /// The tables of this context.
    pub open spec fn env(&self) -> CheckEnv {
        CheckEnv {
            shapes: view_shapes(self.shapes@),
            funcs: view_funcs(self.functions@),
            expand: view_funcs(self.expand_map@),
        }
    }
}

/// The message of error E013.
pub open spec fn unknown_identifier(name: Seq<char>) -> Seq<char> {
    "E013: Unknown identifier "@ + name
}

/// Some shape has a field of this name.
pub open spec fn any_shape_has(shapes: Seq<(Seq<char>, Seq<Seq<char>>)>, field: Seq<char>) -> bool {
    exists|i: int| 0 <= i < shapes.len() && (#[trigger] shapes[i]).1.contains(field)
}

/// The field exists: in the inferred shape when there is one, else in some
/// shape.
pub open spec fn field_known(shapes: Seq<(Seq<char>, Seq<Seq<char>>)>, inferred: Option<Seq<char>>, field: Seq<char>) -> bool {
    match inferred {
        Some(n) => match find_entry(shapes, n) {
            Some(fs) => fs.contains(field),
            None => false,
        },
        None => any_shape_has(shapes, field),
    }
}

/// A function name that is known (or an expression that is not a name).
pub open spec fn callee_known(funcs: Seq<(Seq<char>, usize)>, g: ExprV) -> bool {
    match g {
        ExprV::Identifier(name) => find_entry(funcs, name) is Some,
        _ => true,
    }
}

/// The slots that the branches of a trap see, among the first `n`: each
/// slot that is available or borrowed, as borrowed, with its shape.
pub open spec fn captures_upto(st: Seq<VariableState>, ss: Seq<Option<Seq<char>>>, n: int) -> (
    Seq<VariableState>,
    Seq<Option<Seq<char>>>,
)
    decreases n,
{
    if n <= 0 {
        (Seq::empty(), Seq::empty())
    } else {
        let (a, b) = captures_upto(st, ss, n - 1);
        if st[n - 1] == VariableState::Available || st[n - 1] == VariableState::Borrowed {
            (a.push(VariableState::Borrowed), b.push(ss[n - 1]))
        } else {
            (a, b)
        }
    }
}

pub open spec fn fail(code: Seq<char>, st: Seq<VariableState>) -> Checked {
    (Err(code), st)
}

/// Checks `e2` after an outcome `r`, unless `r` is already an error.
pub open spec fn and_then(r: Checked, e2: ExprV, env: CheckEnv, ss: Seq<Option<Seq<char>>>) -> Checked
    decreases e2, 1nat,
{
    match r.0 {
        Err(x) => (Err(x), r.1),
        Ok(_) => check(e2, env, ss, r.1),
    }
}

/// Checks the expressions of a list in order.
pub open spec fn check_list(args: Seq<ExprV>, env: CheckEnv, ss: Seq<Option<Seq<char>>>, st: Seq<VariableState>) -> Checked
    decreases args, 0nat,
{
    if args.len() == 0 {
        (Ok(()), st)
    } else {
        let (r, st1) = check(args[0], env, ss, st);
        match r {
            Err(x) => (Err(x), st1),
            Ok(_) => check_list(args.subrange(1, args.len() as int), env, ss, st1),
        }
    }
}

/// Reading the slot at `a` (E003 when there is none, E004 when it was moved).
pub open spec fn read_slot(st: Seq<VariableState>, present: bool, a: int) -> Checked {
    if !present {
        fail("E003"@, st)
    } else if st[a] == VariableState::Moved {
        fail("E004"@, st)
    } else {
        (Ok(()), st)
    }
}

/// Moving out of the slot at `a` (E003 when there is none, E005 when it was
/// moved already, E016 while it is borrowed).
pub open spec fn move_slot(st: Seq<VariableState>, present: bool, a: int) -> Checked {
    if !present {
        fail("E003"@, st)
    } else if st[a] == VariableState::Moved {
        fail("E005"@, st)
    } else if st[a] == VariableState::Borrowed {
        fail("E016"@, st)
    } else {
        (Ok(()), st.update(a, VariableState::Moved))
    }
}

/// The check of one expression against the tables `env`, with slot shapes
/// `ss` and slot states `st`.
pub open spec fn check(e: ExprV, env: CheckEnv, ss: Seq<Option<Seq<char>>>, st: Seq<VariableState>) -> Checked
    decreases e, 0nat,
{
    match e {
        ExprV::Integer(_) | ExprV::Float(_) | ExprV::String(_) | ExprV::TimeZone | ExprV::TimeNow | ExprV::TimeNano => (
            Ok(()),
            st,
        ),
        ExprV::DeBruijn(i) => read_slot(st, i < st.len(), st.len() - 1 - i),
        ExprV::Identifier(n) => if find_entry(env.funcs, n) is Some {
            (Ok(()), st)
        } else {
            fail(unknown_identifier(n), st)
        },
        ExprV::Expand(n) => match find_entry(env.expand, n) {
            Some(x) => read_slot(st, x < st.len(), x as int),
            None => fail(unknown_identifier(n), st),
        },
        ExprV::Move(inner) => match *inner {
            ExprV::DeBruijn(i) => move_slot(st, i < st.len(), st.len() - 1 - i),
            ExprV::Expand(n) => match find_entry(env.expand, n) {
                Some(x) => move_slot(st, x < st.len(), x as int),
                None => fail(unknown_identifier(n), st),
            },
            _ => check(*inner, env, ss, st),
        },
        ExprV::Borrow(inner) => check(*inner, env, ss, st),
        ExprV::MutBorrow(inner) => check(*inner, env, ss, st),
        ExprV::Let(_, v, b) => {
            let (r1, st1) = check(*v, env, ss, st);
            match r1 {
                Err(x) => (Err(x), st1),
                Ok(_) => {
                    let (r2, st2) = check(*b, env, ss.push(shape_of(*v, ss)), st1.push(VariableState::Available));
                    (r2, st2.drop_last())
                },
            }
        },
        ExprV::If(c, t, f) => {
            let (r1, st1) = check(*c, env, ss, st);
            match r1 {
                Err(x) => (Err(x), st1),
                Ok(_) => {
                    let (r2, st2) = check(*t, env, ss, st1);
                    match r2 {
                        Err(x) => (Err(x), st2),
                        Ok(_) => {
                            let (r3, st3) = check(*f, env, ss, st1);
                            match r3 {
                                Err(x) => (Err(x), st3),
                                Ok(_) => if st2 == st3 {
                                    (Ok(()), st3)
                                } else {
                                    fail("E009"@, st3)
                                },
                            }
                        },
                    }
                },
            }
        },
        ExprV::Sequence(a, b) => and_then(check(*a, env, ss, st), *b, env, ss),
        ExprV::New(n, c) => if find_entry(env.shapes, n) is None {
            fail("E006"@, st)
        } else {
            check(*c, env, ss, st)
        },
        ExprV::Get(inst, field, idx) => {
            let r = and_then(check(*inst, env, ss, st), *idx, env, ss);
            if r.0 is Ok && !field_known(env.shapes, shape_of(*inst, ss), field) {
                fail("E007"@, r.1)
            } else {
                r
            }
        },
        ExprV::SetField(inst, field, idx, val) => {
            let r = and_then(and_then(check(*inst, env, ss, st), *idx, env, ss), *val, env, ss);
            if r.0 is Ok && !field_known(env.shapes, shape_of(*inst, ss), field) {
                fail("E007"@, r.1)
            } else {
                r
            }
        },
        ExprV::Pack(x) => {
            let r = check(*x, env, ss, st);
            if r.0 is Ok && !(match shape_of(*x, ss) {
                Some(n) => find_entry(env.shapes, n) is Some,
                None => false,
            }) {
                fail("E006"@, r.1)
            } else {
                r
            }
        },
        ExprV::Unpack(x, n) => {
            let r = check(*x, env, ss, st);
            if r.0 is Ok && find_entry(env.shapes, n) is None {
                fail("E006"@, r.1)
            } else {
                r
            }
        },
        ExprV::MapField(x, field, g) => {
            let r = check(*x, env, ss, st);
            if r.0 is Err {
                r
            } else {
                match shape_of(*x, ss) {
                    Some(n) => match find_entry(env.shapes, n) {
                        Some(fs) => if !fs.contains(field) {
                            fail("E007"@, r.1)
                        } else if !callee_known(env.funcs, *g) {
                            fail("E010"@, r.1)
                        } else {
                            r
                        },
                        None => fail("E006"@, r.1),
                    },
                    None => fail("E006"@, r.1),
                }
            }
        },
        ExprV::Filter(x, g) => {
            let r = check(*x, env, ss, st);
            if r.0 is Err {
                r
            } else if !(match shape_of(*x, ss) {
                Some(n) => find_entry(env.shapes, n) is Some,
                None => false,
            }) {
                fail("E006"@, r.1)
            } else if !callee_known(env.funcs, *g) {
                fail("E010"@, r.1)
            } else {
                r
            }
        },
        ExprV::Apply(f, args) => match *f {
            ExprV::Identifier(name) => if find_entry(env.funcs, name) is None {
                fail("E010"@, st)
            } else {
                check_list(args, env, ss, st)
            },
            _ => fail("E012"@, st),
        },
        ExprV::Trap(t, fb) => {
            let (cs, css) = captures_upto(st, ss, st.len() as int);
            let (r1, _) = check(*t, env, css, cs);
            match r1 {
                Err(x) => (Err(x), st),
                Ok(_) => (check(*fb, env, css, cs).0, st),
            }
        },
        ExprV::BinaryOp(op, l, r) => if is_binop(op) {
            and_then(check(*l, env, ss, st), *r, env, ss)
        } else {
            fail("E008"@, st)
        },
        ExprV::Cat(a, b) => and_then(check(*a, env, ss, st), *b, env, ss),
        ExprV::Loc(a, b) => and_then(check(*a, env, ss, st), *b, env, ss),
        ExprV::Reg(a, b) => and_then(check(*a, env, ss, st), *b, env, ss),
        ExprV::Write(a, b) => and_then(check(*a, env, ss, st), *b, env, ss),
        ExprV::TimeGet(a, b) => and_then(check(*a, env, ss, st), *b, env, ss),
        ExprV::HttpServer(a, b) => and_then(check(*a, env, ss, st), *b, env, ss),
        ExprV::HttpHeader(a, b) => and_then(check(*a, env, ss, st), *b, env, ss),
        ExprV::FileOpen(a, b) => and_then(check(*a, env, ss, st), *b, env, ss),
        ExprV::MoneyOp(_, a, b) => and_then(check(*a, env, ss, st), *b, env, ss),
        ExprV::TimeOp(_, a, b) => and_then(check(*a, env, ss, st), *b, env, ss),
        ExprV::Sub(a, b, c) => and_then(and_then(check(*a, env, ss, st), *b, env, ss), *c, env, ss),
        ExprV::Split(a, b, c) => and_then(and_then(check(*a, env, ss, st), *b, env, ss), *c, env, ss),
        ExprV::HttpClient(a, b, c) => and_then(and_then(check(*a, env, ss, st), *b, env, ss), *c, env, ss),
        ExprV::OtelEmit(a, b, c, d) => and_then(
            and_then(and_then(check(*a, env, ss, st), *b, env, ss), *c, env, ss),
            *d,
            env,
            ss,
        ),
        ExprV::TimeSet(a, b, c, d, f, g) => and_then(
            and_then(
                and_then(and_then(and_then(check(*a, env, ss, st), *b, env, ss), *c, env, ss), *d, env, ss),
                *f,
                env,
                ss,
            ),
            *g,
            env,
            ss,
        ),
        ExprV::Len(x) => check(*x, env, ss, st),
        ExprV::Str(x) => check(*x, env, ss, st),
        ExprV::Read(x) => check(*x, env, ss, st),
        ExprV::Env(x) => check(*x, env, ss, st),
        ExprV::MoneyStr(x) => check(*x, env, ss, st),
        ExprV::Panic(x) => check(*x, env, ss, st),
        ExprV::Define(_, _, b, _) => check(*b, env, ss, st),
        ExprV::Metadata(_, _, t) => check(*t, env, ss, st),
        ExprV::Shape(_, _, _) => (Ok(()), st),
        ExprV::Import(_, _, _) => (Ok(()), st),
    }
}

/// Slot states `b` can follow from `a`: the same number of slots, each kept
/// or moved out of an available or mutably borrowed slot.
pub open spec fn evolves(a: Seq<VariableState>, b: Seq<VariableState>) -> bool {
    &&& a.len() == b.len()
    &&& forall|i: int|
        0 <= i < a.len() ==> #[trigger] b[i] == a[i] || (b[i] == VariableState::Moved && (a[i]
            == VariableState::Available || a[i] == VariableState::MutBorrowed))
}

proof fn lemma_evolves_trans(a: Seq<VariableState>, b: Seq<VariableState>, c: Seq<VariableState>)
    requires
        evolves(a, b),
        evolves(b, c),
    ensures
        evolves(a, c),
{
    assert forall|i: int| 0 <= i < a.len() implies #[trigger] c[i] == a[i] || (c[i] == VariableState::Moved && (a[i]
        == VariableState::Available || a[i] == VariableState::MutBorrowed)) by {
        assert(b[i] == a[i] || (b[i] == VariableState::Moved && (a[i] == VariableState::Available || a[i]
            == VariableState::MutBorrowed)));
        assert(c[i] == b[i] || (c[i] == VariableState::Moved && (b[i] == VariableState::Available || b[i]
            == VariableState::MutBorrowed)));
    }
}

proof fn lemma_evolves_pop(a: Seq<VariableState>, x: VariableState, b: Seq<VariableState>)
    requires
        evolves(a.push(x), b),
    ensures
        evolves(a, b.drop_last()),
{
    assert forall|i: int| 0 <= i < a.len() implies #[trigger] b.drop_last()[i] == a[i] || (b.drop_last()[i]
        == VariableState::Moved && (a[i] == VariableState::Available || a[i] == VariableState::MutBorrowed)) by {
        assert(a.push(x)[i] == a[i]);
        assert(b.drop_last()[i] == b[i]);
    }
}

/// Checking after an outcome keeps what `check` keeps.
pub proof fn lemma_and_then_evolves(r: Checked, e2: ExprV, env: CheckEnv, ss: Seq<Option<Seq<char>>>)
    ensures
        evolves(r.1, and_then(r, e2, env, ss).1),
    decreases e2, 1nat,
{
    if r.0 is Ok {
        lemma_check_evolves(e2, env, ss, r.1);
    } else {
        assert(evolves(r.1, r.1));
    }
}

/// Checking a list keeps what `check` keeps.
pub proof fn lemma_check_list_evolves(args: Seq<ExprV>, env: CheckEnv, ss: Seq<Option<Seq<char>>>, st: Seq<VariableState>)
    ensures
        evolves(st, check_list(args, env, ss, st).1),
    decreases args, 0nat,
{
    if args.len() == 0 {
        assert(evolves(st, st));
    } else {
        lemma_check_evolves(args[0], env, ss, st);
        let (r, st1) = check(args[0], env, ss, st);
        if r is Ok {
            lemma_check_list_evolves(args.subrange(1, args.len() as int), env, ss, st1);
            lemma_evolves_trans(st, st1, check_list(args, env, ss, st).1);
        }
    }
}

/// What every check keeps: the number of slots stays the same, a moved slot
/// stays moved, and the only change a slot can undergo is being moved out
/// of while available or mutably borrowed.
pub proof fn lemma_check_evolves(e: ExprV, env: CheckEnv, ss: Seq<Option<Seq<char>>>, st: Seq<VariableState>)
    ensures
        evolves(st, check(e, env, ss, st).1),
    decreases e, 0nat,
{
    assert(evolves(st, st));
    match e {
        ExprV::Move(inner) => match *inner {
            ExprV::DeBruijn(i) => {},
            ExprV::Expand(n) => {},
            _ => lemma_check_evolves(*inner, env, ss, st),
        },
        ExprV::Borrow(inner) => lemma_check_evolves(*inner, env, ss, st),
        ExprV::MutBorrow(inner) => lemma_check_evolves(*inner, env, ss, st),
        ExprV::Let(_, v, b) => {
            lemma_check_evolves(*v, env, ss, st);
            let (r1, st1) = check(*v, env, ss, st);
            if r1 is Ok {
                let ss2 = ss.push(shape_of(*v, ss));
                let st1p = st1.push(VariableState::Available);
                lemma_check_evolves(*b, env, ss2, st1p);
                lemma_evolves_pop(st1, VariableState::Available, check(*b, env, ss2, st1p).1);
                lemma_evolves_trans(st, st1, check(*b, env, ss2, st1p).1.drop_last());
            }
        },
        ExprV::If(c, t, f) => {
            lemma_check_evolves(*c, env, ss, st);
            let (r1, st1) = check(*c, env, ss, st);
            if r1 is Ok {
                lemma_check_evolves(*t, env, ss, st1);
                lemma_check_evolves(*f, env, ss, st1);
                lemma_evolves_trans(st, st1, check(*t, env, ss, st1).1);
                lemma_evolves_trans(st, st1, check(*f, env, ss, st1).1);
            }
        },
        ExprV::Sequence(a, b) | ExprV::Cat(a, b) | ExprV::Loc(a, b) | ExprV::Reg(a, b) | ExprV::Write(a, b)
        | ExprV::TimeGet(a, b) | ExprV::HttpServer(a, b) | ExprV::HttpHeader(a, b) | ExprV::FileOpen(a, b)
        | ExprV::MoneyOp(_, a, b) | ExprV::TimeOp(_, a, b) | ExprV::BinaryOp(_, a, b) => {
            lemma_check_evolves(*a, env, ss, st);
            lemma_and_then_evolves(check(*a, env, ss, st), *b, env, ss);
            lemma_evolves_trans(st, check(*a, env, ss, st).1, and_then(check(*a, env, ss, st), *b, env, ss).1);
        },
        ExprV::New(_, c) => lemma_check_evolves(*c, env, ss, st),
        ExprV::Get(a, _, b) => {
            lemma_check_evolves(*a, env, ss, st);
            lemma_and_then_evolves(check(*a, env, ss, st), *b, env, ss);
            lemma_evolves_trans(st, check(*a, env, ss, st).1, and_then(check(*a, env, ss, st), *b, env, ss).1);
        },
        ExprV::SetField(a, _, b, c) => {
            let r1 = check(*a, env, ss, st);
            let r2 = and_then(r1, *b, env, ss);
            lemma_check_evolves(*a, env, ss, st);
            lemma_and_then_evolves(r1, *b, env, ss);
            lemma_and_then_evolves(r2, *c, env, ss);
            lemma_evolves_trans(st, r1.1, r2.1);
            lemma_evolves_trans(st, r2.1, and_then(r2, *c, env, ss).1);
        },
        ExprV::Sub(a, b, c) | ExprV::Split(a, b, c) | ExprV::HttpClient(a, b, c) => {
            let r1 = check(*a, env, ss, st);
            let r2 = and_then(r1, *b, env, ss);
            lemma_check_evolves(*a, env, ss, st);
            lemma_and_then_evolves(r1, *b, env, ss);
            lemma_and_then_evolves(r2, *c, env, ss);
            lemma_evolves_trans(st, r1.1, r2.1);
            lemma_evolves_trans(st, r2.1, and_then(r2, *c, env, ss).1);
        },
        ExprV::OtelEmit(a, b, c, d) => {
            let r1 = check(*a, env, ss, st);
            let r2 = and_then(r1, *b, env, ss);
            let r3 = and_then(r2, *c, env, ss);
            lemma_check_evolves(*a, env, ss, st);
            lemma_and_then_evolves(r1, *b, env, ss);
            lemma_and_then_evolves(r2, *c, env, ss);
            lemma_and_then_evolves(r3, *d, env, ss);
            lemma_evolves_trans(st, r1.1, r2.1);
            lemma_evolves_trans(st, r2.1, r3.1);
            lemma_evolves_trans(st, r3.1, and_then(r3, *d, env, ss).1);
        },
        ExprV::TimeSet(a, b, c, d, f, g) => {
            let r1 = check(*a, env, ss, st);
            let r2 = and_then(r1, *b, env, ss);
            let r3 = and_then(r2, *c, env, ss);
            let r4 = and_then(r3, *d, env, ss);
            let r5 = and_then(r4, *f, env, ss);
            lemma_check_evolves(*a, env, ss, st);
            lemma_and_then_evolves(r1, *b, env, ss);
            lemma_and_then_evolves(r2, *c, env, ss);
            lemma_and_then_evolves(r3, *d, env, ss);
            lemma_and_then_evolves(r4, *f, env, ss);
            lemma_and_then_evolves(r5, *g, env, ss);
            lemma_evolves_trans(st, r1.1, r2.1);
            lemma_evolves_trans(st, r2.1, r3.1);
            lemma_evolves_trans(st, r3.1, r4.1);
            lemma_evolves_trans(st, r4.1, r5.1);
            lemma_evolves_trans(st, r5.1, and_then(r5, *g, env, ss).1);
        },
        ExprV::Pack(x) | ExprV::Unpack(x, _) | ExprV::MapField(x, _, _) | ExprV::Filter(x, _) | ExprV::Len(x)
        | ExprV::Str(x) | ExprV::Read(x) | ExprV::Env(x) | ExprV::MoneyStr(x) | ExprV::Panic(x) => {
            lemma_check_evolves(*x, env, ss, st);
        },
        ExprV::Define(_, _, b, _) => lemma_check_evolves(*b, env, ss, st),
        ExprV::Metadata(_, _, t) => lemma_check_evolves(*t, env, ss, st),
        ExprV::Apply(f, args) => {
            lemma_check_list_evolves(args, env, ss, st);
        },
        _ => {},
    }
}

/// The view of a check's verdict.
pub open spec fn verdict(r: Result<(), String>) -> Result<(), Seq<char>> {
    match r {
        Ok(_) => Ok(()),
        Err(e) => Err(e@),
    }
}

fn copy_states(v: &Vec<VariableState>) -> (r: Vec<VariableState>)
    ensures
        r@ == v@,
{
    let mut r: Vec<VariableState> = Vec::new();
    let mut i: usize = 0;
    while i < v.len()
        invariant
            i <= v@.len(),
            r@ == v@.take(i as int),
        decreases v@.len() - i,
    {
        r.push(v[i]);
        proof {
            assert(v@.take(i + 1) =~= v@.take(i as int).push(v@[i as int]));
        }
        i = i + 1;
    }
    proof {
        assert(v@.take(v@.len() as int) =~= v@);
    }
    r
}

fn states_equal(a: &Vec<VariableState>, b: &Vec<VariableState>) -> (r: bool)
    ensures
        r == (a@ == b@),
{
    if a.len() != b.len() {
        return false;
    }
    let mut i: usize = 0;
    while i < a.len()
        invariant
            a@.len() == b@.len(),
            i <= a@.len(),
            forall|j: int| 0 <= j < i ==> a@[j] == b@[j],
        decreases a@.len() - i,
    {
        if a[i] != b[i] {
            return false;
        }
        i = i + 1;
    }
    proof {
        assert(a@ =~= b@);
    }
    true
}

/// Whether a list of names holds `f`.
fn contains_name(v: &Vec<String>, f: &str) -> (r: bool)
    ensures
        r == v@.map_values(|s: String| s@).contains(f@),
{
    let ghost vv = v@.map_values(|s: String| s@);
    let mut i: usize = 0;
    while i < v.len()
        invariant
            i <= v@.len(),
            vv == v@.map_values(|s: String| s@),
            forall|j: int| 0 <= j < i ==> vv[j] != f@,
        decreases v@.len() - i,
    {
        if crate::text::str_eq(v[i].as_str(), f) {
            proof {
                assert(vv[i as int] == f@);
            }
            return true;
        }
        i = i + 1;
    }
    false
}

/// Whether some shape has the field `f`.
fn any_shape_has_field(shapes: &Vec<(String, Vec<String>)>, f: &str) -> (r: bool)
    ensures
        r == any_shape_has(view_shapes(shapes@), f@),
{
    let ghost sv = view_shapes(shapes@);
    let mut i: usize = 0;
    while i < shapes.len()
        invariant
            i <= shapes@.len(),
            sv == view_shapes(shapes@),
            forall|j: int| 0 <= j < i ==> !(#[trigger] sv[j]).1.contains(f@),
        decreases shapes@.len() - i,
    {
        if contains_name(&shapes[i].1, f) {
            proof {
                assert(sv[i as int].1.contains(f@));
            }
            return true;
        }
        i = i + 1;
    }
    false
}

/// Whether the field exists (see `field_known`).
fn field_is_known(shapes: &Vec<(String, Vec<String>)>, inferred: &Option<String>, field: &String) -> (r: bool)
    ensures
        r == field_known(view_shapes(shapes@), match inferred {
            Some(n) => Some(n@),
            None => None,
        }, field@),
{
    match inferred {
        Some(n) => match lookup_fields(shapes, n.as_str()) {
            Some(fs) => {
                proof {
                    assert(view_strings(fs@) =~= fs@.map_values(|s: String| s@));
                }
                contains_name(&fs, field.as_str())
            },
            None => false,
        },
        None => any_shape_has_field(shapes, field.as_str()),
    }
}

/// Whether `g` is a known function name or not a name at all.
fn callee_is_known(functions: &Vec<(String, usize)>, g: &Expr) -> (r: bool)
    ensures
        r == callee_known(view_funcs(functions@), g@),
{
    match g {
        Expr::Identifier(name) => lookup_number(functions, name.as_str()).is_some(),
        _ => true,
    }
}

/// Whether a shape of this name exists.
fn shape_exists(shapes: &Vec<(String, Vec<String>)>, name: &str) -> (r: bool)
    ensures
        r == (find_entry(view_shapes(shapes@), name@) is Some),
{
    lookup_fields(shapes, name).is_some()
}

/// Whether the inferred shape exists.
fn inferred_shape_exists(shapes: &Vec<(String, Vec<String>)>, inferred: &Option<String>) -> (r: bool)
    ensures
        r == (match inferred {
            Some(n) => find_entry(view_shapes(shapes@), n@) is Some,
            None => false,
        }),
{
    match inferred {
        Some(n) => shape_exists(shapes, n.as_str()),
        None => false,
    }
}

/// The message of error E013 for `name`.
fn unknown(name: &String) -> (m: String)
    ensures
        m@ == unknown_identifier(name@),
{
    let mut m = string_of("E013: Unknown identifier ");
    push_str(&mut m, name.as_str());
    m
}

/// The slots that a trap's branches see (see `captures_upto`).
fn captures(stack: &Vec<VariableState>, stack_shapes: &Vec<Option<String>>) -> (r: (Vec<VariableState>, Vec<Option<String>>))
    requires
        stack@.len() == stack_shapes@.len(),
    ensures
        (r.0@, view_opt_names(r.1@)) == captures_upto(stack@, view_opt_names(stack_shapes@), stack@.len() as int),
        r.0@.len() == r.1@.len(),
{
    let ghost ssv = view_opt_names(stack_shapes@);
    let mut cs: Vec<VariableState> = Vec::new();
    let mut css: Vec<Option<String>> = Vec::new();
    let mut i: usize = 0;
    proof {
        assert(view_opt_names(css@) =~= Seq::<Option<Seq<char>>>::empty());
    }
    while i < stack.len()
        invariant
            i <= stack@.len(),
            stack@.len() == stack_shapes@.len(),
            ssv == view_opt_names(stack_shapes@),
            (cs@, view_opt_names(css@)) == captures_upto(stack@, ssv, i as int),
            cs@.len() == css@.len(),
        decreases stack@.len() - i,
    {
        if stack[i] == VariableState::Available || stack[i] == VariableState::Borrowed {
            let ghost old_css = css@;
            cs.push(VariableState::Borrowed);
            let o = copy_opt_name(&stack_shapes[i]);
            css.push(o);
            proof {
                assert(view_opt_names(css@) =~= view_opt_names(old_css).push(ssv[i as int]));
            }
        }
        i = i + 1;
    }
    (cs, css)
}

/// Checks one expression, updating the slot states (see `check`).
pub fn verify_expr(expr: &Expr, context: &mut VerificationContext) -> (r: Result<(), String>)
    requires
        old(context).wf(),
    ensures
        final(context).wf(),
        final(context).shapes@ == old(context).shapes@,
        final(context).functions@ == old(context).functions@,
        final(context).expand_map@ == old(context).expand_map@,
        final(context).stack_shapes@ == old(context).stack_shapes@,
        (verdict(r), final(context).stack@) == check(
            expr@,
            old(context).env(),
            view_opt_names(old(context).stack_shapes@),
            old(context).stack@,
        ),
    decreases expr, 1nat,
{
    match expr {
        Expr::Integer(..) | Expr::Float(..) | Expr::String(..) | Expr::TimeZone | Expr::TimeNow | Expr::TimeNano | Expr::DeBruijn(..) | Expr::Identifier(..) | Expr::Expand(..) | Expr::Move(..) | Expr::Shape(..) | Expr::Import(..) => verify_slots(expr, context),
        Expr::Borrow(..) | Expr::MutBorrow(..) | Expr::Let(..) | Expr::If(..) | Expr::Sequence(..) | Expr::Apply(..) | Expr::Trap(..) | Expr::Len(..) | Expr::Str(..) | Expr::Read(..) | Expr::Env(..) | Expr::MoneyStr(..) | Expr::Panic(..) | Expr::Define(..) | Expr::Metadata(..) => verify_scoped(expr, context),
        Expr::New(..) | Expr::Get(..) | Expr::SetField(..) | Expr::Pack(..) | Expr::Unpack(..) | Expr::MapField(..) | Expr::Filter(..) => verify_fields(expr, context),
        Expr::BinaryOp(..) | Expr::Cat(..) | Expr::Loc(..) | Expr::Reg(..) | Expr::Write(..) | Expr::TimeGet(..) | Expr::HttpServer(..) | Expr::HttpHeader(..) | Expr::FileOpen(..) | Expr::MoneyOp(..) | Expr::TimeOp(..) | Expr::Sub(..) | Expr::Split(..) | Expr::HttpClient(..) | Expr::OtelEmit(..) | Expr::TimeSet(..) => verify_operands(expr, context),
    }
}

/// Literals, names, template references and moves out of slots.
#[verifier::spinoff_prover]
fn verify_slots(expr: &Expr, context: &mut VerificationContext) -> (r: Result<(), String>)
    requires
        old(context).wf(),
        expr@ is Integer || expr@ is Float || expr@ is String || expr@ is TimeZone || expr@ is TimeNow || expr@ is TimeNano || expr@ is DeBruijn || expr@ is Identifier || expr@ is Expand || expr@ is Move || expr@ is Shape || expr@ is Import,
    ensures
        final(context).wf(),
        final(context).shapes@ == old(context).shapes@,
        final(context).functions@ == old(context).functions@,
        final(context).expand_map@ == old(context).expand_map@,
        final(context).stack_shapes@ == old(context).stack_shapes@,
        (verdict(r), final(context).stack@) == check(
            expr@,
            old(context).env(),
            view_opt_names(old(context).stack_shapes@),
            old(context).stack@,
        ),
    decreases expr, 0nat,
{
    let ghost st = context.stack@;
    let ghost ss = view_opt_names(context.stack_shapes@);
    let ghost env = context.env();
    match expr {
        Expr::Integer(_) | Expr::Float(_) | Expr::String(_) | Expr::TimeZone | Expr::TimeNow | Expr::TimeNano => Ok(()),
        Expr::DeBruijn(index) => {
            if *index >= context.stack.len() {
                return Err(string_of("E003"));
            }
            let actual = context.stack.len() - 1 - *index;
            if context.stack[actual] == VariableState::Moved {
                return Err(string_of("E004"));
            }
            Ok(())
        },
        Expr::Identifier(name) => {
            if lookup_number(&context.functions, name.as_str()).is_some() {
                Ok(())
            } else {
                Err(unknown(name))
            }
        },
        Expr::Expand(name) => match lookup_number(&context.expand_map, name.as_str()) {
            Some(index) => {
                if index >= context.stack.len() {
                    let e = string_of("E003");
                    assert(find_entry(env.expand, name@) == Some(index));
                    assert(check(expr@, env, ss, st) == (Err::<(), Seq<char>>(e@), st));
                    return Err(e);
                }
                if context.stack[index] == VariableState::Moved {
                    return Err(string_of("E004"));
                }
                Ok(())
            },
            None => Err(unknown(name)),
        },
        Expr::Move(inner) => match &**inner {
            Expr::DeBruijn(index) => {
                assert((**inner)@ == ExprV::DeBruijn(*index));
                if *index >= context.stack.len() {
                    let e = string_of("E003");
                    assert(check(expr@, env, ss, st) == (Err::<(), Seq<char>>(e@), st));
                    return Err(e);
                }
                let actual = context.stack.len() - 1 - *index;
                if context.stack[actual] == VariableState::Moved {
                    return Err(string_of("E005"));
                }
                if context.stack[actual] == VariableState::Borrowed {
                    return Err(string_of("E016"));
                }
                context.stack.set(actual, VariableState::Moved);
                Ok(())
            },
            Expr::Expand(name) => match lookup_number(&context.expand_map, name.as_str()) {
                Some(index) => {
                    assert((**inner)@ == ExprV::Expand(name@));
                    if index >= context.stack.len() {
                        let e = string_of("E003");
                        assert(find_entry(env.expand, name@) == Some(index));
                        assert(check(expr@, env, ss, st) == (Err::<(), Seq<char>>(e@), st));
                        return Err(e);
                    }
                    if context.stack[index] == VariableState::Moved {
                        return Err(string_of("E005"));
                    }
                    if context.stack[index] == VariableState::Borrowed {
                        return Err(string_of("E016"));
                    }
                    context.stack.set(index, VariableState::Moved);
                    Ok(())
                },
                None => Err(unknown(name)),
            },
            _ => verify_expr(inner, context),
        },
        Expr::Shape(_, _, _) | Expr::Import(_, _, _) => Ok(()),

        _ => Ok(()),
    }
}

/// Bindings, conditionals, traps, calls, sequences and wrappers.
#[verifier::spinoff_prover]
fn verify_scoped(expr: &Expr, context: &mut VerificationContext) -> (r: Result<(), String>)
    requires
        old(context).wf(),
        expr@ is Borrow || expr@ is MutBorrow || expr@ is Let || expr@ is If || expr@ is Sequence || expr@ is Apply || expr@ is Trap || expr@ is Len || expr@ is Str || expr@ is Read || expr@ is Env || expr@ is MoneyStr || expr@ is Panic || expr@ is Define || expr@ is Metadata,
    ensures
        final(context).wf(),
        final(context).shapes@ == old(context).shapes@,
        final(context).functions@ == old(context).functions@,
        final(context).expand_map@ == old(context).expand_map@,
        final(context).stack_shapes@ == old(context).stack_shapes@,
        (verdict(r), final(context).stack@) == check(
            expr@,
            old(context).env(),
            view_opt_names(old(context).stack_shapes@),
            old(context).stack@,
        ),
    decreases expr, 0nat,
{
    let ghost st = context.stack@;
    let ghost ss = view_opt_names(context.stack_shapes@);
    let ghost env = context.env();
    match expr {
        Expr::Borrow(inner) => verify_expr(inner, context),
        Expr::MutBorrow(inner) => verify_expr(inner, context),
        Expr::Let(_, val, body) => {
            let ghost (vv, bv) = ((**val)@, (**body)@);
            assert(check(expr@, env, ss, st) == {
                let (r1, st1) = check(vv, env, ss, st);
                match r1 {
                    Err(x) => (Err(x), st1),
                    Ok(_) => {
                        let (r2, st2) = check(bv, env, ss.push(shape_of(vv, ss)), st1.push(VariableState::Available));
                        (r2, st2.drop_last())
                    },
                }
            });
            if let Err(e) = verify_expr(val, context) {
                return Err(e);
            }
            let ghost st1 = context.stack@;
            let shape = infer_shape_from_stack(val, context.stack_shapes.as_slice());
            let ghost shv = shape_of((**val)@, ss);
            context.stack.push(VariableState::Available);
            let ghost ss_before = context.stack_shapes@;
            context.stack_shapes.push(shape);
            proof {
                assert(view_opt_names(context.stack_shapes@) =~= ss.push(shv));
            }
            let res = verify_expr(body, context);
            let ghost st2 = context.stack@;
            context.stack.pop();
            context.stack_shapes.pop();
            proof {
                assert(context.stack_shapes@ =~= ss_before);
                assert(context.stack@ =~= st2.drop_last());
            }
            res
        },
        Expr::If(cond, then_branch, else_branch) => {
            let ghost (cv, tv, fv) = ((**cond)@, (**then_branch)@, (**else_branch)@);
            assert(check(expr@, env, ss, st) == {
                let (r1, st1) = check(cv, env, ss, st);
                match r1 {
                    Err(x) => (Err(x), st1),
                    Ok(_) => {
                        let (r2, st2) = check(tv, env, ss, st1);
                        match r2 {
                            Err(x) => (Err(x), st2),
                            Ok(_) => {
                                let (r3, st3) = check(fv, env, ss, st1);
                                match r3 {
                                    Err(x) => (Err(x), st3),
                                    Ok(_) => if st2 == st3 {
                                        (Ok(()), st3)
                                    } else {
                                        fail("E009"@, st3)
                                    },
                                }
                            },
                        }
                    },
                }
            });
            if let Err(e) = verify_expr(cond, context) {
                return Err(e);
            }
            let initial = copy_states(&context.stack);
            if let Err(e) = verify_expr(then_branch, context) {
                return Err(e);
            }
            let then_states = copy_states(&context.stack);
            context.stack = initial;
            if let Err(e) = verify_expr(else_branch, context) {
                return Err(e);
            }
            if !states_equal(&then_states, &context.stack) {
                return Err(string_of("E009"));
            }
            Ok(())
        },
        Expr::Sequence(a, b) => {
            let ghost (av, bv) = ((**a)@, (**b)@);
            assert(check(expr@, env, ss, st) == and_then(check(av, env, ss, st), bv, env, ss));
            if let Err(e) = verify_expr(a, context) {
                return Err(e);
            }
            verify_expr(b, context)
        },
        Expr::Apply(f, args) => {
            let ghost (fv, av) = ((**f)@, crate::compiler::ast::view_exprs(args@));
            assert(check(expr@, env, ss, st) == match fv {
                ExprV::Identifier(name) => if find_entry(env.funcs, name) is None {
                    fail("E010"@, st)
                } else {
                    check_list(av, env, ss, st)
                },
                _ => fail("E012"@, st),
            });
            match &**f {
                Expr::Identifier(name) => {
                    assert(fv == ExprV::Identifier(name@));
                    if lookup_number(&context.functions, name.as_str()).is_none() {
                        return Err(string_of("E010"));
                    }
                },
                _ => return Err(string_of("E012")),
            }
            verify_args(args, context)
        },
        Expr::Trap(try_expr, fallback) => {
            let (cs, css) = captures(&context.stack, &context.stack_shapes);
            let ghost csv = cs@;
            let ghost cssv = view_opt_names(css@);
            let try_states = copy_states(&cs);
            let mut saved_stack = try_states;
            let mut saved_shapes = css;
            std::mem::swap(&mut saved_stack, &mut context.stack);
            std::mem::swap(&mut saved_shapes, &mut context.stack_shapes);
            let r1 = verify_expr(try_expr, context);
            if let Err(e) = r1 {
                context.stack = saved_stack;
                context.stack_shapes = saved_shapes;
                return Err(e);
            }
            context.stack = cs;
            let r2 = verify_expr(fallback, context);
            context.stack = saved_stack;
            context.stack_shapes = saved_shapes;
            r2
        },
        Expr::Len(x) | Expr::Str(x) | Expr::Read(x) | Expr::Env(x) | Expr::MoneyStr(x) | Expr::Panic(x) => verify_expr(x, context),
        Expr::Define(_, _, body, _) => verify_expr(body, context),
        Expr::Metadata(_, _, target) => verify_expr(target, context),
        _ => Ok(()),
    }
}

/// Shape allocation, field access, packing and shape-wide operations.
#[verifier::spinoff_prover]
fn verify_fields(expr: &Expr, context: &mut VerificationContext) -> (r: Result<(), String>)
    requires
        old(context).wf(),
        expr@ is New || expr@ is Get || expr@ is SetField || expr@ is Pack || expr@ is Unpack || expr@ is MapField || expr@ is Filter,
    ensures
        final(context).wf(),
        final(context).shapes@ == old(context).shapes@,
        final(context).functions@ == old(context).functions@,
        final(context).expand_map@ == old(context).expand_map@,
        final(context).stack_shapes@ == old(context).stack_shapes@,
        (verdict(r), final(context).stack@) == check(
            expr@,
            old(context).env(),
            view_opt_names(old(context).stack_shapes@),
            old(context).stack@,
        ),
    decreases expr, 0nat,
{
    let ghost st = context.stack@;
    let ghost ss = view_opt_names(context.stack_shapes@);
    let ghost env = context.env();
    match expr {
        Expr::New(name, count) => {
            let ghost cv = (**count)@;
            assert(check(expr@, env, ss, st) == if find_entry(env.shapes, name@) is None {
                fail("E006"@, st)
            } else {
                check(cv, env, ss, st)
            });
            if !shape_exists(&context.shapes, name.as_str()) {
                return Err(string_of("E006"));
            }
            verify_expr(count, context)
        },
        Expr::Get(instance, field, index) => {
            let ghost (iv, xv) = ((**instance)@, (**index)@);
            assert(check(expr@, env, ss, st) == {
                let r = and_then(check(iv, env, ss, st), xv, env, ss);
                if r.0 is Ok && !field_known(env.shapes, shape_of(iv, ss), field@) {
                    fail("E007"@, r.1)
                } else {
                    r
                }
            });
            if let Err(e) = verify_expr(instance, context) {
                return Err(e);
            }
            if let Err(e) = verify_expr(index, context) {
                return Err(e);
            }
            let inferred = infer_shape_from_stack(instance, context.stack_shapes.as_slice());
            if !field_is_known(&context.shapes, &inferred, field) {
                return Err(string_of("E007"));
            }
            Ok(())
        },
        Expr::SetField(instance, field, index, value) => {
            let ghost (iv, xv, vv) = ((**instance)@, (**index)@, (**value)@);
            assert(check(expr@, env, ss, st) == {
                let r = and_then(and_then(check(iv, env, ss, st), xv, env, ss), vv, env, ss);
                if r.0 is Ok && !field_known(env.shapes, shape_of(iv, ss), field@) {
                    fail("E007"@, r.1)
                } else {
                    r
                }
            });
            if let Err(e) = verify_expr(instance, context) {
                return Err(e);
            }
            if let Err(e) = verify_expr(index, context) {
                return Err(e);
            }
            if let Err(e) = verify_expr(value, context) {
                return Err(e);
            }
            let inferred = infer_shape_from_stack(instance, context.stack_shapes.as_slice());
            if !field_is_known(&context.shapes, &inferred, field) {
                return Err(string_of("E007"));
            }
            Ok(())
        },
        Expr::Pack(x) => {
            let ghost xv = (**x)@;
            assert(check(expr@, env, ss, st) == {
                let r = check(xv, env, ss, st);
                if r.0 is Ok && !(match shape_of(xv, ss) {
                    Some(n) => find_entry(env.shapes, n) is Some,
                    None => false,
                }) {
                    fail("E006"@, r.1)
                } else {
                    r
                }
            });
            if let Err(e) = verify_expr(x, context) {
                return Err(e);
            }
            let inferred = infer_shape_from_stack(x, context.stack_shapes.as_slice());
            if inferred_shape_exists(&context.shapes, &inferred) {
                Ok(())
            } else {
                Err(string_of("E006"))
            }
        },
        Expr::Unpack(x, name) => {
            let ghost xv = (**x)@;
            assert(check(expr@, env, ss, st) == {
                let r = check(xv, env, ss, st);
                if r.0 is Ok && find_entry(env.shapes, name@) is None {
                    fail("E006"@, r.1)
                } else {
                    r
                }
            });
            if let Err(e) = verify_expr(x, context) {
                return Err(e);
            }
            if !shape_exists(&context.shapes, name.as_str()) {
                return Err(string_of("E006"));
            }
            Ok(())
        },
        Expr::MapField(x, field, g) => {
            let ghost (xv, gv) = ((**x)@, (**g)@);
            assert(check(expr@, env, ss, st) == {
                let r = check(xv, env, ss, st);
                if r.0 is Err {
                    r
                } else {
                    match shape_of(xv, ss) {
                        Some(n) => match find_entry(env.shapes, n) {
                            Some(fs) => if !fs.contains(field@) {
                                fail("E007"@, r.1)
                            } else if !callee_known(env.funcs, gv) {
                                fail("E010"@, r.1)
                            } else {
                                r
                            },
                            None => fail("E006"@, r.1),
                        },
                        None => fail("E006"@, r.1),
                    }
                }
            });
            if let Err(e) = verify_expr(x, context) {
                return Err(e);
            }
            let inferred = infer_shape_from_stack(x, context.stack_shapes.as_slice());
            let fields = match &inferred {
                Some(n) => match lookup_fields(&context.shapes, n.as_str()) {
                    Some(fs) => fs,
                    None => return Err(string_of("E006")),
                },
                None => return Err(string_of("E006")),
            };
            proof {
                assert(view_strings(fields@) =~= fields@.map_values(|s: String| s@));
            }
            if !contains_name(&fields, field.as_str()) {
                return Err(string_of("E007"));
            }
            if !callee_is_known(&context.functions, g) {
                return Err(string_of("E010"));
            }
            Ok(())
        },
        Expr::Filter(x, g) => {
            let ghost (xv, gv) = ((**x)@, (**g)@);
            assert(check(expr@, env, ss, st) == {
                let r = check(xv, env, ss, st);
                if r.0 is Err {
                    r
                } else if !(match shape_of(xv, ss) {
                    Some(n) => find_entry(env.shapes, n) is Some,
                    None => false,
                }) {
                    fail("E006"@, r.1)
                } else if !callee_known(env.funcs, gv) {
                    fail("E010"@, r.1)
                } else {
                    r
                }
            });
            if let Err(e) = verify_expr(x, context) {
                return Err(e);
            }
            let inferred = infer_shape_from_stack(x, context.stack_shapes.as_slice());
            if !inferred_shape_exists(&context.shapes, &inferred) {
                return Err(string_of("E006"));
            }
            if !callee_is_known(&context.functions, g) {
                return Err(string_of("E010"));
            }
            Ok(())
        },
        _ => Ok(()),
    }
}

/// Operators whose operands are checked in order.
#[verifier::spinoff_prover]
fn verify_operands(expr: &Expr, context: &mut VerificationContext) -> (r: Result<(), String>)
    requires
        old(context).wf(),
        expr@ is BinaryOp || expr@ is Cat || expr@ is Loc || expr@ is Reg || expr@ is Write || expr@ is TimeGet || expr@ is HttpServer || expr@ is HttpHeader || expr@ is FileOpen || expr@ is MoneyOp || expr@ is TimeOp || expr@ is Sub || expr@ is Split || expr@ is HttpClient || expr@ is OtelEmit || expr@ is TimeSet,
    ensures
        final(context).wf(),
        final(context).shapes@ == old(context).shapes@,
        final(context).functions@ == old(context).functions@,
        final(context).expand_map@ == old(context).expand_map@,
        final(context).stack_shapes@ == old(context).stack_shapes@,
        (verdict(r), final(context).stack@) == check(
            expr@,
            old(context).env(),
            view_opt_names(old(context).stack_shapes@),
            old(context).stack@,
        ),
    decreases expr, 0nat,
{
    let ghost st = context.stack@;
    let ghost ss = view_opt_names(context.stack_shapes@);
    let ghost env = context.env();
    match expr {
        Expr::BinaryOp(op, l, r) => {
            let ghost (lv, rv) = ((**l)@, (**r)@);
            assert(check(expr@, env, ss, st) == if is_binop(op@) {
                and_then(check(lv, env, ss, st), rv, env, ss)
            } else {
                fail("E008"@, st)
            });
            if !is_binop_token(op) {
                return Err(string_of("E008"));
            }
            if let Err(e) = verify_expr(l, context) {
                return Err(e);
            }
            verify_expr(r, context)
        },
        Expr::Cat(x0, x1) => {
            let ghost (v0, v1) = ((**x0)@, (**x1)@);
            assert(check(expr@, env, ss, st) == and_then(check(v0, env, ss, st), v1, env, ss));
            if let Err(e) = verify_expr(x0, context) {
                return Err(e);
            }
            verify_expr(x1, context)
        },
        Expr::Loc(x0, x1) => {
            let ghost (v0, v1) = ((**x0)@, (**x1)@);
            assert(check(expr@, env, ss, st) == and_then(check(v0, env, ss, st), v1, env, ss));
            if let Err(e) = verify_expr(x0, context) {
                return Err(e);
            }
            verify_expr(x1, context)
        },
        Expr::Reg(x0, x1) => {
            let ghost (v0, v1) = ((**x0)@, (**x1)@);
            assert(check(expr@, env, ss, st) == and_then(check(v0, env, ss, st), v1, env, ss));
            if let Err(e) = verify_expr(x0, context) {
                return Err(e);
            }
            verify_expr(x1, context)
        },
        Expr::Write(x0, x1) => {
            let ghost (v0, v1) = ((**x0)@, (**x1)@);
            assert(check(expr@, env, ss, st) == and_then(check(v0, env, ss, st), v1, env, ss));
            if let Err(e) = verify_expr(x0, context) {
                return Err(e);
            }
            verify_expr(x1, context)
        },
        Expr::TimeGet(x0, x1) => {
            let ghost (v0, v1) = ((**x0)@, (**x1)@);
            assert(check(expr@, env, ss, st) == and_then(check(v0, env, ss, st), v1, env, ss));
            if let Err(e) = verify_expr(x0, context) {
                return Err(e);
            }
            verify_expr(x1, context)
        },
        Expr::HttpServer(x0, x1) => {
            let ghost (v0, v1) = ((**x0)@, (**x1)@);
            assert(check(expr@, env, ss, st) == and_then(check(v0, env, ss, st), v1, env, ss));
            if let Err(e) = verify_expr(x0, context) {
                return Err(e);
            }
            verify_expr(x1, context)
        },
        Expr::HttpHeader(x0, x1) => {
            let ghost (v0, v1) = ((**x0)@, (**x1)@);
            assert(check(expr@, env, ss, st) == and_then(check(v0, env, ss, st), v1, env, ss));
            if let Err(e) = verify_expr(x0, context) {
                return Err(e);
            }
            verify_expr(x1, context)
        },
        Expr::FileOpen(x0, x1) => {
            let ghost (v0, v1) = ((**x0)@, (**x1)@);
            assert(check(expr@, env, ss, st) == and_then(check(v0, env, ss, st), v1, env, ss));
            if let Err(e) = verify_expr(x0, context) {
                return Err(e);
            }
            verify_expr(x1, context)
        },
        Expr::MoneyOp(_, x0, x1) => {
            let ghost (v0, v1) = ((**x0)@, (**x1)@);
            assert(check(expr@, env, ss, st) == and_then(check(v0, env, ss, st), v1, env, ss));
            if let Err(e) = verify_expr(x0, context) {
                return Err(e);
            }
            verify_expr(x1, context)
        },
        Expr::TimeOp(_, x0, x1) => {
            let ghost (v0, v1) = ((**x0)@, (**x1)@);
            assert(check(expr@, env, ss, st) == and_then(check(v0, env, ss, st), v1, env, ss));
            if let Err(e) = verify_expr(x0, context) {
                return Err(e);
            }
            verify_expr(x1, context)
        },
        Expr::Sub(x0, x1, x2) => {
            let ghost (v0, v1, v2) = ((**x0)@, (**x1)@, (**x2)@);
            assert(check(expr@, env, ss, st) == and_then(and_then(check(v0, env, ss, st), v1, env, ss), v2, env, ss));
            if let Err(e) = verify_expr(x0, context) {
                return Err(e);
            }
            if let Err(e) = verify_expr(x1, context) {
                return Err(e);
            }
            verify_expr(x2, context)
        },
        Expr::Split(x0, x1, x2) => {
            let ghost (v0, v1, v2) = ((**x0)@, (**x1)@, (**x2)@);
            assert(check(expr@, env, ss, st) == and_then(and_then(check(v0, env, ss, st), v1, env, ss), v2, env, ss));
            if let Err(e) = verify_expr(x0, context) {
                return Err(e);
            }
            if let Err(e) = verify_expr(x1, context) {
                return Err(e);
            }
            verify_expr(x2, context)
        },
        Expr::HttpClient(x0, x1, x2) => {
            let ghost (v0, v1, v2) = ((**x0)@, (**x1)@, (**x2)@);
            assert(check(expr@, env, ss, st) == and_then(and_then(check(v0, env, ss, st), v1, env, ss), v2, env, ss));
            if let Err(e) = verify_expr(x0, context) {
                return Err(e);
            }
            if let Err(e) = verify_expr(x1, context) {
                return Err(e);
            }
            verify_expr(x2, context)
        },
        Expr::OtelEmit(x0, x1, x2, x3) => {
            let ghost (v0, v1, v2, v3) = ((**x0)@, (**x1)@, (**x2)@, (**x3)@);
            assert(check(expr@, env, ss, st) == and_then(and_then(and_then(check(v0, env, ss, st), v1, env, ss), v2, env, ss), v3, env, ss));
            if let Err(e) = verify_expr(x0, context) {
                return Err(e);
            }
            if let Err(e) = verify_expr(x1, context) {
                return Err(e);
            }
            if let Err(e) = verify_expr(x2, context) {
                return Err(e);
            }
            verify_expr(x3, context)
        },
        Expr::TimeSet(x0, x1, x2, x3, x4, x5) => {
            let ghost (v0, v1, v2, v3, v4, v5) = ((**x0)@, (**x1)@, (**x2)@, (**x3)@, (**x4)@, (**x5)@);
            assert(check(expr@, env, ss, st) == and_then(and_then(and_then(and_then(and_then(check(v0, env, ss, st), v1, env, ss), v2, env, ss), v3, env, ss), v4, env, ss), v5, env, ss));
            if let Err(e) = verify_expr(x0, context) {
                return Err(e);
            }
            if let Err(e) = verify_expr(x1, context) {
                return Err(e);
            }
            if let Err(e) = verify_expr(x2, context) {
                return Err(e);
            }
            if let Err(e) = verify_expr(x3, context) {
                return Err(e);
            }
            if let Err(e) = verify_expr(x4, context) {
                return Err(e);
            }
            verify_expr(x5, context)
        },
        _ => Ok(()),
    }
}

/// The shapes and the function arities that the first `n` expressions of a
/// module declare: shape definitions, imports and function definitions, a
/// later declaration of a name replacing an earlier one.
pub open spec fn declarations(exprs: Seq<ExprV>, n: int) -> (Seq<(Seq<char>, Seq<Seq<char>>)>, Seq<(Seq<char>, usize)>)
    decreases n,
{
    if n <= 0 {
        (Seq::empty(), Seq::empty())
    } else {
        let (sh, fs) = declarations(exprs, n - 1);
        match exprs[n - 1] {
            ExprV::Shape(name, fields, _) => (table_insert(sh, name, fields), fs),
            ExprV::Import(_, symbol, arity) => (sh, table_insert(fs, symbol, arity)),
            ExprV::Define(name, params, _, _) => (sh, table_insert(fs, name, params.len() as usize)),
            _ => (sh, fs),
        }
    }
}

/// The slots of the template parameters among the first `n` parameters.
pub open spec fn template_slots(params: Seq<ParamV>, n: int) -> Seq<(Seq<char>, usize)>
    decreases n,
{
    if n <= 0 {
        Seq::empty()
    } else if params[n - 1].expand {
        table_insert(template_slots(params, n - 1), params[n - 1].name, (n - 1) as usize)
    } else {
        template_slots(params, n - 1)
    }
}

/// The verdict on a function body: each parameter is an available slot of
/// unknown shape.
pub open spec fn body_verdict(
    params: Seq<ParamV>,
    body: ExprV,
    shapes: Seq<(Seq<char>, Seq<Seq<char>>)>,
    funcs: Seq<(Seq<char>, usize)>,
) -> Result<(), Seq<char>> {
    check(
        body,
        CheckEnv { shapes, funcs, expand: template_slots(params, params.len() as int) },
        Seq::new(params.len(), |i: int| None::<Seq<char>>),
        Seq::new(params.len(), |i: int| VariableState::Available),
    ).0
}

/// The error code of the first function body, among the expressions from
/// `i` on, that does not check.
pub open spec fn first_failure(
    exprs: Seq<ExprV>,
    i: int,
    shapes: Seq<(Seq<char>, Seq<Seq<char>>)>,
    funcs: Seq<(Seq<char>, usize)>,
) -> Option<Seq<char>>
    decreases exprs.len() - i,
{
    if i < 0 || i >= exprs.len() {
        None
    } else {
        match exprs[i] {
            ExprV::Define(_, params, body, _) => match body_verdict(params, *body, shapes, funcs) {
                Err(code) => Some(code),
                Ok(_) => first_failure(exprs, i + 1, shapes, funcs),
            },
            _ => first_failure(exprs, i + 1, shapes, funcs),
        }
    }
}

/// Checks every function body of a module against the shapes and functions
/// the module declares; the first body that does not check gives the error,
/// reported at line 1 of `filename`.
pub fn verify_module(exprs: &[Expr], filename: &str) -> (r: Result<(), CompileError>)
    ensures
        ({
            let ev = crate::compiler::ast::view_exprs(exprs@);
            let (shapes, funcs) = declarations(ev, ev.len() as int);
            match first_failure(ev, 0, shapes, funcs) {
                None => r is Ok,
                Some(code) => r matches Err(e) && e@ == (ErrorView { code, filename: filename@, line: 1 }),
            }
        }),
{
    let ghost ev = crate::compiler::ast::view_exprs(exprs@);
    proof {
        crate::compiler::ast::lemma_view_exprs(exprs@);
    }
    let mut shapes: Vec<(String, Vec<String>)> = Vec::new();
    let mut functions: Vec<(String, usize)> = Vec::new();
    let mut i: usize = 0;
    proof {
        assert(view_shapes(shapes@) =~= Seq::empty());
        assert(view_funcs(functions@) =~= Seq::empty());
    }
    while i < exprs.len()
        invariant
            i <= exprs@.len(),
            ev == crate::compiler::ast::view_exprs(exprs@),
            ev.len() == exprs@.len(),
            forall|k: int| 0 <= k < exprs@.len() ==> #[trigger] ev[k] == exprs@[k]@,
            (view_shapes(shapes@), view_funcs(functions@)) == declarations(ev, i as int),
        decreases exprs@.len() - i,
    {
        assert(ev[i as int] == exprs@[i as int]@);
        match &exprs[i] {
            Expr::Shape(name, fields, _) => {
                insert_fields(&mut shapes, copy_string(name), crate::compiler::ast::copy_strings(fields));
            },
            Expr::Import(_, symbol, arity) => {
                insert_number(&mut functions, copy_string(symbol), *arity);
            },
            Expr::Define(name, params, _, _) => {
                proof {
                    assert(view_params(params@).len() == params@.len());
                }
                insert_number(&mut functions, copy_string(name), params.len());
            },
            _ => {},
        }
        i = i + 1;
    }
    let ghost sv = view_shapes(shapes@);
    let ghost fv = view_funcs(functions@);
    let mut j: usize = 0;
    while j < exprs.len()
        invariant
            j <= exprs@.len(),
            ev == crate::compiler::ast::view_exprs(exprs@),
            ev.len() == exprs@.len(),
            forall|k: int| 0 <= k < exprs@.len() ==> #[trigger] ev[k] == exprs@[k]@,
            sv == view_shapes(shapes@),
            fv == view_funcs(functions@),
            (sv, fv) == declarations(ev, ev.len() as int),
            first_failure(ev, 0, sv, fv) == first_failure(ev, j as int, sv, fv),
        decreases exprs@.len() - j,
    {
        assert(ev[j as int] == exprs@[j as int]@);
        if let Expr::Define(_, params, body, _) = &exprs[j] {
            let mut context = function_context(&shapes, &functions, params);
            match verify_expr(body, &mut context) {
                Ok(()) => {},
                Err(code) => {
                    return Err(CompileError::new(code.as_str(), filename, 1));
                },
            }
        }
        j = j + 1;
    }
    Ok(())
}

/// The context in which a function body with these parameters is checked.
pub(crate) fn function_context(shapes: &Vec<(String, Vec<String>)>, functions: &Vec<(String, usize)>, params: &Vec<Param>) -> (c: VerificationContext)
    ensures
        c.wf(),
        c.env() == (CheckEnv {
            shapes: view_shapes(shapes@),
            funcs: view_funcs(functions@),
            expand: template_slots(view_params(params@), params@.len() as int),
        }),
        view_opt_names(c.stack_shapes@) == Seq::new(params@.len(), |i: int| None::<Seq<char>>),
        c.stack@ == Seq::new(params@.len(), |i: int| VariableState::Available),
{
    let ghost pv = view_params(params@);
    let mut stack: Vec<VariableState> = Vec::new();
    let mut stack_shapes: Vec<Option<String>> = Vec::new();
    let mut expand_map: Vec<(String, usize)> = Vec::new();
    let mut i: usize = 0;
    proof {
        assert(view_funcs(expand_map@) =~= Seq::empty());
    }
    while i < params.len()
        invariant
            i <= params@.len(),
            pv == view_params(params@),
            stack@ == Seq::new(i as nat, |k: int| VariableState::Available),
            view_opt_names(stack_shapes@) == Seq::new(i as nat, |k: int| None::<Seq<char>>),
            stack_shapes@.len() == i,
            forall|k: int| 0 <= k < i ==> #[trigger] stack_shapes@[k] is None,
            view_funcs(expand_map@) == template_slots(pv, i as int),
        decreases params@.len() - i,
    {
        stack.push(VariableState::Available);
        stack_shapes.push(None);
        if params[i].expand {
            insert_number(&mut expand_map, copy_string(&params[i].name), i);
        }
        proof {
            assert(stack@ =~= Seq::new((i + 1) as nat, |k: int| VariableState::Available));
            assert forall|k: int| 0 <= k < i + 1 implies #[trigger] stack_shapes@[k] is None by {}
            assert(view_opt_names(stack_shapes@) =~= Seq::new((i + 1) as nat, |k: int| None::<Seq<char>>));
            assert(pv[i as int] == params@[i as int]@);
        }
        i = i + 1;
    }
    VerificationContext {
        shapes: copy_shapes(shapes),
        functions: copy_numbers(functions),
        stack,
        stack_shapes,
        expand_map,
    }
}

/// A copy of a shape table.
pub(crate) fn copy_shapes(t: &Vec<(String, Vec<String>)>) -> (r: Vec<(String, Vec<String>)>)
    ensures
        view_shapes(r@) == view_shapes(t@),
{
    let mut r: Vec<(String, Vec<String>)> = Vec::new();
    let mut i: usize = 0;
    while i < t.len()
        invariant
            i <= t@.len(),
            r@.len() == i,
            forall|k: int| 0 <= k < i ==> #[trigger] view_shapes(r@)[k] == view_shapes(t@)[k],
        decreases t@.len() - i,
    {
        let ghost old_r = r@;
        let fields = crate::compiler::ast::copy_strings(&t[i].1);
        r.push((copy_string(&t[i].0), fields));
        proof {
            assert(view_strings(fields@) =~= fields@.map_values(|s: String| s@));
            assert(view_strings(t@[i as int].1@) =~= t@[i as int].1@.map_values(|s: String| s@));
            assert forall|k: int| 0 <= k < i + 1 implies #[trigger] view_shapes(r@)[k] == view_shapes(t@)[k] by {
                if k < i {
                    assert(r@[k] == old_r[k]);
                    assert(view_shapes(old_r)[k] == view_shapes(t@)[k]);
                }
            }
        }
        i = i + 1;
    }
    proof {
        assert(view_shapes(r@) =~= view_shapes(t@));
    }
    r
}

/// A copy of a table of numbers.
fn copy_numbers(t: &Vec<(String, usize)>) -> (r: Vec<(String, usize)>)
    ensures
        view_funcs(r@) == view_funcs(t@),
{
    let mut r: Vec<(String, usize)> = Vec::new();
    let mut i: usize = 0;
    while i < t.len()
        invariant
            i <= t@.len(),
            r@.len() == i,
            forall|k: int| 0 <= k < i ==> #[trigger] view_funcs(r@)[k] == view_funcs(t@)[k],
        decreases t@.len() - i,
    {
        let ghost old_r = r@;
        r.push((copy_string(&t[i].0), t[i].1));
        proof {
            assert forall|k: int| 0 <= k < i + 1 implies #[trigger] view_funcs(r@)[k] == view_funcs(t@)[k] by {
                if k < i {
                    assert(r@[k] == old_r[k]);
                    assert(view_funcs(old_r)[k] == view_funcs(t@)[k]);
                }
            }
        }
        i = i + 1;
    }
    proof {
        assert(view_funcs(r@) =~= view_funcs(t@));
    }
    r
}

/// Checks the arguments of a call in order.
fn verify_args(args: &Vec<Expr>, context: &mut VerificationContext) -> (r: Result<(), String>)
    requires
        old(context).wf(),
    ensures
        final(context).wf(),
        final(context).shapes@ == old(context).shapes@,
        final(context).functions@ == old(context).functions@,
        final(context).expand_map@ == old(context).expand_map@,
        final(context).stack_shapes@ == old(context).stack_shapes@,
        (verdict(r), final(context).stack@) == check_list(
            crate::compiler::ast::view_exprs(args@),
            old(context).env(),
            view_opt_names(old(context).stack_shapes@),
            old(context).stack@,
        ),
    decreases args@, 0nat,
{
    let ghost env = context.env();
    let ghost ss = view_opt_names(context.stack_shapes@);
    let ghost av = crate::compiler::ast::view_exprs(args@);
    let ghost st0 = context.stack@;
    let ghost sh0 = context.shapes@;
    let ghost fn0 = context.functions@;
    let ghost ex0 = context.expand_map@;
    let ghost ss0 = context.stack_shapes@;
    proof {
        crate::compiler::ast::lemma_view_exprs(args@);
        assert(av.subrange(0, av.len() as int) =~= av);
    }
    let mut i: usize = 0;
    let mut failure: Option<String> = None;
    while i < args.len() && failure.is_none()
        invariant
            i <= args@.len(),
            av == crate::compiler::ast::view_exprs(args@),
            av.len() == args@.len(),
            forall|k: int| 0 <= k < args@.len() ==> #[trigger] av[k] == args@[k]@,
            context.wf(),
            context.shapes@ == sh0,
            context.functions@ == fn0,
            context.expand_map@ == ex0,
            context.stack_shapes@ == ss0,
            env == context.env(),
            ss == view_opt_names(ss0),
            failure is None ==> check_list(av, env, ss, st0) == check_list(av.subrange(i as int, av.len() as int), env, ss, context.stack@),
            failure matches Some(e) ==> check_list(av, env, ss, st0) == (Err::<(), Seq<char>>(e@), context.stack@),
        decreases args@.len() - i,
    {
        let ghost sti = context.stack@;
        let ghost rest = av.subrange(i as int, av.len() as int);
        proof {
            assert(rest[0] == av[i as int]);
            assert(rest.subrange(1, rest.len() as int) =~= av.subrange(i + 1, av.len() as int));
        }
        match verify_expr(&args[i], context) {
            Ok(()) => {},
            Err(e) => {
                failure = Some(e);
            },
        }
        i = i + 1;
    }
    match failure {
        Some(e) => Err(e),
        None => {
            proof {
                assert(av.subrange(i as int, av.len() as int) =~= Seq::<ExprV>::empty());
            }
            Ok(())
        },
    }
}

/// Whether a token is a binary operator.
fn is_binop_token(t: &Token) -> (r: bool)
    ensures
        r == is_binop(t@),
{
    match t {
        Token::Add | Token::Sub | Token::Mul | Token::Div | Token::Eq | Token::Lt | Token::Gt | Token::BitAnd
        | Token::BitOr | Token::BitXor => true,
        _ => false,
    }
}

/// The forms whose two operands are checked one after the other: a valid
/// binary operation, a sequence, and the string, register, I/O, time, HTTP,
/// money and time-arithmetic operations of two operands.
pub open spec fn two_in_order(e: ExprV) -> bool {
    ||| e matches ExprV::BinaryOp(op, _, _) && is_binop(op)
    ||| e is Sequence
    ||| e is Cat
    ||| e is Loc
    ||| e is Reg
    ||| e is Write
    ||| e is TimeGet
    ||| e is HttpServer
    ||| e is HttpHeader
    ||| e is FileOpen
    ||| e is MoneyOp
    ||| e is TimeOp
}

/// Two operands are checked in order: the first from the given slot states,
/// the second from the states the first leaves; an error of either is the
/// outcome, the first one's first.
pub proof fn lemma_two_operands_in_order(e: ExprV, env: CheckEnv, ss: Seq<Option<Seq<char>>>, st: Seq<VariableState>)
    requires
        two_in_order(e),
    ensures
        children(e).len() == 2,
        ({
            let (ra, sa) = check(children(e)[0], env, ss, st);
            &&& ra is Err ==> check(e, env, ss, st) == (ra, sa)
            &&& ra is Ok ==> check(e, env, ss, st) == check(children(e)[1], env, ss, sa)
        }),
{
    let a = children(e)[0];
    let b = children(e)[1];
    assert(check(e, env, ss, st) == and_then(check(a, env, ss, st), b, env, ss));
}

/// Both branches of a conditional are checked from the slot states the
/// condition leaves, and must leave the same states: an error in the
/// condition or in either branch is reported, and branches that disagree
/// are E009.
pub proof fn lemma_branches_agree(
    c: ExprV,
    t: ExprV,
    f: ExprV,
    env: CheckEnv,
    ss: Seq<Option<Seq<char>>>,
    st: Seq<VariableState>,
)
    ensures
        ({
            let e = ExprV::If(Box::new(c), Box::new(t), Box::new(f));
            let (rc, sc) = check(c, env, ss, st);
            let (rt, stt) = check(t, env, ss, sc);
            let (rf, sf) = check(f, env, ss, sc);
            &&& rc is Err ==> check(e, env, ss, st) == (rc, sc)
            &&& rc is Ok && rt is Err ==> check(e, env, ss, st) == (rt, stt)
            &&& rc is Ok && rt is Ok && rf is Err ==> check(e, env, ss, st) == (rf, sf)
            &&& rc is Ok && rt is Ok && rf is Ok ==> check(e, env, ss, st) == if stt == sf {
                (Ok::<(), Seq<char>>(()), sf)
            } else {
                (Err::<(), Seq<char>>("E009"@), sf)
            }
        }),
{
}

/// An operation checks both operands, the right one in the slot states the
/// left one leaves: when the left operand fails, the operation fails with
/// its error; when it passes, the operation's outcome is the right
/// operand's, so any error in the right operand is reported.
pub proof fn lemma_operation_checks_both(
    op: TokenV,
    l: ExprV,
    r: ExprV,
    env: CheckEnv,
    ss: Seq<Option<Seq<char>>>,
    st: Seq<VariableState>,
)
    requires
        is_binop(op),
    ensures
        ({
            let (rl, sl) = check(l, env, ss, st);
            let whole = check(ExprV::BinaryOp(op, Box::new(l), Box::new(r)), env, ss, st);
            &&& rl is Err ==> whole == (rl, sl)
            &&& rl is Ok ==> whole == check(r, env, ss, sl)
        }),
{
    let whole = check(ExprV::BinaryOp(op, Box::new(l), Box::new(r)), env, ss, st);
    assert(whole == and_then(check(l, env, ss, st), r, env, ss));
}

/// A slot that the left operand of an operation moves is gone for the
/// right operand: moving it again is E005, reading it is E004.
pub proof fn lemma_no_use_after_move_across_operands(
    op: TokenV,
    l: ExprV,
    i: usize,
    env: CheckEnv,
    ss: Seq<Option<Seq<char>>>,
    st: Seq<VariableState>,
)
    requires
        is_binop(op),
        check(l, env, ss, st).0 is Ok,
        i < check(l, env, ss, st).1.len(),
        check(l, env, ss, st).1[check(l, env, ss, st).1.len() - 1 - i] == VariableState::Moved,
    ensures
        check(
            ExprV::BinaryOp(op, Box::new(l), Box::new(ExprV::Move(Box::new(ExprV::DeBruijn(i))))),
            env,
            ss,
            st,
        ).0 == Err::<(), Seq<char>>("E005"@),
        check(ExprV::BinaryOp(op, Box::new(l), Box::new(ExprV::DeBruijn(i))), env, ss, st).0 == Err::<
            (),
            Seq<char>,
        >("E004"@),
{
    let s1 = check(l, env, ss, st).1;
    let mv = ExprV::Move(Box::new(ExprV::DeBruijn(i)));
    assert(check(ExprV::BinaryOp(op, Box::new(l), Box::new(mv)), env, ss, st) == and_then(check(l, env, ss, st), mv, env, ss));
    assert(check(mv, env, ss, s1) == move_slot(s1, i < s1.len(), s1.len() - 1 - i));
    assert(check(ExprV::BinaryOp(op, Box::new(l), Box::new(ExprV::DeBruijn(i))), env, ss, st) == and_then(
        check(l, env, ss, st),
        ExprV::DeBruijn(i),
        env,
        ss,
    ));
    assert(check(ExprV::DeBruijn(i), env, ss, s1) == read_slot(s1, i < s1.len(), s1.len() - 1 - i));
}

/// Moving the same available slot in both operands of an operation is
/// E005.
pub proof fn lemma_double_move_in_operation(
    op: TokenV,
    i: usize,
    env: CheckEnv,
    ss: Seq<Option<Seq<char>>>,
    st: Seq<VariableState>,
)
    requires
        is_binop(op),
        i < st.len(),
        st[st.len() - 1 - i] == VariableState::Available,
    ensures
        ({
            let mv = ExprV::Move(Box::new(ExprV::DeBruijn(i)));
            check(ExprV::BinaryOp(op, Box::new(mv), Box::new(mv)), env, ss, st).0 == Err::<(), Seq<char>>("E005"@)
        }),
{
    let mv = ExprV::Move(Box::new(ExprV::DeBruijn(i)));
    assert(check(mv, env, ss, st) == move_slot(st, i < st.len(), st.len() - 1 - i));
    let s1 = check(mv, env, ss, st).1;
    assert(s1 == st.update(st.len() - 1 - i, VariableState::Moved));
    assert(s1[s1.len() - 1 - i] == VariableState::Moved);
    assert(check(ExprV::BinaryOp(op, Box::new(mv), Box::new(mv)), env, ss, st) == and_then(check(mv, env, ss, st), mv, env, ss));
    assert(check(mv, env, ss, s1) == move_slot(s1, i < s1.len(), s1.len() - 1 - i));
}

/// A call of an unknown function in the right operand of an operation is
/// E010, once the left operand passes.
pub proof fn lemma_unknown_call_in_operand(
    op: TokenV,
    l: ExprV,
    n: Seq<char>,
    args: Seq<ExprV>,
    env: CheckEnv,
    ss: Seq<Option<Seq<char>>>,
    st: Seq<VariableState>,
)
    requires
        is_binop(op),
        check(l, env, ss, st).0 is Ok,
        find_entry(env.funcs, n) is None,
    ensures
        check(
            ExprV::BinaryOp(op, Box::new(l), Box::new(ExprV::Apply(Box::new(ExprV::Identifier(n)), args))),
            env,
            ss,
            st,
        ).0 == Err::<(), Seq<char>>("E010"@),
{
    let call = ExprV::Apply(Box::new(ExprV::Identifier(n)), args);
    let s1 = check(l, env, ss, st).1;
    assert(check(ExprV::BinaryOp(op, Box::new(l), Box::new(call)), env, ss, st) == and_then(check(l, env, ss, st), call, env, ss));
    assert(check(call, env, ss, s1) == fail("E010"@, s1));
}

} // verus!
