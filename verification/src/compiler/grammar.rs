//! The grammar of the language, as functions from parser states to results:
//! a prefix-arity recursive descent over the token stream, with De Bruijn
//! resolution of bound names, module imports answered by a signature
//! resolver, and the desugaring of the `rt` router form.

use vstd::prelude::*;
use crate::compiler::ast::{Expr, ExprV, Param, ParamV, view_exprs, view_params, view_strings};
use crate::compiler::error::{CompileError, ErrorView};
use crate::compiler::lexer::{
    Lexed, Lexer, Token, TokenV, invalid_char_message, lex_next, lemma_lex_next, stream_sound,
    money_fits, lemma_stream_sound_step, dot_index,
};
use crate::compiler::signature::{SigView, sig_of};
use crate::compiler::router::router_expansion;
use crate::compiler::table::find_entry;

verus! {

/// What a signature resolver replied: the signature text, or an error code.
pub enum Reply {
    Found(Seq<char>),
    Missing(Seq<char>),
}

/// One question put to the signature resolver, with its reply: the module
/// asked for, and the import paths and file name handed over with it.
pub struct Answer {
    pub module: Seq<char>,
    pub paths: Seq<Seq<char>>,
    pub filename: Seq<char>,
    pub reply: Reply,
}

/// The parser's state, as far as the grammar is concerned.
pub struct PState {
    /// The source characters.
    pub src: Seq<char>,
    /// How far the lexer has read (just past the lookahead token).
    pub pos: int,
    /// The lexer's line counter.
    pub line: int,
    /// The lookahead token.
    pub cur: TokenV,
    /// The file name that errors report.
    pub filename: Seq<char>,
    /// The import paths handed to the resolver.
    pub paths: Seq<Seq<char>>,
    /// The names bound in each open scope, innermost scope last.
    pub scopes: Seq<Seq<Seq<char>>>,
    /// Imported shapes, as (shape name, module) pairs.
    pub imported: Seq<(Seq<char>, Seq<char>)>,
    /// Functions synthesized while parsing and not yet handed out.
    pub generated: Seq<ExprV>,
    /// How many resolver answers have been used.
    pub nresp: nat,
}

/// The outcome of parsing one expression.
pub type Parsed = (Result<ExprV, ErrorView>, PState);

/// The lexer position lies within the source.
pub open spec fn valid(st: PState) -> bool {
    0 <= st.pos <= st.src.len()
}

/// What is left to read: the characters after the lexer, plus one for a
/// lookahead token that is not the end.
pub open spec fn measure(st: PState) -> int {
    (st.src.len() - st.pos) + if st.cur is EOF { 0int } else { 1int }
}

/// The reply that the log's entry `i` records to the question for `module`
/// with `paths` and `filename`, if that entry is there and answers that
/// question.
pub open spec fn reply_to(log: Seq<Answer>, i: nat, module: Seq<char>, paths: Seq<Seq<char>>, filename: Seq<char>) -> Reply {
    if i < log.len() && log[i as int].module == module && log[i as int].paths == paths && log[i as int].filename
        == filename {
        log[i as int].reply
    } else {
        Reply::Missing(Seq::empty())
    }
}

/// The error a parser in state `st` reports with `code`.
pub open spec fn p_err(st: PState, code: Seq<char>) -> ErrorView {
    ErrorView { code, filename: st.filename, line: st.line as nat }
}

/// The error that stands for an outcome the lexer precondition rules out.
pub open spec fn unreachable_err() -> ErrorView {
    ErrorView { code: Seq::empty(), filename: Seq::empty(), line: 0 }
}

/// Consumes the lookahead token: returns it and lexes the next one.
#[verifier::opaque]
pub open spec fn p_consume(st: PState) -> (Result<TokenV, ErrorView>, PState) {
    let (lx, p, l) = lex_next(st.src, st.pos, st.line);
    match lx {
        Lexed::Tok(t) => (Ok(st.cur), PState { pos: p, line: l, cur: t, ..st }),
        Lexed::Invalid(c) => (
            Err(ErrorView { code: invalid_char_message(c), filename: st.filename, line: l as nat }),
            PState { pos: p, line: l, ..st },
        ),
        Lexed::Malformed => (Err(unreachable_err()), st),
    }
}

pub proof fn lemma_consume(st: PState)
    requires
        valid(st),
    ensures
        valid(p_consume(st).1),
        p_consume(st).1.line >= st.line,
        !(st.cur is EOF) && p_consume(st).0 is Ok ==> measure(p_consume(st).1) < measure(st),
        measure(p_consume(st).1) <= measure(st) || p_consume(st).0 is Err,
        p_consume(st).1.scopes == st.scopes,
        p_consume(st).1.imported == st.imported,
        p_consume(st).1.generated == st.generated,
        p_consume(st).1.nresp == st.nresp,
        p_consume(st).1.src == st.src,
        p_consume(st).1.filename == st.filename,
{
    reveal(p_consume);
    lemma_lex_next(st.src, st.pos, st.line);
}

/// Consumes an identifier token and returns its name; E002 when the token is
/// anything else.
pub open spec fn p_ident(st: PState) -> (Result<Seq<char>, ErrorView>, PState) {
    let (r, st1) = p_consume(st);
    match r {
        Ok(TokenV::Identifier(s)) => (Ok(s), st1),
        Ok(_) => (Err(p_err(st1, "E002"@)), st1),
        Err(e) => (Err(e), st1),
    }
}

/// Consumes a string token and returns its text; E002 when the token is
/// anything else.
pub open spec fn p_string(st: PState) -> (Result<Seq<char>, ErrorView>, PState) {
    let (r, st1) = p_consume(st);
    match r {
        Ok(TokenV::String(s)) => (Ok(s), st1),
        Ok(_) => (Err(p_err(st1, "E002"@)), st1),
        Err(e) => (Err(e), st1),
    }
}

/// The last position at which `name` occurs in `names`.
pub open spec fn last_pos(names: Seq<Seq<char>>, name: Seq<char>) -> Option<nat>
    decreases names.len(),
{
    if names.len() == 0 {
        None
    } else if names.last() == name {
        Some((names.len() - 1) as nat)
    } else {
        last_pos(names.drop_last(), name)
    }
}

/// The De Bruijn index of `name`: how many bindings lie between its most
/// recent binding and the innermost end of the scopes.
pub open spec fn resolve_var(scopes: Seq<Seq<Seq<char>>>, name: Seq<char>) -> Option<nat>
    decreases scopes.len(),
{
    if scopes.len() == 0 {
        None
    } else {
        let sc = scopes.last();
        match last_pos(sc, name) {
            Some(j) => Some((sc.len() - 1 - j) as nat),
            None => match resolve_var(scopes.drop_last(), name) {
                Some(k) => Some(k + sc.len()),
                None => None,
            },
        }
    }
}

/// The total number of bindings in all scopes.
pub open spec fn flat_len(scopes: Seq<Seq<Seq<char>>>) -> nat
    decreases scopes.len(),
{
    if scopes.len() == 0 {
        0
    } else {
        flat_len(scopes.drop_last()) + scopes.last().len()
    }
}

/// The name under which a shape is known: `module_name` when it was imported
/// from `module` (the first matching import counts), else the name itself.
pub open spec fn shape_name(imported: Seq<(Seq<char>, Seq<char>)>, name: Seq<char>) -> Seq<char>
    decreases imported.len(),
{
    if imported.len() == 0 {
        name
    } else if imported[0].0 == name {
        imported[0].1 + seq!['_'] + name
    } else {
        shape_name(imported.drop_first(), name)
    }
}

/// Adds a binding to the innermost scope, if there is one.
pub open spec fn add_var(scopes: Seq<Seq<Seq<char>>>, name: Seq<char>) -> Seq<Seq<Seq<char>>> {
    if scopes.len() == 0 {
        scopes
    } else {
        scopes.update(scopes.len() - 1, scopes.last().push(name))
    }
}

/// Drops the most recent binding of the innermost scope, if there is one.
pub open spec fn drop_var(scopes: Seq<Seq<Seq<char>>>) -> Seq<Seq<Seq<char>>> {
    if scopes.len() == 0 {
        scopes
    } else if scopes.last().len() == 0 {
        scopes
    } else {
        scopes.update(scopes.len() - 1, scopes.last().drop_last())
    }
}

/// Drops the innermost scope, if there is one.
pub open spec fn pop_scope(scopes: Seq<Seq<Seq<char>>>) -> Seq<Seq<Seq<char>>> {
    if scopes.len() == 0 {
        scopes
    } else {
        scopes.drop_last()
    }
}

/// A binary operator token.
pub open spec fn is_binop(t: TokenV) -> bool {
    t is Add || t is Sub || t is Mul || t is Div || t is Eq || t is Lt || t is Gt || t is BitAnd
        || t is BitOr || t is BitXor
}

/// How many operands a token that takes a fixed number of operands reads;
/// zero for the other tokens.
pub open spec fn nary_arity(t: TokenV) -> nat {
    match t {
        TokenV::Move | TokenV::Borrow | TokenV::MutBorrow | TokenV::Len | TokenV::Read
        | TokenV::Str | TokenV::Env | TokenV::Panic => 1,
        TokenV::Cat | TokenV::Loc | TokenV::Reg | TokenV::Write | TokenV::TimeGet | TokenV::Filter
        | TokenV::Trap | TokenV::HttpServer | TokenV::HttpHeader | TokenV::FileOpen | TokenV::Dot => 2,
        TokenV::StrSub | TokenV::Split | TokenV::HttpClient | TokenV::Question => 3,
        TokenV::OtelEmit(_) => 4,
        TokenV::TimeSet => 6,
        _ => if is_binop(t) { 2 } else { 0 },
    }
}

/// The expression a fixed-operand token builds from its operands.
pub open spec fn nary_build(t: TokenV, a: Seq<ExprV>) -> ExprV {
    let b0 = Box::new(a[0]);
    let b1 = Box::new(a[1]);
    let b2 = Box::new(a[2]);
    match t {
        TokenV::Move => ExprV::Move(b0),
        TokenV::Borrow => ExprV::Borrow(b0),
        TokenV::MutBorrow => ExprV::MutBorrow(b0),
        TokenV::Len => ExprV::Len(b0),
        TokenV::Read => ExprV::Read(b0),
        TokenV::Str => ExprV::Str(b0),
        TokenV::Env => ExprV::Env(b0),
        TokenV::Panic => ExprV::Panic(b0),
        TokenV::Cat => ExprV::Cat(b0, b1),
        TokenV::Loc => ExprV::Loc(b0, b1),
        TokenV::Reg => ExprV::Reg(b0, b1),
        TokenV::Write => ExprV::Write(b0, b1),
        TokenV::TimeGet => ExprV::TimeGet(b0, b1),
        TokenV::Filter => ExprV::Filter(b0, b1),
        TokenV::Trap => ExprV::Trap(b0, b1),
        TokenV::HttpServer => ExprV::HttpServer(b0, b1),
        TokenV::HttpHeader => ExprV::HttpHeader(b0, b1),
        TokenV::FileOpen => ExprV::FileOpen(b0, b1),
        TokenV::Dot => ExprV::Sequence(b0, b1),
        TokenV::StrSub => ExprV::Sub(b0, b1, b2),
        TokenV::Split => ExprV::Split(b0, b1, b2),
        TokenV::HttpClient => ExprV::HttpClient(b0, b1, b2),
        TokenV::Question => ExprV::If(b0, b1, b2),
        TokenV::OtelEmit(_) => ExprV::OtelEmit(b0, b1, b2, Box::new(a[3])),
        TokenV::TimeSet => ExprV::TimeSet(b0, b1, b2, Box::new(a[3]), Box::new(a[4]), Box::new(a[5])),
        _ => ExprV::BinaryOp(t, b0, b1),
    }
}

/// Consumes the lookahead token and yields `e`.
pub open spec fn p_atom(st: PState, e: ExprV) -> Parsed {
    let (r, st1) = p_consume(st);
    match r {
        Ok(_) => (Ok(e), st1),
        Err(err) => (Err(err), st1),
    }
}

/// A literal, a De Bruijn index, or a name: a bound name becomes the De
/// Bruijn index of its binding, any other name stays an identifier.
pub open spec fn p_leaf(st: PState) -> Parsed {
    p_atom(
        st,
        match st.cur {
            TokenV::Integer(i) => ExprV::Integer(i),
            TokenV::Float(f) => ExprV::Float(f),
            TokenV::String(s) => ExprV::String(s),
            TokenV::DeBruijn(i) => ExprV::DeBruijn(i),
            TokenV::TimeZone => ExprV::TimeZone,
            TokenV::TimeNano => ExprV::TimeNano,
            TokenV::Identifier(s) => match resolve_var(st.scopes, s) {
                Some(i) => ExprV::DeBruijn(i as usize),
                None => ExprV::Identifier(s),
            },
            _ => ExprV::TimeNow,
        },
    )
}

/// The innermost target of a chain of `Metadata` wrappers.
pub open spec fn strip_meta(e: ExprV) -> ExprV
    decreases e,
{
    match e {
        ExprV::Metadata(_, _, t) => strip_meta(*t),
        _ => e,
    }
}

/// The grammar of one expression.
pub open spec fn p_expr(st: PState, log: Seq<Answer>) -> Parsed
    decreases measure(st), 1nat when valid(st)
{
    match st.cur {
        TokenV::Integer(_) | TokenV::Float(_) | TokenV::String(_) | TokenV::DeBruijn(_) | TokenV::TimeZone
        | TokenV::TimeNano | TokenV::Identifier(_) => p_leaf(st),
        TokenV::Let => p_let(st, log),
        TokenV::Define => p_define(st, log),
        TokenV::Shape => p_shape(st),
        TokenV::New => p_new(st, log),
        TokenV::Get => p_get(st, log),
        TokenV::SetField => p_set(st, log),
        TokenV::Bang => p_expand(st),
        TokenV::Metadata => p_meta(st, log),
        TokenV::Export => p_export(st, log),
        TokenV::Money => p_money(st, log),
        TokenV::Import => p_import(st, log),
        TokenV::Apply(n) => p_apply(st, log, n as nat),
        TokenV::Pack(n) => p_pack(st, log, n),
        TokenV::MapField => p_map(st, log),
        TokenV::TimeNow => p_time_now(st, log),
        TokenV::Router => p_router(st, log),
        TokenV::EOF => (Err(p_err(st, "E000"@)), st),
        _ => if nary_arity(st.cur) > 0 {
            p_nary(st, log)
        } else {
            (Err(p_err(st, "E001"@)), st)
        },
    }
}

/// Parses `k` expressions in a row, appending them to `acc`.
pub open spec fn p_exprs(st: PState, log: Seq<Answer>, k: nat, acc: Seq<ExprV>) -> (
    Result<Seq<ExprV>, ErrorView>,
    PState,
)
    decreases measure(st), 2nat when valid(st)
{
    if k == 0 {
        (Ok(acc), st)
    } else {
        let (r, st1) = p_expr(st, log);
        match r {
            Err(e) => (Err(e), st1),
            Ok(e) => if measure(st1) < measure(st) && valid(st1) {
                p_exprs(st1, log, (k - 1) as nat, acc.push(e))
            } else {
                (Err(unreachable_err()), st1)
            },
        }
    }
}

/// A token with a fixed number of operands.
pub open spec fn p_nary(st: PState, log: Seq<Answer>) -> Parsed
    decreases measure(st), 0nat when valid(st)
{
    let (r, st1) = p_consume(st);
    match r {
        Err(e) => (Err(e), st1),
        Ok(t) => if measure(st1) < measure(st) && valid(st1) {
            let (rs, st2) = p_exprs(st1, log, nary_arity(t), Seq::empty());
            match rs {
                Ok(a) => (Ok(nary_build(t, a)), st2),
                Err(e) => (Err(e), st2),
            }
        } else {
            (Err(unreachable_err()), st1)
        },
    }
}

/// `L name value body`: `name` is bound in `body` only.
pub open spec fn p_let(st: PState, log: Seq<Answer>) -> Parsed
    decreases measure(st), 0nat when valid(st)
{
    let (r0, st1) = p_consume(st);
    if r0 is Err {
        (Err(r0->Err_0), st1)
    } else {
        let (rn, st2) = p_ident(st1);
        match rn {
            Err(e) => (Err(e), st2),
            Ok(name) => if measure(st2) < measure(st) && valid(st2) {
                let (rv, st3) = p_expr(st2, log);
                match rv {
                    Err(e) => (Err(e), st3),
                    Ok(v) => {
                        let st4 = PState { scopes: add_var(st3.scopes, name), ..st3 };
                        if measure(st4) < measure(st) && valid(st4) {
                            let (rb, st5) = p_expr(st4, log);
                            let st6 = PState { scopes: drop_var(st5.scopes), ..st5 };
                            match rb {
                                Err(e) => (Err(e), st5),
                                Ok(b) => (Ok(ExprV::Let(name, Box::new(v), Box::new(b))), st6),
                            }
                        } else {
                            (Err(unreachable_err()), st4)
                        }
                    },
                }
            } else {
                (Err(unreachable_err()), st2)
            },
        }
    }
}

/// The parameters of a definition: identifiers, each optionally followed by a
/// backtick that marks it as a template parameter; each is bound as read.
pub open spec fn p_params(st: PState, acc: Seq<ParamV>) -> (Result<Seq<ParamV>, ErrorView>, PState)
    decreases measure(st), 0nat when valid(st)
{
    match st.cur {
        TokenV::Identifier(p) => {
            let (r1, st1) = p_consume(st);
            if r1 is Err {
                (Err(r1->Err_0), st1)
            } else if st1.cur is Bang {
                let (r2, st2) = p_consume(st1);
                if r2 is Err {
                    (Err(r2->Err_0), st2)
                } else {
                    let st3 = PState { scopes: add_var(st2.scopes, p), ..st2 };
                    if measure(st3) < measure(st) && valid(st3) {
                        p_params(st3, acc.push(ParamV { name: p, expand: true }))
                    } else {
                        (Err(unreachable_err()), st3)
                    }
                }
            } else {
                let st3 = PState { scopes: add_var(st1.scopes, p), ..st1 };
                if measure(st3) < measure(st) && valid(st3) {
                    p_params(st3, acc.push(ParamV { name: p, expand: false }))
                } else {
                    (Err(unreachable_err()), st3)
                }
            }
        },
        _ => (Ok(acc), st),
    }
}

/// `: name params body`: the parameters are bound in a scope of their own.
pub open spec fn p_define(st: PState, log: Seq<Answer>) -> Parsed
    decreases measure(st), 0nat when valid(st)
{
    let (r0, st1) = p_consume(st);
    if r0 is Err {
        (Err(r0->Err_0), st1)
    } else {
        let (rn, st2) = p_ident(st1);
        match rn {
            Err(e) => (Err(e), st2),
            Ok(name) => {
                let st3 = PState { scopes: st2.scopes.push(Seq::empty()), ..st2 };
                if measure(st3) < measure(st) && valid(st3) {
                    let (rp, st4) = p_params(st3, Seq::empty());
                    match rp {
                        Err(e) => (Err(e), st4),
                        Ok(params) => if measure(st4) < measure(st) && valid(st4) {
                            let (rb, st5) = p_expr(st4, log);
                            match rb {
                                Err(e) => (Err(e), st5),
                                Ok(b) => (
                                    Ok(ExprV::Define(name, params, Box::new(b), false)),
                                    PState { scopes: pop_scope(st5.scopes), ..st5 },
                                ),
                            }
                        } else {
                            (Err(unreachable_err()), st4)
                        },
                    }
                } else {
                    (Err(unreachable_err()), st3)
                }
            },
        }
    }
}

/// The field names of a shape: the identifiers that follow.
pub open spec fn p_fields(st: PState, acc: Seq<Seq<char>>) -> (Result<Seq<Seq<char>>, ErrorView>, PState)
    decreases measure(st) when valid(st)
{
    match st.cur {
        TokenV::Identifier(f) => {
            let (r1, st1) = p_consume(st);
            if r1 is Err {
                (Err(r1->Err_0), st1)
            } else if measure(st1) < measure(st) && valid(st1) {
                p_fields(st1, acc.push(f))
            } else {
                (Err(unreachable_err()), st1)
            }
        },
        _ => (Ok(acc), st),
    }
}

/// `# Name field...`
pub open spec fn p_shape(st: PState) -> Parsed {
    let (r0, st1) = p_consume(st);
    if r0 is Err {
        (Err(r0->Err_0), st1)
    } else {
        let (rn, st2) = p_ident(st1);
        match rn {
            Err(e) => (Err(e), st2),
            Ok(name) => {
                let (rf, st3) = p_fields(st2, Seq::empty());
                match rf {
                    Err(e) => (Err(e), st3),
                    Ok(fields) => (Ok(ExprV::Shape(name, fields, false)), st3),
                }
            },
        }
    }
}

/// `N Shape count`
pub open spec fn p_new(st: PState, log: Seq<Answer>) -> Parsed
    decreases measure(st), 0nat when valid(st)
{
    let (r0, st1) = p_consume(st);
    if r0 is Err {
        (Err(r0->Err_0), st1)
    } else {
        let (rn, st2) = p_ident(st1);
        match rn {
            Err(e) => (Err(e), st2),
            Ok(name) => if measure(st2) < measure(st) && valid(st2) {
                let (rc, st3) = p_expr(st2, log);
                match rc {
                    Err(e) => (Err(e), st3),
                    Ok(c) => (Ok(ExprV::New(shape_name(st2.imported, name), Box::new(c))), st3),
                }
            } else {
                (Err(unreachable_err()), st2)
            },
        }
    }
}

/// `G instance field index`
pub open spec fn p_get(st: PState, log: Seq<Answer>) -> Parsed
    decreases measure(st), 0nat when valid(st)
{
    let (r0, st1) = p_consume(st);
    if r0 is Err {
        (Err(r0->Err_0), st1)
    } else if measure(st1) < measure(st) && valid(st1) {
        let (ri, st2) = p_expr(st1, log);
        match ri {
            Err(e) => (Err(e), st2),
            Ok(inst) => {
                let (rf, st3) = p_ident(st2);
                match rf {
                    Err(e) => (Err(e), st3),
                    Ok(field) => if measure(st3) < measure(st) && valid(st3) {
                        let (rx, st4) = p_expr(st3, log);
                        match rx {
                            Err(e) => (Err(e), st4),
                            Ok(idx) => (Ok(ExprV::Get(Box::new(inst), field, Box::new(idx))), st4),
                        }
                    } else {
                        (Err(unreachable_err()), st3)
                    },
                }
            },
        }
    } else {
        (Err(unreachable_err()), st1)
    }
}

/// `S instance field index value`
pub open spec fn p_set(st: PState, log: Seq<Answer>) -> Parsed
    decreases measure(st), 0nat when valid(st)
{
    let (r0, st1) = p_consume(st);
    if r0 is Err {
        (Err(r0->Err_0), st1)
    } else if measure(st1) < measure(st) && valid(st1) {
        let (ri, st2) = p_expr(st1, log);
        match ri {
            Err(e) => (Err(e), st2),
            Ok(inst) => {
                let (rf, st3) = p_ident(st2);
                match rf {
                    Err(e) => (Err(e), st3),
                    Ok(field) => if measure(st3) < measure(st) && valid(st3) {
                        let (rs, st4) = p_exprs(st3, log, 2, Seq::empty());
                        match rs {
                            Err(e) => (Err(e), st4),
                            Ok(a) => (
                                Ok(ExprV::SetField(Box::new(inst), field, Box::new(a[0]), Box::new(a[1]))),
                                st4,
                            ),
                        }
                    } else {
                        (Err(unreachable_err()), st3)
                    },
                }
            },
        }
    } else {
        (Err(unreachable_err()), st1)
    }
}

/// `` `name ``: a reference to a template parameter.
pub open spec fn p_expand(st: PState) -> Parsed {
    let (r0, st1) = p_consume(st);
    if r0 is Err {
        (Err(r0->Err_0), st1)
    } else {
        let (rn, st2) = p_ident(st1);
        match rn {
            Err(e) => (Err(e), st2),
            Ok(name) => (Ok(ExprV::Expand(name)), st2),
        }
    }
}

/// `M tag value target`; a `"test"` tag must wrap a definition (E019).
pub open spec fn p_meta(st: PState, log: Seq<Answer>) -> Parsed
    decreases measure(st), 0nat when valid(st)
{
    let (r0, st1) = p_consume(st);
    if r0 is Err {
        (Err(r0->Err_0), st1)
    } else if measure(st1) < measure(st) && valid(st1) {
        let (rs, st2) = p_exprs(st1, log, 3, Seq::empty());
        match rs {
            Err(e) => (Err(e), st2),
            Ok(a) => if a[0] == ExprV::String("test"@) && !(strip_meta(a[2]) is Define) {
                (Err(p_err(st2, "E019"@)), st2)
            } else {
                (Ok(ExprV::Metadata(Box::new(a[0]), Box::new(a[1]), Box::new(a[2]))), st2)
            },
        }
    } else {
        (Err(unreachable_err()), st1)
    }
}

/// `X definition-or-shape`: marks it exported; anything else is E015.
pub open spec fn p_export(st: PState, log: Seq<Answer>) -> Parsed
    decreases measure(st), 0nat when valid(st)
{
    let (r0, st1) = p_consume(st);
    if r0 is Err {
        (Err(r0->Err_0), st1)
    } else if measure(st1) < measure(st) && valid(st1) {
        let (ri, st2) = p_expr(st1, log);
        match ri {
            Err(e) => (Err(e), st2),
            Ok(ExprV::Define(n, p, b, _)) => (Ok(ExprV::Define(n, p, b, true)), st2),
            Ok(ExprV::Shape(n, f, _)) => (Ok(ExprV::Shape(n, f, true)), st2),
            Ok(_) => (Err(p_err(st2, "E015"@)), st2),
        }
    } else {
        (Err(unreachable_err()), st1)
    }
}

/// The value in ten-thousandths of a float literal `int.frac`, truncated
/// towards zero and capped at `i64::MAX`.
pub open spec fn money_of_text(t: Seq<char>) -> i64 {
    let dot = dot_index(t);
    let int_part = crate::text::digits_value(t.take(dot));
    let frac = t.skip(dot + 1);
    let four = if frac.len() >= 4 { frac.take(4) } else { frac + Seq::new((4 - frac.len()) as nat, |i: int| '0') };
    let v = int_part * 10000 + crate::text::digits_value(four);
    if v <= i64::MAX { v as i64 } else { i64::MAX }
}

/// `%` forms: `% str e`, `% op a b`, and money literals `% 12` / `% 1.5`
/// (scaled to ten-thousandths); anything else after `%` is E002.
pub open spec fn p_money(st: PState, log: Seq<Answer>) -> Parsed
    decreases measure(st), 0nat when valid(st)
{
    let (r0, st1) = p_consume(st);
    if r0 is Err {
        (Err(r0->Err_0), st1)
    } else if measure(st1) < measure(st) && valid(st1) {
        match st1.cur {
            TokenV::Str => {
                let (r1, st2) = p_consume(st1);
                if r1 is Err {
                    (Err(r1->Err_0), st2)
                } else if measure(st2) < measure(st) && valid(st2) {
                    let (re, st3) = p_expr(st2, log);
                    match re {
                        Err(e) => (Err(e), st3),
                        Ok(e) => (Ok(ExprV::MoneyStr(Box::new(e))), st3),
                    }
                } else {
                    (Err(unreachable_err()), st2)
                }
            },
            TokenV::Add | TokenV::Sub | TokenV::Mul | TokenV::Div => {
                let (r1, st2) = p_consume(st1);
                if r1 is Err {
                    (Err(r1->Err_0), st2)
                } else if measure(st2) < measure(st) && valid(st2) {
                    let (rs, st3) = p_exprs(st2, log, 2, Seq::empty());
                    match rs {
                        Err(e) => (Err(e), st3),
                        Ok(a) => (Ok(ExprV::MoneyOp(st1.cur, Box::new(a[0]), Box::new(a[1]))), st3),
                    }
                } else {
                    (Err(unreachable_err()), st2)
                }
            },
            TokenV::Integer(i) => p_atom(st1, ExprV::Integer((i * 10000) as i64)),
            TokenV::Float(f) => p_atom(st1, ExprV::Integer(money_of_text(f))),
            _ => (Err(p_err(st1, "E002"@)), st1),
        }
    } else {
        (Err(unreachable_err()), st1)
    }
}

/// The module name after `I`: an identifier, or the `http` keyword.
pub open spec fn p_module_name(st: PState) -> (Result<Seq<char>, ErrorView>, PState) {
    let (r, st1) = p_consume(st);
    match r {
        Ok(TokenV::Identifier(s)) => (Ok(s), st1),
        Ok(TokenV::HttpClient) => (Ok("http"@), st1),
        Ok(_) => (Err(p_err(st1, "E002"@)), st1),
        Err(e) => (Err(e), st1),
    }
}

/// The fields of the first shape of a signature named `name`.
pub open spec fn find_shape(shapes: Seq<(Seq<char>, Seq<Seq<char>>)>, name: Seq<char>) -> Option<Seq<Seq<char>>> {
    find_entry(shapes, name)
}

/// The arity of the first function of a signature named `name`.
pub open spec fn find_func(funcs: Seq<(Seq<char>, usize)>, name: Seq<char>) -> Option<usize> {
    find_entry(funcs, name)
}

/// `I module symbol`: looks the symbol up in the module's signature, which
/// the resolver supplies when asked for the module with the parser's import
/// paths and file name (its answer is the next one in the log). A shape
/// becomes a shape definition under the name `module_symbol` and is
/// remembered as imported; a function becomes an import of its arity;
/// otherwise E018. A resolver error is reported with the code it gave.
pub open spec fn p_import(st: PState, log: Seq<Answer>) -> Parsed {
    let (r0, st1) = p_consume(st);
    if r0 is Err {
        (Err(r0->Err_0), st1)
    } else {
        let (rm, st2) = p_module_name(st1);
        match rm {
            Err(e) => (Err(e), st2),
            Ok(module) => {
                let (rs, st3) = p_ident(st2);
                match rs {
                    Err(e) => (Err(e), st3),
                    Ok(symbol) => {
                        let st4 = PState { nresp: st3.nresp + 1, ..st3 };
                        match reply_to(log, st3.nresp, module, st3.paths, st3.filename) {
                            Reply::Missing(code) => (Err(p_err(st4, code)), st4),
                            Reply::Found(text) => {
                                let sig = sig_of(text);
                                match find_shape(sig.shapes, symbol) {
                                    Some(fields) => (
                                        Ok(ExprV::Shape(module + seq!['_'] + symbol, fields, false)),
                                        PState { imported: st4.imported.push((symbol, module)), ..st4 },
                                    ),
                                    None => match find_func(sig.funcs, symbol) {
                                        Some(arity) => (Ok(ExprV::Import(module, symbol, arity)), st4),
                                        None => (Err(p_err(st4, "E018"@)), st4),
                                    },
                                }
                            },
                        }
                    },
                }
            },
        }
    }
}

/// `@n f a1 .. an` (plain `@` is `@1`).
pub open spec fn p_apply(st: PState, log: Seq<Answer>, n: nat) -> Parsed
    decreases measure(st), 0nat when valid(st)
{
    let (r0, st1) = p_consume(st);
    if r0 is Err {
        (Err(r0->Err_0), st1)
    } else if measure(st1) < measure(st) && valid(st1) {
        let (rf, st2) = p_expr(st1, log);
        match rf {
            Err(e) => (Err(e), st2),
            Ok(f) => if measure(st2) < measure(st) && valid(st2) {
                let (ra, st3) = p_exprs(st2, log, n, Seq::empty());
                match ra {
                    Err(e) => (Err(e), st3),
                    Ok(args) => (Ok(ExprV::Apply(Box::new(f), args)), st3),
                }
            } else {
                (Err(unreachable_err()), st2)
            },
        }
    } else {
        (Err(unreachable_err()), st1)
    }
}

/// `jp e` packs; `ju e "Shape"` unpacks into the named shape.
pub open spec fn p_pack(st: PState, log: Seq<Answer>, n: usize) -> Parsed
    decreases measure(st), 0nat when valid(st)
{
    let (r0, st1) = p_consume(st);
    if r0 is Err {
        (Err(r0->Err_0), st1)
    } else if measure(st1) < measure(st) && valid(st1) {
        let (re, st2) = p_expr(st1, log);
        match re {
            Err(e) => (Err(e), st2),
            Ok(e) => if n == 1 {
                (Ok(ExprV::Pack(Box::new(e))), st2)
            } else {
                let (rs, st3) = p_string(st2);
                match rs {
                    Err(err) => (Err(err), st3),
                    Ok(name) => (Ok(ExprV::Unpack(Box::new(e), shape_name(st3.imported, name))), st3),
                }
            },
        }
    } else {
        (Err(unreachable_err()), st1)
    }
}

/// `map instance "field" function`
pub open spec fn p_map(st: PState, log: Seq<Answer>) -> Parsed
    decreases measure(st), 0nat when valid(st)
{
    let (r0, st1) = p_consume(st);
    if r0 is Err {
        (Err(r0->Err_0), st1)
    } else if measure(st1) < measure(st) && valid(st1) {
        let (ri, st2) = p_expr(st1, log);
        match ri {
            Err(e) => (Err(e), st2),
            Ok(inst) => {
                let (rf, st3) = p_string(st2);
                match rf {
                    Err(e) => (Err(e), st3),
                    Ok(field) => if measure(st3) < measure(st) && valid(st3) {
                        let (rg, st4) = p_expr(st3, log);
                        match rg {
                            Err(e) => (Err(e), st4),
                            Ok(g) => (Ok(ExprV::MapField(Box::new(inst), field, Box::new(g))), st4),
                        }
                    } else {
                        (Err(unreachable_err()), st3)
                    },
                }
            },
        }
    } else {
        (Err(unreachable_err()), st1)
    }
}

/// `tn` is the current time; `tn + a b` and `tn - a b` are time arithmetic.
pub open spec fn p_time_now(st: PState, log: Seq<Answer>) -> Parsed
    decreases measure(st), 0nat when valid(st)
{
    let (r0, st1) = p_consume(st);
    if r0 is Err {
        (Err(r0->Err_0), st1)
    } else if st1.cur is Add || st1.cur is Sub {
        let (r1, st2) = p_consume(st1);
        if r1 is Err {
            (Err(r1->Err_0), st2)
        } else if measure(st2) < measure(st) && valid(st2) {
            let (rs, st3) = p_exprs(st2, log, 2, Seq::empty());
            match rs {
                Err(e) => (Err(e), st3),
                Ok(a) => (Ok(ExprV::TimeOp(st1.cur, Box::new(a[0]), Box::new(a[1]))), st3),
            }
        } else {
            (Err(unreachable_err()), st2)
        }
    } else {
        (Ok(ExprV::TimeNow), st1)
    }
}

/// The routes of a router: `k` triples of method, path and handler.
pub open spec fn p_routes(st: PState, log: Seq<Answer>, k: nat, acc: Seq<(ExprV, ExprV, ExprV)>) -> (
    Result<Seq<(ExprV, ExprV, ExprV)>, ErrorView>,
    PState,
)
    decreases measure(st), 3nat when valid(st)
{
    if k == 0 {
        (Ok(acc), st)
    } else {
        let (rs, st1) = p_exprs(st, log, 3, Seq::empty());
        match rs {
            Err(e) => (Err(e), st1),
            Ok(a) => if measure(st1) < measure(st) && valid(st1) {
                p_routes(st1, log, (k - 1) as nat, acc.push((a[0], a[1], a[2])))
            } else {
                (Err(unreachable_err()), st1)
            },
        }
    }
}

/// `rt port n (method path handler)*n fallback`: the routes (a negative
/// count reads none) expand as `router_expansion` says, with the next
/// generated-function number; the loop definition is queued among the
/// generated functions and the entry expression is the result. A count that
/// is not an integer literal, or a route whose method or path is not a string
/// literal, is E001.
pub open spec fn p_router(st: PState, log: Seq<Answer>) -> Parsed
    decreases measure(st), 0nat when valid(st)
{
    let (r0, st1) = p_consume(st);
    if r0 is Err {
        (Err(r0->Err_0), st1)
    } else if measure(st1) < measure(st) && valid(st1) {
        let (rp, st2) = p_expr(st1, log);
        match rp {
            Err(e) => (Err(e), st2),
            Ok(port) => {
                let (rn, st3) = p_consume(st2);
                match rn {
                    Err(e) => (Err(e), st3),
                    Ok(TokenV::Integer(n)) => if measure(st3) < measure(st) && valid(st3) {
                        let (rr, st4) = p_routes(st3, log, if n > 0 { n as nat } else { 0nat }, Seq::empty());
                        match rr {
                            Err(e) => (Err(e), st4),
                            Ok(routes) => if measure(st4) < measure(st) && valid(st4) {
                                let (rf, st5) = p_expr(st4, log);
                                match rf {
                                    Err(e) => (Err(e), st5),
                                    Ok(fb) => match router_expansion(port, routes, fb, st5.generated.len() + 1) {
                                        None => (Err(p_err(st5, "E001"@)), st5),
                                        Some(x) => (Ok(x.0), PState { generated: st5.generated.push(x.1), ..st5 }),
                                    },
                                }
                            } else {
                                (Err(unreachable_err()), st4)
                            },
                        }
                    } else {
                        (Err(unreachable_err()), st3)
                    },
                    Ok(_) => (Err(p_err(st3, "E001"@)), st3),
                }
            },
        }
    } else {
        (Err(unreachable_err()), st1)
    }
}

/// A whole module: expressions up to the end of input. Before each
/// expression, the functions its parsing generated are emitted.
pub open spec fn p_module(st: PState, log: Seq<Answer>, acc: Seq<ExprV>) -> (Result<Seq<ExprV>, ErrorView>, PState)
    decreases measure(st) when valid(st)
{
    if st.cur is EOF {
        (Ok(acc), st)
    } else {
        let (r, st1) = p_expr(st, log);
        match r {
            Err(e) => (Err(e), st1),
            Ok(e) => if measure(st1) < measure(st) && valid(st1) {
                p_module(PState { generated: Seq::empty(), ..st1 }, log, acc + st1.generated + seq![e])
            } else {
                (Err(unreachable_err()), st1)
            },
        }
    }
}

} // verus!
