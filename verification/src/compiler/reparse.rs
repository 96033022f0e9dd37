//! Printed expressions parse back: for the expressions built from literals,
//! slot references, names, calls, bindings, definitions, field accesses and
//! the operators, the text the printer writes, read by the grammar, gives
//! the expression again, and a printed module, shape declarations and
//! imports included, gives its items again; a quoted escaped string lexes
//! back to the string.

use vstd::prelude::*;
use crate::compiler::ast::{ExprV, ParamV};
use crate::compiler::ast::display::{
    escape_char, escaped, fields_text, indent, params_text, pretty, pretty_list, token_text,
};
use crate::compiler::grammar::{
    Answer, PState, Reply, add_var, drop_var, find_func, find_shape, is_binop, measure, nary_arity, nary_build,
    p_atom, p_consume, p_define, p_export, p_expr, p_exprs, p_fields, p_ident, p_import, p_leaf, p_let, p_meta,
    p_module, p_module_name, p_nary, p_pack, p_shape, reply_to,
    p_params, pop_scope, resolve_var, shape_name, strip_meta, valid,
};
use crate::compiler::lexer::{
    Lexed, TokenV, count_dots, ident_char, keyword, lex_after_spec, lex_next, lemma_lex_next,
    lemma_run_end, lex_str, not_newline, num_char, run_end, single_char_token, skip_ws, trivia_end,
};
use crate::compiler::signature::sig_of;
use crate::text::{all_digits, is_ascii_letter, digit_char, digit_val, digits_value, is_digit, is_ws, nat_decimal};

verus! {

/// Where `escaped(t)` stands in `s` from `pos`, the string reader collects
/// `t` there and goes on just past it.
proof fn lemma_read_escaped(s: Seq<char>, pos: int, t: Seq<char>, acc: Seq<char>)
    requires
        0 <= pos,
        pos + escaped(t).len() <= s.len(),
        s.subrange(pos, pos + escaped(t).len()) == escaped(t),
    ensures
        lex_str(s, pos, acc) == lex_str(s, pos + escaped(t).len(), acc + t),
    decreases t.len(),
{
    if t.len() == 0 {
        assert(acc + t =~= acc);
    } else {
        let t0 = t.drop_last();
        let c = t.last();
        let e0 = escaped(t0);
        let ec = escape_char(c);
        let e = escaped(t);
        assert(e == e0 + ec);
        assert(1 <= ec.len() <= 2);
        let w = s.subrange(pos, pos + e.len());
        assert(s.subrange(pos, pos + e0.len()) =~= e0) by {
            assert forall|i: int| 0 <= i < e0.len() implies s.subrange(pos, pos + e0.len())[i] == e0[i] by {
                assert(w[i] == e[i]);
            }
        }
        lemma_read_escaped(s, pos, t0, acc);
        let q = pos + e0.len();
        assert(s[q] == ec[0]) by {
            assert(w[e0.len() as int] == e[e0.len() as int]);
        }
        if ec.len() == 2 {
            assert(s[q + 1int] == ec[1]) by {
                assert(w[e0.len() + 1int] == e[e0.len() + 1int]);
            }
        }
        assert((acc + t0).push(c) =~= acc + t);
    }
}

/// A quoted escaped string lexes back: the text `"`, `escaped(t)`, `"`, read
/// from its start, is one string token holding `t`, and then the end.
pub proof fn lemma_quoted_string_lexes_back(t: Seq<char>, l: int)
    ensures
        ({
            let s = seq!['"'] + escaped(t) + seq!['"'];
            &&& lex_next(s, 0, l) == (Lexed::Tok(TokenV::String(t)), s.len() as int, l)
            &&& lex_next(s, s.len() as int, l).0 == Lexed::Tok(TokenV::EOF)
        }),
{
    let e = escaped(t);
    let s = seq!['"'] + e + seq!['"'];
    let m = e.len() as int;
    let n = s.len() as int;
    assert(s[0] == '"');
    assert(skip_ws(s, 0, l) == (0int, l));
    assert(trivia_end(s, 0, l) == (0int, l));
    assert(s.subrange(1, 1 + m) =~= e);
    lemma_read_escaped(s, 1, t, Seq::empty());
    assert(s[1 + m] == '"');
    assert(Seq::<char>::empty() + t =~= t);
    assert(skip_ws(s, n, l) == (n, l));
    assert(trivia_end(s, n, l) == (n, l));
}

/// The decimal digits of `n` are digits, at least one, worth `n`.
proof fn lemma_nat_decimal(n: nat)
    ensures
        nat_decimal(n).len() >= 1,
        all_digits(nat_decimal(n)),
        digits_value(nat_decimal(n)) == n,
    decreases n,
{
    if n < 10 {
        let c = digit_char(n);
        assert(is_digit(c) && digit_val(c) == n);
        assert(nat_decimal(n).drop_last() =~= Seq::<char>::empty());
        assert(digits_value(Seq::<char>::empty()) == 0);
    } else {
        lemma_nat_decimal(n / 10);
        let hi = nat_decimal(n / 10);
        let c = digit_char(n % 10);
        assert(is_digit(c) && digit_val(c) == n % 10);
        let t = nat_decimal(n);
        assert(t == hi + seq![c]);
        assert(t.drop_last() =~= hi);
        assert(t.last() == c);
        assert forall|i: int| 0 <= i < t.len() implies is_digit(#[trigger] t[i]) by {
            if i < hi.len() {
                assert(t[i] == hi[i]);
            }
        }
        assert(digits_value(t) == digits_value(hi) * 10 + digit_val(c));
        assert(n == (n / 10) * 10 + n % 10);
    }
}

/// A digit string holds no `.`.
proof fn lemma_no_dots(t: Seq<char>)
    requires
        all_digits(t),
    ensures
        count_dots(t) == 0,
    decreases t.len(),
{
    if t.len() > 0 {
        assert(all_digits(t.drop_last())) by {
            assert forall|i: int| 0 <= i < t.drop_last().len() implies is_digit(#[trigger] t.drop_last()[i]) by {
                assert(t.drop_last()[i] == t[i]);
            }
        }
        lemma_no_dots(t.drop_last());
        assert(is_digit(t[t.len() - 1]));
    }
}

/// A run of digits from `p` ends at `end` when the characters before `end`
/// are digits and the one at `end`, if any, is not.
proof fn lemma_digit_only_run(s: Seq<char>, p: int, end: int)
    requires
        0 <= p <= end <= s.len(),
        forall|i: int| p <= i < end ==> is_digit(#[trigger] s[i]),
        end == s.len() || !is_digit(s[end]),
    ensures
        run_end(s, p, |c: char| is_digit(c)) == end,
    decreases end - p,
{
    if p < end {
        lemma_digit_only_run(s, p + 1, end);
    }
}

/// Where whitespace skipping stops does not depend on the line counter.
proof fn lemma_skip_ws_line_free(s: Seq<char>, p: int, l1: int, l2: int)
    ensures
        skip_ws(s, p, l1).0 == skip_ws(s, p, l2).0,
    decreases s.len() - p,
{
    if 0 <= p < s.len() && is_ws(s[p]) {
        lemma_skip_ws_line_free(
            s,
            p + 1,
            if s[p] == '\n' { l1 + 1 } else { l1 },
            if s[p] == '\n' { l2 + 1 } else { l2 },
        );
    }
}

/// Where skipping whitespace and comments stops does not depend on the line
/// counter.
proof fn lemma_trivia_line_free(s: Seq<char>, p: int, l1: int, l2: int)
    ensures
        trivia_end(s, p, l1).0 == trivia_end(s, p, l2).0,
    decreases s.len() - p,
{
    lemma_skip_ws_line_free(s, p, l1, l2);
    let (q, m1) = skip_ws(s, p, l1);
    let m2 = skip_ws(s, p, l2).1;
    if 0 <= p && p <= q && q + 1 < s.len() && s[q] == '/' && s[q + 1] == '/' {
        let e = run_end(s, q + 1, |c: char| not_newline(c));
        let p3 = if e < s.len() { e + 1 } else { e };
        if p3 > p && p3 <= s.len() {
            lemma_trivia_line_free(
                s,
                p3,
                if e < s.len() { m1 + 1 } else { m1 },
                if e < s.len() { m2 + 1 } else { m2 },
            );
        }
    }
}

/// What the next token is and where it ends do not depend on the line
/// counter.
pub proof fn lemma_lex_line_free(s: Seq<char>, p: int, l: int)
    ensures
        lex_next(s, p, l).0 == lex_next(s, p, 0).0,
        lex_next(s, p, l).1 == lex_next(s, p, 0).1,
{
    lemma_trivia_line_free(s, p, l, 0);
}

/// Lexing from a whitespace character is lexing from the character after it.
proof fn lemma_lex_ws(s: Seq<char>, p: int)
    requires
        0 <= p < s.len(),
        is_ws(s[p]),
    ensures
        lex_next(s, p, 0).0 == lex_next(s, p + 1, 0).0,
        lex_next(s, p, 0).1 == lex_next(s, p + 1, 0).1,
{
    let l1: int = if s[p] == '\n' { 1 } else { 0 };
    assert(skip_ws(s, p, 0) == skip_ws(s, p + 1, l1));
    let (q, m) = skip_ws(s, p, 0);
    crate::compiler::lexer::lemma_skip_ws(s, p + 1, l1);
    assert(p + 1 <= q);
    if q + 1 < s.len() && s[q] == '/' && s[q + 1] == '/' {
        let e = run_end(s, q + 1, |c: char| not_newline(c));
        lemma_run_end(s, q + 1, |c: char| not_newline(c));
        let (p3, l3) = if e < s.len() { (e + 1, m + 1) } else { (e, m) };
        assert(p3 > p + 1 && p3 <= s.len());
        assert(trivia_end(s, p, 0) == trivia_end(s, p3, l3));
        assert(trivia_end(s, p + 1, l1) == trivia_end(s, p3, l3));
    } else {
        assert(trivia_end(s, p, 0) == (q, m));
        assert(trivia_end(s, p + 1, l1) == (q, m));
    }
    lemma_lex_line_free(s, p + 1, l1);
}

/// Lexing from the start of a run of whitespace is lexing from its end.
pub proof fn lemma_lex_ws_run(s: Seq<char>, p: int, q: int)
    requires
        0 <= p <= q <= s.len(),
        forall|i: int| p <= i < q ==> is_ws(#[trigger] s[i]),
    ensures
        lex_next(s, p, 0).0 == lex_next(s, q, 0).0,
        lex_next(s, p, 0).1 == lex_next(s, q, 0).1,
    decreases q - p,
{
    if p < q {
        lemma_lex_ws(s, p);
        lemma_lex_ws_run(s, p + 1, q);
    }
}

/// An operator the printer writes as one character.

/// A character that separates printed tokens: a space or a line break.
pub open spec fn is_sep(c: char) -> bool {
    c == ' ' || c == '\n'
}

/// An operator the printer writes as one character.
pub open spec fn one_char_op(t: TokenV) -> bool {
    t is Add || t is Sub || t is Mul || t is Div || t is Eq || t is Lt || t is BitAnd || t is BitOr
}

/// A binary operator the printer writes so that it reads back.
pub open spec fn printed_op(t: TokenV) -> bool {
    one_char_op(t) || t is Gt || t is BitXor
}

/// The expressions whose printed text reads back here: non-negative integer
/// literals, float literals, string literals, slot references, plain names,
/// template references, the clock and time-zone reads, the operators with a
/// fixed number of operands (the binary operators, `>`, `$`, `~`, `!`, `^`,
/// `.`, `?`, `(`, `)` and the string, time, environment, HTTP, file, filter
/// and telemetry operators), money operations `%`, time arithmetic `tn +`
/// and `tn -`, packing `jp` and unpacking `ju`, field maps `map`,
/// annotations `M` (a `"test"` tag on a definition only), allocations `N`,
/// field reads `G` and writes `S`, calls `@n`, bindings `L` and definitions
/// `:` (exported or not) with plain names, plain or template parameters and a
/// body that is no bare name, and a template reference only when the last
/// parameter is a template parameter or there is none, over such
/// expressions.
pub open spec fn reparses(e: ExprV) -> bool
    decreases e, 0nat,
{
    match e {
        ExprV::Integer(i) => i >= 0,
        ExprV::String(_) => true,
        ExprV::DeBruijn(_) => true,
        ExprV::TimeNano => true,
        ExprV::TimeZone => true,
        ExprV::Identifier(x) => plain_name(x),
        ExprV::Float(t) => float_lit(t),
        ExprV::BinaryOp(op, a, b) => printed_op(op) && reparses(*a) && reparses(*b),
        ExprV::Move(a) => reparses(*a),
        ExprV::Borrow(a) => reparses(*a),
        ExprV::MutBorrow(a) => reparses(*a),
        ExprV::Panic(a) => reparses(*a),
        ExprV::Len(a) => reparses(*a),
        ExprV::Read(a) => reparses(*a),
        ExprV::Str(a) => reparses(*a),
        ExprV::Env(a) => reparses(*a),
        ExprV::Trap(a, b) => reparses(*a) && reparses(*b),
        ExprV::Sequence(a, b) => reparses(*a) && reparses(*b),
        ExprV::Cat(a, b) => reparses(*a) && reparses(*b),
        ExprV::Loc(a, b) => reparses(*a) && reparses(*b),
        ExprV::Reg(a, b) => reparses(*a) && reparses(*b),
        ExprV::Write(a, b) => reparses(*a) && reparses(*b),
        ExprV::TimeGet(a, b) => reparses(*a) && reparses(*b),
        ExprV::Filter(a, b) => reparses(*a) && reparses(*b),
        ExprV::HttpServer(a, b) => reparses(*a) && reparses(*b),
        ExprV::HttpHeader(a, b) => reparses(*a) && reparses(*b),
        ExprV::FileOpen(a, b) => reparses(*a) && reparses(*b),
        ExprV::If(a, b, c) => reparses(*a) && reparses(*b) && reparses(*c),
        ExprV::Sub(a, b, c) => reparses(*a) && reparses(*b) && reparses(*c),
        ExprV::Split(a, b, c) => reparses(*a) && reparses(*b) && reparses(*c),
        ExprV::HttpClient(a, b, c) => reparses(*a) && reparses(*b) && reparses(*c),
        ExprV::OtelEmit(a, b, c, x) => reparses(*a) && reparses(*b) && reparses(*c) && reparses(*x),
        ExprV::TimeSet(a, b, c, x, y, z) => reparses(*a) && reparses(*b) && reparses(*c) && reparses(*x)
            && reparses(*y) && reparses(*z),
        ExprV::Let(name, a, b) => plain_name(name) && reparses(*a) && reparses(*b),
        ExprV::Define(name, ps, b, _) => plain_name(name) && plain_params(ps) && reparses(*b) && !(*b is Identifier)
            && (*b is Expand ==> ps.len() == 0 || ps.last().expand),
        ExprV::Apply(f, args) => reparses(*f) && reparses_list(args) && args.len() <= usize::MAX,
        ExprV::Pack(a) => reparses(*a),
        ExprV::Expand(x) => plain_name(x),
        ExprV::MoneyOp(op, a, b) => (op is Add || op is Sub || op is Mul || op is Div) && reparses(*a) && reparses(*b),
        ExprV::MoneyStr(a) => reparses(*a),
        ExprV::TimeOp(op, a, b) => (op is Add || op is Sub) && reparses(*a) && reparses(*b),
        ExprV::MapField(a, f, g) => reparses(*a) && raw_text(f) && reparses(*g),
        ExprV::New(n, c) => plain_name(n) && reparses(*c),
        ExprV::Unpack(a, n) => reparses(*a) && raw_text(n),
        ExprV::Get(a, f, b) => reparses(*a) && plain_name(f) && reparses(*b),
        ExprV::SetField(a, f, b, c) => reparses(*a) && plain_name(f) && reparses(*b) && reparses(*c),
        ExprV::Metadata(a, b, c) => reparses(*a) && reparses(*b) && reparses(*c) && !(*a == ExprV::String(
            "test"@,
        ) && !(strip_meta(*c) is Define)),
        _ => false,
    }
}

/// A text written between quotes as it is: no quote and no backslash.
pub open spec fn raw_text(t: Seq<char>) -> bool {
    forall|i: int| 0 <= i < t.len() ==> (#[trigger] t[i]) != '"' && t[i] != '\\'
}

/// The text of a float literal that reads back: digits with one `.`,
/// starting with a digit.
pub open spec fn float_lit(t: Seq<char>) -> bool {
    &&& t.len() >= 1
    &&& is_digit(t[0])
    &&& forall|i: int| 0 <= i < t.len() ==> num_char(#[trigger] t[i])
    &&& count_dots(t) == 1
}

/// Every expression of a list reads back.
pub open spec fn reparses_list(es: Seq<ExprV>) -> bool
    decreases es, 0nat,
{
    if es.len() == 0 {
        true
    } else {
        reparses(es[0]) && reparses_list(es.subrange(1, es.len() as int))
    }
}

/// Parameters that read back: plain names.
pub open spec fn plain_params(ps: Seq<ParamV>) -> bool {
    forall|i: int| #![trigger ps[i]] 0 <= i < ps.len() ==> plain_name(ps[i].name)
}

/// The mark a template parameter carries after its name.
pub open spec fn mark(p: ParamV) -> Seq<char> {
    if p.expand {
        seq!['`']
    } else {
        Seq::empty()
    }
}

/// A name that reads back as itself: name characters, starting with an
/// ASCII letter or `_` that is no operator by itself (not one of
/// `N G S M X L I`), and no keyword.
pub open spec fn plain_name(w: Seq<char>) -> bool {
    &&& w.len() >= 1
    &&& (is_ascii_letter(w[0]) || w[0] == '_')
    &&& single_char_token(w[0]) is None
    &&& forall|i: int| 0 <= i < w.len() ==> name_char(#[trigger] w[i])
    &&& keyword(w) == TokenV::Identifier(w)
}

/// A character that continues a name: an ASCII letter, digit or `_`, or a
/// letter or digit beyond ASCII.
pub open spec fn name_char(c: char) -> bool {
    ident_char(c)
}

/// No name in `e` that stays a name is bound in `sc`, with the scopes
/// growing as bindings and definitions bind their names, so that the
/// grammar reads such a name back as a name, not as a slot reference; and
/// no shape that `e` allocates or unpacks is renamed by the imports `im`.
pub open spec fn free_in(e: ExprV, sc: Seq<Seq<Seq<char>>>, im: Seq<(Seq<char>, Seq<char>)>) -> bool
    decreases e, 0nat,
{
    match e {
        ExprV::Identifier(x) => resolve_var(sc, x) is None,
        ExprV::Let(name, a, b) => free_in(*a, sc, im) && free_in(*b, add_var(sc, name), im),
        ExprV::Define(_, ps, b, _) => free_in(*b, add_vars(sc.push(Seq::empty()), ps), im),
        ExprV::BinaryOp(_, a, b) => free_in(*a, sc, im) && free_in(*b, sc, im),
        ExprV::Move(a) => free_in(*a, sc, im),
        ExprV::Borrow(a) => free_in(*a, sc, im),
        ExprV::MutBorrow(a) => free_in(*a, sc, im),
        ExprV::Panic(a) => free_in(*a, sc, im),
        ExprV::Len(a) => free_in(*a, sc, im),
        ExprV::Read(a) => free_in(*a, sc, im),
        ExprV::Str(a) => free_in(*a, sc, im),
        ExprV::Env(a) => free_in(*a, sc, im),
        ExprV::Trap(a, b) => free_in(*a, sc, im) && free_in(*b, sc, im),
        ExprV::Sequence(a, b) => free_in(*a, sc, im) && free_in(*b, sc, im),
        ExprV::Cat(a, b) => free_in(*a, sc, im) && free_in(*b, sc, im),
        ExprV::Loc(a, b) => free_in(*a, sc, im) && free_in(*b, sc, im),
        ExprV::Reg(a, b) => free_in(*a, sc, im) && free_in(*b, sc, im),
        ExprV::Write(a, b) => free_in(*a, sc, im) && free_in(*b, sc, im),
        ExprV::TimeGet(a, b) => free_in(*a, sc, im) && free_in(*b, sc, im),
        ExprV::Filter(a, b) => free_in(*a, sc, im) && free_in(*b, sc, im),
        ExprV::HttpServer(a, b) => free_in(*a, sc, im) && free_in(*b, sc, im),
        ExprV::HttpHeader(a, b) => free_in(*a, sc, im) && free_in(*b, sc, im),
        ExprV::FileOpen(a, b) => free_in(*a, sc, im) && free_in(*b, sc, im),
        ExprV::If(a, b, c) => free_in(*a, sc, im) && free_in(*b, sc, im) && free_in(*c, sc, im),
        ExprV::Sub(a, b, c) => free_in(*a, sc, im) && free_in(*b, sc, im) && free_in(*c, sc, im),
        ExprV::Split(a, b, c) => free_in(*a, sc, im) && free_in(*b, sc, im) && free_in(*c, sc, im),
        ExprV::HttpClient(a, b, c) => free_in(*a, sc, im) && free_in(*b, sc, im) && free_in(*c, sc, im),
        ExprV::OtelEmit(a, b, c, x) => free_in(*a, sc, im) && free_in(*b, sc, im) && free_in(*c, sc, im) && free_in(*x, sc, im),
        ExprV::TimeSet(a, b, c, x, y, z) => free_in(*a, sc, im) && free_in(*b, sc, im) && free_in(*c, sc, im)
            && free_in(*x, sc, im) && free_in(*y, sc, im) && free_in(*z, sc, im),
        ExprV::Apply(f, args) => free_in(*f, sc, im) && free_list(args, sc, im),
        ExprV::Pack(a) => free_in(*a, sc, im),
        ExprV::Get(a, _, b) => free_in(*a, sc, im) && free_in(*b, sc, im),
        ExprV::MoneyOp(_, a, b) => free_in(*a, sc, im) && free_in(*b, sc, im),
        ExprV::MoneyStr(a) => free_in(*a, sc, im),
        ExprV::TimeOp(_, a, b) => free_in(*a, sc, im) && free_in(*b, sc, im),
        ExprV::MapField(a, _, g) => free_in(*a, sc, im) && free_in(*g, sc, im),
        ExprV::New(n, c) => shape_name(im, n) == n && free_in(*c, sc, im),
        ExprV::Unpack(a, n) => free_in(*a, sc, im) && shape_name(im, n) == n,
        ExprV::SetField(a, _, b, c) => free_in(*a, sc, im) && free_in(*b, sc, im) && free_in(*c, sc, im),
        ExprV::Metadata(a, b, c) => free_in(*a, sc, im) && free_in(*b, sc, im) && free_in(*c, sc, im),
        _ => true,
    }
}

/// `free_in` holds of every expression of a list.
pub open spec fn free_list(es: Seq<ExprV>, sc: Seq<Seq<Seq<char>>>, im: Seq<(Seq<char>, Seq<char>)>) -> bool
    decreases es, 0nat,
{
    if es.len() == 0 {
        true
    } else {
        free_in(es[0], sc, im) && free_list(es.subrange(1, es.len() as int), sc, im)
    }
}

/// What holds of a list holds of each of its expressions.
proof fn lemma_list_items(es: Seq<ExprV>, sc: Seq<Seq<Seq<char>>>, im: Seq<(Seq<char>, Seq<char>)>)
    ensures
        reparses_list(es) ==> forall|i: int| 0 <= i < es.len() ==> reparses(#[trigger] es[i]),
        free_list(es, sc, im) ==> forall|i: int| 0 <= i < es.len() ==> free_in(#[trigger] es[i], sc, im),
    decreases es.len(),
{
    if es.len() > 0 {
        let r = es.subrange(1, es.len() as int);
        lemma_list_items(r, sc, im);
        if reparses_list(es) {
            assert forall|i: int| 0 <= i < es.len() implies reparses(#[trigger] es[i]) by {
                if i > 0 {
                    assert(es[i] == r[i - 1]);
                }
            }
        }
        if free_list(es, sc, im) {
            assert forall|i: int| 0 <= i < es.len() implies free_in(#[trigger] es[i], sc, im) by {
                if i > 0 {
                    assert(es[i] == r[i - 1]);
                }
            }
        }
    }
}

/// The operands of an operator expression whose names are free are free.
proof fn lemma_free_kids(e: ExprV, sc: Seq<Seq<Seq<char>>>, im: Seq<(Seq<char>, Seq<char>)>)
    requires
        reparses(e),
        is_flat(e) || e is Sequence || e is If,
        free_in(e, sc, im),
    ensures
        forall|i: int| 0 <= i < kids(e).len() ==> free_in(#[trigger] kids(e)[i], sc, im),
{
}

/// An expression printed as one token.
pub open spec fn is_leaf(e: ExprV) -> bool {
    e is Integer || e is String || e is DeBruijn || e is TimeNano || e is TimeZone || e is Identifier
        || e is Float
}

/// The first token of an expression's printed text.
pub open spec fn head_token(e: ExprV) -> TokenV {
    match e {
        ExprV::Integer(i) => TokenV::Integer(i),
        ExprV::String(t) => TokenV::String(t),
        ExprV::DeBruijn(k) => TokenV::DeBruijn(k),
        ExprV::TimeNano => TokenV::TimeNano,
        ExprV::TimeZone => TokenV::TimeZone,
        ExprV::Identifier(x) => TokenV::Identifier(x),
        ExprV::Float(t) => TokenV::Float(t),
        ExprV::BinaryOp(op, _, _) => op,
        ExprV::Move(_) => TokenV::Move,
        ExprV::Borrow(_) => TokenV::Borrow,
        ExprV::MutBorrow(_) => TokenV::MutBorrow,
        ExprV::Panic(_) => TokenV::Panic,
        ExprV::Len(_) => TokenV::Len,
        ExprV::Read(_) => TokenV::Read,
        ExprV::Str(_) => TokenV::Str,
        ExprV::Env(_) => TokenV::Env,
        ExprV::Trap(_, _) => TokenV::Trap,
        ExprV::Sequence(_, _) => TokenV::Dot,
        ExprV::Cat(_, _) => TokenV::Cat,
        ExprV::Loc(_, _) => TokenV::Loc,
        ExprV::Reg(_, _) => TokenV::Reg,
        ExprV::Write(_, _) => TokenV::Write,
        ExprV::TimeGet(_, _) => TokenV::TimeGet,
        ExprV::Filter(_, _) => TokenV::Filter,
        ExprV::HttpServer(_, _) => TokenV::HttpServer,
        ExprV::HttpHeader(_, _) => TokenV::HttpHeader,
        ExprV::FileOpen(_, _) => TokenV::FileOpen,
        ExprV::If(_, _, _) => TokenV::Question,
        ExprV::Sub(_, _, _) => TokenV::StrSub,
        ExprV::Split(_, _, _) => TokenV::Split,
        ExprV::HttpClient(_, _, _) => TokenV::HttpClient,
        ExprV::OtelEmit(_, _, _, _) => TokenV::OtelEmit(4),
        ExprV::TimeSet(_, _, _, _, _, _) => TokenV::TimeSet,
        ExprV::Let(_, _, _) => TokenV::Let,
        ExprV::Define(_, _, _, x) => if x { TokenV::Export } else { TokenV::Define },
        ExprV::Apply(_, args) => TokenV::Apply(args.len() as usize),
        ExprV::Pack(_) => TokenV::Pack(1),
        ExprV::Metadata(_, _, _) => TokenV::Metadata,
        ExprV::Expand(_) => TokenV::Bang,
        ExprV::Get(_, _, _) => TokenV::Get,
        ExprV::MoneyOp(_, _, _) => TokenV::Money,
        ExprV::MoneyStr(_) => TokenV::Money,
        ExprV::TimeOp(_, _, _) => TokenV::TimeNow,
        ExprV::MapField(_, _, _) => TokenV::MapField,
        ExprV::New(_, _) => TokenV::New,
        ExprV::Unpack(_, _) => TokenV::Pack(2),
        ExprV::SetField(_, _, _, _) => TokenV::SetField,
        _ => TokenV::EOF,
    }
}

/// The text of an operator expression's first token.
pub open spec fn head_text(e: ExprV) -> Seq<char> {
    match e {
        ExprV::BinaryOp(op, _, _) => token_text(op),
        ExprV::Move(_) => seq!['>'],
        ExprV::Borrow(_) => seq!['$'],
        ExprV::MutBorrow(_) => seq!['~'],
        ExprV::Panic(_) => seq!['!'],
        ExprV::Len(_) => seq!['s', 'l'],
        ExprV::Read(_) => seq!['('],
        ExprV::Str(_) => seq!['s', 't', 'r'],
        ExprV::Env(_) => seq!['e', 'n', 'v'],
        ExprV::Trap(_, _) => seq!['^'],
        ExprV::Sequence(_, _) => seq!['.'],
        ExprV::Cat(_, _) => seq!['s', 'c'],
        ExprV::Loc(_, _) => seq!['s', 'f'],
        ExprV::Reg(_, _) => seq!['s', 'r'],
        ExprV::Write(_, _) => seq![')'],
        ExprV::TimeGet(_, _) => seq!['t', 'g'],
        ExprV::Filter(_, _) => seq!['f', 'l', 't'],
        ExprV::HttpServer(_, _) => seq!['s', 'r', 'v'],
        ExprV::HttpHeader(_, _) => seq!['h', 'd', 'r'],
        ExprV::FileOpen(_, _) => seq!['f', 'o'],
        ExprV::If(_, _, _) => seq!['?'],
        ExprV::Sub(_, _, _) => seq!['s', 's'],
        ExprV::Split(_, _, _) => seq!['s', 'p'],
        ExprV::HttpClient(_, _, _) => seq!['h', 't', 't', 'p'],
        ExprV::OtelEmit(_, _, _, _) => seq!['o', 'e'],
        ExprV::TimeSet(_, _, _, _, _, _) => seq!['t', 's'],
        ExprV::Let(_, _, _) => seq!['L'],
        ExprV::Define(_, _, _, x) => if x { seq!['X'] } else { seq![':'] },
        ExprV::Apply(_, args) => seq!['@'] + nat_decimal(args.len()),
        ExprV::Pack(_) => seq!['j', 'p'],
        ExprV::Metadata(_, _, _) => seq!['M'],
        ExprV::Expand(_) => seq!['`'],
        ExprV::Get(_, _, _) => seq!['G'],
        ExprV::MoneyOp(_, _, _) => seq!['%'],
        ExprV::MoneyStr(_) => seq!['%'],
        ExprV::TimeOp(_, _, _) => seq!['t', 'n'],
        ExprV::MapField(_, _, _) => seq!['m', 'a', 'p'],
        ExprV::New(_, _) => seq!['N'],
        ExprV::Unpack(_, _) => seq!['j', 'u'],
        ExprV::SetField(_, _, _, _) => seq!['S'],
        _ => Seq::empty(),
    }
}

/// The operands of an operator expression, in order.
pub open spec fn kids(e: ExprV) -> Seq<ExprV> {
    match e {
        ExprV::BinaryOp(_, a, b) => seq![*a, *b],
        ExprV::Move(a) => seq![*a],
        ExprV::Borrow(a) => seq![*a],
        ExprV::MutBorrow(a) => seq![*a],
        ExprV::Panic(a) => seq![*a],
        ExprV::Len(a) => seq![*a],
        ExprV::Read(a) => seq![*a],
        ExprV::Str(a) => seq![*a],
        ExprV::Env(a) => seq![*a],
        ExprV::Trap(a, b) => seq![*a, *b],
        ExprV::Sequence(a, b) => seq![*a, *b],
        ExprV::Cat(a, b) => seq![*a, *b],
        ExprV::Loc(a, b) => seq![*a, *b],
        ExprV::Reg(a, b) => seq![*a, *b],
        ExprV::Write(a, b) => seq![*a, *b],
        ExprV::TimeGet(a, b) => seq![*a, *b],
        ExprV::Filter(a, b) => seq![*a, *b],
        ExprV::HttpServer(a, b) => seq![*a, *b],
        ExprV::HttpHeader(a, b) => seq![*a, *b],
        ExprV::FileOpen(a, b) => seq![*a, *b],
        ExprV::If(a, b, c) => seq![*a, *b, *c],
        ExprV::Sub(a, b, c) => seq![*a, *b, *c],
        ExprV::Split(a, b, c) => seq![*a, *b, *c],
        ExprV::HttpClient(a, b, c) => seq![*a, *b, *c],
        ExprV::OtelEmit(a, b, c, x) => seq![*a, *b, *c, *x],
        ExprV::TimeSet(a, b, c, x, y, z) => seq![*a, *b, *c, *x, *y, *z],
        ExprV::Pack(a) => seq![*a],
        ExprV::Metadata(a, b, c) => seq![*a, *b, *c],
        _ => Seq::empty(),
    }
}

/// The size of an expression: its number of nodes.
pub open spec fn size(e: ExprV) -> nat
    decreases e, 0nat,
{
    match e {
        ExprV::BinaryOp(_, a, b) => 1 + size(*a) + size(*b),
        ExprV::Move(a) => 1 + size(*a),
        ExprV::Borrow(a) => 1 + size(*a),
        ExprV::MutBorrow(a) => 1 + size(*a),
        ExprV::Panic(a) => 1 + size(*a),
        ExprV::Len(a) => 1 + size(*a),
        ExprV::Read(a) => 1 + size(*a),
        ExprV::Str(a) => 1 + size(*a),
        ExprV::Env(a) => 1 + size(*a),
        ExprV::Trap(a, b) => 1 + size(*a) + size(*b),
        ExprV::Sequence(a, b) => 1 + size(*a) + size(*b),
        ExprV::Cat(a, b) => 1 + size(*a) + size(*b),
        ExprV::Loc(a, b) => 1 + size(*a) + size(*b),
        ExprV::Reg(a, b) => 1 + size(*a) + size(*b),
        ExprV::Write(a, b) => 1 + size(*a) + size(*b),
        ExprV::TimeGet(a, b) => 1 + size(*a) + size(*b),
        ExprV::Filter(a, b) => 1 + size(*a) + size(*b),
        ExprV::HttpServer(a, b) => 1 + size(*a) + size(*b),
        ExprV::HttpHeader(a, b) => 1 + size(*a) + size(*b),
        ExprV::FileOpen(a, b) => 1 + size(*a) + size(*b),
        ExprV::If(a, b, c) => 1 + size(*a) + size(*b) + size(*c),
        ExprV::Sub(a, b, c) => 1 + size(*a) + size(*b) + size(*c),
        ExprV::Split(a, b, c) => 1 + size(*a) + size(*b) + size(*c),
        ExprV::HttpClient(a, b, c) => 1 + size(*a) + size(*b) + size(*c),
        ExprV::OtelEmit(a, b, c, x) => 1 + size(*a) + size(*b) + size(*c) + size(*x),
        ExprV::TimeSet(a, b, c, x, y, z) => 1 + size(*a) + size(*b) + size(*c) + size(*x) + size(*y) + size(*z),
        ExprV::Let(_, a, b) => 1 + size(*a) + size(*b),
        ExprV::Define(_, _, b, _) => 1 + size(*b),
        ExprV::Apply(f, args) => 1 + size(*f) + sum_size(args),
        ExprV::Pack(a) => 1 + size(*a),
        ExprV::Metadata(a, b, c) => 1 + size(*a) + size(*b) + size(*c),
        ExprV::Get(a, _, b) => 1 + size(*a) + size(*b),
        ExprV::MoneyOp(_, a, b) => 1 + size(*a) + size(*b),
        ExprV::MoneyStr(a) => 1 + size(*a),
        ExprV::TimeOp(_, a, b) => 1 + size(*a) + size(*b),
        ExprV::MapField(a, _, g) => 1 + size(*a) + size(*g),
        ExprV::New(_, c) => 1 + size(*c),
        ExprV::Unpack(a, _) => 1 + size(*a),
        ExprV::SetField(a, _, b, c) => 1 + size(*a) + size(*b) + size(*c),
        _ => 1,
    }
}

/// The total size of a list of expressions.
pub open spec fn sum_size(es: Seq<ExprV>) -> nat
    decreases es, 0nat,
{
    if es.len() == 0 {
        0
    } else {
        size(es[0]) + sum_size(es.subrange(1, es.len() as int))
    }
}

/// The total size of a list is the sizes of its items added up, item by
/// item from the front.
proof fn lemma_sum_size_items(es: Seq<ExprV>)
    ensures
        es.len() == 1 ==> sum_size(es) == size(es[0]),
        es.len() == 2 ==> sum_size(es) == size(es[0]) + size(es[1]),
        es.len() == 3 ==> sum_size(es) == size(es[0]) + size(es[1]) + size(es[2]),
        es.len() == 4 ==> sum_size(es) == size(es[0]) + size(es[1]) + size(es[2]) + size(es[3]),
        es.len() == 6 ==> sum_size(es) == size(es[0]) + size(es[1]) + size(es[2]) + size(es[3])
            + size(es[4]) + size(es[5]),
    decreases es.len(),
{
    if es.len() > 0 {
        let r = es.drop_first();
        lemma_sum_size_items(r);
        if r.len() == 0 {
            assert(sum_size(r) == 0);
        }
        if r.len() == 5 {
            let r2 = r.drop_first();
            let r3 = r2.drop_first();
            let r4 = r3.drop_first();
            let r5 = r4.drop_first();
            assert(sum_size(r5.drop_first()) == 0);
            assert(sum_size(r5) == size(r5[0]));
            assert(sum_size(r4) == size(r4[0]) + sum_size(r5));
            assert(sum_size(r3) == size(r3[0]) + sum_size(r4));
            assert(sum_size(r2) == size(r2[0]) + sum_size(r3));
            assert(sum_size(r) == size(r[0]) + sum_size(r2));
        }
    }
}

/// What the operator of an expression reads back: as many operands as it
/// has, built back into the expression; and its operands are smaller.
proof fn lemma_kids_build(e: ExprV)
    requires
        reparses(e),
        !is_leaf(e),
        !(e is Let),
        !(e is Define),
        !(e is Apply),
        !(e is Expand),
        !(e is Get),
        !(e is SetField),
        !(e is MoneyOp),
        !(e is MoneyStr),
        !(e is TimeOp),
        !(e is MapField),
        !(e is New),
        !(e is Unpack),
    ensures
        is_nary(e) ==> kids(e).len() == nary_arity(head_token(e)),
        kids(e).len() >= 1,
        is_nary(e) ==> nary_build(head_token(e), kids(e)) == e,
        sum_size(kids(e)) < size(e),
        forall|i: int| 0 <= i < kids(e).len() ==> reparses(#[trigger] kids(e)[i]),
{
    lemma_sum_size_items(kids(e));
    match e {
        ExprV::BinaryOp(op, _, _) => {
            assert(is_binop(op));
        },
        _ => {},
    }
}


/// A one-character operator is written as a character that reads as that
/// operator; `gt` and `xor` are written as those words.
proof fn lemma_op_text(op: TokenV)
    requires
        printed_op(op),
    ensures
        one_char_op(op) ==> token_text(op).len() == 1,
        one_char_op(op) && op is Div ==> token_text(op) == seq!['/'],
        one_char_op(op) && !(op is Div) ==> single_char_token(token_text(op)[0]) == Some(op),
        op is Gt ==> token_text(op) == seq!['g', 't'],
        op is BitXor ==> token_text(op) == seq!['x', 'o', 'r'],
        is_binop(op),
{
    reveal_strlit("+");
    reveal_strlit("-");
    reveal_strlit("*");
    reveal_strlit("/");
    reveal_strlit("=");
    reveal_strlit("<");
    reveal_strlit("&");
    reveal_strlit("|");
    reveal_strlit("gt");
    reveal_strlit("xor");
}

/// A run of lowercase letters from `p` ends at `end` when a separator or
/// the end follows.
proof fn lemma_word_run(s: Seq<char>, p: int, end: int)
    requires
        0 <= p <= end <= s.len(),
        forall|i: int| p <= i < end ==> 'a' <= #[trigger] s[i] <= 'z',
        end == s.len() || is_sep(s[end]),
    ensures
        run_end(s, p, |c: char| ident_char(c)) == end,
    decreases end - p,
{
    if p < end {
        assert('a' <= s[p] <= 'z');
        lemma_word_run(s, p + 1, end);
    }
}

/// A word of lowercase letters followed by a separator or the end reads as
/// the token of that word.
proof fn lemma_word(s: Seq<char>, p0: int, w: Seq<char>, l: int)
    requires
        0 <= p0,
        1 <= w.len(),
        p0 + w.len() <= s.len(),
        forall|i: int| 0 <= i < w.len() ==> 'a' <= #[trigger] w[i] <= 'z',
        s.subrange(p0, p0 + w.len()) == w,
        p0 + w.len() == s.len() || is_sep(s[p0 + w.len()]),
    ensures
        lex_next(s, p0, l) == (Lexed::Tok(keyword(w)), p0 + w.len(), l),
{
    let n = w.len() as int;
    assert forall|i: int| 0 <= i < n implies s[p0 + i] == #[trigger] w[i] by {
        assert(s.subrange(p0, p0 + n)[i] == w[i]);
    }
    assert(s[p0] == w[0]);
    assert('a' <= w[0] <= 'z');
    assert(skip_ws(s, p0, l) == (p0, l));
    assert(trivia_end(s, p0, l) == (p0, l));
    assert forall|k: int| p0 + 1 <= k < p0 + n implies 'a' <= #[trigger] s[k] <= 'z' by {
        assert(s[p0 + (k - p0)] == w[k - p0]);
    }
    lemma_word_run(s, p0 + 1, p0 + n);
}

/// The words that head operator expressions read as their operators.
proof fn lemma_keywords(e: ExprV)
    requires
        reparses(e),
        !is_leaf(e),
        !(e is Apply),
        !(e is Expand),
        head_text(e).len() > 1,
    ensures
        keyword(head_text(e)) == head_token(e),
        forall|i: int| 0 <= i < head_text(e).len() ==> 'a' <= #[trigger] head_text(e)[i] <= 'z',
{
    match e {
        ExprV::BinaryOp(op, _, _) => {
            lemma_op_text(op);
        },
        _ => {},
    }
    let w = head_text(e);
    assert(w.len() == 2 ==> w != seq!['m', 'a', 'p'] && w != seq!['f', 'l', 't'] && w != seq!['s', 'r', 'v']
        && w != seq!['h', 'd', 'r'] && w != seq!['e', 'n', 'v'] && w != seq!['t', 'n', 's']
        && w != seq!['s', 't', 'r'] && w != seq!['x', 'o', 'r'] && w != seq!['h', 't', 't', 'p']);
    assert(w.len() == 3 ==> w != seq!['r', 't'] && w != seq!['f', 'o'] && w != seq!['j', 'p']
        && w != seq!['j', 'u'] && w != seq!['o', 'e'] && w != seq!['s', 'l'] && w != seq!['s', 'c']
        && w != seq!['s', 's'] && w != seq!['s', 'f'] && w != seq!['s', 'r'] && w != seq!['s', 'p']
        && w != seq!['t', 'n'] && w != seq!['t', 'z'] && w != seq!['t', 'g'] && w != seq!['t', 's']
        && w != seq!['g', 't'] && w != seq!['l', 't'] && w != seq!['h', 't', 't', 'p']);
    assert(w.len() == 4 ==> w != seq!['m', 'a', 'p'] && w != seq!['f', 'l', 't'] && w != seq!['s', 'r', 'v']
        && w != seq!['h', 'd', 'r'] && w != seq!['e', 'n', 'v'] && w != seq!['t', 'n', 's']
        && w != seq!['s', 't', 'r'] && w != seq!['x', 'o', 'r'] && w != seq!['r', 't']
        && w != seq!['f', 'o'] && w != seq!['j', 'p'] && w != seq!['j', 'u'] && w != seq!['o', 'e']
        && w != seq!['s', 'l'] && w != seq!['s', 'c'] && w != seq!['s', 's'] && w != seq!['s', 'f']
        && w != seq!['s', 'r'] && w != seq!['s', 'p'] && w != seq!['t', 'n'] && w != seq!['t', 'z']
        && w != seq!['t', 'g'] && w != seq!['t', 's'] && w != seq!['g', 't'] && w != seq!['l', 't']);
}

/// The token an operator expression's text starts with, when a space
/// follows the operator.
proof fn lemma_head_lex(e: ExprV, s: Seq<char>, p0: int, l: int)
    requires
        reparses(e),
        !is_leaf(e),
        !(e is Apply),
        !(e is Expand),
        0 <= p0,
        p0 + head_text(e).len() < s.len(),
        s.subrange(p0, p0 + head_text(e).len()) == head_text(e),
        s[p0 + head_text(e).len()] == ' ',
    ensures
        lex_next(s, p0, l) == (Lexed::Tok(head_token(e)), p0 + head_text(e).len(), l),
        head_text(e).len() >= 1,
{
    match e {
        ExprV::BinaryOp(op, _, _) => {
            lemma_op_text(op);
        },
        _ => {},
    }
    let h = head_text(e);
    let n = h.len() as int;
    if n == 1 {
        assert(s.subrange(p0, p0 + 1)[0] == h[0]);
        assert(s[p0] == h[0]);
        assert(skip_ws(s, p0, l) == (p0, l));
        assert(trivia_end(s, p0, l) == (p0, l));
        assert(!is_digit(s[p0 + 1]));
    } else {
        lemma_keywords(e);
        lemma_word(s, p0, h, l);
    }
}

/// The arguments list `pretty_list` is a space and the first item, then the
/// rest.
proof fn lemma_pretty_list_cons(es: Seq<ExprV>, d: nat)
    requires
        es.len() > 0,
    ensures
        pretty_list(es, d) == seq![' '] + pretty(es[0], d) + pretty_list(es.drop_first(), d),
{
    assert(es.subrange(1, es.len() as int) =~= es.drop_first());
}

/// An operand list with the operands of an expression, item by item.
proof fn lemma_pretty_list_items(es: Seq<ExprV>, d: nat)
    ensures
        es.len() == 0 ==> pretty_list(es, d) == Seq::<char>::empty(),
        es.len() >= 1 ==> pretty_list(es, d) == seq![' '] + pretty(es[0], d) + pretty_list(es.drop_first(), d),
{
    if es.len() >= 1 {
        lemma_pretty_list_cons(es, d);
    }
}

/// An operator expression that the grammar reads with the operand reader
/// for a fixed number of operands.
pub open spec fn is_nary(e: ExprV) -> bool {
    !(e is Metadata) && !(e is Pack)
}

/// An expression whose operands are each written after a space.
pub open spec fn is_flat(e: ExprV) -> bool {
    !is_leaf(e) && !(e is Sequence) && !(e is If) && !(e is Let) && !(e is Define) && !(e is Apply)
        && !(e is Expand) && !(e is Get) && !(e is SetField) && !(e is MoneyOp) && !(e is MoneyStr)
        && !(e is TimeOp) && !(e is MapField) && !(e is New) && !(e is Unpack)
}


/// The operand list of one to six operands, written out.
proof fn lemma_pretty_list_n(es: Seq<ExprV>, d: nat)
    ensures
        es.len() == 1 ==> pretty_list(es, d) == seq![' '] + pretty(es[0], d),
        es.len() == 2 ==> pretty_list(es, d) == seq![' '] + pretty(es[0], d) + seq![' '] + pretty(es[1], d),
        es.len() == 3 ==> pretty_list(es, d) == seq![' '] + pretty(es[0], d) + seq![' '] + pretty(es[1], d)
            + seq![' '] + pretty(es[2], d),
        es.len() == 4 ==> pretty_list(es, d) == seq![' '] + pretty(es[0], d) + seq![' '] + pretty(es[1], d)
            + seq![' '] + pretty(es[2], d) + seq![' '] + pretty(es[3], d),
        es.len() == 5 ==> pretty_list(es, d) == seq![' '] + pretty(es[0], d) + seq![' '] + pretty(es[1], d)
            + seq![' '] + pretty(es[2], d) + seq![' '] + pretty(es[3], d) + seq![' '] + pretty(es[4], d),
        es.len() == 6 ==> pretty_list(es, d) == seq![' '] + pretty(es[0], d) + seq![' '] + pretty(es[1], d)
            + seq![' '] + pretty(es[2], d) + seq![' '] + pretty(es[3], d) + seq![' '] + pretty(es[4], d)
            + seq![' '] + pretty(es[5], d),
    decreases es.len(),
{
    if es.len() >= 1 {
        let r = es.drop_first();
        lemma_pretty_list_cons(es, d);
        lemma_pretty_list_n(r, d);
        if r.len() == 0 {
            assert(pretty_list(r, d) == Seq::<char>::empty());
        }
        assert(es.len() >= 2 ==> r[0] == es[1]);
        assert(es.len() >= 3 ==> r[1] == es[2]);
        assert(es.len() >= 4 ==> r[2] == es[3]);
        assert(es.len() >= 5 ==> r[3] == es[4]);
        assert(es.len() >= 6 ==> r[4] == es[5]);
        let sp = seq![' '];
        let p0 = pretty(es[0], d);
        if es.len() == 1 {
            assert(pretty_list(es, d) =~= sp + p0);
        } else if es.len() == 2 {
            assert(pretty_list(es, d) =~= sp + p0 + sp + pretty(es[1], d));
        } else if es.len() == 3 {
            assert(pretty_list(es, d) =~= sp + p0 + sp + pretty(es[1], d) + sp + pretty(es[2], d));
        } else if es.len() == 4 {
            assert(pretty_list(es, d) =~= sp + p0 + sp + pretty(es[1], d) + sp + pretty(es[2], d) + sp
                + pretty(es[3], d));
        } else if es.len() == 5 {
            assert(pretty_list(es, d) =~= sp + p0 + sp + pretty(es[1], d) + sp + pretty(es[2], d) + sp
                + pretty(es[3], d) + sp + pretty(es[4], d));
        } else if es.len() == 6 {
            assert(pretty_list(es, d) =~= sp + p0 + sp + pretty(es[1], d) + sp + pretty(es[2], d) + sp
                + pretty(es[3], d) + sp + pretty(es[4], d) + sp + pretty(es[5], d));
        }
    }
}

/// The text of an expression whose operands are each written after a
/// space: its operator's text, then its operands.
proof fn lemma_flat_text(e: ExprV, d: nat)
    requires
        reparses(e),
        is_flat(e),
    ensures
        pretty(e, d) == head_text(e) + pretty_list(kids(e), d),
{
    if e is Move || e is Borrow || e is MutBorrow || e is Panic || e is Len || e is Read || e is Str || e is Env
        || e is Pack {
        lemma_flat_text_one(e, d);
    } else if e is Sub || e is Split || e is HttpClient || e is Metadata {
        lemma_flat_text_three(e, d);
    } else if e is OtelEmit || e is TimeSet {
        lemma_flat_text_many(e, d);
    } else {
        lemma_flat_text_two(e, d);
    }
}

proof fn lemma_flat_text_one(e: ExprV, d: nat)
    requires
        reparses(e),
        e is Move || e is Borrow || e is MutBorrow || e is Panic || e is Len || e is Read || e is Str || e is Env || e is Pack,
    ensures
        pretty(e, d) == head_text(e) + pretty_list(kids(e), d),
{
    lemma_pretty_list_n(kids(e), d);
    reveal_strlit(" ");
    match e {
        ExprV::Move(a) => {
            reveal_strlit("> ");
            assert(pretty(e, d) =~= head_text(e) + pretty_list(kids(e), d));
        },
        ExprV::Borrow(a) => {
            reveal_strlit("$ ");
            assert(pretty(e, d) =~= head_text(e) + pretty_list(kids(e), d));
        },
        ExprV::MutBorrow(a) => {
            reveal_strlit("~ ");
            assert(pretty(e, d) =~= head_text(e) + pretty_list(kids(e), d));
        },
        ExprV::Panic(a) => {
            reveal_strlit("! ");
            assert(pretty(e, d) =~= head_text(e) + pretty_list(kids(e), d));
        },
        ExprV::Len(a) => {
            reveal_strlit("sl ");
            assert(pretty(e, d) =~= head_text(e) + pretty_list(kids(e), d));
        },
        ExprV::Read(a) => {
            reveal_strlit("( ");
            assert(pretty(e, d) =~= head_text(e) + pretty_list(kids(e), d));
        },
        ExprV::Str(a) => {
            reveal_strlit("str ");
            assert(pretty(e, d) =~= head_text(e) + pretty_list(kids(e), d));
        },
        ExprV::Env(a) => {
            reveal_strlit("env ");
            assert(pretty(e, d) =~= head_text(e) + pretty_list(kids(e), d));
        },
        ExprV::Pack(a) => {
            reveal_strlit("jp ");
            assert(pretty(e, d) =~= head_text(e) + pretty_list(kids(e), d));
        },
        _ => {},
    }
}

proof fn lemma_flat_text_two(e: ExprV, d: nat)
    requires
        reparses(e),
        e is BinaryOp || e is Trap || e is Cat || e is Loc || e is Reg || e is Write || e is TimeGet || e is Filter || e is HttpServer || e is HttpHeader || e is FileOpen,
    ensures
        pretty(e, d) == head_text(e) + pretty_list(kids(e), d),
{
    lemma_pretty_list_n(kids(e), d);
    reveal_strlit(" ");
    match e {
        ExprV::BinaryOp(op, a, b) => {
            assert(pretty(e, d) =~= head_text(e) + pretty_list(kids(e), d));
        },
        ExprV::Trap(a, b) => {
            reveal_strlit("^ ");
            assert(pretty(e, d) =~= head_text(e) + pretty_list(kids(e), d));
        },
        ExprV::Cat(a, b) => {
            reveal_strlit("sc ");
            assert(pretty(e, d) =~= head_text(e) + pretty_list(kids(e), d));
        },
        ExprV::Loc(a, b) => {
            reveal_strlit("sf ");
            assert(pretty(e, d) =~= head_text(e) + pretty_list(kids(e), d));
        },
        ExprV::Reg(a, b) => {
            reveal_strlit("sr ");
            assert(pretty(e, d) =~= head_text(e) + pretty_list(kids(e), d));
        },
        ExprV::Write(a, b) => {
            reveal_strlit(") ");
            assert(pretty(e, d) =~= head_text(e) + pretty_list(kids(e), d));
        },
        ExprV::TimeGet(a, b) => {
            reveal_strlit("tg ");
            assert(pretty(e, d) =~= head_text(e) + pretty_list(kids(e), d));
        },
        ExprV::Filter(a, b) => {
            reveal_strlit("flt ");
            assert(pretty(e, d) =~= head_text(e) + pretty_list(kids(e), d));
        },
        ExprV::HttpServer(a, b) => {
            reveal_strlit("srv ");
            assert(pretty(e, d) =~= head_text(e) + pretty_list(kids(e), d));
        },
        ExprV::HttpHeader(a, b) => {
            reveal_strlit("hdr ");
            assert(pretty(e, d) =~= head_text(e) + pretty_list(kids(e), d));
        },
        ExprV::FileOpen(a, b) => {
            reveal_strlit("fo ");
            assert(pretty(e, d) =~= head_text(e) + pretty_list(kids(e), d));
        },
        _ => {},
    }
}

proof fn lemma_flat_text_three(e: ExprV, d: nat)
    requires
        reparses(e),
        e is Sub || e is Split || e is HttpClient || e is Metadata,
    ensures
        pretty(e, d) == head_text(e) + pretty_list(kids(e), d),
{
    lemma_pretty_list_n(kids(e), d);
    reveal_strlit(" ");
    match e {
        ExprV::Sub(a, b, c) => {
            reveal_strlit("ss ");
            assert(pretty(e, d) =~= head_text(e) + pretty_list(kids(e), d));
        },
        ExprV::Split(a, b, c) => {
            reveal_strlit("sp ");
            assert(pretty(e, d) =~= head_text(e) + pretty_list(kids(e), d));
        },
        ExprV::HttpClient(a, b, c) => {
            reveal_strlit("http ");
            assert(pretty(e, d) =~= head_text(e) + pretty_list(kids(e), d));
        },
        ExprV::Metadata(a, b, c) => {
            reveal_strlit("M ");
            assert(pretty(e, d) =~= head_text(e) + pretty_list(kids(e), d));
        },
        _ => {},
    }
}

proof fn lemma_flat_text_many(e: ExprV, d: nat)
    requires
        reparses(e),
        e is OtelEmit || e is TimeSet,
    ensures
        pretty(e, d) == head_text(e) + pretty_list(kids(e), d),
{
    lemma_pretty_list_n(kids(e), d);
    reveal_strlit(" ");
    match e {
        ExprV::OtelEmit(a, b, c, x) => {
            reveal_strlit("oe ");
            assert(pretty(e, d) =~= head_text(e) + pretty_list(kids(e), d));
        },
        ExprV::TimeSet(a, b, c, x, y, z) => {
            reveal_strlit("ts ");
            assert(pretty(e, d) =~= head_text(e) + pretty_list(kids(e), d));
        },
        _ => {},
    }
}

/// The parser has the token read from `p` ahead: the lookahead is that
/// token and the lexer stands just past it.
pub open spec fn ahead_at(st: PState, p: int) -> bool {
    &&& valid(st)
    &&& 0 <= p <= st.src.len()
    &&& lex_next(st.src, p, 0).0 == Lexed::Tok(st.cur)
    &&& lex_next(st.src, p, 0).1 == st.pos
}

/// Two parser states that differ at most in where the lexer stands.
pub open spec fn same_context(a: PState, b: PState) -> bool {
    &&& a.src == b.src
    &&& a.filename == b.filename
    &&& a.paths == b.paths
    &&& a.scopes == b.scopes
    &&& a.imported == b.imported
    &&& a.generated == b.generated
    &&& a.nresp == b.nresp
}

/// The text of `e` at depth `d` stands in `s` from `p`, followed by a
/// separator or the end.
pub open spec fn printed_at(e: ExprV, d: nat, s: Seq<char>, p: int) -> bool {
    &&& 0 <= p
    &&& p + pretty(e, d).len() <= s.len()
    &&& s.subrange(p, p + pretty(e, d).len()) == pretty(e, d)
    &&& (p + pretty(e, d).len() == s.len() || is_sep(s[p + pretty(e, d).len()]))
}

/// Every character of `s` from `a` up to `b` is whitespace.
pub open spec fn blank(s: Seq<char>, a: int, b: int) -> bool {
    &&& 0 <= a <= b <= s.len()
    &&& forall|i: int| a <= i < b ==> is_ws(#[trigger] s[i])
}

/// With whitespace between `p` and `q`, the token read from `p` is the one
/// read from `q`.
proof fn lemma_ahead_blank(st: PState, p: int, q: int)
    requires
        ahead_at(st, p),
        blank(st.src, p, q),
    ensures
        ahead_at(st, q),
{
    lemma_lex_ws_run(st.src, p, q);
}

/// Consuming the lookahead token, when only whitespace stands between the
/// lexer and `q` and a token can be read from `q`, leaves that token ahead.
proof fn lemma_consume_to(st: PState, q: int)
    requires
        valid(st),
        blank(st.src, st.pos, q),
        lex_next(st.src, q, 0).0 is Tok,
    ensures
        p_consume(st).0 == Ok::<TokenV, crate::compiler::error::ErrorView>(st.cur),
        ahead_at(p_consume(st).1, q),
        same_context(p_consume(st).1, st),
        p_consume(st).1.pos == lex_next(st.src, q, 0).1,
{
    reveal(p_consume);
    lemma_lex_line_free(st.src, st.pos, st.line);
    lemma_lex_ws_run(st.src, st.pos, q);
    lemma_lex_next(st.src, st.pos, st.line);
}

/// Reading an expression that starts at `c` and ends by `e` leaves less to
/// read than before it.
proof fn lemma_progress(a: PState, c: int, b: PState, e: int)
    requires
        ahead_at(a, c),
        ahead_at(b, e),
        a.src == b.src,
        !(a.cur is EOF),
        a.pos <= e,
    ensures
        measure(b) < measure(a),
{
    lemma_lex_next(b.src, e, 0);
}

/// One operand read: the operand list reader takes it and goes on after it.
proof fn lemma_exprs_step(st: PState, log: Seq<Answer>, k: nat, acc: Seq<ExprV>, x: ExprV, st2: PState)
    requires
        valid(st),
        k > 0,
        p_expr(st, log) == (Ok::<ExprV, crate::compiler::error::ErrorView>(x), st2),
        measure(st2) < measure(st),
        valid(st2),
    ensures
        p_exprs(st, log, k, acc) == p_exprs(st2, log, (k - 1) as nat, acc.push(x)),
{
}

/// A piece of a text that stands in `s` stands in `s` at its offset.
proof fn lemma_piece(s: Seq<char>, p: int, t: Seq<char>, off: int, part: Seq<char>)
    requires
        0 <= p,
        p + t.len() <= s.len(),
        s.subrange(p, p + t.len()) == t,
        0 <= off,
        off + part.len() <= t.len(),
        t.subrange(off, off + part.len()) == part,
    ensures
        s.subrange(p + off, p + off + part.len()) == part,
{
    assert(s.subrange(p + off, p + off + part.len()) =~= part) by {
        assert forall|k: int| 0 <= k < part.len() implies s.subrange(p + off, p + off + part.len())[k]
            == part[k] by {
            assert(t.subrange(off, off + part.len())[k] == part[k]);
            assert(s.subrange(p, p + t.len())[off + k] == t[off + k]);
        }
    }
}

/// A character of a text that stands in `s`.
proof fn lemma_char(s: Seq<char>, p: int, t: Seq<char>, i: int)
    requires
        0 <= p,
        p + t.len() <= s.len(),
        s.subrange(p, p + t.len()) == t,
        0 <= i < t.len(),
    ensures
        s[p + i] == t[i],
{
    assert(s.subrange(p, p + t.len())[i] == t[i]);
}

/// Indentation is spaces only.
proof fn lemma_indent_blank(d: nat)
    ensures
        forall|i: int| 0 <= i < indent(d).len() ==> #[trigger] indent(d)[i] == ' ',
    decreases d,
{
    if d > 0 {
        lemma_indent_blank((d - 1) as nat);
        let a = indent((d - 1) as nat);
        assert forall|i: int| 0 <= i < indent(d).len() implies #[trigger] indent(d)[i] == ' ' by {
            if i < a.len() {
                assert(indent(d)[i] == a[i]);
            }
        }
    }
}

/// A run of number characters from `p` ends at `end` when the characters
/// before `end` continue a number and the one at `end`, if any, is
/// whitespace.
proof fn lemma_num_run(s: Seq<char>, p: int, end: int)
    requires
        0 <= p <= end <= s.len(),
        forall|i: int| p <= i < end ==> num_char(#[trigger] s[i]),
        end == s.len() || is_ws(s[end]),
    ensures
        run_end(s, p, |c: char| num_char(c)) == end,
    decreases end - p,
{
    if p < end {
        lemma_num_run(s, p + 1, end);
    }
}


/// Where the operands of a list, written each after a space with the first
/// starting at `q`, start.
pub open spec fn flat_starts(ks: Seq<ExprV>, d: nat, q: int) -> Seq<int>
    decreases ks.len(),
{
    if ks.len() == 0 {
        Seq::empty()
    } else {
        seq![q] + flat_starts(ks.drop_first(), d, q + pretty(ks[0], d).len() + 1)
    }
}

/// The depths at which the operands of `e` at depth `d` are printed.
pub open spec fn kid_depths(e: ExprV, d: nat) -> Seq<nat> {
    match e {
        ExprV::If(_, _, _) => seq![d, d + 1, d + 1],
        _ => Seq::new(kids(e).len(), |i: int| d),
    }
}

/// Where the operands of `e`, printed at depth `d` from `p`, start.
pub open spec fn kid_starts(e: ExprV, d: nat, p: int) -> Seq<int> {
    match e {
        ExprV::Sequence(a, b) => seq![p + 2, p + 3 + pretty(*a, d).len() + indent(d).len()],
        ExprV::If(c, t, f) => seq![
            p + 2,
            p + 7 + pretty(*c, d).len() + indent(d).len(),
            p + 12 + pretty(*c, d).len() + pretty(*t, d + 1).len() + 2 * indent(d).len(),
        ],
        _ => flat_starts(kids(e), d, p + head_text(e).len() + 1),
    }
}

/// The text of a printed operator expression: its operator's text and a
/// space, then its operands, separated by whitespace, the last one ending
/// where the expression does.
pub open spec fn kids_laid_out(e: ExprV, d: nat, s: Seq<char>, p: int) -> bool {
    &&& kids(e).len() == kid_depths(e, d).len()
    &&& kids(e).len() == kid_starts(e, d, p).len()
    &&& kids(e).len() >= 1
    &&& p + head_text(e).len() < s.len()
    &&& head_text(e).len() < pretty(e, d).len()
    &&& s.subrange(p, p + head_text(e).len()) == head_text(e)
    &&& s[p + head_text(e).len()] == ' '
    &&& kid_starts(e, d, p)[0] == p + head_text(e).len() + 1
    &&& forall|i: int|
        0 <= i < kids(e).len() ==> printed_at(#[trigger] kids(e)[i], kid_depths(e, d)[i], s, kid_starts(e, d, p)[i])
    &&& forall|i: int|
        0 <= i < kids(e).len() - 1 ==> blank(
            s,
            #[trigger] kid_starts(e, d, p)[i] + pretty(kids(e)[i], kid_depths(e, d)[i]).len(),
            kid_starts(e, d, p)[i + 1],
        )
    &&& ({
        let n = kids(e).len() - 1;
        kid_starts(e, d, p)[n] + pretty(kids(e)[n], kid_depths(e, d)[n]).len() == p + pretty(e, d).len()
    })
}

/// Operands written each after a space, from `q - 1` on: each stands at its
/// start, one space lies between two of them, and the last ends where the
/// list does.
proof fn lemma_flat_layout(ks: Seq<ExprV>, d: nat, s: Seq<char>, q: int)
    requires
        ks.len() >= 1,
        1 <= q,
        q - 1 + pretty_list(ks, d).len() <= s.len(),
        s.subrange(q - 1, q - 1 + pretty_list(ks, d).len()) == pretty_list(ks, d),
        q - 1 + pretty_list(ks, d).len() == s.len() || is_sep(s[q - 1 + pretty_list(ks, d).len()]),
    ensures
        flat_starts(ks, d, q).len() == ks.len(),
        flat_starts(ks, d, q)[0] == q,
        s[q - 1] == ' ',
        forall|i: int| 0 <= i < ks.len() ==> printed_at(#[trigger] ks[i], d, s, flat_starts(ks, d, q)[i]),
        forall|i: int|
            0 <= i < ks.len() - 1 ==> blank(
                s,
                #[trigger] flat_starts(ks, d, q)[i] + pretty(ks[i], d).len(),
                flat_starts(ks, d, q)[i + 1],
            ),
        flat_starts(ks, d, q)[ks.len() - 1] + pretty(ks[ks.len() - 1], d).len() == q - 1 + pretty_list(
            ks,
            d,
        ).len(),
    decreases ks.len(),
{
    let pl = pretty_list(ks, d);
    let p0 = pretty(ks[0], d);
    let n0 = p0.len() as int;
    let r = ks.drop_first();
    let pr = pretty_list(r, d);
    lemma_pretty_list_cons(ks, d);
    assert(pl == seq![' '] + p0 + pr);
    lemma_char(s, q - 1, pl, 0);
    assert(pl.subrange(1, 1 + n0) =~= p0);
    lemma_piece(s, q - 1, pl, 1, p0);
    let fs = flat_starts(ks, d, q);
    let q2 = q + n0 + 1;
    if r.len() == 0 {
        assert(pr == Seq::<char>::empty());
        assert(flat_starts(r, d, q2) == Seq::<int>::empty());
        assert(fs =~= seq![q]);
    } else {
        lemma_pretty_list_cons(r, d);
        assert(pl.subrange(1 + n0, 1 + n0 + pr.len()) =~= pr);
        lemma_piece(s, q - 1, pl, 1 + n0, pr);
        assert(q2 - 1 + pr.len() == q - 1 + pl.len());
        lemma_flat_layout(r, d, s, q2);
        let fr = flat_starts(r, d, q2);
        assert(fs =~= seq![q] + fr);
        assert forall|i: int| 0 <= i < ks.len() implies printed_at(#[trigger] ks[i], d, s, fs[i]) by {
            if i > 0 {
                assert(ks[i] == r[i - 1]);
                assert(fs[i] == fr[i - 1]);
                assert(printed_at(r[i - 1], d, s, fr[i - 1]));
            } else {
                assert(s[q - 1 + 1 + n0] == ' ');
            }
        }
        assert forall|i: int| 0 <= i < ks.len() - 1 implies blank(
            s,
            #[trigger] fs[i] + pretty(ks[i], d).len(),
            fs[i + 1],
        ) by {
            if i > 0 {
                assert(ks[i] == r[i - 1]);
                assert(fs[i] == fr[i - 1]);
                assert(fs[i + 1] == fr[i]);
                assert(blank(s, fr[i - 1] + pretty(r[i - 1], d).len(), fr[i]));
            } else {
                assert(fs[1] == fr[0]);
                assert(s[q + n0] == ' ');
            }
        }
        assert(ks[ks.len() - 1] == r[r.len() - 1]);
        assert(fs[ks.len() - 1] == fr[r.len() - 1]);
    }
}

/// The layout of an expression whose operands are each written after a
/// space.
proof fn lemma_layout_flat(e: ExprV, d: nat, s: Seq<char>, p: int)
    requires
        reparses(e),
        is_flat(e),
        printed_at(e, d, s, p),
    ensures
        kids_laid_out(e, d, s, p),
{
    lemma_kids_build(e);
    lemma_flat_text(e, d);
    let t = pretty(e, d);
    let h = head_text(e);
    let ks = kids(e);
    let pl = pretty_list(ks, d);
    assert(t.subrange(0, h.len() as int) =~= h);
    lemma_piece(s, p, t, 0, h);
    assert(t.subrange(h.len() as int, (h.len() + pl.len()) as int) =~= pl);
    lemma_piece(s, p, t, h.len() as int, pl);
    lemma_flat_layout(ks, d, s, p + h.len() + 1);
    lemma_pretty_list_cons(ks, d);
    let kd = kid_depths(e, d);
    assert forall|i: int| 0 <= i < ks.len() implies kd[i] == d by {}
}

/// The layout of a printed operator expression.
proof fn lemma_kids_layout(e: ExprV, d: nat, s: Seq<char>, p: int)
    requires
        reparses(e),
        !is_leaf(e),
        !(e is Let),
        !(e is Define),
        !(e is Apply),
        !(e is Expand),
        !(e is Get),
        !(e is SetField),
        !(e is MoneyOp),
        !(e is MoneyStr),
        !(e is TimeOp),
        !(e is MapField),
        !(e is New),
        !(e is Unpack),
        printed_at(e, d, s, p),
    ensures
        kids_laid_out(e, d, s, p),
{
    if e is Sequence {
        lemma_layout_seq(e, d, s, p);
    } else if e is If {
        lemma_layout_if(e, d, s, p);
    } else {
        lemma_layout_flat(e, d, s, p);
    }
}

proof fn lemma_layout_seq(e: ExprV, d: nat, s: Seq<char>, p: int)
    requires
        reparses(e),
        e is Sequence,
        printed_at(e, d, s, p),
    ensures
        kids_laid_out(e, d, s, p),
{
    let t = pretty(e, d);
    reveal_strlit(" ");
    reveal_strlit("> ");
    reveal_strlit("$ ");
    reveal_strlit("~ ");
    reveal_strlit("! ");
    reveal_strlit("^ ");
    reveal_strlit(". ");
    reveal_strlit("? ");
    reveal_strlit("\n");
    reveal_strlit("\n    ");
    match e {
        ExprV::Sequence(a, b) => {
            let ta = pretty(*a, d);
            let tb = pretty(*b, d);
            let la = ta.len() as int;
            let ind = indent(d);
            let li = ind.len() as int;
            lemma_indent_blank(d);
            assert(t =~= seq!['.', ' '] + ta + seq!['\n'] + ind + tb);
            lemma_char(s, p, t, 1);
            lemma_char(s, p, t, 2 + la);
            assert(t.subrange(0, 1) =~= seq!['.']);
            lemma_piece(s, p, t, 0, seq!['.']);
            assert(t.subrange(2, 2 + la) =~= ta);
            lemma_piece(s, p, t, 2, ta);
            assert forall|i: int| 2 + la <= i < 3 + la + li implies is_ws(#[trigger] s[p + i]) by {
                lemma_char(s, p, t, i);
                if i > 2 + la {
                    assert(t[i] == ind[i - 3 - la]);
                }
            }
            assert forall|j: int| p + 2 + la <= j < p + 3 + la + li implies is_ws(#[trigger] s[j]) by {
                assert(s[p + (j - p)] == s[j]);
            }
            assert(t.subrange(3 + la + li, 3 + la + li + tb.len()) =~= tb);
            lemma_piece(s, p, t, 3 + la + li, tb);
        },
        _ => {},
    }
}

proof fn lemma_layout_if(e: ExprV, d: nat, s: Seq<char>, p: int)
    requires
        reparses(e),
        e is If,
        printed_at(e, d, s, p),
    ensures
        kids_laid_out(e, d, s, p),
{
    let t = pretty(e, d);
    reveal_strlit(" ");
    reveal_strlit("> ");
    reveal_strlit("$ ");
    reveal_strlit("~ ");
    reveal_strlit("! ");
    reveal_strlit("^ ");
    reveal_strlit(". ");
    reveal_strlit("? ");
    reveal_strlit("\n");
    reveal_strlit("\n    ");
    match e {
        ExprV::If(c, tt, ff) => {
            let tc = pretty(*c, d);
            let t1 = pretty(*tt, d + 1);
            let t2 = pretty(*ff, d + 1);
            let lc = tc.len() as int;
            let l1 = t1.len() as int;
            let ind = indent(d);
            let li = ind.len() as int;
            lemma_indent_blank(d);
            let nl = seq!['\n', ' ', ' ', ' ', ' '];
            assert(t =~= seq!['?', ' '] + tc + nl + ind + t1 + nl + ind + t2);
            lemma_char(s, p, t, 1);
            lemma_char(s, p, t, 2 + lc);
            lemma_char(s, p, t, 7 + lc + li + l1);
            assert(t.subrange(0, 1) =~= seq!['?']);
            lemma_piece(s, p, t, 0, seq!['?']);
            assert(t.subrange(2, 2 + lc) =~= tc);
            lemma_piece(s, p, t, 2, tc);
            assert forall|i: int| 2 + lc <= i < 7 + lc + li implies is_ws(#[trigger] s[p + i]) by {
                lemma_char(s, p, t, i);
                if i >= 7 + lc {
                    assert(t[i] == ind[i - 7 - lc]);
                }
            }
            assert forall|j: int| p + 2 + lc <= j < p + 7 + lc + li implies is_ws(#[trigger] s[j]) by {
                assert(s[p + (j - p)] == s[j]);
            }
            assert(t.subrange(7 + lc + li, 7 + lc + li + l1) =~= t1);
            lemma_piece(s, p, t, 7 + lc + li, t1);
            let q = 7 + lc + li + l1;
            assert forall|i: int| q <= i < q + 5 + li implies is_ws(#[trigger] s[p + i]) by {
                lemma_char(s, p, t, i);
                if i >= q + 5 {
                    assert(t[i] == ind[i - q - 5]);
                }
            }
            assert forall|j: int| p + q <= j < p + q + 5 + li implies is_ws(#[trigger] s[j]) by {
                assert(s[p + (j - p)] == s[j]);
            }
            assert(t.subrange(q + 5 + li, q + 5 + li + t2.len()) =~= t2);
            lemma_piece(s, p, t, q + 5 + li, t2);
        },
        _ => {},
    }
}

/// A run of name characters from `p` ends at `end` when a separator or the
/// end follows.
proof fn lemma_name_run(s: Seq<char>, p: int, end: int)
    requires
        0 <= p <= end <= s.len(),
        forall|i: int| p <= i < end ==> name_char(#[trigger] s[i]),
        end == s.len() || is_sep(s[end]) || s[end] == '`',
    ensures
        run_end(s, p, |c: char| ident_char(c)) == end,
    decreases end - p,
{
    if p < end {
        assert(name_char(s[p]));
        lemma_name_run(s, p + 1, end);
    }
}

/// A plain name followed by a separator or the end reads as that name.
proof fn lemma_name(s: Seq<char>, p0: int, w: Seq<char>, l: int)
    requires
        0 <= p0,
        plain_name(w),
        p0 + w.len() <= s.len(),
        s.subrange(p0, p0 + w.len()) == w,
        p0 + w.len() == s.len() || is_sep(s[p0 + w.len()]) || s[p0 + w.len()] == '`',
    ensures
        lex_next(s, p0, l) == (Lexed::Tok(TokenV::Identifier(w)), p0 + w.len(), l),
{
    let n = w.len() as int;
    assert forall|i: int| 0 <= i < n implies s[p0 + i] == #[trigger] w[i] by {
        assert(s.subrange(p0, p0 + n)[i] == w[i]);
    }
    assert(s[p0] == w[0]);
    assert(skip_ws(s, p0, l) == (p0, l));
    assert(trivia_end(s, p0, l) == (p0, l));
    assert forall|k: int| p0 + 1 <= k < p0 + n implies name_char(#[trigger] s[k]) by {
        assert(s[p0 + (k - p0)] == w[k - p0]);
    }
    lemma_name_run(s, p0 + 1, p0 + n);
}

/// The layout of a printed binding `L name value` and, on the next line,
/// the body: the name after the operator and a space, the value after the
/// name and a space, the body after a line break and indentation, ending
/// where the binding does.
proof fn lemma_layout_let(e: ExprV, d: nat, s: Seq<char>, p: int)
    requires
        reparses(e),
        e is Let,
        printed_at(e, d, s, p),
    ensures
        ({
            let name = e->Let_0;
            let a = *e->Let_1;
            let b = *e->Let_2;
            let va = p + 3 + name.len();
            let vb = va + pretty(a, d).len() + 1 + indent(d).len();
            &&& p + 1 < s.len()
            &&& s.subrange(p, p + 1) == seq!['L']
            &&& s[p + 1] == ' '
            &&& p + 2 + name.len() < s.len()
            &&& s.subrange(p + 2, p + 2 + name.len()) == name
            &&& s[p + 2 + name.len()] == ' '
            &&& printed_at(a, d, s, va)
            &&& blank(s, va + pretty(a, d).len(), vb)
            &&& printed_at(b, d, s, vb)
            &&& vb + pretty(b, d).len() == p + pretty(e, d).len()
            &&& 1 < pretty(e, d).len()
        }),
{
    let t = pretty(e, d);
    reveal_strlit("L ");
    reveal_strlit(" ");
    reveal_strlit("\n");
    match e {
        ExprV::Let(name, a, b) => {
            let ta = pretty(*a, d);
            let tb = pretty(*b, d);
            let ln = name.len() as int;
            let la = ta.len() as int;
            let ind = indent(d);
            let li = ind.len() as int;
            lemma_indent_blank(d);
            assert(t =~= seq!['L', ' '] + name + seq![' '] + ta + seq!['\n'] + ind + tb);
            lemma_char(s, p, t, 1);
            assert(t.subrange(0, 1) =~= seq!['L']);
            lemma_piece(s, p, t, 0, seq!['L']);
            assert(t.subrange(2, 2 + ln) =~= name);
            lemma_piece(s, p, t, 2, name);
            lemma_char(s, p, t, 2 + ln);
            let oa = 3 + ln;
            assert(t.subrange(oa, oa + la) =~= ta);
            lemma_piece(s, p, t, oa, ta);
            lemma_char(s, p, t, oa + la);
            assert forall|i: int| oa + la <= i < oa + la + 1 + li implies is_ws(#[trigger] s[p + i]) by {
                lemma_char(s, p, t, i);
                if i > oa + la {
                    assert(t[i] == ind[i - oa - la - 1]);
                }
            }
            assert forall|j: int| p + oa + la <= j < p + oa + la + 1 + li implies is_ws(#[trigger] s[j]) by {
                assert(s[p + (j - p)] == s[j]);
            }
            let ob = oa + la + 1 + li;
            assert(t.subrange(ob, ob + tb.len()) =~= tb);
            lemma_piece(s, p, t, ob, tb);
        },
        _ => {},
    }
}

/// Parameters are written each as a space, the name and its mark, from the
/// front.
proof fn lemma_params_text_front(ps: Seq<ParamV>)
    requires
        ps.len() >= 1,
    ensures
        params_text(ps) == seq![' '] + ps[0].name + mark(ps[0]) + params_text(ps.drop_first()),
    decreases ps.len(),
{
    let q = ps.drop_last();
    assert(params_text(ps) == params_text(q) + seq![' '] + ps.last().name + mark(ps.last()));
    if ps.len() == 1 {
        assert(params_text(q) == Seq::<char>::empty());
        assert(ps.drop_first() =~= Seq::<ParamV>::empty());
        assert(params_text(ps.drop_first()) == Seq::<char>::empty());
        assert(params_text(ps) =~= seq![' '] + ps[0].name + mark(ps[0]) + params_text(ps.drop_first()));
    } else {
        lemma_params_text_front(q);
        let r = ps.drop_first();
        assert(r.drop_last() =~= q.drop_first());
        assert(r.last() == ps.last());
        assert(params_text(r) == params_text(r.drop_last()) + seq![' '] + r.last().name + mark(r.last()));
        assert(q[0] == ps[0]);
        assert(params_text(ps) =~= seq![' '] + ps[0].name + mark(ps[0]) + params_text(ps.drop_first()));
    }
}

/// The scopes after binding the names of `ps`, one after another.
pub open spec fn add_vars(scopes: Seq<Seq<Seq<char>>>, ps: Seq<ParamV>) -> Seq<Seq<Seq<char>>>
    decreases ps.len(),
{
    if ps.len() == 0 {
        scopes
    } else {
        add_vars(add_var(scopes, ps[0].name), ps.drop_first())
    }
}

/// Binding names only changes the innermost scope.
proof fn lemma_add_vars_shape(scopes: Seq<Seq<Seq<char>>>, ps: Seq<ParamV>)
    requires
        scopes.len() > 0,
    ensures
        add_vars(scopes, ps).len() == scopes.len(),
        add_vars(scopes, ps).drop_last() == scopes.drop_last(),
    decreases ps.len(),
{
    if ps.len() > 0 {
        let s1 = add_var(scopes, ps[0].name);
        assert(s1.drop_last() =~= scopes.drop_last());
        lemma_add_vars_shape(s1, ps.drop_first());
    }
}

/// The operator of a printed definition is its character followed by a
/// space.
proof fn lemma_define_head(e: ExprV, d: nat, s: Seq<char>, p: int)
    requires
        e is Define,
        printed_at(e, d, s, p),
    ensures
        p + 1 < s.len(),
        s.subrange(p, p + 1) == head_text(e),
        s[p + 1] == ' ',
        1 < pretty(e, d).len(),
{
    let t = pretty(e, d);
    reveal_strlit("X ");
    reveal_strlit(": ");
    match e {
        ExprV::Define(name, ps, b, x) => {
            if x {
                assert(t[0] == 'X' && t[1] == ' ');
            } else {
                assert(t[0] == ':' && t[1] == ' ');
            }
            lemma_char(s, p, t, 0);
            lemma_char(s, p, t, 1);
            assert(s.subrange(p, p + 1) =~= head_text(e));
        },
        _ => {},
    }
}

/// The layout of a printed definition that is not exported: the name after
/// the operator and a space, the parameters after it, then a line break,
/// indentation and the body one level deeper, ending where the definition
/// does.
proof fn lemma_layout_define(e: ExprV, d: nat, s: Seq<char>, p: int)
    requires
        reparses(e),
        e is Define,
        !e->Define_3,
        printed_at(e, d, s, p),
    ensures
        ({
            let name = e->Define_0;
            let ps = e->Define_1;
            let b = *e->Define_2;
            let q0 = p + 2 + name.len();
            let pt = params_text(ps);
            let vb = q0 + pt.len() + 5 + indent(d).len();
            &&& s.subrange(p + 2, q0) == name
            &&& q0 + pt.len() < s.len()
            &&& s.subrange(q0, q0 + pt.len()) == pt
            &&& s[q0 + pt.len()] == '\n'
            &&& blank(s, q0 + pt.len(), vb)
            &&& printed_at(b, d + 1, s, vb)
            &&& vb + pretty(b, d + 1).len() == p + pretty(e, d).len()
        }),
{
    let t = pretty(e, d);
    reveal_strlit(": ");
    reveal_strlit("\n    ");
    match e {
        ExprV::Define(name, ps, b, x) => {
            let pt = params_text(ps);
            let tb = pretty(*b, d + 1);
            let ln = name.len() as int;
            let lp = pt.len() as int;
            let ind = indent(d);
            let li = ind.len() as int;
            lemma_indent_blank(d);
            let nl = seq!['\n', ' ', ' ', ' ', ' '];
            assert(t =~= seq![':', ' '] + name + pt + nl + ind + tb);
            assert(t.subrange(2, 2 + ln) =~= name);
            lemma_piece(s, p, t, 2, name);
            assert(t.subrange(2 + ln, 2 + ln + lp) =~= pt);
            lemma_piece(s, p, t, 2 + ln, pt);
            let g = 2 + ln + lp;
            lemma_char(s, p, t, g);
            assert forall|i: int| g <= i < g + 5 + li implies is_ws(#[trigger] s[p + i]) by {
                lemma_char(s, p, t, i);
                if i >= g + 5 {
                    assert(t[i] == ind[i - g - 5]);
                }
            }
            assert forall|j: int| p + g <= j < p + g + 5 + li implies is_ws(#[trigger] s[j]) by {
                assert(s[p + (j - p)] == s[j]);
            }
            assert(t.subrange(g + 5 + li, g + 5 + li + tb.len()) =~= tb);
            lemma_piece(s, p, t, g + 5 + li, tb);
        },
        _ => {},
    }
}

/// The arguments of a printed call, each after a space from `ef` on, stand
/// one after another up to the end of their text.
proof fn lemma_args_layout(args: Seq<ExprV>, d: nat, s: Seq<char>, ef: int)
    requires
        args.len() > 0,
        forall|i: int| 0 <= i < args.len() ==> reparses(#[trigger] args[i]),
        0 <= ef,
        ef + pretty_list(args, d).len() <= s.len(),
        s.subrange(ef, ef + pretty_list(args, d).len()) == pretty_list(args, d),
        ef + pretty_list(args, d).len() == s.len() || is_sep(s[ef + pretty_list(args, d).len()]),
    ensures
        blank(s, ef, ef + 1),
        listed(args, Seq::new(args.len(), |i: int| d), flat_starts(args, d, ef + 1), s),
        end_of(args.last(), Seq::new(args.len(), |i: int| d).last(), flat_starts(args, d, ef + 1).last())
            == ef + pretty_list(args, d).len(),
{
    lemma_flat_layout(args, d, s, ef + 1);
    let ds = Seq::new(args.len(), |i: int| d);
    let fs = flat_starts(args, d, ef + 1);
    assert forall|i: int| 0 <= i < args.len() - 1 implies blank(
        s,
        #[trigger] end_of(args[i], ds[i], fs[i]),
        fs[i + 1],
    ) by {
        assert(blank(s, fs[i] + pretty(args[i], d).len(), fs[i + 1]));
    }
    let n = args.len() - 1;
    assert(args.last() == args[n] && ds.last() == d && fs.last() == fs[n]);
}

/// The layout of a printed call `@n f args`: the count after `@`, a space,
/// the function, then each argument after a space, ending where the call
/// does.
proof fn lemma_layout_apply(e: ExprV, d: nat, s: Seq<char>, p: int)
    requires
        reparses(e),
        e is Apply,
        printed_at(e, d, s, p),
    ensures
        ({
            let f = *e->Apply_0;
            let args = e->Apply_1;
            let h = head_text(e);
            let cf = p + h.len() + 1;
            let ef = cf + pretty(f, d).len();
            &&& h.len() < pretty(e, d).len()
            &&& p + h.len() < s.len()
            &&& s.subrange(p, p + h.len()) == h
            &&& s[p + h.len()] == ' '
            &&& printed_at(f, d, s, cf)
            &&& args.len() == 0 ==> ef == p + pretty(e, d).len()
            &&& args.len() > 0 ==> blank(s, ef, ef + 1)
            &&& args.len() > 0 ==> listed(args, Seq::new(args.len(), |i: int| d), flat_starts(args, d, ef + 1), s)
            &&& args.len() > 0 ==> end_of(
                args.last(),
                Seq::new(args.len(), |i: int| d).last(),
                flat_starts(args, d, ef + 1).last(),
            ) == p + pretty(e, d).len()
        }),
{
    let t = pretty(e, d);
    reveal_strlit("@");
    reveal_strlit(" ");
    match e {
        ExprV::Apply(f, args) => {
            let h = head_text(e);
            let tf = pretty(*f, d);
            let pl = pretty_list(args, d);
            let lh = h.len() as int;
            let lf = tf.len() as int;
            assert(t =~= h + seq![' '] + tf + pl);
            assert(t.subrange(0, lh) =~= h);
            lemma_piece(s, p, t, 0, h);
            lemma_char(s, p, t, lh);
            assert(t.subrange(lh + 1, lh + 1 + lf) =~= tf);
            lemma_piece(s, p, t, lh + 1, tf);
            let ef = p + lh + 1 + lf;
            if args.len() == 0 {
                assert(pl == Seq::<char>::empty());
            } else {
                lemma_pretty_list_cons(args, d);
                lemma_char(s, p, t, lh + 1 + lf);
                assert(t.subrange(lh + 1 + lf, lh + 1 + lf + pl.len()) =~= pl);
                lemma_piece(s, p, t, lh + 1 + lf, pl);
                lemma_list_items(args, Seq::empty(), Seq::empty());
                lemma_args_layout(args, d, s, ef);
            }
        },
        _ => {},
    }
}

/// The token a printed call starts with: `@` and the count.
proof fn lemma_apply_head_lex(e: ExprV, s: Seq<char>, p0: int, l: int)
    requires
        reparses(e),
        e is Apply,
        0 <= p0,
        p0 + head_text(e).len() < s.len(),
        s.subrange(p0, p0 + head_text(e).len()) == head_text(e),
        s[p0 + head_text(e).len()] == ' ',
    ensures
        lex_next(s, p0, l) == (Lexed::Tok(head_token(e)), p0 + head_text(e).len(), l),
{
    let args = e->Apply_1;
    let digits = nat_decimal(args.len());
    let h = head_text(e);
    let n = h.len() as int;
    lemma_nat_decimal(args.len());
    lemma_char(s, p0, h, 0);
    assert(s[p0] == '@');
    assert(skip_ws(s, p0, l) == (p0, l));
    assert(trivia_end(s, p0, l) == (p0, l));
    assert forall|j: int| p0 + 1 <= j < p0 + n implies is_digit(#[trigger] s[j]) by {
        lemma_char(s, p0, h, j - p0);
        assert(h[j - p0] == digits[j - p0 - 1]);
    }
    lemma_digit_only_run(s, p0 + 1, p0 + n);
    assert(s.subrange(p0 + 1, p0 + n) =~= digits) by {
        assert forall|k: int| 0 <= k < n - 1 implies s.subrange(p0 + 1, p0 + n)[k] == digits[k] by {
            lemma_char(s, p0, h, 1 + k);
        }
    }
}

/// The layout of a printed field read `G instance field index`.
proof fn lemma_layout_get(e: ExprV, d: nat, s: Seq<char>, p: int)
    requires
        reparses(e),
        e is Get,
        printed_at(e, d, s, p),
    ensures
        ({
            let a = *e->Get_0;
            let f = e->Get_1;
            let b = *e->Get_2;
            let ea = p + 2 + pretty(a, d).len();
            let ef = ea + 1 + f.len();
            &&& p + 1 < s.len()
            &&& s.subrange(p, p + 1) == seq!['G']
            &&& s[p + 1] == ' '
            &&& 1 < pretty(e, d).len()
            &&& printed_at(a, d, s, p + 2)
            &&& s[ea] == ' '
            &&& s.subrange(ea + 1, ef) == f
            &&& s[ef] == ' '
            &&& printed_at(b, d, s, ef + 1)
            &&& ef + 1 + pretty(b, d).len() == p + pretty(e, d).len()
        }),
{
    let t = pretty(e, d);
    reveal_strlit("G ");
    reveal_strlit(" ");
    match e {
        ExprV::Get(a, f, b) => {
            let ta = pretty(*a, d);
            let tb = pretty(*b, d);
            let la = ta.len() as int;
            let lf = f.len() as int;
            assert(t =~= seq!['G', ' '] + ta + seq![' '] + f + seq![' '] + tb);
            lemma_char(s, p, t, 1);
            assert(t.subrange(0, 1) =~= seq!['G']);
            lemma_piece(s, p, t, 0, seq!['G']);
            assert(t.subrange(2, 2 + la) =~= ta);
            lemma_piece(s, p, t, 2, ta);
            lemma_char(s, p, t, 2 + la);
            assert(t.subrange(3 + la, 3 + la + lf) =~= f);
            lemma_piece(s, p, t, 3 + la, f);
            lemma_char(s, p, t, 3 + la + lf);
            assert(t.subrange(4 + la + lf, 4 + la + lf + tb.len()) =~= tb);
            lemma_piece(s, p, t, 4 + la + lf, tb);
        },
        _ => {},
    }
}

/// The layout of a printed field write `S instance field index value`.
proof fn lemma_layout_set(e: ExprV, d: nat, s: Seq<char>, p: int)
    requires
        reparses(e),
        e is SetField,
        printed_at(e, d, s, p),
    ensures
        ({
            let a = *e->SetField_0;
            let f = e->SetField_1;
            let b = *e->SetField_2;
            let c = *e->SetField_3;
            let ea = p + 2 + pretty(a, d).len();
            let ef = ea + 1 + f.len();
            let eb = ef + 1 + pretty(b, d).len();
            &&& p + 1 < s.len()
            &&& s.subrange(p, p + 1) == seq!['S']
            &&& s[p + 1] == ' '
            &&& 1 < pretty(e, d).len()
            &&& printed_at(a, d, s, p + 2)
            &&& s[ea] == ' '
            &&& s.subrange(ea + 1, ef) == f
            &&& s[ef] == ' '
            &&& printed_at(b, d, s, ef + 1)
            &&& s[eb] == ' '
            &&& printed_at(c, d, s, eb + 1)
            &&& eb + 1 + pretty(c, d).len() == p + pretty(e, d).len()
        }),
{
    let t = pretty(e, d);
    reveal_strlit("S ");
    reveal_strlit(" ");
    match e {
        ExprV::SetField(a, f, b, c) => {
            let ta = pretty(*a, d);
            let tb = pretty(*b, d);
            let tc = pretty(*c, d);
            let la = ta.len() as int;
            let lf = f.len() as int;
            let lb = tb.len() as int;
            assert(t =~= seq!['S', ' '] + ta + seq![' '] + f + seq![' '] + tb + seq![' '] + tc);
            lemma_char(s, p, t, 1);
            assert(t.subrange(0, 1) =~= seq!['S']);
            lemma_piece(s, p, t, 0, seq!['S']);
            assert(t.subrange(2, 2 + la) =~= ta);
            lemma_piece(s, p, t, 2, ta);
            lemma_char(s, p, t, 2 + la);
            assert(t.subrange(3 + la, 3 + la + lf) =~= f);
            lemma_piece(s, p, t, 3 + la, f);
            lemma_char(s, p, t, 3 + la + lf);
            assert(t.subrange(4 + la + lf, 4 + la + lf + lb) =~= tb);
            lemma_piece(s, p, t, 4 + la + lf, tb);
            lemma_char(s, p, t, 4 + la + lf + lb);
            assert(t.subrange(5 + la + lf + lb, 5 + la + lf + lb + tc.len()) =~= tc);
            lemma_piece(s, p, t, 5 + la + lf + lb, tc);
        },
        _ => {},
    }
}

/// The first token of a printed template reference `` `name ``: the mark.
proof fn lemma_expand_token(e: ExprV, d: nat, s: Seq<char>, p0: int, l: int)
    requires
        reparses(e),
        e is Expand,
        0 <= p0,
        p0 + pretty(e, d).len() <= s.len(),
        s.subrange(p0, p0 + pretty(e, d).len()) == pretty(e, d),
    ensures
        lex_next(s, p0, l) == (Lexed::Tok(TokenV::Bang), p0 + 1, l),
        pretty(e, d) == seq!['`'] + e->Expand_0,
        1 < pretty(e, d).len(),
{
    let t = pretty(e, d);
    reveal_strlit("`");
    assert(t =~= seq!['`'] + e->Expand_0);
    lemma_char(s, p0, t, 0);
    assert(skip_ws(s, p0, l) == (p0, l));
    assert(trivia_end(s, p0, l) == (p0, l));
}

/// The second token of a money or time operation: its operator, or `str`.
pub open spec fn second_token(e: ExprV) -> TokenV {
    match e {
        ExprV::MoneyOp(op, _, _) => op,
        ExprV::MoneyStr(_) => TokenV::Str,
        ExprV::TimeOp(op, _, _) => op,
        _ => TokenV::EOF,
    }
}

/// The text of the second token of a money or time operation.
pub open spec fn second_text(e: ExprV) -> Seq<char> {
    match e {
        ExprV::MoneyOp(op, _, _) => token_text(op),
        ExprV::MoneyStr(_) => seq!['s', 't', 'r'],
        ExprV::TimeOp(op, _, _) => token_text(op),
        _ => Seq::empty(),
    }
}

/// The operands of a money or time operation.
pub open spec fn ops_of(e: ExprV) -> Seq<ExprV> {
    match e {
        ExprV::MoneyOp(_, a, b) => seq![*a, *b],
        ExprV::MoneyStr(a) => seq![*a],
        ExprV::TimeOp(_, a, b) => seq![*a, *b],
        _ => Seq::empty(),
    }
}

/// A money or time operation: `%` or `tn`, an operator token, operands.
pub open spec fn is_two_token(e: ExprV) -> bool {
    e is MoneyOp || e is MoneyStr || e is TimeOp
}

/// The text of a money or time operation: its first token, a space, its
/// second token, then its operands each after a space.
proof fn lemma_two_token_text(e: ExprV, d: nat)
    requires
        reparses(e),
        is_two_token(e),
    ensures
        pretty(e, d) == head_text(e) + seq![' '] + second_text(e) + pretty_list(ops_of(e), d),
        ops_of(e).len() >= 1,
        forall|i: int| 0 <= i < ops_of(e).len() ==> reparses(#[trigger] ops_of(e)[i]),
        sum_size(ops_of(e)) < size(e),
{
    lemma_pretty_list_n(ops_of(e), d);
    lemma_sum_size_items(ops_of(e));
    reveal_strlit(" ");
    match e {
        ExprV::MoneyOp(op, a, b) => {
            reveal_strlit("% ");
            assert(pretty(e, d) =~= head_text(e) + seq![' '] + second_text(e) + pretty_list(ops_of(e), d));
        },
        ExprV::MoneyStr(a) => {
            reveal_strlit("% str ");
            assert(pretty(e, d) =~= head_text(e) + seq![' '] + second_text(e) + pretty_list(ops_of(e), d));
        },
        ExprV::TimeOp(op, a, b) => {
            reveal_strlit("tn ");
            assert(pretty(e, d) =~= head_text(e) + seq![' '] + second_text(e) + pretty_list(ops_of(e), d));
        },
        _ => {},
    }
}

#[verifier::rlimit(40)]
/// The layout of a printed money or time operation.
proof fn lemma_layout_two_token(e: ExprV, d: nat, s: Seq<char>, p: int)
    requires
        reparses(e),
        is_two_token(e),
        printed_at(e, d, s, p),
    ensures
        ({
            let h = head_text(e);
            let o = second_text(e);
            let q = p + h.len() + 1;
            let os = ops_of(e);
            &&& h.len() < pretty(e, d).len()
            &&& p + h.len() < s.len()
            &&& s.subrange(p, p + h.len()) == h
            &&& s[p + h.len()] == ' '
            &&& q + o.len() < s.len()
            &&& s.subrange(q, q + o.len()) == o
            &&& s[q + o.len()] == ' '
            &&& listed(os, Seq::new(os.len(), |i: int| d), flat_starts(os, d, q + o.len() + 1), s)
            &&& end_of(os.last(), Seq::new(os.len(), |i: int| d).last(), flat_starts(os, d, q + o.len() + 1).last())
                == p + pretty(e, d).len()
            &&& forall|i: int| 0 <= i < os.len() ==> reparses(#[trigger] os[i])
            &&& os.len() >= 1
            &&& sum_size(os) < size(e)
        }),
{
    lemma_two_token_text(e, d);
    let t = pretty(e, d);
    let h = head_text(e);
    let o = second_text(e);
    let os = ops_of(e);
    let pl = pretty_list(os, d);
    let lh = h.len() as int;
    let lo = o.len() as int;
    assert(t.subrange(0, lh) =~= h);
    lemma_piece(s, p, t, 0, h);
    lemma_char(s, p, t, lh);
    assert(t.subrange(lh + 1, lh + 1 + lo) =~= o);
    lemma_piece(s, p, t, lh + 1, o);
    lemma_pretty_list_cons(os, d);
    lemma_char(s, p, t, lh + 1 + lo);
    assert(t.subrange(lh + 1 + lo, lh + 1 + lo + pl.len()) =~= pl);
    lemma_piece(s, p, t, lh + 1 + lo, pl);
    lemma_args_layout(os, d, s, p + lh + 1 + lo);
}

/// The second token of a money or time operation, followed by a space.
proof fn lemma_second_lex(e: ExprV, s: Seq<char>, q: int, l: int)
    requires
        reparses(e),
        is_two_token(e),
        0 <= q,
        q + second_text(e).len() < s.len(),
        s.subrange(q, q + second_text(e).len()) == second_text(e),
        s[q + second_text(e).len()] == ' ',
    ensures
        lex_next(s, q, l) == (Lexed::Tok(second_token(e)), q + second_text(e).len(), l),
{
    let o = second_text(e);
    if e is MoneyStr {
        lemma_word(s, q, o, l);
    } else {
        let op = second_token(e);
        lemma_op_text(op);
        assert(s.subrange(q, q + 1)[0] == o[0]);
        assert(s[q] == o[0]);
        assert(skip_ws(s, q, l) == (q, l));
        assert(trivia_end(s, q, l) == (q, l));
        assert(!is_digit(s[q + 1]));
    }
}

/// Reading a money or time operation starts with its two tokens: consuming
/// them leaves the first operand's first token ahead.
proof fn lemma_two_token_start(e: ExprV, d: nat, st: PState, c: int)
    requires
        reparses(e),
        free_in(e, st.scopes, st.imported),
        is_two_token(e),
        printed_at(e, d, st.src, c),
        ahead_at(st, c),
    ensures
        ({
            let q = c + head_text(e).len() + 1;
            let q2 = q + second_text(e).len() + 1;
            let os = ops_of(e);
            let st1 = p_consume(st).1;
            let st2 = p_consume(st1).1;
            &&& p_consume(st).0 == Ok::<TokenV, crate::compiler::error::ErrorView>(st.cur)
            &&& st.cur == head_token(e)
            &&& st1.cur == second_token(e)
            &&& p_consume(st1).0 == Ok::<TokenV, crate::compiler::error::ErrorView>(st1.cur)
            &&& valid(st1) && valid(st2)
            &&& measure(st1) < measure(st)
            &&& measure(st2) < measure(st)
            &&& ahead_at(st2, q2)
            &&& same_context(st2, st)
            &&& listed(os, Seq::new(os.len(), |i: int| d), flat_starts(os, d, q2), st.src)
            &&& end_of(os.last(), Seq::new(os.len(), |i: int| d).last(), flat_starts(os, d, q2).last())
                == end_of(e, d, c)
            &&& forall|i: int| 0 <= i < os.len() ==> free_in(#[trigger] os[i], st.scopes, st.imported)
            &&& os.len() >= 1
            &&& sum_size(os) < size(e)
        }),
{
    let src = st.src;
    let h = head_text(e).len() as int;
    let o = second_text(e).len() as int;
    let q = c + h + 1;
    let q2 = q + o + 1;
    let os = ops_of(e);
    let ds = Seq::new(os.len(), |i: int| d);
    let fs = flat_starts(os, d, q2);
    lemma_layout_two_token(e, d, src, c);
    lemma_first_token(e, d, src, c, 0);
    lemma_second_lex(e, src, q, 0);
    assert(blank(src, c + h, q));
    lemma_consume_to(st, q);
    let st1 = p_consume(st).1;
    assert(reparses(os[0]) && printed_at(os[0], ds[0], src, fs[0]));
    lemma_first_token(os[0], d, src, q2, 0);
    assert(blank(src, q + o, q2));
    lemma_consume_to(st1, q2);
    lemma_lex_next(src, q2, 0);
}

#[verifier::rlimit(40)]
/// A printed money or time operation reads back: the grammar reads its two
/// tokens, then its operands.
proof fn lemma_reparse_two_token(e: ExprV, d: nat, st: PState, log: Seq<Answer>, c: int)
    requires
        reparses(e),
        free_in(e, st.scopes, st.imported),
        is_two_token(e),
        printed_at(e, d, st.src, c),
        ahead_at(st, c),
        lex_next(st.src, end_of(e, d, c), 0).0 is Tok,
    ensures
        p_expr(st, log).0 == Ok::<ExprV, crate::compiler::error::ErrorView>(e),
        ahead_at(p_expr(st, log).1, end_of(e, d, c)),
        same_context(p_expr(st, log).1, st),
    decreases size(e), 0nat,
{
    let q2 = c + head_text(e).len() + 1 + second_text(e).len() + 1;
    let os = ops_of(e);
    let ds = Seq::new(os.len(), |i: int| d);
    let fs = flat_starts(os, d, q2);
    let st1 = p_consume(st).1;
    let st2 = p_consume(st1).1;
    lemma_two_token_start(e, d, st, c);
    if e is MoneyStr {
        assert(os.last() == os[0] && ds.last() == d && fs.last() == fs[0]);
        assert(reparses(os[0]) && printed_at(os[0], ds[0], st.src, fs[0]));
        lemma_reparse_one(os[0], d, st2, log, q2);
        assert(p_expr(st, log) == crate::compiler::grammar::p_money(st, log));
    } else {
        lemma_reparse_list(os, ds, fs, st2, log, Seq::empty());
        assert(Seq::<ExprV>::empty() + os =~= os);
        if e is MoneyOp {
            assert(p_expr(st, log) == crate::compiler::grammar::p_money(st, log));
        } else {
            assert(p_expr(st, log) == crate::compiler::grammar::p_time_now(st, log));
        }
    }
}

/// Where a raw text stands in `s` from `pos`, the string reader collects it
/// and goes on just past it.
proof fn lemma_read_raw(s: Seq<char>, pos: int, t: Seq<char>, acc: Seq<char>)
    requires
        raw_text(t),
        0 <= pos,
        pos + t.len() <= s.len(),
        s.subrange(pos, pos + t.len()) == t,
    ensures
        lex_str(s, pos, acc) == lex_str(s, pos + t.len(), acc + t),
    decreases t.len(),
{
    if t.len() == 0 {
        assert(acc + t =~= acc);
    } else {
        let t0 = t.drop_last();
        let c = t.last();
        let n0 = t0.len() as int;
        assert(raw_text(t0)) by {
            assert forall|i: int| 0 <= i < t0.len() implies (#[trigger] t0[i]) != '"' && t0[i] != '\\' by {
                assert(t0[i] == t[i]);
            }
        }
        assert(s.subrange(pos, pos + n0) =~= t0) by {
            assert forall|i: int| 0 <= i < n0 implies s.subrange(pos, pos + n0)[i] == t0[i] by {
                assert(s.subrange(pos, pos + t.len())[i] == t[i]);
            }
        }
        lemma_read_raw(s, pos, t0, acc);
        assert(s.subrange(pos, pos + t.len())[n0] == t[n0]);
        assert(s[pos + n0] == c);
        assert(c != '"' && c != '\\');
        assert((acc + t0).push(c) =~= acc + t);
    }
}

/// The layout of a printed field map `map instance "field" function`.
proof fn lemma_layout_map(e: ExprV, d: nat, s: Seq<char>, p: int)
    requires
        reparses(e),
        e is MapField,
        printed_at(e, d, s, p),
    ensures
        ({
            let a = *e->MapField_0;
            let f = e->MapField_1;
            let g = *e->MapField_2;
            let ea = p + 4 + pretty(a, d).len();
            let eq = ea + 3 + f.len();
            &&& 3 < pretty(e, d).len()
            &&& p + 3 < s.len()
            &&& s.subrange(p, p + 3) == seq!['m', 'a', 'p']
            &&& s[p + 3] == ' '
            &&& printed_at(a, d, s, p + 4)
            &&& s[ea] == ' '
            &&& s[ea + 1] == '"'
            &&& s.subrange(ea + 2, ea + 2 + f.len()) == f
            &&& s[ea + 2 + f.len()] == '"'
            &&& s[eq] == ' '
            &&& printed_at(g, d, s, eq + 1)
            &&& eq + 1 + pretty(g, d).len() == p + pretty(e, d).len()
        }),
{
    let t = pretty(e, d);
    reveal_strlit("map ");
    reveal_strlit(" \"");
    reveal_strlit("\" ");
    match e {
        ExprV::MapField(a, f, g) => {
            let ta = pretty(*a, d);
            let tg = pretty(*g, d);
            let la = ta.len() as int;
            let lf = f.len() as int;
            assert(t =~= seq!['m', 'a', 'p', ' '] + ta + seq![' ', '"'] + f + seq!['"', ' '] + tg);
            lemma_char(s, p, t, 3);
            assert(t.subrange(0, 3) =~= seq!['m', 'a', 'p']);
            lemma_piece(s, p, t, 0, seq!['m', 'a', 'p']);
            assert(t.subrange(4, 4 + la) =~= ta);
            lemma_piece(s, p, t, 4, ta);
            lemma_char(s, p, t, 4 + la);
            lemma_char(s, p, t, 5 + la);
            assert(t.subrange(6 + la, 6 + la + lf) =~= f);
            lemma_piece(s, p, t, 6 + la, f);
            lemma_char(s, p, t, 6 + la + lf);
            lemma_char(s, p, t, 7 + la + lf);
            assert(t.subrange(8 + la + lf, 8 + la + lf + tg.len()) =~= tg);
            lemma_piece(s, p, t, 8 + la + lf, tg);
        },
        _ => {},
    }
}

/// A printed field map reads back: the grammar reads the operator, the
/// instance, the field as a string, and the function.
#[verifier::rlimit(60)]
proof fn lemma_reparse_map(e: ExprV, d: nat, st: PState, log: Seq<Answer>, c: int)
    requires
        reparses(e),
        free_in(e, st.scopes, st.imported),
        e is MapField,
        printed_at(e, d, st.src, c),
        ahead_at(st, c),
        lex_next(st.src, end_of(e, d, c), 0).0 is Tok,
    ensures
        p_expr(st, log).0 == Ok::<ExprV, crate::compiler::error::ErrorView>(e),
        ahead_at(p_expr(st, log).1, end_of(e, d, c)),
        same_context(p_expr(st, log).1, st),
    decreases size(e), 0nat,
{
    let src = st.src;
    let a = *e->MapField_0;
    let f = e->MapField_1;
    let g = *e->MapField_2;
    let ea = c + 4 + pretty(a, d).len();
    let eq = ea + 3 + f.len();
    lemma_layout_map(e, d, src, c);
    lemma_first_token(e, d, src, c, 0);
    lemma_first_token(a, d, src, c + 4, 0);
    assert(blank(src, c + 3, c + 4));
    lemma_consume_to(st, c + 4);
    let st1 = p_consume(st).1;
    lemma_lex_next(src, c + 4, 0);
    // the field, as a string literal
    assert(skip_ws(src, ea + 1, 0) == (ea + 1, 0int));
    assert(trivia_end(src, ea + 1, 0) == (ea + 1, 0int));
    lemma_read_raw(src, ea + 2, f, Seq::empty());
    assert(Seq::<char>::empty() + f =~= f);
    assert(lex_next(src, ea + 1, 0) == (Lexed::Tok(TokenV::String(f)), eq, 0int));
    assert(blank(src, ea, ea + 1));
    lemma_lex_ws_run(src, ea, ea + 1);
    lemma_reparse_one(a, d, st1, log, c + 4);
    let st2 = p_expr(st1, log).1;
    lemma_ahead_blank(st2, ea, ea + 1);
    lemma_first_token(g, d, src, eq + 1, 0);
    assert(blank(src, eq, eq + 1));
    lemma_consume_to(st2, eq + 1);
    let st3 = p_consume(st2).1;
    assert(crate::compiler::grammar::p_string(st2) == (Ok::<Seq<char>, crate::compiler::error::ErrorView>(f), st3));
    lemma_lex_next(src, eq + 1, 0);
    assert(measure(st3) < measure(st));
    lemma_reparse_one(g, d, st3, log, eq + 1);
    assert(p_expr(st, log) == crate::compiler::grammar::p_map(st, log));
}

/// The layout of a printed allocation `N shape count`.
proof fn lemma_layout_new(e: ExprV, d: nat, s: Seq<char>, p: int)
    requires
        reparses(e),
        e is New,
        printed_at(e, d, s, p),
    ensures
        ({
            let n = e->New_0;
            let c = *e->New_1;
            &&& 1 < pretty(e, d).len()
            &&& p + 1 < s.len()
            &&& s.subrange(p, p + 1) == seq!['N']
            &&& s[p + 1] == ' '
            &&& s.subrange(p + 2, p + 2 + n.len()) == n
            &&& s[p + 2 + n.len()] == ' '
            &&& printed_at(c, d, s, p + 3 + n.len())
            &&& p + 3 + n.len() + pretty(c, d).len() == p + pretty(e, d).len()
        }),
{
    let t = pretty(e, d);
    reveal_strlit("N ");
    reveal_strlit(" ");
    match e {
        ExprV::New(n, c) => {
            let tc = pretty(*c, d);
            let ln = n.len() as int;
            assert(t =~= seq!['N', ' '] + n + seq![' '] + tc);
            lemma_char(s, p, t, 1);
            assert(t.subrange(0, 1) =~= seq!['N']);
            lemma_piece(s, p, t, 0, seq!['N']);
            assert(t.subrange(2, 2 + ln) =~= n);
            lemma_piece(s, p, t, 2, n);
            lemma_char(s, p, t, 2 + ln);
            assert(t.subrange(3 + ln, 3 + ln + tc.len()) =~= tc);
            lemma_piece(s, p, t, 3 + ln, tc);
        },
        _ => {},
    }
}

/// The layout of a printed unpacking `ju value "shape"`.
proof fn lemma_layout_unpack(e: ExprV, d: nat, s: Seq<char>, p: int)
    requires
        reparses(e),
        e is Unpack,
        printed_at(e, d, s, p),
    ensures
        ({
            let a = *e->Unpack_0;
            let n = e->Unpack_1;
            let ea = p + 3 + pretty(a, d).len();
            &&& 2 < pretty(e, d).len()
            &&& p + 2 < s.len()
            &&& s.subrange(p, p + 2) == seq!['j', 'u']
            &&& s[p + 2] == ' '
            &&& printed_at(a, d, s, p + 3)
            &&& s[ea] == ' '
            &&& s[ea + 1] == '"'
            &&& s.subrange(ea + 2, ea + 2 + n.len()) == n
            &&& s[ea + 2 + n.len()] == '"'
            &&& ea + 3 + n.len() == p + pretty(e, d).len()
        }),
{
    let t = pretty(e, d);
    reveal_strlit("ju ");
    reveal_strlit(" \"");
    reveal_strlit("\"");
    match e {
        ExprV::Unpack(a, n) => {
            let ta = pretty(*a, d);
            let la = ta.len() as int;
            let ln = n.len() as int;
            assert(t =~= seq!['j', 'u', ' '] + ta + seq![' ', '"'] + n + seq!['"']);
            lemma_char(s, p, t, 2);
            assert(t.subrange(0, 2) =~= seq!['j', 'u']);
            lemma_piece(s, p, t, 0, seq!['j', 'u']);
            assert(t.subrange(3, 3 + la) =~= ta);
            lemma_piece(s, p, t, 3, ta);
            lemma_char(s, p, t, 3 + la);
            lemma_char(s, p, t, 4 + la);
            assert(t.subrange(5 + la, 5 + la + ln) =~= n);
            lemma_piece(s, p, t, 5 + la, n);
            lemma_char(s, p, t, 5 + la + ln);
        },
        _ => {},
    }
}

/// A printed allocation reads back: the grammar reads the operator, the
/// shape's name (which no import renames) and the count.
proof fn lemma_reparse_new(e: ExprV, d: nat, st: PState, log: Seq<Answer>, c: int)
    requires
        reparses(e),
        free_in(e, st.scopes, st.imported),
        e is New,
        printed_at(e, d, st.src, c),
        ahead_at(st, c),
        lex_next(st.src, end_of(e, d, c), 0).0 is Tok,
    ensures
        p_expr(st, log).0 == Ok::<ExprV, crate::compiler::error::ErrorView>(e),
        ahead_at(p_expr(st, log).1, end_of(e, d, c)),
        same_context(p_expr(st, log).1, st),
    decreases size(e), 0nat,
{
    let src = st.src;
    let n = e->New_0;
    let x = *e->New_1;
    let cx = c + 3 + n.len();
    lemma_layout_new(e, d, src, c);
    lemma_first_token(e, d, src, c, 0);
    lemma_name(src, c + 2, n, 0);
    assert(blank(src, c + 1, c + 2));
    lemma_consume_to(st, c + 2);
    let st1 = p_consume(st).1;
    lemma_first_token(x, d, src, cx, 0);
    assert(blank(src, c + 2 + n.len(), cx));
    lemma_consume_to(st1, cx);
    let st2 = p_consume(st1).1;
    assert(crate::compiler::grammar::p_ident(st1) == (Ok::<Seq<char>, crate::compiler::error::ErrorView>(n), st2));
    lemma_lex_next(src, cx, 0);
    assert(measure(st2) < measure(st));
    lemma_reparse_one(x, d, st2, log, cx);
    assert(p_expr(st, log) == crate::compiler::grammar::p_new(st, log));
}

/// A printed unpacking reads back: the grammar reads the operator, the
/// value, and the shape's name as a string (which no import renames).
proof fn lemma_reparse_unpack(e: ExprV, d: nat, st: PState, log: Seq<Answer>, c: int)
    requires
        reparses(e),
        free_in(e, st.scopes, st.imported),
        e is Unpack,
        printed_at(e, d, st.src, c),
        ahead_at(st, c),
        lex_next(st.src, end_of(e, d, c), 0).0 is Tok,
    ensures
        p_expr(st, log).0 == Ok::<ExprV, crate::compiler::error::ErrorView>(e),
        ahead_at(p_expr(st, log).1, end_of(e, d, c)),
        same_context(p_expr(st, log).1, st),
    decreases size(e), 0nat,
{
    let src = st.src;
    let a = *e->Unpack_0;
    let n = e->Unpack_1;
    let ea = c + 3 + pretty(a, d).len();
    let end0 = ea + 3 + n.len();
    lemma_layout_unpack(e, d, src, c);
    lemma_first_token(e, d, src, c, 0);
    lemma_first_token(a, d, src, c + 3, 0);
    assert(blank(src, c + 2, c + 3));
    lemma_consume_to(st, c + 3);
    let st1 = p_consume(st).1;
    lemma_lex_next(src, c + 3, 0);
    assert(skip_ws(src, ea + 1, 0) == (ea + 1, 0int));
    assert(trivia_end(src, ea + 1, 0) == (ea + 1, 0int));
    lemma_read_raw(src, ea + 2, n, Seq::empty());
    assert(Seq::<char>::empty() + n =~= n);
    assert(lex_next(src, ea + 1, 0) == (Lexed::Tok(TokenV::String(n)), end0, 0int));
    assert(blank(src, ea, ea + 1));
    lemma_lex_ws_run(src, ea, ea + 1);
    lemma_reparse_one(a, d, st1, log, c + 3);
    let st2 = p_expr(st1, log).1;
    lemma_ahead_blank(st2, ea, ea + 1);
    lemma_consume_to(st2, end0);
    let st3 = p_consume(st2).1;
    assert(crate::compiler::grammar::p_string(st2) == (Ok::<Seq<char>, crate::compiler::error::ErrorView>(n), st3));
    assert(p_expr(st, log) == p_pack(st, log, 2));
}

/// The token at the start of a printed leaf: the whole leaf.
proof fn lemma_leaf_token(e: ExprV, d: nat, s: Seq<char>, p0: int, l: int)
    requires
        reparses(e),
        is_leaf(e),
        0 <= p0,
        p0 + pretty(e, d).len() <= s.len(),
        s.subrange(p0, p0 + pretty(e, d).len()) == pretty(e, d),
        p0 + pretty(e, d).len() == s.len() || is_sep(s[p0 + pretty(e, d).len()]),
    ensures
        lex_next(s, p0, l) == (
            Lexed::Tok(head_token(e)),
            if is_leaf(e) { p0 + pretty(e, d).len() } else { p0 + head_text(e).len() },
            l,
        ),
        !is_leaf(e) ==> head_text(e).len() < pretty(e, d).len(),
        !(head_token(e) is EOF),
{
    let t = pretty(e, d);
    let n = t.len() as int;
    let w = s.subrange(p0, p0 + n);
    assert forall|i: int| 0 <= i < n implies s[p0 + i] == #[trigger] t[i] by {
        assert(w[i] == t[i]);
    }
    match e {
        ExprV::Integer(i) => {
            assert(t == nat_decimal(i as nat));
            lemma_nat_decimal(i as nat);
            lemma_no_dots(t);
            assert(is_digit(t[0]));
            assert(s[p0] == t[0]);
            assert(skip_ws(s, p0, l) == (p0, l));
            assert(trivia_end(s, p0, l) == (p0, l));
            assert forall|k: int| p0 + 1 <= k < p0 + n implies num_char(#[trigger] s[k]) by {
                assert(s[k] == t[k - p0]);
                assert(is_digit(t[k - p0]));
            }
            lemma_num_run(s, p0 + 1, p0 + n);
            assert(s.subrange(p0, p0 + n) =~= t);
        },
        ExprV::String(x) => {
            let e2 = escaped(x);
            let m: int = e2.len() as int;
            assert(t == seq!['"'] + e2 + seq!['"']) by {
                reveal_strlit("\"");
            }
            assert(t[0] == '"');
            assert(s[p0] == '"');
            assert(skip_ws(s, p0, l) == (p0, l));
            assert(trivia_end(s, p0, l) == (p0, l));
            assert(s.subrange(p0 + 1, p0 + 1 + m) =~= e2) by {
                assert forall|k: int| 0 <= k < m implies s.subrange(p0 + 1, p0 + 1 + m)[k] == e2[k] by {
                    assert(s[p0 + 1 + k] == t[1 + k]);
                }
            }
            lemma_read_escaped(s, p0 + 1, x, Seq::empty());
            assert(Seq::<char>::empty() + x =~= x);
            assert(s[p0 + 1 + m] == t[1 + m]);
        },
        ExprV::DeBruijn(k) => {
            let digits = nat_decimal(k as nat);
            assert(t == seq!['^'] + digits) by {
                reveal_strlit("^");
            }
            lemma_nat_decimal(k as nat);
            assert(t[0] == '^');
            assert(s[p0] == '^');
            assert(t[1] == digits[0]);
            assert(s[p0 + 1] == digits[0]);
            assert(skip_ws(s, p0, l) == (p0, l));
            assert(trivia_end(s, p0, l) == (p0, l));
            assert forall|j: int| p0 + 1 <= j < p0 + n implies is_digit(#[trigger] s[j]) by {
                assert(t[j - p0] == digits[j - p0 - 1]);
                assert(s[p0 + (j - p0)] == t[j - p0]);
            }
            lemma_digit_only_run(s, p0 + 1, p0 + n);
            assert(s.subrange(p0 + 1, p0 + n) =~= digits) by {
                assert forall|k: int| 0 <= k < n - 1 implies s.subrange(p0 + 1, p0 + n)[k] == digits[k] by {
                    assert(t[1 + k] == digits[k]);
                    assert(s[p0 + (1 + k)] == t[1 + k]);
                }
            }
        },
        ExprV::TimeNano => {
            assert(t == seq!['t', 'n', 's']) by {
                reveal_strlit("tns");
            }
            assert(s.subrange(p0, p0 + n) == t);
            lemma_word(s, p0, t, l);
            assert(keyword(t) == TokenV::TimeNano) by {
                assert(t.len() != seq!['t', 'n'].len());
            }
        },
        ExprV::TimeZone => {
            assert(t == seq!['t', 'z']) by {
                reveal_strlit("tz");
            }
            lemma_word(s, p0, t, l);
        },
        ExprV::Identifier(x) => {
            lemma_name(s, p0, x, l);
        },
        ExprV::Float(x) => {
            assert(t == x);
            assert(s[p0] == t[0]);
            assert(skip_ws(s, p0, l) == (p0, l));
            assert(trivia_end(s, p0, l) == (p0, l));
            assert forall|k: int| p0 + 1 <= k < p0 + n implies num_char(#[trigger] s[k]) by {
                assert(s[k] == t[k - p0]);
            }
            lemma_num_run(s, p0 + 1, p0 + n);
            assert(s.subrange(p0, p0 + n) =~= t);
        },
        _ => {},
    }
}

/// The token at the start of a printed operator expression: its operator.
proof fn lemma_op_token(e: ExprV, d: nat, s: Seq<char>, p0: int, l: int)
    requires
        reparses(e),
        !is_leaf(e),
        0 <= p0,
        p0 + pretty(e, d).len() <= s.len(),
        s.subrange(p0, p0 + pretty(e, d).len()) == pretty(e, d),
        p0 + pretty(e, d).len() == s.len() || is_sep(s[p0 + pretty(e, d).len()]),
    ensures
        lex_next(s, p0, l) == (Lexed::Tok(head_token(e)), p0 + head_text(e).len(), l),
        head_text(e).len() < pretty(e, d).len(),
        !(head_token(e) is EOF),
{
    match e {
        ExprV::Let(_, _, _) => {
            lemma_layout_let(e, d, s, p0);
            lemma_head_lex(e, s, p0, l);
        },
        ExprV::Define(_, _, _, _) => {
            lemma_define_head(e, d, s, p0);
            lemma_head_lex(e, s, p0, l);
        },
        ExprV::Apply(_, _) => {
            lemma_layout_apply(e, d, s, p0);
            lemma_apply_head_lex(e, s, p0, l);
        },
        ExprV::Expand(_) => {
            lemma_expand_token(e, d, s, p0, l);
        },
        ExprV::MoneyOp(_, _, _) => {
            lemma_layout_two_token(e, d, s, p0);
            lemma_head_lex(e, s, p0, l);
        },
        ExprV::MoneyStr(_) => {
            lemma_layout_two_token(e, d, s, p0);
            lemma_head_lex(e, s, p0, l);
        },
        ExprV::TimeOp(_, _, _) => {
            lemma_layout_two_token(e, d, s, p0);
            lemma_head_lex(e, s, p0, l);
        },
        ExprV::MapField(_, _, _) => {
            lemma_layout_map(e, d, s, p0);
            lemma_head_lex(e, s, p0, l);
        },
        ExprV::New(_, _) => {
            lemma_layout_new(e, d, s, p0);
            lemma_head_lex(e, s, p0, l);
        },
        ExprV::Unpack(_, _) => {
            lemma_layout_unpack(e, d, s, p0);
            lemma_head_lex(e, s, p0, l);
        },
        ExprV::Get(_, _, _) => {
            lemma_layout_get(e, d, s, p0);
            lemma_head_lex(e, s, p0, l);
        },
        ExprV::SetField(_, _, _, _) => {
            lemma_layout_set(e, d, s, p0);
            lemma_head_lex(e, s, p0, l);
        },
        _ => {
            lemma_kids_layout(e, d, s, p0);
            lemma_head_lex(e, s, p0, l);
        },
    }
}

/// The token at the start of a printed expression: the whole of a leaf,
/// the operator otherwise.
proof fn lemma_first_token(e: ExprV, d: nat, s: Seq<char>, p0: int, l: int)
    requires
        reparses(e),
        0 <= p0,
        p0 + pretty(e, d).len() <= s.len(),
        s.subrange(p0, p0 + pretty(e, d).len()) == pretty(e, d),
        p0 + pretty(e, d).len() == s.len() || is_sep(s[p0 + pretty(e, d).len()]),
    ensures
        lex_next(s, p0, l) == (
            Lexed::Tok(head_token(e)),
            if is_leaf(e) { p0 + pretty(e, d).len() } else { p0 + head_text(e).len() },
            l,
        ),
        !is_leaf(e) ==> head_text(e).len() < pretty(e, d).len(),
        !(head_token(e) is EOF),
{
    if is_leaf(e) {
        lemma_leaf_token(e, d, s, p0, l);
    } else {
        lemma_op_token(e, d, s, p0, l);
    }
}

/// Where the text of `e` at depth `d` printed from `p` ends.
pub open spec fn end_of(e: ExprV, d: nat, p: int) -> int {
    p + pretty(e, d).len()
}

/// Expressions printed one after another: each at its depth from its start,
/// with only whitespace between the end of one and the start of the next.
pub open spec fn listed(es: Seq<ExprV>, ds: Seq<nat>, cs: Seq<int>, s: Seq<char>) -> bool {
    &&& es.len() == ds.len()
    &&& es.len() == cs.len()
    &&& forall|i: int| 0 <= i < es.len() ==> reparses(#[trigger] es[i])
    &&& forall|i: int| 0 <= i < es.len() ==> printed_at(#[trigger] es[i], ds[i], s, cs[i])
    &&& forall|i: int| 0 <= i < es.len() - 1 ==> blank(s, #[trigger] end_of(es[i], ds[i], cs[i]), cs[i + 1])
}

proof fn lemma_size_pos(e: ExprV)
    ensures
        size(e) >= 1,
{
}

/// The grammar reads an operator expression as its operator and its
/// operands: with the operator ahead, consuming it gives `st1`, and if the
/// operand list reader reads the operands from there, the expression is read.
proof fn lemma_nary_read(e: ExprV, st: PState, log: Seq<Answer>, st1: PState)
    requires
        reparses(e),
        !is_leaf(e),
        !(e is Let),
        !(e is Define),
        !(e is Apply),
        !(e is Expand),
        !(e is Get),
        !(e is SetField),
        !(e is MoneyOp),
        !(e is MoneyStr),
        !(e is TimeOp),
        !(e is MapField),
        !(e is New),
        !(e is Unpack),
        is_nary(e),
        valid(st),
        st.cur == head_token(e),
        p_consume(st) == (Ok::<TokenV, crate::compiler::error::ErrorView>(st.cur), st1),
        measure(st1) < measure(st),
        valid(st1),
        p_exprs(st1, log, kids(e).len(), Seq::empty()).0 == Ok::<Seq<ExprV>, crate::compiler::error::ErrorView>(
            kids(e),
        ),
    ensures
        p_expr(st, log) == (
            Ok::<ExprV, crate::compiler::error::ErrorView>(e),
            p_exprs(st1, log, kids(e).len(), Seq::empty()).1,
        ),
{
    lemma_kids_build(e);
    assert(p_expr(st, log) == p_nary(st, log));
}

/// A printed expression reads back: with its first token ahead, the
/// grammar reads it and leaves the token after it ahead.
proof fn lemma_reparse_one(e: ExprV, d: nat, st: PState, log: Seq<Answer>, c: int)
    requires
        reparses(e),
        free_in(e, st.scopes, st.imported),
        printed_at(e, d, st.src, c),
        ahead_at(st, c),
        lex_next(st.src, end_of(e, d, c), 0).0 is Tok,
    ensures
        p_expr(st, log).0 == Ok::<ExprV, crate::compiler::error::ErrorView>(e),
        ahead_at(p_expr(st, log).1, end_of(e, d, c)),
        same_context(p_expr(st, log).1, st),
    decreases size(e), 2nat,
{
    let src = st.src;
    let end0 = end_of(e, d, c);
    lemma_first_token(e, d, src, c, 0);
    if is_leaf(e) {
        lemma_consume_to(st, end0);
        assert(p_expr(st, log) == p_leaf(st));
        assert(p_leaf(st) == p_atom(st, e));
    } else if e is Let {
        lemma_reparse_let(e, d, st, log, c);
    } else if e is Apply {
        lemma_reparse_apply(e, d, st, log, c);
    } else if e is Pack {
        lemma_reparse_pack(e, d, st, log, c);
    } else if e is Expand {
        lemma_reparse_expand(e, d, st, log, c);
    } else if is_two_token(e) {
        lemma_reparse_two_token(e, d, st, log, c);
    } else if e is MapField {
        lemma_reparse_map(e, d, st, log, c);
    } else if e is New {
        lemma_reparse_new(e, d, st, log, c);
    } else if e is Unpack {
        lemma_reparse_unpack(e, d, st, log, c);
    } else if e is Get {
        lemma_reparse_get(e, d, st, log, c);
    } else if e is SetField {
        lemma_reparse_set(e, d, st, log, c);
    } else if e is Metadata {
        lemma_reparse_meta(e, d, st, log, c);
    } else if e is Define {
        if e->Define_3 {
            lemma_reparse_export(e, d, st, log, c);
        } else {
            lemma_reparse_define(e, d, st, log, c);
        }
    } else {
        lemma_reparse_nary(e, d, st, log, c);
    }
}

/// Reading an operator expression starts with its operator: consuming it
/// leaves the first operand's first token ahead, and the operands are
/// printed one after another up to the end of the expression.
proof fn lemma_nary_start(e: ExprV, d: nat, st: PState, c: int)
    requires
        reparses(e),
        !is_leaf(e),
        !(e is Let),
        !(e is Define),
        !(e is Apply),
        !(e is Expand),
        !(e is Get),
        !(e is SetField),
        !(e is MoneyOp),
        !(e is MoneyStr),
        !(e is TimeOp),
        !(e is MapField),
        !(e is New),
        !(e is Unpack),
        printed_at(e, d, st.src, c),
        ahead_at(st, c),
    ensures
        p_consume(st).0 == Ok::<TokenV, crate::compiler::error::ErrorView>(st.cur),
        st.cur == head_token(e),
        ahead_at(p_consume(st).1, kid_starts(e, d, c)[0]),
        same_context(p_consume(st).1, st),
        measure(p_consume(st).1) < measure(st),
        listed(kids(e), kid_depths(e, d), kid_starts(e, d, c), st.src),
        end_of(kids(e).last(), kid_depths(e, d).last(), kid_starts(e, d, c).last()) == end_of(e, d, c),
{
    let src = st.src;
    let end0 = end_of(e, d, c);
    lemma_first_token(e, d, src, c, 0);
    lemma_kids_layout(e, d, src, c);
    lemma_kids_build(e);
    let ks = kids(e);
    let kds = kid_depths(e, d);
    let kcs = kid_starts(e, d, c);
    let h = head_text(e).len() as int;
    assert(printed_at(ks[0], kds[0], src, kcs[0]));
    assert(reparses(ks[0]));
    lemma_first_token(ks[0], kds[0], src, c + h + 1, 0);
    assert(src[c + h] == ' ');
    assert(blank(src, c + h, c + h + 1));
    lemma_consume_to(st, c + h + 1);
    let st1 = p_consume(st).1;
    lemma_lex_next(src, c + h + 1, 0);
    assert(listed(ks, kds, kcs, src)) by {
        assert forall|i: int| 0 <= i < ks.len() - 1 implies blank(
            src,
            #[trigger] end_of(ks[i], kds[i], kcs[i]),
            kcs[i + 1],
        ) by {
            assert(blank(src, kcs[i] + pretty(ks[i], kds[i]).len(), kcs[i + 1]));
        }
    }
    let n = ks.len() - 1;
    assert(ks.last() == ks[n] && kds.last() == kds[n] && kcs.last() == kcs[n]);
}

/// A printed operator expression reads back: the grammar reads the
/// operator, then its operands.
#[verifier::rlimit(30)]
proof fn lemma_reparse_nary(e: ExprV, d: nat, st: PState, log: Seq<Answer>, c: int)
    requires
        reparses(e),
        free_in(e, st.scopes, st.imported),
        !is_leaf(e),
        !(e is Let),
        !(e is Define),
        !(e is Apply),
        !(e is Expand),
        !(e is Get),
        !(e is SetField),
        !(e is MoneyOp),
        !(e is MoneyStr),
        !(e is TimeOp),
        !(e is MapField),
        !(e is New),
        !(e is Unpack),
        is_nary(e),
        printed_at(e, d, st.src, c),
        ahead_at(st, c),
        lex_next(st.src, end_of(e, d, c), 0).0 is Tok,
    ensures
        p_expr(st, log).0 == Ok::<ExprV, crate::compiler::error::ErrorView>(e),
        ahead_at(p_expr(st, log).1, end_of(e, d, c)),
        same_context(p_expr(st, log).1, st),
    decreases size(e), 0nat,
{
    let src = st.src;
    let ks = kids(e);
    let kds = kid_depths(e, d);
    let kcs = kid_starts(e, d, c);
    let h = head_text(e).len() as int;
    let st1 = p_consume(st).1;
    lemma_nary_start(e, d, st, c);
    lemma_free_kids(e, st.scopes, st.imported);
    lemma_kids_build(e);
    lemma_reparse_list(ks, kds, kcs, st1, log, Seq::empty());
    assert(Seq::<ExprV>::empty() + ks =~= ks);
    lemma_nary_read(e, st, log, st1);
}

/// A printed call reads back: the grammar reads `@` and the count, the
/// function, and as many arguments.
proof fn lemma_reparse_apply(e: ExprV, d: nat, st: PState, log: Seq<Answer>, c: int)
    requires
        reparses(e),
        free_in(e, st.scopes, st.imported),
        e is Apply,
        printed_at(e, d, st.src, c),
        ahead_at(st, c),
        lex_next(st.src, end_of(e, d, c), 0).0 is Tok,
    ensures
        p_expr(st, log).0 == Ok::<ExprV, crate::compiler::error::ErrorView>(e),
        ahead_at(p_expr(st, log).1, end_of(e, d, c)),
        same_context(p_expr(st, log).1, st),
    decreases size(e), 0nat,
{
    let src = st.src;
    let f = *e->Apply_0;
    let args = e->Apply_1;
    let h = head_text(e).len() as int;
    let cf = c + h + 1;
    let ef = cf + pretty(f, d).len();
    let end0 = end_of(e, d, c);
    let ds = Seq::new(args.len(), |i: int| d);
    let fs = flat_starts(args, d, ef + 1);
    lemma_layout_apply(e, d, src, c);
    lemma_first_token(e, d, src, c, 0);
    lemma_list_items(args, st.scopes, st.imported);
    assert(st.cur == TokenV::Apply(args.len() as usize));
    lemma_first_token(f, d, src, cf, 0);
    assert(blank(src, c + h, cf));
    lemma_consume_to(st, cf);
    let st1 = p_consume(st).1;
    lemma_lex_next(src, cf, 0);
    assert(measure(st1) < measure(st));
    if args.len() > 0 {
        assert(reparses(args[0]) && printed_at(args[0], ds[0], src, fs[0]));
        lemma_first_token(args[0], d, src, ef + 1, 0);
        lemma_lex_ws_run(src, ef, ef + 1);
    }
    lemma_reparse_one(f, d, st1, log, cf);
    let st2 = p_expr(st1, log).1;
    lemma_progress(st1, cf, st2, ef);
    if args.len() == 0 {
        assert(p_exprs(st2, log, 0, Seq::empty()) == (
            Ok::<Seq<ExprV>, crate::compiler::error::ErrorView>(Seq::<ExprV>::empty()),
            st2,
        ));
        assert(args =~= Seq::<ExprV>::empty());
    } else {
        lemma_ahead_blank(st2, ef, ef + 1);
        lemma_reparse_list(args, ds, fs, st2, log, Seq::empty());
        assert(Seq::<ExprV>::empty() + args =~= args);
    }
    assert(sum_size(args) < size(e));
    assert(p_expr(st, log) == crate::compiler::grammar::p_apply(st, log, args.len()));
}

/// A printed packing `jp value` reads back: the grammar reads the operator,
/// then the value.
proof fn lemma_reparse_pack(e: ExprV, d: nat, st: PState, log: Seq<Answer>, c: int)
    requires
        reparses(e),
        free_in(e, st.scopes, st.imported),
        e is Pack,
        printed_at(e, d, st.src, c),
        ahead_at(st, c),
        lex_next(st.src, end_of(e, d, c), 0).0 is Tok,
    ensures
        p_expr(st, log).0 == Ok::<ExprV, crate::compiler::error::ErrorView>(e),
        ahead_at(p_expr(st, log).1, end_of(e, d, c)),
        same_context(p_expr(st, log).1, st),
    decreases size(e), 0nat,
{
    let ks = kids(e);
    let kds = kid_depths(e, d);
    let kcs = kid_starts(e, d, c);
    let st1 = p_consume(st).1;
    lemma_nary_start(e, d, st, c);
    lemma_free_kids(e, st.scopes, st.imported);
    lemma_kids_build(e);
    assert(reparses(ks[0]) && printed_at(ks[0], kds[0], st.src, kcs[0]));
    assert(ks.last() == ks[0] && kds.last() == kds[0] && kcs.last() == kcs[0]);
    lemma_reparse_one(ks[0], kds[0], st1, log, kcs[0]);
    assert(p_expr(st, log) == p_pack(st, log, 1));
}

/// A printed annotation `M tag value target` reads back: the grammar reads
/// the operator, then its three operands.
proof fn lemma_reparse_meta(e: ExprV, d: nat, st: PState, log: Seq<Answer>, c: int)
    requires
        reparses(e),
        free_in(e, st.scopes, st.imported),
        e is Metadata,
        printed_at(e, d, st.src, c),
        ahead_at(st, c),
        lex_next(st.src, end_of(e, d, c), 0).0 is Tok,
    ensures
        p_expr(st, log).0 == Ok::<ExprV, crate::compiler::error::ErrorView>(e),
        ahead_at(p_expr(st, log).1, end_of(e, d, c)),
        same_context(p_expr(st, log).1, st),
    decreases size(e), 0nat,
{
    let ks = kids(e);
    let kds = kid_depths(e, d);
    let kcs = kid_starts(e, d, c);
    let st1 = p_consume(st).1;
    lemma_nary_start(e, d, st, c);
    lemma_free_kids(e, st.scopes, st.imported);
    lemma_kids_build(e);
    lemma_reparse_list(ks, kds, kcs, st1, log, Seq::empty());
    assert(Seq::<ExprV>::empty() + ks =~= ks);
    assert(p_expr(st, log) == p_meta(st, log));
}

/// A printed template reference reads back: the grammar reads the mark,
/// then the name.
proof fn lemma_reparse_expand(e: ExprV, d: nat, st: PState, log: Seq<Answer>, c: int)
    requires
        reparses(e),
        e is Expand,
        printed_at(e, d, st.src, c),
        ahead_at(st, c),
        lex_next(st.src, end_of(e, d, c), 0).0 is Tok,
    ensures
        p_expr(st, log).0 == Ok::<ExprV, crate::compiler::error::ErrorView>(e),
        ahead_at(p_expr(st, log).1, end_of(e, d, c)),
        same_context(p_expr(st, log).1, st),
{
    let src = st.src;
    let x = e->Expand_0;
    let t = pretty(e, d);
    lemma_expand_token(e, d, src, c, 0);
    assert(t.subrange(1, 1 + x.len() as int) =~= x);
    lemma_piece(src, c, t, 1, x);
    lemma_name(src, c + 1, x, 0);
    lemma_consume_to(st, c + 1);
    let st1 = p_consume(st).1;
    lemma_consume_to(st1, end_of(e, d, c));
    assert(p_expr(st, log) == crate::compiler::grammar::p_expand(st));
}

/// A printed field read reads back: the grammar reads the operator, the
/// instance, the field name and the index.
#[verifier::rlimit(60)]
proof fn lemma_reparse_get(e: ExprV, d: nat, st: PState, log: Seq<Answer>, c: int)
    requires
        reparses(e),
        free_in(e, st.scopes, st.imported),
        e is Get,
        printed_at(e, d, st.src, c),
        ahead_at(st, c),
        lex_next(st.src, end_of(e, d, c), 0).0 is Tok,
    ensures
        p_expr(st, log).0 == Ok::<ExprV, crate::compiler::error::ErrorView>(e),
        ahead_at(p_expr(st, log).1, end_of(e, d, c)),
        same_context(p_expr(st, log).1, st),
    decreases size(e), 0nat,
{
    let src = st.src;
    let a = *e->Get_0;
    let f = e->Get_1;
    let b = *e->Get_2;
    let ea = c + 2 + pretty(a, d).len();
    let ef = ea + 1 + f.len();
    lemma_layout_get(e, d, src, c);
    lemma_first_token(e, d, src, c, 0);
    lemma_first_token(a, d, src, c + 2, 0);
    assert(blank(src, c + 1, c + 2));
    lemma_consume_to(st, c + 2);
    let st1 = p_consume(st).1;
    lemma_lex_next(src, c + 2, 0);
    lemma_name(src, ea + 1, f, 0);
    assert(blank(src, ea, ea + 1));
    lemma_lex_ws_run(src, ea, ea + 1);
    lemma_reparse_one(a, d, st1, log, c + 2);
    let st2 = p_expr(st1, log).1;
    lemma_ahead_blank(st2, ea, ea + 1);
    lemma_first_token(b, d, src, ef + 1, 0);
    assert(blank(src, ef, ef + 1));
    lemma_consume_to(st2, ef + 1);
    let st3 = p_consume(st2).1;
    assert(crate::compiler::grammar::p_ident(st2) == (Ok::<Seq<char>, crate::compiler::error::ErrorView>(f), st3));
    lemma_lex_next(src, ef + 1, 0);
    assert(measure(st3) < measure(st));
    lemma_reparse_one(b, d, st3, log, ef + 1);
    assert(p_expr(st, log) == crate::compiler::grammar::p_get(st, log));
}

/// A printed field write reads back: the grammar reads the operator, the
/// instance, the field name, then the index and the value.
#[verifier::rlimit(60)]
proof fn lemma_reparse_set(e: ExprV, d: nat, st: PState, log: Seq<Answer>, c: int)
    requires
        reparses(e),
        free_in(e, st.scopes, st.imported),
        e is SetField,
        printed_at(e, d, st.src, c),
        ahead_at(st, c),
        lex_next(st.src, end_of(e, d, c), 0).0 is Tok,
    ensures
        p_expr(st, log).0 == Ok::<ExprV, crate::compiler::error::ErrorView>(e),
        ahead_at(p_expr(st, log).1, end_of(e, d, c)),
        same_context(p_expr(st, log).1, st),
    decreases size(e), 0nat,
{
    let src = st.src;
    let a = *e->SetField_0;
    let f = e->SetField_1;
    let b = *e->SetField_2;
    let x = *e->SetField_3;
    let ea = c + 2 + pretty(a, d).len();
    let ef = ea + 1 + f.len();
    let eb = ef + 1 + pretty(b, d).len();
    lemma_layout_set(e, d, src, c);
    lemma_first_token(e, d, src, c, 0);
    lemma_first_token(a, d, src, c + 2, 0);
    assert(blank(src, c + 1, c + 2));
    lemma_consume_to(st, c + 2);
    let st1 = p_consume(st).1;
    lemma_lex_next(src, c + 2, 0);
    lemma_name(src, ea + 1, f, 0);
    assert(blank(src, ea, ea + 1));
    lemma_lex_ws_run(src, ea, ea + 1);
    lemma_reparse_one(a, d, st1, log, c + 2);
    let st2 = p_expr(st1, log).1;
    lemma_ahead_blank(st2, ea, ea + 1);
    lemma_first_token(b, d, src, ef + 1, 0);
    assert(blank(src, ef, ef + 1));
    lemma_consume_to(st2, ef + 1);
    let st3 = p_consume(st2).1;
    assert(crate::compiler::grammar::p_ident(st2) == (Ok::<Seq<char>, crate::compiler::error::ErrorView>(f), st3));
    lemma_lex_next(src, ef + 1, 0);
    assert(measure(st3) < measure(st));
    let es = seq![b, x];
    let ds = seq![d, d];
    let cs = seq![ef + 1, eb + 1];
    lemma_first_token(x, d, src, eb + 1, 0);
    assert(listed(es, ds, cs, src)) by {
        assert(blank(src, end_of(b, d, ef + 1), eb + 1));
    }
    assert(es.last() == x && ds.last() == d && cs.last() == eb + 1);
    lemma_sum_size_items(es);
    assert(sum_size(es) < size(e));
    lemma_reparse_list(es, ds, cs, st3, log, Seq::empty());
    assert(Seq::<ExprV>::empty() + es =~= es);
    assert(p_expr(st, log) == crate::compiler::grammar::p_set(st, log));
}

#[verifier::rlimit(40)]
/// A printed binding reads back: the grammar reads the operator, the name,
/// the value, and the body with the name bound, then unbinds the name.
proof fn lemma_reparse_let(e: ExprV, d: nat, st: PState, log: Seq<Answer>, c: int)
    requires
        reparses(e),
        free_in(e, st.scopes, st.imported),
        e is Let,
        printed_at(e, d, st.src, c),
        ahead_at(st, c),
        lex_next(st.src, end_of(e, d, c), 0).0 is Tok,
    ensures
        p_expr(st, log).0 == Ok::<ExprV, crate::compiler::error::ErrorView>(e),
        ahead_at(p_expr(st, log).1, end_of(e, d, c)),
        same_context(p_expr(st, log).1, st),
    decreases size(e), 0nat,
{
    let src = st.src;
    let name = e->Let_0;
    let a = *e->Let_1;
    let b = *e->Let_2;
    let va = c + 3 + name.len();
    let ea = va + pretty(a, d).len();
    let vb = ea + 1 + indent(d).len();
    let end0 = end_of(e, d, c);
    lemma_layout_let(e, d, src, c);
    lemma_first_token(e, d, src, c, 0);
    assert(st.cur == TokenV::Let);
    assert(st.pos == c + 1);
    // the name
    lemma_name(src, c + 2, name, 0);
    assert(blank(src, c + 1, c + 2));
    lemma_consume_to(st, c + 2);
    let st1 = p_consume(st).1;
    assert(st1.cur == TokenV::Identifier(name));
    // the value
    lemma_first_token(a, d, src, va, 0);
    assert(blank(src, c + 2 + name.len(), va));
    lemma_consume_to(st1, va);
    let st2 = p_consume(st1).1;
    lemma_lex_next(src, va, 0);
    assert(measure(st2) < measure(st));
    lemma_first_token(b, d, src, vb, 0);
    lemma_lex_ws_run(src, ea, vb);
    lemma_reparse_one(a, d, st2, log, va);
    let st3 = p_expr(st2, log).1;
    let st4 = PState { scopes: add_var(st3.scopes, name), ..st3 };
    lemma_progress(st2, va, st3, ea);
    assert(ahead_at(st4, ea));
    lemma_ahead_blank(st4, ea, vb);
    lemma_reparse_one(b, d, st4, log, vb);
    let st5 = p_expr(st4, log).1;
    assert(st5.scopes == add_var(st.scopes, name));
    assert(drop_var(add_var(st.scopes, name)) =~= st.scopes) by {
        if st.scopes.len() > 0 {
            assert(add_var(st.scopes, name).last() == st.scopes.last().push(name));
            assert(add_var(st.scopes, name).last().drop_last() =~= st.scopes.last());
        }
    }
    assert(p_expr(st, log) == p_let(st, log));
}

/// What is read from where a parameter text starts: the first parameter's
/// name, then its mark if it has one; or, with no parameters, the body's
/// first token.
proof fn lemma_params_ahead(src: Seq<char>, q: int, ps: Seq<ParamV>, vb: int)
    requires
        plain_params(ps),
        0 <= q,
        q + params_text(ps).len() < vb <= src.len(),
        src.subrange(q, q + params_text(ps).len()) == params_text(ps),
        is_sep(src[q + params_text(ps).len()]),
        blank(src, q + params_text(ps).len(), vb),
        lex_next(src, vb, 0).0 is Tok,
    ensures
        is_sep(src[q]),
        lex_next(src, q, 0).0 is Tok,
        ps.len() > 0 ==> lex_next(src, q, 0).0 == Lexed::Tok(TokenV::Identifier(ps[0].name)),
        ps.len() > 0 ==> lex_next(src, q, 0).1 == q + 1 + ps[0].name.len(),
        ps.len() > 0 && ps[0].expand ==> lex_next(src, q + 1 + ps[0].name.len(), 0) == (
            Lexed::Tok(TokenV::Bang),
            q + 2 + ps[0].name.len(),
            0int,
        ),
        ps.len() == 0 ==> lex_next(src, q, 0).0 == lex_next(src, vb, 0).0,
        ps.len() == 0 ==> lex_next(src, q, 0).1 == lex_next(src, vb, 0).1,
{
    let pt = params_text(ps);
    if ps.len() == 0 {
        assert(pt == Seq::<char>::empty());
        lemma_lex_ws_run(src, q, vb);
    } else {
        lemma_params_text_front(ps);
        let name = ps[0].name;
        let ln = name.len() as int;
        let mk = mark(ps[0]);
        let r = ps.drop_first();
        let pr = params_text(r);
        assert(plain_name(ps[0].name));
        assert(pt == seq![' '] + name + mk + pr);
        lemma_char(src, q, pt, 0);
        assert(pt.subrange(1, 1 + ln) =~= name);
        lemma_piece(src, q, pt, 1, name);
        if ps[0].expand {
            lemma_char(src, q, pt, 1 + ln);
            let qb = q + 1 + ln;
            assert(src[qb] == '`');
            assert(skip_ws(src, qb, 0) == (qb, 0int));
            assert(trivia_end(src, qb, 0) == (qb, 0int));
        } else if r.len() > 0 {
            lemma_params_text_front(r);
            lemma_char(src, q, pt, 1 + ln);
        }
        lemma_name(src, q + 1, name, 0);
        lemma_lex_ws(src, q);
        lemma_lex_line_free(src, q + 1, 0);
    }
}

/// The parameters after the first are plain too, and their text stands
/// right after the first one and its mark.
proof fn lemma_params_rest(src: Seq<char>, q: int, ps: Seq<ParamV>)
    requires
        plain_params(ps),
        ps.len() > 0,
        0 <= q,
        q + params_text(ps).len() <= src.len(),
        src.subrange(q, q + params_text(ps).len()) == params_text(ps),
    ensures
        plain_params(ps.drop_first()),
        ({
            let q2 = q + 1 + ps[0].name.len() + mark(ps[0]).len();
            &&& q2 + params_text(ps.drop_first()).len() == q + params_text(ps).len()
            &&& src.subrange(q2, q2 + params_text(ps.drop_first()).len()) == params_text(ps.drop_first())
        }),
{
    lemma_params_text_front(ps);
    let r = ps.drop_first();
    let pt = params_text(ps);
    let pr = params_text(r);
    let k = (1 + ps[0].name.len() + mark(ps[0]).len()) as int;
    assert forall|i: int| 0 <= i < r.len() implies plain_name(#[trigger] r[i].name) by {
        assert(r[i] == ps[i + 1]);
        assert(plain_name(ps[i + 1].name));
    }
    assert(plain_params(r)) by {
        assert forall|i: int| 0 <= i < r.len() implies plain_name((#[trigger] r[i]).name) by {
            assert(r[i] == ps[i + 1]);
            assert(plain_name(ps[i + 1].name));
        }
    }
    assert(pt.subrange(k, k + pr.len()) =~= pr);
    lemma_piece(src, q, pt, k, pr);
}

/// Only a bare name starts with a name, and only a template reference with a
/// template mark.
proof fn lemma_head_kinds(e: ExprV)
    requires
        reparses(e),
    ensures
        head_token(e) is Identifier <==> e is Identifier,
        head_token(e) is Bang <==> e is Expand,
{
}

/// Printed parameters read back: from `q`, where the parameter text starts,
/// the parameter reader takes each name (and its mark), binds it, and stops
/// at the body's first token at `vb`, which is no name, and a template mark
/// only right after a template parameter or with no parameters.
proof fn lemma_read_params(ps: Seq<ParamV>, st: PState, acc: Seq<ParamV>, q: int, vb: int)
    requires
        plain_params(ps),
        ahead_at(st, q),
        q + params_text(ps).len() < vb <= st.src.len(),
        st.src.subrange(q, q + params_text(ps).len()) == params_text(ps),
        is_sep(st.src[q + params_text(ps).len()]),
        blank(st.src, q + params_text(ps).len(), vb),
        lex_next(st.src, vb, 0).0 is Tok,
        !(lex_next(st.src, vb, 0).0->Tok_0 is Identifier),
        lex_next(st.src, vb, 0).0->Tok_0 is Bang ==> ps.len() == 0 || ps.last().expand,
    ensures
        p_params(st, acc).0 == Ok::<Seq<ParamV>, crate::compiler::error::ErrorView>(acc + ps),
        ahead_at(p_params(st, acc).1, vb),
        p_params(st, acc).1.scopes == add_vars(st.scopes, ps),
        p_params(st, acc).1.src == st.src,
        p_params(st, acc).1.filename == st.filename,
        p_params(st, acc).1.paths == st.paths,
        p_params(st, acc).1.imported == st.imported,
        p_params(st, acc).1.generated == st.generated,
        p_params(st, acc).1.nresp == st.nresp,
    decreases ps.len(),
{
    let src = st.src;
    lemma_params_ahead(src, q, ps, vb);
    if ps.len() == 0 {
        assert(acc + ps =~= acc);
    } else {
        lemma_params_rest(src, q, ps);
        let p0 = ps[0];
        let name = p0.name;
        let r = ps.drop_first();
        let qn = q + 1 + name.len();
        let q2 = qn + mark(p0).len();
        lemma_params_ahead(src, q2, r, vb);
        if r.len() > 0 {
            assert(r.last() == ps.last());
        }
        assert(ps[0] == (ParamV { name: name, expand: p0.expand }));
        if p0.expand {
            assert(blank(src, qn, qn));
            lemma_consume_to(st, qn);
            let st1 = p_consume(st).1;
            assert(st1.cur == TokenV::Bang);
            lemma_consume_to(st1, q2);
            let st2 = p_consume(st1).1;
            let st3 = PState { scopes: add_var(st2.scopes, name), ..st2 };
            lemma_lex_next(src, q2, 0);
            lemma_lex_next(src, q, 0);
            assert(measure(st3) < measure(st));
            lemma_read_params(r, st3, acc.push(ps[0]), q2, vb);
        } else {
            assert(q2 == qn);
            lemma_consume_to(st, q2);
            let st1 = p_consume(st).1;
            assert(!(st1.cur is Bang));
            let st3 = PState { scopes: add_var(st1.scopes, name), ..st1 };
            lemma_lex_next(src, q2, 0);
            lemma_lex_next(src, q, 0);
            assert(measure(st3) < measure(st));
            lemma_read_params(r, st3, acc.push(ps[0]), q2, vb);
        }
        assert(acc.push(ps[0]) + r =~= acc + ps);
    }
}

#[verifier::rlimit(50)]
/// A printed definition that is not exported reads back: the grammar reads
/// the operator, the name, the parameters in a scope of their own, and the
/// body, then closes that scope.
proof fn lemma_reparse_define(e: ExprV, d: nat, st: PState, log: Seq<Answer>, c: int)
    requires
        reparses(e),
        free_in(e, st.scopes, st.imported),
        e is Define,
        !e->Define_3,
        printed_at(e, d, st.src, c),
        ahead_at(st, c),
        lex_next(st.src, end_of(e, d, c), 0).0 is Tok,
    ensures
        p_expr(st, log).0 == Ok::<ExprV, crate::compiler::error::ErrorView>(e),
        ahead_at(p_expr(st, log).1, end_of(e, d, c)),
        same_context(p_expr(st, log).1, st),
    decreases size(e), 0nat,
{
    let src = st.src;
    let name = e->Define_0;
    let ps = e->Define_1;
    let b = *e->Define_2;
    let q0 = c + 2 + name.len();
    let pt = params_text(ps);
    let vb = q0 + pt.len() + 5 + indent(d).len();
    lemma_layout_define(e, d, src, c);
    lemma_define_head(e, d, src, c);
    lemma_first_token(e, d, src, c, 0);
    lemma_first_token(b, d + 1, src, vb, 0);
    lemma_head_kinds(b);
    lemma_params_ahead(src, q0, ps, vb);
    lemma_name(src, c + 2, name, 0);
    assert(blank(src, c + 1, c + 2));
    lemma_consume_to(st, c + 2);
    let st1 = p_consume(st).1;
    lemma_consume_to(st1, q0);
    let st2 = p_consume(st1).1;
    assert(p_ident(st1) == (Ok::<Seq<char>, crate::compiler::error::ErrorView>(name), st2));
    let st3 = PState { scopes: st2.scopes.push(Seq::empty()), ..st2 };
    lemma_lex_next(src, q0, 0);
    assert(measure(st3) < measure(st));
    lemma_read_params(ps, st3, Seq::empty(), q0, vb);
    assert(Seq::<ParamV>::empty() + ps =~= ps);
    let st4 = p_params(st3, Seq::empty()).1;
    lemma_lex_next(src, vb, 0);
    assert(measure(st4) < measure(st));
    lemma_reparse_one(b, d + 1, st4, log, vb);
    let st5 = p_expr(st4, log).1;
    lemma_add_vars_shape(st3.scopes, ps);
    assert(pop_scope(st5.scopes) =~= st.scopes);
    assert(end_of(b, d + 1, vb) == end_of(e, d, c));
    assert(p_expr(st, log) == p_define(st, log));
}

#[verifier::rlimit(60)]
/// A printed exported definition reads back: the grammar reads the export
/// mark, then the definition, and marks it exported.
proof fn lemma_reparse_export(e: ExprV, d: nat, st: PState, log: Seq<Answer>, c: int)
    requires
        reparses(e),
        free_in(e, st.scopes, st.imported),
        e is Define,
        e->Define_3,
        printed_at(e, d, st.src, c),
        ahead_at(st, c),
        lex_next(st.src, end_of(e, d, c), 0).0 is Tok,
    ensures
        p_expr(st, log).0 == Ok::<ExprV, crate::compiler::error::ErrorView>(e),
        ahead_at(p_expr(st, log).1, end_of(e, d, c)),
        same_context(p_expr(st, log).1, st),
    decreases size(e), 1nat,
{
    let src = st.src;
    let inner = ExprV::Define(e->Define_0, e->Define_1, e->Define_2, false);
    let t = pretty(e, d);
    let ti = pretty(inner, d);
    reveal_strlit("X ");
    assert(t =~= seq!['X', ' '] + ti);
    assert(t.subrange(2, 2 + ti.len() as int) =~= ti);
    lemma_piece(src, c, t, 2, ti);
    assert(printed_at(inner, d, src, c + 2));
    lemma_define_head(e, d, src, c);
    lemma_first_token(e, d, src, c, 0);
    assert(st.cur == TokenV::Export);
    lemma_first_token(inner, d, src, c + 2, 0);
    assert(blank(src, c + 1, c + 2));
    lemma_consume_to(st, c + 2);
    let st1 = p_consume(st).1;
    lemma_lex_next(src, c + 2, 0);
    assert(measure(st1) < measure(st));
    assert(end_of(inner, d, c + 2) == end_of(e, d, c));
    lemma_reparse_define(inner, d, st1, log, c + 2);
    assert(p_expr(st, log) == p_export(st, log));
}

#[verifier::rlimit(80)]
/// Printed expressions read back one after another: the operand list
/// reader reads them all and leaves the token after the last one ahead.
proof fn lemma_reparse_list(
    es: Seq<ExprV>,
    ds: Seq<nat>,
    cs: Seq<int>,
    st: PState,
    log: Seq<Answer>,
    acc: Seq<ExprV>,
)
    requires
        es.len() >= 1,
        listed(es, ds, cs, st.src),
        forall|i: int| 0 <= i < es.len() ==> free_in(#[trigger] es[i], st.scopes, st.imported),
        ahead_at(st, cs[0]),
        lex_next(st.src, end_of(es.last(), ds.last(), cs.last()), 0).0 is Tok,
    ensures
        p_exprs(st, log, es.len(), acc).0 == Ok::<Seq<ExprV>, crate::compiler::error::ErrorView>(acc + es),
        ahead_at(p_exprs(st, log, es.len(), acc).1, end_of(es.last(), ds.last(), cs.last())),
        same_context(p_exprs(st, log, es.len(), acc).1, st),
    decreases sum_size(es), 3nat,
{
    let src = st.src;
    let e = es[0];
    let d = ds[0];
    let c = cs[0];
    let end0 = end_of(e, d, c);
    assert(reparses(e) && printed_at(e, d, src, c));
    if es.len() > 1 {
        assert(blank(src, end_of(es[0], ds[0], cs[0]), cs[1]));
        assert(reparses(es[1]) && printed_at(es[1], ds[1], src, cs[1]));
        lemma_first_token(es[1], ds[1], src, cs[1], 0);
        lemma_lex_ws_run(src, end0, cs[1]);
    } else {
        assert(es.last() == e && ds.last() == d && cs.last() == c);
    }
    assert(lex_next(src, end0, 0).0 is Tok);
    lemma_size_pos(e);
    assert(sum_size(es) == size(e) + sum_size(es.drop_first()));
    lemma_reparse_one(e, d, st, log, c);
    lemma_first_token(e, d, src, c, 0);
    let st2 = p_expr(st, log).1;
    lemma_progress(st, c, st2, end0);
    lemma_exprs_step(st, log, es.len(), acc, e, st2);
    if es.len() == 1 {
        assert(acc.push(e) =~= acc + es);
    } else {
        lemma_ahead_blank(st2, end0, cs[1]);
        let es2 = es.drop_first();
        let ds2 = ds.drop_first();
        let cs2 = cs.drop_first();
        assert(listed(es2, ds2, cs2, src)) by {
            assert forall|i: int| 0 <= i < es2.len() implies reparses(#[trigger] es2[i]) by {
                assert(es2[i] == es[i + 1]);
            }
            assert forall|i: int| 0 <= i < es2.len() implies printed_at(#[trigger] es2[i], ds2[i], src, cs2[i]) by {
                assert(es2[i] == es[i + 1]);
                assert(reparses(es[i + 1]) && printed_at(es[i + 1], ds[i + 1], src, cs[i + 1]));
            }
            assert forall|i: int| 0 <= i < es2.len() - 1 implies blank(
                src,
                #[trigger] end_of(es2[i], ds2[i], cs2[i]),
                cs2[i + 1],
            ) by {
                assert(blank(src, end_of(es[i + 1], ds[i + 1], cs[i + 1]), cs[i + 2]));
            }
        }
        assert(es2.last() == es.last() && ds2.last() == ds.last() && cs2.last() == cs.last());
        lemma_reparse_list(es2, ds2, cs2, st2, log, acc.push(e));
        assert(acc.push(e) + es2 =~= acc + es);
    }
}

/// Printed expressions parse back: for an expression built as `reparses`
/// describes whose names are not bound where they stand (`free_in`), the
/// grammar, run over the text the printer writes for it with the first
/// token read, gives that expression and leaves nothing after it.
pub proof fn lemma_printed_expression_parses_back(e: ExprV, d: nat, st: PState, log: Seq<Answer>)
    requires
        reparses(e),
        free_in(e, st.scopes, st.imported),
        st.src == pretty(e, d),
        valid(st),
        lex_next(st.src, 0, st.line).0 == Lexed::Tok(st.cur),
        lex_next(st.src, 0, st.line).1 == st.pos,
    ensures
        p_expr(st, log).0 == Ok::<ExprV, crate::compiler::error::ErrorView>(e),
        p_expr(st, log).1.cur == TokenV::EOF,
{
    let src = st.src;
    let n = src.len() as int;
    lemma_lex_line_free(src, 0, st.line);
    assert(printed_at(e, d, src, 0)) by {
        assert(src.subrange(0, n) =~= src);
    }
    assert(skip_ws(src, n, 0) == (n, 0int));
    assert(trivia_end(src, n, 0) == (n, 0int));
    assert(lex_next(src, n, 0).0 == Lexed::Tok(TokenV::EOF));
    assert(end_of(e, d, 0) == n);
    lemma_reparse_one(e, d, st, log, 0);
}

/// A shape declaration with a plain name and plain field names.
pub open spec fn shape_item(e: ExprV) -> bool {
    &&& e is Shape
    &&& plain_name(e->Shape_0)
    &&& forall|j: int| 0 <= j < e->Shape_1.len() ==> plain_name(#[trigger] e->Shape_1[j])
}

/// A module item whose printed text reads back: an expression as
/// `reparses` describes, or a shape declaration.
pub open spec fn item_reads(e: ExprV) -> bool {
    reparses(e) || shape_item(e) || import_item(e) || e is TimeNow
}

/// An expression whose text starts with `+` or `-`: an addition or a
/// subtraction.
pub open spec fn opens_with_sign(e: ExprV) -> bool {
    e matches ExprV::BinaryOp(op, _, _) && (op is Add || op is Sub)
}

/// Only an addition or a subtraction starts with a sign.
proof fn lemma_head_sign(e: ExprV)
    requires
        reparses(e),
    ensures
        (head_token(e) is Add || head_token(e) is Sub) ==> opens_with_sign(e),
{
}

/// The token of a printed clock read: `tn`, alone.
proof fn lemma_time_first(s: Seq<char>, c: int)
    requires
        printed_at(ExprV::TimeNow, 0, s, c),
    ensures
        lex_next(s, c, 0) == (Lexed::Tok(TokenV::TimeNow), c + 2, 0int),
        pretty(ExprV::TimeNow, 0).len() == 2,
{
    reveal_strlit("tn");
    let w = pretty(ExprV::TimeNow, 0);
    assert(w =~= seq!['t', 'n']);
    assert(keyword(w) == TokenV::TimeNow);
    lemma_word(s, c, w, 0);
}

/// A printed clock read reads back, when no sign follows it (which would
/// make it time arithmetic).
proof fn lemma_reparse_time_now(st: PState, log: Seq<Answer>, c: int)
    requires
        printed_at(ExprV::TimeNow, 0, st.src, c),
        ahead_at(st, c),
        lex_next(st.src, end_of(ExprV::TimeNow, 0, c), 0).0 is Tok,
        !(lex_next(st.src, end_of(ExprV::TimeNow, 0, c), 0).0->Tok_0 is Add),
        !(lex_next(st.src, end_of(ExprV::TimeNow, 0, c), 0).0->Tok_0 is Sub),
    ensures
        p_expr(st, log).0 == Ok::<ExprV, crate::compiler::error::ErrorView>(ExprV::TimeNow),
        ahead_at(p_expr(st, log).1, end_of(ExprV::TimeNow, 0, c)),
        same_context(p_expr(st, log).1, st),
{
    let src = st.src;
    lemma_time_first(src, c);
    let end = end_of(ExprV::TimeNow, 0, c);
    assert(blank(src, end, end));
    lemma_consume_to(st, end);
    assert(p_expr(st, log) == crate::compiler::grammar::p_time_now(st, log));
}

/// An import of a function, with plain module and symbol names.
pub open spec fn import_item(e: ExprV) -> bool {
    &&& e is Import
    &&& plain_name(e->Import_0)
    &&& plain_name(e->Import_1)
}

/// Entry `k` of the resolver log answers the question for the module of the
/// import `e`, asked with `paths` and `filename`, by a signature in which the
/// imported symbol is a function of the arity `e` records, and no shape.
pub open spec fn answers_import(
    log: Seq<Answer>,
    k: nat,
    e: ExprV,
    paths: Seq<Seq<char>>,
    filename: Seq<char>,
) -> bool {
    let r = reply_to(log, k, e->Import_0, paths, filename);
    &&& r is Found
    &&& find_shape(sig_of(r->Found_0).shapes, e->Import_1) is None
    &&& find_func(sig_of(r->Found_0).funcs, e->Import_1) == Some(e->Import_2)
}

/// How many of `es` are imports.
pub open spec fn n_imports(es: Seq<ExprV>) -> nat
    decreases es.len(),
{
    if es.len() == 0 {
        0
    } else {
        (if es[0] is Import { 1nat } else { 0nat }) + n_imports(es.drop_first())
    }
}

/// The first token of a printed import: `I`.
proof fn lemma_import_first(e: ExprV, s: Seq<char>, c: int)
    requires
        import_item(e),
        printed_at(e, 0, s, c),
    ensures
        lex_next(s, c, 0) == (Lexed::Tok(TokenV::Import), c + 1, 0int),
        4 <= pretty(e, 0).len(),
{
    let t = pretty(e, 0);
    reveal_strlit("I ");
    reveal_strlit(" ");
    assert(t =~= seq!['I', ' '] + e->Import_0 + seq![' '] + e->Import_1);
    lemma_char(s, c, t, 0);
    lemma_char(s, c, t, 1);
    assert(skip_ws(s, c, 0) == (c, 0int));
    assert(trivia_end(s, c, 0) == (c, 0int));
}

/// A printed import of a function reads back, when the resolver's next
/// answer, to the question for its module with the parser's import paths and
/// file name, gives the symbol as a function of the recorded arity.
proof fn lemma_reparse_import(e: ExprV, st: PState, log: Seq<Answer>, c: int)
    requires
        import_item(e),
        printed_at(e, 0, st.src, c),
        ahead_at(st, c),
        lex_next(st.src, end_of(e, 0, c), 0).0 is Tok,
        answers_import(log, st.nresp, e, st.paths, st.filename),
    ensures
        p_expr(st, log).0 == Ok::<ExprV, crate::compiler::error::ErrorView>(e),
        ahead_at(p_expr(st, log).1, end_of(e, 0, c)),
        same_context(PState { nresp: st.nresp, ..p_expr(st, log).1 }, st),
        p_expr(st, log).1.nresp == st.nresp + 1,
{
    let src = st.src;
    let m = e->Import_0;
    let y = e->Import_1;
    let t = pretty(e, 0);
    reveal_strlit("I ");
    reveal_strlit(" ");
    assert(t =~= seq!['I', ' '] + m + seq![' '] + y);
    lemma_import_first(e, src, c);
    let q0 = c + 2 + m.len();
    let end = end_of(e, 0, c);
    assert(end == q0 + 1 + y.len());
    assert(t.subrange(2, 2 + m.len() as int) =~= m);
    lemma_piece(src, c, t, 2, m);
    lemma_char(src, c, t, 2 + m.len() as int);
    assert(t.subrange(3 + m.len() as int, t.len() as int) =~= y);
    lemma_piece(src, c, t, 3 + m.len() as int, y);
    lemma_name(src, c + 2, m, 0);
    lemma_name(src, q0 + 1, y, 0);
    lemma_char(src, c, t, 1);
    assert(blank(src, c + 1, c + 2));
    lemma_consume_to(st, c + 2);
    let st1 = p_consume(st).1;
    assert(blank(src, q0, q0 + 1));
    lemma_consume_to(st1, q0 + 1);
    let st2 = p_consume(st1).1;
    assert(p_module_name(st1) == (Ok::<Seq<char>, crate::compiler::error::ErrorView>(m), st2));
    assert(blank(src, end, end));
    lemma_consume_to(st2, end);
    let st3 = p_consume(st2).1;
    assert(p_ident(st2) == (Ok::<Seq<char>, crate::compiler::error::ErrorView>(y), st3));
    assert(p_expr(st, log) == p_import(st, log));
}

/// The fields of a shape are written each as a space and the name, from
/// the front.
proof fn lemma_fields_text_front(fs: Seq<Seq<char>>)
    requires
        fs.len() >= 1,
    ensures
        fields_text(fs) == seq![' '] + fs[0] + fields_text(fs.drop_first()),
    decreases fs.len(),
{
    let q = fs.drop_last();
    if fs.len() == 1 {
        assert(fields_text(q) == Seq::<char>::empty());
        assert(fs.drop_first() =~= Seq::<Seq<char>>::empty());
        assert(fields_text(fs.drop_first()) == Seq::<char>::empty());
        assert(fields_text(fs) =~= seq![' '] + fs[0] + fields_text(fs.drop_first()));
    } else {
        lemma_fields_text_front(q);
        let r = fs.drop_first();
        assert(r.drop_last() =~= q.drop_first());
        assert(r.last() == fs.last());
        assert(q[0] == fs[0]);
        assert(fields_text(fs) =~= seq![' '] + fs[0] + fields_text(fs.drop_first()));
    }
}

#[verifier::rlimit(50)]
/// Printed field names read back: from `q`, where their text starts, the
/// field reader takes each name and stops at the token after them, which is
/// no name.
proof fn lemma_read_fields(fs: Seq<Seq<char>>, st: PState, acc: Seq<Seq<char>>, q: int)
    requires
        forall|j: int| 0 <= j < fs.len() ==> plain_name(#[trigger] fs[j]),
        ahead_at(st, q),
        q + fields_text(fs).len() <= st.src.len(),
        st.src.subrange(q, q + fields_text(fs).len()) == fields_text(fs),
        q + fields_text(fs).len() == st.src.len() || is_sep(st.src[q + fields_text(fs).len()]),
        lex_next(st.src, q + fields_text(fs).len(), 0).0 is Tok,
        !(lex_next(st.src, q + fields_text(fs).len(), 0).0->Tok_0 is Identifier),
    ensures
        p_fields(st, acc).0 == Ok::<Seq<Seq<char>>, crate::compiler::error::ErrorView>(acc + fs),
        ahead_at(p_fields(st, acc).1, q + fields_text(fs).len()),
        same_context(p_fields(st, acc).1, st),
    decreases fs.len(),
{
    let src = st.src;
    let ft = fields_text(fs);
    if fs.len() == 0 {
        assert(ft == Seq::<char>::empty());
        assert(acc + fs =~= acc);
    } else {
        lemma_fields_text_front(fs);
        let f0 = fs[0];
        let r = fs.drop_first();
        let fr = fields_text(r);
        let q2 = q + 1 + f0.len();
        assert(plain_name(fs[0]));
        assert(ft == seq![' '] + f0 + fr);
        lemma_char(src, q, ft, 0);
        assert(ft.subrange(1, 1 + f0.len() as int) =~= f0);
        lemma_piece(src, q, ft, 1, f0);
        assert(ft.subrange(1 + f0.len() as int, ft.len() as int) =~= fr);
        lemma_piece(src, q, ft, 1 + f0.len() as int, fr);
        assert forall|j: int| 0 <= j < r.len() implies plain_name(#[trigger] r[j]) by {
            assert(r[j] == fs[j + 1]);
        }
        if r.len() > 0 {
            lemma_fields_text_front(r);
            lemma_char(src, q2, fr, 0);
            assert(fr.subrange(1, 1 + r[0].len() as int) =~= r[0]);
            lemma_piece(src, q2, fr, 1, r[0]);
            if r.len() > 1 {
                lemma_fields_text_front(r.drop_first());
                lemma_char(src, q2, fr, 1 + r[0].len() as int);
            } else {
                assert(r.drop_first() =~= Seq::<Seq<char>>::empty());
                assert(fields_text(r.drop_first()) == Seq::<char>::empty());
            }
            assert(plain_name(r[0]));
            lemma_name(src, q2 + 1, r[0], 0);
            lemma_lex_ws(src, q2);
        } else {
            assert(fr == Seq::<char>::empty());
        }
        lemma_name(src, q + 1, f0, 0);
        lemma_lex_ws(src, q);
        lemma_consume_to(st, q2);
        let st1 = p_consume(st).1;
        lemma_lex_next(src, q2, 0);
        assert(measure(st1) < measure(st));
        lemma_read_fields(r, st1, acc.push(f0), q2);
        assert(acc.push(f0) + r =~= acc + fs);
    }
}

/// The first token of a printed shape declaration: `#`, or `X` when it is
/// exported.
proof fn lemma_shape_first(e: ExprV, s: Seq<char>, c: int)
    requires
        shape_item(e),
        printed_at(e, 0, s, c),
    ensures
        lex_next(s, c, 0) == (
            Lexed::Tok(if e->Shape_2 { TokenV::Export } else { TokenV::Shape }),
            c + 1,
            0int,
        ),
        2 <= pretty(e, 0).len(),
        s[c + 1] == ' ',
{
    let t = pretty(e, 0);
    reveal_strlit("X ");
    reveal_strlit("# ");
    assert(t[1] == ' ');
    lemma_char(s, c, t, 0);
    lemma_char(s, c, t, 1);
    assert(skip_ws(s, c, 0) == (c, 0int));
    assert(trivia_end(s, c, 0) == (c, 0int));
}

/// A printed shape declaration that is not exported reads back, when no
/// name follows it.
proof fn lemma_reparse_shape_plain(e: ExprV, st: PState, log: Seq<Answer>, c: int)
    requires
        shape_item(e),
        !e->Shape_2,
        printed_at(e, 0, st.src, c),
        ahead_at(st, c),
        lex_next(st.src, end_of(e, 0, c), 0).0 is Tok,
        !(lex_next(st.src, end_of(e, 0, c), 0).0->Tok_0 is Identifier),
    ensures
        p_expr(st, log).0 == Ok::<ExprV, crate::compiler::error::ErrorView>(e),
        ahead_at(p_expr(st, log).1, end_of(e, 0, c)),
        same_context(p_expr(st, log).1, st),
{
    let src = st.src;
    let n = e->Shape_0;
    let fs = e->Shape_1;
    let t = pretty(e, 0);
    let ft = fields_text(fs);
    let q0 = c + 2 + n.len();
    reveal_strlit("# ");
    assert(t =~= seq!['#', ' '] + n + ft);
    lemma_shape_first(e, src, c);
    assert(t.subrange(2, 2 + n.len() as int) =~= n);
    lemma_piece(src, c, t, 2, n);
    assert(t.subrange(2 + n.len() as int, t.len() as int) =~= ft);
    lemma_piece(src, c, t, 2 + n.len() as int, ft);
    if fs.len() > 0 {
        lemma_fields_text_front(fs);
        lemma_char(src, q0, ft, 0);
        assert(ft.subrange(1, 1 + fs[0].len() as int) =~= fs[0]);
        lemma_piece(src, q0, ft, 1, fs[0]);
        if fs.len() > 1 {
            lemma_fields_text_front(fs.drop_first());
            lemma_char(src, q0, ft, 1 + fs[0].len() as int);
        } else {
            assert(fs.drop_first() =~= Seq::<Seq<char>>::empty());
            assert(fields_text(fs.drop_first()) == Seq::<char>::empty());
        }
        assert(plain_name(fs[0]));
        lemma_name(src, q0 + 1, fs[0], 0);
        lemma_lex_ws(src, q0);
    } else {
        assert(ft == Seq::<char>::empty());
    }
    lemma_name(src, c + 2, n, 0);
    assert(blank(src, c + 1, c + 2));
    lemma_consume_to(st, c + 2);
    let st1 = p_consume(st).1;
    lemma_consume_to(st1, q0);
    let st2 = p_consume(st1).1;
    assert(crate::compiler::grammar::p_ident(st1) == (Ok::<Seq<char>, crate::compiler::error::ErrorView>(n), st2));
    lemma_read_fields(fs, st2, Seq::empty(), q0);
    assert(Seq::<Seq<char>>::empty() + fs =~= fs);
    assert(p_expr(st, log) == p_shape(st));
}

/// A printed shape declaration reads back, when no name follows it.
proof fn lemma_reparse_shape(e: ExprV, st: PState, log: Seq<Answer>, c: int)
    requires
        shape_item(e),
        printed_at(e, 0, st.src, c),
        ahead_at(st, c),
        lex_next(st.src, end_of(e, 0, c), 0).0 is Tok,
        !(lex_next(st.src, end_of(e, 0, c), 0).0->Tok_0 is Identifier),
    ensures
        p_expr(st, log).0 == Ok::<ExprV, crate::compiler::error::ErrorView>(e),
        ahead_at(p_expr(st, log).1, end_of(e, 0, c)),
        same_context(p_expr(st, log).1, st),
{
    if !e->Shape_2 {
        lemma_reparse_shape_plain(e, st, log, c);
    } else {
        let src = st.src;
        let inner = ExprV::Shape(e->Shape_0, e->Shape_1, false);
        let t = pretty(e, 0);
        let ti = pretty(inner, 0);
        reveal_strlit("X ");
        assert(t =~= seq!['X', ' '] + ti);
        assert(t.subrange(2, 2 + ti.len() as int) =~= ti);
        lemma_piece(src, c, t, 2, ti);
        assert(printed_at(inner, 0, src, c + 2));
        lemma_shape_first(e, src, c);
        lemma_shape_first(inner, src, c + 2);
        assert(blank(src, c + 1, c + 2));
        lemma_consume_to(st, c + 2);
        let st1 = p_consume(st).1;
        lemma_lex_next(src, c + 2, 0);
        assert(measure(st1) < measure(st));
        assert(end_of(inner, 0, c + 2) == end_of(e, 0, c));
        lemma_reparse_shape_plain(inner, st1, log, c + 2);
        assert(p_expr(st, log) == p_export(st, log));
    }
}

/// The text of a module as the printer writes it: its items at depth zero,
/// one per line.
pub open spec fn module_text(es: Seq<ExprV>) -> Seq<char>
    decreases es.len(),
{
    if es.len() == 0 {
        Seq::empty()
    } else if es.len() == 1 {
        pretty(es[0], 0)
    } else {
        pretty(es[0], 0) + seq!['\n'] + module_text(es.drop_first())
    }
}

/// The first item of a printed module stands at its start, followed by a
/// line break and the rest of the module, or by the end.
proof fn lemma_module_layout(es: Seq<ExprV>, src: Seq<char>, c: int)
    requires
        es.len() > 0,
        0 <= c,
        c + module_text(es).len() == src.len(),
        src.subrange(c, src.len() as int) == module_text(es),
    ensures
        printed_at(es[0], 0, src, c),
        es.len() == 1 ==> end_of(es[0], 0, c) == src.len(),
        es.len() > 1 ==> src[end_of(es[0], 0, c)] == '\n',
        es.len() > 1 ==> end_of(es[0], 0, c) + 1 + module_text(es.drop_first()).len() == src.len(),
        es.len() > 1 ==> src.subrange(end_of(es[0], 0, c) + 1, src.len() as int) == module_text(es.drop_first()),
{
    let t = module_text(es);
    let t0 = pretty(es[0], 0);
    let n0 = t0.len() as int;
    if es.len() == 1 {
        assert(src.subrange(c, c + n0) == t0);
    } else {
        let tr = module_text(es.drop_first());
        assert(t == t0 + seq!['\n'] + tr);
        assert(t.subrange(0, n0) =~= t0);
        lemma_piece(src, c, t, 0, t0);
        lemma_char(src, c, t, n0);
        assert(t.subrange(n0 + 1, n0 + 1 + tr.len()) =~= tr);
        lemma_piece(src, c, t, n0 + 1, tr);
    }
}

/// An item of a module that reads back in its place: it reads back, a
/// shape declaration is not followed by a bare name (which would be read as
/// one more field), and a clock read is not followed by an addition or a
/// subtraction (which would be read as time arithmetic).
pub open spec fn module_item(es: Seq<ExprV>, i: int) -> bool {
    &&& item_reads(es[i])
    &&& (shape_item(es[i]) && i + 1 < es.len() ==> !(es[i + 1] is Identifier))
    &&& (es[i] is TimeNow && i + 1 < es.len() ==> !opens_with_sign(es[i + 1]))
}

/// What is read at the start of a printed module item.
proof fn lemma_item_first(e: ExprV, s: Seq<char>, c: int)
    requires
        item_reads(e),
        printed_at(e, 0, s, c),
    ensures
        lex_next(s, c, 0).0 is Tok,
        !(lex_next(s, c, 0).0->Tok_0 is EOF),
        c < lex_next(s, c, 0).1 <= end_of(e, 0, c),
        !(e is Identifier) ==> !(lex_next(s, c, 0).0->Tok_0 is Identifier),
        (lex_next(s, c, 0).0->Tok_0 is Add || lex_next(s, c, 0).0->Tok_0 is Sub) ==> opens_with_sign(e),
{
    if shape_item(e) {
        lemma_shape_first(e, s, c);
    } else if import_item(e) {
        lemma_import_first(e, s, c);
    } else if e is TimeNow {
        lemma_time_first(s, c);
    } else {
        lemma_first_token(e, 0, s, c, 0);
        lemma_head_sign(e);
    }
    lemma_lex_next(s, c, 0);
}

#[verifier::rlimit(60)]
/// A printed module reads back: the module reader reads its items one after
/// another and stops at the end.
proof fn lemma_read_module(es: Seq<ExprV>, st: PState, log: Seq<Answer>, acc: Seq<ExprV>, c: int)
    requires
        forall|i: int| 0 <= i < es.len() ==> #[trigger] module_item(es, i),
        forall|i: int| 0 <= i < es.len() ==> free_in(#[trigger] es[i], st.scopes, st.imported),
        forall|i: int|
            0 <= i < es.len() && (#[trigger] es[i]) is Import ==> answers_import(
                log,
                st.nresp + n_imports(es.take(i)),
                es[i],
                st.paths,
                st.filename,
            ),
        0 <= c,
        c + module_text(es).len() == st.src.len(),
        st.src.subrange(c, st.src.len() as int) == module_text(es),
        ahead_at(st, c),
        st.generated == Seq::<ExprV>::empty(),
    ensures
        p_module(st, log, acc).0 == Ok::<Seq<ExprV>, crate::compiler::error::ErrorView>(acc + es),
        p_module(st, log, acc).1.cur == TokenV::EOF,
    decreases es.len(),
{
    let src = st.src;
    let n = src.len() as int;
    assert(skip_ws(src, n, 0) == (n, 0int));
    assert(trivia_end(src, n, 0) == (n, 0int));
    assert(lex_next(src, n, 0).0 == Lexed::Tok(TokenV::EOF));
    if es.len() == 0 {
        assert(module_text(es) == Seq::<char>::empty());
        assert(acc + es =~= acc);
    } else {
        lemma_module_layout(es, src, c);
        let e = es[0];
        let end0 = end_of(e, 0, c);
        assert(module_item(es, 0));
        lemma_item_first(e, src, c);
        if es.len() > 1 {
            let r = es.drop_first();
            assert(module_item(es, 1));
            assert(r[0] == es[1]);
            lemma_module_layout(r, src, end0 + 1);
            lemma_item_first(r[0], src, end0 + 1);
            assert(blank(src, end0, end0 + 1));
            lemma_lex_ws_run(src, end0, end0 + 1);
        }
        let k: nat = if e is Import { 1 } else { 0 };
        if shape_item(e) {
            lemma_reparse_shape(e, st, log, c);
        } else if e is TimeNow {
            lemma_reparse_time_now(st, log, c);
        } else if import_item(e) {
            assert(es.take(0) =~= Seq::<ExprV>::empty());
            assert(n_imports(es.take(0)) == 0);
            lemma_reparse_import(e, st, log, c);
        } else {
            assert(free_in(es[0], st.scopes, st.imported));
            lemma_reparse_one(e, 0, st, log, c);
        }
        let st1 = p_expr(st, log).1;
        assert(st1.nresp == st.nresp + k);
        assert(st1.paths == st.paths && st1.filename == st.filename && st1.scopes == st.scopes
            && st1.imported == st.imported && st1.src == st.src);
        lemma_progress(st, c, st1, end0);
        assert(PState { generated: Seq::empty(), ..st1 } == st1);
        assert(acc + st1.generated + seq![e] =~= acc.push(e));
        if es.len() == 1 {
            assert(st1.cur == TokenV::EOF);
            assert(acc.push(e) =~= acc + es);
        } else {
            let r = es.drop_first();
            lemma_ahead_blank(st1, end0, end0 + 1);
            assert forall|i: int| 0 <= i < r.len() implies #[trigger] module_item(r, i) by {
                assert(module_item(es, i + 1));
                assert(r[i] == es[i + 1]);
                if i + 1 < r.len() {
                    assert(r[i + 1] == es[i + 2]);
                }
            }
            assert forall|i: int| 0 <= i < r.len() implies free_in(#[trigger] r[i], st1.scopes, st1.imported) by {
                assert(r[i] == es[i + 1]);
            }
            assert forall|i: int| 0 <= i < r.len() && (#[trigger] r[i]) is Import implies answers_import(
                log,
                st1.nresp + n_imports(r.take(i)),
                r[i],
                st1.paths,
                st1.filename,
            ) by {
                assert(r[i] == es[i + 1]);
                assert(es.take(i + 1).drop_first() =~= r.take(i));
                assert(es.take(i + 1)[0] == e);
                assert(n_imports(es.take(i + 1)) == k + n_imports(r.take(i)));
            }
            lemma_read_module(r, st1, log, acc.push(e), end0 + 1);
            assert(acc.push(e) + r =~= acc + es);
        }
    }
}

/// Printed modules parse back: for a module whose items are expressions as
/// `reparses` describes, shape declarations, imports of functions or clock
/// reads (`module_item`), with their names not bound where they stand and no
/// import renaming their shapes, the module grammar, run over the text the
/// printer writes for it (its items one per line) with the first token read
/// and no synthesized function pending, gives those items and reaches the
/// end, provided the resolver, asked in turn for the module of each import
/// with the parser's import paths and file name, answers with a signature
/// that gives the symbol as a function of the recorded arity.
pub proof fn lemma_printed_module_parses_back(es: Seq<ExprV>, st: PState, log: Seq<Answer>)
    requires
        forall|i: int| 0 <= i < es.len() ==> #[trigger] module_item(es, i),
        forall|i: int| 0 <= i < es.len() ==> free_in(#[trigger] es[i], st.scopes, st.imported),
        forall|i: int|
            0 <= i < es.len() && (#[trigger] es[i]) is Import ==> answers_import(
                log,
                st.nresp + n_imports(es.take(i)),
                es[i],
                st.paths,
                st.filename,
            ),
        st.src == module_text(es),
        valid(st),
        lex_next(st.src, 0, st.line).0 == Lexed::Tok(st.cur),
        lex_next(st.src, 0, st.line).1 == st.pos,
        st.generated == Seq::<ExprV>::empty(),
    ensures
        p_module(st, log, Seq::empty()).0 == Ok::<Seq<ExprV>, crate::compiler::error::ErrorView>(es),
        p_module(st, log, Seq::empty()).1.cur == TokenV::EOF,
{
    let src = st.src;
    lemma_lex_line_free(src, 0, st.line);
    assert(src.subrange(0, src.len() as int) =~= src);
    lemma_read_module(es, st, log, Seq::empty(), 0);
    assert(Seq::<ExprV>::empty() + es =~= es);
}

} // verus!
