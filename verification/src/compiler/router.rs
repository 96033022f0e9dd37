//! The `rt` router form: `rt port n (method path handler)*n fallback` expands
//! to a recursive request loop that dispatches on method and path.

use vstd::prelude::*;
use crate::compiler::ast::{Expr, ExprV, Param, ParamV, view_exprs, lemma_view_exprs_push};
use crate::compiler::lexer::{Token, TokenV};
use crate::text::{nat_decimal, push_char, push_chars, push_str, push_u64, string_from_chars, string_of};

verus! {

/// The pieces of a text between `/` separators (always at least one).
pub open spec fn pieces_from(s: Seq<char>, i: int, cur: Seq<char>, acc: Seq<Seq<char>>) -> Seq<Seq<char>>
    decreases s.len() - i,
{
    if i < 0 || i >= s.len() {
        acc.push(cur)
    } else if s[i] == '/' {
        pieces_from(s, i + 1, Seq::empty(), acc.push(cur))
    } else {
        pieces_from(s, i + 1, cur.push(s[i]), acc)
    }
}

/// The `/`-separated segments of a path.
pub open spec fn segments(s: Seq<char>) -> Seq<Seq<char>> {
    pieces_from(s, 0, Seq::empty(), Seq::empty())
}

/// A path parameter segment: `:` followed by a name.
pub open spec fn is_param_seg(seg: Seq<char>) -> bool {
    seg.len() > 1 && seg[0] == ':'
}

/// The regular-expression piece of a segment.
pub open spec fn seg_pattern(seg: Seq<char>) -> Seq<char> {
    if seg.len() == 0 {
        Seq::empty()
    } else if is_param_seg(seg) {
        "[^/]+"@
    } else {
        seg
    }
}

/// The positions, counted among non-empty segments, of the parameter
/// segments among the first `n` segments.
pub open spec fn param_positions(segs: Seq<Seq<char>>, n: int) -> Seq<nat>
    decreases n,
{
    if n <= 0 || n > segs.len() {
        Seq::empty()
    } else if is_param_seg(segs[n - 1]) {
        param_positions(segs, n - 1).push(nonempty_count(segs, n - 1))
    } else {
        param_positions(segs, n - 1)
    }
}

/// How many of the first `n` segments are non-empty.
pub open spec fn nonempty_count(segs: Seq<Seq<char>>, n: int) -> nat
    decreases n,
{
    if n <= 0 || n > segs.len() {
        0
    } else {
        nonempty_count(segs, n - 1) + if segs[n - 1].len() > 0 { 1nat } else { 0nat }
    }
}

/// The patterns of the first `n` segments joined with `/`.
pub open spec fn join_patterns(segs: Seq<Seq<char>>, n: int) -> Seq<char>
    decreases n,
{
    if n <= 0 || n > segs.len() {
        Seq::empty()
    } else if n == 1 {
        seg_pattern(segs[0])
    } else {
        join_patterns(segs, n - 1) + seq!['/'] + seg_pattern(segs[n - 1])
    }
}

/// The anchored pattern that a path template matches, with the segment
/// positions of its parameters.
pub open spec fn path_template(s: Seq<char>) -> (Seq<char>, Seq<nat>) {
    let segs = segments(s);
    (seq!['^'] + join_patterns(segs, segs.len() as int) + seq!['$'], param_positions(segs, segs.len() as int))
}

pub open spec fn db(i: usize) -> Box<ExprV> {
    Box::new(ExprV::DeBruijn(i))
}

pub open spec fn bx(e: ExprV) -> Box<ExprV> {
    Box::new(e)
}

/// The argument that passes the path segment at position `i`.
pub open spec fn param_arg(i: nat) -> ExprV {
    ExprV::Split(bx(ExprV::Borrow(db(1))), bx(ExprV::String("/"@)), bx(ExprV::Integer(i as i64)))
}

/// The handler arguments: the moved request, then each path parameter.
pub open spec fn handler_args(idxs: Seq<nat>) -> Seq<ExprV> {
    seq![ExprV::Move(db(3))] + idxs.map_values(|i: nat| param_arg(i))
}

/// One route's branch in front of the rest of the dispatch tree; `None` when
/// the method or the path is not a string literal.
pub open spec fn route_branch(route: (ExprV, ExprV, ExprV), recurse: ExprV, rest: ExprV) -> Option<ExprV> {
    match (route.0, route.1) {
        (ExprV::String(m), ExprV::String(p)) => {
            let (pat, idxs) = path_template(p);
            let cond = ExprV::BinaryOp(
                TokenV::BitAnd,
                bx(ExprV::Reg(bx(ExprV::Borrow(db(0))), bx(ExprV::String(seq!['^'] + m + seq!['$'])))),
                bx(ExprV::Reg(bx(ExprV::Borrow(db(1))), bx(ExprV::String(pat)))),
            );
            let branch = ExprV::Sequence(bx(ExprV::Apply(bx(route.2), handler_args(idxs))), bx(recurse));
            Some(ExprV::If(bx(cond), bx(branch), bx(rest)))
        },
        _ => None,
    }
}

/// Folds the first `n` routes, the last one first, in front of `tree`.
pub open spec fn fold_routes(routes: Seq<(ExprV, ExprV, ExprV)>, n: int, recurse: ExprV, tree: ExprV) -> Option<ExprV>
    decreases n,
{
    if n <= 0 || n > routes.len() {
        Some(tree)
    } else {
        match route_branch(routes[n - 1], recurse, tree) {
            None => None,
            Some(t) => fold_routes(routes, n - 1, recurse, t),
        }
    }
}

/// `1 <- (text ++ $ slot)` followed by a newline: a debug line.
pub open spec fn log_line(label: Seq<char>, slot: usize) -> ExprV {
    ExprV::Sequence(
        bx(ExprV::Write(bx(ExprV::Integer(1)), bx(ExprV::Cat(bx(ExprV::String(label)), bx(ExprV::Borrow(db(slot))))))),
        bx(ExprV::Write(bx(ExprV::Integer(1)), bx(ExprV::String("\n"@)))),
    )
}

/// The name of the loop function with number `idx`.
pub open spec fn loop_name(idx: nat) -> Seq<char> {
    "_rt_loop_"@ + nat_decimal(idx)
}

/// The expansion: the entry expression and the loop definition; `None` when
/// a route's method or path is not a string literal.
pub open spec fn router_expansion(port: ExprV, routes: Seq<(ExprV, ExprV, ExprV)>, fallback: ExprV, idx: nat) -> Option<
    (ExprV, ExprV),
> {
    let name = loop_name(idx);
    let recurse = recurse_call(name);
    let tree0 = ExprV::Sequence(bx(ExprV::Apply(bx(fallback), seq![ExprV::Move(db(3))])), bx(recurse));
    match fold_routes(routes, routes.len() as int, recurse, tree0) {
        None => None,
        Some(tree) => {
            let debug = ExprV::Sequence(
                bx(log_line("raw_path: "@, 2)),
                bx(ExprV::Sequence(bx(log_line("path: "@, 1)), bx(log_line("method: "@, 0)))),
            );
            let dispatch = ExprV::Sequence(bx(debug), bx(tree));
            let method_let = ExprV::Let(
                "method"@,
                bx(ExprV::HttpServer(bx(ExprV::Integer(1)), bx(ExprV::Borrow(db(2))))),
                bx(dispatch),
            );
            let path_let = ExprV::Let(
                "path"@,
                bx(ExprV::Split(bx(ExprV::Borrow(db(0))), bx(ExprV::String("?"@)), bx(ExprV::Integer(0)))),
                bx(method_let),
            );
            let raw_let = ExprV::Let(
                "raw_path"@,
                bx(ExprV::HttpServer(bx(ExprV::Integer(2)), bx(ExprV::Borrow(db(0))))),
                bx(path_let),
            );
            let req_let = ExprV::Let("req"@, bx(ExprV::Read(bx(ExprV::Borrow(db(0))))), bx(raw_let));
            let def = ExprV::Define(name, seq![ParamV { name: "server"@, expand: false }], bx(req_let), false);
            let entry = ExprV::Let(
                "s"@,
                bx(ExprV::HttpServer(bx(ExprV::Integer(0)), bx(port))),
                bx(ExprV::Apply(bx(ExprV::Identifier(name)), seq![ExprV::Move(db(0))])),
            );
            Some((entry, def))
        },
    }
}

fn mk_db(i: usize) -> (e: Box<Expr>)
    ensures
        (*e)@ == ExprV::DeBruijn(i),
{
    Box::new(Expr::DeBruijn(i))
}

fn mk_str(s: &str) -> (e: Box<Expr>)
    ensures
        (*e)@ == ExprV::String(s@),
{
    Box::new(Expr::String(string_of(s)))
}

fn mk_int(i: i64) -> (e: Box<Expr>)
    ensures
        (*e)@ == ExprV::Integer(i),
{
    Box::new(Expr::Integer(i))
}

fn mk_borrow(i: usize) -> (e: Box<Expr>)
    ensures
        (*e)@ == ExprV::Borrow(db(i)),
{
    let d = mk_db(i);
    let e = Expr::Borrow(d);
    assert(e@ == ExprV::Borrow(bx((*d)@)));
    Box::new(e)
}

fn mk_move(i: usize) -> (e: Expr)
    ensures
        e@ == ExprV::Move(db(i)),
{
    let d = mk_db(i);
    let e = Expr::Move(d);
    assert(e@ == ExprV::Move(bx((*d)@)));
    e
}

fn one_vec(e: Expr) -> (v: Vec<Expr>)
    ensures
        view_exprs(v@) == seq![e@],
{
    let mut v: Vec<Expr> = Vec::new();
    let ghost e0 = e;
    v.push(e);
    proof {
        lemma_view_exprs_push(Seq::empty(), e0);
        assert(v@ == Seq::<Expr>::empty().push(e0));
        assert(view_exprs(Seq::<Expr>::empty()) =~= Seq::<ExprV>::empty());
        assert(Seq::<ExprV>::empty().push(e0@) =~= seq![e0@]);
    }
    v
}

fn mk_log_line(label: &str, slot: usize) -> (e: Expr)
    ensures
        e@ == log_line(label@, slot),
{
    let lab = mk_str(label);
    let b = mk_borrow(slot);
    let cat = Expr::Cat(lab, b);
    assert(cat@ == ExprV::Cat(bx(ExprV::String(label@)), bx(ExprV::Borrow(db(slot)))));
    let one = mk_int(1);
    let w1 = Expr::Write(one, Box::new(cat));
    let ghost c = cat@;
    assert(w1@ == ExprV::Write(bx(ExprV::Integer(1)), bx(c)));
    let one2 = mk_int(1);
    let nl = mk_str("\n");
    let w2 = Expr::Write(one2, nl);
    assert(w2@ == ExprV::Write(bx(ExprV::Integer(1)), bx(ExprV::String("\n"@))));
    let ghost v1 = w1@;
    let ghost v2 = w2@;
    let e = Expr::Sequence(Box::new(w1), Box::new(w2));
    assert(e@ == ExprV::Sequence(bx(v1), bx(v2)));
    e
}

/// Splits a path at `/`.
fn split_slash(s: &Vec<char>) -> (r: Vec<Vec<char>>)
    ensures
        r@.map_values(|l: Vec<char>| l@) == segments(s@),
{
    let mut acc: Vec<Vec<char>> = Vec::new();
    let mut cur: Vec<char> = Vec::new();
    let mut i: usize = 0;
    proof {
        assert(acc@.map_values(|l: Vec<char>| l@) =~= Seq::<Seq<char>>::empty());
        assert(cur@ =~= Seq::<char>::empty());
    }
    while i < s.len()
        invariant
            i <= s@.len(),
            pieces_from(s@, i as int, cur@, acc@.map_values(|l: Vec<char>| l@)) == segments(s@),
        decreases s@.len() - i,
    {
        if s[i] == '/' {
            let ghost old_acc = acc@;
            let piece = cur;
            cur = Vec::new();
            acc.push(piece);
            proof {
                assert(acc@.map_values(|l: Vec<char>| l@) =~= old_acc.map_values(|l: Vec<char>| l@).push(piece@));
                assert(cur@ =~= Seq::<char>::empty());
            }
        } else {
            cur.push(s[i]);
        }
        i = i + 1;
    }
    let ghost old_acc = acc@;
    let piece = cur;
    acc.push(piece);
    proof {
        assert(acc@.map_values(|l: Vec<char>| l@) =~= old_acc.map_values(|l: Vec<char>| l@).push(piece@));
    }
    acc
}

/// The pattern and parameter positions of a path template.
fn build_template(path: &String) -> (r: (String, Vec<usize>))
    ensures
        r.0@ == path_template(path@).0,
        r.1@.map_values(|i: usize| i as nat) == path_template(path@).1,
{
    let chars = crate::text::chars_of(path.as_str());
    let segs = split_slash(&chars);
    let ghost sv = segs@.map_values(|l: Vec<char>| l@);
    let mut pat: Vec<char> = Vec::new();
    let mut idxs: Vec<usize> = Vec::new();
    let mut count: usize = 0;
    let mut i: usize = 0;
    proof {
        assert(pat@ =~= Seq::<char>::empty());
        assert(idxs@.map_values(|i: usize| i as nat) =~= Seq::<nat>::empty());
    }
    while i < segs.len()
        invariant
            i <= segs@.len(),
            sv == segs@.map_values(|l: Vec<char>| l@),
            sv == segments(path@),
            pat@ == join_patterns(sv, i as int),
            idxs@.map_values(|i: usize| i as nat) == param_positions(sv, i as int),
            count == nonempty_count(sv, i as int),
            count <= i,
        decreases segs@.len() - i,
    {
        let seg = &segs[i];
        assert(sv[i as int] == seg@);
        if i > 0 {
            pat.push('/');
        }
        let ghost before = pat@;
        if seg.len() == 0 {
        } else if seg.len() > 1 && seg[0] == ':' {
            proof {
                reveal_strlit("[^/]+");
            }
            pat.push('[');
            pat.push('^');
            pat.push('/');
            pat.push(']');
            pat.push('+');
            assert(pat@ =~= before + "[^/]+"@);
            let ghost old_idxs = idxs@;
            idxs.push(count);
            proof {
                assert(idxs@.map_values(|i: usize| i as nat) =~= old_idxs.map_values(|i: usize| i as nat).push(count as nat));
            }
        } else {
            let mut k: usize = 0;
            while k < seg.len()
                invariant
                    k <= seg@.len(),
                    pat@ == before + seg@.take(k as int),
                decreases seg@.len() - k,
            {
                pat.push(seg[k]);
                proof {
                    assert(seg@.take(k + 1) == seg@.take(k as int).push(seg@[k as int]));
                }
                k = k + 1;
            }
            assert(seg@.take(seg@.len() as int) == seg@);
        }
        if seg.len() > 0 {
            count = count + 1;
        }
        proof {
            if i == 0 {
                assert(pat@ =~= seg_pattern(seg@));
            } else {
                assert(pat@ =~= join_patterns(sv, i as int) + seq!['/'] + seg_pattern(seg@));
            }
        }
        i = i + 1;
    }
    let mut out = String::new();
    push_char(&mut out, '^');
    push_chars(&mut out, &pat);
    push_char(&mut out, '$');
    (out, idxs)
}

fn mk_param_arg(i: usize) -> (e: Expr)
    ensures
        e@ == param_arg(i as nat),
{
    let b = mk_borrow(1);
    let sl = mk_str("/");
    let n = mk_int(i as i64);
    let e = Expr::Split(b, sl, n);
    assert(e@ == ExprV::Split(bx(ExprV::Borrow(db(1))), bx(ExprV::String("/"@)), bx(ExprV::Integer(i as i64))));
    e
}

/// Builds the handler arguments.
fn build_args(idxs: &Vec<usize>) -> (r: Vec<Expr>)
    ensures
        view_exprs(r@) == handler_args(idxs@.map_values(|i: usize| i as nat)),
{
    let ghost iv = idxs@.map_values(|i: usize| i as nat);
    let mut r = one_vec(mk_move(3));
    let mut i: usize = 0;
    proof {
        assert(iv.take(0).map_values(|i: nat| param_arg(i)) =~= Seq::<ExprV>::empty());
        assert(handler_args(iv.take(0)) =~= seq![ExprV::Move(db(3))]);
    }
    while i < idxs.len()
        invariant
            i <= idxs@.len(),
            iv == idxs@.map_values(|i: usize| i as nat),
            view_exprs(r@) == handler_args(iv.take(i as int)),
        decreases idxs@.len() - i,
    {
        let e = mk_param_arg(idxs[i]);
        let ghost old_r = r@;
        let ghost e0 = e;
        r.push(e);
        proof {
            lemma_view_exprs_push(old_r, e0);
            assert(iv.take(i + 1) == iv.take(i as int).push(iv[i as int]));
            assert(iv.take(i + 1).map_values(|i: nat| param_arg(i)) =~= iv.take(i as int).map_values(
                |i: nat| param_arg(i),
            ).push(param_arg(iv[i as int])));
            assert(handler_args(iv.take(i + 1)) =~= handler_args(iv.take(i as int)).push(e0@));
        }
        i = i + 1;
    }
    proof {
        assert(iv.take(idxs@.len() as int) == iv);
    }
    r
}

/// The views of routes.
pub open spec fn view_routes(v: Seq<(Expr, Expr, Expr)>) -> Seq<(ExprV, ExprV, ExprV)> {
    v.map_values(|r: (Expr, Expr, Expr)| (r.0@, r.1@, r.2@))
}

/// The recursive call of the loop function.
pub open spec fn recurse_call(name: Seq<char>) -> ExprV {
    ExprV::Apply(bx(ExprV::Identifier(name)), seq![ExprV::Move(db(4))])
}

fn mk_recurse(name: &String) -> (e: Expr)
    ensures
        e@ == recurse_call(name@),
{
    let id = Expr::Identifier(crate::text::copy_string(name));
    assert(id@ == ExprV::Identifier(name@));
    let mv = mk_move(4);
    let ghost mvv = mv@;
    let args = one_vec(mv);
    let e = Expr::Apply(Box::new(id), args);
    assert(e@ == ExprV::Apply(bx(ExprV::Identifier(name@)), seq![mvv]));
    e
}

fn mk_branch(m: String, p: String, h: Expr, name: &String, rest: Expr) -> (e: Expr)
    ensures
        route_branch((ExprV::String(m@), ExprV::String(p@), h@), recurse_call(name@), rest@) == Some(e@),
{
    let mut mp = String::new();
    push_char(&mut mp, '^');
    push_str(&mut mp, m.as_str());
    push_char(&mut mp, '$');
    assert(mp@ =~= seq!['^'] + m@ + seq!['$']);
    let (pat, idxs) = build_template(&p);
    let ghost patv = pat@;
    let ghost mpv = mp@;
    let b0 = mk_borrow(0);
    let s0 = Expr::String(mp);
    assert(s0@ == ExprV::String(mpv));
    let r1 = Expr::Reg(b0, Box::new(s0));
    assert(r1@ == ExprV::Reg(bx(ExprV::Borrow(db(0))), bx(ExprV::String(mpv))));
    let b1 = mk_borrow(1);
    let s1 = Expr::String(pat);
    assert(s1@ == ExprV::String(patv));
    let r2 = Expr::Reg(b1, Box::new(s1));
    assert(r2@ == ExprV::Reg(bx(ExprV::Borrow(db(1))), bx(ExprV::String(patv))));
    let ghost r1v = r1@;
    let ghost r2v = r2@;
    let cond = Expr::BinaryOp(Token::BitAnd, Box::new(r1), Box::new(r2));
    assert(cond@ == ExprV::BinaryOp(TokenV::BitAnd, bx(r1v), bx(r2v)));
    let args = build_args(&idxs);
    let ghost argsv = view_exprs(args@);
    let ghost hv = h@;
    let call = Expr::Apply(Box::new(h), args);
    assert(call@ == ExprV::Apply(bx(hv), argsv));
    let rec = mk_recurse(name);
    let ghost callv = call@;
    let ghost recv = rec@;
    let branch = Expr::Sequence(Box::new(call), Box::new(rec));
    assert(branch@ == ExprV::Sequence(bx(callv), bx(recv)));
    let ghost condv = cond@;
    let ghost branchv = branch@;
    let ghost restv = rest@;
    let e = Expr::If(Box::new(cond), Box::new(branch), Box::new(rest));
    assert(e@ == ExprV::If(bx(condv), bx(branchv), bx(restv)));
    e
}

/// The debug lines and the nested bindings of the loop body around `tree`.
pub open spec fn loop_body(tree: ExprV) -> ExprV {
    let debug = ExprV::Sequence(
        bx(log_line("raw_path: "@, 2)),
        bx(ExprV::Sequence(bx(log_line("path: "@, 1)), bx(log_line("method: "@, 0)))),
    );
    let dispatch = ExprV::Sequence(bx(debug), bx(tree));
    let method_let = ExprV::Let(
        "method"@,
        bx(ExprV::HttpServer(bx(ExprV::Integer(1)), bx(ExprV::Borrow(db(2))))),
        bx(dispatch),
    );
    let path_let = ExprV::Let(
        "path"@,
        bx(ExprV::Split(bx(ExprV::Borrow(db(0))), bx(ExprV::String("?"@)), bx(ExprV::Integer(0)))),
        bx(method_let),
    );
    let raw_let = ExprV::Let(
        "raw_path"@,
        bx(ExprV::HttpServer(bx(ExprV::Integer(2)), bx(ExprV::Borrow(db(0))))),
        bx(path_let),
    );
    ExprV::Let("req"@, bx(ExprV::Read(bx(ExprV::Borrow(db(0))))), bx(raw_let))
}

fn mk_loop_body(tree: Expr) -> (e: Expr)
    ensures
        e@ == loop_body(tree@),
{
    let ghost tv = tree@;
    let l1 = mk_log_line("raw_path: ", 2);
    let l2 = mk_log_line("path: ", 1);
    let l3 = mk_log_line("method: ", 0);
    let ghost (v1, v2, v3) = (l1@, l2@, l3@);
    let inner = Expr::Sequence(Box::new(l2), Box::new(l3));
    assert(inner@ == ExprV::Sequence(bx(v2), bx(v3)));
    let ghost iv = inner@;
    let debug = Expr::Sequence(Box::new(l1), Box::new(inner));
    assert(debug@ == ExprV::Sequence(bx(v1), bx(iv)));
    let ghost dv = debug@;
    let dispatch = Expr::Sequence(Box::new(debug), Box::new(tree));
    assert(dispatch@ == ExprV::Sequence(bx(dv), bx(tv)));
    let ghost dispv = dispatch@;
    let hs1 = Expr::HttpServer(mk_int(1), mk_borrow(2));
    assert(hs1@ == ExprV::HttpServer(bx(ExprV::Integer(1)), bx(ExprV::Borrow(db(2)))));
    let ghost hs1v = hs1@;
    let method_let = Expr::Let(string_of("method"), Box::new(hs1), Box::new(dispatch));
    assert(method_let@ == ExprV::Let("method"@, bx(hs1v), bx(dispv)));
    let ghost mlv = method_let@;
    let sp = Expr::Split(mk_borrow(0), mk_str("?"), mk_int(0));
    assert(sp@ == ExprV::Split(bx(ExprV::Borrow(db(0))), bx(ExprV::String("?"@)), bx(ExprV::Integer(0))));
    let ghost spv = sp@;
    let path_let = Expr::Let(string_of("path"), Box::new(sp), Box::new(method_let));
    assert(path_let@ == ExprV::Let("path"@, bx(spv), bx(mlv)));
    let ghost plv = path_let@;
    let hs2 = Expr::HttpServer(mk_int(2), mk_borrow(0));
    assert(hs2@ == ExprV::HttpServer(bx(ExprV::Integer(2)), bx(ExprV::Borrow(db(0)))));
    let ghost hs2v = hs2@;
    let raw_let = Expr::Let(string_of("raw_path"), Box::new(hs2), Box::new(path_let));
    assert(raw_let@ == ExprV::Let("raw_path"@, bx(hs2v), bx(plv)));
    let ghost rlv = raw_let@;
    let rd = Expr::Read(mk_borrow(0));
    assert(rd@ == ExprV::Read(bx(ExprV::Borrow(db(0)))));
    let ghost rdv = rd@;
    let e = Expr::Let(string_of("req"), Box::new(rd), Box::new(raw_let));
    assert(e@ == ExprV::Let("req"@, bx(rdv), bx(rlv)));
    e
}

pub proof fn lemma_expansion(port: ExprV, routes: Seq<(ExprV, ExprV, ExprV)>, fallback: ExprV, idx: nat)
    ensures
        router_expansion(port, routes, fallback, idx) == match fold_routes(
            routes,
            routes.len() as int,
            recurse_call(loop_name(idx)),
            ExprV::Sequence(bx(ExprV::Apply(bx(fallback), seq![ExprV::Move(db(3))])), bx(recurse_call(loop_name(idx)))),
        ) {
            None => None,
            Some(tree) => Some((
                ExprV::Let(
                    "s"@,
                    bx(ExprV::HttpServer(bx(ExprV::Integer(0)), bx(port))),
                    bx(ExprV::Apply(bx(ExprV::Identifier(loop_name(idx))), seq![ExprV::Move(db(0))])),
                ),
                ExprV::Define(loop_name(idx), seq![ParamV { name: "server"@, expand: false }], bx(loop_body(tree)), false),
            )),
        },
{
}

/// Expands a router: see `router_expansion`.
#[verifier::loop_isolation(false)]
pub fn expand_router(port: Expr, routes: Vec<(Expr, Expr, Expr)>, fallback: Expr, idx: usize) -> (r: Option<(Expr, Expr)>)
    ensures
        match (r, router_expansion(port@, view_routes(routes@), fallback@, idx as nat)) {
            (Some(a), Some(b)) => a.0@ == b.0 && a.1@ == b.1,
            (None, None) => true,
            _ => false,
        },
{
    let mut name = string_of("_rt_loop_");
    push_u64(&mut name, idx as u64);
    let ghost rv = view_routes(routes@);
    let ghost rec_v = recurse_call(name@);
    let ghost fbv = fallback@;
    let fb_call = Expr::Apply(Box::new(fallback), one_vec(mk_move(3)));
    assert(fb_call@ == ExprV::Apply(bx(fbv), seq![ExprV::Move(db(3))]));
    let ghost fbcv = fb_call@;
    let rec = mk_recurse(&name);
    let mut tree = Expr::Sequence(Box::new(fb_call), Box::new(rec));
    assert(tree@ == ExprV::Sequence(bx(fbcv), bx(rec_v)));
    let ghost tree0 = tree@;
    proof {
        lemma_expansion(port@, rv, fbv, idx as nat);
    }
    let ghost routes_in = routes;
    let mut routes = routes;
    let ghost n0 = routes@.len();
    proof {
        assert(view_routes(routes@).take(n0 as int) == view_routes(routes@));
    }
    while routes.len() > 0
        invariant
            routes@.len() <= n0,
            rv.len() == n0,
            view_routes(routes@) == rv.take(routes@.len() as int),
            fold_routes(rv, routes@.len() as int, rec_v, tree@) == fold_routes(rv, n0 as int, rec_v, tree0),
            name@ == loop_name(idx as nat),
            rec_v == recurse_call(name@),
            tree0 == ExprV::Sequence(bx(ExprV::Apply(bx(fbv), seq![ExprV::Move(db(3))])), bx(rec_v)),
            rv == view_routes(routes_in@),
        decreases routes@.len(),
    {
        let ghost before = routes@;
        let ghost n = routes@.len() as int;
        let (m, p, h) = routes.pop().unwrap();
        proof {
            assert(before == routes@.push((m, p, h)));
            assert(view_routes(before)[n - 1] == (m@, p@, h@));
            assert(rv[n - 1] == (m@, p@, h@));
            assert(view_routes(routes@) =~= rv.take(n - 1));
        }
        let ghost mv = m@;
        let ghost pv = p@;
        let ms = match m {
            Expr::String(s) => s,
            _ => {
                assert(!(mv is String));
                assert(route_branch(rv[n - 1], rec_v, tree@) is None);
                assert(fold_routes(rv, n, rec_v, tree@) is None);
                proof {
                    lemma_expansion(port@, rv, fbv, idx as nat);
                }
                return None;
            },
        };
        let ps = match p {
            Expr::String(s) => s,
            _ => {
                assert(!(pv is String));
                assert(route_branch(rv[n - 1], rec_v, tree@) is None);
                assert(fold_routes(rv, n, rec_v, tree@) is None);
                proof {
                    lemma_expansion(port@, rv, fbv, idx as nat);
                }
                return None;
            },
        };
        let ghost old_tree = tree@;
        tree = mk_branch(ms, ps, h, &name, tree);
        assert(route_branch(rv[n - 1], rec_v, old_tree) == Some(tree@));
    }
    proof {
        lemma_expansion(port@, rv, fbv, idx as nat);
        assert(fold_routes(rv, 0, rec_v, tree@) == Some(tree@));
    }
    let ghost namev = name@;
    let ghost portv = port@;
    let body = mk_loop_body(tree);
    let ghost bodyv = body@;
    let mut params: Vec<Param> = Vec::new();
    params.push(Param { name: string_of("server"), expand: false });
    proof {
        assert(crate::compiler::ast::view_params(params@) =~= seq![ParamV { name: "server"@, expand: false }]);
    }
    let def = Expr::Define(crate::text::copy_string(&name), params, Box::new(body), false);
    assert(def@ == ExprV::Define(name@, seq![ParamV { name: "server"@, expand: false }], bx(bodyv), false));
    let zero = mk_int(0);
    let hs = Expr::HttpServer(zero, Box::new(port));
    assert(hs@ == ExprV::HttpServer(bx(ExprV::Integer(0)), bx(portv)));
    let ghost hsv = hs@;
    let mv = mk_move(0);
    let ghost mvv = mv@;
    let id = Expr::Identifier(name);
    assert(id@ == ExprV::Identifier(namev));
    let args = one_vec(mv);
    let call = Expr::Apply(Box::new(id), args);
    assert(call@ == ExprV::Apply(bx(ExprV::Identifier(namev)), seq![ExprV::Move(db(0))]));
    let ghost callv = call@;
    let entry = Expr::Let(string_of("s"), Box::new(hs), Box::new(call));
    assert(entry@ == ExprV::Let("s"@, bx(hsv), bx(callv)));
    Some((entry, def))
}

} // verus!
