//! The codebase index behind the language server: the functions and shapes
//! defined in each analysed file, with what each function calls and the hash
//! of its structure. Re-indexing a file replaces its entries wholesale.

use vstd::prelude::*;
use crate::compiler::analysis::calls_of;
use crate::compiler::ast::{Expr, ExprV, copy_strings, view_exprs, view_strings, lemma_view_exprs};
use crate::compiler::table::{
    entry_index, find_entry, lemma_entry_index, lemma_find_entry_first, lemma_find_entry_none, lemma_table_insert,
    lookup_text, table_insert,
};
use crate::testing::{body_hash, fingerprint_of};
use crate::text::{copy_string, debug_string, debug_text, push_str, str_eq, string_eq, string_of};

verus! {

/// What the index knows of one definition of a function.
#[derive(Debug)]
pub struct SymbolMetadata {
    pub expr: Expr,
    pub path: String,
    pub line: usize,
    pub calls: Vec<String>,
    pub fingerprint: String,
}

/// The view of a definition's entry.
pub struct SymbolMetadataV {
    pub expr: ExprV,
    pub path: Seq<char>,
    pub line: usize,
    pub calls: Seq<Seq<char>>,
    pub fingerprint: Seq<char>,
}

impl View for SymbolMetadata {
    type V = SymbolMetadataV;

    open spec fn view(&self) -> SymbolMetadataV {
        SymbolMetadataV {
            expr: self.expr@,
            path: self.path@,
            line: self.line,
            calls: view_strings(self.calls@),
            fingerprint: self.fingerprint@,
        }
    }
}

impl SymbolMetadata {
    /// A copy of this entry.
    pub fn copy(&self) -> (r: SymbolMetadata)
        ensures
            r@ == self@,
    {
        SymbolMetadata {
            expr: self.expr.deep_copy(),
            path: copy_string(&self.path),
            line: self.line,
            calls: copy_strings(&self.calls),
            fingerprint: copy_string(&self.fingerprint),
        }
    }
}

/// The views of a list of entries.
pub open spec fn view_metas(v: Seq<SymbolMetadata>) -> Seq<SymbolMetadataV> {
    v.map_values(|m: SymbolMetadata| m@)
}

/// The fields, file and line of an indexed shape.
pub type ShapeEntryV = (Seq<Seq<char>>, Seq<char>, usize);

/// The view of the function table: each name with its definitions.
pub open spec fn view_functions(v: Seq<(String, Vec<SymbolMetadata>)>) -> Seq<(Seq<char>, Seq<SymbolMetadataV>)> {
    v.map_values(|p: (String, Vec<SymbolMetadata>)| (p.0@, view_metas(p.1@)))
}

/// The view of the shape table.
pub open spec fn view_shape_entries(v: Seq<(String, (Vec<String>, String, usize))>) -> Seq<(Seq<char>, ShapeEntryV)> {
    v.map_values(|p: (String, (Vec<String>, String, usize))| (p.0@, (view_strings(p.1.0@), p.1.1@, p.1.2)))
}

/// The index: a name can be defined in several files, so each function name
/// holds one entry per definition; a shape name holds its last definition.
pub struct CodebaseIndex {
    functions: Vec<(String, Vec<SymbolMetadata>)>,
    shapes: Vec<(String, (Vec<String>, String, usize))>,
}

/// The view of the index.
pub struct CodebaseIndexV {
    pub functions: Seq<(Seq<char>, Seq<SymbolMetadataV>)>,
    pub shapes: Seq<(Seq<char>, ShapeEntryV)>,
}

impl View for CodebaseIndex {
    type V = CodebaseIndexV;

    closed spec fn view(&self) -> CodebaseIndexV {
        CodebaseIndexV { functions: view_functions(self.functions@), shapes: view_shape_entries(self.shapes@) }
    }
}

/// The entries of a list that were not indexed from `path`, in order.
pub open spec fn keep_metas(ms: Seq<SymbolMetadataV>, path: Seq<char>) -> Seq<SymbolMetadataV>
    decreases ms.len(),
{
    if ms.len() == 0 {
        Seq::empty()
    } else if ms.last().path == path {
        keep_metas(ms.drop_last(), path)
    } else {
        keep_metas(ms.drop_last(), path).push(ms.last())
    }
}

/// The function table without the entries of `path`; a name left without
/// entries goes.
pub open spec fn purge_functions(fs: Seq<(Seq<char>, Seq<SymbolMetadataV>)>, path: Seq<char>) -> Seq<
    (Seq<char>, Seq<SymbolMetadataV>),
>
    decreases fs.len(),
{
    if fs.len() == 0 {
        Seq::empty()
    } else {
        let r = purge_functions(fs.drop_last(), path);
        let k = keep_metas(fs.last().1, path);
        if k.len() == 0 {
            r
        } else {
            r.push((fs.last().0, k))
        }
    }
}

/// The shape table without the shapes of `path`.
pub open spec fn purge_shapes(ss: Seq<(Seq<char>, ShapeEntryV)>, path: Seq<char>) -> Seq<(Seq<char>, ShapeEntryV)>
    decreases ss.len(),
{
    if ss.len() == 0 {
        Seq::empty()
    } else if ss.last().1.1 == path {
        purge_shapes(ss.drop_last(), path)
    } else {
        purge_shapes(ss.drop_last(), path).push(ss.last())
    }
}

/// The index without anything indexed from `path`.
pub open spec fn purged(ix: CodebaseIndexV, path: Seq<char>) -> CodebaseIndexV {
    CodebaseIndexV { functions: purge_functions(ix.functions, path), shapes: purge_shapes(ix.shapes, path) }
}

/// The entry recorded for a definition with body `body` in `path`.
pub open spec fn define_meta(body: ExprV, path: Seq<char>) -> SymbolMetadataV {
    SymbolMetadataV { expr: body, path, line: 0, calls: calls_of(body), fingerprint: body_hash(body) }
}

/// The function table with one more entry under `name`.
pub open spec fn add_define(
    fs: Seq<(Seq<char>, Seq<SymbolMetadataV>)>,
    name: Seq<char>,
    m: SymbolMetadataV,
) -> Seq<(Seq<char>, Seq<SymbolMetadataV>)> {
    match entry_index(fs, name) {
        Some(i) => fs.update(i as int, (name, fs[i as int].1.push(m))),
        None => fs.push((name, seq![m])),
    }
}

/// The index after recording the first `n` expressions of a file `path`:
/// each definition adds an entry under its name, each shape replaces the
/// shape of its name.
pub open spec fn index_upto(ix: CodebaseIndexV, es: Seq<ExprV>, path: Seq<char>, n: int) -> CodebaseIndexV
    decreases n,
{
    if n <= 0 {
        ix
    } else {
        let prev = index_upto(ix, es, path, n - 1);
        match es[n - 1] {
            ExprV::Define(name, _, body, _) => CodebaseIndexV {
                functions: add_define(prev.functions, name, define_meta(*body, path)),
                shapes: prev.shapes,
            },
            ExprV::Shape(name, fields, _) => CodebaseIndexV {
                functions: prev.functions,
                shapes: table_insert(prev.shapes, name, (fields, path, 0usize)),
            },
            _ => prev,
        }
    }
}

/// The number of definitions among the first `n` expressions.
pub open spec fn count_defines(es: Seq<ExprV>, n: int) -> nat
    decreases n,
{
    if n <= 0 {
        0
    } else if es[n - 1] is Define {
        count_defines(es, n - 1) + 1
    } else {
        count_defines(es, n - 1)
    }
}

/// Whether two paths name the same file: they are equal, or both have a
/// canonical form in `canonical` and those are equal.
pub open spec fn same_file(a: Seq<char>, b: Seq<char>, canonical: Seq<(Seq<char>, Seq<char>)>) -> bool {
    a == b || (find_entry(canonical, a) is Some && find_entry(canonical, a) == find_entry(canonical, b))
}

/// Whether two paths name the same file. `canonical` holds, for each path
/// that the caller could resolve on disk, its canonical form; a path missing
/// from it matches only itself.
pub fn paths_match(a: &str, b: &str, canonical: &Vec<(String, String)>) -> (r: bool)
    ensures
        r == same_file(a@, b@, canonical@.map_values(|p: (String, String)| (p.0@, p.1@))),
{
    if str_eq(a, b) {
        return true;
    }
    match (lookup_text(canonical, a), lookup_text(canonical, b)) {
        (Some(ca), Some(cb)) => string_eq(&ca, &cb),
        _ => false,
    }
}

/// The `Debug` rendering of a list of paths: `["a", "b"]`.
pub open spec fn debug_paths(ps: Seq<Seq<char>>) -> Seq<char> {
    "["@ + joined_debug(ps) + "]"@
}

/// The `Debug` renderings of some paths, separated by `, `.
pub open spec fn joined_debug(ps: Seq<Seq<char>>) -> Seq<char>
    decreases ps.len(),
{
    if ps.len() == 0 {
        Seq::empty()
    } else if ps.len() == 1 {
        debug_text(ps[0])
    } else {
        joined_debug(ps.drop_last()) + ", "@ + debug_text(ps.last())
    }
}

/// The paths of some entries, in order.
pub open spec fn meta_paths(ms: Seq<SymbolMetadataV>) -> Seq<Seq<char>> {
    ms.map_values(|m: SymbolMetadataV| m.path)
}

/// The first entry defined in the file `path`.
pub open spec fn first_in_file(ms: Seq<SymbolMetadataV>, path: Seq<char>, canonical: Seq<(Seq<char>, Seq<char>)>, i: int) -> Option<int>
    decreases ms.len() - i,
{
    if i < 0 || i >= ms.len() {
        None
    } else if same_file(ms[i].path, path, canonical) {
        Some(i)
    } else {
        first_in_file(ms, path, canonical, i + 1)
    }
}

/// What resolving a function name gives: its only definition, or the one in
/// the file `path`; an error says why there is none.
pub open spec fn resolution(
    ix: CodebaseIndexV,
    name: Seq<char>,
    path: Option<Seq<char>>,
    canonical: Seq<(Seq<char>, Seq<char>)>,
) -> Result<SymbolMetadataV, Seq<char>> {
    match find_entry(ix.functions, name) {
        None => Err("Function not found: "@ + name),
        Some(ms) => if ms.len() == 0 {
            Err("Function not found: "@ + name)
        } else {
            match path {
                Some(p) => match first_in_file(ms, p, canonical, 0) {
                    Some(i) => Ok(ms[i]),
                    None => Err(
                        "Function '"@ + name + "' is not defined in '"@ + p + "'; known locations: "@
                            + debug_paths(meta_paths(ms)),
                    ),
                },
                None => if ms.len() == 1 {
                    Ok(ms[0])
                } else {
                    Err(
                        "Function '"@ + name + "' is defined in multiple files: "@ + debug_paths(meta_paths(ms))
                            + "; pass 'path' to disambiguate"@,
                    )
                },
            }
        },
    }
}

/// Code-point order on texts, which is the order of `String`.
pub open spec fn text_lt(a: Seq<char>, b: Seq<char>) -> bool
    decreases a.len(),
{
    if a.len() == 0 {
        b.len() > 0
    } else if b.len() == 0 {
        false
    } else if a[0] != b[0] {
        (a[0] as u32) < (b[0] as u32)
    } else {
        text_lt(a.drop_first(), b.drop_first())
    }
}

/// The order on texts is transitive.
pub proof fn lemma_text_lt_trans(a: Seq<char>, b: Seq<char>, c: Seq<char>)
    requires
        text_lt(a, b),
        text_lt(b, c),
    ensures
        text_lt(a, c),
    decreases a.len(),
{
    if a.len() > 0 && b.len() > 0 && c.len() > 0 && a[0] == b[0] && b[0] == c[0] {
        lemma_text_lt_trans(a.drop_first(), b.drop_first(), c.drop_first());
    }
}

/// No text comes before itself.
pub proof fn lemma_text_lt_irrefl(a: Seq<char>)
    ensures
        !text_lt(a, a),
    decreases a.len(),
{
    if a.len() > 0 {
        lemma_text_lt_irrefl(a.drop_first());
    }
}

/// Texts in non-decreasing order.
pub open spec fn sorted_texts(s: Seq<Seq<char>>) -> bool {
    forall|i: int, j: int| 0 <= i < j < s.len() ==> !text_lt(#[trigger] s[j], #[trigger] s[i])
}

/// Whether `a` comes before `b` in code-point order.
fn text_less(a: &str, b: &str) -> (r: bool)
    ensures
        r == text_lt(a@, b@),
{
    let va = crate::text::chars_of(a);
    let vb = crate::text::chars_of(b);
    let mut i: usize = 0;
    proof {
        assert(a@.skip(0) =~= a@);
        assert(b@.skip(0) =~= b@);
    }
    while i < va.len() && i < vb.len()
        invariant
            va@ == a@,
            vb@ == b@,
            i <= va@.len(),
            i <= vb@.len(),
            text_lt(a@, b@) == text_lt(a@.skip(i as int), b@.skip(i as int)),
        decreases va@.len() - i,
    {
        proof {
            assert(a@.skip(i as int)[0] == va@[i as int]);
            assert(b@.skip(i as int)[0] == vb@[i as int]);
            assert(a@.skip(i as int).drop_first() =~= a@.skip(i + 1));
            assert(b@.skip(i as int).drop_first() =~= b@.skip(i + 1));
        }
        if va[i] != vb[i] {
            return (va[i] as u32) < (vb[i] as u32);
        }
        i = i + 1;
    }
    proof {
        assert(a@.skip(i as int).len() == a@.len() - i);
    }
    i < vb.len()
}

/// The texts of `v` in code-point order.
pub fn sort_texts(v: Vec<String>) -> (r: Vec<String>)
    ensures
        sorted_texts(view_strings(r@)),
        view_strings(r@).to_multiset() == view_strings(v@).to_multiset(),
{
    let ghost vv = view_strings(v@);
    let mut r: Vec<String> = Vec::new();
    let mut i: usize = 0;
    proof {
        assert(view_strings(r@) =~= vv.take(0));
    }
    while i < v.len()
        invariant
            i <= v@.len(),
            vv == view_strings(v@),
            vv.len() == v@.len(),
            sorted_texts(view_strings(r@)),
            view_strings(r@).to_multiset() == vv.take(i as int).to_multiset(),
        decreases v@.len() - i,
    {
        let x = v[i].as_str();
        let ghost rv = view_strings(r@);
        let mut p: usize = 0;
        while p < r.len() && !text_less(x, r[p].as_str())
            invariant
                p <= r@.len(),
                rv == view_strings(r@),
                forall|k: int| 0 <= k < p ==> !text_lt(x@, #[trigger] rv[k]),
            decreases r@.len() - p,
        {
            p = p + 1;
        }
        let c = copy_string(&v[i]);
        r.insert(p, c);
        proof {
            let nv = view_strings(r@);
            assert(nv =~= rv.insert(p as int, x@));
            assert forall|a: int, b: int| 0 <= a < b < nv.len() implies !text_lt(#[trigger] nv[b], #[trigger] nv[a]) by {
                if a < p && b == p {
                } else if a == p && b > p {
                    if text_lt(rv[b - 1], x@) {
                        lemma_text_lt_trans(rv[b - 1], x@, rv[p as int]);
                        if b - 1 == p {
                            lemma_text_lt_irrefl(rv[p as int]);
                        } else {
                            assert(!text_lt(rv[b - 1], rv[p as int]));
                        }
                    }
                } else if b < p {
                    assert(nv[a] == rv[a] && nv[b] == rv[b]);
                } else if a > p {
                    assert(nv[a] == rv[a - 1] && nv[b] == rv[b - 1]);
                } else {
                    assert(a < p && b > p);
                    assert(nv[a] == rv[a] && nv[b] == rv[b - 1]);
                }
            }
            vstd::seq_lib::to_multiset_insert(rv, p as int, x@);
            assert(vv.take(i + 1) =~= vv.take(i as int).push(vv[i as int]));
            vstd::seq_lib::to_multiset_build(vv.take(i as int), vv[i as int]);
            assert(vv[i as int] == x@);
        }
        i = i + 1;
    }
    proof {
        assert(vv.take(v@.len() as int) =~= vv);
    }
    r
}

/// Whether `q` occurs in `s`.
pub open spec fn contains_text(s: Seq<char>, q: Seq<char>) -> bool {
    exists|i: int| 0 <= i && i + q.len() <= s.len() && #[trigger] s.subrange(i, i + q.len()) == q
}

/// Whether `q` occurs in `s`.
fn contains_text_exec(s: &str, q: &str) -> (r: bool)
    ensures
        r == contains_text(s@, q@),
{
    let a = crate::text::chars_of(s);
    let b = crate::text::chars_of(q);
    if b.len() > a.len() {
        return false;
    }
    let alen = a.len();
    let mut i: usize = 0;
    while i <= a.len() - b.len()
        invariant
            alen == a@.len(),
            a@ == s@,
            b@ == q@,
            b@.len() <= a@.len(),
            i <= a@.len() - b@.len() + 1,
            forall|k: int| 0 <= k < i ==> #[trigger] s@.subrange(k, k + q@.len()) != q@,
        decreases a@.len() - b@.len() + 1 - i,
    {
        let mut j: usize = 0;
        let mut same = true;
        while j < b.len()
            invariant
                alen == a@.len(),
                a@ == s@,
                b@ == q@,
                i + b@.len() <= a@.len(),
                j <= b@.len(),
                same == forall|k: int| 0 <= k < j ==> a@[i + k] == b@[k],
            decreases b@.len() - j,
        {
            if a[i + j] != b[j] {
                same = false;
            }
            j = j + 1;
        }
        if same {
            proof {
                assert(s@.subrange(i as int, i + q@.len()) =~= q@);
            }
            return true;
        }
        proof {
            let k = choose|k: int| 0 <= k < b@.len() && a@[i + k] != b@[k];
            assert(s@.subrange(i as int, i + q@.len())[k] != q@[k]);
        }
        i = i + 1;
    }
    false
}

/// Lines joined by newlines.
pub open spec fn joined_lines(lines: Seq<Seq<char>>) -> Seq<char>
    decreases lines.len(),
{
    if lines.len() == 0 {
        Seq::empty()
    } else if lines.len() == 1 {
        lines[0]
    } else {
        joined_lines(lines.drop_last()) + "\n"@ + lines.last()
    }
}

/// The result lines of a symbol search among the first `n` names, each with
/// its kind, for the names that contain `query`.
pub open spec fn matching_lines(names: Seq<Seq<char>>, kind: Seq<char>, query: Seq<char>, n: int) -> Seq<Seq<char>>
    decreases n,
{
    if n <= 0 {
        Seq::empty()
    } else if contains_text(names[n - 1], query) {
        matching_lines(names, kind, query, n - 1).push(kind + names[n - 1])
    } else {
        matching_lines(names, kind, query, n - 1)
    }
}

/// The names of the entries whose definitions call `symbol`, among the first
/// `n`.
pub open spec fn callers_upto(fs: Seq<(Seq<char>, Seq<SymbolMetadataV>)>, symbol: Seq<char>, n: int) -> Seq<Seq<char>>
    decreases n,
{
    if n <= 0 {
        Seq::empty()
    } else if exists|i: int| 0 <= i < fs[n - 1].1.len() && (#[trigger] fs[n - 1].1[i]).calls.contains(symbol) {
        callers_upto(fs, symbol, n - 1).push(fs[n - 1].0)
    } else {
        callers_upto(fs, symbol, n - 1)
    }
}

/// The names of the entries with a definition whose fingerprint is among
/// `targets`, among the first `n`.
pub open spec fn same_structure_upto(
    fs: Seq<(Seq<char>, Seq<SymbolMetadataV>)>,
    targets: Seq<Seq<char>>,
    n: int,
) -> Seq<Seq<char>>
    decreases n,
{
    if n <= 0 {
        Seq::empty()
    } else if exists|i: int| 0 <= i < fs[n - 1].1.len() && targets.contains((#[trigger] fs[n - 1].1[i]).fingerprint) {
        same_structure_upto(fs, targets, n - 1).push(fs[n - 1].0)
    } else {
        same_structure_upto(fs, targets, n - 1)
    }
}

/// Entry `j` of a function table holds a definition that calls `symbol`.
pub open spec fn entry_calls(fs: Seq<(Seq<char>, Seq<SymbolMetadataV>)>, j: int, symbol: Seq<char>) -> bool {
    exists|k: int| 0 <= k < fs[j].1.len() && (#[trigger] fs[j].1[k]).calls.contains(symbol)
}

/// Entry `j` of a function table holds a definition whose fingerprint is
/// among `targets`.
pub open spec fn entry_matches(fs: Seq<(Seq<char>, Seq<SymbolMetadataV>)>, j: int, targets: Seq<Seq<char>>) -> bool {
    exists|k: int| 0 <= k < fs[j].1.len() && targets.contains((#[trigger] fs[j].1[k]).fingerprint)
}

/// The callers found are exactly the names with a definition that calls
/// the symbol.
pub proof fn lemma_callers_exactly(fs: Seq<(Seq<char>, Seq<SymbolMetadataV>)>, symbol: Seq<char>, n: int, x: Seq<char>)
    requires
        0 <= n <= fs.len(),
    ensures
        callers_upto(fs, symbol, n).contains(x) <==> exists|j: int| 0 <= j < n && fs[j].0 == x && #[trigger] entry_calls(fs, j, symbol),
    decreases n,
{
    if n > 0 {
        lemma_callers_exactly(fs, symbol, n - 1, x);
        let prev = callers_upto(fs, symbol, n - 1);
        let cur = callers_upto(fs, symbol, n);
        if entry_calls(fs, n - 1, symbol) {
            assert(cur == prev.push(fs[n - 1].0));
            if fs[n - 1].0 == x {
                assert(cur[prev.len() as int] == x);
            }
            if prev.contains(x) {
                let q = choose|q: int| 0 <= q < prev.len() && prev[q] == x;
                assert(cur[q] == x);
            }
            if cur.contains(x) && fs[n - 1].0 != x {
                let q = choose|q: int| 0 <= q < cur.len() && cur[q] == x;
                assert(prev[q] == x);
            }
        } else {
            assert(cur == prev);
        }
        if exists|j: int| 0 <= j < n && fs[j].0 == x && #[trigger] entry_calls(fs, j, symbol) {
            let j = choose|j: int| 0 <= j < n && fs[j].0 == x && #[trigger] entry_calls(fs, j, symbol);
            if j < n - 1 {
                assert(prev.contains(x));
            }
        }
    }
}

/// Structural search finds exactly the names with a definition whose
/// fingerprint is among the targets; when the targets are the fingerprints
/// of a name's own definitions, that name is found too.
pub proof fn lemma_same_structure_exactly(
    fs: Seq<(Seq<char>, Seq<SymbolMetadataV>)>,
    targets: Seq<Seq<char>>,
    n: int,
    x: Seq<char>,
)
    requires
        0 <= n <= fs.len(),
    ensures
        same_structure_upto(fs, targets, n).contains(x) <==> exists|j: int|
            0 <= j < n && fs[j].0 == x && #[trigger] entry_matches(fs, j, targets),
    decreases n,
{
    if n > 0 {
        lemma_same_structure_exactly(fs, targets, n - 1, x);
        let prev = same_structure_upto(fs, targets, n - 1);
        let cur = same_structure_upto(fs, targets, n);
        if entry_matches(fs, n - 1, targets) {
            assert(cur == prev.push(fs[n - 1].0));
            if fs[n - 1].0 == x {
                assert(cur[prev.len() as int] == x);
            }
            if prev.contains(x) {
                let q = choose|q: int| 0 <= q < prev.len() && prev[q] == x;
                assert(cur[q] == x);
            }
            if cur.contains(x) && fs[n - 1].0 != x {
                let q = choose|q: int| 0 <= q < cur.len() && cur[q] == x;
                assert(prev[q] == x);
            }
        } else {
            assert(cur == prev);
        }
        if exists|j: int| 0 <= j < n && fs[j].0 == x && #[trigger] entry_matches(fs, j, targets) {
            let j = choose|j: int| 0 <= j < n && fs[j].0 == x && #[trigger] entry_matches(fs, j, targets);
            if j < n - 1 {
                assert(prev.contains(x));
            }
        }
    }
}

/// A function searched for by structure is among its own matches.
pub proof fn lemma_same_structure_finds_itself(fs: Seq<(Seq<char>, Seq<SymbolMetadataV>)>, name: Seq<char>)
    requires
        no_empty_entries(fs),
        find_entry(fs, name) is Some,
    ensures
        same_structure_upto(
            fs,
            find_entry(fs, name)->Some_0.map_values(|m: SymbolMetadataV| m.fingerprint),
            fs.len() as int,
        ).contains(name),
{
    lemma_entry_index(fs, name);
    let i = entry_index(fs, name)->Some_0 as int;
    let ms = fs[i].1;
    let targets = ms.map_values(|m: SymbolMetadataV| m.fingerprint);
    assert(fs[i].1.len() > 0);
    assert(targets[0] == ms[0].fingerprint);
    assert(targets.contains(fs[i].1[0].fingerprint));
    assert(entry_matches(fs, i, targets));
    lemma_same_structure_exactly(fs, targets, fs.len() as int, name);
}

/// The position of the first definition named `name` from `i` on.
pub open spec fn first_define_named(es: Seq<ExprV>, name: Seq<char>, i: int) -> Option<int>
    decreases es.len() - i,
{
    if i < 0 || i >= es.len() {
        None
    } else if es[i] matches ExprV::Define(n, _, _, _) && n == name {
        Some(i)
    } else {
        first_define_named(es, name, i + 1)
    }
}

/// A definition with its body replaced.
pub open spec fn with_body(e: ExprV, body: ExprV) -> ExprV {
    match e {
        ExprV::Define(n, p, _, x) => ExprV::Define(n, p, Box::new(body), x),
        _ => e,
    }
}

/// Replaces the body of the first top-level definition named `name`; says
/// whether there was one.
pub fn replace_function_body(exprs: &mut Vec<Expr>, name: &str, body: Expr) -> (found: bool)
    ensures
        match first_define_named(view_exprs(old(exprs)@), name@, 0) {
            Some(k) => found && view_exprs(final(exprs)@) == view_exprs(old(exprs)@).update(
                k,
                with_body(view_exprs(old(exprs)@)[k], body@),
            ),
            None => !found && final(exprs)@ == old(exprs)@,
        },
{
    let ghost ev = view_exprs(exprs@);
    let ghost e0 = exprs@;
    proof {
        lemma_view_exprs(exprs@);
    }
    let mut i: usize = 0;
    while i < exprs.len()
        invariant
            exprs@ == e0,
            old(exprs)@ == e0,
            ev == view_exprs(e0),
            ev.len() == e0.len(),
            forall|k: int| 0 <= k < ev.len() ==> #[trigger] ev[k] == e0[k]@,
            i <= e0.len(),
            first_define_named(ev, name@, 0) == first_define_named(ev, name@, i as int),
        decreases e0.len() - i,
    {
        let is_it = match &exprs[i] {
            Expr::Define(n, _, _, _) => str_eq(n.as_str(), name),
            _ => false,
        };
        if is_it {
            let ghost bv = body@;
            let old_e = exprs.remove(i);
            let new_e = match old_e {
                Expr::Define(n, p, _, x) => Expr::Define(n, p, Box::new(body), x),
                other => other,
            };
            proof {
                assert(new_e@ == with_body(ev[i as int], bv));
            }
            exprs.insert(i, new_e);
            proof {
                assert(exprs@ =~= e0.update(i as int, new_e));
                crate::compiler::ast::lemma_view_exprs(exprs@);
                assert(view_exprs(exprs@) =~= ev.update(i as int, new_e@));
            }
            return true;
        }
        i = i + 1;
    }
    false
}

/// No entry of a function table comes from `path`.
pub open spec fn free_of(fs: Seq<(Seq<char>, Seq<SymbolMetadataV>)>, path: Seq<char>) -> bool {
    forall|i: int, k: int| 0 <= i < fs.len() && 0 <= k < fs[i].1.len() ==> (#[trigger] fs[i].1[k]).path != path
}

/// Every name of a function table holds at least one entry.
pub open spec fn no_empty_entries(fs: Seq<(Seq<char>, Seq<SymbolMetadataV>)>) -> bool {
    forall|i: int| 0 <= i < fs.len() ==> (#[trigger] fs[i]).1.len() > 0
}

proof fn lemma_keep_metas_free(ms: Seq<SymbolMetadataV>, path: Seq<char>)
    ensures
        forall|k: int| 0 <= k < keep_metas(ms, path).len() ==> (#[trigger] keep_metas(ms, path)[k]).path != path,
        (forall|k: int| 0 <= k < ms.len() ==> (#[trigger] ms[k]).path != path) ==> keep_metas(ms, path) == ms,
    decreases ms.len(),
{
    if ms.len() > 0 {
        lemma_keep_metas_free(ms.drop_last(), path);
        if forall|k: int| 0 <= k < ms.len() ==> (#[trigger] ms[k]).path != path {
            assert forall|k: int| 0 <= k < ms.drop_last().len() implies (#[trigger] ms.drop_last()[k]).path != path by {
                assert(ms.drop_last()[k] == ms[k]);
            }
            assert(ms.drop_last().push(ms.last()) =~= ms);
        }
    }
}

proof fn lemma_purge_clean(fs: Seq<(Seq<char>, Seq<SymbolMetadataV>)>, path: Seq<char>)
    ensures
        free_of(purge_functions(fs, path), path),
        no_empty_entries(purge_functions(fs, path)),
        free_of(fs, path) && no_empty_entries(fs) ==> purge_functions(fs, path) == fs,
    decreases fs.len(),
{
    if fs.len() > 0 {
        let r = purge_functions(fs.drop_last(), path);
        lemma_purge_clean(fs.drop_last(), path);
        lemma_keep_metas_free(fs.last().1, path);
        let k = keep_metas(fs.last().1, path);
        if k.len() > 0 {
            let u = r.push((fs.last().0, k));
            assert forall|i: int, q: int| 0 <= i < u.len() && 0 <= q < u[i].1.len() implies (#[trigger] u[i].1[q]).path
                != path by {
                if i < r.len() {
                    assert(u[i] == r[i]);
                }
            }
            assert forall|i: int| 0 <= i < u.len() implies (#[trigger] u[i]).1.len() > 0 by {
                if i < r.len() {
                    assert(u[i] == r[i]);
                }
            }
        }
        if free_of(fs, path) && no_empty_entries(fs) {
            let d = fs.drop_last();
            assert forall|i: int, q: int| 0 <= i < d.len() && 0 <= q < d[i].1.len() implies (#[trigger] d[i].1[q]).path
                != path by {
                assert(d[i] == fs[i]);
            }
            assert forall|i: int| 0 <= i < d.len() implies (#[trigger] d[i]).1.len() > 0 by {
                assert(d[i] == fs[i]);
            }
            assert forall|q: int| 0 <= q < fs.last().1.len() implies (#[trigger] fs.last().1[q]).path != path by {
                assert(fs.last() == fs[fs.len() - 1]);
            }
            assert(fs.last().1.len() > 0);
            assert(d.push(fs.last()) =~= fs);
        }
    }
}

proof fn lemma_purge_update(
    fs: Seq<(Seq<char>, Seq<SymbolMetadataV>)>,
    i: int,
    ms: Seq<SymbolMetadataV>,
    path: Seq<char>,
)
    requires
        0 <= i < fs.len(),
        keep_metas(ms, path) == keep_metas(fs[i].1, path),
    ensures
        purge_functions(fs.update(i, (fs[i].0, ms)), path) == purge_functions(fs, path),
    decreases fs.len(),
{
    let u = fs.update(i, (fs[i].0, ms));
    if i < fs.len() - 1 {
        assert(u.drop_last() =~= fs.drop_last().update(i, (fs.drop_last()[i].0, ms)));
        lemma_purge_update(fs.drop_last(), i, ms, path);
        assert(u.last() == fs.last());
    } else {
        assert(u.drop_last() =~= fs.drop_last());
    }
}

proof fn lemma_purge_add_define(
    fs: Seq<(Seq<char>, Seq<SymbolMetadataV>)>,
    name: Seq<char>,
    m: SymbolMetadataV,
    path: Seq<char>,
)
    requires
        m.path == path,
    ensures
        purge_functions(add_define(fs, name, m), path) == purge_functions(fs, path),
{
    lemma_entry_index(fs, name);
    match entry_index(fs, name) {
        Some(i) => {
            let ms = fs[i as int].1;
            assert(ms.push(m).drop_last() =~= ms);
            assert(ms.push(m).last() == m);
            assert(keep_metas(ms.push(m), path) == keep_metas(ms, path));
            assert(fs[i as int].0 == name);
            lemma_purge_update(fs, i as int, ms.push(m), path);
            assert(add_define(fs, name, m) == fs.update(i as int, (fs[i as int].0, ms.push(m))));
        },
        None => {
            let u = fs.push((name, seq![m]));
            assert(u.drop_last() =~= fs);
            assert(u.last() == (name, seq![m]));
            assert(seq![m].drop_last() =~= Seq::<SymbolMetadataV>::empty());
            assert(keep_metas(seq![m], path) == keep_metas(Seq::<SymbolMetadataV>::empty(), path));
            assert(add_define(fs, name, m) == u);
        },
    }
}

proof fn lemma_purge_index(ix: CodebaseIndexV, es: Seq<ExprV>, path: Seq<char>, n: int)
    ensures
        purge_functions(index_upto(ix, es, path, n).functions, path) == purge_functions(ix.functions, path),
    decreases n,
{
    if n > 0 {
        lemma_purge_index(ix, es, path, n - 1);
        let prev = index_upto(ix, es, path, n - 1);
        match es[n - 1] {
            ExprV::Define(name, _, body, _) => {
                lemma_purge_add_define(prev.functions, name, define_meta(*body, path), path);
            },
            _ => {},
        }
    }
}

proof fn lemma_index_functions_only(a: CodebaseIndexV, b: CodebaseIndexV, es: Seq<ExprV>, path: Seq<char>, n: int)
    requires
        a.functions == b.functions,
    ensures
        index_upto(a, es, path, n).functions == index_upto(b, es, path, n).functions,
    decreases n,
{
    if n > 0 {
        lemma_index_functions_only(a, b, es, path, n - 1);
    }
}

/// Indexing a file again gives the same function table as indexing it once:
/// re-analysis replaces the file's entries instead of adding to them, so no
/// definition is ever listed twice.
pub proof fn lemma_reindex_functions(ix: CodebaseIndexV, es: Seq<ExprV>, path: Seq<char>)
    ensures
        ({
            let once = index_upto(purged(ix, path), es, path, es.len() as int);
            index_upto(purged(once, path), es, path, es.len() as int).functions == once.functions
        }),
{
    let n = es.len() as int;
    let p0 = purged(ix, path);
    let once = index_upto(p0, es, path, n);
    lemma_purge_index(p0, es, path, n);
    lemma_purge_clean(ix.functions, path);
    lemma_purge_clean(p0.functions, path);
    assert(purged(once, path).functions == p0.functions);
    lemma_index_functions_only(purged(once, path), p0, es, path, n);
}

/// The entries of a list that were indexed from `path`, in order.
pub open spec fn metas_from(ms: Seq<SymbolMetadataV>, path: Seq<char>) -> Seq<SymbolMetadataV>
    decreases ms.len(),
{
    if ms.len() == 0 {
        Seq::empty()
    } else if ms.last().path == path {
        metas_from(ms.drop_last(), path).push(ms.last())
    } else {
        metas_from(ms.drop_last(), path)
    }
}

/// The entries a function table holds under `name` (none when it has no
/// such name).
pub open spec fn entries_of(fs: Seq<(Seq<char>, Seq<SymbolMetadataV>)>, name: Seq<char>) -> Seq<SymbolMetadataV> {
    match find_entry(fs, name) {
        Some(ms) => ms,
        None => Seq::empty(),
    }
}

/// The entries that the definitions named `name` among the first `n`
/// expressions of a file `path` give, in order.
pub open spec fn defines_named(es: Seq<ExprV>, name: Seq<char>, path: Seq<char>, n: int) -> Seq<SymbolMetadataV>
    decreases n,
{
    if n <= 0 {
        Seq::empty()
    } else {
        let prev = defines_named(es, name, path, n - 1);
        match es[n - 1] {
            ExprV::Define(x, _, body, _) => if x == name {
                prev.push(define_meta(*body, path))
            } else {
                prev
            },
            _ => prev,
        }
    }
}

/// The fields of the last shape named `name` among the first `n`
/// expressions.
pub open spec fn last_shape_named(es: Seq<ExprV>, name: Seq<char>, n: int) -> Option<Seq<Seq<char>>>
    decreases n,
{
    if n <= 0 {
        None
    } else {
        match es[n - 1] {
            ExprV::Shape(x, fields, _) => if x == name {
                Some(fields)
            } else {
                last_shape_named(es, name, n - 1)
            },
            _ => last_shape_named(es, name, n - 1),
        }
    }
}

/// A list with no entry from `path` has none to give.
proof fn lemma_metas_from_none(ms: Seq<SymbolMetadataV>, path: Seq<char>)
    requires
        forall|k: int| 0 <= k < ms.len() ==> (#[trigger] ms[k]).path != path,
    ensures
        metas_from(ms, path) == Seq::<SymbolMetadataV>::empty(),
    decreases ms.len(),
{
    if ms.len() > 0 {
        assert(ms.last() == ms[ms.len() - 1]);
        assert forall|k: int| 0 <= k < ms.drop_last().len() implies (#[trigger] ms.drop_last()[k]).path != path by {
            assert(ms.drop_last()[k] == ms[k]);
        }
        lemma_metas_from_none(ms.drop_last(), path);
    }
}

/// Recording a definition adds its entry at the end of its name's list and
/// leaves every other name's list as it was; no list is left empty.
proof fn lemma_add_define_entries(
    fs: Seq<(Seq<char>, Seq<SymbolMetadataV>)>,
    x: Seq<char>,
    m: SymbolMetadataV,
    name: Seq<char>,
)
    ensures
        entries_of(add_define(fs, x, m), name) == if name == x {
            entries_of(fs, x).push(m)
        } else {
            entries_of(fs, name)
        },
        no_empty_entries(fs) ==> no_empty_entries(add_define(fs, x, m)),
{
    lemma_entry_index(fs, x);
    lemma_entry_index(fs, name);
    let u = add_define(fs, x, m);
    match entry_index(fs, x) {
        Some(i) => {
            lemma_find_entry_first(u, x, i as int);
            if name != x {
                match entry_index(fs, name) {
                    Some(k) => lemma_find_entry_first(u, name, k as int),
                    None => lemma_find_entry_none(u, name),
                }
            }
            if no_empty_entries(fs) {
                assert forall|j: int| 0 <= j < u.len() implies (#[trigger] u[j]).1.len() > 0 by {
                    if j != i {
                        assert(u[j] == fs[j]);
                    }
                }
            }
        },
        None => {
            lemma_find_entry_first(u, x, fs.len() as int);
            assert(Seq::<SymbolMetadataV>::empty().push(m) =~= seq![m]);
            if name != x {
                match entry_index(fs, name) {
                    Some(k) => lemma_find_entry_first(u, name, k as int),
                    None => lemma_find_entry_none(u, name),
                }
            }
            if no_empty_entries(fs) {
                assert forall|j: int| 0 <= j < u.len() implies (#[trigger] u[j]).1.len() > 0 by {
                    if j < fs.len() {
                        assert(u[j] == fs[j]);
                    }
                }
            }
        },
    }
}

/// The state of the index after the first `n` expressions of a file whose
/// old entries were purged: each name's entries from the file are those of
/// its definitions so far, no name holds an empty list, and each shape name
/// maps to its last shape so far or to what the purged index had.
proof fn lemma_index_upto_file(ix: CodebaseIndexV, es: Seq<ExprV>, path: Seq<char>, n: int, name: Seq<char>)
    requires
        0 <= n <= es.len(),
    ensures
        metas_from(entries_of(index_upto(purged(ix, path), es, path, n).functions, name), path) == defines_named(
            es,
            name,
            path,
            n,
        ),
        no_empty_entries(index_upto(purged(ix, path), es, path, n).functions),
        find_entry(index_upto(purged(ix, path), es, path, n).shapes, name) == match last_shape_named(es, name, n) {
            Some(fields) => Some((fields, path, 0usize)),
            None => find_entry(purge_shapes(ix.shapes, path), name),
        },
    decreases n,
{
    let p0 = purged(ix, path);
    if n == 0 {
        lemma_purge_clean(ix.functions, path);
        let fs = p0.functions;
        lemma_entry_index(fs, name);
        match entry_index(fs, name) {
            Some(i) => {
                assert forall|k: int| 0 <= k < fs[i as int].1.len() implies (#[trigger] fs[i as int].1[k]).path != path by {
                }
                lemma_metas_from_none(fs[i as int].1, path);
            },
            None => {},
        }
    } else {
        lemma_index_upto_file(ix, es, path, n - 1, name);
        let prev = index_upto(p0, es, path, n - 1);
        match es[n - 1] {
            ExprV::Define(x, _, body, _) => {
                let m = define_meta(*body, path);
                lemma_add_define_entries(prev.functions, x, m, name);
                if name == x {
                    let ms = entries_of(prev.functions, x);
                    assert(ms.push(m).drop_last() =~= ms);
                }
            },
            ExprV::Shape(x, fields, _) => {
                lemma_table_insert(prev.shapes, x, (fields, path, 0usize), name);
            },
            _ => {},
        }
    }
}

/// Re-indexing a file replaces exactly its entries: afterwards, under each
/// name, the entries from the file are those of the file's definitions of
/// that name, in order; the entries from every other file are as they were;
/// no name is left without entries; and each shape name gives the file's
/// last shape of that name, or else what other files had under it.
pub proof fn lemma_reindex_file(ix: CodebaseIndexV, es: Seq<ExprV>, path: Seq<char>, name: Seq<char>)
    ensures
        ({
            let after = index_upto(purged(ix, path), es, path, es.len() as int);
            &&& metas_from(entries_of(after.functions, name), path) == defines_named(es, name, path, es.len() as int)
            &&& purge_functions(after.functions, path) == purge_functions(ix.functions, path)
            &&& no_empty_entries(after.functions)
            &&& find_entry(after.shapes, name) == match last_shape_named(es, name, es.len() as int) {
                Some(fields) => Some((fields, path, 0usize)),
                None => find_entry(purge_shapes(ix.shapes, path), name),
            }
        }),
{
    let n = es.len() as int;
    let p0 = purged(ix, path);
    lemma_index_upto_file(ix, es, path, n, name);
    lemma_purge_index(p0, es, path, n);
    lemma_purge_clean(ix.functions, path);
    lemma_purge_clean(p0.functions, path);
}

/// No name occurs twice in a table.
pub open spec fn distinct_names<V>(t: Seq<(Seq<char>, V)>) -> bool {
    forall|i: int, j: int| 0 <= i < j < t.len() ==> t[i].0 != t[j].0
}

impl CodebaseIndex {
    /// Each function name and each shape name occurs once, and each function
    /// name holds at least one definition.
    #[verifier::type_invariant]
    spec fn well_formed(self) -> bool {
        &&& distinct_names(view_functions(self.functions@))
        &&& no_empty_entries(view_functions(self.functions@))
        &&& distinct_names(view_shape_entries(self.shapes@))
    }
}

/// Purging keeps names apart and only keeps names that were there.
proof fn lemma_purge_functions_names(fs: Seq<(Seq<char>, Seq<SymbolMetadataV>)>, path: Seq<char>)
    ensures
        distinct_names(fs) ==> distinct_names(purge_functions(fs, path)),
        forall|k: int| 0 <= k < purge_functions(fs, path).len() ==> exists|i: int| 0 <= i < fs.len() && fs[i].0 == (
            #[trigger] purge_functions(fs, path)[k]).0,
    decreases fs.len(),
{
    if fs.len() > 0 {
        let d = fs.drop_last();
        lemma_purge_functions_names(d, path);
        let r = purge_functions(d, path);
        let u = purge_functions(fs, path);
        assert forall|k: int| 0 <= k < u.len() implies exists|i: int| 0 <= i < fs.len() && fs[i].0 == (#[trigger] u[k]).0 by {
            if k < r.len() {
                assert(u[k] == r[k]);
                let i = choose|i: int| 0 <= i < d.len() && d[i].0 == r[k].0;
                assert(fs[i] == d[i]);
            } else {
                assert(fs[fs.len() - 1].0 == u[k].0);
            }
        }
        if distinct_names(fs) {
            assert(distinct_names(d)) by {
                assert forall|a: int, b: int| 0 <= a < b < d.len() implies d[a].0 != d[b].0 by {
                    assert(d[a] == fs[a] && d[b] == fs[b]);
                }
            }
            assert forall|a: int, b: int| 0 <= a < b < u.len() implies u[a].0 != u[b].0 by {
                if b < r.len() {
                    assert(u[a] == r[a] && u[b] == r[b]);
                } else {
                    assert(u[a] == r[a]);
                    let i = choose|i: int| 0 <= i < d.len() && d[i].0 == r[a].0;
                    assert(fs[i] == d[i]);
                    assert(fs[i].0 != fs[fs.len() - 1].0);
                }
            }
        }
    }
}

/// Purging shapes keeps names apart.
proof fn lemma_purge_shapes_names(ss: Seq<(Seq<char>, ShapeEntryV)>, path: Seq<char>)
    ensures
        distinct_names(ss) ==> distinct_names(purge_shapes(ss, path)),
        forall|k: int| 0 <= k < purge_shapes(ss, path).len() ==> exists|i: int| 0 <= i < ss.len() && ss[i].0 == (
            #[trigger] purge_shapes(ss, path)[k]).0,
    decreases ss.len(),
{
    if ss.len() > 0 {
        let d = ss.drop_last();
        lemma_purge_shapes_names(d, path);
        let r = purge_shapes(d, path);
        let u = purge_shapes(ss, path);
        assert forall|k: int| 0 <= k < u.len() implies exists|i: int| 0 <= i < ss.len() && ss[i].0 == (#[trigger] u[k]).0 by {
            if k < r.len() {
                assert(u[k] == r[k]);
                let i = choose|i: int| 0 <= i < d.len() && d[i].0 == r[k].0;
                assert(ss[i] == d[i]);
            } else {
                assert(ss[ss.len() - 1].0 == u[k].0);
            }
        }
        if distinct_names(ss) {
            assert(distinct_names(d)) by {
                assert forall|a: int, b: int| 0 <= a < b < d.len() implies d[a].0 != d[b].0 by {
                    assert(d[a] == ss[a] && d[b] == ss[b]);
                }
            }
            assert forall|a: int, b: int| 0 <= a < b < u.len() implies u[a].0 != u[b].0 by {
                if b < r.len() {
                    assert(u[a] == r[a] && u[b] == r[b]);
                } else {
                    assert(u[a] == r[a]);
                    let i = choose|i: int| 0 <= i < d.len() && d[i].0 == r[a].0;
                    assert(ss[i] == d[i]);
                    assert(ss[i].0 != ss[ss.len() - 1].0);
                }
            }
        }
    }
}

/// Copies of some entries.
fn copy_metas(v: &Vec<SymbolMetadata>) -> (r: Vec<SymbolMetadata>)
    ensures
        view_metas(r@) == view_metas(v@),
{
    let mut r: Vec<SymbolMetadata> = Vec::new();
    let mut i: usize = 0;
    while i < v.len()
        invariant
            i <= v@.len(),
            view_metas(r@) == view_metas(v@).take(i as int),
        decreases v@.len() - i,
    {
        let c = v[i].copy();
        let ghost old_r = r@;
        r.push(c);
        proof {
            assert(view_metas(r@) =~= view_metas(old_r).push(c@));
            assert(view_metas(v@).take(i + 1) =~= view_metas(v@).take(i as int).push(v@[i as int]@));
        }
        i = i + 1;
    }
    proof {
        assert(view_metas(v@).take(v@.len() as int) =~= view_metas(v@));
    }
    r
}

/// The entry that the last shape named `name` among the first `n`
/// expressions of a file `path` records.
pub open spec fn last_shape_for(es: Seq<ExprV>, path: Seq<char>, n: int, name: Seq<char>) -> Option<ShapeEntryV>
    decreases n,
{
    if n <= 0 {
        None
    } else {
        match es[n - 1] {
            ExprV::Shape(nm, fields, _) => if nm == name {
                Some((fields, path, 0usize))
            } else {
                last_shape_for(es, path, n - 1, name)
            },
            _ => last_shape_for(es, path, n - 1, name),
        }
    }
}

proof fn lemma_index_shape_lookup(ix: CodebaseIndexV, es: Seq<ExprV>, path: Seq<char>, n: int, name: Seq<char>)
    ensures
        find_entry(index_upto(ix, es, path, n).shapes, name) == match last_shape_for(es, path, n, name) {
            Some(v) => Some(v),
            None => find_entry(ix.shapes, name),
        },
    decreases n,
{
    if n > 0 {
        lemma_index_shape_lookup(ix, es, path, n - 1, name);
        let prev = index_upto(ix, es, path, n - 1);
        match es[n - 1] {
            ExprV::Shape(nm, fields, _) => {
                crate::compiler::table::lemma_table_insert(prev.shapes, nm, (fields, path, 0usize), name);
            },
            _ => {},
        }
    }
}

proof fn lemma_distinct_insert<V>(t: Seq<(Seq<char>, V)>, name: Seq<char>, v: V)
    requires
        distinct_names(t),
    ensures
        distinct_names(table_insert(t, name, v)),
{
    lemma_entry_index(t, name);
    let u = table_insert(t, name, v);
    match entry_index(t, name) {
        Some(i) => {
            assert forall|a: int, b: int| 0 <= a < b < u.len() implies u[a].0 != u[b].0 by {
                assert(t[a].0 != t[b].0);
            }
        },
        None => {
            assert forall|a: int, b: int| 0 <= a < b < u.len() implies u[a].0 != u[b].0 by {
                if b < t.len() {
                    assert(t[a].0 != t[b].0);
                } else {
                    assert(t[a].0 != name);
                }
            }
        },
    }
}

proof fn lemma_index_shapes_distinct(ix: CodebaseIndexV, es: Seq<ExprV>, path: Seq<char>, n: int)
    requires
        distinct_names(ix.shapes),
    ensures
        distinct_names(index_upto(ix, es, path, n).shapes),
    decreases n,
{
    if n > 0 {
        lemma_index_shapes_distinct(ix, es, path, n - 1);
        let prev = index_upto(ix, es, path, n - 1);
        match es[n - 1] {
            ExprV::Shape(nm, fields, _) => lemma_distinct_insert(prev.shapes, nm, (fields, path, 0usize)),
            _ => {},
        }
    }
}

proof fn lemma_find_entry_push<V>(t: Seq<(Seq<char>, V)>, x: (Seq<char>, V), name: Seq<char>)
    ensures
        find_entry(t.push(x), name) == match find_entry(t, name) {
            Some(v) => Some(v),
            None => if x.0 == name {
                Some(x.1)
            } else {
                None
            },
        },
    decreases t.len(),
{
    let u = t.push(x);
    if t.len() > 0 {
        assert(u[0] == t[0]);
        assert(u.drop_first() =~= t.drop_first().push(x));
        lemma_find_entry_push(t.drop_first(), x, name);
        if t[0].0 == name {
            assert(find_entry(u, name) == Some(t[0].1));
            assert(find_entry(t, name) == Some(t[0].1));
        } else {
            assert(find_entry(u, name) == find_entry(u.drop_first(), name));
            assert(find_entry(t, name) == find_entry(t.drop_first(), name));
        }
    } else {
        assert(u[0] == x);
        assert(u.drop_first() =~= Seq::<(Seq<char>, V)>::empty());
        assert(find_entry(t, name) is None);
        assert(find_entry(u.drop_first(), name) is None);
    }
}

proof fn lemma_purge_shapes_lookup(ss: Seq<(Seq<char>, ShapeEntryV)>, path: Seq<char>, name: Seq<char>)
    requires
        distinct_names(ss),
    ensures
        find_entry(purge_shapes(ss, path), name) == match find_entry(ss, name) {
            Some(v) => if v.1 == path {
                None
            } else {
                Some(v)
            },
            None => None,
        },
    decreases ss.len(),
{
    if ss.len() > 0 {
        let d = ss.drop_last();
        assert(distinct_names(d)) by {
            assert forall|a: int, b: int| 0 <= a < b < d.len() implies d[a].0 != d[b].0 by {
                assert(d[a] == ss[a] && d[b] == ss[b]);
            }
        }
        lemma_purge_shapes_lookup(d, path, name);
        let x = ss.last();
        assert(d.push(x) =~= ss);
        lemma_find_entry_push(d, x, name);
        lemma_find_entry_push(purge_shapes(d, path), x, name);
        if x.0 == name {
            lemma_entry_index(d, name);
            match entry_index(d, name) {
                Some(q) => {
                    assert(ss[q as int].0 != ss[ss.len() - 1].0);
                },
                None => {},
            }
        }
    }
}

proof fn lemma_purged_shapes_free(ss: Seq<(Seq<char>, ShapeEntryV)>, path: Seq<char>, name: Seq<char>)
    ensures
        find_entry(purge_shapes(ss, path), name) matches Some(v) ==> v.1 != path,
    decreases ss.len(),
{
    if ss.len() > 0 {
        lemma_purged_shapes_free(ss.drop_last(), path, name);
        let r = purge_shapes(ss.drop_last(), path);
        if ss.last().1.1 != path {
            lemma_find_entry_push(r, ss.last(), name);
        }
    }
}

/// Indexing a file again leaves every shape lookup as indexing it once:
/// the file's shapes are replaced, and the other files' shapes are those
/// that indexing it once left.
pub proof fn lemma_reindex_shapes(ix: CodebaseIndexV, es: Seq<ExprV>, path: Seq<char>, name: Seq<char>)
    requires
        distinct_names(ix.shapes),
    ensures
        ({
            let once = index_upto(purged(ix, path), es, path, es.len() as int);
            find_entry(index_upto(purged(once, path), es, path, es.len() as int).shapes, name) == find_entry(
                once.shapes,
                name,
            )
        }),
{
    let n = es.len() as int;
    let p0 = purged(ix, path);
    let once = index_upto(p0, es, path, n);
    let p1 = purged(once, path);
    lemma_purge_shapes_names(ix.shapes, path);
    lemma_index_shapes_distinct(p0, es, path, n);
    lemma_index_shape_lookup(p0, es, path, n, name);
    lemma_index_shape_lookup(p1, es, path, n, name);
    lemma_purge_shapes_lookup(once.shapes, path, name);
    lemma_purged_shapes_free(ix.shapes, path, name);
}

impl CodebaseIndex {
    /// An empty index.
    pub fn new() -> (r: CodebaseIndex)
        ensures
            r@.functions.len() == 0,
            r@.shapes.len() == 0,
    {
        let r = CodebaseIndex { functions: Vec::new(), shapes: Vec::new() };
        proof {
            assert(r@.functions =~= Seq::<(Seq<char>, Seq<SymbolMetadataV>)>::empty());
            assert(r@.shapes =~= Seq::<(Seq<char>, ShapeEntryV)>::empty());
        }
        r
    }

    /// The definitions indexed under a function name.
    pub fn get_function(&self, name: &str) -> (r: Option<&Vec<SymbolMetadata>>)
        ensures
            match (r, find_entry(self@.functions, name@)) {
                (Some(a), Some(b)) => view_metas(a@) == b,
                (None, None) => true,
                _ => false,
            },
    {
        let ghost fv = self@.functions;
        let mut i: usize = 0;
        proof {
            assert(fv.skip(0) =~= fv);
        }
        while i < self.functions.len()
            invariant
                i <= self.functions@.len(),
                fv == view_functions(self.functions@),
                find_entry(fv, name@) == find_entry(fv.skip(i as int), name@),
            decreases self.functions@.len() - i,
        {
            proof {
                assert(fv.skip(i as int).drop_first() =~= fv.skip(i + 1));
                assert(fv.skip(i as int)[0] == fv[i as int]);
            }
            if str_eq(self.functions[i].0.as_str(), name) {
                return Some(&self.functions[i].1);
            }
            i = i + 1;
        }
        None
    }

    /// The fields, file and line of the shape indexed under a name.
    pub fn get_shape(&self, name: &str) -> (r: Option<&(Vec<String>, String, usize)>)
        ensures
            match (r, find_entry(self@.shapes, name@)) {
                (Some(a), Some(b)) => (view_strings(a.0@), a.1@, a.2) == b,
                (None, None) => true,
                _ => false,
            },
    {
        let ghost sv = self@.shapes;
        let mut i: usize = 0;
        proof {
            assert(sv.skip(0) =~= sv);
        }
        while i < self.shapes.len()
            invariant
                i <= self.shapes@.len(),
                sv == view_shape_entries(self.shapes@),
                find_entry(sv, name@) == find_entry(sv.skip(i as int), name@),
            decreases self.shapes@.len() - i,
        {
            proof {
                assert(sv.skip(i as int).drop_first() =~= sv.skip(i + 1));
                assert(sv.skip(i as int)[0] == sv[i as int]);
            }
            if str_eq(self.shapes[i].0.as_str(), name) {
                return Some(&self.shapes[i].1);
            }
            i = i + 1;
        }
        None
    }

    /// The number of indexed shapes.
    pub fn shape_count(&self) -> (r: usize)
        ensures
            r == self@.shapes.len(),
    {
        self.shapes.len()
    }

    /// Drops everything previously indexed from `path`, so that analysing a
    /// file again replaces its entries instead of adding to them.
    pub fn purge_file(&mut self, path: &str)
        ensures
            final(self)@ == purged(old(self)@, path@),
    {
        let ghost fv = view_functions(self.functions@);
        let ghost sv = view_shape_entries(self.shapes@);
        let mut funcs: Vec<(String, Vec<SymbolMetadata>)> = Vec::new();
        let mut i: usize = 0;
        proof {
            assert(view_functions(funcs@) =~= purge_functions(fv.take(0), path@));
        }
        while i < self.functions.len()
            invariant
                i <= self.functions@.len(),
                fv == view_functions(self.functions@),
                view_functions(funcs@) == purge_functions(fv.take(i as int), path@),
            decreases self.functions@.len() - i,
        {
            let metas = &self.functions[i].1;
            let mut kept: Vec<SymbolMetadata> = Vec::new();
            let ghost mv = view_metas(metas@);
            let mut j: usize = 0;
            proof {
                assert(view_metas(kept@) =~= keep_metas(mv.take(0), path@));
            }
            while j < metas.len()
                invariant
                    j <= metas@.len(),
                    mv == view_metas(metas@),
                    view_metas(kept@) == keep_metas(mv.take(j as int), path@),
                decreases metas@.len() - j,
            {
                proof {
                    assert(mv.take(j + 1).drop_last() =~= mv.take(j as int));
                    assert(mv.take(j + 1).last() == metas@[j as int]@);
                }
                if !str_eq(metas[j].path.as_str(), path) {
                    let ghost old_k = kept@;
                    let c = metas[j].copy();
                    kept.push(c);
                    proof {
                        assert(view_metas(kept@) =~= view_metas(old_k).push(c@));
                    }
                }
                j = j + 1;
            }
            proof {
                assert(mv.take(metas@.len() as int) =~= mv);
                assert(fv.take(i + 1).drop_last() =~= fv.take(i as int));
                assert(fv.take(i + 1).last() == fv[i as int]);
            }
            if kept.len() != 0 {
                let ghost old_f = funcs@;
                let n = copy_string(&self.functions[i].0);
                funcs.push((n, kept));
                proof {
                    assert(view_functions(funcs@) =~= view_functions(old_f).push((n@, view_metas(kept@))));
                }
            }
            i = i + 1;
        }
        proof {
            assert(fv.take(self.functions@.len() as int) =~= fv);
        }
        let mut shapes: Vec<(String, (Vec<String>, String, usize))> = Vec::new();
        let mut k: usize = 0;
        proof {
            assert(view_shape_entries(shapes@) =~= purge_shapes(sv.take(0), path@));
        }
        while k < self.shapes.len()
            invariant
                k <= self.shapes@.len(),
                sv == view_shape_entries(self.shapes@),
                view_shape_entries(shapes@) == purge_shapes(sv.take(k as int), path@),
            decreases self.shapes@.len() - k,
        {
            proof {
                assert(sv.take(k + 1).drop_last() =~= sv.take(k as int));
                assert(sv.take(k + 1).last() == sv[k as int]);
            }
            let entry = &self.shapes[k];
            if !str_eq(entry.1.1.as_str(), path) {
                let ghost old_s = shapes@;
                let c = (copy_string(&entry.0), (copy_strings(&entry.1.0), copy_string(&entry.1.1), entry.1.2));
                shapes.push(c);
                proof {
                    assert(view_shape_entries(shapes@) =~= view_shape_entries(old_s).push(sv[k as int]));
                }
            }
            k = k + 1;
        }
        proof {
            assert(sv.take(self.shapes@.len() as int) =~= sv);
        }
        proof {
            use_type_invariant(&*self);
            lemma_purge_functions_names(fv, path@);
            lemma_purge_shapes_names(sv, path@);
            lemma_purge_clean(fv, path@);
        }
        self.functions = funcs;
        self.shapes = shapes;
    }

    /// Adds one entry under a function name.
    fn add_define(&mut self, name: String, meta: SymbolMetadata)
        ensures
            final(self)@.functions == add_define(old(self)@.functions, name@, meta@),
            final(self)@.shapes == old(self)@.shapes,
    {
        let ghost fv = view_functions(self.functions@);
        let ghost f0 = self.functions@;
        let ghost s0 = self.shapes@;
        proof {
            use_type_invariant(&*self);
            lemma_entry_index(fv, name@);
        }
        let mut i: usize = 0;
        while i < self.functions.len()
            invariant
                i <= self.functions@.len(),
                self.functions@ == f0,
                self.shapes@ == s0,
                old(self).functions@ == f0,
                old(self).shapes@ == s0,
                distinct_names(fv),
                no_empty_entries(fv),
                distinct_names(view_shape_entries(s0)),
                fv == view_functions(self.functions@),
                forall|j: int| 0 <= j < i ==> fv[j].0 != name@,
            decreases self.functions@.len() - i,
        {
            if string_eq(&self.functions[i].0, &name) {
                proof {
                    assert(fv[i as int].0 == name@);
                    lemma_entry_index(fv, name@);
                    match entry_index(fv, name@) {
                        Some(q) => {
                            if q < i {
                                assert(fv[q as int].0 != name@);
                            }
                            if q > i {
                                assert(fv[i as int].0 != name@);
                            }
                        },
                        None => {
                            assert(fv[i as int].0 != name@);
                        },
                    }
                }
                let ghost old_list = view_metas(self.functions@[i as int].1@);
                let ghost before = self.functions@;
                let ghost mv = meta@;
                let mut list = copy_metas(&self.functions[i].1);
                list.push(meta);
                let entry = (copy_string(&self.functions[i].0), list);
                proof {
                    assert(view_metas(entry.1@) =~= old_list.push(mv));
                    assert(view_functions(before.update(i as int, entry)) =~= fv.update(i as int, (name@, old_list.push(mv))));
                    assert forall|a: int, b: int| 0 <= a < b < fv.len() implies fv.update(i as int, (name@, old_list.push(mv)))[a].0
                        != fv.update(i as int, (name@, old_list.push(mv)))[b].0 by {
                        assert(fv[a].0 != fv[b].0);
                    }
                    assert forall|a: int| 0 <= a < fv.len() implies (#[trigger] fv.update(i as int, (name@, old_list.push(mv)))[a]).1.len() > 0 by {
                        if a != i {
                            assert(fv[a].1.len() > 0);
                        }
                    }
                }
                let mut fs: Vec<(String, Vec<SymbolMetadata>)> = Vec::new();
                std::mem::swap(&mut fs, &mut self.functions);
                fs.set(i, entry);
                self.functions = fs;
                proof {
                    assert(view_functions(self.functions@) =~= fv.update(i as int, (name@, old_list.push(mv))));
                }
                return;
            }
            i = i + 1;
        }
        proof {
            match entry_index(fv, name@) {
                Some(q) => {
                    assert(fv[q as int].0 != name@);
                },
                None => {},
            }
        }
        let ghost mv = meta@;
        let ghost nv = name@;
        let mut list: Vec<SymbolMetadata> = Vec::new();
        list.push(meta);
        proof {
            assert(view_metas(list@) =~= seq![mv]);
            let u = fv.push((nv, seq![mv]));
            assert forall|a: int, b: int| 0 <= a < b < u.len() implies u[a].0 != u[b].0 by {
                if b < fv.len() {
                    assert(fv[a].0 != fv[b].0);
                } else {
                    assert(fv[a].0 != name@);
                }
            }
            assert forall|a: int| 0 <= a < u.len() implies (#[trigger] u[a]).1.len() > 0 by {
                if a < fv.len() {
                    assert(fv[a].1.len() > 0);
                }
            }
            assert(view_functions(f0.push((name, list))) =~= u);
        }
        let mut fs: Vec<(String, Vec<SymbolMetadata>)> = Vec::new();
        std::mem::swap(&mut fs, &mut self.functions);
        fs.push((name, list));
        self.functions = fs;
        proof {
            assert(view_metas(list@) =~= seq![mv]);
            assert(view_functions(self.functions@) =~= fv.push((nv, seq![mv])));
        }
    }

    /// Replaces the shape stored under a name, or adds it.
    fn add_shape(&mut self, name: String, entry: (Vec<String>, String, usize))
        ensures
            final(self)@.shapes == table_insert(
                old(self)@.shapes,
                name@,
                (view_strings(entry.0@), entry.1@, entry.2),
            ),
            final(self)@.functions == old(self)@.functions,
    {
        let ghost sv = view_shape_entries(self.shapes@);
        let ghost ev = (view_strings(entry.0@), entry.1@, entry.2);
        let ghost f0 = self.functions@;
        let ghost s0 = self.shapes@;
        proof {
            use_type_invariant(&*self);
            lemma_entry_index(sv, name@);
        }
        let mut i: usize = 0;
        while i < self.shapes.len()
            invariant
                i <= self.shapes@.len(),
                self.functions@ == f0,
                self.shapes@ == s0,
                old(self).functions@ == f0,
                old(self).shapes@ == s0,
                distinct_names(sv),
                distinct_names(view_functions(f0)),
                no_empty_entries(view_functions(f0)),
                sv == view_shape_entries(self.shapes@),
                ev == (view_strings(entry.0@), entry.1@, entry.2),
                forall|j: int| 0 <= j < i ==> sv[j].0 != name@,
            decreases self.shapes@.len() - i,
        {
            if string_eq(&self.shapes[i].0, &name) {
                proof {
                    assert(sv[i as int].0 == name@);
                    lemma_entry_index(sv, name@);
                    match entry_index(sv, name@) {
                        Some(q) => {
                            if q < i {
                                assert(sv[q as int].0 != name@);
                            }
                            if q > i {
                                assert(sv[i as int].0 != name@);
                            }
                        },
                        None => {
                            assert(sv[i as int].0 != name@);
                        },
                    }
                }
                let ghost nv = name@;
                let pair = (name, entry);
                let ghost gp = pair;
                proof {
                    assert(view_shape_entries(s0.update(i as int, gp)) =~= sv.update(i as int, (nv, ev)));
                    assert forall|a: int, b: int| 0 <= a < b < sv.len() implies sv.update(i as int, (nv, ev))[a].0
                        != sv.update(i as int, (nv, ev))[b].0 by {
                        assert(sv[a].0 != sv[b].0);
                    }
                }
                let mut ss: Vec<(String, (Vec<String>, String, usize))> = Vec::new();
                std::mem::swap(&mut ss, &mut self.shapes);
                ss.set(i, pair);
                self.shapes = ss;
                proof {
                    assert(self.shapes@ == s0.update(i as int, gp));
                    assert(self.shapes@[i as int] == gp);
                    assert(gp.0@ == nv);
                    assert(view_strings(gp.1.0@) == ev.0);
                    assert(gp.1.1@ == ev.1);
                    assert(gp.1.2 == ev.2);
                    assert(view_shape_entries(self.shapes@)[i as int] == (nv, ev));
                    assert(view_shape_entries(self.shapes@) =~= sv.update(i as int, (nv, ev)));
                }
                return;
            }
            i = i + 1;
        }
        proof {
            match entry_index(sv, name@) {
                Some(q) => {
                    assert(sv[q as int].0 != name@);
                },
                None => {},
            }
        }
        let ghost nv = name@;
        proof {
            let u = sv.push((nv, ev));
            assert forall|a: int, b: int| 0 <= a < b < u.len() implies u[a].0 != u[b].0 by {
                if b < sv.len() {
                    assert(sv[a].0 != sv[b].0);
                } else {
                    assert(sv[a].0 != name@);
                }
            }
            assert(view_shape_entries(s0.push((name, entry))) =~= u);
        }
        let mut ss: Vec<(String, (Vec<String>, String, usize))> = Vec::new();
        std::mem::swap(&mut ss, &mut self.shapes);
        ss.push((name, entry));
        self.shapes = ss;
        proof {
            assert(view_shape_entries(self.shapes@) =~= sv.push((nv, ev)));
        }
    }

    /// Indexes the expressions of the file `path`, replacing what was indexed
    /// from it before: each definition adds an entry with its body, the names
    /// it calls and the hash of its structure; each shape replaces the shape
    /// of its name. Returns the number of definitions indexed.
    pub fn index_exprs(&mut self, path: &str, expressions: Vec<Expr>) -> (count: usize)
        ensures
            final(self)@ == index_upto(
                purged(old(self)@, path@),
                view_exprs(expressions@),
                path@,
                expressions@.len() as int,
            ),
            count == count_defines(view_exprs(expressions@), expressions@.len() as int),
    {
        self.purge_file(path);
        let ghost start = self@;
        let ghost es = view_exprs(expressions@);
        proof {
            lemma_view_exprs(expressions@);
        }
        let mut count: usize = 0;
        let mut i: usize = 0;
        while i < expressions.len()
            invariant
                es == view_exprs(expressions@),
                es.len() == expressions@.len(),
                forall|k: int| 0 <= k < es.len() ==> #[trigger] es[k] == expressions@[k]@,
                i <= expressions@.len(),
                count <= i,
                self@ == index_upto(start, es, path@, i as int),
                count == count_defines(es, i as int),
            decreases expressions@.len() - i,
        {
            match &expressions[i] {
                Expr::Define(name, _, body, _) => {
                    let calls = body.get_calls();
                    let fp = fingerprint_of(body);
                    let meta = SymbolMetadata {
                        expr: body.deep_copy(),
                        path: string_of(path),
                        line: 0,
                        calls,
                        fingerprint: fp,
                    };
                    proof {
                        assert(meta@ == define_meta((**body)@, path@));
                    }
                    self.add_define(copy_string(name), meta);
                    count = count + 1;
                },
                Expr::Shape(name, fields, _) => {
                    self.add_shape(copy_string(name), (copy_strings(fields), string_of(path), 0));
                },
                _ => {},
            }
            i = i + 1;
        }
        count
    }

    /// Resolves a function name to one definition: the only one, or the one
    /// in the file `path` when given (see `resolution`). `canonical` maps the
    /// paths the caller could resolve on disk to their canonical forms.
    pub fn resolve_function(&self, name: &str, path: Option<&str>, canonical: &Vec<(String, String)>) -> (r: Result<
        &SymbolMetadata,
        String,
    >)
        ensures
            match (
                r,
                resolution(
                    self@,
                    name@,
                    match path {
                        Some(p) => Some(p@),
                        None => None,
                    },
                    canonical@.map_values(|p: (String, String)| (p.0@, p.1@)),
                ),
            ) {
                (Ok(m), Ok(v)) => m@ == v,
                (Err(e), Err(v)) => e@ == v,
                _ => false,
            },
    {
        let ghost cv = canonical@.map_values(|p: (String, String)| (p.0@, p.1@));
        let metas = match self.get_function(name) {
            Some(m) => m,
            None => {
                let mut e = string_of("Function not found: ");
                push_str(&mut e, name);
                return Err(e);
            },
        };
        let ghost ms = view_metas(metas@);
        if metas.len() == 0 {
            let mut e = string_of("Function not found: ");
            push_str(&mut e, name);
            return Err(e);
        }
        match path {
            Some(p) => {
                match find_in_file(metas, p, canonical) {
                    Some(i) => {
                        proof {
                            assert(ms[i as int] == metas@[i as int]@);
                        }
                        return Ok(&metas[i]);
                    },
                    None => {},
                }
                let mut e = string_of("Function '");
                push_str(&mut e, name);
                push_str(&mut e, "' is not defined in '");
                push_str(&mut e, p);
                push_str(&mut e, "'; known locations: ");
                push_debug_paths(&mut e, metas);
                Err(e)
            },
            None => {
                if metas.len() == 1 {
                    Ok(&metas[0])
                } else {
                    let mut e = string_of("Function '");
                    push_str(&mut e, name);
                    push_str(&mut e, "' is defined in multiple files: ");
                    push_debug_paths(&mut e, metas);
                    push_str(&mut e, "; pass 'path' to disambiguate");
                    Err(e)
                }
            },
        }
    }
}

/// The position of the first entry defined in the file `path`.
fn find_in_file(metas: &Vec<SymbolMetadata>, path: &str, canonical: &Vec<(String, String)>) -> (r: Option<usize>)
    ensures
        match (r, first_in_file(view_metas(metas@), path@, canonical@.map_values(|p: (String, String)| (p.0@, p.1@)), 0)) {
            (Some(a), Some(b)) => a == b && a < metas@.len(),
            (None, None) => true,
            _ => false,
        },
{
    let ghost ms = view_metas(metas@);
    let ghost cv = canonical@.map_values(|p: (String, String)| (p.0@, p.1@));
    let mut i: usize = 0;
    while i < metas.len()
        invariant
            i <= metas@.len(),
            ms == view_metas(metas@),
            cv == canonical@.map_values(|p: (String, String)| (p.0@, p.1@)),
            first_in_file(ms, path@, cv, 0) == first_in_file(ms, path@, cv, i as int),
        decreases metas@.len() - i,
    {
        proof {
            assert(ms[i as int] == metas@[i as int]@);
        }
        if paths_match(metas[i].path.as_str(), path, canonical) {
            return Some(i);
        }
        i = i + 1;
    }
    None
}

impl CodebaseIndex {
    /// The names of the indexed functions, in index order.
    pub open spec fn function_names(&self) -> Seq<Seq<char>> {
        self@.functions.map_values(|p: (Seq<char>, Seq<SymbolMetadataV>)| p.0)
    }

    /// The names of the indexed shapes, in index order.
    pub open spec fn shape_names(&self) -> Seq<Seq<char>> {
        self@.shapes.map_values(|p: (Seq<char>, ShapeEntryV)| p.0)
    }

    /// The functions and shapes whose names contain `query`, one line each
    /// (`Function: <name>`, then `Shape: <name>`), joined by newlines.
    pub fn search_symbols(&self, query: &str) -> (r: String)
        ensures
            r@ == joined_lines(
                matching_lines(self.function_names(), "Function: "@, query@, self@.functions.len() as int)
                    + matching_lines(self.shape_names(), "Shape: "@, query@, self@.shapes.len() as int),
            ),
    {
        let ghost fnames = self.function_names();
        let ghost snames = self.shape_names();
        let mut lines: Vec<String> = Vec::new();
        let mut i: usize = 0;
        proof {
            assert(view_strings(lines@) =~= matching_lines(fnames, "Function: "@, query@, 0));
        }
        while i < self.functions.len()
            invariant
                i <= self.functions@.len(),
                fnames == self.function_names(),
                fnames.len() == self.functions@.len(),
                view_strings(lines@) == matching_lines(fnames, "Function: "@, query@, i as int),
            decreases self.functions@.len() - i,
        {
            proof {
                assert(fnames[i as int] == self.functions@[i as int].0@);
            }
            if contains_text_exec(self.functions[i].0.as_str(), query) {
                let mut line = string_of("Function: ");
                push_str(&mut line, self.functions[i].0.as_str());
                let ghost old_l = lines@;
                lines.push(line);
                proof {
                    assert(view_strings(lines@) =~= view_strings(old_l).push(line@));
                }
            }
            i = i + 1;
        }
        let ghost first = view_strings(lines@);
        let mut k: usize = 0;
        proof {
            assert(view_strings(lines@) =~= first + matching_lines(snames, "Shape: "@, query@, 0));
        }
        while k < self.shapes.len()
            invariant
                k <= self.shapes@.len(),
                snames == self.shape_names(),
                snames.len() == self.shapes@.len(),
                view_strings(lines@) == first + matching_lines(snames, "Shape: "@, query@, k as int),
            decreases self.shapes@.len() - k,
        {
            proof {
                assert(snames[k as int] == self.shapes@[k as int].0@);
            }
            if contains_text_exec(self.shapes[k].0.as_str(), query) {
                let mut line = string_of("Shape: ");
                push_str(&mut line, self.shapes[k].0.as_str());
                let ghost old_l = lines@;
                lines.push(line);
                proof {
                    assert(view_strings(lines@) =~= view_strings(old_l).push(line@));
                }
            }
            k = k + 1;
        }
        join_lines(&lines)
    }

    /// The functions with a definition that calls `symbol`, in code-point
    /// order.
    pub fn find_callers(&self, symbol: &str) -> (r: Vec<String>)
        ensures
            sorted_texts(view_strings(r@)),
            view_strings(r@).to_multiset() == callers_upto(self@.functions, symbol@, self@.functions.len() as int).to_multiset(),
    {
        let ghost fv = self@.functions;
        let mut names: Vec<String> = Vec::new();
        let mut i: usize = 0;
        proof {
            assert(view_strings(names@) =~= callers_upto(fv, symbol@, 0));
        }
        while i < self.functions.len()
            invariant
                i <= self.functions@.len(),
                fv == self@.functions,
                fv.len() == self.functions@.len(),
                view_strings(names@) == callers_upto(fv, symbol@, i as int),
            decreases self.functions@.len() - i,
        {
            let metas = &self.functions[i].1;
            let ghost ms = view_metas(metas@);
            proof {
                assert(fv[i as int] == (self.functions@[i as int].0@, ms));
            }
            let mut calls_it = false;
            let mut j: usize = 0;
            while j < metas.len()
                invariant
                    j <= metas@.len(),
                    ms == view_metas(metas@),
                    calls_it == exists|q: int| 0 <= q < j && (#[trigger] ms[q]).calls.contains(symbol@),
                decreases metas@.len() - j,
            {
                let c = crate::compiler::analysis::has_name(&metas[j].calls, symbol);
                proof {
                    assert(ms[j as int] == metas@[j as int]@);
                    assert(view_strings(metas@[j as int].calls@).to_set().contains(symbol@)
                        == view_strings(metas@[j as int].calls@).contains(symbol@));
                }
                if c {
                    calls_it = true;
                }
                j = j + 1;
            }
            if calls_it {
                let ghost old_n = names@;
                let n = copy_string(&self.functions[i].0);
                names.push(n);
                proof {
                    assert(view_strings(names@) =~= view_strings(old_n).push(n@));
                }
            }
            i = i + 1;
        }
        sort_texts(names)
    }

    /// The functions with a definition of the same structure as a
    /// definition of `function_name`, in code-point order; `None` when the
    /// name is not indexed.
    pub fn structural_search(&self, function_name: &str) -> (r: Option<Vec<String>>)
        ensures
            match (r, find_entry(self@.functions, function_name@)) {
                (Some(v), Some(ms)) => sorted_texts(view_strings(v@)) && view_strings(v@).to_multiset()
                    == same_structure_upto(
                    self@.functions,
                    ms.map_values(|m: SymbolMetadataV| m.fingerprint),
                    self@.functions.len() as int,
                ).to_multiset(),
                (None, None) => true,
                _ => false,
            },
    {
        let target = match self.get_function(function_name) {
            Some(t) => t,
            None => {
                return None;
            },
        };
        let mut fps: Vec<String> = Vec::new();
        let mut t: usize = 0;
        let ghost tv = view_metas(target@);
        while t < target.len()
            invariant
                t <= target@.len(),
                tv == view_metas(target@),
                view_strings(fps@) == tv.take(t as int).map_values(|m: SymbolMetadataV| m.fingerprint),
            decreases target@.len() - t,
        {
            let ghost old_f = fps@;
            let f = copy_string(&target[t].fingerprint);
            fps.push(f);
            proof {
                assert(tv.take(t + 1) =~= tv.take(t as int).push(tv[t as int]));
                assert(view_strings(fps@) =~= view_strings(old_f).push(f@));
                assert(view_strings(fps@) =~= tv.take(t + 1).map_values(|m: SymbolMetadataV| m.fingerprint));
            }
            t = t + 1;
        }
        proof {
            assert(tv.take(target@.len() as int) =~= tv);
        }
        let ghost targets = view_strings(fps@);
        let ghost fv = self@.functions;
        let mut names: Vec<String> = Vec::new();
        let mut i: usize = 0;
        proof {
            assert(view_strings(names@) =~= same_structure_upto(fv, targets, 0));
        }
        while i < self.functions.len()
            invariant
                i <= self.functions@.len(),
                fv == self@.functions,
                fv.len() == self.functions@.len(),
                targets == view_strings(fps@),
                view_strings(names@) == same_structure_upto(fv, targets, i as int),
            decreases self.functions@.len() - i,
        {
            let metas = &self.functions[i].1;
            let ghost ms = view_metas(metas@);
            proof {
                assert(fv[i as int] == (self.functions@[i as int].0@, ms));
            }
            let mut shares = false;
            let mut j: usize = 0;
            while j < metas.len()
                invariant
                    j <= metas@.len(),
                    ms == view_metas(metas@),
                    targets == view_strings(fps@),
                    shares == exists|q: int| 0 <= q < j && targets.contains((#[trigger] ms[q]).fingerprint),
                decreases metas@.len() - j,
            {
                let c = crate::compiler::analysis::has_name(&fps, metas[j].fingerprint.as_str());
                proof {
                    assert(ms[j as int] == metas@[j as int]@);
                    assert(targets.to_set().contains(ms[j as int].fingerprint) == targets.contains(ms[j as int].fingerprint));
                }
                if c {
                    shares = true;
                }
                j = j + 1;
            }
            if shares {
                let ghost old_n = names@;
                let n = copy_string(&self.functions[i].0);
                names.push(n);
                proof {
                    assert(view_strings(names@) =~= view_strings(old_n).push(n@));
                }
            }
            i = i + 1;
        }
        Some(sort_texts(names))
    }
}

/// Lines joined by newlines (see `joined_lines`).
fn join_lines(lines: &Vec<String>) -> (r: String)
    ensures
        r@ == joined_lines(view_strings(lines@)),
{
    let ghost lv = view_strings(lines@);
    let mut s = String::new();
    let mut i: usize = 0;
    proof {
        assert(s@ =~= joined_lines(lv.take(0)));
    }
    while i < lines.len()
        invariant
            i <= lines@.len(),
            lv == view_strings(lines@),
            lv.len() == lines@.len(),
            s@ == joined_lines(lv.take(i as int)),
        decreases lines@.len() - i,
    {
        let ghost before = s@;
        if i > 0 {
            push_str(&mut s, "\n");
        }
        push_str(&mut s, lines[i].as_str());
        proof {
            assert(lv.take(i + 1).drop_last() =~= lv.take(i as int));
            assert(lv.take(i + 1).last() == lines@[i as int]@);
            if i == 0 {
                assert(lv.take(1) =~= seq![lv[0]]);
            }
            assert(s@ =~= joined_lines(lv.take(i + 1)));
        }
        i = i + 1;
    }
    proof {
        assert(lv.take(lines@.len() as int) =~= lv);
    }
    s
}

/// Appends the `Debug` rendering of the paths of some entries.
fn push_debug_paths(s: &mut String, metas: &Vec<SymbolMetadata>)
    ensures
        final(s)@ == old(s)@ + debug_paths(meta_paths(view_metas(metas@))),
{
    let ghost ps = meta_paths(view_metas(metas@));
    let ghost start = old(s)@;
    push_str(s, "[");
    let mut i: usize = 0;
    while i < metas.len()
        invariant
            i <= metas@.len(),
            ps == meta_paths(view_metas(metas@)),
            ps.len() == metas@.len(),
            s@ == start + "["@ + joined_debug(ps.take(i as int)),
        decreases metas@.len() - i,
    {
        let ghost before = s@;
        if i > 0 {
            push_str(s, ", ");
        }
        let d = debug_string(metas[i].path.as_str());
        push_str(s, d.as_str());
        proof {
            assert(ps.take(i + 1).drop_last() =~= ps.take(i as int));
            assert(ps.take(i + 1).last() == ps[i as int]);
            assert(ps[i as int] == metas@[i as int].path@);
            if i == 0 {
                assert(ps.take(1) =~= seq![ps[0]]);
                assert(joined_debug(ps.take(0)) =~= Seq::<char>::empty());
            }
        }
        i = i + 1;
    }
    push_str(s, "]");
    proof {
        assert(ps.take(metas@.len() as int) =~= ps);
    }
}

} // verus!
