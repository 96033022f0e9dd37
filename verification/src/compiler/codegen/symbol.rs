//! What the code generator decides without touching LLVM: the names that
//! functions get in the object file, the module's signature text, and which
//! values and parameters hold heap pointers.

use vstd::prelude::*;
use crate::Config;
use crate::compiler::analysis::{lookup_flag, returns_ptr_spec};
use crate::compiler::analysis::verify::body_verdict;
use crate::compiler::ast::{Expr, ExprV, Param, ParamV, copy_strings, view_exprs, view_params, view_strings, lemma_view_exprs};
use crate::compiler::error::{CompileError, ErrorView};
use crate::compiler::signature::{view_funcs, view_shapes};
use crate::compiler::table::{
    entry_index, find_entry, insert_fields, insert_number, lemma_entry_index, lookup_fields, lookup_number, lookup_text,
    table_insert,
};
use crate::text::{copy_string, nat_hex, push_str, str_eq, string_eq, string_of};

verus! {

/// The plain state of a code generator: everything it decides from, apart
/// from the LLVM objects themselves. `functions` lists the functions declared
/// in the LLVM module, with their parameter counts, in declaration order.
pub struct CodeGen {
    pub shapes: Vec<(String, Vec<String>)>,
    pub warnings: Vec<String>,
    pub templates: Vec<(String, (Vec<Param>, Expr))>,
    pub config: Config,
    pub input_path: String,
    /// File stem of `input_path`.
    pub module_name: String,
    /// `__llm_<hash of input_path in hex>_`, the prefix of mangled names.
    pub mangle_prefix: String,
    pub has_exports: bool,
    pub exports: Vec<String>,
    pub imports: Vec<(String, String)>,
    pub fn_returns_ptr: Vec<(String, bool)>,
    pub fn_param_ptrs: Vec<(String, Vec<bool>)>,
    pub functions: Vec<(String, usize)>,
    pub parallel_depth: usize,
    pub max_parallel_depth: usize,
    pub stack_bottom: usize,
    pub stack_size: usize,
    /// Counter for naming synthesized trap and parallel functions.
    pub synth_id: usize,
}

/// The view of a table of texts.
pub open spec fn view_texts(t: Seq<(String, String)>) -> Seq<(Seq<char>, Seq<char>)> {
    t.map_values(|p: (String, String)| (p.0@, p.1@))
}

/// The view of a table of flags.
pub open spec fn view_flags(t: Seq<(String, bool)>) -> Seq<(Seq<char>, bool)> {
    t.map_values(|p: (String, bool)| (p.0@, p.1))
}

/// The view of a table of flag lists.
pub open spec fn view_flag_lists(t: Seq<(String, Vec<bool>)>) -> Seq<(Seq<char>, Seq<bool>)> {
    t.map_values(|p: (String, Vec<bool>)| (p.0@, p.1@))
}

/// What the name resolution of a module reads: its stem, its mangling
/// prefix, its imports (symbol to module alias) and its declared functions.
pub struct SymbolsV {
    pub module_name: Seq<char>,
    pub prefix: Seq<char>,
    pub imports: Seq<(Seq<char>, Seq<char>)>,
    pub functions: Seq<(Seq<char>, usize)>,
}

/// Whether a module alias stands for the unnamespaced top level.
pub open spec fn top_level(m: Seq<char>) -> bool {
    m == "main"@ || m == "test"@
}

/// The name a symbol takes in module `m`.
pub open spec fn qualified(m: Seq<char>, name: Seq<char>) -> Seq<char> {
    if top_level(m) {
        name
    } else {
        m + "_"@ + name
    }
}

/// The module-private name of a function: `main` keeps its name, anything
/// else gets the module's prefix.
pub open spec fn mangled(sym: SymbolsV, name: Seq<char>) -> Seq<char> {
    if name == "main"@ {
        name
    } else {
        sym.prefix + name
    }
}

/// Whether the LLVM module declares a function of this name.
pub open spec fn declared(sym: SymbolsV, name: Seq<char>) -> bool {
    find_entry(sym.functions, name) is Some
}

/// The name under which a call to `name` is emitted: an imported symbol is
/// qualified by its module; otherwise the first declared of the
/// module-qualified, the mangled and the bare name, and the mangled name when
/// none is declared yet.
pub open spec fn resolved(sym: SymbolsV, name: Seq<char>) -> Seq<char> {
    match find_entry(sym.imports, name) {
        Some(m) => qualified(m, name),
        None => {
            let ns = qualified(sym.module_name, name);
            let lm = mangled(sym, name);
            if declared(sym, ns) {
                ns
            } else if declared(sym, lm) {
                lm
            } else if declared(sym, name) {
                name
            } else {
                lm
            }
        },
    }
}

/// Which stack slots (innermost last) and which parameters are known to
/// hold heap pointers.
pub type PtrFlags = (Seq<bool>, Seq<bool>);

/// What the pointer inference reads besides the expression: name
/// resolution, which functions return pointers, and which parameters of each
/// function take them.
pub struct InferCtx {
    pub sym: SymbolsV,
    pub fns: Seq<(Seq<char>, bool)>,
    pub params: Seq<(Seq<char>, Seq<bool>)>,
}

/// Marking an operand as a pointer: a slot reference (through any move or
/// borrow) flags its slot, and the parameter in the same position when there
/// is one.
pub open spec fn mark(e: ExprV, st: PtrFlags) -> PtrFlags
    decreases e,
{
    match e {
        ExprV::DeBruijn(idx) => if idx < st.0.len() {
            let a = st.0.len() - 1 - idx;
            (st.0.update(a, true), if a < st.1.len() {
                st.1.update(a, true)
            } else {
                st.1
            })
        } else {
            st
        },
        ExprV::Move(x) => mark(*x, st),
        ExprV::Borrow(x) => mark(*x, st),
        ExprV::MutBorrow(x) => mark(*x, st),
        _ => st,
    }
}

/// Marking the arguments whose parameter takes a pointer, from position `i`.
pub open spec fn mark_zip(args: Seq<ExprV>, flags: Seq<bool>, st: PtrFlags, i: int) -> PtrFlags
    decreases args.len() - i,
{
    if i < 0 || i >= args.len() || i >= flags.len() {
        st
    } else {
        mark_zip(args, flags, if flags[i] {
            mark(args[i], st)
        } else {
            st
        }, i + 1)
    }
}

/// The marks a call adds once its operands are inferred: the signing and
/// verifying primitives take pointers in their first arguments; any other
/// known function takes them where its parameters are flagged.
pub open spec fn call_marks(f: ExprV, args: Seq<ExprV>, st: PtrFlags, c: InferCtx) -> PtrFlags {
    match f {
        ExprV::Identifier(callee) => {
            let r = resolved(c.sym, callee);
            if r == "verify"@ || r == "crypto_verify"@ {
                if args.len() >= 3 {
                    mark(args[2], mark(args[1], mark(args[0], st)))
                } else {
                    st
                }
            } else if r == "sign"@ || r == "crypto_sign"@ {
                if args.len() >= 2 {
                    mark(args[1], mark(args[0], st))
                } else {
                    st
                }
            } else {
                match find_entry(c.params, r) {
                    Some(pt) => mark_zip(args, pt, st, 0),
                    None => match find_entry(c.params, callee) {
                        Some(pt) => mark_zip(args, pt, st, 0),
                        None => st,
                    },
                }
            }
        },
        _ => st,
    }
}

/// Pointer inference over an expression: operands that the runtime reads
/// through (strings, shape instances, handles) are marked, sub-expressions
/// are visited left to right, and a `L` slot starts out flagged when its
/// value returns a pointer.
pub open spec fn infer(e: ExprV, st: PtrFlags, c: InferCtx) -> PtrFlags
    decreases e, 0nat,
{
    match e {
        ExprV::Let(_, v, b) => {
            let s1 = infer(*v, st, c);
            let vp = returns_ptr_spec(*v, s1.0, c.fns);
            let s2 = infer(*b, (s1.0.push(vp), s1.1), c);
            (s2.0.drop_last(), s2.1)
        },
        ExprV::Sequence(l, r) => infer(*r, infer(*l, st, c), c),
        ExprV::If(x, t, f) => infer(*f, infer(*t, infer(*x, st, c), c), c),
        ExprV::Move(x) => infer(*x, st, c),
        ExprV::Borrow(x) => infer(*x, st, c),
        ExprV::MutBorrow(x) => infer(*x, st, c),
        ExprV::Trap(t, f) => infer(*f, infer(*t, st, c), c),
        ExprV::Cat(l, r) => infer(*r, infer(*l, mark(*r, mark(*l, st)), c), c),
        ExprV::Sub(x, b, l) => infer(*l, infer(*b, infer(*x, mark(*x, st), c), c), c),
        ExprV::Len(x) => infer(*x, mark(*x, st), c),
        ExprV::Loc(x, p) => infer(*p, infer(*x, mark(*p, mark(*x, st)), c), c),
        ExprV::Reg(x, r) => infer(*r, infer(*x, mark(*r, mark(*x, st)), c), c),
        ExprV::Split(x, d, i) => infer(*i, infer(*d, infer(*x, mark(*d, mark(*x, st)), c), c), c),
        ExprV::Write(h, x) => infer(*x, infer(*h, mark(*x, mark(*h, st)), c), c),
        ExprV::Apply(f, args) => call_marks(*f, args, infer_list(args, infer(*f, st, c), c), c),
        ExprV::Get(i, _, x) => infer(*x, infer(*i, mark(*i, st), c), c),
        ExprV::SetField(i, _, x, v) => infer(*v, infer(*x, infer(*i, mark(*i, st), c), c), c),
        ExprV::Unpack(x, _) => infer(*x, mark(*x, st), c),
        ExprV::Pack(x) => infer(*x, mark(*x, st), c),
        ExprV::MapField(i, _, f) => infer(*f, infer(*i, mark(*i, st), c), c),
        ExprV::Filter(i, f) => infer(*f, infer(*i, mark(*i, st), c), c),
        ExprV::HttpClient(m, u, b) => infer(
            *b,
            infer(*u, infer(*m, mark(*b, mark(*u, mark(*m, st))), c), c),
            c,
        ),
        ExprV::HttpServer(_, a) => infer(*a, mark(*a, st), c),
        ExprV::FileOpen(p, m) => infer(*m, infer(*p, mark(*m, mark(*p, st)), c), c),
        _ => st,
    }
}

/// Pointer inference over expressions in order.
pub open spec fn infer_list(es: Seq<ExprV>, st: PtrFlags, c: InferCtx) -> PtrFlags
    decreases es, 0nat,
{
    if es.len() == 0 {
        st
    } else {
        infer_list(es.subrange(1, es.len() as int), infer(es[0], st, c), c)
    }
}

/// A top-level expression with one layer of metadata taken off.
pub open spec fn unwrap_metadata(e: ExprV) -> ExprV {
    match e {
        ExprV::Metadata(_, _, t) => *t,
        _ => e,
    }
}

/// Which functions return pointers, and which of their parameters take them.
pub type PtrTables = (Seq<(Seq<char>, bool)>, Seq<(Seq<char>, Seq<bool>)>);

/// A table with `v` stored under three names in turn.
pub open spec fn insert3<V>(t: Seq<(Seq<char>, V)>, a: Seq<char>, b: Seq<char>, c: Seq<char>, v: V) -> Seq<
    (Seq<char>, V),
> {
    table_insert(table_insert(table_insert(t, a, v), b, v), c, v)
}

/// `n` cleared flags.
pub open spec fn no_flags(n: nat) -> Seq<bool> {
    Seq::new(n, |i: int| false)
}

/// The tables after the definitions among the first `n` expressions are
/// entered under their own, mangled and resolved names, returning no pointer
/// and taking none.
pub open spec fn init_tables(sym: SymbolsV, tb: PtrTables, es: Seq<ExprV>, n: int) -> PtrTables
    decreases n,
{
    if n <= 0 {
        tb
    } else {
        let p = init_tables(sym, tb, es, n - 1);
        match unwrap_metadata(es[n - 1]) {
            ExprV::Define(name, params, _, _) => (
                insert3(p.0, name, mangled(sym, name), resolved(sym, name), false),
                insert3(p.1, name, mangled(sym, name), resolved(sym, name), no_flags(params.len())),
            ),
            _ => p,
        }
    }
}

/// One definition's turn in a pass: its parameters' flags are inferred from
/// its body, and it is recorded as returning a pointer when its body does;
/// the flag says whether anything changed so far.
pub open spec fn define_step(
    sym: SymbolsV,
    tb: PtrTables,
    changed: bool,
    name: Seq<char>,
    params: Seq<ParamV>,
    body: ExprV,
) -> (PtrTables, bool) {
    let m = mangled(sym, name);
    let r = resolved(sym, name);
    let current = match find_entry(tb.1, name) {
        Some(v) => v,
        None => no_flags(params.len()),
    };
    let np = infer(body, (current, current), InferCtx { sym, fns: tb.0, params: tb.1 }).1;
    let (fp, ch) = if np != current {
        (insert3(tb.1, name, m, r, np), true)
    } else {
        (tb.1, changed)
    };
    let slots = match find_entry(fp, name) {
        Some(v) => v,
        None => current,
    };
    if returns_ptr_spec(body, slots, tb.0) && find_entry(tb.0, name) != Some(true) {
        ((insert3(tb.0, name, m, r, true), fp), true)
    } else {
        ((tb.0, fp), ch)
    }
}

/// A pass over the first `n` expressions, with whether it changed anything.
pub open spec fn pass_upto(sym: SymbolsV, tb: PtrTables, es: Seq<ExprV>, n: int) -> (PtrTables, bool)
    decreases n,
{
    if n <= 0 {
        (tb, false)
    } else {
        let (p, ch) = pass_upto(sym, tb, es, n - 1);
        match unwrap_metadata(es[n - 1]) {
            ExprV::Define(name, params, body, _) => define_step(sym, p, ch, name, params, *body),
            _ => (p, ch),
        }
    }
}

/// Up to `k` passes, stopping after the first that changes nothing.
pub open spec fn run_passes(sym: SymbolsV, tb: PtrTables, es: Seq<ExprV>, k: nat) -> PtrTables
    decreases k,
{
    if k == 0 {
        tb
    } else {
        let (t2, ch) = pass_upto(sym, tb, es, es.len() as int);
        if ch {
            run_passes(sym, t2, es, (k - 1) as nat)
        } else {
            t2
        }
    }
}

/// The tables after analysing a module: the definitions are entered, then
/// passes run until nothing changes, at most a hundred of them.
pub open spec fn analyzed(sym: SymbolsV, tb: PtrTables, es: Seq<ExprV>) -> PtrTables {
    run_passes(sym, init_tables(sym, tb, es, es.len() as int), es, 100)
}

/// The runtime functions known from the start to return heap pointers.
pub open spec fn ffi_ptr_functions() -> Seq<Seq<char>> {
    seq![
        "http_get"@, "http_post"@, "get"@, "post"@, "json_parse"@, "parse"@, "json_stringify"@,
        "stringify"@, "json_get_str"@, "get_str"@, "sign"@, "encrypt"@, "decrypt"@, "unwrap"@,
        "serve"@, "https_serve"@, "accept"@, "connect"@, "connect_binding"@, "query"@, "error"@,
        "db_connect"@, "db_connect_binding"@, "db_query"@, "db_error"@,
    ]
}

/// A mangling prefix: `__llm_`, a hash in lowercase hexadecimal, `_`.
pub open spec fn is_mangle_prefix(p: Seq<char>) -> bool {
    exists|h: u64| p == "__llm_"@ + nat_hex(h as nat) + "_"@
}

/// The names and parameter counts of the templates.
pub open spec fn view_templates(t: Seq<(String, (Vec<Param>, Expr))>) -> Seq<(Seq<char>, nat)> {
    t.map_values(|p: (String, (Vec<Param>, Expr))| (p.0@, p.1.0@.len()))
}

/// Whether a callee counts as a known function when a body is checked: it
/// resolves to a declared function, a template or a function with known
/// parameter flags, or its bare name is declared or has such flags.
pub open spec fn known_callee(
    sym: SymbolsV,
    templates: Seq<(Seq<char>, nat)>,
    params: Seq<(Seq<char>, Seq<bool>)>,
    call: Seq<char>,
) -> bool {
    let r = resolved(sym, call);
    ||| declared(sym, r)
    ||| find_entry(templates, r) is Some
    ||| declared(sym, call)
    ||| find_entry(params, r) is Some
    ||| find_entry(params, call) is Some
}

/// The function table a body is checked against: its known callees among
/// the first `n` calls, each at arity zero.
pub open spec fn callee_table(
    sym: SymbolsV,
    templates: Seq<(Seq<char>, nat)>,
    params: Seq<(Seq<char>, Seq<bool>)>,
    calls: Seq<Seq<char>>,
    n: int,
) -> Seq<(Seq<char>, usize)>
    decreases n,
{
    if n <= 0 {
        Seq::empty()
    } else if known_callee(sym, templates, params, calls[n - 1]) {
        table_insert(callee_table(sym, templates, params, calls, n - 1), calls[n - 1], 0usize)
    } else {
        callee_table(sym, templates, params, calls, n - 1)
    }
}

/// The name a function is emitted under: `main` keeps its name, an
/// exported function is qualified by its module, any other is mangled.
pub open spec fn emitted_name(sym: SymbolsV, name: Seq<char>, exported: bool) -> Seq<char> {
    if name == "main"@ {
        name
    } else if exported {
        qualified(sym.module_name, name)
    } else {
        mangled(sym, name)
    }
}

/// Whether some parameter is a template parameter.
pub open spec fn has_template_param(params: Seq<ParamV>) -> bool {
    exists|i: int| 0 <= i < params.len() && #[trigger] params[i].expand
}

/// The prefix that the module's own names carry in the object file.
pub open spec fn module_prefix(module: Seq<char>) -> Seq<char> {
    if top_level(module) {
        Seq::empty()
    } else {
        module + "_"@
    }
}

/// A name without the module prefix, when it carries it.
pub open spec fn strip_module_prefix(name: Seq<char>, prefix: Seq<char>) -> Seq<char> {
    if prefix.len() > 0 && prefix.is_prefix_of(name) {
        name.subrange(prefix.len() as int, name.len() as int)
    } else {
        name
    }
}

/// Names joined by single spaces.
pub open spec fn spaced(names: Seq<Seq<char>>) -> Seq<char>
    decreases names.len(),
{
    if names.len() == 0 {
        Seq::empty()
    } else if names.len() == 1 {
        names[0]
    } else {
        spaced(names.drop_last()) + " "@ + names.last()
    }
}

/// The signature lines of the exported shapes.
pub open spec fn shape_lines(shapes: Seq<(Seq<char>, Seq<Seq<char>>)>, prefix: Seq<char>, exports: Seq<Seq<char>>) -> Seq<
    char,
>
    decreases shapes.len(),
{
    if shapes.len() == 0 {
        Seq::empty()
    } else {
        let c = strip_module_prefix(shapes.last().0, prefix);
        shape_lines(shapes.drop_last(), prefix, exports) + if exports.contains(c) {
            "# "@ + c + " "@ + spaced(shapes.last().1) + "\n"@
        } else {
            Seq::empty()
        }
    }
}

/// Synthesized or runtime-internal functions, left out of signatures.
pub open spec fn internal_function(n: Seq<char>) -> bool {
    n == "main"@ || "trap_"@.is_prefix_of(n) || "parallel_"@.is_prefix_of(n) || "__llm_"@.is_prefix_of(n)
}

/// The signature lines of exported functions with their arities.
pub open spec fn arity_lines(fs: Seq<(Seq<char>, nat)>, prefix: Seq<char>, exports: Seq<Seq<char>>, skip_internal: bool) -> Seq<
    char,
>
    decreases fs.len(),
{
    if fs.len() == 0 {
        Seq::empty()
    } else {
        let n = fs.last().0;
        let c = strip_module_prefix(n, prefix);
        arity_lines(fs.drop_last(), prefix, exports, skip_internal) + if !(skip_internal && internal_function(n))
            && exports.contains(c) {
            ": "@ + c + " "@ + crate::text::nat_decimal(fs.last().1) + "\n"@
        } else {
            Seq::empty()
        }
    }
}

impl CodeGen {
    /// The signature file of the module: a `#` line per exported shape, then
    /// a `:` line with the arity of each exported declared function and of
    /// each exported template.
    pub open spec fn signature_text(&self) -> Seq<char> {
        let prefix = module_prefix(self.module_name@);
        let exports = view_strings(self.exports@);
        shape_lines(view_shapes(self.shapes@), prefix, exports) + arity_lines(
            view_funcs(self.functions@).map_values(|p: (Seq<char>, usize)| (p.0, p.1 as nat)),
            prefix,
            exports,
            true,
        ) + arity_lines(view_templates(self.templates@), prefix, exports, false)
    }
}

/// The position of the first `x` in `s` from `i` on.
pub open spec fn first_index(s: Seq<Seq<char>>, x: Seq<char>, i: int) -> Option<int>
    decreases s.len() - i,
{
    if i < 0 || i >= s.len() {
        None
    } else if s[i] == x {
        Some(i)
    } else {
        first_index(s, x, i + 1)
    }
}

/// The 1-based slot and name of a field in a shape's field list.
pub open spec fn slot_in(fields: Seq<Seq<char>>, field: Seq<char>) -> Option<(u64, Seq<char>)> {
    match first_index(fields, field, 0) {
        Some(k) => Some(((k + 1) as u64, fields[k])),
        None => None,
    }
}

/// The slot of a field in the first shape, from the `i`-th on, that has it.
pub open spec fn first_slot(shapes: Seq<(Seq<char>, Seq<Seq<char>>)>, field: Seq<char>, i: int) -> Option<(u64, Seq<char>)>
    decreases shapes.len() - i,
{
    if i < 0 || i >= shapes.len() {
        None
    } else {
        match slot_in(shapes[i].1, field) {
            Some(r) => Some(r),
            None => first_slot(shapes, field, i + 1),
        }
    }
}

/// Where a field of an instance lives: in the shape inferred for the
/// instance when there is one, otherwise in the first shape that has the
/// field; `None` when the field is not found.
pub open spec fn field_slot(
    shapes: Seq<(Seq<char>, Seq<Seq<char>>)>,
    inferred: Option<Seq<char>>,
    field: Seq<char>,
) -> Option<(u64, Seq<char>)> {
    match inferred {
        Some(s) => match find_entry(shapes, s) {
            Some(fields) => slot_in(fields, field),
            None => None,
        },
        None => first_slot(shapes, field, 0),
    }
}

/// The second flags keep every flag of the first set, at the same lengths.
pub open spec fn flags_grow(a: PtrFlags, b: PtrFlags) -> bool {
    &&& a.0.len() == b.0.len()
    &&& a.1.len() == b.1.len()
    &&& forall|i: int| 0 <= i < a.0.len() && #[trigger] a.0[i] ==> b.0[i]
    &&& forall|i: int| 0 <= i < a.1.len() && #[trigger] a.1[i] ==> b.1[i]
}

proof fn lemma_flags_grow_trans(a: PtrFlags, b: PtrFlags, c: PtrFlags)
    requires
        flags_grow(a, b),
        flags_grow(b, c),
    ensures
        flags_grow(a, c),
{
    assert forall|i: int| 0 <= i < a.0.len() && #[trigger] a.0[i] implies c.0[i] by {
        assert(b.0[i]);
    }
    assert forall|i: int| 0 <= i < a.1.len() && #[trigger] a.1[i] implies c.1[i] by {
        assert(b.1[i]);
    }
}

/// Marking only sets flags.
pub proof fn lemma_mark_grows(e: ExprV, st: PtrFlags)
    ensures
        flags_grow(st, mark(e, st)),
    decreases e,
{
    match e {
        ExprV::Move(x) => lemma_mark_grows(*x, st),
        ExprV::Borrow(x) => lemma_mark_grows(*x, st),
        ExprV::MutBorrow(x) => lemma_mark_grows(*x, st),
        _ => {},
    }
}

proof fn lemma_mark_zip_grows(args: Seq<ExprV>, flags: Seq<bool>, st: PtrFlags, i: int)
    ensures
        flags_grow(st, mark_zip(args, flags, st, i)),
    decreases args.len() - i,
{
    if !(i < 0 || i >= args.len() || i >= flags.len()) {
        let next = if flags[i] {
            mark(args[i], st)
        } else {
            st
        };
        lemma_mark_grows(args[i], st);
        lemma_mark_zip_grows(args, flags, next, i + 1);
        lemma_flags_grow_trans(st, next, mark_zip(args, flags, next, i + 1));
    }
}

proof fn lemma_call_marks_grow(f: ExprV, args: Seq<ExprV>, st: PtrFlags, c: InferCtx)
    ensures
        flags_grow(st, call_marks(f, args, st, c)),
{
    match f {
        ExprV::Identifier(callee) => {
            let r = resolved(c.sym, callee);
            if r == "verify"@ || r == "crypto_verify"@ {
                if args.len() >= 3 {
                    lemma_mark3(args[0], args[1], args[2], st);
                }
            } else if r == "sign"@ || r == "crypto_sign"@ {
                if args.len() >= 2 {
                    lemma_mark2(args[0], args[1], st);
                }
            } else {
                match find_entry(c.params, r) {
                    Some(pt) => lemma_mark_zip_grows(args, pt, st, 0),
                    None => match find_entry(c.params, callee) {
                        Some(pt) => lemma_mark_zip_grows(args, pt, st, 0),
                        None => {},
                    },
                }
            }
        },
        _ => {},
    }
}

proof fn lemma_mark2(a: ExprV, b: ExprV, st: PtrFlags)
    ensures
        flags_grow(st, mark(b, mark(a, st))),
{
    lemma_mark_grows(a, st);
    lemma_mark_grows(b, mark(a, st));
    lemma_flags_grow_trans(st, mark(a, st), mark(b, mark(a, st)));
}

proof fn lemma_mark3(a: ExprV, b: ExprV, d: ExprV, st: PtrFlags)
    ensures
        flags_grow(st, mark(d, mark(b, mark(a, st)))),
{
    lemma_mark2(a, b, st);
    lemma_mark_grows(d, mark(b, mark(a, st)));
    lemma_flags_grow_trans(st, mark(b, mark(a, st)), mark(d, mark(b, mark(a, st))));
}

/// Inferring over one expression and then another only sets flags, when
/// each does.
proof fn lemma_then(st: PtrFlags, mid: PtrFlags, end: PtrFlags)
    requires
        flags_grow(st, mid),
        flags_grow(mid, end),
    ensures
        flags_grow(st, end),
{
    lemma_flags_grow_trans(st, mid, end);
}

/// Pointer inference never clears a flag: a slot or parameter once known to
/// hold a pointer stays so, and the flag lists keep their lengths.
pub proof fn lemma_infer_grows(e: ExprV, st: PtrFlags, c: InferCtx)
    ensures
        flags_grow(st, infer(e, st, c)),
    decreases e, 1nat,
{
    match e {
        ExprV::Let(_, v, b) => {
            let s1 = infer(*v, st, c);
            lemma_infer_grows(*v, st, c);
            let vp = returns_ptr_spec(*v, s1.0, c.fns);
            let pushed = (s1.0.push(vp), s1.1);
            let s2 = infer(*b, pushed, c);
            lemma_infer_grows(*b, pushed, c);
            let out = (s2.0.drop_last(), s2.1);
            assert forall|i: int| 0 <= i < st.0.len() && #[trigger] st.0[i] implies out.0[i] by {
                assert(s1.0[i]);
                assert(pushed.0[i]);
                assert(s2.0[i]);
            }
            assert forall|i: int| 0 <= i < st.1.len() && #[trigger] st.1[i] implies out.1[i] by {
                assert(s1.1[i]);
            }
        },
        ExprV::Sequence(l, r) => {
            lemma_infer_grows(*l, st, c);
            lemma_infer_grows(*r, infer(*l, st, c), c);
            lemma_then(st, infer(*l, st, c), infer(e, st, c));
        },
        ExprV::If(x, t, f) => {
            lemma_infer_grows(*x, st, c);
            let a = infer(*x, st, c);
            lemma_infer_grows(*t, a, c);
            let b = infer(*t, a, c);
            lemma_infer_grows(*f, b, c);
            lemma_then(st, a, b);
            lemma_then(st, b, infer(e, st, c));
        },
        ExprV::Move(x) => lemma_infer_grows(*x, st, c),
        ExprV::Borrow(x) => lemma_infer_grows(*x, st, c),
        ExprV::MutBorrow(x) => lemma_infer_grows(*x, st, c),
        ExprV::Trap(t, f) => {
            lemma_infer_grows(*t, st, c);
            lemma_infer_grows(*f, infer(*t, st, c), c);
            lemma_then(st, infer(*t, st, c), infer(e, st, c));
        },
        ExprV::Apply(f, args) => {
            lemma_infer_grows(*f, st, c);
            let a = infer(*f, st, c);
            lemma_infer_list_grows(args, a, c);
            let b = infer_list(args, a, c);
            lemma_call_marks_grow(*f, args, b, c);
            lemma_then(st, a, b);
            lemma_then(st, b, infer(e, st, c));
        },
        _ => lemma_infer_grows_operands(e, st, c),
    }
}

/// The cases of `lemma_infer_grows` that mark operands first.
#[verifier::spinoff_prover]
proof fn lemma_infer_grows_operands(e: ExprV, st: PtrFlags, c: InferCtx)
    requires
        !(e is Let || e is Sequence || e is If || e is Move || e is Borrow || e is MutBorrow || e is Trap || e is Apply),
    ensures
        flags_grow(st, infer(e, st, c)),
    decreases e, 0nat,
{
    match e {
        ExprV::Cat(l, r) => {
            lemma_mark2(*l, *r, st);
            let m = mark(*r, mark(*l, st));
            lemma_infer_grows(*l, m, c);
            lemma_infer_grows(*r, infer(*l, m, c), c);
            lemma_then(m, infer(*l, m, c), infer(*r, infer(*l, m, c), c));
            lemma_then(st, m, infer(e, st, c));
        },
        ExprV::Sub(x, b, l) => {
            lemma_mark_grows(*x, st);
            let m = mark(*x, st);
            lemma_infer_grows(*x, m, c);
            lemma_infer_grows(*b, infer(*x, m, c), c);
            lemma_then(m, infer(*x, m, c), infer(*b, infer(*x, m, c), c));
            lemma_infer_grows(*l, infer(*b, infer(*x, m, c), c), c);
            lemma_then(m, infer(*b, infer(*x, m, c), c), infer(*l, infer(*b, infer(*x, m, c), c), c));
            lemma_then(st, m, infer(e, st, c));
        },
        ExprV::Len(x) => {
            lemma_mark_grows(*x, st);
            lemma_infer_grows(*x, mark(*x, st), c);
            lemma_then(st, mark(*x, st), infer(e, st, c));
        },
        ExprV::Loc(x, p) => {
            lemma_mark2(*x, *p, st);
            let m = mark(*p, mark(*x, st));
            lemma_infer_grows(*x, m, c);
            lemma_infer_grows(*p, infer(*x, m, c), c);
            lemma_then(m, infer(*x, m, c), infer(*p, infer(*x, m, c), c));
            lemma_then(st, m, infer(e, st, c));
        },
        ExprV::Reg(x, r) => {
            lemma_mark2(*x, *r, st);
            let m = mark(*r, mark(*x, st));
            lemma_infer_grows(*x, m, c);
            lemma_infer_grows(*r, infer(*x, m, c), c);
            lemma_then(m, infer(*x, m, c), infer(*r, infer(*x, m, c), c));
            lemma_then(st, m, infer(e, st, c));
        },
        ExprV::Split(x, d, i) => {
            lemma_mark2(*x, *d, st);
            let m = mark(*d, mark(*x, st));
            lemma_infer_grows(*x, m, c);
            lemma_infer_grows(*d, infer(*x, m, c), c);
            lemma_then(m, infer(*x, m, c), infer(*d, infer(*x, m, c), c));
            lemma_infer_grows(*i, infer(*d, infer(*x, m, c), c), c);
            lemma_then(m, infer(*d, infer(*x, m, c), c), infer(*i, infer(*d, infer(*x, m, c), c), c));
            lemma_then(st, m, infer(e, st, c));
        },
        ExprV::Write(h, x) => {
            lemma_mark2(*h, *x, st);
            let m = mark(*x, mark(*h, st));
            lemma_infer_grows(*h, m, c);
            lemma_infer_grows(*x, infer(*h, m, c), c);
            lemma_then(m, infer(*h, m, c), infer(*x, infer(*h, m, c), c));
            lemma_then(st, m, infer(e, st, c));
        },
        ExprV::Get(i, _, x) => {
            lemma_mark_grows(*i, st);
            let m = mark(*i, st);
            lemma_infer_grows(*i, m, c);
            lemma_infer_grows(*x, infer(*i, m, c), c);
            lemma_then(m, infer(*i, m, c), infer(*x, infer(*i, m, c), c));
            lemma_then(st, m, infer(e, st, c));
        },
        ExprV::SetField(i, _, x, v) => {
            lemma_mark_grows(*i, st);
            let m = mark(*i, st);
            lemma_infer_grows(*i, m, c);
            lemma_infer_grows(*x, infer(*i, m, c), c);
            lemma_then(m, infer(*i, m, c), infer(*x, infer(*i, m, c), c));
            lemma_infer_grows(*v, infer(*x, infer(*i, m, c), c), c);
            lemma_then(m, infer(*x, infer(*i, m, c), c), infer(*v, infer(*x, infer(*i, m, c), c), c));
            lemma_then(st, m, infer(e, st, c));
        },
        ExprV::Unpack(x, _) => {
            lemma_mark_grows(*x, st);
            lemma_infer_grows(*x, mark(*x, st), c);
            lemma_then(st, mark(*x, st), infer(e, st, c));
        },
        ExprV::Pack(x) => {
            lemma_mark_grows(*x, st);
            lemma_infer_grows(*x, mark(*x, st), c);
            lemma_then(st, mark(*x, st), infer(e, st, c));
        },
        ExprV::MapField(i, _, f) => {
            lemma_mark_grows(*i, st);
            let m = mark(*i, st);
            lemma_infer_grows(*i, m, c);
            lemma_infer_grows(*f, infer(*i, m, c), c);
            lemma_then(m, infer(*i, m, c), infer(*f, infer(*i, m, c), c));
            lemma_then(st, m, infer(e, st, c));
        },
        ExprV::Filter(i, f) => {
            lemma_mark_grows(*i, st);
            let m = mark(*i, st);
            lemma_infer_grows(*i, m, c);
            lemma_infer_grows(*f, infer(*i, m, c), c);
            lemma_then(m, infer(*i, m, c), infer(*f, infer(*i, m, c), c));
            lemma_then(st, m, infer(e, st, c));
        },
        ExprV::HttpClient(m0, u, b) => {
            lemma_mark3(*m0, *u, *b, st);
            let m = mark(*b, mark(*u, mark(*m0, st)));
            lemma_infer_grows(*m0, m, c);
            lemma_infer_grows(*u, infer(*m0, m, c), c);
            lemma_then(m, infer(*m0, m, c), infer(*u, infer(*m0, m, c), c));
            lemma_infer_grows(*b, infer(*u, infer(*m0, m, c), c), c);
            lemma_then(m, infer(*u, infer(*m0, m, c), c), infer(*b, infer(*u, infer(*m0, m, c), c), c));
            lemma_then(st, m, infer(e, st, c));
        },
        ExprV::HttpServer(_, a) => {
            lemma_mark_grows(*a, st);
            lemma_infer_grows(*a, mark(*a, st), c);
            lemma_then(st, mark(*a, st), infer(e, st, c));
        },
        ExprV::FileOpen(p, m0) => {
            lemma_mark2(*p, *m0, st);
            let m = mark(*m0, mark(*p, st));
            lemma_infer_grows(*p, m, c);
            lemma_infer_grows(*m0, infer(*p, m, c), c);
            lemma_then(m, infer(*p, m, c), infer(*m0, infer(*p, m, c), c));
            lemma_then(st, m, infer(e, st, c));
        },
        _ => {},
    }
}

proof fn lemma_infer_list_grows(es: Seq<ExprV>, st: PtrFlags, c: InferCtx)
    ensures
        flags_grow(st, infer_list(es, st, c)),
    decreases es, 0nat,
{
    if es.len() > 0 {
        lemma_infer_grows(es[0], st, c);
        let a = infer(es[0], st, c);
        lemma_infer_list_grows(es.subrange(1, es.len() as int), a, c);
        lemma_then(st, a, infer_list(es, st, c));
    }
}

impl CodeGen {
    /// What name resolution reads of this generator.
    pub open spec fn symbols(&self) -> SymbolsV {
        SymbolsV {
            module_name: self.module_name@,
            prefix: self.mangle_prefix@,
            imports: view_texts(self.imports@),
            functions: view_funcs(self.functions@),
        }
    }

    /// The module's name: the file stem of its input path.
    pub fn get_module_name(&self) -> (r: &str)
        ensures
            r@ == self.module_name@,
    {
        self.module_name.as_str()
    }

    /// The module-private name of a function (see `mangled`).
    pub fn mangle_name(&self, name: &str) -> (r: String)
        ensures
            r@ == mangled(self.symbols(), name@),
    {
        if str_eq(name, "main") {
            return string_of(name);
        }
        let mut r = copy_string(&self.mangle_prefix);
        push_str(&mut r, name);
        r
    }

    /// The name under which a call to `name` is emitted (see `resolved`).
    pub fn resolve_func_name(&self, name: &str) -> (r: String)
        ensures
            r@ == resolved(self.symbols(), name@),
    {
        match lookup_text(&self.imports, name) {
            Some(module) => qualify(module.as_str(), name),
            None => {
                let namespaced = qualify(self.get_module_name(), name);
                let local_mangled = self.mangle_name(name);
                if lookup_number(&self.functions, namespaced.as_str()).is_some() {
                    namespaced
                } else if lookup_number(&self.functions, local_mangled.as_str()).is_some() {
                    local_mangled
                } else if lookup_number(&self.functions, name).is_some() {
                    string_of(name)
                } else {
                    local_mangled
                }
            },
        }
    }

    /// Records that the LLVM module now declares a function `name` with
    /// `param_count` parameters.
    pub fn declare_function(&mut self, name: String, param_count: usize)
        ensures
            final(self).functions@ == old(self).functions@.push((name, param_count)),
            final(self).imports == old(self).imports,
            final(self).module_name == old(self).module_name,
            final(self).mangle_prefix == old(self).mangle_prefix,
    {
        self.functions.push((name, param_count));
    }

    /// A fresh number for a synthesized helper function; trap and parallel
    /// helpers share the counter, so their names never collide.
    pub fn next_synth_id(&mut self) -> (id: usize)
        requires
            old(self).synth_id < usize::MAX,
        ensures
            id == old(self).synth_id,
            final(self).synth_id == old(self).synth_id + 1,
    {
        let id = self.synth_id;
        self.synth_id = id + 1;
        id
    }
}

impl CodeGen {
    /// The context that pointer inference reads, with these tables.
    pub open spec fn infer_ctx(&self, fr: Seq<(String, bool)>, fp: Seq<(String, Vec<bool>)>) -> InferCtx {
        InferCtx { sym: self.symbols(), fns: view_flags(fr), params: view_flag_lists(fp) }
    }

    /// Marks an operand as a pointer (see `mark`).
    fn mark_as_ptr(&self, expr: &Expr, stack: &mut Vec<bool>, params: &mut Vec<bool>)
        ensures
            (final(stack)@, final(params)@) == mark(expr@, (old(stack)@, old(params)@)),
            final(stack)@.len() == old(stack)@.len(),
            final(params)@.len() == old(params)@.len(),
        decreases expr,
    {
        match expr {
            Expr::DeBruijn(idx) => {
                if *idx < stack.len() {
                    let a = stack.len() - 1 - *idx;
                    stack.set(a, true);
                    if a < params.len() {
                        params.set(a, true);
                    }
                }
            },
            Expr::Move(e) => self.mark_as_ptr(e, stack, params),
            Expr::Borrow(e) => self.mark_as_ptr(e, stack, params),
            Expr::MutBorrow(e) => self.mark_as_ptr(e, stack, params),
            _ => {},
        }
    }

    /// Marks the arguments whose flag is set (see `mark_zip`).
    fn mark_flagged(&self, args: &Vec<Expr>, flags: &Vec<bool>, stack: &mut Vec<bool>, params: &mut Vec<bool>)
        ensures
            (final(stack)@, final(params)@) == mark_zip(view_exprs(args@), flags@, (old(stack)@, old(params)@), 0),
            final(stack)@.len() == old(stack)@.len(),
            final(params)@.len() == old(params)@.len(),
    {
        let ghost av = view_exprs(args@);
        proof {
            lemma_view_exprs(args@);
        }
        let mut i: usize = 0;
        while i < args.len() && i < flags.len()
            invariant
                av == view_exprs(args@),
                av.len() == args@.len(),
                forall|k: int| 0 <= k < args@.len() ==> #[trigger] av[k] == args@[k]@,
                i <= args@.len(),
                stack@.len() == old(stack)@.len(),
                params@.len() == old(params)@.len(),
                mark_zip(av, flags@, (old(stack)@, old(params)@), 0) == mark_zip(av, flags@, (stack@, params@), i as int),
            decreases args@.len() - i,
        {
            if flags[i] {
                self.mark_as_ptr(&args[i], stack, params);
            }
            i = i + 1;
        }
    }

    /// Adds the marks of a call (see `call_marks`).
    fn mark_call(
        &self,
        f: &Expr,
        args: &Vec<Expr>,
        stack: &mut Vec<bool>,
        params: &mut Vec<bool>,
        fn_param_ptrs: &Vec<(String, Vec<bool>)>,
    )
        ensures
            (final(stack)@, final(params)@) == call_marks(
                f@,
                view_exprs(args@),
                (old(stack)@, old(params)@),
                self.infer_ctx(Seq::empty(), fn_param_ptrs@),
            ),
            final(stack)@.len() == old(stack)@.len(),
            final(params)@.len() == old(params)@.len(),
    {
        let ghost av = view_exprs(args@);
        proof {
            lemma_view_exprs(args@);
        }
        match f {
            Expr::Identifier(callee) => {
                let resolved_name = self.resolve_func_name(callee.as_str());
                let r = resolved_name.as_str();
                if str_eq(r, "verify") || str_eq(r, "crypto_verify") {
                    if args.len() >= 3 {
                        self.mark_as_ptr(&args[0], stack, params);
                        self.mark_as_ptr(&args[1], stack, params);
                        self.mark_as_ptr(&args[2], stack, params);
                    }
                } else if str_eq(r, "sign") || str_eq(r, "crypto_sign") {
                    if args.len() >= 2 {
                        self.mark_as_ptr(&args[0], stack, params);
                        self.mark_as_ptr(&args[1], stack, params);
                    }
                } else {
                    let found = match lookup_flag_list(fn_param_ptrs, r) {
                        Some(pt) => Some(pt),
                        None => lookup_flag_list(fn_param_ptrs, callee.as_str()),
                    };
                    match found {
                        Some(pt) => self.mark_flagged(args, &pt, stack, params),
                        None => {},
                    }
                }
            },
            _ => {},
        }
    }

    /// Infers pointer flags over an expression (see `infer`).
    fn infer_constraints(
        &self,
        expr: &Expr,
        stack: &mut Vec<bool>,
        params: &mut Vec<bool>,
        fn_returns_ptr: &Vec<(String, bool)>,
        fn_param_ptrs: &Vec<(String, Vec<bool>)>,
    )
        ensures
            (final(stack)@, final(params)@) == infer(
                expr@,
                (old(stack)@, old(params)@),
                self.infer_ctx(fn_returns_ptr@, fn_param_ptrs@),
            ),
            final(stack)@.len() == old(stack)@.len(),
            final(params)@.len() == old(params)@.len(),
        decreases expr, 1nat,
    {
        match expr {
            Expr::Let(..) | Expr::Sequence(..) | Expr::If(..) | Expr::Move(..) | Expr::Borrow(..) | Expr::MutBorrow(..)
            | Expr::Trap(..) => self.infer_flow(expr, stack, params, fn_returns_ptr, fn_param_ptrs),
            Expr::Cat(..) | Expr::Sub(..) | Expr::Len(..) | Expr::Loc(..) | Expr::Reg(..) | Expr::Split(..)
            | Expr::Write(..) => self.infer_text(expr, stack, params, fn_returns_ptr, fn_param_ptrs),
            Expr::Get(..) | Expr::SetField(..) | Expr::Unpack(..) | Expr::Pack(..) | Expr::MapField(..)
            | Expr::Filter(..) => self.infer_data(expr, stack, params, fn_returns_ptr, fn_param_ptrs),
            Expr::Apply(..) | Expr::HttpClient(..) | Expr::HttpServer(..) | Expr::FileOpen(..) => self.infer_io(
                expr,
                stack,
                params,
                fn_returns_ptr,
                fn_param_ptrs,
            ),
            _ => {},
        }
    }

    #[verifier::spinoff_prover]
    fn infer_flow(
        &self,
        expr: &Expr,
        stack: &mut Vec<bool>,
        params: &mut Vec<bool>,
        fr: &Vec<(String, bool)>,
        fp: &Vec<(String, Vec<bool>)>,
    )
        requires
            expr@ is Let || expr@ is Sequence || expr@ is If || expr@ is Move || expr@ is Borrow || expr@ is MutBorrow
                || expr@ is Trap,
        ensures
            (final(stack)@, final(params)@) == infer(expr@, (old(stack)@, old(params)@), self.infer_ctx(fr@, fp@)),
            final(stack)@.len() == old(stack)@.len(),
            final(params)@.len() == old(params)@.len(),
        decreases expr, 0nat,
    {
        let ghost c = self.infer_ctx(fr@, fp@);
        match expr {
            Expr::Let(_, v, b) => {
                self.infer_constraints(v, stack, params, fr, fp);
                let ghost s1 = (stack@, params@);
                let vp = v.returns_ptr_with_stack(stack.as_slice(), fr);
                stack.push(vp);
                self.infer_constraints(b, stack, params, fr, fp);
                stack.pop();
                proof {
                    assert(vp == returns_ptr_spec((**v)@, s1.0, c.fns));
                }
            },
            Expr::Sequence(l, r) => {
                self.infer_constraints(l, stack, params, fr, fp);
                self.infer_constraints(r, stack, params, fr, fp);
            },
            Expr::If(x, t, f) => {
                self.infer_constraints(x, stack, params, fr, fp);
                self.infer_constraints(t, stack, params, fr, fp);
                self.infer_constraints(f, stack, params, fr, fp);
            },
            Expr::Move(x) => self.infer_constraints(x, stack, params, fr, fp),
            Expr::Borrow(x) => self.infer_constraints(x, stack, params, fr, fp),
            Expr::MutBorrow(x) => self.infer_constraints(x, stack, params, fr, fp),
            Expr::Trap(t, f) => {
                self.infer_constraints(t, stack, params, fr, fp);
                self.infer_constraints(f, stack, params, fr, fp);
            },
            _ => {},
        }
    }

    #[verifier::spinoff_prover]
    fn infer_text(
        &self,
        expr: &Expr,
        stack: &mut Vec<bool>,
        params: &mut Vec<bool>,
        fr: &Vec<(String, bool)>,
        fp: &Vec<(String, Vec<bool>)>,
    )
        requires
            expr@ is Cat || expr@ is Sub || expr@ is Len || expr@ is Loc || expr@ is Reg || expr@ is Split
                || expr@ is Write,
        ensures
            (final(stack)@, final(params)@) == infer(expr@, (old(stack)@, old(params)@), self.infer_ctx(fr@, fp@)),
            final(stack)@.len() == old(stack)@.len(),
            final(params)@.len() == old(params)@.len(),
        decreases expr, 0nat,
    {
        match expr {
            Expr::Cat(l, r) => {
                self.mark_as_ptr(l, stack, params);
                self.mark_as_ptr(r, stack, params);
                self.infer_constraints(l, stack, params, fr, fp);
                self.infer_constraints(r, stack, params, fr, fp);
            },
            Expr::Sub(x, b, l) => {
                self.mark_as_ptr(x, stack, params);
                self.infer_constraints(x, stack, params, fr, fp);
                self.infer_constraints(b, stack, params, fr, fp);
                self.infer_constraints(l, stack, params, fr, fp);
            },
            Expr::Len(x) => {
                self.mark_as_ptr(x, stack, params);
                self.infer_constraints(x, stack, params, fr, fp);
            },
            Expr::Loc(x, p) => {
                self.mark_as_ptr(x, stack, params);
                self.mark_as_ptr(p, stack, params);
                self.infer_constraints(x, stack, params, fr, fp);
                self.infer_constraints(p, stack, params, fr, fp);
            },
            Expr::Reg(x, r) => {
                self.mark_as_ptr(x, stack, params);
                self.mark_as_ptr(r, stack, params);
                self.infer_constraints(x, stack, params, fr, fp);
                self.infer_constraints(r, stack, params, fr, fp);
            },
            Expr::Split(x, d, i) => {
                self.mark_as_ptr(x, stack, params);
                self.mark_as_ptr(d, stack, params);
                self.infer_constraints(x, stack, params, fr, fp);
                self.infer_constraints(d, stack, params, fr, fp);
                self.infer_constraints(i, stack, params, fr, fp);
            },
            Expr::Write(h, x) => {
                self.mark_as_ptr(h, stack, params);
                self.mark_as_ptr(x, stack, params);
                self.infer_constraints(h, stack, params, fr, fp);
                self.infer_constraints(x, stack, params, fr, fp);
            },
            _ => {},
        }
    }

    #[verifier::spinoff_prover]
    fn infer_data(
        &self,
        expr: &Expr,
        stack: &mut Vec<bool>,
        params: &mut Vec<bool>,
        fr: &Vec<(String, bool)>,
        fp: &Vec<(String, Vec<bool>)>,
    )
        requires
            expr@ is Get || expr@ is SetField || expr@ is Unpack || expr@ is Pack || expr@ is MapField
                || expr@ is Filter,
        ensures
            (final(stack)@, final(params)@) == infer(expr@, (old(stack)@, old(params)@), self.infer_ctx(fr@, fp@)),
            final(stack)@.len() == old(stack)@.len(),
            final(params)@.len() == old(params)@.len(),
        decreases expr, 0nat,
    {
        match expr {
            Expr::Get(i, _, x) => {
                self.mark_as_ptr(i, stack, params);
                self.infer_constraints(i, stack, params, fr, fp);
                self.infer_constraints(x, stack, params, fr, fp);
            },
            Expr::SetField(i, _, x, v) => {
                self.mark_as_ptr(i, stack, params);
                self.infer_constraints(i, stack, params, fr, fp);
                self.infer_constraints(x, stack, params, fr, fp);
                self.infer_constraints(v, stack, params, fr, fp);
            },
            Expr::Unpack(x, _) => {
                self.mark_as_ptr(x, stack, params);
                self.infer_constraints(x, stack, params, fr, fp);
            },
            Expr::Pack(x) => {
                self.mark_as_ptr(x, stack, params);
                self.infer_constraints(x, stack, params, fr, fp);
            },
            Expr::MapField(i, _, f) => {
                self.mark_as_ptr(i, stack, params);
                self.infer_constraints(i, stack, params, fr, fp);
                self.infer_constraints(f, stack, params, fr, fp);
            },
            Expr::Filter(i, f) => {
                self.mark_as_ptr(i, stack, params);
                self.infer_constraints(i, stack, params, fr, fp);
                self.infer_constraints(f, stack, params, fr, fp);
            },
            _ => {},
        }
    }

    #[verifier::spinoff_prover]
    fn infer_io(
        &self,
        expr: &Expr,
        stack: &mut Vec<bool>,
        params: &mut Vec<bool>,
        fr: &Vec<(String, bool)>,
        fp: &Vec<(String, Vec<bool>)>,
    )
        requires
            expr@ is Apply || expr@ is HttpClient || expr@ is HttpServer || expr@ is FileOpen,
        ensures
            (final(stack)@, final(params)@) == infer(expr@, (old(stack)@, old(params)@), self.infer_ctx(fr@, fp@)),
            final(stack)@.len() == old(stack)@.len(),
            final(params)@.len() == old(params)@.len(),
        decreases expr, 0nat,
    {
        match expr {
            Expr::Apply(f, args) => {
                self.infer_constraints(f, stack, params, fr, fp);
                self.infer_args(args, stack, params, fr, fp);
                self.mark_call(f, args, stack, params, fp);
            },
            Expr::HttpClient(m, u, b) => {
                self.mark_as_ptr(m, stack, params);
                self.mark_as_ptr(u, stack, params);
                self.mark_as_ptr(b, stack, params);
                self.infer_constraints(m, stack, params, fr, fp);
                self.infer_constraints(u, stack, params, fr, fp);
                self.infer_constraints(b, stack, params, fr, fp);
            },
            Expr::HttpServer(_, a) => {
                self.mark_as_ptr(a, stack, params);
                self.infer_constraints(a, stack, params, fr, fp);
            },
            Expr::FileOpen(p, m) => {
                self.mark_as_ptr(p, stack, params);
                self.mark_as_ptr(m, stack, params);
                self.infer_constraints(p, stack, params, fr, fp);
                self.infer_constraints(m, stack, params, fr, fp);
            },
            _ => {},
        }
    }

    /// Infers pointer flags over expressions in order (see `infer_list`).
    fn infer_args(
        &self,
        args: &Vec<Expr>,
        stack: &mut Vec<bool>,
        params: &mut Vec<bool>,
        fr: &Vec<(String, bool)>,
        fp: &Vec<(String, Vec<bool>)>,
    )
        ensures
            (final(stack)@, final(params)@) == infer_list(
                view_exprs(args@),
                (old(stack)@, old(params)@),
                self.infer_ctx(fr@, fp@),
            ),
            final(stack)@.len() == old(stack)@.len(),
            final(params)@.len() == old(params)@.len(),
        decreases args@, 0nat,
    {
        let ghost av = view_exprs(args@);
        let ghost c = self.infer_ctx(fr@, fp@);
        proof {
            lemma_view_exprs(args@);
            assert(av.subrange(0, av.len() as int) =~= av);
        }
        let mut i: usize = 0;
        while i < args.len()
            invariant
                i <= args@.len(),
                av == view_exprs(args@),
                av.len() == args@.len(),
                c == self.infer_ctx(fr@, fp@),
                forall|k: int| 0 <= k < args@.len() ==> #[trigger] av[k] == args@[k]@,
                stack@.len() == old(stack)@.len(),
                params@.len() == old(params)@.len(),
                infer_list(av, (old(stack)@, old(params)@), c) == infer_list(
                    av.subrange(i as int, av.len() as int),
                    (stack@, params@),
                    c,
                ),
            decreases args@.len() - i,
        {
            let ghost rest = av.subrange(i as int, av.len() as int);
            proof {
                assert(rest[0] == av[i as int]);
                assert(rest.subrange(1, rest.len() as int) =~= av.subrange(i + 1, av.len() as int));
            }
            self.infer_constraints(&args[i], stack, params, fr, fp);
            i = i + 1;
        }
        proof {
            assert(av.subrange(i as int, av.len() as int) =~= Seq::<ExprV>::empty());
        }
    }
}

/// The flag list stored under `name`, copied.
fn lookup_flag_list(t: &Vec<(String, Vec<bool>)>, name: &str) -> (r: Option<Vec<bool>>)
    ensures
        match (r, find_entry(view_flag_lists(t@), name@)) {
            (Some(a), Some(b)) => a@ == b,
            (None, None) => true,
            _ => false,
        },
{
    let ghost tv = view_flag_lists(t@);
    let mut i: usize = 0;
    proof {
        assert(tv.skip(0) =~= tv);
    }
    while i < t.len()
        invariant
            i <= t@.len(),
            tv == view_flag_lists(t@),
            find_entry(tv, name@) == find_entry(tv.skip(i as int), name@),
        decreases t@.len() - i,
    {
        proof {
            assert(tv.skip(i as int).drop_first() =~= tv.skip(i + 1));
            assert(tv.skip(i as int)[0] == tv[i as int]);
        }
        if str_eq(t[i].0.as_str(), name) {
            return Some(copy_flags(&t[i].1));
        }
        i = i + 1;
    }
    None
}

/// A copy of a flag list.
fn copy_flags(v: &Vec<bool>) -> (r: Vec<bool>)
    ensures
        r@ == v@,
{
    let mut r: Vec<bool> = Vec::new();
    let mut i: usize = 0;
    while i < v.len()
        invariant
            i <= v@.len(),
            r@ == v@.take(i as int),
        decreases v@.len() - i,
    {
        r.push(v[i]);
        proof {
            assert(v@.take(i + 1) == v@.take(i as int).push(v@[i as int]));
        }
        i = i + 1;
    }
    proof {
        assert(v@.take(v@.len() as int) =~= v@);
    }
    r
}

impl CodeGen {
    /// Works out which functions return heap pointers and which of their
    /// parameters take them (see `analyzed`); the results are kept under each
    /// function's own, mangled and resolved names.
    pub fn analyze_module_types(&mut self, exprs: &[Expr])
        ensures
            (view_flags(final(self).fn_returns_ptr@), view_flag_lists(final(self).fn_param_ptrs@)) == analyzed(
                old(self).symbols(),
                (view_flags(old(self).fn_returns_ptr@), view_flag_lists(old(self).fn_param_ptrs@)),
                view_exprs(exprs@),
            ),
            final(self).symbols() == old(self).symbols(),
    {
        let ghost sym = self.symbols();
        let ghost es = view_exprs(exprs@);
        let ghost t0 = (view_flags(self.fn_returns_ptr@), view_flag_lists(self.fn_param_ptrs@));
        proof {
            lemma_view_exprs(exprs@);
        }
        let mut fr: Vec<(String, bool)> = Vec::new();
        std::mem::swap(&mut fr, &mut self.fn_returns_ptr);
        let mut fp: Vec<(String, Vec<bool>)> = Vec::new();
        std::mem::swap(&mut fp, &mut self.fn_param_ptrs);
        let mut i: usize = 0;
        while i < exprs.len()
            invariant
                sym == self.symbols(),
                es == view_exprs(exprs@),
                es.len() == exprs@.len(),
                forall|k: int| 0 <= k < es.len() ==> #[trigger] es[k] == exprs@[k]@,
                i <= exprs@.len(),
                (view_flags(fr@), view_flag_lists(fp@)) == init_tables(sym, t0, es, i as int),
            decreases exprs@.len() - i,
        {
            match unwrap_metadata_exec(&exprs[i]) {
                Expr::Define(name, params, _, _) => {
                    let m = self.mangle_name(name.as_str());
                    let r = self.resolve_func_name(name.as_str());
                    insert_flag(&mut fr, copy_string(name), false);
                    insert_flag(&mut fr, copy_string(&m), false);
                    insert_flag(&mut fr, copy_string(&r), false);
                    let z = no_flags_exec(params.len());
                    insert_flag_list(&mut fp, copy_string(name), copy_flags(&z));
                    insert_flag_list(&mut fp, m, copy_flags(&z));
                    insert_flag_list(&mut fp, r, z);
                },
                _ => {},
            }
            i = i + 1;
        }
        let ghost t1 = (view_flags(fr@), view_flag_lists(fp@));
        let mut changed = true;
        let mut iterations: usize = 0;
        while changed && iterations < 100
            invariant
                sym == self.symbols(),
                es == view_exprs(exprs@),
                es.len() == exprs@.len(),
                forall|k: int| 0 <= k < es.len() ==> #[trigger] es[k] == exprs@[k]@,
                iterations <= 100,
                changed ==> run_passes(sym, t1, es, 100) == run_passes(
                    sym,
                    (view_flags(fr@), view_flag_lists(fp@)),
                    es,
                    (100 - iterations) as nat,
                ),
                !changed ==> run_passes(sym, t1, es, 100) == (view_flags(fr@), view_flag_lists(fp@)),
            decreases 100 - iterations,
        {
            let ghost before = (view_flags(fr@), view_flag_lists(fp@));
            changed = false;
            iterations = iterations + 1;
            let mut j: usize = 0;
            while j < exprs.len()
                invariant
                    sym == self.symbols(),
                    es == view_exprs(exprs@),
                    es.len() == exprs@.len(),
                    forall|k: int| 0 <= k < es.len() ==> #[trigger] es[k] == exprs@[k]@,
                    j <= exprs@.len(),
                    ((view_flags(fr@), view_flag_lists(fp@)), changed) == pass_upto(sym, before, es, j as int),
                decreases exprs@.len() - j,
            {
                match unwrap_metadata_exec(&exprs[j]) {
                    Expr::Define(name, params, body, _) => {
                        self.define_step_exec(name, params, body, &mut fr, &mut fp, &mut changed);
                    },
                    _ => {},
                }
                j = j + 1;
            }
        }
        std::mem::swap(&mut fr, &mut self.fn_returns_ptr);
        std::mem::swap(&mut fp, &mut self.fn_param_ptrs);
    }

    /// One definition's turn in a pass (see `define_step`).
    fn define_step_exec(
        &self,
        name: &String,
        params: &Vec<Param>,
        body: &Expr,
        fr: &mut Vec<(String, bool)>,
        fp: &mut Vec<(String, Vec<bool>)>,
        changed: &mut bool,
    )
        ensures
            ((view_flags(final(fr)@), view_flag_lists(final(fp)@)), *final(changed)) == define_step(
                self.symbols(),
                (view_flags(old(fr)@), view_flag_lists(old(fp)@)),
                *old(changed),
                name@,
                view_params(params@),
                body@,
            ),
    {
        let ghost sym = self.symbols();
        let m = self.mangle_name(name.as_str());
        let r = self.resolve_func_name(name.as_str());
        let current = match lookup_flag_list(fp, name.as_str()) {
            Some(v) => v,
            None => no_flags_exec(params.len()),
        };
        proof {
            assert(view_params(params@).len() == params@.len());
        }
        let mut stack = copy_flags(&current);
        let mut np = copy_flags(&current);
        self.infer_constraints(body, &mut stack, &mut np, fr, fp);
        if !flags_eq(&np, &current) {
            insert_flag_list(fp, copy_string(name), copy_flags(&np));
            insert_flag_list(fp, copy_string(&m), copy_flags(&np));
            insert_flag_list(fp, copy_string(&r), np);
            *changed = true;
        }
        let slots = match lookup_flag_list(fp, name.as_str()) {
            Some(v) => v,
            None => current,
        };
        let gives_ptr = body.returns_ptr_with_stack(slots.as_slice(), fr);
        if gives_ptr {
            let known = match lookup_flag(fr, name.as_str()) {
                Some(b) => b,
                None => false,
            };
            if !known {
                insert_flag(fr, copy_string(name), true);
                insert_flag(fr, m, true);
                insert_flag(fr, r, true);
                *changed = true;
            }
        }
    }
}

/// An expression with one layer of metadata taken off.
fn unwrap_metadata_exec(e: &Expr) -> (r: &Expr)
    ensures
        r@ == unwrap_metadata(e@),
{
    match e {
        Expr::Metadata(_, _, t) => t,
        _ => e,
    }
}

/// `n` cleared flags.
fn no_flags_exec(n: usize) -> (r: Vec<bool>)
    ensures
        r@ == no_flags(n as nat),
{
    let mut r: Vec<bool> = Vec::new();
    let mut i: usize = 0;
    while i < n
        invariant
            i <= n,
            r@ == no_flags(i as nat),
        decreases n - i,
    {
        r.push(false);
        proof {
            assert(r@ =~= no_flags((i + 1) as nat));
        }
        i = i + 1;
    }
    r
}

/// Whether two flag lists are equal.
fn flags_eq(a: &Vec<bool>, b: &Vec<bool>) -> (r: bool)
    ensures
        r == (a@ == b@),
{
    if a.len() != b.len() {
        return false;
    }
    let mut i: usize = 0;
    while i < a.len()
        invariant
            a@.len() == b@.len(),
            i <= a@.len(),
            forall|j: int| 0 <= j < i ==> a@[j] == b@[j],
        decreases a@.len() - i,
    {
        if a[i] != b[i] {
            return false;
        }
        i = i + 1;
    }
    proof {
        assert(a@ =~= b@);
    }
    true
}

/// Stores a flag under `name`, replacing the flag stored there before.
fn insert_flag(t: &mut Vec<(String, bool)>, name: String, v: bool)
    ensures
        view_flags(final(t)@) == table_insert(view_flags(old(t)@), name@, v),
{
    let ghost tv = view_flags(t@);
    let ghost nv = name@;
    proof {
        lemma_entry_index(tv, nv);
    }
    let mut i: usize = 0;
    while i < t.len()
        invariant
            i <= t@.len(),
            tv == view_flags(t@),
            t@ == old(t)@,
            nv == name@,
            forall|j: int| 0 <= j < i ==> tv[j].0 != nv,
        decreases t@.len() - i,
    {
        if string_eq(&t[i].0, &name) {
            proof {
                assert(tv[i as int].0 == nv);
                lemma_entry_index(tv, nv);
                match entry_index(tv, nv) {
                    Some(q) => {
                        if q < i {
                            assert(tv[q as int].0 != nv);
                        }
                        if q > i {
                            assert(tv[i as int].0 != nv);
                        }
                    },
                    None => {
                        assert(tv[i as int].0 != nv);
                    },
                }
            }
            t.set(i, (name, v));
            proof {
                assert(view_flags(t@) =~= tv.update(i as int, (nv, v)));
            }
            return;
        }
        i = i + 1;
    }
    proof {
        match entry_index(tv, nv) {
            Some(q) => {
                assert(tv[q as int].0 != nv);
            },
            None => {},
        }
    }
    t.push((name, v));
    proof {
        assert(view_flags(t@) =~= tv.push((nv, v)));
    }
}

/// Stores a flag list under `name`, replacing the list stored there before.
fn insert_flag_list(t: &mut Vec<(String, Vec<bool>)>, name: String, v: Vec<bool>)
    ensures
        view_flag_lists(final(t)@) == table_insert(view_flag_lists(old(t)@), name@, v@),
{
    let ghost tv = view_flag_lists(t@);
    let ghost nv = name@;
    let ghost vv = v@;
    proof {
        lemma_entry_index(tv, nv);
    }
    let mut i: usize = 0;
    while i < t.len()
        invariant
            i <= t@.len(),
            tv == view_flag_lists(t@),
            t@ == old(t)@,
            nv == name@,
            vv == v@,
            forall|j: int| 0 <= j < i ==> tv[j].0 != nv,
        decreases t@.len() - i,
    {
        if string_eq(&t[i].0, &name) {
            proof {
                assert(tv[i as int].0 == nv);
                lemma_entry_index(tv, nv);
                match entry_index(tv, nv) {
                    Some(q) => {
                        if q < i {
                            assert(tv[q as int].0 != nv);
                        }
                        if q > i {
                            assert(tv[i as int].0 != nv);
                        }
                    },
                    None => {
                        assert(tv[i as int].0 != nv);
                    },
                }
            }
            t.set(i, (name, v));
            proof {
                assert(view_flag_lists(t@) =~= tv.update(i as int, (nv, vv)));
            }
            return;
        }
        i = i + 1;
    }
    proof {
        match entry_index(tv, nv) {
            Some(q) => {
                assert(tv[q as int].0 != nv);
            },
            None => {},
        }
    }
    t.push((name, v));
    proof {
        assert(view_flag_lists(t@) =~= tv.push((nv, vv)));
    }
}

/// The file stem of a path (`std::path::Path::file_stem`, as text). What it
/// gives depends on the platform's path syntax, so nothing is stated of it.
#[verifier::external_body]
fn file_stem_text(path: &str) -> (r: Option<String>) {
    match std::path::Path::new(path).file_stem() {
        Some(stem) => match stem.to_str() {
            Some(t) => Some(t.to_string()),
            None => None,
        },
        None => None,
    }
}

/// The hash of a text under `std::collections::hash_map::DefaultHasher`,
/// whose algorithm std leaves unspecified; nothing is stated of it.
#[verifier::external_body]
fn path_hash(text: &str) -> (r: u64) {
    std::hash::BuildHasher::hash_one(
        &std::hash::BuildHasherDefault::<std::collections::hash_map::DefaultHasher>::default(),
        text,
    )
}

impl CodeGen {
    /// A generator for the module at `input_path`, given the file stem of
    /// that path and its hash: the module is named by the stem (`main` when
    /// there is none), the mangling prefix carries the hash, the runtime's
    /// pointer-returning functions are known, and the parallel nesting limit
    /// allows one level per 32 KiB of stack (at least one).
    pub fn from_parts(
        input_path: &str,
        stem: Option<String>,
        hash: u64,
        config: Config,
        stack_bottom: usize,
        stack_size: usize,
    ) -> (r: CodeGen)
        ensures
            r.input_path@ == input_path@,
            r.module_name@ == match stem {
                Some(t) => t@,
                None => "main"@,
            },
            r.mangle_prefix@ == "__llm_"@ + nat_hex(hash as nat) + "_"@,
            view_flags(r.fn_returns_ptr@) == ffi_ptr_functions().map_values(|n: Seq<char>| (n, true)),
            r.fn_param_ptrs@.len() == 0,
            r.shapes@.len() == 0,
            r.warnings@.len() == 0,
            r.templates@.len() == 0,
            r.exports@.len() == 0,
            r.imports@.len() == 0,
            r.functions@.len() == 0,
            !r.has_exports,
            r.config == config,
            r.parallel_depth == 0,
            r.max_parallel_depth == (if stack_size / 32768 > 1 { stack_size / 32768 } else { 1 }),
            r.stack_bottom == stack_bottom,
            r.stack_size == stack_size,
            r.synth_id == 0,
    {
        let module_name = match stem {
            Some(t) => t,
            None => string_of("main"),
        };
        let mut mangle_prefix = string_of("__llm_");
        crate::text::push_hex_u64(&mut mangle_prefix, hash);
        push_str(&mut mangle_prefix, "_");
        let q = stack_size / 32768;
        let max_parallel_depth = if q > 1 {
            q
        } else {
            1
        };
        CodeGen {
            shapes: Vec::new(),
            warnings: Vec::new(),
            templates: Vec::new(),
            config,
            input_path: string_of(input_path),
            module_name,
            mangle_prefix,
            has_exports: false,
            exports: Vec::new(),
            imports: Vec::new(),
            fn_returns_ptr: ffi_ptr_table(),
            fn_param_ptrs: Vec::new(),
            functions: Vec::new(),
            parallel_depth: 0,
            max_parallel_depth,
            stack_bottom,
            stack_size,
            synth_id: 0,
        }
    }

    /// A generator for the module at `module_name` (see `from_parts`), with
    /// the file stem and hash of that path worked out here; the stack bounds
    /// are those of the current thread.
    pub fn new(module_name: &str, config: Config, stack_bottom: usize, stack_size: usize) -> (r: CodeGen)
        ensures
            r.input_path@ == module_name@,
            is_mangle_prefix(r.mangle_prefix@),
            view_flags(r.fn_returns_ptr@) == ffi_ptr_functions().map_values(|n: Seq<char>| (n, true)),
            r.fn_param_ptrs@.len() == 0,
            r.shapes@.len() == 0,
            r.templates@.len() == 0,
            r.exports@.len() == 0,
            r.imports@.len() == 0,
            r.functions@.len() == 0,
            !r.has_exports,
            r.config == config,
            r.synth_id == 0,
    {
        let stem = file_stem_text(module_name);
        let hash = path_hash(module_name);
        let r = CodeGen::from_parts(module_name, stem, hash, config, stack_bottom, stack_size);
        proof {
            assert(r.mangle_prefix@ == "__llm_"@ + nat_hex(hash as nat) + "_"@);
        }
        r
    }

    /// Whether enough stack is left to keep hoisting work into parallel
    /// tasks: with known stack bounds, more than 256 KiB must remain below
    /// the current stack pointer `current_sp`.
    pub fn has_sufficient_stack(&self, current_sp: usize) -> (r: bool)
        requires
            self.stack_bottom + 262144 <= usize::MAX,
        ensures
            r == (self.stack_bottom == 0 || current_sp > self.stack_bottom + 262144),
    {
        if self.stack_bottom == 0 {
            return true;
        }
        current_sp > self.stack_bottom + 262144
    }

    /// Records a shape definition: its fields under its name, and its name
    /// among the exports when exported.
    pub fn gen_shape(&mut self, name: &str, fields: &Vec<String>, exported: bool)
        ensures
            view_shapes(final(self).shapes@) == table_insert(view_shapes(old(self).shapes@), name@, view_strings(fields@)),
            final(self).exports@ == (if exported { old(self).exports@.push(final(self).exports@.last()) } else { old(self).exports@ }),
            exported ==> final(self).exports@.last()@ == name@,
            final(self).has_exports == (old(self).has_exports || exported),
            final(self).symbols() == old(self).symbols(),
            final(self).templates == old(self).templates,
    {
        if exported {
            self.has_exports = true;
            self.exports.push(string_of(name));
        }
        insert_fields(&mut self.shapes, string_of(name), copy_strings(fields));
    }

    /// Records an import of `symbol_name` from `module_alias` and gives the
    /// name under which the imported function is declared.
    pub fn gen_import(&mut self, module_alias: &str, symbol_name: &str, arity: usize) -> (r: String)
        ensures
            view_texts(final(self).imports@) == table_insert(view_texts(old(self).imports@), symbol_name@, module_alias@),
            r@ == qualified(module_alias@, symbol_name@),
            final(self).functions == old(self).functions,
            final(self).module_name == old(self).module_name,
            final(self).mangle_prefix == old(self).mangle_prefix,
    {
        insert_text(&mut self.imports, string_of(symbol_name), string_of(module_alias));
        qualify(module_alias, symbol_name)
    }

    /// The parameter flags known for a function, or `count` cleared flags.
    pub fn param_ptr_flags(&self, name: &str, count: usize) -> (r: Vec<bool>)
        ensures
            r@ == match find_entry(view_flag_lists(self.fn_param_ptrs@), name@) {
                Some(v) => v,
                None => no_flags(count as nat),
            },
    {
        match lookup_flag_list(&self.fn_param_ptrs, name) {
            Some(v) => v,
            None => no_flags_exec(count),
        }
    }

    /// Whether a template is stored under `name`.
    fn has_template(&self, name: &str) -> (r: bool)
        ensures
            r == (find_entry(view_templates(self.templates@), name@) is Some),
    {
        let ghost tv = view_templates(self.templates@);
        let mut i: usize = 0;
        proof {
            assert(tv.skip(0) =~= tv);
        }
        while i < self.templates.len()
            invariant
                i <= self.templates@.len(),
                tv == view_templates(self.templates@),
                find_entry(tv, name@) == find_entry(tv.skip(i as int), name@),
            decreases self.templates@.len() - i,
        {
            proof {
                assert(tv.skip(i as int).drop_first() =~= tv.skip(i + 1));
                assert(tv.skip(i as int)[0] == tv[i as int]);
            }
            if str_eq(self.templates[i].0.as_str(), name) {
                return true;
            }
            i = i + 1;
        }
        false
    }

    /// Whether a callee counts as known when a body is checked (see
    /// `known_callee`).
    fn is_known_callee(&self, call: &str) -> (r: bool)
        ensures
            r == known_callee(
                self.symbols(),
                view_templates(self.templates@),
                view_flag_lists(self.fn_param_ptrs@),
                call@,
            ),
    {
        let resolved_name = self.resolve_func_name(call);
        let r = resolved_name.as_str();
        lookup_number(&self.functions, r).is_some() || self.has_template(r) || lookup_number(
            &self.functions,
            call,
        ).is_some() || lookup_flag_list(&self.fn_param_ptrs, r).is_some() || lookup_flag_list(
            &self.fn_param_ptrs,
            call,
        ).is_some()
    }

    /// What code generation does for a function before it emits any code:
    /// the body is checked against the shapes, the known callees and the
    /// function itself (an error is reported at line 1 of the input); then the
    /// function is recorded as exported when it is, and a function with a
    /// template parameter is stored as a template. Gives the name the
    /// function is emitted under and whether it is a template.
    pub fn begin_function(&mut self, name: &str, params: Vec<Param>, body: &Expr, exported: bool) -> (r: Result<
        (String, bool),
        CompileError,
    >)
        ensures
            ({
                let sym = old(self).symbols();
                let funcs = table_insert(
                    callee_table(
                        sym,
                        view_templates(old(self).templates@),
                        view_flag_lists(old(self).fn_param_ptrs@),
                        crate::compiler::analysis::calls_of(body@),
                        crate::compiler::analysis::calls_of(body@).len() as int,
                    ),
                    name@,
                    params@.len() as usize,
                );
                match body_verdict(view_params(params@), body@, view_shapes(old(self).shapes@), funcs) {
                    Err(code) => r matches Err(e) && e@ == (ErrorView {
                        code,
                        filename: old(self).input_path@,
                        line: 1,
                    }) && final(self).exports == old(self).exports && final(self).templates@
                        == old(self).templates@,
                    Ok(_) => r matches Ok((n, t)) && n@ == emitted_name(sym, name@, exported) && t
                        == has_template_param(view_params(params@)) && final(self).exports@ == (if exported {
                        old(self).exports@.push(final(self).exports@.last())
                    } else {
                        old(self).exports@
                    }) && (exported ==> final(self).exports@.last()@ == name@) && view_templates(
                        final(self).templates@,
                    ) == (if t {
                        table_insert(view_templates(old(self).templates@), n@, params@.len())
                    } else {
                        view_templates(old(self).templates@)
                    }),
                }
            }),
            final(self).has_exports == (old(self).has_exports || (r is Ok && exported)),
            final(self).symbols() == old(self).symbols(),
            final(self).shapes == old(self).shapes,
            final(self).fn_param_ptrs == old(self).fn_param_ptrs,
    {
        let ghost sym = self.symbols();
        let ghost tv = view_templates(self.templates@);
        let ghost pv = view_flag_lists(self.fn_param_ptrs@);
        let calls = body.get_calls();
        let ghost cv = view_strings(calls@);
        let mut funcs: Vec<(String, usize)> = Vec::new();
        let mut i: usize = 0;
        proof {
            assert(view_funcs(funcs@) =~= Seq::<(Seq<char>, usize)>::empty());
        }
        while i < calls.len()
            invariant
                i <= calls@.len(),
                cv == view_strings(calls@),
                sym == self.symbols(),
                tv == view_templates(self.templates@),
                pv == view_flag_lists(self.fn_param_ptrs@),
                view_funcs(funcs@) == callee_table(sym, tv, pv, cv, i as int),
            decreases calls@.len() - i,
        {
            if self.is_known_callee(calls[i].as_str()) {
                insert_number(&mut funcs, copy_string(&calls[i]), 0);
            }
            i = i + 1;
        }
        insert_number(&mut funcs, string_of(name), params.len());
        let shapes = crate::compiler::analysis::verify::copy_shapes(&self.shapes);
        let mut ctx = crate::compiler::analysis::verify::function_context(&shapes, &funcs, &params);
        match crate::compiler::analysis::verify::verify_expr(body, &mut ctx) {
            Err(code) => {
                return Err(CompileError::new(code.as_str(), self.input_path.as_str(), 1));
            },
            Ok(_) => {},
        }
        if exported {
            self.has_exports = true;
            self.exports.push(string_of(name));
        }
        let final_name = if str_eq(name, "main") {
            string_of(name)
        } else if exported {
            qualify(self.get_module_name(), name)
        } else {
            self.mangle_name(name)
        };
        let mut template = false;
        let mut k: usize = 0;
        while k < params.len()
            invariant
                k <= params@.len(),
                template == exists|j: int| 0 <= j < k && #[trigger] params@[j].expand,
            decreases params@.len() - k,
        {
            if params[k].expand {
                template = true;
            }
            k = k + 1;
        }
        proof {
            assert(template == has_template_param(view_params(params@))) by {
                if template {
                    let j = choose|j: int| 0 <= j < params@.len() && #[trigger] params@[j].expand;
                    assert(view_params(params@)[j].expand);
                }
                if has_template_param(view_params(params@)) {
                    let j = choose|j: int| 0 <= j < view_params(params@).len() && #[trigger] view_params(params@)[j].expand;
                    assert(params@[j].expand);
                }
            }
        }
        if template {
            let ghost plen = params@.len();
            let n = copy_string(&final_name);
            self.insert_template(n, params, body.deep_copy());
            proof {
                assert(plen == params@.len());
            }
        }
        Ok((final_name, template))
    }

    /// Stores a template under `name`, replacing the one stored there.
    fn insert_template(&mut self, name: String, params: Vec<Param>, body: Expr)
        ensures
            view_templates(final(self).templates@) == table_insert(
                view_templates(old(self).templates@),
                name@,
                params@.len(),
            ),
            final(self).exports == old(self).exports,
            final(self).has_exports == old(self).has_exports,
            final(self).symbols() == old(self).symbols(),
            final(self).shapes == old(self).shapes,
            final(self).fn_param_ptrs == old(self).fn_param_ptrs,
    {
        let ghost tv = view_templates(self.templates@);
        let ghost nv = name@;
        let ghost t0 = self.templates@;
        let ghost plen = params@.len();
        proof {
            lemma_entry_index(tv, nv);
        }
        let mut i: usize = 0;
        while i < self.templates.len()
            invariant
                i <= self.templates@.len(),
                self.templates@ == t0,
                old(self).templates@ == t0,
                old(self).exports == self.exports,
                old(self).has_exports == self.has_exports,
                old(self).symbols() == self.symbols(),
                old(self).shapes == self.shapes,
                old(self).fn_param_ptrs == self.fn_param_ptrs,
                tv == view_templates(t0),
                nv == name@,
                plen == params@.len(),
                forall|j: int| 0 <= j < i ==> tv[j].0 != nv,
            decreases self.templates@.len() - i,
        {
            if string_eq(&self.templates[i].0, &name) {
                proof {
                    assert(tv[i as int].0 == nv);
                    lemma_entry_index(tv, nv);
                    match entry_index(tv, nv) {
                        Some(q) => {
                            if q < i {
                                assert(tv[q as int].0 != nv);
                            }
                            if q > i {
                                assert(tv[i as int].0 != nv);
                            }
                        },
                        None => {
                            assert(tv[i as int].0 != nv);
                        },
                    }
                }
                self.templates.set(i, (name, (params, body)));
                proof {
                    assert(view_templates(self.templates@) =~= tv.update(i as int, (nv, plen)));
                }
                return;
            }
            i = i + 1;
        }
        proof {
            match entry_index(tv, nv) {
                Some(q) => {
                    assert(tv[q as int].0 != nv);
                },
                None => {},
            }
        }
        self.templates.push((name, (params, body)));
        proof {
            assert(view_templates(self.templates@) =~= tv.push((nv, plen)));
        }
    }
}

/// The table of runtime functions that return pointers.
fn ffi_ptr_table() -> (r: Vec<(String, bool)>)
    ensures
        view_flags(r@) == ffi_ptr_functions().map_values(|n: Seq<char>| (n, true)),
{
    let mut t: Vec<(String, bool)> = Vec::new();
    t.push((string_of("http_get"), true));
    t.push((string_of("http_post"), true));
    t.push((string_of("get"), true));
    t.push((string_of("post"), true));
    t.push((string_of("json_parse"), true));
    t.push((string_of("parse"), true));
    t.push((string_of("json_stringify"), true));
    t.push((string_of("stringify"), true));
    t.push((string_of("json_get_str"), true));
    t.push((string_of("get_str"), true));
    t.push((string_of("sign"), true));
    t.push((string_of("encrypt"), true));
    t.push((string_of("decrypt"), true));
    t.push((string_of("unwrap"), true));
    t.push((string_of("serve"), true));
    t.push((string_of("https_serve"), true));
    t.push((string_of("accept"), true));
    t.push((string_of("connect"), true));
    t.push((string_of("connect_binding"), true));
    t.push((string_of("query"), true));
    t.push((string_of("error"), true));
    t.push((string_of("db_connect"), true));
    t.push((string_of("db_connect_binding"), true));
    t.push((string_of("db_query"), true));
    t.push((string_of("db_error"), true));
    proof {
        assert(view_flags(t@) =~= ffi_ptr_functions().map_values(|n: Seq<char>| (n, true)));
    }
    t
}

/// Stores a text under `name`, replacing the text stored there before.
fn insert_text(t: &mut Vec<(String, String)>, name: String, v: String)
    ensures
        view_texts(final(t)@) == table_insert(view_texts(old(t)@), name@, v@),
{
    let ghost tv = view_texts(t@);
    let ghost nv = name@;
    let ghost vv = v@;
    proof {
        lemma_entry_index(tv, nv);
    }
    let mut i: usize = 0;
    while i < t.len()
        invariant
            i <= t@.len(),
            tv == view_texts(t@),
            t@ == old(t)@,
            nv == name@,
            vv == v@,
            forall|j: int| 0 <= j < i ==> tv[j].0 != nv,
        decreases t@.len() - i,
    {
        if string_eq(&t[i].0, &name) {
            proof {
                assert(tv[i as int].0 == nv);
                lemma_entry_index(tv, nv);
                match entry_index(tv, nv) {
                    Some(q) => {
                        if q < i {
                            assert(tv[q as int].0 != nv);
                        }
                        if q > i {
                            assert(tv[i as int].0 != nv);
                        }
                    },
                    None => {
                        assert(tv[i as int].0 != nv);
                    },
                }
            }
            t.set(i, (name, v));
            proof {
                assert(view_texts(t@) =~= tv.update(i as int, (nv, vv)));
            }
            return;
        }
        i = i + 1;
    }
    proof {
        match entry_index(tv, nv) {
            Some(q) => {
                assert(tv[q as int].0 != nv);
            },
            None => {},
        }
    }
    t.push((name, v));
    proof {
        assert(view_texts(t@) =~= tv.push((nv, vv)));
    }
}

/// Whether `p` is a prefix of `s`.
fn starts_with_str(s: &str, p: &str) -> (r: bool)
    ensures
        r == p@.is_prefix_of(s@),
{
    let a = crate::text::chars_of(s);
    let b = crate::text::chars_of(p);
    if b.len() > a.len() {
        return false;
    }
    let mut i: usize = 0;
    while i < b.len()
        invariant
            a@ == s@,
            b@ == p@,
            b@.len() <= a@.len(),
            i <= b@.len(),
            forall|k: int| 0 <= k < i ==> a@[k] == b@[k],
        decreases b@.len() - i,
    {
        if a[i] != b[i] {
            proof {
                assert(s@.subrange(0, p@.len() as int)[i as int] != p@[i as int]);
            }
            return false;
        }
        i = i + 1;
    }
    proof {
        assert(s@.subrange(0, p@.len() as int) =~= p@);
    }
    true
}

/// A name without the module prefix (see `strip_module_prefix`).
fn strip_module_prefix_exec(name: &str, prefix: &str) -> (r: String)
    ensures
        r@ == strip_module_prefix(name@, prefix@),
{
    let pv = crate::text::chars_of(prefix);
    if pv.len() > 0 && starts_with_str(name, prefix) {
        let nv = crate::text::chars_of(name);
        let mut r = String::new();
        let mut i: usize = pv.len();
        while i < nv.len()
            invariant
                nv@ == name@,
                pv@.len() <= i <= nv@.len(),
                r@ == nv@.subrange(pv@.len() as int, i as int),
            decreases nv@.len() - i,
        {
            crate::text::push_char(&mut r, nv[i]);
            proof {
                assert(nv@.subrange(pv@.len() as int, i + 1) =~= nv@.subrange(pv@.len() as int, i as int).push(
                    nv@[i as int],
                ));
            }
            i = i + 1;
        }
        proof {
            assert(pv@ == prefix@);
        }
        r
    } else {
        string_of(name)
    }
}

/// Appends names joined by single spaces.
fn push_spaced(s: &mut String, names: &Vec<String>)
    ensures
        final(s)@ == old(s)@ + spaced(view_strings(names@)),
{
    let ghost nv = view_strings(names@);
    let ghost start = s@;
    let mut i: usize = 0;
    proof {
        assert(s@ =~= start + spaced(nv.take(0)));
    }
    while i < names.len()
        invariant
            i <= names@.len(),
            nv == view_strings(names@),
            nv.len() == names@.len(),
            s@ == start + spaced(nv.take(i as int)),
        decreases names@.len() - i,
    {
        let ghost before = s@;
        if i > 0 {
            push_str(s, " ");
        }
        push_str(s, names[i].as_str());
        proof {
            assert(nv.take(i + 1).drop_last() =~= nv.take(i as int));
            assert(nv.take(i + 1).last() == names@[i as int]@);
            if i == 0 {
                assert(nv.take(1) =~= seq![nv[0]]);
            }
            assert(s@ =~= start + spaced(nv.take(i + 1)));
        }
        i = i + 1;
    }
    proof {
        assert(nv.take(names@.len() as int) =~= nv);
    }
}

impl CodeGen {
    /// The module prefix of this module (see `module_prefix`).
    fn module_prefix_exec(&self) -> (r: String)
        ensures
            r@ == module_prefix(self.module_name@),
    {
        let m = self.get_module_name();
        if str_eq(m, "main") || str_eq(m, "test") {
            String::new()
        } else {
            let mut r = string_of(m);
            push_str(&mut r, "_");
            r
        }
    }

    /// The module's signature file (see `signature_text`).
    pub fn emit_signature_file(&self) -> (r: String)
        ensures
            r@ == self.signature_text(),
    {
        let prefix = self.module_prefix_exec();
        let ghost pre = prefix@;
        let ghost ex = view_strings(self.exports@);
        let ghost sv = view_shapes(self.shapes@);
        let mut sig = String::new();
        let mut i: usize = 0;
        proof {
            assert(sig@ =~= shape_lines(sv.take(0), pre, ex));
        }
        while i < self.shapes.len()
            invariant
                i <= self.shapes@.len(),
                pre == prefix@,
                ex == view_strings(self.exports@),
                sv == view_shapes(self.shapes@),
                sv.len() == self.shapes@.len(),
                sig@ == shape_lines(sv.take(i as int), pre, ex),
            decreases self.shapes@.len() - i,
        {
            let ghost before = sig@;
            let clean = strip_module_prefix_exec(self.shapes[i].0.as_str(), prefix.as_str());
            proof {
                assert(sv.take(i + 1).drop_last() =~= sv.take(i as int));
                assert(sv.take(i + 1).last() == sv[i as int]);
                assert(view_strings(self.shapes@[i as int].1@) =~= sv[i as int].1);
            }
            if crate::compiler::analysis::has_name(&self.exports, clean.as_str()) {
                push_str(&mut sig, "# ");
                push_str(&mut sig, clean.as_str());
                push_str(&mut sig, " ");
                push_spaced(&mut sig, &self.shapes[i].1);
                push_str(&mut sig, "\n");
                proof {
                    assert(ex.to_set().contains(clean@) == ex.contains(clean@));
                    assert(sig@ =~= before + ("# "@ + clean@ + " "@ + spaced(sv[i as int].1) + "\n"@));
                }
            } else {
                proof {
                    assert(ex.to_set().contains(clean@) == ex.contains(clean@));
                    assert(sig@ =~= before + Seq::<char>::empty());
                }
            }
            i = i + 1;
        }
        proof {
            assert(sv.take(self.shapes@.len() as int) =~= sv);
        }
        let ghost part1 = sig@;
        let ghost fv = view_funcs(self.functions@).map_values(|p: (Seq<char>, usize)| (p.0, p.1 as nat));
        let mut j: usize = 0;
        proof {
            assert(sig@ =~= part1 + arity_lines(fv.take(0), pre, ex, true));
        }
        while j < self.functions.len()
            invariant
                j <= self.functions@.len(),
                pre == prefix@,
                ex == view_strings(self.exports@),
                fv == view_funcs(self.functions@).map_values(|p: (Seq<char>, usize)| (p.0, p.1 as nat)),
                fv.len() == self.functions@.len(),
                sig@ == part1 + arity_lines(fv.take(j as int), pre, ex, true),
            decreases self.functions@.len() - j,
        {
            let ghost before = sig@;
            let full = self.functions[j].0.as_str();
            let clean = strip_module_prefix_exec(full, prefix.as_str());
            proof {
                assert(fv.take(j + 1).drop_last() =~= fv.take(j as int));
                assert(fv.take(j + 1).last() == fv[j as int]);
                assert(fv[j as int] == (self.functions@[j as int].0@, self.functions@[j as int].1 as nat));
            }
            let internal = str_eq(full, "main") || starts_with_str(full, "trap_") || starts_with_str(full, "parallel_")
                || starts_with_str(full, "__llm_");
            if !internal && crate::compiler::analysis::has_name(&self.exports, clean.as_str()) {
                push_str(&mut sig, ": ");
                push_str(&mut sig, clean.as_str());
                push_str(&mut sig, " ");
                crate::text::push_u64(&mut sig, self.functions[j].1 as u64);
                push_str(&mut sig, "\n");
                proof {
                    assert(ex.to_set().contains(clean@) == ex.contains(clean@));
                    assert(sig@ =~= before + (": "@ + clean@ + " "@ + crate::text::nat_decimal(fv[j as int].1) + "\n"@));
                }
            } else {
                proof {
                    assert(ex.to_set().contains(clean@) == ex.contains(clean@));
                    assert(sig@ =~= before + Seq::<char>::empty());
                }
            }
            j = j + 1;
        }
        proof {
            assert(fv.take(self.functions@.len() as int) =~= fv);
        }
        let ghost part2 = sig@;
        let ghost tv = view_templates(self.templates@);
        let mut k: usize = 0;
        proof {
            assert(sig@ =~= part2 + arity_lines(tv.take(0), pre, ex, false));
        }
        while k < self.templates.len()
            invariant
                k <= self.templates@.len(),
                pre == prefix@,
                ex == view_strings(self.exports@),
                tv == view_templates(self.templates@),
                tv.len() == self.templates@.len(),
                sig@ == part2 + arity_lines(tv.take(k as int), pre, ex, false),
            decreases self.templates@.len() - k,
        {
            let ghost before = sig@;
            let clean = strip_module_prefix_exec(self.templates[k].0.as_str(), prefix.as_str());
            proof {
                assert(tv.take(k + 1).drop_last() =~= tv.take(k as int));
                assert(tv.take(k + 1).last() == tv[k as int]);
            }
            if crate::compiler::analysis::has_name(&self.exports, clean.as_str()) {
                push_str(&mut sig, ": ");
                push_str(&mut sig, clean.as_str());
                push_str(&mut sig, " ");
                crate::text::push_u64(&mut sig, self.templates[k].1.0.len() as u64);
                push_str(&mut sig, "\n");
                proof {
                    assert(ex.to_set().contains(clean@) == ex.contains(clean@));
                    assert(sig@ =~= before + (": "@ + clean@ + " "@ + crate::text::nat_decimal(tv[k as int].1) + "\n"@));
                }
            } else {
                proof {
                    assert(ex.to_set().contains(clean@) == ex.contains(clean@));
                    assert(sig@ =~= before + Seq::<char>::empty());
                }
            }
            k = k + 1;
        }
        proof {
            assert(tv.take(self.templates@.len() as int) =~= tv);
        }
        sig
    }
}

/// The 1-based slot and name of a field in a field list (see `slot_in`).
fn slot_in_exec(fields: &Vec<String>, field: &str) -> (r: Option<(u64, String)>)
    ensures
        match (r, slot_in(view_strings(fields@), field@)) {
            (Some((a, b)), Some((x, y))) => a == x && b@ == y,
            (None, None) => true,
            _ => false,
        },
{
    let ghost fv = view_strings(fields@);
    let mut i: usize = 0;
    while i < fields.len()
        invariant
            i <= fields@.len(),
            fv == view_strings(fields@),
            fv.len() == fields@.len(),
            first_index(fv, field@, 0) == first_index(fv, field@, i as int),
        decreases fields@.len() - i,
    {
        proof {
            assert(fv[i as int] == fields@[i as int]@);
        }
        if str_eq(fields[i].as_str(), field) {
            return Some(((i + 1) as u64, copy_string(&fields[i])));
        }
        i = i + 1;
    }
    None
}

impl CodeGen {
    /// Where field `field_name` of the instance `instance_expr` lives (see
    /// `field_slot`), with `stack_shapes` the shapes known for the stack
    /// slots; `None` is error E007, a field no candidate shape has.
    pub fn resolve_soa_field(&self, instance_expr: &Expr, field_name: &str, stack_shapes: &[Option<String>]) -> (r:
        Option<(u64, String)>)
        ensures
            match (
                r,
                field_slot(
                    view_shapes(self.shapes@),
                    crate::compiler::ast::shape_of(instance_expr@, crate::compiler::ast::view_opt_names(stack_shapes@)),
                    field_name@,
                ),
            ) {
                (Some((a, b)), Some((x, y))) => a == x && b@ == y,
                (None, None) => true,
                _ => false,
            },
    {
        let ghost sv = view_shapes(self.shapes@);
        let inferred = crate::compiler::ast::infer_shape_from_stack(instance_expr, stack_shapes);
        match inferred {
            Some(shape_name) => match lookup_fields(&self.shapes, shape_name.as_str()) {
                Some(fields) => slot_in_exec(&fields, field_name),
                None => None,
            },
            None => {
                let mut i: usize = 0;
                while i < self.shapes.len()
                    invariant
                        i <= self.shapes@.len(),
                        sv == view_shapes(self.shapes@),
                        sv.len() == self.shapes@.len(),
                        first_slot(sv, field_name@, 0) == first_slot(sv, field_name@, i as int),
                        crate::compiler::ast::shape_of(
                            instance_expr@,
                            crate::compiler::ast::view_opt_names(stack_shapes@),
                        ) is None,
                    decreases self.shapes@.len() - i,
                {
                    proof {
                        assert(view_strings(self.shapes@[i as int].1@) =~= sv[i as int].1);
                    }
                    match slot_in_exec(&self.shapes[i].1, field_name) {
                        Some(r) => {
                            return Some(r);
                        },
                        None => {},
                    }
                    i = i + 1;
                }
                None
            },
        }
    }
}

/// Where the signature file of a build goes: beside the output with its
/// `.o` replaced by `.llmi` (or `.llmi` appended), or beside the input when
/// there is no output.
pub open spec fn signature_path_of(output: Option<Seq<char>>, input: Seq<char>) -> Seq<char> {
    match output {
        Some(p) => if crate::compiler::analysis::ends_with(p, ".o"@) {
            p.subrange(0, p.len() - 2) + ".llmi"@
        } else {
            p + ".llmi"@
        },
        None => input + ".llmi"@,
    }
}

/// The path of the signature file (see `signature_path_of`).
pub fn signature_path(output: Option<&str>, input: &str) -> (r: String)
    ensures
        r@ == signature_path_of(
            match output {
                Some(p) => Some(p@),
                None => None,
            },
            input@,
        ),
{
    match output {
        Some(p) => {
            let pv = crate::text::chars_of(p);
            let plen = pv.len();
            let dot_o = crate::compiler::analysis::ends_with_str(p, ".o");
            proof {
                reveal_strlit(".o");
            }
            if dot_o {
                let mut r = String::new();
                let mut i: usize = 0;
                while i < plen - 2
                    invariant
                        pv@ == p@,
                        plen == pv@.len(),
                        plen >= 2,
                        i <= plen - 2,
                        r@ == p@.subrange(0, i as int),
                    decreases plen - 2 - i,
                {
                    crate::text::push_char(&mut r, pv[i]);
                    proof {
                        assert(p@.subrange(0, i + 1) =~= p@.subrange(0, i as int).push(p@[i as int]));
                    }
                    i = i + 1;
                }
                push_str(&mut r, ".llmi");
                r
            } else {
                let mut r = string_of(p);
                push_str(&mut r, ".llmi");
                r
            }
        },
        None => {
            let mut r = string_of(input);
            push_str(&mut r, ".llmi");
            r
        },
    }
}

/// `name` qualified by the module `module` (see `qualified`).
fn qualify(module: &str, name: &str) -> (r: String)
    ensures
        r@ == qualified(module@, name@),
{
    if str_eq(module, "main") || str_eq(module, "test") {
        string_of(name)
    } else {
        let mut r = string_of(module);
        push_str(&mut r, "_");
        push_str(&mut r, name);
        r
    }
}

} // verus!
