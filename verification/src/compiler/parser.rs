//! The parser: reads tokens from the lexer and builds expressions as the
//! grammar (`crate::compiler::grammar`) says.

use vstd::prelude::*;
use crate::compiler::ast::{Expr, ExprV, Param, ParamV, view_exprs, view_params, view_strings, lemma_view_exprs, lemma_view_exprs_push};
use crate::compiler::error::{CompileError, ErrorView};
use crate::compiler::grammar::{
    Answer, PState, Reply, add_var, reply_to, drop_var, find_func, find_shape, flat_len, is_binop, last_pos, measure,
    money_of_text, nary_arity, nary_build, p_apply, p_atom, p_consume, p_define, p_err, p_exprs, p_expand, p_export,
    p_expr, p_fields, p_get, p_ident, p_import, p_let, p_map, p_meta, p_module, p_module_name, p_money, p_new, p_nary,
    p_pack, p_params, p_router, p_routes, p_set, p_shape, p_string, p_time_now, pop_scope, resolve_var, shape_name,
    strip_meta, valid, lemma_consume, p_leaf,
};
use crate::compiler::lexer::{
    Lexed, Lexer, Token, TokenV, dot_index, float_text, invalid_char_message, lemma_lex_float, lemma_lex_next,
    lemma_stream_sound_step, lex_next, money_fits, stream_sound,
};
use crate::compiler::router::{expand_router, router_expansion, view_routes};
use crate::compiler::table::{lookup_fields, lookup_number};
use crate::compiler::signature::{builtin_sig, builtin_signature, parse_signature, sig_of, view_funcs, view_shapes};
use crate::text::{all_digits, chars_of, copy_string, digits_value, parse_digits, push_char, push_str, str_eq, string_eq, string_of};

verus! {

/// Supplies the signature text (`.llmi`) of an imported module, or an error
/// code when the module cannot be found.
pub trait SignatureResolver {
    fn resolve(&self, module: &str, import_paths: &[String], filename: &str) -> Result<String, String>;
}

/// The resolver that knows the modules built into the runtime and answers
/// E017 for any other.
pub struct BuiltinSignatureResolver;

impl SignatureResolver for BuiltinSignatureResolver {
    fn resolve(&self, module: &str, import_paths: &[String], filename: &str) -> (r: Result<String, String>)
        ensures
            match (r, builtin_sig(module@)) {
                (Ok(t), Some(b)) => t@ == b,
                (Err(code), None) => code@ == "E017"@,
                _ => false,
            },
    {
        match builtin_signature(module) {
            Some(t) => Ok(t),
            None => Err(string_of("E017")),
        }
    }
}

/// The answer log `l` agrees with `log` on every answer `log` holds.
pub open spec fn extends(l: Seq<Answer>, log: Seq<Answer>) -> bool {
    &&& log.len() <= l.len()
    &&& forall|i: int| 0 <= i < log.len() ==> l[i] == log[i]
}

pub proof fn lemma_extends_trans(a: Seq<Answer>, b: Seq<Answer>, c: Seq<Answer>)
    requires
        extends(a, b),
        extends(b, c),
    ensures
        extends(a, c),
{
    assert forall|i: int| 0 <= i < c.len() implies a[i] == c[i] by {
        assert(a[i] == b[i]);
    }
}

/// What bounds the parser's counters: the bound names, the generated
/// functions and what is left to read.
pub open spec fn budget(st: PState) -> int {
    flat_len(st.scopes) + st.generated.len() + measure(st)
}

/// The view of a parse result.
pub open spec fn res_view(r: Result<Expr, CompileError>) -> Result<ExprV, ErrorView> {
    match r {
        Ok(e) => Ok(e@),
        Err(e) => Err(e@),
    }
}

/// The view of a consumed token.
pub open spec fn tok_view(r: Result<Token, CompileError>) -> Result<TokenV, ErrorView> {
    match r {
        Ok(t) => Ok(t@),
        Err(e) => Err(e@),
    }
}

/// The view of a consumed name.
pub open spec fn name_view(r: Result<String, CompileError>) -> Result<Seq<char>, ErrorView> {
    match r {
        Ok(t) => Ok(t@),
        Err(e) => Err(e@),
    }
}

/// The view of several parse results.
pub open spec fn exprs_view(r: Result<Vec<Expr>, CompileError>) -> Result<Seq<ExprV>, ErrorView> {
    match r {
        Ok(v) => Ok(view_exprs(v@)),
        Err(e) => Err(e@),
    }
}

/// The view of parsed parameters.
pub open spec fn params_view(r: Result<Vec<Param>, CompileError>) -> Result<Seq<ParamV>, ErrorView> {
    match r {
        Ok(v) => Ok(view_params(v@)),
        Err(e) => Err(e@),
    }
}

/// The view of parsed field names.
pub open spec fn fields_view(r: Result<Vec<String>, CompileError>) -> Result<Seq<Seq<char>>, ErrorView> {
    match r {
        Ok(v) => Ok(view_strings(v@)),
        Err(e) => Err(e@),
    }
}

/// The view of parsed routes.
pub open spec fn routes_view(r: Result<Vec<(Expr, Expr, Expr)>, CompileError>) -> Result<Seq<(ExprV, ExprV, ExprV)>, ErrorView> {
    match r {
        Ok(v) => Ok(view_routes(v@)),
        Err(e) => Err(e@),
    }
}

/// The view of a resolver's reply.
pub open spec fn reply_view(r: Result<String, String>) -> Reply {
    match r {
        Ok(t) => Reply::Found(t@),
        Err(c) => Reply::Missing(c@),
    }
}

pub open spec fn view_scopes(v: Seq<Vec<String>>) -> Seq<Seq<Seq<char>>> {
    v.map_values(|s: Vec<String>| view_strings(s@))
}

pub open spec fn view_imported(v: Seq<(String, String)>) -> Seq<(Seq<char>, Seq<char>)> {
    v.map_values(|p: (String, String)| (p.0@, p.1@))
}

/// The parser: the lexer with one token of lookahead, the scopes of bound
/// names, the shapes imported so far and the functions generated by router
/// forms that have not been handed out yet.
pub struct Parser {
    lexer: Lexer,
    current_token: Token,
    filename: String,
    scopes: Vec<Vec<String>>,
    pub import_paths: Vec<String>,
    pub imported_shapes: Vec<(String, String)>,
    pub resolver: Box<dyn SignatureResolver>,
    pub generated_funcs: Vec<Expr>,
    answers: Ghost<Seq<Answer>>,
}

impl View for Parser {
    type V = PState;

    closed spec fn view(&self) -> PState {
        PState {
            src: self.lexer.source(),
            pos: self.lexer.position() as int,
            line: self.lexer.cur_line() as int,
            cur: self.current_token@,
            filename: self.filename@,
            paths: view_strings(self.import_paths@),
            scopes: view_scopes(self.scopes@),
            imported: view_imported(self.imported_shapes@),
            generated: view_exprs(self.generated_funcs@),
            nresp: self.answers@.len(),
        }
    }
}

impl Parser {
    /// The lexer is consistent, the rest of the source lexes soundly, a float
    /// lookahead carries float text, and the counters stay within `usize`.
    pub closed spec fn wf(&self) -> bool {
        &&& self.lexer.wf()
        &&& self.lexer.file() == self.filename@
        &&& stream_sound(self.lexer.source(), self.lexer.position() as int, self.lexer.cur_line() as int, self.current_token@ is Money)
        &&& (self.current_token@ matches TokenV::Float(t) ==> float_text(t))
        &&& budget(self@) <= usize::MAX
    }

    /// The resolver answers received so far, in order.
    pub closed spec fn log(&self) -> Seq<Answer> {
        self.answers@
    }

    /// A parser over `lexer` whose errors name `filename`; it reads the first
    /// token (an invalid character there is error E001), and resolves imports
    /// with the built-in modules only until `resolver` is replaced.
    pub fn new(lexer: Lexer, filename: String) -> (r: Result<Self, CompileError>)
        requires
            lexer.wf(),
            lexer.sound(false),
            lexer.source().len() < usize::MAX,
        ensures
            ({
                let (lx, p, l) = lex_next(lexer.source(), lexer.position() as int, lexer.cur_line() as int);
                match lx {
                    Lexed::Tok(t) => r matches Ok(parser) && parser.wf() && parser.log() == Seq::<Answer>::empty()
                        && parser@ == (PState {
                        src: lexer.source(),
                        pos: p,
                        line: l,
                        cur: t,
                        filename: filename@,
                        paths: Seq::empty(),
                        scopes: Seq::empty(),
                        imported: Seq::empty(),
                        generated: Seq::empty(),
                        nresp: 0,
                    }),
                    Lexed::Invalid(c) => r matches Err(e) && e@ == (ErrorView {
                        code: invalid_char_message(c),
                        filename: filename@,
                        line: l as nat,
                    }),
                    Lexed::Malformed => false,
                }
            }),
    {
        let mut lexer = lexer;
        lexer.set_filename(copy_string(&filename));
        proof {
            lemma_stream_sound_step(lexer.source(), lexer.position() as int, lexer.cur_line() as int, false);
            lemma_lex_next(lexer.source(), lexer.position() as int, lexer.cur_line() as int);
            lemma_lex_float(lexer.source(), lexer.position() as int, lexer.cur_line() as int);
        }
        let current_token = match lexer.next_token() {
            Ok(t) => t,
            Err(e) => return Err(e),
        };
        let p = Parser {
            lexer,
            current_token,
            filename,
            scopes: Vec::new(),
            import_paths: Vec::new(),
            imported_shapes: Vec::new(),
            resolver: Box::new(BuiltinSignatureResolver),
            generated_funcs: Vec::new(),
            answers: Ghost(Seq::empty()),
        };
        proof {
            assert(view_scopes(p.scopes@) =~= Seq::empty());
            assert(view_strings(p.import_paths@) =~= Seq::empty());
            assert(view_imported(p.imported_shapes@) =~= Seq::empty());
            assert(view_exprs(p.generated_funcs@) =~= Seq::empty());
        }
        Ok(p)
    }

    /// The error `code` at the current file and line.
    fn error(&self, code: &str) -> (e: CompileError)
        ensures
            e@ == p_err(self@, code@),
    {
        CompileError::new(code, self.filename.as_str(), self.lexer.current_line())
    }

    /// Whether the lookahead is the end of input.
    fn at_end(&self) -> (r: bool)
        ensures
            r == (self@.cur is EOF),
    {
        match self.current_token {
            Token::EOF => true,
            _ => false,
        }
    }

    /// Returns the lookahead token and lexes the next one.
    fn consume(&mut self) -> (r: Result<Token, CompileError>)
        requires
            old(self).wf(),
        ensures
            final(self).log() == old(self).log(),
            (tok_view(r), final(self)@) == p_consume(old(self)@),
            r is Ok ==> final(self).wf() && measure(final(self)@) <= measure(old(self)@) && budget(final(self)@)
                <= budget(old(self)@),
            r is Ok && !(old(self)@.cur is EOF) ==> measure(final(self)@) < measure(old(self)@),
            r matches Ok(t) ==> t@ == old(self)@.cur,
            r is Ok && old(self)@.cur is Money ==> (final(self)@.cur matches TokenV::Integer(i) ==> money_fits(i)),
            final(self)@.scopes == old(self)@.scopes,
            final(self)@.imported == old(self)@.imported,
            final(self)@.generated == old(self)@.generated,
            final(self)@.nresp == old(self)@.nresp,
            final(self)@.filename == old(self)@.filename,
            final(self)@.src == old(self)@.src,
    {
        proof {
            reveal(p_consume);
            lemma_stream_sound_step(self.lexer.source(), self.lexer.position() as int, self.lexer.cur_line() as int, self.current_token@ is Money);
            lemma_consume(self@);
            lemma_lex_float(self.lexer.source(), self.lexer.position() as int, self.lexer.cur_line() as int);
        }
        let tok = self.current_token.copy();
        match self.lexer.next_token() {
            Ok(t) => {
                self.current_token = t;
                Ok(tok)
            },
            Err(e) => Err(e),
        }
    }

    /// Adds a binding to the innermost scope, if there is one.
    fn add_variable(&mut self, name: String)
        ensures
            final(self)@ == (PState { scopes: add_var(old(self)@.scopes, name@), ..old(self)@ }),
            final(self).lexer == old(self).lexer,
            final(self).current_token == old(self).current_token,
            final(self).filename == old(self).filename,
            final(self).answers == old(self).answers,
            flat_len(final(self)@.scopes) <= flat_len(old(self)@.scopes) + 1,
    {
        let ghost sv = self.scopes@;
        let n = self.scopes.len();
        if n > 0 {
            let mut last = self.scopes.pop().unwrap();
            last.push(name);
            self.scopes.push(last);
            proof {
                assert(self.scopes@.len() == n);
                assert(self.scopes@[n - 1]@ == sv[n - 1]@.push(name));
                assert(view_strings(self.scopes@[n - 1]@) =~= view_strings(sv[n - 1]@).push(name@));
                assert forall|k: int| 0 <= k < n - 1 implies self.scopes@[k] == sv[k] by {}
                assert(view_scopes(self.scopes@) =~= add_var(view_scopes(sv), name@));
                lemma_flat_len_update_last(view_scopes(sv), view_scopes(sv).last().push(name@));
            }
        }
    }

    /// Drops the most recent binding of the innermost scope, if any.
    fn drop_variable(&mut self)
        ensures
            final(self)@ == (PState { scopes: drop_var(old(self)@.scopes), ..old(self)@ }),
            final(self).lexer == old(self).lexer,
            final(self).current_token == old(self).current_token,
            final(self).filename == old(self).filename,
            final(self).answers == old(self).answers,
    {
        let ghost sv = self.scopes@;
        let n = self.scopes.len();
        if n > 0 {
            let mut last = self.scopes.pop().unwrap();
            let ghost lv = last@;
            if last.len() > 0 {
                last.pop();
                self.scopes.push(last);
                proof {
                    assert(self.scopes@.len() == n);
                    assert(self.scopes@[n - 1]@ == sv[n - 1]@.drop_last());
                    assert(view_strings(self.scopes@[n - 1]@) =~= view_strings(sv[n - 1]@).drop_last());
                    assert forall|k: int| 0 <= k < n - 1 implies self.scopes@[k] == sv[k] by {}
                    assert(view_scopes(self.scopes@) =~= drop_var(view_scopes(sv)));
                }
            } else {
                self.scopes.push(last);
                proof {
                    assert(self.scopes@ =~= sv);
                }
            }
        }
    }

    /// Opens a new innermost scope.
    fn push_scope(&mut self)
        ensures
            final(self)@ == (PState { scopes: old(self)@.scopes.push(Seq::empty()), ..old(self)@ }),
            final(self).lexer == old(self).lexer,
            final(self).current_token == old(self).current_token,
            final(self).filename == old(self).filename,
            final(self).answers == old(self).answers,
    {
        let ghost sv = self.scopes@;
        self.scopes.push(Vec::new());
        proof {
            assert(view_strings(Seq::<String>::empty()) =~= Seq::empty());
            assert(view_scopes(self.scopes@) =~= view_scopes(sv).push(Seq::empty()));
        }
    }

    /// Closes the innermost scope, if there is one.
    fn pop_scope(&mut self)
        ensures
            final(self)@ == (PState { scopes: pop_scope(old(self)@.scopes), ..old(self)@ }),
            final(self).lexer == old(self).lexer,
            final(self).current_token == old(self).current_token,
            final(self).filename == old(self).filename,
            final(self).answers == old(self).answers,
    {
        let ghost sv = self.scopes@;
        if self.scopes.len() > 0 {
            self.scopes.pop();
            proof {
                assert(view_scopes(self.scopes@) =~= view_scopes(sv).drop_last());
            }
        }
    }

    /// The De Bruijn index of a bound name: the number of bindings made
    /// after its most recent one.
    #[verifier::loop_isolation(false)]
    fn resolve_variable(&self, name: &String) -> (r: Option<usize>)
        requires
            flat_len(self@.scopes) <= usize::MAX,
        ensures
            match (r, resolve_var(self@.scopes, name@)) {
                (Some(a), Some(b)) => a == b,
                (None, None) => true,
                _ => false,
            },
    {
        let ghost sv = self@.scopes;
        let mut index: usize = 0;
        let mut si: usize = self.scopes.len();
        proof {
            assert(sv.take(si as int) =~= sv);
        }
        while si > 0
            invariant
                si <= sv.len(),
                sv == view_scopes(self.scopes@),
                flat_len(sv) <= usize::MAX,
                flat_len(sv.take(si as int)) + index == flat_len(sv),
                resolve_var(sv, name@) == match resolve_var(sv.take(si as int), name@) {
                    Some(k) => Some((k + index) as nat),
                    None => None,
                },
            decreases si,
        {
            let scope = &self.scopes[si - 1];
            let ghost sc = view_strings(scope@);
            proof {
                assert(sv.take(si as int).drop_last() =~= sv.take(si - 1));
                assert(sv.take(si as int).last() == sc);
            }
            let mut j: usize = scope.len();
            proof {
                assert(sc.take(j as int) =~= sc);
            }
            while j > 0
                invariant
                    j <= scope@.len(),
                    sc == view_strings(scope@),
                    last_pos(sc, name@) == last_pos(sc.take(j as int), name@),
                decreases j,
            {
                proof {
                    assert(sc.take(j as int).drop_last() =~= sc.take(j - 1));
                    assert(sc.take(j as int).last() == scope@[j - 1]@);
                }
                if string_eq(&scope[j - 1], name) {
                    proof {
                        assert(last_pos(sc.take(j as int), name@) == Some((j - 1) as nat));
                        lemma_flat_len_bound(sv, si as int);
                    }
                    return Some(index + (scope.len() - j));
                }
                j = j - 1;
            }
            proof {
                assert(sc.take(0) =~= Seq::<Seq<char>>::empty());
            }
            index = index + scope.len();
            si = si - 1;
        }
        proof {
            assert(sv.take(0) =~= Seq::<Seq<Seq<char>>>::empty());
        }
        None
    }

    /// The name under which a shape is known here (see `shape_name`).
    fn resolve_shape_name(&self, name: String) -> (r: String)
        ensures
            r@ == shape_name(self@.imported, name@),
    {
        let ghost iv = self@.imported;
        let mut i: usize = 0;
        proof {
            assert(iv.skip(0) =~= iv);
        }
        while i < self.imported_shapes.len()
            invariant
                i <= iv.len(),
                iv == view_imported(self.imported_shapes@),
                shape_name(iv, name@) == shape_name(iv.skip(i as int), name@),
            decreases iv.len() - i,
        {
            proof {
                assert(iv.skip(i as int).drop_first() =~= iv.skip(i + 1));
                assert(iv.skip(i as int)[0] == iv[i as int]);
            }
            let (sym, module) = &self.imported_shapes[i];
            if string_eq(sym, &name) {
                let mut s = copy_string(module);
                push_char(&mut s, '_');
                push_str(&mut s, name.as_str());
                return s;
            }
            i = i + 1;
        }
        name
    }

    /// Consumes an identifier and returns its name (E002 otherwise).
    fn expect_ident(&mut self) -> (r: Result<String, CompileError>)
        requires
            old(self).wf(),
        ensures
            final(self).log() == old(self).log(),
            (name_view(r), final(self)@) == p_ident(old(self)@),
            r is Ok ==> final(self).wf() && measure(final(self)@) < measure(old(self)@) && budget(final(self)@)
                <= budget(old(self)@),
            final(self)@.scopes == old(self)@.scopes,
            final(self)@.imported == old(self)@.imported,
            final(self)@.generated == old(self)@.generated,
            final(self)@.nresp == old(self)@.nresp,
    {
        match self.consume() {
            Ok(Token::Identifier(s)) => Ok(s),
            Ok(_) => Err(self.error("E002")),
            Err(e) => Err(e),
        }
    }

    /// Consumes a string literal and returns its text (E002 otherwise).
    fn expect_string(&mut self) -> (r: Result<String, CompileError>)
        requires
            old(self).wf(),
        ensures
            final(self).log() == old(self).log(),
            (name_view(r), final(self)@) == p_string(old(self)@),
            r is Ok ==> final(self).wf() && measure(final(self)@) < measure(old(self)@) && budget(final(self)@)
                <= budget(old(self)@),
            final(self)@.scopes == old(self)@.scopes,
            final(self)@.imported == old(self)@.imported,
            final(self)@.generated == old(self)@.generated,
            final(self)@.nresp == old(self)@.nresp,
    {
        match self.consume() {
            Ok(Token::String(s)) => Ok(s),
            Ok(_) => Err(self.error("E002")),
            Err(e) => Err(e),
        }
    }

    /// Consumes a module name: an identifier or the `http` keyword.
    fn module_name(&mut self) -> (r: Result<String, CompileError>)
        requires
            old(self).wf(),
        ensures
            final(self).log() == old(self).log(),
            (name_view(r), final(self)@) == p_module_name(old(self)@),
            r is Ok ==> final(self).wf() && measure(final(self)@) < measure(old(self)@) && budget(final(self)@)
                <= budget(old(self)@),
            final(self)@.scopes == old(self)@.scopes,
            final(self)@.imported == old(self)@.imported,
            final(self)@.generated == old(self)@.generated,
            final(self)@.nresp == old(self)@.nresp,
    {
        match self.consume() {
            Ok(Token::Identifier(s)) => Ok(s),
            Ok(Token::HttpClient) => Ok(string_of("http")),
            Ok(_) => Err(self.error("E002")),
            Err(e) => Err(e),
        }
    }

    /// One expression.
    #[verifier::spinoff_prover]
    #[verifier::rlimit(60)]
    pub fn parse_expr(&mut self) -> (r: Result<Expr, CompileError>)
        requires
            old(self).wf(),
        ensures
            extends(final(self).log(), old(self).log()),
            forall|l: Seq<Answer>|
                extends(l, final(self).log()) ==> #[trigger] p_expr(old(self)@, l) == (res_view(r), final(self)@),
            r is Ok ==> final(self).wf() && measure(final(self)@) < measure(old(self)@) && budget(final(self)@)
                <= budget(old(self)@) && final(self)@.scopes == old(self)@.scopes,
        decreases measure(old(self)@), 1nat,
    {
        let ghost st = self@;
        match self.current_token {
            Token::Integer(_) | Token::Float(_) | Token::String(_) | Token::DeBruijn(_) | Token::TimeZone
            | Token::TimeNano | Token::Identifier(_) => {
                let r = self.parse_atom();
                proof {
                    assert forall|l: Seq<Answer>| extends(l, self.log()) implies #[trigger] p_expr(st, l) == (res_view(r), self@) by {
                        assert(p_expr(st, l) == p_leaf(st));
                    }
                }
                r
            },
            Token::Shape => {
                let r = self.parse_shape();
                proof {
                    assert forall|l: Seq<Answer>| extends(l, self.log()) implies #[trigger] p_expr(st, l) == (res_view(r), self@) by {
                        assert(p_expr(st, l) == p_shape(st));
                    }
                }
                r
            },
            Token::Bang => {
                let r = self.parse_expand();
                proof {
                    assert forall|l: Seq<Answer>| extends(l, self.log()) implies #[trigger] p_expr(st, l) == (res_view(r), self@) by {
                        assert(p_expr(st, l) == p_expand(st));
                    }
                }
                r
            },
            Token::Let => {
                let r = self.parse_let();
                proof {
                    assert forall|l: Seq<Answer>| extends(l, self.log()) implies #[trigger] p_expr(st, l) == (res_view(r), self@) by {
                        assert(p_expr(st, l) == p_let(st, l));
                    }
                }
                r
            },
            Token::Define => {
                let r = self.parse_define();
                proof {
                    assert forall|l: Seq<Answer>| extends(l, self.log()) implies #[trigger] p_expr(st, l) == (res_view(r), self@) by {
                        assert(p_expr(st, l) == p_define(st, l));
                    }
                }
                r
            },
            Token::New => {
                let r = self.parse_new();
                proof {
                    assert forall|l: Seq<Answer>| extends(l, self.log()) implies #[trigger] p_expr(st, l) == (res_view(r), self@) by {
                        assert(p_expr(st, l) == p_new(st, l));
                    }
                }
                r
            },
            Token::Get => {
                let r = self.parse_get();
                proof {
                    assert forall|l: Seq<Answer>| extends(l, self.log()) implies #[trigger] p_expr(st, l) == (res_view(r), self@) by {
                        assert(p_expr(st, l) == p_get(st, l));
                    }
                }
                r
            },
            Token::SetField => {
                let r = self.parse_set();
                proof {
                    assert forall|l: Seq<Answer>| extends(l, self.log()) implies #[trigger] p_expr(st, l) == (res_view(r), self@) by {
                        assert(p_expr(st, l) == p_set(st, l));
                    }
                }
                r
            },
            Token::Metadata => {
                let r = self.parse_meta();
                proof {
                    assert forall|l: Seq<Answer>| extends(l, self.log()) implies #[trigger] p_expr(st, l) == (res_view(r), self@) by {
                        assert(p_expr(st, l) == p_meta(st, l));
                    }
                }
                r
            },
            Token::Export => {
                let r = self.parse_export();
                proof {
                    assert forall|l: Seq<Answer>| extends(l, self.log()) implies #[trigger] p_expr(st, l) == (res_view(r), self@) by {
                        assert(p_expr(st, l) == p_export(st, l));
                    }
                }
                r
            },
            Token::Money => {
                let r = self.parse_money();
                proof {
                    assert forall|l: Seq<Answer>| extends(l, self.log()) implies #[trigger] p_expr(st, l) == (res_view(r), self@) by {
                        assert(p_expr(st, l) == p_money(st, l));
                    }
                }
                r
            },
            Token::Import => {
                let r = self.parse_import();
                proof {
                    assert forall|l: Seq<Answer>| extends(l, self.log()) implies #[trigger] p_expr(st, l) == (res_view(r), self@) by {
                        assert(p_expr(st, l) == p_import(st, l));
                    }
                }
                r
            },
            Token::Apply(n) => {
                let r = self.parse_apply(n);
                proof {
                    assert forall|l: Seq<Answer>| extends(l, self.log()) implies #[trigger] p_expr(st, l) == (res_view(r), self@) by {
                        assert(p_expr(st, l) == p_apply(st, l, n as nat));
                    }
                }
                r
            },
            Token::Pack(n) => {
                let r = self.parse_pack(n);
                proof {
                    assert forall|l: Seq<Answer>| extends(l, self.log()) implies #[trigger] p_expr(st, l) == (res_view(r), self@) by {
                        assert(p_expr(st, l) == p_pack(st, l, n));
                    }
                }
                r
            },
            Token::MapField => {
                let r = self.parse_map();
                proof {
                    assert forall|l: Seq<Answer>| extends(l, self.log()) implies #[trigger] p_expr(st, l) == (res_view(r), self@) by {
                        assert(p_expr(st, l) == p_map(st, l));
                    }
                }
                r
            },
            Token::TimeNow => {
                let r = self.parse_time_now();
                proof {
                    assert forall|l: Seq<Answer>| extends(l, self.log()) implies #[trigger] p_expr(st, l) == (res_view(r), self@) by {
                        assert(p_expr(st, l) == p_time_now(st, l));
                    }
                }
                r
            },
            Token::Router => {
                let r = self.parse_router();
                proof {
                    assert forall|l: Seq<Answer>| extends(l, self.log()) implies #[trigger] p_expr(st, l) == (res_view(r), self@) by {
                        assert(p_expr(st, l) == p_router(st, l));
                    }
                }
                r
            },
            Token::EOF => {
                let e = self.error("E000");
                proof {
                    assert forall|l: Seq<Answer>| extends(l, self.log()) implies #[trigger] p_expr(st, l) == (Err::<ExprV, ErrorView>(e@), self@) by {
                        assert(p_expr(st, l) == (Err::<ExprV, ErrorView>(p_err(st, "E000"@)), st));
                    }
                }
                Err(e)
            },
            _ => {
                if arity_of(&self.current_token) > 0 {
                    let r = self.parse_nary();
                    proof {
                        assert forall|l: Seq<Answer>| extends(l, self.log()) implies #[trigger] p_expr(st, l) == (res_view(r), self@) by {
                            assert(p_expr(st, l) == p_nary(st, l));
                        }
                    }
                    r
                } else {
                    let e = self.error("E001");
                    proof {
                        assert forall|l: Seq<Answer>| extends(l, self.log()) implies #[trigger] p_expr(st, l) == (Err::<ExprV, ErrorView>(e@), self@) by {
                            assert(p_expr(st, l) == (Err::<ExprV, ErrorView>(p_err(st, "E001"@)), st));
                        }
                    }
                    Err(e)
                }
            },
        }
    }

    /// A literal, a name or a De Bruijn index.
    #[verifier::spinoff_prover]
    fn parse_atom(&mut self) -> (r: Result<Expr, CompileError>)
        requires
            old(self).wf(),
            old(self)@.cur is Integer || old(self)@.cur is Float || old(self)@.cur is String || old(self)@.cur is DeBruijn || old(self)@.cur is TimeZone || old(self)@.cur is TimeNano || old(self)@.cur is Identifier,
        ensures
            final(self).log() == old(self).log(),
            (res_view(r), final(self)@) == p_leaf(old(self)@),
            r is Ok ==> final(self).wf() && measure(final(self)@) < measure(old(self)@) && budget(final(self)@)
                <= budget(old(self)@) && final(self)@.scopes == old(self)@.scopes,
        decreases measure(old(self)@), 0nat,
    {
        let e = match &self.current_token {
            Token::Integer(i) => Expr::Integer(*i),
            Token::Float(f) => Expr::Float(copy_string(f)),
            Token::String(s) => Expr::String(copy_string(s)),
            Token::DeBruijn(i) => Expr::DeBruijn(*i),
            Token::TimeZone => Expr::TimeZone,
            Token::TimeNano => Expr::TimeNano,
            Token::Identifier(s) => match self.resolve_variable(s) {
                Some(i) => Expr::DeBruijn(i),
                None => Expr::Identifier(copy_string(s)),
            },
            _ => Expr::TimeNow,
        };
        match self.consume() {
            Ok(_) => Ok(e),
            Err(err) => Err(err),
        }
    }

    /// `k` expressions in a row, appended to `acc`.
    #[verifier::spinoff_prover]
    fn parse_exprs(&mut self, k: usize, acc: Vec<Expr>) -> (r: Result<Vec<Expr>, CompileError>)
        requires
            old(self).wf(),
        ensures
            extends(final(self).log(), old(self).log()),
            forall|l: Seq<Answer>|
                extends(l, final(self).log()) ==> #[trigger] p_exprs(old(self)@, l, k as nat, view_exprs(acc@)) == (
                exprs_view(r),
                final(self)@,
            ),
            r is Ok ==> final(self).wf() && measure(final(self)@) <= measure(old(self)@) && budget(final(self)@)
                <= budget(old(self)@) && final(self)@.scopes == old(self)@.scopes,
            r is Ok && k > 0 ==> measure(final(self)@) < measure(old(self)@),
            r matches Ok(v) ==> v@.len() == acc@.len() + k,
        decreases measure(old(self)@), 2nat,
    {
        if k == 0 {
            return Ok(acc);
        }
        let ghost st = self@;
        let ghost av = view_exprs(acc@);
        match self.parse_expr() {
            Err(e) => {
                proof {
                    assert forall|l: Seq<Answer>| extends(l, self.log()) implies #[trigger] p_exprs(st, l, k as nat, av) == (Err::<Seq<ExprV>, ErrorView>(e@), self@) by {
                        assert(p_expr(st, l) == (Err::<ExprV, ErrorView>(e@), self@));
                    }
                }
                Err(e)
            },
            Ok(e) => {
                let ghost log1 = self.log();
                let ghost st1 = self@;
                let mut acc = acc;
                let ghost ev = e;
                let ghost accv0 = acc@;
                acc.push(e);
                proof {
                    lemma_view_exprs_push(accv0, ev);
                }
                let ghost av1 = view_exprs(acc@);
                let r = self.parse_exprs(k - 1, acc);
                proof {
                    assert forall|l: Seq<Answer>| extends(l, self.log()) implies #[trigger] p_exprs(st, l, k as nat, av) == (exprs_view(r), self@) by {
                        lemma_extends_trans(l, self.log(), log1);
                        assert(p_expr(st, l) == (Ok::<ExprV, ErrorView>(ev@), st1));
                        assert(p_exprs(st1, l, (k - 1) as nat, av1) == (exprs_view(r), self@));
                    }
                }
                r
            },
        }
    }

    /// A token with a fixed number of operands.
    #[verifier::spinoff_prover]
    fn parse_nary(&mut self) -> (r: Result<Expr, CompileError>)
        requires
            old(self).wf(),
            nary_arity(old(self)@.cur) > 0,
        ensures
            extends(final(self).log(), old(self).log()),
            forall|l: Seq<Answer>|
                extends(l, final(self).log()) ==> #[trigger] p_nary(old(self)@, l) == (res_view(r), final(self)@),
            r is Ok ==> final(self).wf() && measure(final(self)@) < measure(old(self)@) && budget(final(self)@)
                <= budget(old(self)@) && final(self)@.scopes == old(self)@.scopes,
        decreases measure(old(self)@), 0nat,
    {
        let ghost st = self@;
        let t = match self.consume() {
            Ok(t) => t,
            Err(e) => return Err(e),
        };
        let ghost st1 = self@;
        let n = arity_of(&t);
        proof {
            assert(view_exprs(Seq::<Expr>::empty()) =~= Seq::<ExprV>::empty());
        }
        match self.parse_exprs(n, Vec::new()) {
            Ok(a) => {
                let ghost av = view_exprs(a@);
                let ghost tv = t@;
                let e = build_nary(t, a);
                proof {
                    assert forall|l: Seq<Answer>| extends(l, self.log()) implies #[trigger] p_nary(st, l) == (Ok::<ExprV, ErrorView>(e@), self@) by {
                        assert(p_exprs(st1, l, nary_arity(tv), Seq::empty()) == (Ok::<Seq<ExprV>, ErrorView>(av), self@));
                    }
                }
                Ok(e)
            },
            Err(e) => {
                let ghost tv = t@;
                proof {
                    assert forall|l: Seq<Answer>| extends(l, self.log()) implies #[trigger] p_nary(st, l) == (Err::<ExprV, ErrorView>(e@), self@) by {
                        assert(p_exprs(st1, l, nary_arity(tv), Seq::empty()) == (Err::<Seq<ExprV>, ErrorView>(e@), self@));
                    }
                }
                Err(e)
            },
        }
    }

    /// `L name value body`.
    #[verifier::spinoff_prover]
    fn parse_let(&mut self) -> (r: Result<Expr, CompileError>)
        requires
            old(self).wf(),
            old(self)@.cur is Let,
        ensures
            extends(final(self).log(), old(self).log()),
            forall|l: Seq<Answer>|
                extends(l, final(self).log()) ==> #[trigger] p_let(old(self)@, l) == (res_view(r), final(self)@),
            r is Ok ==> final(self).wf() && measure(final(self)@) < measure(old(self)@) && budget(final(self)@)
                <= budget(old(self)@) && final(self)@.scopes == old(self)@.scopes,
        decreases measure(old(self)@), 0nat,
    {
        let ghost st = self@;
        if let Err(e) = self.consume() {
            return Err(e);
        }
        let ghost st1 = self@;
        let name = match self.expect_ident() {
            Ok(n) => n,
            Err(e) => return Err(e),
        };
        let ghost st2 = self@;
        let ghost nv = name@;
        assert(p_ident(st1) == (Ok::<Seq<char>, ErrorView>(nv), st2));
        let v = match self.parse_expr() {
            Ok(v) => v,
            Err(e) => {
                proof {
                    assert forall|l: Seq<Answer>| extends(l, self.log()) implies #[trigger] p_let(st, l) == (Err::<ExprV, ErrorView>(e@), self@) by {
                        assert(p_expr(st2, l) == (Err::<ExprV, ErrorView>(e@), self@));
                    }
                }
                return Err(e);
            },
        };
        let ghost st3 = self@;
        let ghost log3 = self.log();
        let ghost vv = v@;
        self.add_variable(copy_string(&name));
        let ghost st4 = self@;
        proof {
            lemma_add_drop(st3.scopes, name@);
            assert(st4 == (PState { scopes: add_var(st3.scopes, nv), ..st3 }));
        }
        let b = match self.parse_expr() {
            Ok(b) => b,
            Err(e) => {
                proof {
                    assert forall|l: Seq<Answer>| extends(l, self.log()) implies #[trigger] p_let(st, l) == (Err::<ExprV, ErrorView>(e@), self@) by {
                        lemma_extends_trans(l, self.log(), log3);
                        assert(p_expr(st2, l) == (Ok::<ExprV, ErrorView>(vv), st3));
                        assert(p_expr(st4, l) == (Err::<ExprV, ErrorView>(e@), self@));
                    }
                }
                return Err(e);
            },
        };
        let ghost st5 = self@;
        let ghost bv = b@;
        self.drop_variable();
        let e = Expr::Let(name, Box::new(v), Box::new(b));
        assert(e@ == ExprV::Let(nv, Box::new(vv), Box::new(bv)));
        proof {
            assert(self@ == (PState { scopes: drop_var(st5.scopes), ..st5 }));
            assert forall|l: Seq<Answer>| extends(l, self.log()) implies #[trigger] p_let(st, l) == (Ok::<ExprV, ErrorView>(e@), self@) by {
                lemma_extends_trans(l, self.log(), log3);
                assert(p_expr(st2, l) == (Ok::<ExprV, ErrorView>(vv), st3));
                assert(p_expr(st4, l) == (Ok::<ExprV, ErrorView>(bv), st5));
            }
        }
        Ok(e)
    }

    /// Parameters of a definition, each bound as it is read.
    #[verifier::spinoff_prover]
    fn parse_params(&mut self, acc: Vec<Param>) -> (r: Result<Vec<Param>, CompileError>)
        requires
            old(self).wf(),
            old(self)@.scopes.len() > 0,
        ensures
            final(self).log() == old(self).log(),
            (params_view(r), final(self)@) == p_params(old(self)@, view_params(acc@)),
            r is Ok ==> final(self).wf() && measure(final(self)@) <= measure(old(self)@) && budget(final(self)@)
                <= budget(old(self)@) && final(self)@.scopes.len() == old(self)@.scopes.len()
                && final(self)@.scopes.drop_last() == old(self)@.scopes.drop_last(),
        decreases measure(old(self)@),
    {
        let ghost st = self@;
        let name = match &self.current_token {
            Token::Identifier(p) => copy_string(p),
            _ => return Ok(acc),
        };
        if let Err(e) = self.consume() {
            return Err(e);
        }
        let mut expand = false;
        if let Token::Bang = self.current_token {
            if let Err(e) = self.consume() {
                return Err(e);
            }
            expand = true;
        }
        let ghost st2 = self@;
        self.add_variable(copy_string(&name));
        proof {
            lemma_flat_len_update_last(st2.scopes, st2.scopes.last().push(name@));
        }
        let mut acc = acc;
        let ghost av = acc@;
        let p = Param { name, expand };
        acc.push(p);
        proof {
            assert(view_params(acc@) =~= view_params(av).push(p@));
        }
        self.parse_params(acc)
    }

    /// `: name params body`.
    #[verifier::spinoff_prover]
    fn parse_define(&mut self) -> (r: Result<Expr, CompileError>)
        requires
            old(self).wf(),
            old(self)@.cur is Define,
        ensures
            extends(final(self).log(), old(self).log()),
            forall|l: Seq<Answer>|
                extends(l, final(self).log()) ==> #[trigger] p_define(old(self)@, l) == (res_view(r), final(self)@),
            r is Ok ==> final(self).wf() && measure(final(self)@) < measure(old(self)@) && budget(final(self)@)
                <= budget(old(self)@) && final(self)@.scopes == old(self)@.scopes,
        decreases measure(old(self)@), 0nat,
    {
        let ghost st = self@;
        if let Err(e) = self.consume() {
            return Err(e);
        }
        let name = match self.expect_ident() {
            Ok(n) => n,
            Err(e) => return Err(e),
        };
        let ghost st2 = self@;
        self.push_scope();
        let ghost st3 = self@;
        let empty: Vec<Param> = Vec::new();
        proof {
            lemma_flat_len_push(st2.scopes, Seq::empty());
            assert(view_params(empty@) =~= Seq::empty());
        }
        let params = match self.parse_params(empty) {
            Ok(p) => p,
            Err(e) => return Err(e),
        };
        let ghost st4 = self@;
        let ghost pv = view_params(params@);
        let b = match self.parse_expr() {
            Ok(b) => b,
            Err(e) => {
                proof {
                    assert forall|l: Seq<Answer>| extends(l, self.log()) implies #[trigger] p_define(st, l) == (Err::<ExprV, ErrorView>(e@), self@) by {
                        assert(p_expr(st4, l) == (Err::<ExprV, ErrorView>(e@), self@));
                    }
                }
                return Err(e);
            },
        };
        let ghost st5 = self@;
        let ghost bv = b@;
        self.pop_scope();
        proof {
            assert(st5.scopes.drop_last() =~= st2.scopes);
            lemma_flat_len_push(st5.scopes.drop_last(), st5.scopes.last());
            assert(st5.scopes.drop_last().push(st5.scopes.last()) =~= st5.scopes);
        }
        let ghost nv = name@;
        let e = Expr::Define(name, params, Box::new(b), false);
        assert(e@ == ExprV::Define(nv, pv, Box::new(bv), false));
        proof {
            assert forall|l: Seq<Answer>| extends(l, self.log()) implies #[trigger] p_define(st, l) == (Ok::<ExprV, ErrorView>(e@), self@) by {
                assert(p_expr(st4, l) == (Ok::<ExprV, ErrorView>(bv), st5));
            }
        }
        Ok(e)
    }

    /// The field names after a shape's name.
    #[verifier::spinoff_prover]
    fn parse_fields(&mut self, acc: Vec<String>) -> (r: Result<Vec<String>, CompileError>)
        requires
            old(self).wf(),
        ensures
            final(self).log() == old(self).log(),
            (fields_view(r), final(self)@) == p_fields(old(self)@, view_strings(acc@)),
            r is Ok ==> final(self).wf() && measure(final(self)@) <= measure(old(self)@) && budget(final(self)@)
                <= budget(old(self)@) && final(self)@.scopes == old(self)@.scopes,
        decreases measure(old(self)@),
    {
        let f = match &self.current_token {
            Token::Identifier(f) => copy_string(f),
            _ => return Ok(acc),
        };
        if let Err(e) = self.consume() {
            return Err(e);
        }
        let mut acc = acc;
        let ghost av = acc@;
        let ghost fv = f@;
        acc.push(f);
        proof {
            assert(view_strings(acc@) =~= view_strings(av).push(fv));
        }
        self.parse_fields(acc)
    }

    /// `# Name field...`
    #[verifier::spinoff_prover]
    fn parse_shape(&mut self) -> (r: Result<Expr, CompileError>)
        requires
            old(self).wf(),
            old(self)@.cur is Shape,
        ensures
            final(self).log() == old(self).log(),
            (res_view(r), final(self)@) == p_shape(old(self)@),
            r is Ok ==> final(self).wf() && measure(final(self)@) < measure(old(self)@) && budget(final(self)@)
                <= budget(old(self)@) && final(self)@.scopes == old(self)@.scopes,
        decreases measure(old(self)@), 0nat,
    {
        if let Err(e) = self.consume() {
            return Err(e);
        }
        let name = match self.expect_ident() {
            Ok(n) => n,
            Err(e) => return Err(e),
        };
        let fields = match self.parse_fields(Vec::new()) {
            Ok(f) => f,
            Err(e) => {
                proof {
                    assert(view_strings(Seq::<String>::empty()) =~= Seq::empty());
                }
                return Err(e);
            },
        };
        proof {
            assert(view_strings(Seq::<String>::empty()) =~= Seq::empty());
        }
        Ok(Expr::Shape(name, fields, false))
    }

    /// `N Shape count`
    #[verifier::spinoff_prover]
    fn parse_new(&mut self) -> (r: Result<Expr, CompileError>)
        requires
            old(self).wf(),
            old(self)@.cur is New,
        ensures
            extends(final(self).log(), old(self).log()),
            forall|l: Seq<Answer>|
                extends(l, final(self).log()) ==> #[trigger] p_new(old(self)@, l) == (res_view(r), final(self)@),
            r is Ok ==> final(self).wf() && measure(final(self)@) < measure(old(self)@) && budget(final(self)@)
                <= budget(old(self)@) && final(self)@.scopes == old(self)@.scopes,
        decreases measure(old(self)@), 0nat,
    {
        let ghost st = self@;
        if let Err(e) = self.consume() {
            return Err(e);
        }
        let name = match self.expect_ident() {
            Ok(n) => n,
            Err(e) => return Err(e),
        };
        let ghost st2 = self@;
        let resolved = self.resolve_shape_name(name);
        let ghost nv = resolved@;
        let c = match self.parse_expr() {
            Ok(c) => c,
            Err(e) => {
                proof {
                    assert forall|l: Seq<Answer>| extends(l, self.log()) implies #[trigger] p_new(st, l) == (Err::<ExprV, ErrorView>(e@), self@) by {
                        assert(p_expr(st2, l) == (Err::<ExprV, ErrorView>(e@), self@));
                    }
                }
                return Err(e);
            },
        };
        let ghost cv = c@;
        let e = Expr::New(resolved, Box::new(c));
        assert(e@ == ExprV::New(nv, Box::new(cv)));
        proof {
            assert forall|l: Seq<Answer>| extends(l, self.log()) implies #[trigger] p_new(st, l) == (Ok::<ExprV, ErrorView>(e@), self@) by {
                assert(p_expr(st2, l) == (Ok::<ExprV, ErrorView>(cv), self@));
            }
        }
        Ok(e)
    }

    /// `G instance field index`
    #[verifier::spinoff_prover]
    fn parse_get(&mut self) -> (r: Result<Expr, CompileError>)
        requires
            old(self).wf(),
            old(self)@.cur is Get,
        ensures
            extends(final(self).log(), old(self).log()),
            forall|l: Seq<Answer>|
                extends(l, final(self).log()) ==> #[trigger] p_get(old(self)@, l) == (res_view(r), final(self)@),
            r is Ok ==> final(self).wf() && measure(final(self)@) < measure(old(self)@) && budget(final(self)@)
                <= budget(old(self)@) && final(self)@.scopes == old(self)@.scopes,
        decreases measure(old(self)@), 0nat,
    {
        let ghost st = self@;
        if let Err(e) = self.consume() {
            return Err(e);
        }
        let ghost st1 = self@;
        let inst = match self.parse_expr() {
            Ok(i) => i,
            Err(e) => {
                proof {
                    assert forall|l: Seq<Answer>| extends(l, self.log()) implies #[trigger] p_get(st, l) == (Err::<ExprV, ErrorView>(e@), self@) by {
                        assert(p_expr(st1, l) == (Err::<ExprV, ErrorView>(e@), self@));
                    }
                }
                return Err(e);
            },
        };
        let ghost log2 = self.log();
        let ghost st2 = self@;
        let ghost iv = inst@;
        let field = match self.expect_ident() {
            Ok(f) => f,
            Err(e) => {
                proof {
                    assert forall|l: Seq<Answer>| extends(l, self.log()) implies #[trigger] p_get(st, l) == (Err::<ExprV, ErrorView>(e@), self@) by {
                        assert(p_expr(st1, l) == (Ok::<ExprV, ErrorView>(iv), st2));
                    }
                }
                return Err(e);
            },
        };
        let ghost st3 = self@;
        let ghost fv = field@;
        let idx = match self.parse_expr() {
            Ok(i) => i,
            Err(e) => {
                proof {
                    assert forall|l: Seq<Answer>| extends(l, self.log()) implies #[trigger] p_get(st, l) == (Err::<ExprV, ErrorView>(e@), self@) by {
                        lemma_extends_trans(l, self.log(), log2);
                        assert(p_expr(st1, l) == (Ok::<ExprV, ErrorView>(iv), st2));
                        assert(p_expr(st3, l) == (Err::<ExprV, ErrorView>(e@), self@));
                    }
                }
                return Err(e);
            },
        };
        let ghost xv = idx@;
        let e = Expr::Get(Box::new(inst), field, Box::new(idx));
        assert(e@ == ExprV::Get(Box::new(iv), fv, Box::new(xv)));
        proof {
            assert forall|l: Seq<Answer>| extends(l, self.log()) implies #[trigger] p_get(st, l) == (Ok::<ExprV, ErrorView>(e@), self@) by {
                lemma_extends_trans(l, self.log(), log2);
                assert(p_expr(st1, l) == (Ok::<ExprV, ErrorView>(iv), st2));
                assert(p_expr(st3, l) == (Ok::<ExprV, ErrorView>(xv), self@));
            }
        }
        Ok(e)
    }

    /// `S instance field index value`
    #[verifier::spinoff_prover]
    fn parse_set(&mut self) -> (r: Result<Expr, CompileError>)
        requires
            old(self).wf(),
            old(self)@.cur is SetField,
        ensures
            extends(final(self).log(), old(self).log()),
            forall|l: Seq<Answer>|
                extends(l, final(self).log()) ==> #[trigger] p_set(old(self)@, l) == (res_view(r), final(self)@),
            r is Ok ==> final(self).wf() && measure(final(self)@) < measure(old(self)@) && budget(final(self)@)
                <= budget(old(self)@) && final(self)@.scopes == old(self)@.scopes,
        decreases measure(old(self)@), 0nat,
    {
        let ghost st = self@;
        if let Err(e) = self.consume() {
            return Err(e);
        }
        let ghost st1 = self@;
        let inst = match self.parse_expr() {
            Ok(i) => i,
            Err(e) => {
                proof {
                    assert forall|l: Seq<Answer>| extends(l, self.log()) implies #[trigger] p_set(st, l) == (Err::<ExprV, ErrorView>(e@), self@) by {
                        assert(p_expr(st1, l) == (Err::<ExprV, ErrorView>(e@), self@));
                    }
                }
                return Err(e);
            },
        };
        let ghost log2 = self.log();
        let ghost st2 = self@;
        let ghost iv = inst@;
        let field = match self.expect_ident() {
            Ok(f) => f,
            Err(e) => {
                proof {
                    assert forall|l: Seq<Answer>| extends(l, self.log()) implies #[trigger] p_set(st, l) == (Err::<ExprV, ErrorView>(e@), self@) by {
                        assert(p_expr(st1, l) == (Ok::<ExprV, ErrorView>(iv), st2));
                    }
                }
                return Err(e);
            },
        };
        let ghost st3 = self@;
        let ghost fv = field@;
        let empty: Vec<Expr> = Vec::new();
        proof {
            assert(view_exprs(empty@) =~= Seq::<ExprV>::empty());
        }
        let a = match self.parse_exprs(2, empty) {
            Ok(a) => a,
            Err(e) => {
                proof {
                    assert forall|l: Seq<Answer>| extends(l, self.log()) implies #[trigger] p_set(st, l) == (Err::<ExprV, ErrorView>(e@), self@) by {
                        lemma_extends_trans(l, self.log(), log2);
                        assert(p_expr(st1, l) == (Ok::<ExprV, ErrorView>(iv), st2));
                        assert(p_exprs(st3, l, 2, Seq::empty()) == (Err::<Seq<ExprV>, ErrorView>(e@), self@));
                    }
                }
                return Err(e);
            },
        };
        let ghost av = view_exprs(a@);
        let mut a = a;
        let x = take_front(&mut a);
        let v = take_front(&mut a);
        let e = Expr::SetField(Box::new(inst), field, x, v);
        assert(e@ == ExprV::SetField(Box::new(iv), fv, Box::new(av[0]), Box::new(av[1])));
        proof {
            assert forall|l: Seq<Answer>| extends(l, self.log()) implies #[trigger] p_set(st, l) == (Ok::<ExprV, ErrorView>(e@), self@) by {
                lemma_extends_trans(l, self.log(), log2);
                assert(p_expr(st1, l) == (Ok::<ExprV, ErrorView>(iv), st2));
                assert(p_exprs(st3, l, 2, Seq::empty()) == (Ok::<Seq<ExprV>, ErrorView>(av), self@));
            }
        }
        Ok(e)
    }

    /// `` `name ``
    #[verifier::spinoff_prover]
    fn parse_expand(&mut self) -> (r: Result<Expr, CompileError>)
        requires
            old(self).wf(),
            old(self)@.cur is Bang,
        ensures
            final(self).log() == old(self).log(),
            (res_view(r), final(self)@) == p_expand(old(self)@),
            r is Ok ==> final(self).wf() && measure(final(self)@) < measure(old(self)@) && budget(final(self)@)
                <= budget(old(self)@) && final(self)@.scopes == old(self)@.scopes,
        decreases measure(old(self)@), 0nat,
    {
        if let Err(e) = self.consume() {
            return Err(e);
        }
        match self.expect_ident() {
            Ok(n) => Ok(Expr::Expand(n)),
            Err(e) => Err(e),
        }
    }

    /// `M tag value target`
    #[verifier::spinoff_prover]
    fn parse_meta(&mut self) -> (r: Result<Expr, CompileError>)
        requires
            old(self).wf(),
            old(self)@.cur is Metadata,
        ensures
            extends(final(self).log(), old(self).log()),
            forall|l: Seq<Answer>|
                extends(l, final(self).log()) ==> #[trigger] p_meta(old(self)@, l) == (res_view(r), final(self)@),
            r is Ok ==> final(self).wf() && measure(final(self)@) < measure(old(self)@) && budget(final(self)@)
                <= budget(old(self)@) && final(self)@.scopes == old(self)@.scopes,
        decreases measure(old(self)@), 0nat,
    {
        let ghost st = self@;
        if let Err(e) = self.consume() {
            return Err(e);
        }
        let ghost st1 = self@;
        let empty: Vec<Expr> = Vec::new();
        proof {
            assert(view_exprs(empty@) =~= Seq::<ExprV>::empty());
        }
        let a = match self.parse_exprs(3, empty) {
            Ok(a) => a,
            Err(e) => {
                proof {
                    assert forall|l: Seq<Answer>| extends(l, self.log()) implies #[trigger] p_meta(st, l) == (Err::<ExprV, ErrorView>(e@), self@) by {
                        assert(p_exprs(st1, l, 3, Seq::empty()) == (Err::<Seq<ExprV>, ErrorView>(e@), self@));
                    }
                }
                return Err(e);
            },
        };
        let ghost av = view_exprs(a@);
        let mut a = a;
        let tag = take_front(&mut a);
        let val = take_front(&mut a);
        let target = take_front(&mut a);
        let is_test = match &*tag {
            Expr::String(s) => str_eq(s.as_str(), "test"),
            _ => false,
        };
        if is_test && !wraps_definition(&target) {
            let e = self.error("E019");
            proof {
                assert forall|l: Seq<Answer>| extends(l, self.log()) implies #[trigger] p_meta(st, l) == (Err::<ExprV, ErrorView>(e@), self@) by {
                    assert(p_exprs(st1, l, 3, Seq::empty()) == (Ok::<Seq<ExprV>, ErrorView>(av), self@));
                }
            }
            return Err(e);
        }
        let e = Expr::Metadata(tag, val, target);
        assert(e@ == ExprV::Metadata(Box::new(av[0]), Box::new(av[1]), Box::new(av[2])));
        proof {
            assert forall|l: Seq<Answer>| extends(l, self.log()) implies #[trigger] p_meta(st, l) == (Ok::<ExprV, ErrorView>(e@), self@) by {
                assert(p_exprs(st1, l, 3, Seq::empty()) == (Ok::<Seq<ExprV>, ErrorView>(av), self@));
            }
        }
        Ok(e)
    }

    /// `X definition-or-shape`
    #[verifier::spinoff_prover]
    fn parse_export(&mut self) -> (r: Result<Expr, CompileError>)
        requires
            old(self).wf(),
            old(self)@.cur is Export,
        ensures
            extends(final(self).log(), old(self).log()),
            forall|l: Seq<Answer>|
                extends(l, final(self).log()) ==> #[trigger] p_export(old(self)@, l) == (res_view(r), final(self)@),
            r is Ok ==> final(self).wf() && measure(final(self)@) < measure(old(self)@) && budget(final(self)@)
                <= budget(old(self)@) && final(self)@.scopes == old(self)@.scopes,
        decreases measure(old(self)@), 0nat,
    {
        let ghost st = self@;
        if let Err(e) = self.consume() {
            return Err(e);
        }
        let ghost st1 = self@;
        let inner = match self.parse_expr() {
            Ok(i) => i,
            Err(e) => {
                proof {
                    assert forall|l: Seq<Answer>| extends(l, self.log()) implies #[trigger] p_export(st, l) == (Err::<ExprV, ErrorView>(e@), self@) by {
                        assert(p_expr(st1, l) == (Err::<ExprV, ErrorView>(e@), self@));
                    }
                }
                return Err(e);
            },
        };
        let ghost iv = inner@;
        let r = match inner {
            Expr::Define(n, p, b, _) => {
                let ghost (nv, pv, bv) = (n@, view_params(p@), (*b)@);
                let e = Expr::Define(n, p, b, true);
                assert(e@ == ExprV::Define(nv, pv, Box::new(bv), true));
                Ok(e)
            },
            Expr::Shape(n, f, _) => Ok(Expr::Shape(n, f, true)),
            _ => Err(self.error("E015")),
        };
        proof {
            assert forall|l: Seq<Answer>| extends(l, self.log()) implies #[trigger] p_export(st, l) == (res_view(r), self@) by {
                assert(p_expr(st1, l) == (Ok::<ExprV, ErrorView>(iv), self@));
            }
        }
        r
    }

    /// The `%` forms.
    #[verifier::spinoff_prover]
    fn parse_money(&mut self) -> (r: Result<Expr, CompileError>)
        requires
            old(self).wf(),
            old(self)@.cur is Money,
        ensures
            extends(final(self).log(), old(self).log()),
            forall|l: Seq<Answer>|
                extends(l, final(self).log()) ==> #[trigger] p_money(old(self)@, l) == (res_view(r), final(self)@),
            r is Ok ==> final(self).wf() && measure(final(self)@) < measure(old(self)@) && budget(final(self)@)
                <= budget(old(self)@) && final(self)@.scopes == old(self)@.scopes,
        decreases measure(old(self)@), 0nat,
    {
        let ghost st = self@;
        if let Err(e) = self.consume() {
            return Err(e);
        }
        let ghost st1 = self@;
        match self.current_token {
            Token::Str => {
                if let Err(e) = self.consume() {
                    return Err(e);
                }
                let ghost st2 = self@;
                match self.parse_expr() {
                    Ok(x) => {
                        let ghost xv = x@;
                        let e = Expr::MoneyStr(Box::new(x));
                        assert(e@ == ExprV::MoneyStr(Box::new(xv)));
                        proof {
                            assert forall|l: Seq<Answer>| extends(l, self.log()) implies #[trigger] p_money(st, l) == (Ok::<ExprV, ErrorView>(e@), self@) by {
                                assert(p_expr(st2, l) == (Ok::<ExprV, ErrorView>(xv), self@));
                            }
                        }
                        Ok(e)
                    },
                    Err(e) => {
                        proof {
                            assert forall|l: Seq<Answer>| extends(l, self.log()) implies #[trigger] p_money(st, l) == (Err::<ExprV, ErrorView>(e@), self@) by {
                                assert(p_expr(st2, l) == (Err::<ExprV, ErrorView>(e@), self@));
                            }
                        }
                        Err(e)
                    },
                }
            },
            Token::Add | Token::Sub | Token::Mul | Token::Div => {
                let op = match self.consume() {
                    Ok(op) => op,
                    Err(e) => return Err(e),
                };
                let ghost st2 = self@;
                let empty: Vec<Expr> = Vec::new();
                proof {
                    assert(view_exprs(empty@) =~= Seq::<ExprV>::empty());
                }
                let a = match self.parse_exprs(2, empty) {
                    Ok(a) => a,
                    Err(e) => {
                        proof {
                                assert forall|l: Seq<Answer>| extends(l, self.log()) implies #[trigger] p_money(st, l) == (Err::<ExprV, ErrorView>(e@), self@) by {
                                    assert(p_exprs(st2, l, 2, Seq::empty()) == (Err::<Seq<ExprV>, ErrorView>(e@), self@));
                                }
                            }
                        return Err(e);
                    },
                };
                let ghost av = view_exprs(a@);
                let mut a = a;
                let x = take_front(&mut a);
                let y = take_front(&mut a);
                let e = Expr::MoneyOp(op, x, y);
                assert(e@ == ExprV::MoneyOp(st1.cur, Box::new(av[0]), Box::new(av[1])));
                proof {
                    assert forall|l: Seq<Answer>| extends(l, self.log()) implies #[trigger] p_money(st, l) == (Ok::<ExprV, ErrorView>(e@), self@) by {
                        assert(p_exprs(st2, l, 2, Seq::empty()) == (Ok::<Seq<ExprV>, ErrorView>(av), self@));
                    }
                }
                Ok(e)
            },
            Token::Integer(i) => {
                let v = i * 10000;
                match self.consume() {
                    Ok(_) => Ok(Expr::Integer(v)),
                    Err(e) => Err(e),
                }
            },
            Token::Float(_) => {
                let v = match &self.current_token {
                    Token::Float(f) => money_of_float(f),
                    _ => 0,
                };
                match self.consume() {
                    Ok(_) => Ok(Expr::Integer(v)),
                    Err(e) => Err(e),
                }
            },
            _ => Err(self.error("E002")),
        }
    }

    /// `I module symbol`
    #[verifier::spinoff_prover]
    fn parse_import(&mut self) -> (r: Result<Expr, CompileError>)
        requires
            old(self).wf(),
            old(self)@.cur is Import,
        ensures
            extends(final(self).log(), old(self).log()),
            forall|l: Seq<Answer>|
                extends(l, final(self).log()) ==> #[trigger] p_import(old(self)@, l) == (res_view(r), final(self)@),
            r is Ok ==> final(self).wf() && measure(final(self)@) < measure(old(self)@) && budget(final(self)@)
                <= budget(old(self)@) && final(self)@.scopes == old(self)@.scopes,
        decreases measure(old(self)@), 0nat,
    {
        let ghost st = self@;
        if let Err(e) = self.consume() {
            return Err(e);
        }
        let ghost st1 = self@;
        let module = match self.module_name() {
            Ok(m) => m,
            Err(e) => return Err(e),
        };
        let ghost st2 = self@;
        let ghost mv = module@;
        let symbol = match self.expect_ident() {
            Ok(s) => s,
            Err(e) => return Err(e),
        };
        let ghost st3 = self@;
        let ghost sv = symbol@;
        let answer = self.ask(&module);
        let ghost st4 = self@;
        proof {
            assert(st4 == (PState { nresp: st3.nresp + 1, ..st3 }));
        }
        let text = match answer {
            Ok(t) => t,
            Err(code) => {
                let e = self.error(code.as_str());
                proof {
                    assert forall|l: Seq<Answer>| extends(l, self.log()) implies #[trigger] p_import(st, l) == (Err::<ExprV, ErrorView>(e@), self@) by {
                        assert(reply_to(l, st3.nresp, mv, st3.paths, st3.filename) == reply_view(answer)) by { assert(l[st3.nresp as int] == self.log()[st3.nresp as int]); }
                        assert(p_module_name(st1) == (Ok::<Seq<char>, ErrorView>(mv), st2));
                        assert(p_ident(st2) == (Ok::<Seq<char>, ErrorView>(sv), st3));
                    }
                }
                return Err(e);
            },
        };
        let ghost sig = sig_of(text@);
        let (funcs, shapes) = parse_signature(text.as_str());
        match lookup_fields(&shapes, symbol.as_str()) {
            Some(fields) => {
                let ghost iv = self.imported_shapes@;
                self.imported_shapes.push((copy_string(&symbol), copy_string(&module)));
                proof {
                    assert(view_imported(self.imported_shapes@) =~= view_imported(iv).push((symbol@, module@)));
                    assert(self@ == (PState { imported: st4.imported.push((sv, mv)), ..st4 }));
                }
                let mut mangled = module;
                push_char(&mut mangled, '_');
                push_str(&mut mangled, symbol.as_str());
                let ghost fv = view_strings(fields@);
                assert(mangled@ =~= mv + seq!['_'] + sv);
                assert(find_shape(sig.shapes, sv) == Some(fv));
                let e = Expr::Shape(mangled, fields, false);
                assert(e@ == ExprV::Shape(mv + seq!['_'] + sv, fv, false));
                proof {
                    assert forall|l: Seq<Answer>| extends(l, self.log()) implies #[trigger] p_import(st, l) == (Ok::<ExprV, ErrorView>(e@), self@) by {
                        assert(reply_to(l, st3.nresp, mv, st3.paths, st3.filename) == reply_view(answer)) by { assert(l[st3.nresp as int] == self.log()[st3.nresp as int]); }
                        assert(p_module_name(st1) == (Ok::<Seq<char>, ErrorView>(mv), st2));
                        assert(p_ident(st2) == (Ok::<Seq<char>, ErrorView>(sv), st3));
                    }
                }
                Ok(e)
            },
            None => {
                assert(find_shape(sig.shapes, sv) is None);
                match lookup_number(&funcs, symbol.as_str()) {
                    Some(arity) => {
                        let e = Expr::Import(module, symbol, arity);
                        assert(e@ == ExprV::Import(mv, sv, arity));
                        proof {
                            assert forall|l: Seq<Answer>| extends(l, self.log()) implies #[trigger] p_import(st, l) == (Ok::<ExprV, ErrorView>(e@), self@) by {
                                assert(reply_to(l, st3.nresp, mv, st3.paths, st3.filename) == reply_view(answer)) by { assert(l[st3.nresp as int] == self.log()[st3.nresp as int]); }
                                assert(p_module_name(st1) == (Ok::<Seq<char>, ErrorView>(mv), st2));
                                assert(p_ident(st2) == (Ok::<Seq<char>, ErrorView>(sv), st3));
                            }
                        }
                        Ok(e)
                    },
                    None => {
                        let e = self.error("E018");
                        proof {
                            assert forall|l: Seq<Answer>| extends(l, self.log()) implies #[trigger] p_import(st, l) == (Err::<ExprV, ErrorView>(e@), self@) by {
                                assert(reply_to(l, st3.nresp, mv, st3.paths, st3.filename) == reply_view(answer)) by { assert(l[st3.nresp as int] == self.log()[st3.nresp as int]); }
                                assert(p_module_name(st1) == (Ok::<Seq<char>, ErrorView>(mv), st2));
                                assert(p_ident(st2) == (Ok::<Seq<char>, ErrorView>(sv), st3));
                            }
                        }
                        Err(e)
                    },
                }
            },
        }
    }

    /// Asks the resolver for the signature of `module`, handing it the import
    /// paths and the file name, and records the question and the reply.
    fn ask(&mut self, module: &String) -> (r: Result<String, String>)
        ensures
            final(self).log() == old(self).log().push(
                Answer {
                    module: module@,
                    paths: view_strings(old(self).import_paths@),
                    filename: old(self).filename@,
                    reply: reply_view(r),
                },
            ),
            final(self).lexer == old(self).lexer,
            final(self).current_token == old(self).current_token,
            final(self).filename == old(self).filename,
            final(self).scopes == old(self).scopes,
            final(self).import_paths == old(self).import_paths,
            final(self).imported_shapes == old(self).imported_shapes,
            final(self).generated_funcs == old(self).generated_funcs,
    {
        let r = self.resolver.resolve(module.as_str(), self.import_paths.as_slice(), self.filename.as_str());
        self.answers = Ghost(
            self.answers@.push(
                Answer {
                    module: module@,
                    paths: view_strings(self.import_paths@),
                    filename: self.filename@,
                    reply: reply_view(r),
                },
            ),
        );
        r
    }

    /// `@n f a1 .. an`
    #[verifier::spinoff_prover]
    fn parse_apply(&mut self, n: usize) -> (r: Result<Expr, CompileError>)
        requires
            old(self).wf(),
            old(self)@.cur == TokenV::Apply(n),
        ensures
            extends(final(self).log(), old(self).log()),
            forall|l: Seq<Answer>|
                extends(l, final(self).log()) ==> #[trigger] p_apply(old(self)@, l, n as nat) == (res_view(r), final(self)@),
            r is Ok ==> final(self).wf() && measure(final(self)@) < measure(old(self)@) && budget(final(self)@)
                <= budget(old(self)@) && final(self)@.scopes == old(self)@.scopes,
        decreases measure(old(self)@), 0nat,
    {
        let ghost st = self@;
        if let Err(e) = self.consume() {
            return Err(e);
        }
        let ghost st1 = self@;
        let f = match self.parse_expr() {
            Ok(f) => f,
            Err(e) => {
                proof {
                    assert forall|l: Seq<Answer>| extends(l, self.log()) implies #[trigger] p_apply(st, l, n as nat) == (Err::<ExprV, ErrorView>(e@), self@) by {
                        assert(p_expr(st1, l) == (Err::<ExprV, ErrorView>(e@), self@));
                    }
                }
                return Err(e);
            },
        };
        let ghost log2 = self.log();
        let ghost st2 = self@;
        let ghost fv = f@;
        let empty: Vec<Expr> = Vec::new();
        proof {
            assert(view_exprs(empty@) =~= Seq::<ExprV>::empty());
        }
        let args = match self.parse_exprs(n, empty) {
            Ok(a) => a,
            Err(e) => {
                proof {
                    assert forall|l: Seq<Answer>| extends(l, self.log()) implies #[trigger] p_apply(st, l, n as nat) == (Err::<ExprV, ErrorView>(e@), self@) by {
                        lemma_extends_trans(l, self.log(), log2);
                        assert(p_expr(st1, l) == (Ok::<ExprV, ErrorView>(fv), st2));
                        assert(p_exprs(st2, l, n as nat, Seq::empty()) == (Err::<Seq<ExprV>, ErrorView>(e@), self@));
                    }
                }
                return Err(e);
            },
        };
        let ghost av = view_exprs(args@);
        let e = Expr::Apply(Box::new(f), args);
        assert(e@ == ExprV::Apply(Box::new(fv), av));
        proof {
            assert forall|l: Seq<Answer>| extends(l, self.log()) implies #[trigger] p_apply(st, l, n as nat) == (Ok::<ExprV, ErrorView>(e@), self@) by {
                lemma_extends_trans(l, self.log(), log2);
                assert(p_expr(st1, l) == (Ok::<ExprV, ErrorView>(fv), st2));
                assert(p_exprs(st2, l, n as nat, Seq::empty()) == (Ok::<Seq<ExprV>, ErrorView>(av), self@));
            }
        }
        Ok(e)
    }

    /// `jp e` and `ju e "Shape"`
    #[verifier::spinoff_prover]
    fn parse_pack(&mut self, n: usize) -> (r: Result<Expr, CompileError>)
        requires
            old(self).wf(),
            old(self)@.cur == TokenV::Pack(n),
        ensures
            extends(final(self).log(), old(self).log()),
            forall|l: Seq<Answer>|
                extends(l, final(self).log()) ==> #[trigger] p_pack(old(self)@, l, n) == (res_view(r), final(self)@),
            r is Ok ==> final(self).wf() && measure(final(self)@) < measure(old(self)@) && budget(final(self)@)
                <= budget(old(self)@) && final(self)@.scopes == old(self)@.scopes,
        decreases measure(old(self)@), 0nat,
    {
        let ghost st = self@;
        if let Err(e) = self.consume() {
            return Err(e);
        }
        let ghost st1 = self@;
        let x = match self.parse_expr() {
            Ok(x) => x,
            Err(e) => {
                proof {
                    assert forall|l: Seq<Answer>| extends(l, self.log()) implies #[trigger] p_pack(st, l, n) == (Err::<ExprV, ErrorView>(e@), self@) by {
                        assert(p_expr(st1, l) == (Err::<ExprV, ErrorView>(e@), self@));
                    }
                }
                return Err(e);
            },
        };
        let ghost st2 = self@;
        let ghost xv = x@;
        if n == 1 {
            let e = Expr::Pack(Box::new(x));
            assert(e@ == ExprV::Pack(Box::new(xv)));
            proof {
                assert forall|l: Seq<Answer>| extends(l, self.log()) implies #[trigger] p_pack(st, l, n) == (Ok::<ExprV, ErrorView>(e@), self@) by {
                    assert(p_expr(st1, l) == (Ok::<ExprV, ErrorView>(xv), st2));
                }
            }
            return Ok(e);
        }
        let name = match self.expect_string() {
            Ok(s) => s,
            Err(e) => {
                proof {
                    assert forall|l: Seq<Answer>| extends(l, self.log()) implies #[trigger] p_pack(st, l, n) == (Err::<ExprV, ErrorView>(e@), self@) by {
                        assert(p_expr(st1, l) == (Ok::<ExprV, ErrorView>(xv), st2));
                    }
                }
                return Err(e);
            },
        };
        let resolved = self.resolve_shape_name(name);
        let e = Expr::Unpack(Box::new(x), resolved);
        assert(e@ == ExprV::Unpack(Box::new(xv), resolved@));
        proof {
            assert forall|l: Seq<Answer>| extends(l, self.log()) implies #[trigger] p_pack(st, l, n) == (Ok::<ExprV, ErrorView>(e@), self@) by {
                assert(p_expr(st1, l) == (Ok::<ExprV, ErrorView>(xv), st2));
            }
        }
        Ok(e)
    }

    /// `map instance "field" function`
    #[verifier::spinoff_prover]
    fn parse_map(&mut self) -> (r: Result<Expr, CompileError>)
        requires
            old(self).wf(),
            old(self)@.cur is MapField,
        ensures
            extends(final(self).log(), old(self).log()),
            forall|l: Seq<Answer>|
                extends(l, final(self).log()) ==> #[trigger] p_map(old(self)@, l) == (res_view(r), final(self)@),
            r is Ok ==> final(self).wf() && measure(final(self)@) < measure(old(self)@) && budget(final(self)@)
                <= budget(old(self)@) && final(self)@.scopes == old(self)@.scopes,
        decreases measure(old(self)@), 0nat,
    {
        let ghost st = self@;
        if let Err(e) = self.consume() {
            return Err(e);
        }
        let ghost st1 = self@;
        let inst = match self.parse_expr() {
            Ok(i) => i,
            Err(e) => {
                proof {
                    assert forall|l: Seq<Answer>| extends(l, self.log()) implies #[trigger] p_map(st, l) == (Err::<ExprV, ErrorView>(e@), self@) by {
                        assert(p_expr(st1, l) == (Err::<ExprV, ErrorView>(e@), self@));
                    }
                }
                return Err(e);
            },
        };
        let ghost log2 = self.log();
        let ghost st2 = self@;
        let ghost instv = inst@;
        let field = match self.expect_string() {
            Ok(f) => f,
            Err(e) => {
                proof {
                    assert forall|l: Seq<Answer>| extends(l, self.log()) implies #[trigger] p_map(st, l) == (Err::<ExprV, ErrorView>(e@), self@) by {
                        assert(p_expr(st1, l) == (Ok::<ExprV, ErrorView>(instv), st2));
                    }
                }
                return Err(e);
            },
        };
        let ghost st3 = self@;
        let ghost fv = field@;
        let g = match self.parse_expr() {
            Ok(g) => g,
            Err(e) => {
                proof {
                    assert forall|l: Seq<Answer>| extends(l, self.log()) implies #[trigger] p_map(st, l) == (Err::<ExprV, ErrorView>(e@), self@) by {
                        lemma_extends_trans(l, self.log(), log2);
                        assert(p_expr(st1, l) == (Ok::<ExprV, ErrorView>(instv), st2));
                        assert(p_expr(st3, l) == (Err::<ExprV, ErrorView>(e@), self@));
                    }
                }
                return Err(e);
            },
        };
        let ghost gv = g@;
        let e = Expr::MapField(Box::new(inst), field, Box::new(g));
        assert(e@ == ExprV::MapField(Box::new(instv), fv, Box::new(gv)));
        proof {
            assert forall|l: Seq<Answer>| extends(l, self.log()) implies #[trigger] p_map(st, l) == (Ok::<ExprV, ErrorView>(e@), self@) by {
                lemma_extends_trans(l, self.log(), log2);
                assert(p_expr(st1, l) == (Ok::<ExprV, ErrorView>(instv), st2));
                assert(p_expr(st3, l) == (Ok::<ExprV, ErrorView>(gv), self@));
            }
        }
        Ok(e)
    }

    /// `tn`, `tn + a b`, `tn - a b`
    #[verifier::spinoff_prover]
    fn parse_time_now(&mut self) -> (r: Result<Expr, CompileError>)
        requires
            old(self).wf(),
            old(self)@.cur is TimeNow,
        ensures
            extends(final(self).log(), old(self).log()),
            forall|l: Seq<Answer>|
                extends(l, final(self).log()) ==> #[trigger] p_time_now(old(self)@, l) == (res_view(r), final(self)@),
            r is Ok ==> final(self).wf() && measure(final(self)@) < measure(old(self)@) && budget(final(self)@)
                <= budget(old(self)@) && final(self)@.scopes == old(self)@.scopes,
        decreases measure(old(self)@), 0nat,
    {
        let ghost st = self@;
        if let Err(e) = self.consume() {
            return Err(e);
        }
        let ghost st1 = self@;
        match self.current_token {
            Token::Add | Token::Sub => {
                let op = match self.consume() {
                    Ok(op) => op,
                    Err(e) => return Err(e),
                };
                let ghost st2 = self@;
                let empty: Vec<Expr> = Vec::new();
                proof {
                    assert(view_exprs(empty@) =~= Seq::<ExprV>::empty());
                }
                let a = match self.parse_exprs(2, empty) {
                    Ok(a) => a,
                    Err(e) => {
                        proof {
                            assert forall|l: Seq<Answer>| extends(l, self.log()) implies #[trigger] p_time_now(st, l) == (Err::<ExprV, ErrorView>(e@), self@) by {
                                assert(p_exprs(st2, l, 2, Seq::empty()) == (Err::<Seq<ExprV>, ErrorView>(e@), self@));
                            }
                        }
                        return Err(e);
                    },
                };
                let ghost av = view_exprs(a@);
                let mut a = a;
                let x = take_front(&mut a);
                let y = take_front(&mut a);
                let e = Expr::TimeOp(op, x, y);
                assert(e@ == ExprV::TimeOp(st1.cur, Box::new(av[0]), Box::new(av[1])));
                proof {
                    assert forall|l: Seq<Answer>| extends(l, self.log()) implies #[trigger] p_time_now(st, l) == (Ok::<ExprV, ErrorView>(e@), self@) by {
                        assert(p_exprs(st2, l, 2, Seq::empty()) == (Ok::<Seq<ExprV>, ErrorView>(av), self@));
                    }
                }
                Ok(e)
            },
            _ => Ok(Expr::TimeNow),
        }
    }

    /// `k` routes, appended to `acc`.
    #[verifier::spinoff_prover]
    fn parse_routes(&mut self, k: u64, acc: Vec<(Expr, Expr, Expr)>) -> (r: Result<Vec<(Expr, Expr, Expr)>, CompileError>)
        requires
            old(self).wf(),
        ensures
            extends(final(self).log(), old(self).log()),
            forall|l: Seq<Answer>|
                extends(l, final(self).log()) ==> #[trigger] p_routes(old(self)@, l, k as nat, view_routes(acc@)) == (
                routes_view(r),
                final(self)@,
            ),
            r is Ok ==> final(self).wf() && measure(final(self)@) <= measure(old(self)@) && budget(final(self)@)
                <= budget(old(self)@) && final(self)@.scopes == old(self)@.scopes,
        decreases measure(old(self)@), 3nat,
    {
        if k == 0 {
            return Ok(acc);
        }
        let ghost st = self@;
        proof {
            assert(view_exprs(Seq::<Expr>::empty()) =~= Seq::<ExprV>::empty());
        }
        let empty: Vec<Expr> = Vec::new();
        proof {
            assert(view_exprs(empty@) =~= Seq::<ExprV>::empty());
        }
        match self.parse_exprs(3, empty) {
            Err(e) => {
                proof {
                    assert forall|l: Seq<Answer>| extends(l, self.log()) implies #[trigger] p_routes(st, l, k as nat, view_routes(acc@)) == (Err::<Seq<(ExprV, ExprV, ExprV)>, ErrorView>(e@), self@) by {
                        assert(p_exprs(st, l, 3, Seq::empty()) == (Err::<Seq<ExprV>, ErrorView>(e@), self@));
                    }
                }
                Err(e)
            },
            Ok(a) => {
                let ghost log1 = self.log();
                let ghost av = view_exprs(a@);
                let mut a = a;
                let m = take_front(&mut a);
                let p = take_front(&mut a);
                let h = take_front(&mut a);
                let mut acc = acc;
                let ghost rv = acc@;
                let route = (*m, *p, *h);
                acc.push(route);
                proof {
                    assert(view_routes(acc@) =~= view_routes(rv).push((av[0], av[1], av[2])));
                }
                let ghost st1 = self@;
                let ghost accv = view_routes(acc@);
                let r = self.parse_routes(k - 1, acc);
                proof {
                    assert forall|l: Seq<Answer>| extends(l, self.log()) implies #[trigger] p_routes(st, l, k as nat, view_routes(rv)) == (routes_view(r), self@) by {
                        lemma_extends_trans(l, self.log(), log1);
                        assert(p_exprs(st, l, 3, Seq::empty()) == (Ok::<Seq<ExprV>, ErrorView>(av), st1));
                        assert(p_routes(st1, l, (k - 1) as nat, accv) == (routes_view(r), self@));
                    }
                }
                r
            },
        }
    }

    /// `rt port n (method path handler)*n fallback`
    #[verifier::spinoff_prover]
    fn parse_router(&mut self) -> (r: Result<Expr, CompileError>)
        requires
            old(self).wf(),
            old(self)@.cur is Router,
        ensures
            extends(final(self).log(), old(self).log()),
            forall|l: Seq<Answer>|
                extends(l, final(self).log()) ==> #[trigger] p_router(old(self)@, l) == (res_view(r), final(self)@),
            r is Ok ==> final(self).wf() && measure(final(self)@) < measure(old(self)@) && budget(final(self)@)
                <= budget(old(self)@) && final(self)@.scopes == old(self)@.scopes,
        decreases measure(old(self)@), 0nat,
    {
        let ghost st = self@;
        if let Err(e) = self.consume() {
            return Err(e);
        }
        let ghost st1 = self@;
        let port = match self.parse_expr() {
            Ok(p) => p,
            Err(e) => {
                proof {
                    assert forall|l: Seq<Answer>| extends(l, self.log()) implies #[trigger] p_router(st, l) == (Err::<ExprV, ErrorView>(e@), self@) by {
                        assert(p_expr(st1, l) == (Err::<ExprV, ErrorView>(e@), self@));
                    }
                }
                return Err(e);
            },
        };
        let ghost log2 = self.log();
        let ghost st2 = self@;
        let ghost portv = port@;
        let rn = self.consume();
        let n = match rn {
            Ok(Token::Integer(n)) => n,
            Ok(_) => {
                let e = self.error("E001");
                proof {
                    assert forall|l: Seq<Answer>| extends(l, self.log()) implies #[trigger] p_router(st, l) == (Err::<ExprV, ErrorView>(e@), self@) by {
                        assert(p_expr(st1, l) == (Ok::<ExprV, ErrorView>(portv), st2));
                    }
                }
                return Err(e);
            },
            Err(e) => {
                proof {
                    assert forall|l: Seq<Answer>| extends(l, self.log()) implies #[trigger] p_router(st, l) == (Err::<ExprV, ErrorView>(e@), self@) by {
                        assert(p_expr(st1, l) == (Ok::<ExprV, ErrorView>(portv), st2));
                    }
                }
                return Err(e);
            },
        };
        let ghost st3 = self@;
        let k: u64 = if n > 0 {
            n as u64
        } else {
            0
        };
        let ghost kn: nat = if n > 0 { n as nat } else { 0nat };
        assert(k as nat == kn);
        let empty: Vec<(Expr, Expr, Expr)> = Vec::new();
        proof {
            assert(view_routes(empty@) =~= Seq::empty());
        }
        let routes = match self.parse_routes(k, empty) {
            Ok(r) => r,
            Err(e) => {
                proof {
                    assert forall|l: Seq<Answer>| extends(l, self.log()) implies #[trigger] p_router(st, l) == (Err::<ExprV, ErrorView>(e@), self@) by {
                        lemma_extends_trans(l, self.log(), log2);
                        assert(p_expr(st1, l) == (Ok::<ExprV, ErrorView>(portv), st2));
                        assert(p_routes(st3, l, kn, Seq::empty()) == (Err::<Seq<(ExprV, ExprV, ExprV)>, ErrorView>(e@), self@));
                    }
                }
                return Err(e);
            },
        };
        let ghost log4 = self.log();
        let ghost st4 = self@;
        let ghost routesv = view_routes(routes@);
        let fallback = match self.parse_expr() {
            Ok(f) => f,
            Err(e) => {
                proof {
                    assert forall|l: Seq<Answer>| extends(l, self.log()) implies #[trigger] p_router(st, l) == (Err::<ExprV, ErrorView>(e@), self@) by {
                        lemma_extends_trans(l, self.log(), log4);
                        lemma_extends_trans(l, log4, log2);
                        assert(p_expr(st1, l) == (Ok::<ExprV, ErrorView>(portv), st2));
                        assert(p_routes(st3, l, kn, Seq::empty()) == (Ok::<Seq<(ExprV, ExprV, ExprV)>, ErrorView>(routesv), st4));
                        assert(p_expr(st4, l) == (Err::<ExprV, ErrorView>(e@), self@));
                    }
                }
                return Err(e);
            },
        };
        let ghost st5 = self@;
        let ghost fbv = fallback@;
        proof {
            lemma_view_exprs(self.generated_funcs@);
            assert(self@.generated.len() <= budget(self@));
        }
        let idx = self.generated_funcs.len() + 1;
        let ghost gv = self.generated_funcs@;
        let ghost expansion = router_expansion(portv, routesv, fbv, idx as nat);
        match expand_router(port, routes, fallback, idx) {
            None => {
                let e = self.error("E001");
                proof {
                    assert forall|l: Seq<Answer>| extends(l, self.log()) implies #[trigger] p_router(st, l) == (Err::<ExprV, ErrorView>(e@), self@) by {
                        lemma_extends_trans(l, self.log(), log4);
                        lemma_extends_trans(l, log4, log2);
                        assert(p_expr(st1, l) == (Ok::<ExprV, ErrorView>(portv), st2));
                        assert(p_routes(st3, l, kn, Seq::empty()) == (Ok::<Seq<(ExprV, ExprV, ExprV)>, ErrorView>(routesv), st4));
                        assert(p_expr(st4, l) == (Ok::<ExprV, ErrorView>(fbv), st5));
                    }
                }
                Err(e)
            },
            Some((entry, def)) => {
                let ghost dv = def@;
                self.generated_funcs.push(def);
                proof {
                    lemma_view_exprs_push(gv, def);
                    assert(self@ == (PState { generated: st5.generated.push(dv), ..st5 }));
                    assert forall|l: Seq<Answer>| extends(l, self.log()) implies #[trigger] p_router(st, l) == (Ok::<ExprV, ErrorView>(entry@), self@) by {
                        lemma_extends_trans(l, self.log(), log4);
                        lemma_extends_trans(l, log4, log2);
                        assert(p_expr(st1, l) == (Ok::<ExprV, ErrorView>(portv), st2));
                        assert(p_routes(st3, l, kn, Seq::empty()) == (Ok::<Seq<(ExprV, ExprV, ExprV)>, ErrorView>(routesv), st4));
                        assert(p_expr(st4, l) == (Ok::<ExprV, ErrorView>(fbv), st5));
                    }
                }
                Ok(entry)
            },
        }
    }

    /// All expressions up to the end of input; the functions that router
    /// forms generate come before the expression that generated them.
    #[verifier::spinoff_prover]
    pub fn parse_module(&mut self) -> (r: Result<Vec<Expr>, CompileError>)
        requires
            old(self).wf(),
        ensures
            extends(final(self).log(), old(self).log()),
            forall|l: Seq<Answer>|
                extends(l, final(self).log()) ==> #[trigger] p_module(old(self)@, l, Seq::empty()) == (
                exprs_view(r),
                final(self)@,
            ),
            r is Ok ==> final(self).wf(),
    {
        let ghost st0 = self@;
        let ghost log0 = self.log();
        let mut out: Vec<Expr> = Vec::new();
        let mut failure: Option<CompileError> = None;
        proof {
            assert(view_exprs(out@) =~= Seq::<ExprV>::empty());
        }
        while failure.is_none() && !self.at_end()
            invariant
                extends(self.log(), log0),
                failure is None ==> self.wf(),
                failure is None ==> forall|l: Seq<Answer>|
                    extends(l, self.log()) ==> #[trigger] p_module(st0, l, Seq::empty()) == p_module(self@, l, view_exprs(out@)),
                failure matches Some(e) ==> forall|l: Seq<Answer>|
                    extends(l, self.log()) ==> #[trigger] p_module(st0, l, Seq::empty()) == (Err::<Seq<ExprV>, ErrorView>(e@), self@),
            decreases (if failure is None { measure(self@) + 1 } else { 0 }),
        {
            let ghost st = self@;
            let ghost logs = self.log();
            let ghost ov = view_exprs(out@);
            match self.parse_expr() {
                Err(e) => {
                    proof {
                        assert forall|l: Seq<Answer>| extends(l, self.log()) implies #[trigger] p_module(st0, l, Seq::empty()) == (Err::<Seq<ExprV>, ErrorView>(e@), self@) by {
                            lemma_extends_trans(l, self.log(), logs);
                        }
                    }
                    failure = Some(e);
                },
                Ok(e) => {
                    let ghost st1 = self@;
                    let ghost ev = e@;
                    let mut generated = Vec::new();
                    std::mem::swap(&mut generated, &mut self.generated_funcs);
                    let ghost gv = generated@;
                    let ghost oldout = out@;
                    out.append(&mut generated);
                    let ghost ov2 = out@;
                    let ghost e0 = e;
                    out.push(e);
                    proof {
                        assert(ov2 == oldout + gv);
                        lemma_view_exprs_concat(oldout, gv);
                        lemma_view_exprs_push(ov2, e0);
                        assert(st1.generated == view_exprs(gv));
                        assert(view_exprs(out@) =~= ov + st1.generated + seq![ev]);
                        assert(view_exprs(self.generated_funcs@) =~= Seq::<ExprV>::empty());
                        assert(self@ == (PState { generated: Seq::empty(), ..st1 }));
                        assert forall|l: Seq<Answer>| extends(l, self.log()) implies #[trigger] p_module(st0, l, Seq::empty()) == p_module(self@, l, view_exprs(out@)) by {
                            lemma_extends_trans(l, self.log(), logs);
                            assert(p_expr(st, l) == (Ok::<ExprV, ErrorView>(ev), st1));
                            assert(p_module(st, l, ov) == p_module(PState { generated: Seq::empty(), ..st1 }, l, ov + st1.generated + seq![ev]));
                        }
                    }
                },
            }
        }
        match failure {
            Some(e) => Err(e),
            None => Ok(out),
        }
    }
}

/// How many operands a fixed-operand token reads (zero for the others).
fn arity_of(t: &Token) -> (n: usize)
    ensures
        n == nary_arity(t@),
{
    match t {
        Token::Move | Token::Borrow | Token::MutBorrow | Token::Len | Token::Read | Token::Str | Token::Env
        | Token::Panic => 1,
        Token::Cat | Token::Loc | Token::Reg | Token::Write | Token::TimeGet | Token::Filter | Token::Trap
        | Token::HttpServer | Token::HttpHeader | Token::FileOpen | Token::Dot => 2,
        Token::StrSub | Token::Split | Token::HttpClient | Token::Question => 3,
        Token::OtelEmit(_) => 4,
        Token::TimeSet => 6,
        Token::Add | Token::Sub | Token::Mul | Token::Div | Token::Eq | Token::Lt | Token::Gt | Token::BitAnd
        | Token::BitOr | Token::BitXor => 2,
        _ => 0,
    }
}

/// Removes and boxes the first expression.
fn take_front(v: &mut Vec<Expr>) -> (e: Box<Expr>)
    requires
        old(v)@.len() > 0,
    ensures
        (*e)@ == view_exprs(old(v)@)[0],
        view_exprs(final(v)@) == view_exprs(old(v)@).drop_first(),
        final(v)@.len() == old(v)@.len() - 1,
{
    let ghost ov = v@;
    let e = v.remove(0);
    proof {
        lemma_view_exprs(ov);
        lemma_view_exprs(v@);
        assert(v@ =~= ov.drop_first());
        assert(view_exprs(v@) =~= view_exprs(ov).drop_first());
    }
    Box::new(e)
}

/// The expression a fixed-operand token builds from its operands.
fn build_nary(t: Token, a: Vec<Expr>) -> (e: Expr)
    requires
        nary_arity(t@) > 0,
        a@.len() == nary_arity(t@),
    ensures
        e@ == nary_build(t@, view_exprs(a@)),
{
    let ghost av = view_exprs(a@);
    let ghost tv = t@;
    let mut a = a;
    let b0 = take_front(&mut a);
    match t {
        Token::Move => Expr::Move(b0),
        Token::Borrow => Expr::Borrow(b0),
        Token::MutBorrow => Expr::MutBorrow(b0),
        Token::Len => Expr::Len(b0),
        Token::Read => Expr::Read(b0),
        Token::Str => Expr::Str(b0),
        Token::Env => Expr::Env(b0),
        Token::Panic => Expr::Panic(b0),
        Token::Cat => Expr::Cat(b0, take_front(&mut a)),
        Token::Loc => Expr::Loc(b0, take_front(&mut a)),
        Token::Reg => Expr::Reg(b0, take_front(&mut a)),
        Token::Write => Expr::Write(b0, take_front(&mut a)),
        Token::TimeGet => Expr::TimeGet(b0, take_front(&mut a)),
        Token::Filter => Expr::Filter(b0, take_front(&mut a)),
        Token::Trap => Expr::Trap(b0, take_front(&mut a)),
        Token::HttpServer => Expr::HttpServer(b0, take_front(&mut a)),
        Token::HttpHeader => Expr::HttpHeader(b0, take_front(&mut a)),
        Token::FileOpen => Expr::FileOpen(b0, take_front(&mut a)),
        Token::Dot => Expr::Sequence(b0, take_front(&mut a)),
        Token::StrSub => {
            let b1 = take_front(&mut a);
            Expr::Sub(b0, b1, take_front(&mut a))
        },
        Token::Split => {
            let b1 = take_front(&mut a);
            Expr::Split(b0, b1, take_front(&mut a))
        },
        Token::HttpClient => {
            let b1 = take_front(&mut a);
            Expr::HttpClient(b0, b1, take_front(&mut a))
        },
        Token::Question => {
            let b1 = take_front(&mut a);
            Expr::If(b0, b1, take_front(&mut a))
        },
        Token::OtelEmit(_) => {
            let b1 = take_front(&mut a);
            let b2 = take_front(&mut a);
            Expr::OtelEmit(b0, b1, b2, take_front(&mut a))
        },
        Token::TimeSet => {
            let b1 = take_front(&mut a);
            let b2 = take_front(&mut a);
            let b3 = take_front(&mut a);
            let b4 = take_front(&mut a);
            Expr::TimeSet(b0, b1, b2, b3, b4, take_front(&mut a))
        },
        op => Expr::BinaryOp(op, b0, take_front(&mut a)),
    }
}

/// Whether an expression is a definition under any number of metadata
/// wrappers.
fn wraps_definition(e: &Expr) -> (r: bool)
    ensures
        r == (strip_meta(e@) is Define),
    decreases e,
{
    match e {
        Expr::Metadata(_, _, t) => wraps_definition(t),
        Expr::Define(..) => true,
        _ => false,
    }
}

/// The value in ten-thousandths of a float literal's text (see
/// `money_of_text`).
fn money_of_float(t: &String) -> (v: i64)
    requires
        float_text(t@),
    ensures
        v == money_of_text(t@),
{
    let cs = chars_of(t.as_str());
    let ghost tv = t@;
    let mut d: usize = 0;
    proof {
        assert(tv.skip(0) =~= tv);
    }
    while d < cs.len() && cs[d] != '.'
        invariant
            cs@ == tv,
            d <= tv.len(),
            dot_index(tv) == d + dot_index(tv.skip(d as int)),
        decreases tv.len() - d,
    {
        proof {
            assert(tv.skip(d as int).drop_first() =~= tv.skip(d + 1));
            assert(tv.skip(d as int)[0] == tv[d as int]);
        }
        d = d + 1;
    }
    proof {
        if d < tv.len() {
            assert(tv.skip(d as int)[0] == tv[d as int]);
        } else {
            assert(tv.skip(d as int).len() == 0);
        }
    }
    assert(d as int == dot_index(tv));
    let ints = crate::compiler::lexer::slice_chars(&cs, 0, d);
    assert(ints@ == tv.take(d as int));
    let mut four: Vec<char> = Vec::new();
    let mut k: usize = 0;
    let ghost frac = tv.skip(d + 1);
    let ghost fourv = if frac.len() >= 4 { frac.take(4) } else { frac + Seq::new((4 - frac.len()) as nat, |i: int| '0') };
    while k < 4
        invariant
            k <= 4,
            cs@ == tv,
            d < tv.len(),
            frac == tv.skip(d + 1),
            fourv == (if frac.len() >= 4 { frac.take(4) } else { frac + Seq::new((4 - frac.len()) as nat, |i: int| '0') }),
            four@ == fourv.take(k as int),
        decreases 4 - k,
    {
        let c = if k < cs.len() - (d + 1) {
            cs[d + 1 + k]
        } else {
            '0'
        };
        proof {
            assert(fourv.len() == 4);
            if d + 1 + k < tv.len() {
                assert(frac[k as int] == tv[d + 1 + k]);
            }
            assert(c == fourv[k as int]);
        }
        four.push(c);
        proof {
            assert(fourv.take(k + 1) =~= fourv.take(k as int).push(c));
        }
        k = k + 1;
    }
    proof {
        assert(fourv.take(4) =~= fourv);
        assert forall|i: int| 0 <= i < 4 implies crate::text::is_digit(#[trigger] fourv[i]) by {
            if i < frac.len() {
                assert(fourv[i] == frac[i]);
            }
        }
    }
    proof {
        crate::text::lemma_digits_value_bound(four@);
        reveal_with_fuel(crate::text::pow10, 5);
    }
    let f = match parse_digits(&four, 9999) {
        Some(f) => f,
        None => 0,
    };
    match parse_digits(&ints, 922337203685477) {
        Some(ip) => {
            proof {
                assert(ip * 10000 + f <= 922337203685477 * 10000 + 9999) by (nonlinear_arith)
                    requires
                        ip <= 922337203685477,
                        f <= 9999,
                ;
            }
            let total: u64 = ip * 10000 + f;
            if total <= 9223372036854775807 {
                total as i64
            } else {
                9223372036854775807
            }
        },
        None => {
            proof {
                assert(digits_value(tv.take(d as int)) * 10000 + digits_value(fourv) > i64::MAX) by (nonlinear_arith)
                    requires
                        digits_value(tv.take(d as int)) > 922337203685477,
                ;
            }
            9223372036854775807
        },
    }
}

proof fn lemma_flat_len_update_last(s: Seq<Seq<Seq<char>>>, x: Seq<Seq<char>>)
    requires
        s.len() > 0,
    ensures
        flat_len(s.update(s.len() - 1, x)) == flat_len(s) - s.last().len() + x.len(),
{
    assert(s.update(s.len() - 1, x).drop_last() =~= s.drop_last());
}

proof fn lemma_flat_len_bound(s: Seq<Seq<Seq<char>>>, k: int)
    requires
        0 < k <= s.len(),
    ensures
        flat_len(s.take(k)) == flat_len(s.take(k - 1)) + s[k - 1].len(),
{
    assert(s.take(k).drop_last() =~= s.take(k - 1));
}

proof fn lemma_flat_len_push(s: Seq<Seq<Seq<char>>>, x: Seq<Seq<char>>)
    ensures
        flat_len(s.push(x)) == flat_len(s) + x.len(),
{
    assert(s.push(x).drop_last() =~= s);
}

/// Dropping the binding just added restores the scopes.
proof fn lemma_add_drop(s: Seq<Seq<Seq<char>>>, name: Seq<char>)
    ensures
        drop_var(add_var(s, name)) == s,
{
    if s.len() > 0 {
        assert(s.last().push(name).drop_last() =~= s.last());
        assert(s.update(s.len() - 1, s.last().push(name)).update(s.len() - 1, s.last()) =~= s);
    }
}

proof fn lemma_view_exprs_concat(a: Seq<Expr>, b: Seq<Expr>)
    ensures
        view_exprs(a + b) == view_exprs(a) + view_exprs(b),
{
    lemma_view_exprs(a);
    lemma_view_exprs(b);
    lemma_view_exprs(a + b);
    assert(view_exprs(a + b) =~= view_exprs(a) + view_exprs(b));
}

} // verus!
