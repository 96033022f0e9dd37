//! The test harness core: finding the functions tagged `M "test"`, building
//! the dispatcher `main` that runs one of them per process, and reading the
//! result line that each run prints. Compiling, linking and spawning the
//! processes is left to the caller.

use vstd::prelude::*;
use sha2::Digest;
use crate::compiler::analysis::fingerprint;
use crate::compiler::ast::{Expr, ExprV, ParamV, view_exprs, lemma_view_exprs, lemma_view_exprs_push};
use crate::text::{
    all_digits, chars_of, copy_string, digits_value, hex_char, is_ws, is_whitespace, push_str, str_eq,
    string_of,
};

verus! {

/// The base path for external mock data that tests see as `TEST_DATA_DIR`.
pub const DEFAULT_TEST_DATA_DIR: &'static str = "./tests/data";

/// The outcome of one test.
#[derive(Debug, Clone)]
pub struct TestResult {
    pub name: String,
    pub passed: bool,
    /// Execution time measured inside the sandbox.
    pub duration_ns: i64,
    pub panic_message: Option<String>,
    /// SHA-256 of the test body's structural fingerprint, in hex.
    pub fingerprint: String,
}

/// The outcome of a whole test file.
#[derive(Debug, Clone)]
pub struct TestReport {
    pub file: String,
    pub total: usize,
    pub passed: usize,
    pub failed: usize,
    pub results: Vec<TestResult>,
}

impl TestReport {
    /// Whether no test failed.
    pub fn success(&self) -> (r: bool)
        ensures
            r == (self.failed == 0),
    {
        self.failed == 0
    }

    /// Adds the outcome of one more test: it is appended to the results and
    /// counted as passed or failed.
    pub fn record(&mut self, result: TestResult)
        requires
            result.passed ==> old(self).passed < usize::MAX,
            !result.passed ==> old(self).failed < usize::MAX,
        ensures
            final(self).file == old(self).file,
            final(self).total == old(self).total,
            final(self).passed == old(self).passed + (if result.passed { 1int } else { 0int }),
            final(self).failed == old(self).failed + (if result.passed { 0int } else { 1int }),
            final(self).results@ == old(self).results@.push(result),
    {
        if result.passed {
            self.passed = self.passed + 1;
        } else {
            self.failed = self.failed + 1;
        }
        self.results.push(result);
    }
}

/// A test function found through `M "test"` metadata.
#[derive(Debug)]
pub struct DiscoveredTest {
    pub name: String,
    pub fingerprint: String,
    pub define: Expr,
}

/// The SHA-256 digest of the UTF-8 encoding of a text.
pub uninterp spec fn sha256_text(text: Seq<char>) -> Seq<u8>;

/// `sha2::Sha256::digest` over the UTF-8 bytes of `text`. The contract names
/// the digest `sha256_text(text)` and states its 32-byte length, the output
/// size of SHA-256; nothing else is said of the bytes.
#[verifier::external_body]
fn sha256_digest(text: &str) -> (r: Vec<u8>)
    ensures
        r@ == sha256_text(text@),
        r@.len() == 32,
{
    sha2::Sha256::digest(text.as_bytes()).to_vec()
}

/// Two lowercase hexadecimal digits per byte, high nibble first.
pub open spec fn hex_lower(bytes: Seq<u8>) -> Seq<char>
    decreases bytes.len(),
{
    if bytes.len() == 0 {
        Seq::empty()
    } else {
        seq![hex_char((bytes[0] / 16) as nat), hex_char((bytes[0] % 16) as nat)] + hex_lower(
            bytes.drop_first(),
        )
    }
}

/// `hex::encode`: each byte as two lowercase hexadecimal digits, high nibble
/// first, as the crate's documentation and its lowercase digit table show.
#[verifier::external_body]
fn hex_encode(bytes: &[u8]) -> (r: String)
    ensures
        r@ == hex_lower(bytes@),
{
    hex::encode(bytes)
}

/// The fingerprint under which a function body is reported: the hex SHA-256
/// of its structural fingerprint.
pub open spec fn body_hash(body: ExprV) -> Seq<char> {
    hex_lower(sha256_text(fingerprint(body)))
}

/// The hex SHA-256 of the structural fingerprint of `body`.
pub fn fingerprint_of(body: &Expr) -> (r: String)
    ensures
        r@ == body_hash(body@),
{
    let fp = body.structural_fingerprint();
    let digest = sha256_digest(fp.as_str());
    hex_encode(digest.as_slice())
}

/// An expression with its `M` metadata layers taken off.
pub open spec fn strip_metadata(e: ExprV) -> ExprV
    decreases e,
{
    match e {
        ExprV::Metadata(_, _, t) => strip_metadata(*t),
        _ => e,
    }
}

/// Whether an expression carries `M "test"` metadata at its top.
pub open spec fn is_test_tagged(e: ExprV) -> bool {
    match e {
        ExprV::Metadata(tag, _, _) => *tag == ExprV::String("test"@),
        _ => false,
    }
}

/// The view of a discovered test: its name, body hash and definition.
pub struct DiscoveredTestV {
    pub name: Seq<char>,
    pub fingerprint: Seq<char>,
    pub define: ExprV,
}

impl View for DiscoveredTest {
    type V = DiscoveredTestV;

    open spec fn view(&self) -> DiscoveredTestV {
        DiscoveredTestV { name: self.name@, fingerprint: self.fingerprint@, define: self.define@ }
    }
}

/// The views of a sequence of discovered tests.
pub open spec fn view_tests(v: Seq<DiscoveredTest>) -> Seq<DiscoveredTestV> {
    v.map_values(|t: DiscoveredTest| t@)
}

/// What one top-level expression is for the harness: `None` for production
/// code, `Some(Ok(test))` for a test, `Some(Err(message))` for a tag that
/// cannot be honoured.
pub open spec fn classify(e: ExprV) -> Option<Result<DiscoveredTestV, Seq<char>>> {
    if !is_test_tagged(e) {
        None
    } else {
        match e {
            ExprV::Metadata(_, _, target) => match strip_metadata(*target) {
                ExprV::Define(name, params, body, x) => if params.len() != 0 {
                    Some(
                        Err(
                            "E019: test function '"@ + name + "' must take no parameters"@,
                        ),
                    )
                } else {
                    Some(
                        Ok(
                            DiscoveredTestV {
                                name,
                                fingerprint: body_hash(*body),
                                define: ExprV::Define(name, params, body, x),
                            },
                        ),
                    )
                },
                _ => Some(Err("E019: M \"test\" metadata must target a function definition (:)"@)),
            },
            _ => None,
        }
    }
}

/// Splitting the first `n` expressions into tests and production code; the
/// first expression that cannot be honoured decides the error.
pub open spec fn split_tests(es: Seq<ExprV>, n: int) -> Result<
    (Seq<DiscoveredTestV>, Seq<ExprV>),
    Seq<char>,
>
    decreases n,
{
    if n <= 0 {
        Ok((Seq::empty(), Seq::empty()))
    } else {
        match split_tests(es, n - 1) {
            Err(m) => Err(m),
            Ok((t, p)) => match classify(es[n - 1]) {
                None => Ok((t, p.push(es[n - 1]))),
                Some(Ok(d)) => Ok((t.push(d), p)),
                Some(Err(m)) => Err(m),
            },
        }
    }
}

/// The definition under the metadata layers of `e`.
fn strip_metadata_exec(e: &Expr) -> (r: &Expr)
    ensures
        r@ == strip_metadata(e@),
    decreases e,
{
    match e {
        Expr::Metadata(_, _, t) => strip_metadata_exec(t),
        _ => e,
    }
}

/// Whether `e` carries `M "test"` metadata at its top.
fn is_test_tagged_exec(e: &Expr) -> (r: bool)
    ensures
        r == is_test_tagged(e@),
{
    match e {
        Expr::Metadata(tag, _, _) => match &**tag {
            Expr::String(s) => {
                let r = str_eq(s.as_str(), "test");
                proof {
                    assert((**tag)@ == ExprV::String(s@));
                }
                r
            },
            _ => {
                proof {
                    assert(!((**tag)@ is String));
                }
                false
            },
        },
        _ => false,
    }
}

/// What one expression is for the harness (see `classify`).
fn classify_exec(e: &Expr) -> (r: Option<Result<DiscoveredTest, String>>)
    ensures
        match (r, classify(e@)) {
            (None, None) => true,
            (Some(Ok(t)), Some(Ok(v))) => t@ == v,
            (Some(Err(m)), Some(Err(v))) => m@ == v,
            _ => false,
        },
{
    if !is_test_tagged_exec(e) {
        return None;
    }
    match e {
        Expr::Metadata(_, _, target) => {
            let inner = strip_metadata_exec(target);
            match inner {
                Expr::Define(name, params, body, _) => {
                    if params.len() != 0 {
                        let mut m = string_of("E019: test function '");
                        push_str(&mut m, name.as_str());
                        push_str(&mut m, "' must take no parameters");
                        Some(Err(m))
                    } else {
                        let fp = fingerprint_of(body);
                        Some(Ok(DiscoveredTest { name: copy_string(name), fingerprint: fp, define: inner.deep_copy() }))
                    }
                },
                _ => Some(Err(string_of("E019: M \"test\" metadata must target a function definition (:)"))),
            }
        },
        _ => None,
    }
}

/// Splits a parsed module into its tests and its production code: each
/// definition tagged `M "test"` (under any further metadata) becomes a test
/// and leaves the production list; everything else stays, in order. A tagged
/// definition with parameters, or a tag on anything but a definition, is an
/// `E019` error.
pub fn discover_tests(expressions: Vec<Expr>) -> (r: Result<(Vec<DiscoveredTest>, Vec<Expr>), String>)
    ensures
        match (r, split_tests(view_exprs(expressions@), expressions@.len() as int)) {
            (Ok((t, p)), Ok((tv, pv))) => view_tests(t@) == tv && view_exprs(p@) == pv,
            (Err(m), Err(mv)) => m@ == mv,
            _ => false,
        },
{
    let ghost es = view_exprs(expressions@);
    proof {
        lemma_view_exprs(expressions@);
    }
    let mut tests: Vec<DiscoveredTest> = Vec::new();
    let mut production: Vec<Expr> = Vec::new();
    let mut i: usize = 0;
    proof {
        assert(view_tests(tests@) =~= Seq::<DiscoveredTestV>::empty());
        assert(view_exprs(production@) =~= Seq::<ExprV>::empty());
    }
    while i < expressions.len()
        invariant
            es == view_exprs(expressions@),
            es.len() == expressions@.len(),
            forall|k: int| 0 <= k < es.len() ==> #[trigger] es[k] == expressions@[k]@,
            i <= expressions@.len(),
            split_tests(es, i as int) == Ok::<(Seq<DiscoveredTestV>, Seq<ExprV>), Seq<char>>(
                (view_tests(tests@), view_exprs(production@)),
            ),
        decreases expressions@.len() - i,
    {
        let e = &expressions[i];
        match classify_exec(e) {
            None => {
                let ghost old_p = production@;
                let c = e.deep_copy();
                production.push(c);
                proof {
                    lemma_view_exprs_push(old_p, c);
                }
            },
            Some(Ok(t)) => {
                let ghost old_t = tests@;
                tests.push(t);
                proof {
                    assert(view_tests(tests@) =~= view_tests(old_t).push(t@));
                }
            },
            Some(Err(m)) => {
                proof {
                    assert(split_tests(es, i + 1) == Err::<(Seq<DiscoveredTestV>, Seq<ExprV>), Seq<char>>(m@));
                    lemma_split_tests_err(es, i + 1, expressions@.len() as int);
                }
                return Err(m);
            },
        }
        i = i + 1;
    }
    Ok((tests, production))
}

/// Once splitting fails at some point, it fails with the same message on
/// every longer prefix.
proof fn lemma_split_tests_err(es: Seq<ExprV>, n: int, m: int)
    requires
        n <= m,
        split_tests(es, n) is Err,
    ensures
        split_tests(es, m) == split_tests(es, n),
    decreases m - n,
{
    if m > n {
        lemma_split_tests_err(es, n, m - 1);
    }
}

/// Splitting a module loses nothing: every expression becomes a test or
/// stays in production, and production keeps exactly the untagged
/// expressions, in order.
pub proof fn lemma_split_tests_partition(es: Seq<ExprV>, n: int)
    requires
        0 <= n <= es.len(),
        split_tests(es, n) is Ok,
    ensures
        ({
            let (t, p) = split_tests(es, n)->Ok_0;
            &&& t.len() + p.len() == n
            &&& p == es.take(n).filter(|e: ExprV| !is_test_tagged(e))
        }),
    decreases n,
{
    if n > 0 {
        lemma_split_tests_partition(es, n - 1);
        reveal(Seq::filter);
        assert(es.take(n).drop_last() =~= es.take(n - 1));
        assert(es.take(n).last() == es[n - 1]);
    } else {
        assert(es.take(0) =~= Seq::<ExprV>::empty());
        reveal(Seq::filter);
    }
}

/// The dispatch block of one test in the harness `main`: when `LLM_TEST_NAME`
/// names it, run it under a trap, time it and print the result line.
pub open spec fn harness_case(name: Seq<char>) -> Seq<char> {
    "? sr $ tname \"^"@ + name + "$\"\nL t0 tns\nL ok ^ . @0 "@ + name
        + " 1 0\nL t1 tns\n. ) 1 sc \"\\n__LLMTEST__:\" sc str $ ok sc \":\" sc str - $ t1 $ t0 sc \":\" sc env \"LLM_PANIC_MSG\" \"__LLMTEST_END__\\n\"\n? = $ ok 1 0 1\n"@
}

/// The dispatch blocks of all tests, in order.
pub open spec fn harness_cases(names: Seq<Seq<char>>) -> Seq<char>
    decreases names.len(),
{
    if names.len() == 0 {
        Seq::empty()
    } else {
        harness_cases(names.drop_last()) + harness_case(names.last())
    }
}

/// The source of the dispatcher `main`.
pub open spec fn harness_main_text(names: Seq<Seq<char>>) -> Seq<char> {
    ": main\nL tname env \"LLM_TEST_NAME\"\n"@ + harness_cases(names)
        + ". ) 2 \"unknown test name\\n\" 1\n"@
}

/// The llmlang source of the dispatcher `main`: it selects one test through
/// `env "LLM_TEST_NAME"`, runs it under a trap so that a panic is recorded,
/// times it with `tns`, and prints
/// `__LLMTEST__:<1|0>:<duration_ns>:<panic_msg>__LLMTEST_END__`.
pub fn generate_harness_main(test_names: &[String]) -> (r: String)
    ensures
        r@ == harness_main_text(test_names@.map_values(|s: String| s@)),
{
    let ghost names = test_names@.map_values(|s: String| s@);
    let mut src = string_of(": main\nL tname env \"LLM_TEST_NAME\"\n");
    let ghost head = src@;
    let mut i: usize = 0;
    while i < test_names.len()
        invariant
            names == test_names@.map_values(|s: String| s@),
            i <= test_names@.len(),
            head == ": main\nL tname env \"LLM_TEST_NAME\"\n"@,
            src@ == head + harness_cases(names.take(i as int)),
        decreases test_names@.len() - i,
    {
        let name = test_names[i].as_str();
        let ghost before = src@;
        push_str(&mut src, "? sr $ tname \"^");
        push_str(&mut src, name);
        push_str(&mut src, "$\"\nL t0 tns\nL ok ^ . @0 ");
        push_str(&mut src, name);
        push_str(
            &mut src,
            " 1 0\nL t1 tns\n. ) 1 sc \"\\n__LLMTEST__:\" sc str $ ok sc \":\" sc str - $ t1 $ t0 sc \":\" sc env \"LLM_PANIC_MSG\" \"__LLMTEST_END__\\n\"\n? = $ ok 1 0 1\n",
        );
        proof {
            assert(names.take(i + 1).drop_last() =~= names.take(i as int));
            assert(names.take(i + 1).last() == name@);
            assert(src@ =~= before + harness_case(name@));
        }
        i = i + 1;
    }
    push_str(&mut src, ". ) 2 \"unknown test name\\n\" 1\n");
    proof {
        assert(names.take(test_names@.len() as int) =~= names);
    }
    src
}

/// The line that opens a result in a harness run's output.
pub const RESULT_MARKER: &'static str = "__LLMTEST__:";

/// The text that closes a result.
pub const RESULT_END_MARKER: &'static str = "__LLMTEST_END__";

/// Whether `pat` occurs in `s` at position `i`.
pub open spec fn occurs_at(s: Seq<char>, pat: Seq<char>, i: int) -> bool {
    0 <= i && i + pat.len() <= s.len() && s.subrange(i, i + pat.len()) == pat
}

/// The first position at or after `i` where `pat` occurs.
pub open spec fn find_from(s: Seq<char>, pat: Seq<char>, i: int) -> Option<int>
    decreases s.len() + 1 - i,
{
    if i < 0 || i + pat.len() > s.len() {
        None
    } else if occurs_at(s, pat, i) {
        Some(i)
    } else {
        find_from(s, pat, i + 1)
    }
}

/// The last position before `i` where `pat` occurs.
pub open spec fn rfind_before(s: Seq<char>, pat: Seq<char>, i: int) -> Option<int>
    decreases i,
{
    if i <= 0 {
        None
    } else if occurs_at(s, pat, i - 1) {
        Some(i - 1)
    } else {
        rfind_before(s, pat, i - 1)
    }
}

/// A text without its leading white space.
pub open spec fn trim_start(s: Seq<char>) -> Seq<char>
    decreases s.len(),
{
    if s.len() > 0 && is_ws(s[0]) {
        trim_start(s.drop_first())
    } else {
        s
    }
}

/// A text without its trailing white space.
pub open spec fn trim_end(s: Seq<char>) -> Seq<char>
    decreases s.len(),
{
    if s.len() > 0 && is_ws(s.last()) {
        trim_end(s.drop_last())
    } else {
        s
    }
}

/// A text without leading and trailing white space (`str::trim`).
pub open spec fn trim(s: Seq<char>) -> Seq<char> {
    trim_end(trim_start(s))
}

/// The signed number a text spells (`str::parse::<i64>`): an optional sign
/// and at least one decimal digit, with a value that fits.
pub open spec fn parse_i64(s: Seq<char>) -> Option<i64> {
    if s.len() > 0 && (s[0] == '-' || s[0] == '+') {
        let d = s.drop_first();
        if d.len() == 0 || !all_digits(d) {
            None
        } else if s[0] == '-' {
            if digits_value(d) <= 0x8000_0000_0000_0000 {
                Some((0 - digits_value(d)) as i64)
            } else {
                None
            }
        } else if digits_value(d) <= 0x7fff_ffff_ffff_ffff {
            Some(digits_value(d) as i64)
        } else {
            None
        }
    } else if s.len() == 0 || !all_digits(s) {
        None
    } else if digits_value(s) <= 0x7fff_ffff_ffff_ffff {
        Some(digits_value(s) as i64)
    } else {
        None
    }
}

/// The fields of a result payload `<ok>:<duration>:<message>`: the first
/// field reads as a pass when it trims to `1`, the second must be a number,
/// and the message is everything after the second colon (empty when there is
/// none).
pub open spec fn payload_fields(p: Seq<char>) -> Option<(bool, i64, Seq<char>)> {
    match find_from(p, seq![':'], 0) {
        None => None,
        Some(i1) => {
            let ok = trim(p.subrange(0, i1)) == seq!['1'];
            let rest = p.subrange(i1 + 1, p.len() as int);
            let (dur, msg) = match find_from(rest, seq![':'], 0) {
                None => (rest, Seq::<char>::empty()),
                Some(i2) => (rest.subrange(0, i2), rest.subrange(i2 + 1, rest.len() as int)),
            };
            match parse_i64(trim(dur)) {
                None => None,
                Some(d) => Some((ok, d, msg)),
            }
        },
    }
}

/// The result that a harness run printed: the payload after the last
/// `RESULT_MARKER`, up to the first `RESULT_END_MARKER` after it.
pub open spec fn result_payload(out: Seq<char>) -> Option<(bool, i64, Seq<char>)> {
    let m = RESULT_MARKER@;
    match rfind_before(out, m, out.len() - m.len() + 1) {
        None => None,
        Some(start) => {
            let after = out.subrange(start + m.len(), out.len() as int);
            match find_from(after, RESULT_END_MARKER@, 0) {
                None => None,
                Some(end) => payload_fields(after.subrange(0, end)),
            }
        },
    }
}

/// The characters of `v` from `a` up to `b`.
fn sub_chars(v: &Vec<char>, a: usize, b: usize) -> (r: Vec<char>)
    requires
        a <= b <= v@.len(),
    ensures
        r@ == v@.subrange(a as int, b as int),
{
    let mut r: Vec<char> = Vec::new();
    let mut i: usize = a;
    while i < b
        invariant
            a <= i <= b <= v@.len(),
            r@ == v@.subrange(a as int, i as int),
        decreases b - i,
    {
        r.push(v[i]);
        proof {
            assert(v@.subrange(a as int, i + 1) =~= v@.subrange(a as int, i as int).push(v@[i as int]));
        }
        i = i + 1;
    }
    r
}

/// Whether `pat` occurs in `s` at position `i`.
fn occurs_at_exec(s: &Vec<char>, pat: &Vec<char>, i: usize) -> (r: bool)
    ensures
        r == occurs_at(s@, pat@, i as int),
{
    if i > s.len() || pat.len() > s.len() - i {
        return false;
    }
    let slen = s.len();
    let mut k: usize = 0;
    while k < pat.len()
        invariant
            slen == s@.len(),
            i + pat@.len() <= s@.len(),
            k <= pat@.len(),
            forall|j: int| 0 <= j < k ==> s@[i + j] == pat@[j],
        decreases pat@.len() - k,
    {
        if s[i + k] != pat[k] {
            proof {
                assert(s@.subrange(i as int, i + pat@.len())[k as int] != pat@[k as int]);
            }
            return false;
        }
        k = k + 1;
    }
    proof {
        assert(s@.subrange(i as int, i + pat@.len()) =~= pat@);
    }
    true
}

/// The first position at or after `i` where `pat` occurs.
fn find_from_exec(s: &Vec<char>, pat: &Vec<char>, i: usize) -> (r: Option<usize>)
    ensures
        match (r, find_from(s@, pat@, i as int)) {
            (Some(a), Some(b)) => a == b,
            (None, None) => true,
            _ => false,
        },
        r matches Some(a) ==> i <= a && occurs_at(s@, pat@, a as int),
{
    if pat.len() == 0 {
        if i <= s.len() {
            proof {
                assert(s@.subrange(i as int, i as int) =~= pat@);
            }
            return Some(i);
        }
        return None;
    }
    let mut j: usize = i;
    while j <= s.len() && pat.len() <= s.len() - j
        invariant
            i <= j,
            pat@.len() > 0,
            find_from(s@, pat@, i as int) == find_from(s@, pat@, j as int),
        decreases s@.len() + 1 - j,
    {
        if occurs_at_exec(s, pat, j) {
            return Some(j);
        }
        j = j + 1;
    }
    None
}

/// The last position where `pat` occurs in `s`.
fn rfind_exec(s: &Vec<char>, pat: &Vec<char>) -> (r: Option<usize>)
    ensures
        match (r, rfind_before(s@, pat@, s@.len() - pat@.len() + 1)) {
            (Some(a), Some(b)) => a == b,
            (None, None) => true,
            _ => false,
        },
        r matches Some(a) ==> occurs_at(s@, pat@, a as int),
{
    if pat.len() > s.len() {
        return None;
    }
    if pat.len() == 0 {
        proof {
            assert(s@.subrange(s@.len() as int, s@.len() as int) =~= pat@);
        }
        return Some(s.len());
    }
    let mut j: usize = s.len() - pat.len() + 1;
    while j > 0
        invariant
            j <= s@.len() - pat@.len() + 1,
            rfind_before(s@, pat@, s@.len() - pat@.len() + 1) == rfind_before(s@, pat@, j as int),
        decreases j,
    {
        if occurs_at_exec(s, pat, j - 1) {
            return Some(j - 1);
        }
        j = j - 1;
    }
    None
}

/// The text between `a` and `b` of `v` without its outer white space.
fn trim_chars(v: &Vec<char>, a: usize, b: usize) -> (r: Vec<char>)
    requires
        a <= b <= v@.len(),
    ensures
        r@ == trim(v@.subrange(a as int, b as int)),
{
    let ghost t = v@.subrange(a as int, b as int);
    let mut lo: usize = a;
    while lo < b && is_whitespace(v[lo])
        invariant
            a <= lo <= b <= v@.len(),
            t == v@.subrange(a as int, b as int),
            trim_start(t) == trim_start(v@.subrange(lo as int, b as int)),
        decreases b - lo,
    {
        proof {
            assert(v@.subrange(lo as int, b as int).drop_first() =~= v@.subrange(lo + 1, b as int));
        }
        lo = lo + 1;
    }
    proof {
        assert(trim_start(t) == v@.subrange(lo as int, b as int));
    }
    let mut hi: usize = b;
    while hi > lo && is_whitespace(v[hi - 1])
        invariant
            a <= lo <= hi <= b <= v@.len(),
            trim(t) == trim_end(v@.subrange(lo as int, hi as int)),
        decreases hi,
    {
        proof {
            assert(v@.subrange(lo as int, hi as int).drop_last() =~= v@.subrange(lo as int, hi - 1));
        }
        hi = hi - 1;
    }
    sub_chars(v, lo, hi)
}

/// Whether every character of `v` is a decimal digit.
fn all_digits_exec(v: &Vec<char>) -> (r: bool)
    ensures
        r == all_digits(v@),
{
    let mut i: usize = 0;
    while i < v.len()
        invariant
            i <= v@.len(),
            forall|k: int| 0 <= k < i ==> crate::text::is_digit(#[trigger] v@[k]),
        decreases v@.len() - i,
    {
        if !('0' <= v[i] && v[i] <= '9') {
            return false;
        }
        i = i + 1;
    }
    true
}

/// The signed number that `v` spells (see `parse_i64`).
fn parse_i64_exec(v: &Vec<char>) -> (r: Option<i64>)
    ensures
        r == parse_i64(v@),
{
    if v.len() > 0 && (v[0] == '-' || v[0] == '+') {
        let d = sub_chars(v, 1, v.len());
        proof {
            assert(d@ =~= v@.drop_first());
        }
        if d.len() == 0 || !all_digits_exec(&d) {
            return None;
        }
        if v[0] == '-' {
            match crate::text::parse_digits(&d, 0x8000_0000_0000_0000u64) {
                Some(n) => {
                    if n == 0x8000_0000_0000_0000u64 {
                        Some(i64::MIN)
                    } else {
                        Some(0 - (n as i64))
                    }
                },
                None => None,
            }
        } else {
            match crate::text::parse_digits(&d, 0x7fff_ffff_ffff_ffffu64) {
                Some(n) => Some(n as i64),
                None => None,
            }
        }
    } else if v.len() == 0 || !all_digits_exec(v) {
        None
    } else {
        match crate::text::parse_digits(v, 0x7fff_ffff_ffff_ffffu64) {
            Some(n) => Some(n as i64),
            None => None,
        }
    }
}

/// The fields of a result payload (see `payload_fields`).
fn payload_fields_exec(p: &Vec<char>) -> (r: Option<(bool, i64, String)>)
    ensures
        match (r, payload_fields(p@)) {
            (Some((a, b, c)), Some((x, y, z))) => a == x && b == y && c@ == z,
            (None, None) => true,
            _ => false,
        },
{
    let colon = vec![':'];
    proof {
        assert(colon@ =~= seq![':']);
    }
    match find_from_exec(p, &colon, 0) {
        None => None,
        Some(i1) => {
            let first = trim_chars(p, 0, i1);
            let one = vec!['1'];
            let ok = crate::text::chars_eq(&first, &one);
            proof {
                assert(one@ =~= seq!['1']);
            }
            let plen = p.len();
            let rest = sub_chars(p, i1 + 1, plen);
            let (dur, msg) = match find_from_exec(&rest, &colon, 0) {
                None => (trim_chars(&rest, 0, rest.len()), Vec::new()),
                Some(i2) => (trim_chars(&rest, 0, i2), sub_chars(&rest, i2 + 1, rest.len())),
            };
            proof {
                assert(rest@.subrange(0, rest@.len() as int) =~= rest@);
                assert(msg@ == (match find_from(rest@, seq![':'], 0) {
                    None => Seq::<char>::empty(),
                    Some(i2) => rest@.subrange(i2 + 1, rest@.len() as int),
                }));
            }
            match parse_i64_exec(&dur) {
                None => None,
                Some(d) => Some((ok, d, crate::text::string_from_chars(&msg))),
            }
        },
    }
}

/// The result that a harness run printed on its standard output (see
/// `result_payload`): whether the test passed, how long it ran and the panic
/// message; `None` when the output holds no complete result.
pub fn parse_result_output(stdout: &str) -> (r: Option<(bool, i64, String)>)
    ensures
        match (r, result_payload(stdout@)) {
            (Some((a, b, c)), Some((x, y, z))) => a == x && b == y && c@ == z,
            (None, None) => true,
            _ => false,
        },
{
    let out = chars_of(stdout);
    let m = chars_of(RESULT_MARKER);
    let e = chars_of(RESULT_END_MARKER);
    match rfind_exec(&out, &m) {
        None => None,
        Some(start) => {
            let olen = out.len();
            let after = sub_chars(&out, start + m.len(), olen);
            match find_from_exec(&after, &e, 0) {
                None => None,
                Some(end) => {
                    let payload = sub_chars(&after, 0, end);
                    payload_fields_exec(&payload)
                },
            }
        },
    }
}

/// The outcome of `test` from what its run printed, when the run printed a
/// result: it passed as the result line says, and a failure keeps its panic
/// message unless that is empty.
pub fn result_from_output(test: &DiscoveredTest, stdout: &str) -> (r: Option<TestResult>)
    ensures
        match (r, result_payload(stdout@)) {
            (Some(t), Some((ok, d, m))) => {
                &&& t.name@ == test.name@
                &&& t.fingerprint@ == test.fingerprint@
                &&& t.passed == ok
                &&& t.duration_ns == d
                &&& if ok || m.len() == 0 {
                    t.panic_message is None
                } else {
                    t.panic_message matches Some(pm) && pm@ == m
                }
            },
            (None, None) => true,
            _ => false,
        },
{
    match parse_result_output(stdout) {
        None => None,
        Some((passed, duration_ns, msg)) => {
            let panic_message = if passed || msg.as_str().is_empty() {
                None
            } else {
                Some(msg)
            };
            Some(
                TestResult {
                    name: copy_string(&test.name),
                    passed,
                    duration_ns,
                    panic_message,
                    fingerprint: copy_string(&test.fingerprint),
                },
            )
        },
    }
}

/// Whether an expression is the definition of `main`, under any metadata.
pub open spec fn defines_main(e: ExprV) -> bool {
    strip_metadata(e) matches ExprV::Define(n, _, _, _) && n == "main"@
}

/// The production expressions without their `main`, in order.
pub open spec fn without_main(es: Seq<ExprV>) -> Seq<ExprV>
    decreases es.len(),
{
    if es.len() == 0 {
        Seq::empty()
    } else if defines_main(es.last()) {
        without_main(es.drop_last())
    } else {
        without_main(es.drop_last()).push(es.last())
    }
}

/// The module that the harness is compiled from, before its dispatcher
/// `main` is added: the production code without its own `main`, then the
/// definitions of the tests.
pub fn harness_exprs(production: &Vec<Expr>, tests: &Vec<DiscoveredTest>) -> (r: Vec<Expr>)
    ensures
        view_exprs(r@) == without_main(view_exprs(production@)) + view_tests(tests@).map_values(
            |t: DiscoveredTestV| t.define,
        ),
{
    let ghost pv = view_exprs(production@);
    proof {
        lemma_view_exprs(production@);
    }
    let mut out: Vec<Expr> = Vec::new();
    let mut i: usize = 0;
    proof {
        assert(view_exprs(out@) =~= Seq::<ExprV>::empty());
        assert(pv.take(0) =~= Seq::<ExprV>::empty());
    }
    while i < production.len()
        invariant
            pv == view_exprs(production@),
            pv.len() == production@.len(),
            forall|k: int| 0 <= k < pv.len() ==> #[trigger] pv[k] == production@[k]@,
            i <= production@.len(),
            view_exprs(out@) == without_main(pv.take(i as int)),
        decreases production@.len() - i,
    {
        let e = &production[i];
        let inner = strip_metadata_exec(e);
        let is_main = match inner {
            Expr::Define(name, _, _, _) => str_eq(name.as_str(), "main"),
            _ => false,
        };
        proof {
            assert(pv.take(i + 1).drop_last() =~= pv.take(i as int));
            assert(pv.take(i + 1).last() == e@);
        }
        if !is_main {
            let ghost old_out = out@;
            let c = e.deep_copy();
            out.push(c);
            proof {
                lemma_view_exprs_push(old_out, c);
            }
        }
        i = i + 1;
    }
    proof {
        assert(pv.take(production@.len() as int) =~= pv);
    }
    let ghost base = view_exprs(out@);
    let ghost tv = view_tests(tests@).map_values(|t: DiscoveredTestV| t.define);
    let mut j: usize = 0;
    while j < tests.len()
        invariant
            tv == view_tests(tests@).map_values(|t: DiscoveredTestV| t.define),
            j <= tests@.len(),
            view_exprs(out@) == base + tv.take(j as int),
        decreases tests@.len() - j,
    {
        let ghost old_out = out@;
        let c = tests[j].define.deep_copy();
        out.push(c);
        proof {
            lemma_view_exprs_push(old_out, c);
            assert(tv.take(j + 1) =~= tv.take(j as int).push(tv[j as int]));
        }
        j = j + 1;
    }
    proof {
        assert(tv.take(tests@.len() as int) =~= tv);
    }
    out
}

} // verus!
