//! Module signatures (`.llmi` text): one `: name arity` line per function and
//! one `# Name field...` line per shape; other lines are ignored.

use vstd::prelude::*;
use crate::compiler::lexer::slice_chars;
use crate::text::{all_digits, chars_of, digits_value, is_digit, is_whitespace, is_ws, parse_digits, string_from_chars, string_of};

verus! {

/// What a signature declares, in order of appearance.
pub struct SigView {
    pub funcs: Seq<(Seq<char>, usize)>,
    pub shapes: Seq<(Seq<char>, Seq<Seq<char>>)>,
}

/// Splits at each newline, accumulating; a final empty piece is dropped.
pub open spec fn lines_from(s: Seq<char>, i: int, cur: Seq<char>, acc: Seq<Seq<char>>) -> Seq<Seq<char>>
    decreases s.len() - i,
{
    if i < 0 || i >= s.len() {
        if cur.len() > 0 {
            acc.push(cur)
        } else {
            acc
        }
    } else if s[i] == '\n' {
        lines_from(s, i + 1, Seq::empty(), acc.push(cur))
    } else {
        lines_from(s, i + 1, cur.push(s[i]), acc)
    }
}

/// The lines of a text.
pub open spec fn text_lines(s: Seq<char>) -> Seq<Seq<char>> {
    lines_from(s, 0, Seq::empty(), Seq::empty())
}

/// Splits at runs of whitespace, accumulating; empty words are dropped.
pub open spec fn words_from(s: Seq<char>, i: int, cur: Seq<char>, acc: Seq<Seq<char>>) -> Seq<Seq<char>>
    decreases s.len() - i,
{
    if i < 0 || i >= s.len() {
        if cur.len() > 0 {
            acc.push(cur)
        } else {
            acc
        }
    } else if is_ws(s[i]) {
        words_from(s, i + 1, Seq::empty(), if cur.len() > 0 { acc.push(cur) } else { acc })
    } else {
        words_from(s, i + 1, cur.push(s[i]), acc)
    }
}

/// The whitespace-separated words of a text.
pub open spec fn words(s: Seq<char>) -> Seq<Seq<char>> {
    words_from(s, 0, Seq::empty(), Seq::empty())
}

/// A non-empty run of digits that fits `usize`.
pub open spec fn usize_digits(u: Seq<char>) -> Option<usize> {
    if u.len() > 0 && all_digits(u) && digits_value(u) <= usize::MAX {
        Some(digits_value(u) as usize)
    } else {
        None
    }
}

/// A `usize` in decimal, with an optional leading `+`.
pub open spec fn parse_usize_text(t: Seq<char>) -> Option<usize> {
    if t.len() > 0 && t[0] == '+' {
        usize_digits(t.drop_first())
    } else {
        usize_digits(t)
    }
}

/// What one signature line adds.
pub open spec fn sig_line(acc: SigView, line: Seq<char>) -> SigView {
    if line.len() > 0 && line[0] == ':' {
        let parts = words(line.drop_first());
        if parts.len() >= 2 && parse_usize_text(parts[1]) is Some {
            SigView { funcs: acc.funcs.push((parts[0], parse_usize_text(parts[1])->0)), ..acc }
        } else {
            acc
        }
    } else if line.len() > 0 && line[0] == '#' {
        let parts = words(line);
        if parts.len() >= 2 {
            SigView { shapes: acc.shapes.push((parts[1], parts.skip(2))), ..acc }
        } else {
            acc
        }
    } else {
        acc
    }
}

/// What the first `n` lines declare.
pub open spec fn sig_lines(lines: Seq<Seq<char>>, n: int) -> SigView
    decreases n,
{
    if n <= 0 || n > lines.len() {
        SigView { funcs: Seq::empty(), shapes: Seq::empty() }
    } else {
        sig_line(sig_lines(lines, n - 1), lines[n - 1])
    }
}

/// What a signature text declares.
pub open spec fn sig_of(text: Seq<char>) -> SigView {
    sig_lines(text_lines(text), text_lines(text).len() as int)
}

/// The lines of `s`.
pub fn split_lines(s: &Vec<char>) -> (r: Vec<Vec<char>>)
    ensures
        r@.map_values(|l: Vec<char>| l@) == text_lines(s@),
{
    let mut acc: Vec<Vec<char>> = Vec::new();
    let mut cur: Vec<char> = Vec::new();
    let mut i: usize = 0;
    proof {
        assert(acc@.map_values(|l: Vec<char>| l@) =~= Seq::<Seq<char>>::empty());
        assert(cur@ =~= Seq::<char>::empty());
    }
    while i < s.len()
        invariant
            i <= s@.len(),
            lines_from(s@, i as int, cur@, acc@.map_values(|l: Vec<char>| l@)) == text_lines(s@),
        decreases s@.len() - i,
    {
        if s[i] == '\n' {
            let ghost old_acc = acc@;
            let piece = cur;
            cur = Vec::new();
            acc.push(piece);
            proof {
                assert(acc@.map_values(|l: Vec<char>| l@) =~= old_acc.map_values(|l: Vec<char>| l@).push(piece@));
                assert(cur@ =~= Seq::<char>::empty());
            }
        } else {
            cur.push(s[i]);
        }
        i = i + 1;
    }
    if cur.len() > 0 {
        let ghost old_acc = acc@;
        let piece = cur;
        acc.push(piece);
        proof {
            assert(acc@.map_values(|l: Vec<char>| l@) =~= old_acc.map_values(|l: Vec<char>| l@).push(piece@));
        }
    }
    acc
}

/// The whitespace-separated words of `s[start..]`.
pub fn split_words(s: &Vec<char>, start: usize) -> (r: Vec<Vec<char>>)
    requires
        start <= s@.len(),
    ensures
        r@.map_values(|l: Vec<char>| l@) == words(s@.skip(start as int)),
{
    let ghost t = s@.skip(start as int);
    let mut acc: Vec<Vec<char>> = Vec::new();
    let mut cur: Vec<char> = Vec::new();
    let mut i: usize = start;
    proof {
        assert(acc@.map_values(|l: Vec<char>| l@) =~= Seq::<Seq<char>>::empty());
        assert(cur@ =~= Seq::<char>::empty());
    }
    while i < s.len()
        invariant
            start <= i <= s@.len(),
            t == s@.skip(start as int),
            words_from(t, i - start, cur@, acc@.map_values(|l: Vec<char>| l@)) == words(t),
        decreases s@.len() - i,
    {
        assert(t[i - start] == s@[i as int]);
        if is_whitespace(s[i]) {
            if cur.len() > 0 {
                let ghost old_acc = acc@;
                let piece = cur;
                cur = Vec::new();
                acc.push(piece);
                proof {
                    assert(acc@.map_values(|l: Vec<char>| l@) =~= old_acc.map_values(|l: Vec<char>| l@).push(piece@));
                    assert(cur@ =~= Seq::<char>::empty());
                }
            } else {
                assert(cur@ =~= Seq::<char>::empty());
            }
        } else {
            cur.push(s[i]);
        }
        i = i + 1;
    }
    if cur.len() > 0 {
        let ghost old_acc = acc@;
        let piece = cur;
        acc.push(piece);
        proof {
            assert(acc@.map_values(|l: Vec<char>| l@) =~= old_acc.map_values(|l: Vec<char>| l@).push(piece@));
        }
    }
    acc
}

/// Reads a `usize` written in decimal with an optional leading `+`.
pub fn parse_usize(t: &Vec<char>) -> (r: Option<usize>)
    ensures
        r == parse_usize_text(t@),
{
    let start: usize = if t.len() > 0 && t[0] == '+' { 1 } else { 0 };
    let u = slice_chars(t, start, t.len());
    proof {
        if start == 1 {
            assert(u@ == t@.drop_first());
        } else {
            assert(u@ == t@);
        }
    }
    if u.len() == 0 {
        return None;
    }
    let mut i: usize = 0;
    while i < u.len()
        invariant
            i <= u@.len(),
            parse_usize_text(t@) == usize_digits(u@),
            u@.len() > 0,
            forall|j: int| 0 <= j < i ==> is_digit(#[trigger] u@[j]),
        decreases u@.len() - i,
    {
        if !(u[i] >= '0' && u[i] <= '9') {
            assert(!is_digit(u@[i as int]));
            assert(!all_digits(u@));
            return None;
        }
        i = i + 1;
    }
    match parse_digits(&u, usize::MAX as u64) {
        Some(v) => Some(v as usize),
        None => None,
    }
}

/// The views of declared functions.
pub open spec fn view_funcs(v: Seq<(String, usize)>) -> Seq<(Seq<char>, usize)> {
    v.map_values(|p: (String, usize)| (p.0@, p.1))
}

/// The views of declared shapes.
pub open spec fn view_shapes(v: Seq<(String, Vec<String>)>) -> Seq<(Seq<char>, Seq<Seq<char>>)> {
    v.map_values(|p: (String, Vec<String>)| (p.0@, p.1@.map_values(|s: String| s@)))
}

/// The functions and shapes a signature text declares, in order.
pub fn parse_signature(content: &str) -> (r: (Vec<(String, usize)>, Vec<(String, Vec<String>)>))
    ensures
        view_funcs(r.0@) == sig_of(content@).funcs,
        view_shapes(r.1@)
            == sig_of(content@).shapes,
{
    let chars = chars_of(content);
    let lines = split_lines(&chars);
    let ghost ls = text_lines(content@);
    let mut funcs: Vec<(String, usize)> = Vec::new();
    let mut shapes: Vec<(String, Vec<String>)> = Vec::new();
    let mut i: usize = 0;
    while i < lines.len()
        invariant
            i <= lines@.len(),
            ls == lines@.map_values(|l: Vec<char>| l@),
            ls == text_lines(content@),
            view_funcs(funcs@) == sig_lines(ls, i as int).funcs,
            view_shapes(shapes@)
                == sig_lines(ls, i as int).shapes,
        decreases lines@.len() - i,
    {
        let line = &lines[i];
        assert(ls[i as int] == line@);
        if line.len() > 0 && line[0] == ':' {
            let parts = split_words(line, 1);
            proof {
                assert(line@.skip(1) == line@.drop_first());
            }
            if parts.len() >= 2 {
                let a = parse_usize(&parts[1]);
                match a {
                    Some(v) => {
                        let ghost old_f = funcs@;
                        let name = string_from_chars(&parts[0]);
                        funcs.push((name, v));
                        proof {
                            assert(view_funcs(funcs@) =~= view_funcs(old_f).push((parts@[0]@, v)));
                        }
                    },
                    None => {},
                }
            }
        } else if line.len() > 0 && line[0] == '#' {
            let parts = split_words(line, 0);
            proof {
                assert(line@.skip(0) == line@);
            }
            if parts.len() >= 2 {
                let name = string_from_chars(&parts[1]);
                let mut fields: Vec<String> = Vec::new();
                let mut k: usize = 2;
                while k < parts.len()
                    invariant
                        2 <= k <= parts@.len(),
                        fields@.map_values(|s: String| s@) == parts@.map_values(|l: Vec<char>| l@).subrange(2, k as int),
                    decreases parts@.len() - k,
                {
                    let ghost old_fields = fields@;
                    let f = string_from_chars(&parts[k]);
                    fields.push(f);
                    proof {
                        let pv = parts@.map_values(|l: Vec<char>| l@);
                        assert(fields@.map_values(|s: String| s@) =~= old_fields.map_values(|s: String| s@).push(f@));
                        assert(pv.subrange(2, k + 1) =~= pv.subrange(2, k as int).push(pv[k as int]));
                    }
                    k = k + 1;
                }
                let ghost old_s = shapes@;
                proof {
                    assert(parts@.map_values(|l: Vec<char>| l@).subrange(2, parts@.len() as int) =~= parts@.map_values(|l: Vec<char>| l@).skip(2));
                }
                let ghost fv = fields@.map_values(|s: String| s@);
                shapes.push((name, fields));
                proof {
                    assert(view_shapes(shapes@) =~= view_shapes(old_s).push((parts@[1]@, fv)));
                }
            }
        }
        proof {
            assert(ls.subrange(0, i as int) =~= ls.take(i as int));
        }
        i = i + 1;
    }
    (funcs, shapes)
}

/// The signatures of the modules built into the runtime.
pub open spec fn builtin_sig(module: Seq<char>) -> Option<Seq<char>> {
    if module == "http"@ {
        Some(": get 1\n: post 2\n: serve 1\n: https_serve 4\n: accept 1\n: respond 2\n: decode 1\n: get_header 2\n"@)
    } else if module == "db"@ {
        Some(": connect 2\n: connect_binding 2\n: query 4\n: exec 3\n: error 1\n"@)
    } else if module == "json"@ {
        Some(": parse 1\n: stringify 1\n: get_int 2\n: get_float 2\n: get_str 2\n: get_obj 2\n: get_arr 2\n: arr_len 1\n: arr_get 2\n"@)
    } else if module == "file"@ {
        Some(": open 2\n: close 1\n"@)
    } else if module == "crypto"@ {
        Some(": sign 2\n: verify 3\n: encrypt 2\n: decrypt 2\n"@)
    } else if module == "cms"@ {
        Some(": unwrap 2\n"@)
    } else {
        None
    }
}

/// The signature text of a built-in module.
pub fn builtin_signature(module: &str) -> (r: Option<String>)
    ensures
        match (r, builtin_sig(module@)) {
            (Some(a), Some(b)) => a@ == b,
            (None, None) => true,
            _ => false,
        },
{
    if crate::text::str_eq(module, "http") {
        Some(string_of(": get 1\n: post 2\n: serve 1\n: https_serve 4\n: accept 1\n: respond 2\n: decode 1\n: get_header 2\n"))
    } else if crate::text::str_eq(module, "db") {
        Some(string_of(": connect 2\n: connect_binding 2\n: query 4\n: exec 3\n: error 1\n"))
    } else if crate::text::str_eq(module, "json") {
        Some(string_of(": parse 1\n: stringify 1\n: get_int 2\n: get_float 2\n: get_str 2\n: get_obj 2\n: get_arr 2\n: arr_len 1\n: arr_get 2\n"))
    } else if crate::text::str_eq(module, "file") {
        Some(string_of(": open 2\n: close 1\n"))
    } else if crate::text::str_eq(module, "crypto") {
        Some(string_of(": sign 2\n: verify 3\n: encrypt 2\n: decrypt 2\n"))
    } else if crate::text::str_eq(module, "cms") {
        Some(string_of(": unwrap 2\n"))
    } else {
        None
    }
}

} // verus!
