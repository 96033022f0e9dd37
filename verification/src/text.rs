//! Character and string helpers shared by the front end: character classes,
//! decimal and hexadecimal rendering, and conversions between `String` and
//! character vectors.

use vstd::prelude::*;

verus! {

/// Appends one character to a string (`String::push`).
#[verifier::external_body]
pub fn push_char(s: &mut String, c: char)
    ensures
        final(s)@ == old(s)@.push(c),
{
    s.push(c);
}

/// Appends the characters of `t` to `s`.
pub fn push_str(s: &mut String, t: &str)
    ensures
        final(s)@ == old(s)@ + t@,
{
    let ghost start = s@;
    for c in it: t.chars()
        invariant
            it.seq() == t@,
            s@ == start + it.seq().take(it.index() as int),
    {
        push_char(s, c);
        proof {
            assert(it.seq().take(it.index() + 1) == it.seq().take(it.index() as int).push(c));
        }
    }
    proof {
        assert(t@.take(t@.len() as int) == t@);
    }
}

/// Appends a sequence of characters to `s`.
pub fn push_chars(s: &mut String, t: &Vec<char>)
    ensures
        final(s)@ == old(s)@ + t@,
{
    let ghost start = s@;
    let mut i: usize = 0;
    while i < t.len()
        invariant
            i <= t@.len(),
            s@ == start + t@.take(i as int),
        decreases t@.len() - i,
    {
        push_char(s, t[i]);
        proof {
            assert(t@.take(i + 1) == t@.take(i as int).push(t@[i as int]));
        }
        i = i + 1;
    }
    proof {
        assert(t@.take(t@.len() as int) == t@);
    }
}

/// The string made of the given characters.
pub fn string_from_chars(v: &Vec<char>) -> (s: String)
    ensures
        s@ == v@,
{
    let mut s = String::new();
    push_chars(&mut s, v);
    s
}

/// The string made of the characters of `t`.
pub fn string_of(t: &str) -> (s: String)
    ensures
        s@ == t@,
{
    let mut s = String::new();
    push_str(&mut s, t);
    s
}

/// A copy of a string with the same contents.
pub fn copy_string(t: &String) -> (s: String)
    ensures
        s@ == t@,
{
    string_of(t.as_str())
}

/// The characters of `t`, in order.
pub fn chars_of(t: &str) -> (v: Vec<char>)
    ensures
        v@ == t@,
{
    let mut v: Vec<char> = Vec::new();
    for c in it: t.chars()
        invariant
            it.seq() == t@,
            v@ == it.seq().take(it.index() as int),
    {
        v.push(c);
        proof {
            assert(it.seq().take(it.index() + 1) == it.seq().take(it.index() as int).push(c));
        }
    }
    proof {
        assert(t@.take(t@.len() as int) == t@);
    }
    v
}

/// Whether two strings hold the same characters.
pub fn str_eq(a: &str, b: &str) -> (r: bool)
    ensures
        r == (a@ == b@),
{
    let va = chars_of(a);
    let vb = chars_of(b);
    chars_eq(&va, &vb)
}

/// Whether two character vectors are equal.
pub fn chars_eq(a: &Vec<char>, b: &Vec<char>) -> (r: bool)
    ensures
        r == (a@ == b@),
{
    if a.len() != b.len() {
        return false;
    }
    let mut i: usize = 0;
    while i < a.len()
        invariant
            a@.len() == b@.len(),
            i <= a@.len(),
            forall|j: int| 0 <= j < i ==> a@[j] == b@[j],
        decreases a@.len() - i,
    {
        if a[i] != b[i] {
            return false;
        }
        i = i + 1;
    }
    proof {
        assert(a@ =~= b@);
    }
    true
}

/// Whether two strings hold the same characters.
pub fn string_eq(a: &String, b: &String) -> (r: bool)
    ensures
        r == (a@ == b@),
{
    str_eq(a.as_str(), b.as_str())
}

/// Unicode `White_Space`: the characters that `char::is_whitespace` accepts.
pub open spec fn is_ws(c: char) -> bool {
    ||| ('\u{9}' <= c && c <= '\u{d}')
    ||| c == ' '
    ||| c == '\u{85}'
    ||| c == '\u{a0}'
    ||| c == '\u{1680}'
    ||| ('\u{2000}' <= c && c <= '\u{200a}')
    ||| c == '\u{2028}'
    ||| c == '\u{2029}'
    ||| c == '\u{202f}'
    ||| c == '\u{205f}'
    ||| c == '\u{3000}'
}

/// Decides `is_ws`.
pub fn is_whitespace(c: char) -> (r: bool)
    ensures
        r == is_ws(c),
{
    ('\u{9}' <= c && c <= '\u{d}') || c == ' ' || c == '\u{85}' || c == '\u{a0}' || c == '\u{1680}'
        || ('\u{2000}' <= c && c <= '\u{200a}') || c == '\u{2028}' || c == '\u{2029}' || c
        == '\u{202f}' || c == '\u{205f}' || c == '\u{3000}'
}

/// An ASCII decimal digit.
pub open spec fn is_digit(c: char) -> bool {
    '0' <= c && c <= '9'
}

/// An ASCII letter.
pub open spec fn is_ascii_letter(c: char) -> bool {
    ('a' <= c && c <= 'z') || ('A' <= c && c <= 'Z')
}

/// What `char::is_alphanumeric` answers for `c` (Unicode `Alphabetic` or `Numeric`).
pub uninterp spec fn char_alnum(c: char) -> bool;

/// `char::is_alphanumeric`. Its documentation defines it as `is_alphabetic() ||
/// is_numeric()`; restricted to ASCII these are the letters and the digits, which
/// is all that is stated here. Outside ASCII the answer is only named.
#[verifier::external_body]
pub fn is_alphanumeric(c: char) -> (r: bool)
    ensures
        r == char_alnum(c),
        (c as u32) < 128 ==> (r <==> (is_ascii_letter(c) || is_digit(c))),
{
    c.is_alphanumeric()
}

/// The value of a digit character.
pub open spec fn digit_val(c: char) -> nat {
    (c as nat - '0' as nat) as nat
}

/// The value of a string of decimal digits (most significant first).
pub open spec fn digits_value(s: Seq<char>) -> nat
    decreases s.len(),
{
    if s.len() == 0 {
        0
    } else {
        digits_value(s.drop_last()) * 10 + digit_val(s.last())
    }
}

/// Ten to the power `n`.
pub open spec fn pow10(n: nat) -> nat
    decreases n,
{
    if n == 0 {
        1
    } else {
        10 * pow10((n - 1) as nat)
    }
}

/// A digit string's value is below ten to the power of its length.
pub proof fn lemma_digits_value_bound(s: Seq<char>)
    requires
        all_digits(s),
    ensures
        digits_value(s) < pow10(s.len()),
    decreases s.len(),
{
    if s.len() > 0 {
        assert(all_digits(s.drop_last())) by {
            assert forall|i: int| 0 <= i < s.drop_last().len() implies is_digit(#[trigger] s.drop_last()[i]) by {
                assert(s.drop_last()[i] == s[i]);
            }
        }
        lemma_digits_value_bound(s.drop_last());
        assert(is_digit(s[s.len() - 1]));
        assert(digits_value(s.drop_last()) * 10 + digit_val(s.last()) < pow10(s.len())) by (nonlinear_arith)
            requires
                digits_value(s.drop_last()) < pow10(s.drop_last().len()),
                digit_val(s.last()) <= 9,
                pow10(s.len()) == 10 * pow10(s.drop_last().len()),
        ;
    }
}

/// Every character is an ASCII digit.
pub open spec fn all_digits(s: Seq<char>) -> bool {
    forall|i: int| 0 <= i < s.len() ==> is_digit(#[trigger] s[i])
}

/// The decimal value of a digit string when it does not exceed `bound`.
pub fn parse_digits(s: &Vec<char>, bound: u64) -> (r: Option<u64>)
    requires
        all_digits(s@),
    ensures
        r matches Some(v) ==> v == digits_value(s@) && v <= bound,
        r is None <==> digits_value(s@) > bound,
{
    let mut acc: u64 = 0;
    let mut i: usize = 0;
    let mut over = false;
    while i < s.len()
        invariant
            i <= s@.len(),
            all_digits(s@),
            !over ==> acc == digits_value(s@.take(i as int)) && acc <= bound,
            over ==> digits_value(s@.take(i as int)) > bound,
        decreases s@.len() - i,
    {
        let ghost pre = s@.take(i as int);
        proof {
            assert(s@.take(i + 1).drop_last() == pre);
            assert(s@.take(i + 1).last() == s@[i as int]);
            assert(is_digit(s@[i as int]));
        }
        let d = (s[i] as u32 - '0' as u32) as u64;
        if !over {
            if d > bound || acc > (bound - d) / 10 {
                over = true;
                proof {
                    assert(digits_value(s@.take(i + 1)) == acc * 10 + d) by (nonlinear_arith)
                        requires
                            digits_value(s@.take(i + 1)) == digits_value(pre) * 10 + d,
                            acc == digits_value(pre),
                    ;
                    assert(acc * 10 + d > bound) by (nonlinear_arith)
                        requires
                            d > bound || acc > (bound - d) / 10,
                            d <= 9,
                    ;
                }
            } else {
                proof {
                    assert(acc * 10 + d <= bound) by (nonlinear_arith)
                        requires
                            acc <= (bound - d) / 10,
                            d <= bound,
                    ;
                }
                acc = acc * 10 + d;
            }
        } else {
            proof {
                assert(digits_value(s@.take(i + 1)) >= digits_value(pre)) by (nonlinear_arith)
                    requires
                        digits_value(s@.take(i + 1)) == digits_value(pre) * 10 + d,
                ;
            }
        }
        i = i + 1;
    }
    proof {
        assert(s@.take(s@.len() as int) == s@);
    }
    if over {
        None
    } else {
        Some(acc)
    }
}

/// The decimal digits of a natural number, without leading zeros.
pub open spec fn nat_decimal(n: nat) -> Seq<char>
    decreases n,
{
    if n < 10 {
        seq![digit_char(n)]
    } else {
        nat_decimal(n / 10) + seq![digit_char(n % 10)]
    }
}

/// The character of a digit below ten.
pub open spec fn digit_char(d: nat) -> char {
    ((d + '0' as nat) as u32) as char
}

/// Decimal rendering of an integer, with a leading `-` when negative.
pub open spec fn int_decimal(n: int) -> Seq<char> {
    if n < 0 {
        seq!['-'] + nat_decimal((-n) as nat)
    } else {
        nat_decimal(n as nat)
    }
}

fn push_decimal(s: &mut String, n: u64)
    ensures
        final(s)@ == old(s)@ + nat_decimal(n as nat),
    decreases n,
{
    if n >= 10 {
        push_decimal(s, n / 10);
    }
    let d = (n % 10) as u32;
    let c = char_from_digit(d);
    push_char(s, c);
    proof {
        if n >= 10 {
            assert(old(s)@ + nat_decimal(n as nat) == old(s)@ + nat_decimal((n / 10) as nat) + seq![
                c
            ]);
        }
    }
}

fn char_from_digit(d: u32) -> (c: char)
    requires
        d < 16,
    ensures
        d < 10 ==> c == digit_char(d as nat),
        d >= 10 ==> c == hex_char(d as nat),
{
    match d {
        0 => '0',
        1 => '1',
        2 => '2',
        3 => '3',
        4 => '4',
        5 => '5',
        6 => '6',
        7 => '7',
        8 => '8',
        9 => '9',
        10 => 'a',
        11 => 'b',
        12 => 'c',
        13 => 'd',
        14 => 'e',
        _ => 'f',
    }
}

/// Appends the decimal rendering of an unsigned number.
pub fn push_u64(s: &mut String, n: u64)
    ensures
        final(s)@ == old(s)@ + nat_decimal(n as nat),
{
    push_decimal(s, n);
}

/// Appends the decimal rendering of a signed number.
pub fn push_i64(s: &mut String, n: i64)
    ensures
        final(s)@ == old(s)@ + int_decimal(n as int),
{
    if n < 0 {
        push_char(s, '-');
        let m: u64 = if n == i64::MIN {
            9223372036854775808u64
        } else {
            (-n) as u64
        };
        push_decimal(s, m);
        proof {
            assert(old(s)@ + int_decimal(n as int) == old(s)@.push('-') + nat_decimal(m as nat));
        }
    } else {
        push_decimal(s, n as u64);
    }
}

/// A lowercase hexadecimal digit.
pub open spec fn hex_char(d: nat) -> char {
    if d < 10 {
        digit_char(d)
    } else {
        ((d - 10 + 'a' as nat) as u32) as char
    }
}

/// Lowercase hexadecimal rendering without leading zeros.
pub open spec fn nat_hex(n: nat) -> Seq<char>
    decreases n,
{
    if n < 16 {
        seq![hex_char(n)]
    } else {
        nat_hex(n / 16) + seq![hex_char(n % 16)]
    }
}

/// Appends the lowercase hexadecimal rendering of `n`.
pub fn push_hex(s: &mut String, n: u32)
    ensures
        final(s)@ == old(s)@ + nat_hex(n as nat),
    decreases n,
{
    if n >= 16 {
        push_hex(s, n / 16);
    }
    let d = n % 16;
    let c = char_from_digit(d);
    proof {
        assert(c == hex_char(d as nat));
    }
    push_char(s, c);
    proof {
        if n >= 16 {
            assert(old(s)@ + nat_hex(n as nat) == old(s)@ + nat_hex((n / 16) as nat) + seq![c]);
        }
    }
}

/// Appends the lowercase hexadecimal rendering of a 64-bit number.
pub fn push_hex_u64(s: &mut String, n: u64)
    ensures
        final(s)@ == old(s)@ + nat_hex(n as nat),
    decreases n,
{
    if n >= 16 {
        push_hex_u64(s, n / 16);
    }
    let d = (n % 16) as u32;
    let c = char_from_digit(d);
    proof {
        assert(c == hex_char(d as nat));
    }
    push_char(s, c);
    proof {
        if n >= 16 {
            assert(old(s)@ + nat_hex(n as nat) == old(s)@ + nat_hex((n / 16) as nat) + seq![c]);
        }
    }
}

/// The `Debug` rendering of a string: the text between double quotes, with
/// quotes, backslashes and control characters escaped.
pub uninterp spec fn debug_text(s: Seq<char>) -> Seq<char>;

/// The `Debug` rendering of a string (`format!("{:?}", s)`); its contract
/// names the result `debug_text(s)` and says nothing more of it.
#[verifier::external_body]
pub(crate) fn debug_string(s: &str) -> (r: String)
    ensures
        r@ == debug_text(s@),
{
    format!("{:?}", s)
}

} // verus!
