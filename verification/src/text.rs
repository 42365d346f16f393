//! Small text helpers: comparing strings, taking characters apart and
//! encoding them.

use vstd::prelude::*;
use vstd::string::*;
use vstd::utf8::*;

verus! {

/// Whether two strings hold the same characters.
pub fn str_eq(a: &str, b: &str) -> (r: bool)
    ensures
        r == (a@ == b@),
{
    let n = a.unicode_len();
    if n != b.unicode_len() {
        return false;
    }
    let mut i: usize = 0;
    while i < n
        invariant
            0 <= i <= n,
            n == a@.len(),
            n == b@.len(),
            forall|j: int| 0 <= j < i ==> a@[j] == b@[j],
        decreases n - i,
    {
        if a.get_char(i) != b.get_char(i) {
            return false;
        }
        i = i + 1;
    }
    proof {
        assert(a@ =~= b@);
    }
    true
}

/// The characters of a string, in order.
pub fn chars_of(s: &str) -> (r: Vec<char>)
    ensures
        r@ == s@,
{
    let n = s.unicode_len();
    let mut out: Vec<char> = Vec::new();
    let mut i: usize = 0;
    while i < n
        invariant
            0 <= i <= n,
            n == s@.len(),
            out@ == s@.take(i as int),
        decreases n - i,
    {
        out.push(s.get_char(i));
        proof {
            assert(out@ =~= s@.take(i + 1));
        }
        i = i + 1;
    }
    proof {
        assert(out@ =~= s@);
    }
    out
}

/// The UTF-8 encoding of a character.
pub fn char_utf8(ch: char) -> (r: Vec<u8>)
    ensures
        r@ == encode_scalar(ch as u32),
{
    let scalar = ch as u32;
    let mut out: Vec<u8> = Vec::new();
    if scalar <= 0x7F {
        out.push((scalar & 0x7F) as u8);
    } else if scalar <= 0x7FF {
        out.push(0xC0 | ((scalar >> 6) & 0x1F) as u8);
        out.push(0x80 | (scalar & 0x3F) as u8);
    } else if scalar <= 0xFFFF {
        out.push(0xE0 | ((scalar >> 12) & 0x0F) as u8);
        out.push(0x80 | ((scalar >> 6) & 0x3F) as u8);
        out.push(0x80 | (scalar & 0x3F) as u8);
    } else {
        out.push(0xF0 | ((scalar >> 18) & 0x7) as u8);
        out.push(0x80 | ((scalar >> 12) & 0x3F) as u8);
        out.push(0x80 | ((scalar >> 6) & 0x3F) as u8);
        out.push(0x80 | (scalar & 0x3F) as u8);
    }
    proof {
        assert(out@ =~= encode_scalar(scalar));
    }
    out
}

/// A string of the given characters.
pub fn string_of(chars: &Vec<char>) -> (s: String)
    ensures
        s@ == chars@,
{
    let mut s = String::new();
    let mut i: usize = 0;
    while i < chars.len()
        invariant
            0 <= i <= chars@.len(),
            s@ == chars@.take(i as int),
        decreases chars@.len() - i,
    {
        push_char(&mut s, chars[i]);
        proof {
            assert(s@ =~= chars@.take(i + 1));
        }
        i = i + 1;
    }
    proof {
        assert(s@ =~= chars@);
    }
    s
}

/// Appends a character to a string.
#[verifier::external_body]
pub(crate) fn push_char(s: &mut String, ch: char)
    ensures
        final(s)@ == old(s)@.push(ch),
{
    s.push(ch);
}

/// Appends `tail` to `s` (`String::push_str`).
#[verifier::external_body]
pub(crate) fn push_str(s: &mut String, tail: &str)
    ensures
        final(s)@ == old(s)@ + tail@,
{
    s.push_str(tail);
}

/// An owned copy of a string.
pub fn owned(a: &str) -> (r: String)
    ensures
        r@ == a@,
{
    let mut s = String::new();
    push_str(&mut s, a);
    proof {
        assert(s@ =~= a@);
    }
    s
}

/// The two strings one after the other.
pub fn concat(a: &str, b: &str) -> (r: String)
    ensures
        r@ == a@ + b@,
{
    let mut s = String::new();
    push_str(&mut s, a);
    push_str(&mut s, b);
    proof {
        assert(s@ =~= a@ + b@);
    }
    s
}

/// The decimal digits of `n`, most significant first.
pub open spec fn decimal_text(n: nat) -> Seq<char>
    decreases n,
{
    if n < 10 {
        seq![(n + 0x30) as char]
    } else {
        decimal_text(n / 10) + seq![((n % 10) + 0x30) as char]
    }
}

/// `n` written in decimal.
pub fn u64_text(n: u64) -> (r: String)
    ensures
        r@ == decimal_text(n as nat),
    decreases n,
{
    if n < 10 {
        let c = digit_char(n as u8);
        let v = vec![c];
        let s = string_of(&v);
        proof {
            assert(v@ =~= seq![(n + 0x30) as char]);
        }
        s
    } else {
        let head = u64_text(n / 10);
        let c = digit_char((n % 10) as u8);
        let mut s = head;
        push_char(&mut s, c);
        proof {
            assert(s@ =~= decimal_text((n / 10) as nat) + seq![((n % 10) + 0x30) as char]);
        }
        s
    }
}

/// The decimal digit `d`.
fn digit_char(d: u8) -> (c: char)
    requires
        d < 10,
    ensures
        c == (d + 0x30) as char,
{
    if d == 0 {
        '0'
    } else if d == 1 {
        '1'
    } else if d == 2 {
        '2'
    } else if d == 3 {
        '3'
    } else if d == 4 {
        '4'
    } else if d == 5 {
        '5'
    } else if d == 6 {
        '6'
    } else if d == 7 {
        '7'
    } else if d == 8 {
        '8'
    } else {
        '9'
    }
}

/// A character that Unicode counts as white space.
pub open spec fn is_space(c: char) -> bool {
    let v = c as u32;
    (0x09 <= v <= 0x0d) || v == 0x20 || v == 0x85 || v == 0xa0 || v == 0x1680 || (0x2000 <= v
        <= 0x200a) || v == 0x2028 || v == 0x2029 || v == 0x202f || v == 0x205f || v == 0x3000
}

pub fn char_is_space(c: char) -> (r: bool)
    ensures
        r == is_space(c),
{
    let v = c as u32;
    (0x09 <= v && v <= 0x0d) || v == 0x20 || v == 0x85 || v == 0xa0 || v == 0x1680 || (0x2000 <= v
        && v <= 0x200a) || v == 0x2028 || v == 0x2029 || v == 0x202f || v == 0x205f || v == 0x3000
}

/// How many white-space characters `s` starts with.
pub open spec fn leading_spaces(s: Seq<char>) -> int
    decreases s.len(),
{
    if s.len() > 0 && is_space(s[0]) {
        1 + leading_spaces(s.drop_first())
    } else {
        0
    }
}

/// How many white-space characters `s` ends with.
pub open spec fn trailing_spaces(s: Seq<char>) -> int
    decreases s.len(),
{
    if s.len() > 0 && is_space(s.last()) {
        1 + trailing_spaces(s.drop_last())
    } else {
        0
    }
}

/// `s` without white space at either end.
pub open spec fn trimmed_text(s: Seq<char>) -> Seq<char> {
    let a = leading_spaces(s);
    if a == s.len() {
        seq![]
    } else {
        s.subrange(a, s.len() - trailing_spaces(s))
    }
}

proof fn lemma_leading_spaces(s: Seq<char>)
    ensures
        0 <= leading_spaces(s) <= s.len(),
        forall|k: int| 0 <= k < leading_spaces(s) ==> is_space(#[trigger] s[k]),
        leading_spaces(s) < s.len() ==> !is_space(s[leading_spaces(s)]),
    decreases s.len(),
{
    if s.len() > 0 && is_space(s[0]) {
        lemma_leading_spaces(s.drop_first());
        assert forall|k: int| 0 <= k < leading_spaces(s) implies is_space(#[trigger] s[k]) by {
            if k > 0 {
                assert(s[k] == s.drop_first()[k - 1]);
            }
        }
    }
}

proof fn lemma_trailing_spaces(s: Seq<char>)
    ensures
        0 <= trailing_spaces(s) <= s.len(),
        forall|k: int| s.len() - trailing_spaces(s) <= k < s.len() ==> is_space(#[trigger] s[k]),
        trailing_spaces(s) < s.len() ==> !is_space(s[s.len() - 1 - trailing_spaces(s)]),
    decreases s.len(),
{
    if s.len() > 0 && is_space(s.last()) {
        lemma_trailing_spaces(s.drop_last());
        assert forall|k: int| s.len() - trailing_spaces(s) <= k < s.len() implies is_space(#[trigger] s[k]) by {
            if k < s.len() - 1 {
                assert(s[k] == s.drop_last()[k]);
            }
        }
        if trailing_spaces(s) < s.len() {
            assert(s[s.len() - 1 - trailing_spaces(s)] == s.drop_last()[s.drop_last().len() - 1 - trailing_spaces(s.drop_last())]);
        }
    }
}

/// The characters of `s` without white space at either end.
#[verifier::loop_isolation(false)]
pub fn trim(s: &str) -> (r: String)
    ensures
        r@ == trimmed_text(s@),
{
    let cs = chars_of(s);
    let n = cs.len();
    proof {
        lemma_leading_spaces(s@);
        lemma_trailing_spaces(s@);
    }
    let mut a: usize = 0;
    while a < n && char_is_space(cs[a])
        invariant
            0 <= a <= n,
            n == s@.len(),
            cs@ == s@,
            forall|k: int| 0 <= k < a ==> is_space(#[trigger] s@[k]),
            a <= leading_spaces(s@),
        decreases n - a,
    {
        a = a + 1;
    }
    proof {
        if a < leading_spaces(s@) {
            assert(is_space(s@[a as int]));
        }
    }
    if a == n {
        return String::new();
    }
    let mut b: usize = n;
    while b > a && char_is_space(cs[b - 1])
        invariant
            a < n,
            a <= b <= n,
            n == s@.len(),
            cs@ == s@,
            a == leading_spaces(s@),
            n - b <= trailing_spaces(s@),
        decreases b,
    {
        proof {
            if n - b == trailing_spaces(s@) {
                assert(!is_space(s@[s@.len() - 1 - trailing_spaces(s@)]));
            }
        }
        b = b - 1;
    }
    proof {
        if n - b < trailing_spaces(s@) {
            if b > a {
                assert(is_space(s@[b - 1]));
            } else {
                assert(!is_space(s@[a as int]));
                assert(is_space(s@[a as int]));
            }
        }
    }
    let mut out: Vec<char> = Vec::new();
    let mut i = a;
    while i < b
        invariant
            a <= i <= b,
            b <= n,
            cs@ == s@,
            n == s@.len(),
            out@ == s@.subrange(a as int, i as int),
        decreases b - i,
    {
        out.push(cs[i]);
        proof {
            assert(out@ =~= s@.subrange(a as int, i + 1));
        }
        i = i + 1;
    }
    string_of(&out)
}

} // verus!
