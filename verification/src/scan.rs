//! Searching, splitting and trimming on slices of characters.
//!
//! Each function here computes what the function of the same name in
//! [`crate::text`] defines.

use crate::text;
use vstd::prelude::*;
use vstd::slice::slice_subrange;

verus! {

/// Trusted, not proved: `String::push` of the standard library appends the
/// given character to the end of the string. So the characters after the
/// call are those before it, followed by `c`.
pub assume_specification[ String::push ](s: &mut String, c: char)
    ensures
        final(s)@ == old(s)@.push(c),
;

/// The characters of `s`, in order.
pub fn to_chars(s: &str) -> (v: Vec<char>)
    ensures
        v@ == s@,
{
    let mut v: Vec<char> = Vec::new();
    for c in it: s.chars()
        invariant
            it.seq() == s@,
            v@ == s@.take(it.index() as int),
    {
        v.push(c);
    }
    v
}

/// The string whose characters are `chars`.
pub fn to_string(chars: &[char]) -> (s: String)
    ensures
        s@ == chars@,
{
    let mut s = String::new();
    let mut i: usize = 0;
    while i < chars.len()
        invariant
            i <= chars@.len(),
            s@ == chars@.take(i as int),
        decreases chars@.len() - i,
    {
        s.push(chars[i]);
        i += 1;
    }
    s
}

/// Whether `c` separates ASCII-whitespace-delimited tokens.
pub fn is_ascii_space(c: char) -> (r: bool)
    ensures
        r == text::is_ascii_space(c),
{
    c == ' ' || c == '\t' || c == '\n' || c == '\x0C' || c == '\r'
}

/// Whether `c` is whitespace that trimming removes.
pub fn is_space(c: char) -> (r: bool)
    ensures
        r == text::is_space(c),
{
    let n: u32 = c as u32;
    (0x09 <= n && n <= 0x0D) || n == 0x20 || n == 0x85 || n == 0xA0 || n == 0x1680 || (0x2000 <= n
        && n <= 0x200A) || n == 0x2028 || n == 0x2029 || n == 0x202F || n == 0x205F || n == 0x3000
}

/// Whether the characters of `s` are exactly those of `word`.
pub fn is_text(s: &[char], word: &str) -> (r: bool)
    ensures
        r == (s@ == word@),
{
    let mut i: usize = 0;
    let mut agree = true;
    for c in it: word.chars()
        invariant
            it.seq() == word@,
            agree ==> i == it.index() && i <= s@.len() && s@.take(i as int) == word@.take(i as int),
            !agree ==> s@ != word@,
    {
        if agree {
            if i < s.len() && s[i] == c {
                assert(s@.take(i + 1) =~= s@.take(i as int).push(s@[i as int]));
                assert(word@.take(i + 1) =~= word@.take(i as int).push(word@[i as int]));
                i += 1;
            } else {
                agree = false;
            }
        }
    }
    proof {
        if agree {
            assert(word@.take(i as int) =~= word@);
            if i == s@.len() {
                assert(s@.take(i as int) =~= s@);
            }
        }
    }
    agree && i == s.len()
}

/// Whether `pat` stands in `s` at index `i`.
pub fn occurs_at(s: &[char], pat: &[char], i: usize) -> (r: bool)
    ensures
        r == text::occurs_at(s@, pat@, i as int),
{
    if pat.len() > s.len() || i > s.len() - pat.len() {
        return false;
    }
    let mut k: usize = 0;
    while k < pat.len()
        invariant
            k <= pat@.len(),
            i + pat@.len() <= s@.len() <= usize::MAX,
            forall|j: int| 0 <= j < k ==> s@[i + j] == pat@[j],
        decreases pat@.len() - k,
    {
        if s[i + k] != pat[k] {
            assert(s@.subrange(i as int, i + pat@.len())[k as int] == s@[i + k]);
            return false;
        }
        k += 1;
    }
    assert(s@.subrange(i as int, i + pat@.len()) =~= pat@);
    true
}

/// The index of the first occurrence of `pat` in `s`.
pub fn find(s: &[char], pat: &[char]) -> (r: Option<usize>)
    ensures
        match r {
            Some(i) => text::find(s@, pat@) == Some(i as int),
            None => text::find(s@, pat@) is None,
        },
{
    let mut i: usize = 0;
    loop
        invariant
            i <= s@.len(),
            forall|j: int| 0 <= j < i ==> !text::occurs_at(s@, pat@, j),
        decreases s@.len() - i,
    {
        if occurs_at(s, pat, i) {
            proof {
                text::lemma_find_first(s@, pat@, i as int);
            }
            return Some(i);
        }
        if i >= s.len() {
            proof {
                text::lemma_find_none(s@, pat@);
            }
            return None;
        }
        i += 1;
    }
}

/// `s` cut in two at the first occurrence of `pat`.
pub fn split_once<'a>(s: &'a [char], pat: &[char]) -> (r: Option<(&'a [char], &'a [char])>)
    ensures
        match r {
            Some((head, tail)) => text::split_once(s@, pat@) == Some((head@, tail@)),
            None => text::split_once(s@, pat@) is None,
        },
{
    let n: usize = s.len();
    match find(s, pat) {
        Some(i) => {
            proof {
                text::lemma_find(s@, pat@);
            }
            let head = slice_subrange(s, 0, i);
            let tail = slice_subrange(s, i + pat.len(), n);
            assert(head@ =~= s@.take(i as int));
            assert(tail@ =~= s@.skip(i + pat@.len()));
            Some((head, tail))
        },
        None => None,
    }
}

/// `s` without its leading whitespace.
pub fn trim_start(s: &[char]) -> (r: &[char])
    ensures
        r@ == text::trim_start(s@),
{
    let mut i: usize = 0;
    assert(s@.skip(0) =~= s@);
    while i < s.len() && is_space(s[i])
        invariant
            i <= s@.len(),
            text::trim_start(s@) == text::trim_start(s@.skip(i as int)),
        decreases s@.len() - i,
    {
        assert(s@.skip(i as int).drop_first() =~= s@.skip(i + 1));
        i += 1;
    }
    let r = slice_subrange(s, i, s.len());
    assert(r@ =~= s@.skip(i as int));
    r
}

/// `s` without its trailing whitespace.
pub fn trim_end(s: &[char]) -> (r: &[char])
    ensures
        r@ == text::trim_end(s@),
{
    let mut n: usize = s.len();
    assert(s@.take(n as int) =~= s@);
    while n > 0 && is_space(s[n - 1])
        invariant
            n <= s@.len(),
            text::trim_end(s@) == text::trim_end(s@.take(n as int)),
        decreases n,
    {
        assert(s@.take(n as int).drop_last() =~= s@.take(n - 1));
        n -= 1;
    }
    let r = slice_subrange(s, 0, n);
    assert(r@ =~= s@.take(n as int));
    r
}

/// `s` without its leading and trailing whitespace.
pub fn trim(s: &[char]) -> (r: &[char])
    ensures
        r@ == text::trim(s@),
{
    trim_end(trim_start(s))
}

/// The length of the longest prefix of `s` that holds no ASCII whitespace.
pub fn word_len(s: &[char]) -> (n: usize)
    ensures
        n == text::word_len(s@),
{
    let mut i: usize = 0;
    assert(s@.skip(0) =~= s@);
    while i < s.len() && !is_ascii_space(s[i])
        invariant
            i <= s@.len(),
            text::word_len(s@) == i + text::word_len(s@.skip(i as int)),
        decreases s@.len() - i,
    {
        assert(s@.skip(i as int).drop_first() =~= s@.skip(i + 1));
        i += 1;
    }
    i
}

/// The decimal digit for `d`.
fn digit(d: usize) -> (c: char)
    requires
        d < 10,
    ensures
        c == text::digit(d as nat),
{
    if d == 0 {
        '0'
    } else if d == 1 {
        '1'
    } else if d == 2 {
        '2'
    } else if d == 3 {
        '3'
    } else if d == 4 {
        '4'
    } else if d == 5 {
        '5'
    } else if d == 6 {
        '6'
    } else if d == 7 {
        '7'
    } else if d == 8 {
        '8'
    } else {
        '9'
    }
}

/// `n` written in decimal, without leading zeros.
pub fn decimal(n: usize) -> (r: String)
    ensures
        r@ == text::decimal(n as nat),
    decreases n,
{
    if n < 10 {
        let mut r = String::new();
        r.push(digit(n));
        assert(r@ =~= seq![text::digit(n as nat)]);
        r
    } else {
        let mut r = decimal(n / 10);
        r.push(digit(n % 10));
        r
    }
}

} // verus!
