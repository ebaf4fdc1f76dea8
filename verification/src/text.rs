//! Text as a sequence of characters: what it means to search, split and trim.
//!
//! Everything here is mathematics over `Seq<char>`. The executable
//! counterparts, which work on slices of characters, are in [`crate::scan`].

use vstd::prelude::*;

verus! {

/// The five characters that separate ASCII-whitespace-delimited tokens:
/// space, tab, line feed, form feed and carriage return.
pub open spec fn is_ascii_space(c: char) -> bool {
    c == ' ' || c == '\t' || c == '\n' || c == '\x0C' || c == '\r'
}

/// The characters with the Unicode property `White_Space`; trimming removes
/// these.
pub open spec fn is_space(c: char) -> bool {
    let n = c as u32;
    ||| 0x09 <= n <= 0x0D
    ||| n == 0x20
    ||| n == 0x85
    ||| n == 0xA0
    ||| n == 0x1680
    ||| 0x2000 <= n <= 0x200A
    ||| n == 0x2028
    ||| n == 0x2029
    ||| n == 0x202F
    ||| n == 0x205F
    ||| n == 0x3000
}

/// `pat` stands in `s` at index `i`.
pub open spec fn occurs_at(s: Seq<char>, pat: Seq<char>, i: int) -> bool {
    &&& 0 <= i
    &&& i + pat.len() <= s.len()
    &&& s.subrange(i, i + pat.len()) =~= pat
}

/// `pat` stands in `s` at index `i` and nowhere before.
pub open spec fn first_at(s: Seq<char>, pat: Seq<char>, i: int) -> bool {
    &&& occurs_at(s, pat, i)
    &&& forall|j: int| 0 <= j < i ==> !occurs_at(s, pat, j)
}

/// The index of the first occurrence of `pat` in `s`, if there is one.
pub open spec fn find(s: Seq<char>, pat: Seq<char>) -> Option<int> {
    if exists|i: int| first_at(s, pat, i) {
        Some(choose|i: int| first_at(s, pat, i))
    } else {
        None
    }
}

/// `s` cut in two at the first occurrence of `pat`: what stands before it
/// and what stands after it.
pub open spec fn split_once(s: Seq<char>, pat: Seq<char>) -> Option<(Seq<char>, Seq<char>)> {
    match find(s, pat) {
        Some(i) => Some((s.take(i), s.skip(i + pat.len()))),
        None => None,
    }
}

/// The pieces of `s` between the occurrences of `pat`, taken from left to
/// right. A text without `pat` is one piece, and so is any text where `pat`
/// is empty.
pub open spec fn split(s: Seq<char>, pat: Seq<char>) -> Seq<Seq<char>>
    decreases s.len(),
{
    match split_once(s, pat) {
        Some((head, tail)) if pat.len() > 0 => {
            proof {
                lemma_find(s, pat);
            }
            seq![head] + split(tail, pat)
        },
        _ => seq![s],
    }
}

/// `s` without its leading whitespace.
pub open spec fn trim_start(s: Seq<char>) -> Seq<char>
    decreases s.len(),
{
    if s.len() > 0 && is_space(s.first()) {
        trim_start(s.drop_first())
    } else {
        s
    }
}

/// `s` without its trailing whitespace.
pub open spec fn trim_end(s: Seq<char>) -> Seq<char>
    decreases s.len(),
{
    if s.len() > 0 && is_space(s.last()) {
        trim_end(s.drop_last())
    } else {
        s
    }
}

/// `s` without its leading and trailing whitespace.
pub open spec fn trim(s: Seq<char>) -> Seq<char> {
    trim_end(trim_start(s))
}

/// The length of the longest prefix of `s` that holds no ASCII whitespace.
pub open spec fn word_len(s: Seq<char>) -> nat
    decreases s.len(),
{
    if s.len() == 0 || is_ascii_space(s.first()) {
        0
    } else {
        1 + word_len(s.drop_first())
    }
}

/// The maximal runs of characters other than ASCII whitespace in `s`, from
/// left to right.
pub open spec fn tokens(s: Seq<char>) -> Seq<Seq<char>>
    decreases s.len(),
{
    if s.len() == 0 {
        Seq::empty()
    } else if is_ascii_space(s.first()) {
        tokens(s.drop_first())
    } else {
        proof {
            lemma_word_len(s);
        }
        seq![s.take(word_len(s) as int)] + tokens(s.skip(word_len(s) as int))
    }
}

/// The decimal digit for `d`.
pub open spec fn digit(d: nat) -> char {
    if d == 0 {
        '0'
    } else if d == 1 {
        '1'
    } else if d == 2 {
        '2'
    } else if d == 3 {
        '3'
    } else if d == 4 {
        '4'
    } else if d == 5 {
        '5'
    } else if d == 6 {
        '6'
    } else if d == 7 {
        '7'
    } else if d == 8 {
        '8'
    } else {
        '9'
    }
}

/// `n` written in decimal, without leading zeros.
pub open spec fn decimal(n: nat) -> Seq<char>
    decreases n,
{
    if n < 10 {
        seq![digit(n)]
    } else {
        decimal(n / 10).push(digit(n % 10))
    }
}

/// A prefix without ASCII whitespace is never longer than the text.
pub proof fn lemma_word_len(s: Seq<char>)
    ensures
        word_len(s) <= s.len(),
        forall|k: int| 0 <= k < word_len(s) ==> !is_ascii_space(#[trigger] s[k]),
        word_len(s) < s.len() ==> is_ascii_space(s[word_len(s) as int]),
        s.len() > 0 && !is_ascii_space(s.first()) ==> word_len(s) > 0,
    decreases s.len(),
{
    if s.len() > 0 && !is_ascii_space(s.first()) {
        let t = s.drop_first();
        lemma_word_len(t);
        assert forall|k: int| 0 <= k < word_len(s) implies !is_ascii_space(#[trigger] s[k]) by {
            if k > 0 {
                assert(s[k] == t[k - 1]);
            }
        }
        if word_len(s) < s.len() {
            assert(s[word_len(s) as int] == t[word_len(t) as int]);
        }
    }
}

/// Where `pat` occurs at all, it has a first occurrence at or before that
/// place.
pub proof fn lemma_first_exists(s: Seq<char>, pat: Seq<char>, i: int)
    requires
        occurs_at(s, pat, i),
    ensures
        exists|k: int| 0 <= k <= i && first_at(s, pat, k),
    decreases i,
{
    if exists|j: int| 0 <= j < i && occurs_at(s, pat, j) {
        let j = choose|j: int| 0 <= j < i && occurs_at(s, pat, j);
        lemma_first_exists(s, pat, j);
    } else {
        assert(first_at(s, pat, i));
    }
}

/// `find` gives the first occurrence, and gives nothing only where there is
/// no occurrence.
pub proof fn lemma_find(s: Seq<char>, pat: Seq<char>)
    ensures
        match find(s, pat) {
            Some(i) => first_at(s, pat, i),
            None => forall|i: int| !occurs_at(s, pat, i),
        },
{
    if find(s, pat) is None {
        assert forall|i: int| !occurs_at(s, pat, i) by {
            if occurs_at(s, pat, i) {
                lemma_first_exists(s, pat, i);
            }
        }
    }
}

/// A first occurrence is what `find` gives.
pub proof fn lemma_find_first(s: Seq<char>, pat: Seq<char>, i: int)
    requires
        first_at(s, pat, i),
    ensures
        find(s, pat) == Some(i),
{
    lemma_find(s, pat);
}

/// Without an occurrence `find` gives nothing.
pub proof fn lemma_find_none(s: Seq<char>, pat: Seq<char>)
    requires
        forall|i: int| !occurs_at(s, pat, i),
    ensures
        find(s, pat) is None,
{
    lemma_find(s, pat);
}

/// A text that continues `head` by `pat` is cut there, provided that `pat`
/// does not begin earlier.
pub proof fn lemma_split_once_at(head: Seq<char>, pat: Seq<char>, tail: Seq<char>)
    requires
        forall|j: int| 0 <= j < head.len() ==> !occurs_at(head + pat, pat, j),
    ensures
        find(head + pat + tail, pat) == Some(head.len() as int),
        split_once(head + pat + tail, pat) == Some((head, tail)),
{
    let s = head + pat + tail;
    let at = head.len() as int;
    assert(s.subrange(at, at + pat.len()) =~= pat);
    assert forall|j: int| 0 <= j < at implies !occurs_at(s, pat, j) by {
        if occurs_at(s, pat, j) {
            assert((head + pat).subrange(j, j + pat.len()) =~= s.subrange(j, j + pat.len()));
            assert(occurs_at(head + pat, pat, j));
        }
    }
    lemma_find_first(s, pat, at);
    assert(s.take(at) =~= head);
    assert(s.skip(at + pat.len()) =~= tail);
}

/// A text that continues `head` by the character `c` is cut there, provided
/// that `c` does not stand in `head`.
pub proof fn lemma_split_once_at_char(head: Seq<char>, c: char, tail: Seq<char>)
    requires
        !head.contains(c),
    ensures
        split_once(head + seq![c] + tail, seq![c]) == Some((head, tail)),
{
    let pat = seq![c];
    assert forall|j: int| 0 <= j < head.len() implies !occurs_at(head + pat, pat, j) by {
        if occurs_at(head + pat, pat, j) {
            assert((head + pat).subrange(j, j + 1)[0] == c);
            assert(head[j] == c);
        }
    }
    lemma_split_once_at(head, pat, tail);
}

/// A number in decimal is made of digits, and of nothing else.
pub proof fn lemma_decimal_digits(n: nat)
    ensures
        decimal(n).len() > 0,
        forall|i: int| 0 <= i < decimal(n).len() ==> '0' <= #[trigger] decimal(n)[i] <= '9',
    decreases n,
{
    if n >= 10 {
        lemma_decimal_digits(n / 10);
    }
}

/// `s` is empty or ends with ASCII whitespace.
pub open spec fn ends_at_gap(s: Seq<char>) -> bool {
    s.len() == 0 || is_ascii_space(s.last())
}

/// `s` is empty or begins with ASCII whitespace.
pub open spec fn starts_at_gap(s: Seq<char>) -> bool {
    s.len() == 0 || is_ascii_space(s.first())
}

/// `s` is not empty and holds no ASCII whitespace.
pub open spec fn is_word(s: Seq<char>) -> bool {
    s.len() > 0 && forall|i: int| 0 <= i < s.len() ==> !is_ascii_space(s[i])
}

/// Characters other than ASCII whitespace, followed by nothing or by ASCII
/// whitespace, are the longest prefix without ASCII whitespace.
pub proof fn lemma_word_len_of_word(word: Seq<char>, post: Seq<char>)
    requires
        forall|i: int| 0 <= i < word.len() ==> !is_ascii_space(word[i]),
        starts_at_gap(post),
    ensures
        word_len(word + post) == word.len(),
    decreases word.len(),
{
    if word.len() == 0 {
        assert(word + post =~= post);
    } else {
        let rest = word.drop_first();
        assert((word + post).first() == word[0]);
        assert((word + post).drop_first() =~= rest + post);
        assert forall|i: int| 0 <= i < rest.len() implies !is_ascii_space(rest[i]) by {
            assert(rest[i] == word[i + 1]);
        }
        lemma_word_len_of_word(rest, post);
    }
}

/// What follows a text does not change its longest prefix without ASCII
/// whitespace, if that prefix is not the whole text.
pub proof fn lemma_word_len_prefix(s: Seq<char>, post: Seq<char>)
    requires
        word_len(s) < s.len(),
    ensures
        word_len(s + post) == word_len(s),
    decreases s.len(),
{
    assert((s + post).first() == s.first());
    if !is_ascii_space(s.first()) {
        assert((s + post).drop_first() =~= s.drop_first() + post);
        lemma_word_len_prefix(s.drop_first(), post);
    }
}

/// A word that stands between ASCII whitespace, or at an end of the text,
/// is one of the tokens of the text.
pub proof fn lemma_tokens_around_word(pre: Seq<char>, word: Seq<char>, post: Seq<char>)
    requires
        ends_at_gap(pre),
        is_word(word),
        starts_at_gap(post),
    ensures
        tokens(pre + word + post) == tokens(pre) + seq![word] + tokens(post),
    decreases pre.len(),
{
    let s = pre + word + post;
    if pre.len() == 0 {
        assert(s =~= word + post);
        lemma_word_len_of_word(word, post);
        assert(s.first() == word[0]);
        assert(s.take(word.len() as int) =~= word);
        assert(s.skip(word.len() as int) =~= post);
        assert(tokens(pre) + seq![word] + tokens(post) =~= seq![word] + tokens(post));
    } else if is_ascii_space(pre.first()) {
        let rest = pre.drop_first();
        assert(s.first() == pre.first());
        assert(s.drop_first() =~= rest + word + post);
        if rest.len() > 0 {
            assert(rest.last() == pre.last());
        }
        lemma_tokens_around_word(rest, word, post);
    } else {
        let n = word_len(pre) as int;
        lemma_word_len(pre);
        assert(n < pre.len()) by {
            if n == pre.len() {
                assert(!is_ascii_space(pre[pre.len() - 1]));
            }
        }
        let rest = pre.skip(n);
        assert(s =~= pre + (word + post));
        lemma_word_len_prefix(pre, word + post);
        assert(s.first() == pre.first());
        assert(s.take(n) =~= pre.take(n));
        assert(s.skip(n) =~= rest + word + post);
        assert(rest.last() == pre.last());
        lemma_tokens_around_word(rest, word, post);
        assert(tokens(s) =~= tokens(pre) + seq![word] + tokens(post));
    }
}

} // verus!
