//! What holds of every request: laws of the grammar, each one proved.

use crate::http::grammar::{
    blank_line, collect_headers, crlf, first_version, header_lines, header_of_line, headers_of,
    parse, request_line, resource_of, space, strip_slash, version_of_token,
};
use crate::text::{
    ends_at_gap, find, first_at, lemma_find, lemma_split_once_at, lemma_split_once_at_char,
    lemma_tokens_around_word, occurs_at, split, split_once, starts_at_gap, tokens, trim,
};
use vstd::prelude::*;

verus! {

/// Among `words`, the first that names a version decides.
pub proof fn lemma_first_version(words: Seq<Seq<char>>, k: int)
    requires
        0 <= k < words.len(),
        version_of_token(words[k]) is Some,
        forall|i: int| 0 <= i < k ==> version_of_token(words[i]) is None,
    ensures
        first_version(words) == version_of_token(words[k]),
    decreases k,
{
    if k > 0 {
        let rest = words.drop_first();
        assert(rest[k - 1] == words[k]);
        assert forall|i: int| 0 <= i < k - 1 implies version_of_token(rest[i]) is None by {
            assert(rest[i] == words[i + 1]);
        }
        lemma_first_version(rest, k - 1);
    }
}

/// Where one of `words` names a version, a version is found.
pub proof fn lemma_some_version(words: Seq<Seq<char>>, k: int)
    requires
        0 <= k < words.len(),
        version_of_token(words[k]) is Some,
    ensures
        first_version(words) is Some,
    decreases k,
{
    if k > 0 && version_of_token(words.first()) is None {
        let rest = words.drop_first();
        assert(rest[k - 1] == words[k]);
        lemma_some_version(rest, k - 1);
    }
}

/// Where none of `words` names a version, none is found.
pub proof fn lemma_no_version(words: Seq<Seq<char>>)
    requires
        forall|i: int| 0 <= i < words.len() ==> version_of_token(words[i]) is None,
    ensures
        first_version(words) is None,
    decreases words.len(),
{
    if words.len() > 0 {
        let rest = words.drop_first();
        assert(version_of_token(words[0]) is None);
        assert forall|i: int| 0 <= i < rest.len() implies version_of_token(rest[i]) is None by {
            assert(rest[i] == words[i + 1]);
        }
        lemma_no_version(rest);
    }
}

/// A request whose request line holds a token that names a version is
/// parsed, whatever else the line holds; and its version is the one named
/// by the first such token.
pub proof fn lemma_version_token_suffices(request: Seq<char>, line: Seq<char>, k: int)
    requires
        request_line(request) == Some(line),
        0 <= k < tokens(line).len(),
        version_of_token(tokens(line)[k]) is Some,
    ensures
        parse(request) is Some,
        (forall|i: int| 0 <= i < k ==> version_of_token(tokens(line)[i]) is None) ==> parse(
            request,
        )->0.version == version_of_token(tokens(line)[k])->0,
{
    lemma_some_version(tokens(line), k);
    if forall|i: int| 0 <= i < k ==> version_of_token(tokens(line)[i]) is None {
        lemma_first_version(tokens(line), k);
    }
}

/// A request is parsed wherever a word that names a version stands in its
/// request line between ASCII whitespace or at an end of the line, whatever
/// stands before and after.
pub proof fn lemma_version_word_suffices(
    request: Seq<char>,
    before: Seq<char>,
    word: Seq<char>,
    after: Seq<char>,
)
    requires
        request_line(request) == Some(before + word + after),
        version_of_token(word) is Some,
        ends_at_gap(before),
        starts_at_gap(after),
    ensures
        parse(request) is Some,
{
    reveal_strlit("HTTP/1.1");
    reveal_strlit("HTTP/2");
    reveal_strlit("HTTP/2.0");
    lemma_tokens_around_word(before, word, after);
    let words = tokens(before + word + after);
    let k = tokens(before).len() as int;
    assert(words[k] == word);
    lemma_some_version(words, k);
}

/// A request whose request line holds no token that names a version is
/// refused.
pub proof fn lemma_version_token_needed(request: Seq<char>, line: Seq<char>)
    requires
        request_line(request) == Some(line),
        forall|k: int| 0 <= k < tokens(line).len() ==> version_of_token(tokens(line)[k]) is None,
    ensures
        parse(request) is None,
{
    lemma_no_version(tokens(line));
}

/// A text that continues `line` by a line terminator has `line` as its
/// request line, provided that `line` holds no line terminator.
pub proof fn lemma_request_line(line: Seq<char>, tail: Seq<char>)
    requires
        find(line, crlf()) is None,
    ensures
        split_once(line + crlf() + tail, crlf()) == Some((line, tail)),
        request_line(line + crlf() + tail) == Some(line),
{
    lemma_find(line, crlf());
    assert forall|j: int| 0 <= j < line.len() implies !occurs_at(line + crlf(), crlf(), j) by {
        if occurs_at(line + crlf(), crlf(), j) {
            let window = (line + crlf()).subrange(j, j + 2);
            if j + 2 <= line.len() {
                assert(line.subrange(j, j + 2) =~= window);
                assert(occurs_at(line, crlf(), j));
            } else {
                assert(window[1] == '\r');
            }
        }
    }
    lemma_split_once_at(line, crlf(), tail);
}

/// The resource of a GET or POST request whose request line reads
/// `<method> /<path> <rest>` is `path`, trimmed: one leading slash is
/// stripped, and no more than one.
pub proof fn lemma_resource_strips_one_slash(
    method: Seq<char>,
    path: Seq<char>,
    rest: Seq<char>,
    tail: Seq<char>,
)
    requires
        method == "GET"@ || method == "POST"@,
        !path.contains(' '),
        find(method + space() + seq!['/'] + path + space() + rest, crlf()) is None,
    ensures
        resource_of(method + space() + seq!['/'] + path + space() + rest + crlf() + tail) == Some(
            trim(path),
        ),
{
    let target = seq!['/'] + path;
    let line = method + space() + seq!['/'] + path + space() + rest;
    let after_method = target + space() + rest;
    lemma_request_line(line, tail);
    reveal_strlit("GET");
    reveal_strlit("POST");
    assert(!method.contains(' '));
    lemma_split_once_at_char(method, ' ', after_method);
    assert(line =~= method + space() + after_method);
    assert(!target.contains(' ')) by {
        if target.contains(' ') {
            let i = choose|i: int| 0 <= i < target.len() && target[i] == ' ';
            assert(path[i - 1] == ' ');
        }
    }
    lemma_split_once_at_char(target, ' ', rest);
    assert(strip_slash(target) =~= path);
}

/// `text` holds no blank line, and none begins at its end where a line
/// terminator follows it.
pub open spec fn ends_before_blank_line(text: Seq<char>) -> bool {
    forall|j: int| !occurs_at(text + crlf(), blank_line(), j)
}

/// What stands before the first blank line of a text holds no blank line.
pub proof fn lemma_head_ends_before_blank_line(request: Seq<char>, end: int)
    requires
        first_at(request, blank_line(), end),
    ensures
        ends_before_blank_line(request.take(end)),
{
    let head = request.take(end);
    let window = request.subrange(end, end + 4);
    assert(window[0] == '\r' && window[1] == '\n');
    assert(head + crlf() =~= request.take(end + 2));
    assert forall|j: int| !occurs_at(head + crlf(), blank_line(), j) by {
        if occurs_at(head + crlf(), blank_line(), j) {
            assert(request.subrange(j, j + 4) =~= (head + crlf()).subrange(j, j + 4));
            assert(occurs_at(request, blank_line(), j));
        }
    }
}

/// In a text without blank line, what follows the first line terminator is
/// not empty, does not begin with a line terminator, and holds no blank
/// line either.
pub proof fn lemma_after_line(text: Seq<char>, at: int)
    requires
        ends_before_blank_line(text),
        first_at(text, crlf(), at),
    ensures
        text.skip(at + 2).len() > 0,
        !occurs_at(text.skip(at + 2), crlf(), 0),
        ends_before_blank_line(text.skip(at + 2)),
{
    let rest = text.skip(at + 2);
    let here = text.subrange(at, at + 2);
    assert(here[0] == '\r' && here[1] == '\n');
    if rest.len() == 0 {
        assert((text + crlf()).subrange(at, at + 4) =~= blank_line());
        assert(occurs_at(text + crlf(), blank_line(), at));
    }
    if occurs_at(rest, crlf(), 0) {
        let next = rest.subrange(0, 2);
        assert(next[0] == '\r' && next[1] == '\n');
        assert((text + crlf()).subrange(at, at + 4) =~= blank_line());
        assert(occurs_at(text + crlf(), blank_line(), at));
    }
    assert forall|j: int| !occurs_at(rest + crlf(), blank_line(), j) by {
        if occurs_at(rest + crlf(), blank_line(), j) {
            let k = at + 2 + j;
            assert((text + crlf()).subrange(k, k + 4) =~= (rest + crlf()).subrange(j, j + 4));
            assert(occurs_at(text + crlf(), blank_line(), k));
        }
    }
}

/// A text without blank line that is not empty and does not begin with a
/// line terminator has no empty line.
pub proof fn lemma_no_empty_line(text: Seq<char>)
    requires
        ends_before_blank_line(text),
        text.len() > 0,
        !occurs_at(text, crlf(), 0),
    ensures
        forall|k: int|
            0 <= k < split(text, crlf()).len() ==> (#[trigger] split(text, crlf())[k]).len() > 0,
    decreases text.len(),
{
    lemma_find(text, crlf());
    match find(text, crlf()) {
        Some(at) => {
            let rest = text.skip(at + 2);
            let lines = split(text, crlf());
            lemma_after_line(text, at);
            lemma_no_empty_line(rest);
            assert(lines == seq![text.take(at)] + split(rest, crlf()));
            assert forall|k: int| 0 <= k < lines.len() implies (#[trigger] lines[k]).len() > 0 by {
                if k > 0 {
                    assert(lines[k] == split(rest, crlf())[k - 1]);
                }
            }
        },
        None => {},
    }
}

/// No line of a header block is empty: the block ends where the first
/// blank line begins.
pub proof fn lemma_header_lines_not_empty(request: Seq<char>)
    requires
        header_lines(request) is Some,
    ensures
        forall|k: int|
            0 <= k < header_lines(request)->0.len() ==> (#[trigger] header_lines(
                request,
            )->0[k]).len() > 0,
{
    lemma_find(request, blank_line());
    let end = find(request, blank_line())->0;
    let head = request.take(end);
    lemma_head_ends_before_blank_line(request, end);
    lemma_find(head, crlf());
    match find(head, crlf()) {
        Some(at) => {
            let rest = head.skip(at + 2);
            lemma_after_line(head, at);
            lemma_no_empty_line(rest);
            assert(split(head, crlf()).drop_first() =~= split(rest, crlf()));
        },
        None => {},
    }
}

/// The name that line `k` of `lines` gives.
pub open spec fn name_at(lines: Seq<Seq<char>>, k: int) -> Seq<char> {
    match header_of_line(lines[k]) {
        Some((name, _)) => name,
        None => Seq::empty(),
    }
}

/// The value that line `k` of `lines` gives.
pub open spec fn value_at(lines: Seq<Seq<char>>, k: int) -> Seq<char> {
    match header_of_line(lines[k]) {
        Some((_, value)) => value,
        None => Seq::empty(),
    }
}

/// Lines that are not empty and hold a colon each are all collected: the
/// result holds what was found before and one entry for each name, with
/// the value of the last line of that name.
pub proof fn lemma_collect_all(lines: Seq<Seq<char>>, found: Map<Seq<char>, Seq<char>>)
    requires
        forall|k: int| 0 <= k < lines.len() ==> (#[trigger] lines[k]).len() > 0,
        forall|k: int| 0 <= k < lines.len() ==> header_of_line(#[trigger] lines[k]) is Some,
    ensures
        collect_headers(lines, found) is Some,
        forall|name: Seq<char>| #[trigger]
            collect_headers(lines, found)->0.contains_key(name) <==> found.contains_key(name) || (
            exists|k: int| 0 <= k < lines.len() && #[trigger] name_at(lines, k) == name),
        forall|k: int|
            0 <= k < lines.len() && (forall|j: int|
                k < j < lines.len() ==> #[trigger] name_at(lines, j) != name_at(lines, k))
                ==> collect_headers(lines, found)->0[#[trigger] name_at(lines, k)] == value_at(
                lines,
                k,
            ),
        forall|name: Seq<char>|
            (forall|k: int| 0 <= k < lines.len() ==> #[trigger] name_at(lines, k) != name)
                ==> #[trigger] collect_headers(lines, found)->0[name] == found[name],
    decreases lines.len(),
{
    if lines.len() > 0 {
        let rest = lines.drop_first();
        let next = found.insert(name_at(lines, 0), value_at(lines, 0));
        assert(lines[0].len() > 0);
        assert(header_of_line(lines[0]) is Some);
        assert forall|k: int| 0 <= k < rest.len() implies (#[trigger] rest[k]).len() > 0
            && header_of_line(rest[k]) is Some by {
            assert(rest[k] == lines[k + 1]);
        }
        lemma_collect_all(rest, next);
        let all = collect_headers(lines, found)->0;
        assert(collect_headers(lines, found) == collect_headers(rest, next));
        assert forall|k: int| 0 <= k < rest.len() implies name_at(rest, k) == name_at(lines, k + 1)
            && value_at(rest, k) == value_at(lines, k + 1) by {
            assert(rest[k] == lines[k + 1]);
        }
        assert forall|name: Seq<char>| #[trigger]
            all.contains_key(name) <==> found.contains_key(name) || (exists|k: int|
                0 <= k < lines.len() && #[trigger] name_at(lines, k) == name) by {
            if all.contains_key(name) && !found.contains_key(name) {
                if next.contains_key(name) {
                    assert(name_at(lines, 0) == name);
                } else {
                    let k = choose|k: int|
                        0 <= k < rest.len() && #[trigger] name_at(rest, k) == name;
                    assert(name_at(lines, k + 1) == name);
                }
            }
            if exists|k: int| 0 <= k < lines.len() && #[trigger] name_at(lines, k) == name {
                let k = choose|k: int| 0 <= k < lines.len() && #[trigger] name_at(lines, k) == name;
                if k > 0 {
                    assert(name_at(rest, k - 1) == name);
                }
            }
        }
        assert forall|k: int|
            0 <= k < lines.len() && (forall|j: int|
                k < j < lines.len() ==> #[trigger] name_at(lines, j) != name_at(
                    lines,
                    k,
                )) implies all[#[trigger] name_at(lines, k)] == value_at(lines, k) by {
            if k == 0 {
                assert forall|j: int| 0 <= j < rest.len() implies #[trigger] name_at(rest, j)
                    != name_at(lines, 0) by {
                    assert(name_at(lines, j + 1) != name_at(lines, 0));
                }
            } else {
                assert forall|j: int| k - 1 < j < rest.len() implies #[trigger] name_at(rest, j)
                    != name_at(rest, k - 1) by {
                    assert(name_at(lines, j + 1) != name_at(lines, k));
                }
                assert(name_at(rest, k - 1) == name_at(lines, k));
            }
        }
        assert forall|name: Seq<char>|
            (forall|k: int| 0 <= k < lines.len() ==> #[trigger] name_at(lines, k) != name)
            implies #[trigger] all[name] == found[name] by {
            assert(name_at(lines, 0) != name);
            assert forall|j: int| 0 <= j < rest.len() implies #[trigger] name_at(rest, j)
                != name by {
                assert(name_at(lines, j + 1) != name);
            }
        }
    }
}

/// Among lines that are not empty, one without colon leaves nothing
/// collected.
pub proof fn lemma_collect_none(lines: Seq<Seq<char>>, found: Map<Seq<char>, Seq<char>>, k: int)
    requires
        forall|i: int| 0 <= i < lines.len() ==> (#[trigger] lines[i]).len() > 0,
        0 <= k < lines.len(),
        header_of_line(lines[k]) is None,
    ensures
        collect_headers(lines, found) is None,
    decreases k,
{
    assert(lines[0].len() > 0);
    if k > 0 && header_of_line(lines[0]) is Some {
        let rest = lines.drop_first();
        assert forall|i: int| 0 <= i < rest.len() implies (#[trigger] rest[i]).len() > 0 by {
            assert(rest[i] == lines[i + 1]);
        }
        assert(rest[k - 1] == lines[k]);
        lemma_collect_none(rest, found.insert(name_at(lines, 0), value_at(lines, 0)), k - 1);
    }
}

/// Where each line of the header block holds a colon, each line gives a
/// header: the headers are exactly the names that the lines give, each with
/// the value of the last line of that name.
pub proof fn lemma_each_header_line_counts(request: Seq<char>, lines: Seq<Seq<char>>)
    requires
        header_lines(request) == Some(lines),
        forall|k: int| 0 <= k < lines.len() ==> header_of_line(#[trigger] lines[k]) is Some,
    ensures
        headers_of(request) is Some,
        forall|name: Seq<char>| #[trigger]
            headers_of(request)->0.contains_key(name) <==> (exists|k: int|
                0 <= k < lines.len() && #[trigger] name_at(lines, k) == name),
        forall|k: int|
            0 <= k < lines.len() && (forall|j: int|
                k < j < lines.len() ==> #[trigger] name_at(lines, j) != name_at(lines, k))
                ==> headers_of(request)->0[#[trigger] name_at(lines, k)] == value_at(lines, k),
{
    lemma_header_lines_not_empty(request);
    lemma_collect_all(lines, Map::empty());
}

/// Where a line of the header block holds no colon, the request has no
/// headers at all.
pub proof fn lemma_colonless_line_drops_headers(request: Seq<char>, lines: Seq<Seq<char>>, k: int)
    requires
        header_lines(request) == Some(lines),
        0 <= k < lines.len(),
        header_of_line(lines[k]) is None,
    ensures
        headers_of(request) is None,
        parse(request) is Some ==> parse(request)->0.headers == Map::<
            Seq<char>,
            Seq<char>,
        >::empty(),
{
    lemma_header_lines_not_empty(request);
    lemma_collect_none(lines, Map::empty(), k);
}

} // verus!
