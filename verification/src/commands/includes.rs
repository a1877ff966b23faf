//! The include-directive grammar of Lua command scripts and the text
//! scanning that locates directives: lines, first occurrences, byte offsets.
use vstd::prelude::*;

use crate::text::{chars_of, occurs_at, matches_at, string_from, sub_chars};
use crate::utils::{last_index_of, rfind_char};
use super::script_loader::{first_index_of, find_char, placeholder_text};

verus! {

/// Number of leading `-` characters of `s`.
pub open spec fn dash_run(s: Seq<char>) -> nat
    decreases s.len(),
{
    if s.len() > 0 && s[0] == '-' {
        1 + dash_run(s.skip(1))
    } else {
        0
    }
}

pub open spec fn is_blank(c: char) -> bool {
    c == ' ' || c == '\t'
}

/// Number of leading spaces and tabs of `s`.
pub open spec fn blank_run(s: Seq<char>) -> nat
    decreases s.len(),
{
    if s.len() > 0 && is_blank(s[0]) {
        1 + blank_run(s.skip(1))
    } else {
        0
    }
}

/// Characters allowed after the closing quote of a directive.
pub open spec fn is_trailer(c: char) -> bool {
    c == ' ' || c == '\t' || c == '\n' || c == ';'
}

pub open spec fn include_keyword() -> Seq<char> {
    seq!['@', 'i', 'n', 'c', 'l', 'u', 'd', 'e']
}

/// The path an include directive line names, if the line is one:
/// two or three dashes, optional blanks, `@include`, at least one blank, a
/// single- or double-quoted path, then only blanks and `;` — the lines that
/// `^[-]{2,3}[ \t]*@include[ \t]+(['"]).*?\1[ \t\n;]*$` matches, the path
/// running from the opening quote to the last matching quote.
pub open spec fn include_target(line: Seq<char>) -> Option<Seq<char>> {
    let n1 = dash_run(line);
    let r1 = line.skip(n1 as int);
    let r2 = r1.skip(blank_run(r1) as int);
    let r3 = r2.skip(8);
    let n3 = blank_run(r3);
    if (n1 == 2 || n1 == 3) && r2.len() >= 8 && r2.take(8) == include_keyword() && n3 > 0 && n3
        < r3.len() && (r3[n3 as int] == '\'' || r3[n3 as int] == '"') {
        let tail = r3.skip(n3 as int + 1);
        match last_index_of(tail, r3[n3 as int]) {
            Some(j) => if forall|k: int| j < k < tail.len() ==> is_trailer(#[trigger] tail[k]) {
                Some(tail.take(j))
            } else {
                None
            },
            None => None,
        }
    } else {
        None
    }
}

/// What follows the opening quote of a line that starts as a single-quoted
/// directive decides whether it is one.
proof fn lemma_single_quoted_directive(rest: Seq<char>)
    ensures
        include_target(seq!['-', '-', ' ', '@', 'i', 'n', 'c', 'l', 'u', 'd', 'e', ' ', '\''] + rest)
            == match last_index_of(rest, '\'') {
            Some(j) => if forall|k: int| j < k < rest.len() ==> is_trailer(#[trigger] rest[k]) {
                Some(rest.take(j))
            } else {
                None
            },
            None => None,
        },
{
    let line = seq!['-', '-', ' ', '@', 'i', 'n', 'c', 'l', 'u', 'd', 'e', ' ', '\''] + rest;
    lemma_dash_run(line, 2);
    let r1 = line.skip(2);
    lemma_blank_run(r1, 1);
    let r2 = r1.skip(1);
    assert(r2.take(8) =~= include_keyword());
    let r3 = r2.skip(8);
    assert(r3[0] == ' ' && r3[1] == '\'');
    lemma_blank_run(r3, 1);
    assert(r3.skip(2) =~= rest);
}

/// The last quote of `path` followed by `tail` is the first character of
/// `tail` when it is the only quote there.
proof fn lemma_last_quote_starts_tail(path: Seq<char>, tail: Seq<char>)
    requires
        tail.len() > 0,
        tail[0] == '\'',
        forall|i: int| 0 < i < tail.len() ==> tail[i] != '\'',
    ensures
        last_index_of(path + tail, '\'') == Some(path.len() as int),
{
    let rest = path + tail;
    let q = path.len() as int;
    assert(rest[q] == '\'');
    let j = choose|i: int| 0 <= i < rest.len() && rest[i] == '\'' && forall|m: int| i < m < rest.len() ==> rest[m] != '\'';
    assert(j == q) by {
        if j < q {
            assert(rest[q] != '\'');
        }
        if j > q {
            assert(rest[j] == tail[j - q]);
        }
    }
}

/// The placeholder left where a file is included a second time is not itself
/// an include directive, whatever path it names: scanning the text again
/// includes nothing more.
#[verifier::spinoff_prover]
pub proof fn law_placeholder_is_not_a_directive(path: Seq<char>)
    ensures
        include_target(placeholder_text(path)) is None,
{
    let head = seq!['-', '-', ' ', '@', 'i', 'n', 'c', 'l', 'u', 'd', 'e', ' ', '\''];
    let trailer = seq!['\'', ' ', '(', 'a', 'l', 'r', 'e', 'a', 'd', 'y', ' ', 'i', 'n', 'c', 'l', 'u', 'd', 'e', 'd', ')'];
    assert("-- @include '"@ == head) by {
        reveal_strlit("-- @include '");
    }
    assert("' (already included)"@ == trailer) by {
        reveal_strlit("' (already included)");
    }
    let rest = path + trailer;
    assert(placeholder_text(path) =~= head + rest);
    lemma_single_quoted_directive(rest);
    lemma_last_quote_starts_tail(path, trailer);
    let q = path.len() as int;
    assert(rest[q + 2] == trailer[2]);
    assert(!is_trailer(rest[q + 2]));
}

proof fn lemma_dash_run(s: Seq<char>, i: int)
    requires
        0 <= i <= s.len(),
        forall|k: int| 0 <= k < i ==> s[k] == '-',
        i == s.len() || s[i] != '-',
    ensures
        dash_run(s) == i,
    decreases i,
{
    if i > 0 {
        lemma_dash_run(s.skip(1), i - 1);
    }
}

proof fn lemma_blank_run(s: Seq<char>, i: int)
    requires
        0 <= i <= s.len(),
        forall|k: int| 0 <= k < i ==> is_blank(s[k]),
        i == s.len() || !is_blank(s[i]),
    ensures
        blank_run(s) == i,
    decreases i,
{
    if i > 0 {
        lemma_blank_run(s.skip(1), i - 1);
    }
}

/// The index after the blanks of `s` that start at `from`.
fn skip_blanks(s: &Vec<char>, from: usize) -> (i: usize)
    requires
        from <= s@.len(),
    ensures
        from <= i <= s@.len(),
        blank_run(s@.skip(from as int)) == i - from,
{
    let mut i = from;
    while i < s.len() && (s[i] == ' ' || s[i] == '\t')
        invariant
            from <= i <= s@.len(),
            forall|k: int| from <= k < i ==> is_blank(s@[k]),
        decreases s@.len() - i,
    {
        i = i + 1;
    }
    proof {
        lemma_blank_run(s@.skip(from as int), i - from);
    }
    i
}

/// Parses an include directive line, giving the path it names.
#[verifier::rlimit(40)]
pub fn parse_include_directive(line: &Vec<char>) -> (r: Option<Vec<char>>)
    ensures
        match include_target(line@) {
            Some(p) => r matches Some(v) && v@ == p,
            None => r is None,
        },
{
    let n = line.len();
    let mut i: usize = 0;
    while i < n && line[i] == '-'
        invariant
            n == line@.len(),
            i <= n,
            forall|k: int| 0 <= k < i ==> line@[k] == '-',
        decreases n - i,
    {
        i = i + 1;
    }
    proof {
        lemma_dash_run(line@, i as int);
    }
    let ghost r1 = line@.skip(i as int);
    if !(i == 2 || i == 3) {
        return None;
    }
    let j = skip_blanks(line, i);
    let ghost r2 = r1.skip(blank_run(r1) as int);
    assert(r2 == line@.skip(j as int));
    let keyword: Vec<char> = vec!['@', 'i', 'n', 'c', 'l', 'u', 'd', 'e'];
    if !matches_at(line, &keyword, j) {
        proof {
            if r2.len() >= 8 && r2.take(8) == include_keyword() {
                assert(line@.subrange(j as int, j + 8) == r2.take(8));
            }
        }
        return None;
    }
    assert(r2.take(8) == line@.subrange(j as int, j + 8));
    let k = j + 8;
    let ghost r3 = r2.skip(8);
    assert(r3 == line@.skip(k as int));
    let m = skip_blanks(line, k);
    if m == k || m >= n {
        return None;
    }
    let q = line[m];
    if !(q == '\'' || q == '"') {
        return None;
    }
    assert(r3[m - k] == q);
    let tail = sub_chars(line, m + 1, n);
    assert(tail@ == r3.skip(m - k + 1));
    match rfind_char(&tail, q) {
        None => None,
        Some(close) => {
            if !trailers_after(&tail, close) {
                return None;
            }
            let body = sub_chars(&tail, 0, close);
            assert(body@ == tail@.take(close as int));
            Some(body)
        },
    }
}

proof fn lemma_first_index_exists(s: Seq<char>, c: char, i: int)
    requires
        0 <= i < s.len(),
        s[i] == c,
    ensures
        exists|m: int| 0 <= m < s.len() && s[m] == c && forall|j: int| 0 <= j < m ==> s[j] != c,
    decreases i,
{
    if exists|j: int| 0 <= j < i && s[j] == c {
        let j = choose|j: int| 0 <= j < i && s[j] == c;
        lemma_first_index_exists(s, c, j);
    } else {
        assert(forall|j: int| 0 <= j < i ==> s[j] != c);
    }
}

pub proof fn lemma_first_index_bounds(s: Seq<char>, c: char)
    ensures
        first_index_of(s, c) matches Some(i) ==> 0 <= i < s.len() && s[i] == c && forall|j: int|
            0 <= j < i ==> s[j] != c,
        first_index_of(s, c) is None ==> forall|j: int| 0 <= j < s.len() ==> s[j] != c,
{
    if exists|i: int| 0 <= i < s.len() && s[i] == c {
        let i = choose|i: int| 0 <= i < s.len() && s[i] == c;
        lemma_first_index_exists(s, c, i);
    }
}

proof fn lemma_lines_step(s: Seq<char>, start: int, e: int)
    requires
        0 <= start <= e < s.len(),
        first_index_of(s.skip(start), '\n') == Some(e - start),
    ensures
        lines_of(s.skip(start)) == seq![strip_cr(s.subrange(start, e))] + lines_of(s.skip(e + 1)),
{
    let rest = s.skip(start);
    let i = e - start;
    assert(rest.len() > 0);
    assert(s.subrange(start, e) == rest.take(i));
    assert(rest.skip(i + 1) == s.skip(e + 1));
    assert(lines_of(rest) == seq![strip_cr(rest.take(i))] + lines_of(rest.skip(i + 1))) by {
        reveal(lines_of);
    }
}

proof fn lemma_lines_last(s: Seq<char>)
    requires
        s.len() > 0,
        first_index_of(s, '\n') is None,
    ensures
        lines_of(s) == seq![s],
{
    reveal(lines_of);
}

proof fn lemma_lines_empty()
    ensures
        lines_of(Seq::<char>::empty()) == Seq::<Seq<char>>::empty(),
{
    reveal(lines_of);
}

/// The line of `s` from `start` up to the line break at `e`, without a final `\r`.
fn line_between(s: &Vec<char>, start: usize, e: usize) -> (line: Vec<char>)
    requires
        start <= e <= s@.len(),
    ensures
        line@ == strip_cr(s@.subrange(start as int, e as int)),
{
    let mut line = sub_chars(s, start, e);
    if line.len() > 0 && line[line.len() - 1] == '\r' {
        line.pop();
    }
    line
}

proof fn lemma_views_push(v: Seq<Vec<char>>, x: Vec<char>, tail: Seq<Seq<char>>)
    ensures
        views(v.push(x)) + tail == views(v) + (seq![x@] + tail),
{
    assert(views(v.push(x)) == views(v).push(x@));
}

/// Whether every character of `v` after index `close` is a trailer.
fn trailers_after(v: &Vec<char>, close: usize) -> (b: bool)
    requires
        close < v@.len(),
    ensures
        b == forall|x: int| close < x < v@.len() ==> is_trailer(#[trigger] v@[x]),
{
    let n = v.len();
    let mut t = close + 1;
    while t < n
        invariant
            n == v@.len(),
            close < t <= n,
            forall|x: int| close < x < t ==> is_trailer(#[trigger] v@[x]),
        decreases n - t,
    {
        let c = v[t];
        if !(c == ' ' || c == '\t' || c == '\n' || c == ';') {
            assert(!is_trailer(v@[t as int]));
            return false;
        }
        t = t + 1;
    }
    true
}

/// The first position of `c` in `s` at or after `from`, as an index into `s`.
fn find_char_from(s: &Vec<char>, c: char, from: usize) -> (r: Option<usize>)
    requires
        from <= s@.len(),
    ensures
        match first_index_of(s@.skip(from as int), c) {
            Some(i) => r == Some((from + i) as usize),
            None => r is None,
        },
{
    let mut i = from;
    while i < s.len()
        invariant
            from <= i <= s@.len(),
            forall|j: int| from <= j < i ==> s@[j] != c,
        decreases s@.len() - i,
    {
        if s[i] == c {
            proof {
                let t = s@.skip(from as int);
                lemma_first_index_bounds(t, c);
                assert(t[i - from] == c);
                let w = first_index_of(t, c)->0;
                assert(w == i - from) by {
                    if w < i - from {
                        assert(t[w] == s@[from + w]);
                    }
                    if w > i - from {
                        assert(t[i - from] != c);
                    }
                }
            }
            return Some(i);
        }
        i = i + 1;
    }
    proof {
        let t = s@.skip(from as int);
        lemma_first_index_bounds(t, c);
        if first_index_of(t, c) is Some {
            let w = first_index_of(t, c)->0;
            assert(t[w] == s@[from + w]);
        }
    }
    None
}

/// `l` without one trailing carriage return.
pub open spec fn strip_cr(l: Seq<char>) -> Seq<char> {
    if l.len() > 0 && l.last() == '\r' {
        l.drop_last()
    } else {
        l
    }
}

/// The lines of `s` as `str::lines` gives them: split at each `\n`, a `\r`
/// before the `\n` dropped, no final empty line after a trailing `\n`.
#[verifier::opaque]
pub open spec fn lines_of(s: Seq<char>) -> Seq<Seq<char>>
    decreases s.len(),
{
    if s.len() == 0 {
        Seq::empty()
    } else {
        match first_index_of(s, '\n') {
            Some(i) => {
                proof {
                    lemma_first_index_bounds(s, '\n');
                }
                seq![strip_cr(s.take(i))] + lines_of(s.skip(i + 1))
            },
            None => seq![s],
        }
    }
}

/// The views of a vector of character vectors.
pub open spec fn views(v: Seq<Vec<char>>) -> Seq<Seq<char>> {
    v.map_values(|x: Vec<char>| x@)
}

/// Splits `s` into lines, as `str::lines` does.
pub fn split_lines(s: &Vec<char>) -> (out: Vec<Vec<char>>)
    ensures
        views(out@) == lines_of(s@),
{
    let mut out: Vec<Vec<char>> = Vec::new();
    let mut start: usize = 0;
    assert(s@.skip(0) == s@);
    while start < s.len()
        invariant
            start <= s@.len(),
            views(out@) + lines_of(s@.skip(start as int)) == lines_of(s@),
        decreases s@.len() - start,
    {
        let ghost rest = s@.skip(start as int);
        match find_char_from(s, '\n', start) {
            Some(e) => {
                proof {
                    lemma_first_index_bounds(rest, '\n');
                }
                let line = line_between(s, start, e);
                proof {
                    lemma_lines_step(s@, start as int, e as int);
                    lemma_views_push(out@, line, lines_of(s@.skip(e + 1)));
                }
                out.push(line);
                start = e + 1;
            },
            None => {
                let line = sub_chars(s, start, s.len());
                proof {
                    assert(line@ == rest);
                    lemma_lines_last(rest);
                    lemma_views_push(out@, line, Seq::<Seq<char>>::empty());
                    assert(s@.skip(s@.len() as int) == Seq::<char>::empty());
                    lemma_lines_empty();
                    assert(seq![rest] + Seq::<Seq<char>>::empty() == seq![rest]);
                }
                out.push(line);
                start = s.len();
            },
        }
    }
    proof {
        assert(s@.skip(start as int) == Seq::<char>::empty());
        lemma_lines_empty();
        assert(views(out@) + Seq::<Seq<char>>::empty() == views(out@));
    }
    out
}

/// Number of UTF-8 bytes that encode `c`.
pub open spec fn char_width(c: char) -> nat {
    if (c as u32) < 0x80 {
        1
    } else if (c as u32) < 0x800 {
        2
    } else if (c as u32) < 0x10000 {
        3
    } else {
        4
    }
}

/// Number of UTF-8 bytes that encode `s`.
pub open spec fn utf8_len(s: Seq<char>) -> nat
    decreases s.len(),
{
    if s.len() == 0 {
        0
    } else {
        utf8_len(s.drop_last()) + char_width(s.last())
    }
}

/// `n`, or the largest `usize` if `n` is larger.
pub open spec fn cap_usize(n: nat) -> nat {
    if n > usize::MAX {
        usize::MAX as nat
    } else {
        n
    }
}

/// The first index, at `i` or later, where `needle` occurs in `hay`.
pub open spec fn first_occurrence_from(hay: Seq<char>, needle: Seq<char>, i: int) -> Option<int>
    decreases hay.len() + 1 - i,
{
    if i < 0 || i > hay.len() {
        None
    } else if occurs_at(hay, needle, i) {
        Some(i)
    } else {
        first_occurrence_from(hay, needle, i + 1)
    }
}

/// The byte offset at which `str::find` finds `needle` in `hay`, or 0 when
/// it is absent (offsets beyond the largest `usize` read as that value).
pub open spec fn find_position(hay: Seq<char>, needle: Seq<char>) -> nat {
    match first_occurrence_from(hay, needle, 0) {
        Some(i) => cap_usize(utf8_len(hay.take(i))),
        None => 0,
    }
}

fn width_of(c: char) -> (w: usize)
    ensures
        w == char_width(c),
{
    let v = c as u32;
    if v < 0x80 {
        1
    } else if v < 0x800 {
        2
    } else if v < 0x10000 {
        3
    } else {
        4
    }
}

proof fn lemma_occurrence_after(hay: Seq<char>, needle: Seq<char>, i: int)
    requires
        0 <= i <= hay.len() + 1,
        forall|j: int| 0 <= j < i ==> !occurs_at(hay, needle, j),
    ensures
        first_occurrence_from(hay, needle, 0) == first_occurrence_from(hay, needle, i),
    decreases i,
{
    if i > 0 {
        lemma_occurrence_after(hay, needle, i - 1);
    }
}

/// The byte offset of the first occurrence of `needle` in `hay`, or 0.
pub fn find_byte_position(hay: &Vec<char>, needle: &Vec<char>) -> (pos: usize)
    ensures
        pos == find_position(hay@, needle@),
{
    let n = hay.len();
    let mut i: usize = 0;
    let mut bytes: usize = 0;
    assert(hay@.take(0) == Seq::<char>::empty());
    loop
        invariant
            n == hay@.len(),
            i <= n,
            bytes == cap_usize(utf8_len(hay@.take(i as int))),
            forall|j: int| 0 <= j < i ==> !occurs_at(hay@, needle@, j),
        decreases n - i,
    {
        if matches_at(hay, needle, i) {
            proof {
                lemma_occurrence_after(hay@, needle@, i as int);
            }
            return bytes;
        }
        if i == n {
            proof {
                lemma_occurrence_after(hay@, needle@, i + 1);
            }
            return 0;
        }
        let w = width_of(hay[i]);
        proof {
            assert(hay@.take(i + 1).drop_last() == hay@.take(i as int));
            assert(hay@.take(i + 1).last() == hay@[i as int]);
        }
        bytes = if bytes > usize::MAX - w {
            usize::MAX
        } else {
            bytes + w
        };
        i = i + 1;
    }
}

proof fn lemma_utf8_len_grows(s: Seq<char>, i: int, j: int)
    requires
        0 <= i < j <= s.len(),
    ensures
        utf8_len(s.take(i)) < utf8_len(s.take(j)),
    decreases j - i,
{
    assert(s.take(j).drop_last() == s.take(j - 1));
    if i < j - 1 {
        lemma_utf8_len_grows(s, i, j - 1);
    }
}

/// The character index at which byte offset `b` of `s` falls on a character
/// boundary, if it does.
pub open spec fn boundary_index(s: Seq<char>, b: nat) -> Option<int> {
    if exists|k: int| 0 <= k <= s.len() && utf8_len(s.take(k)) == b {
        Some(choose|k: int| 0 <= k <= s.len() && utf8_len(s.take(k)) == b)
    } else {
        None
    }
}

/// The characters of `s` between byte offsets `from` and `to`, as `&s[from..to]`
/// gives them; `None` where that slice would panic (an offset past the end
/// or off a character boundary, or `from > to`).
pub open spec fn byte_slice(s: Seq<char>, from: nat, to: nat) -> Option<Seq<char>> {
    if from <= to && boundary_index(s, from) is Some && boundary_index(s, to) is Some {
        Some(s.subrange(boundary_index(s, from)->0, boundary_index(s, to)->0))
    } else {
        None
    }
}

/// The character index of byte offset `b` in `s`, if it is a boundary.
fn char_index_of_byte(s: &Vec<char>, b: usize) -> (r: Option<usize>)
    ensures
        r matches Some(k) ==> k <= s@.len() && utf8_len(s@.take(k as int)) == b && boundary_index(
            s@,
            b as nat,
        ) == Some(k as int),
        r is None ==> boundary_index(s@, b as nat) is None,
{
    let n = s.len();
    let mut k: usize = 0;
    let mut bytes: usize = 0;
    assert(s@.take(0) == Seq::<char>::empty());
    loop
        invariant
            n == s@.len(),
            k <= n,
            bytes == utf8_len(s@.take(k as int)),
            bytes <= b,
            forall|j: int| 0 <= j < k ==> utf8_len(s@.take(j)) != b,
        decreases n - k,
    {
        if bytes == b {
            proof {
                let c = choose|c: int| 0 <= c <= s@.len() && utf8_len(s@.take(c)) == b;
                assert(c == k) by {
                    if c < k {
                        lemma_utf8_len_grows(s@, c, k as int);
                    }
                    if c > k {
                        lemma_utf8_len_grows(s@, k as int, c);
                    }
                }
            }
            return Some(k);
        }
        if k == n {
            proof {
                assert forall|c: int| 0 <= c <= s@.len() implies utf8_len(s@.take(c)) != b by {
                    if c < k {
                    }
                }
            }
            return None;
        }
        let w = width_of(s[k]);
        proof {
            assert(s@.take(k + 1).drop_last() == s@.take(k as int));
            assert(s@.take(k + 1).last() == s@[k as int]);
        }
        if w > b - bytes {
            proof {
                assert forall|c: int| 0 <= c <= s@.len() implies utf8_len(s@.take(c)) != b by {
                    if c > k {
                        if c > k + 1 {
                            lemma_utf8_len_grows(s@, k + 1, c);
                        }
                    }
                }
            }
            return None;
        }
        bytes = bytes + w;
        k = k + 1;
    }
}

/// The characters of `s` between byte offsets `from` and `to`, if that
/// slice is valid.
pub fn slice_bytes(s: &Vec<char>, from: usize, to: usize) -> (r: Option<Vec<char>>)
    ensures
        match byte_slice(s@, from as nat, to as nat) {
            Some(t) => r matches Some(v) && v@ == t,
            None => r is None,
        },
{
    let a = char_index_of_byte(s, from);
    let b = char_index_of_byte(s, to);
    match (a, b) {
        (Some(a), Some(b)) => {
            if from <= to {
                proof {
                    if a > b {
                        lemma_utf8_len_grows(s@, b as int, a as int);
                    }
                }
                Some(sub_chars(s, a, b))
            } else {
                None
            }
        },
        _ => None,
    }
}

/// The byte length of `s`, capped at the largest `usize`.
pub fn utf8_length(s: &Vec<char>) -> (n: usize)
    ensures
        n == cap_usize(utf8_len(s@)),
{
    let mut i: usize = 0;
    let mut bytes: usize = 0;
    assert(s@.take(0) == Seq::<char>::empty());
    while i < s.len()
        invariant
            i <= s@.len(),
            bytes == cap_usize(utf8_len(s@.take(i as int))),
        decreases s@.len() - i,
    {
        let w = width_of(s[i]);
        proof {
            assert(s@.take(i + 1).drop_last() == s@.take(i as int));
            assert(s@.take(i + 1).last() == s@[i as int]);
        }
        bytes = if bytes > usize::MAX - w {
            usize::MAX
        } else {
            bytes + w
        };
        i = i + 1;
    }
    assert(s@.take(s@.len() as int) == s@);
    bytes
}

} // verus!
