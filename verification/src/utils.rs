use vstd::prelude::*;

use crate::text::{
    chars_of, hex_lower, hex_string, law_replacing_absent_pattern_is_identity,
    law_replacing_pattern_by_itself_is_identity, occurs_at, replace_chars, replaced, string_from, sub_chars, sub_string,
};

verus! {

/// The SHA-1 digest of the UTF-8 bytes of a string.
pub uninterp spec fn sha1_digest_of(data: Seq<char>) -> Seq<u8>;

/// Computes `sha1::Sha1` over the UTF-8 bytes of `data` (`Digest::new`,
/// `update`, `finalize`). The contract names the digest and states its
/// 20-byte length, which the crate fixes in the output type.
#[verifier::external_body]
fn sha1_digest(data: &str) -> (d: Vec<u8>)
    ensures
        d@ == sha1_digest_of(data@),
        d@.len() == 20,
{
    let mut hasher = <sha1::Sha1 as sha1::Digest>::new();
    sha1::Digest::update(&mut hasher, data.as_bytes());
    sha1::Digest::finalize(hasher).to_vec()
}

/// Gets the SHA1 hash for a given string, as 40 lower-case hex digits
pub fn sha1_hex(data: &str) -> (h: String)
    ensures
        h@ == hex_lower(sha1_digest_of(data@)),
{
    let digest = sha1_digest(data);
    hex_string(digest.as_slice())
}

/// Gets the hash for a path: `@@` followed by the SHA-1 hex digest
pub fn get_path_hash(normalized_path: &str) -> (h: String)
    ensures
        h@ == "@@"@ + hex_lower(sha1_digest_of(normalized_path@)),
{
    let mut h = "@@".to_owned();
    let hex = sha1_hex(normalized_path);
    h.append(hex.as_str());
    h
}

/// What `std::path::Path::extension` finds in a path, if anything.
pub uninterp spec fn path_extension(path: Seq<char>) -> Option<Seq<char>>;

/// The extension of `path` by `std::path::Path::extension`, as a string.
#[verifier::external_body]
pub(crate) fn path_extension_of(path: &str) -> (e: Option<String>)
    ensures
        match e {
            Some(x) => path_extension(path@) == Some(x@),
            None => path_extension(path@) is None,
        },
{
    match std::path::Path::new(path).extension() {
        Some(x) => Some(x.to_string_lossy().into_owned()),
        None => None,
    }
}

/// The extension `ext` with a leading dot, adding one when it has none.
pub open spec fn dotted(ext: Seq<char>) -> Seq<char> {
    if ext.len() > 0 && ext[0] == '.' {
        ext
    } else {
        seq!['.'] + ext
    }
}

/// `filename` if its extension is non-empty, else `filename` with `ext` appended.
pub open spec fn with_ext(filename: Seq<char>, ext: Seq<char>, extension: Option<Seq<char>>) -> Seq<char> {
    if extension matches Some(x) && x.len() > 0 {
        filename
    } else {
        filename + dotted(ext)
    }
}

/// Ensures that `filename`, whose extension is `extension`, carries one:
/// appends `ext` (dotted) when `extension` is absent or empty.
pub fn ensure_ext_given(filename: &str, ext: &str, extension: &Option<String>) -> (res: String)
    ensures
        res@ == with_ext(
            filename@,
            ext@,
            match extension {
                Some(x) => Some(x@),
                None => None,
            },
        ),
{
    if let Some(x) = extension {
        if x.unicode_len() > 0 {
            return filename.to_owned();
        }
    }
    let ext_chars = chars_of(ext);
    let mut res = filename.to_owned();
    if ext_chars.len() > 0 && ext_chars[0] == '.' {
        res.append(ext);
    } else {
        res.append(".");
        res.append(ext);
        proof {
            assert(seq!['.'] == "."@) by {
                reveal_strlit(".");
            }
            assert(filename@ + "."@ + ext@ == filename@ + ("."@ + ext@));
        }
    }
    res
}

/// Ensures that the given filename has the specified extension
pub fn ensure_ext(filename: &str, ext: &str) -> (res: String)
    ensures
        res@ == with_ext(filename@, ext@, path_extension(filename@)),
{
    let extension = path_extension_of(filename);
    ensure_ext_given(filename, ext, &extension)
}

/// What `std::path::Path::file_stem` finds in a path, if anything.
pub uninterp spec fn path_file_stem(path: Seq<char>) -> Option<Seq<char>>;

/// The file stem of `path` by `std::path::Path::file_stem`, as a string.
#[verifier::external_body]
fn file_stem_of(path: &str) -> (e: Option<String>)
    ensures
        match e {
            Some(x) => path_file_stem(path@) == Some(x@),
            None => path_file_stem(path@) is None,
        },
{
    match std::path::Path::new(path).file_stem() {
        Some(x) => Some(x.to_string_lossy().into_owned()),
        None => None,
    }
}

pub open spec fn is_digit(c: char) -> bool {
    '0' <= c <= '9'
}

/// The number written by the decimal digits `d`.
pub open spec fn digits_value(d: Seq<char>) -> nat
    decreases d.len(),
{
    if d.len() == 0 {
        0
    } else {
        digits_value(d.drop_last()) * 10 + (d.last() as nat - 48) as nat
    }
}

/// The digits of a number text: the text without its leading `+`, if any.
pub open spec fn unsigned_digits(s: Seq<char>) -> Seq<char> {
    if s.len() > 0 && s[0] == '+' {
        s.skip(1)
    } else {
        s
    }
}

/// Whether `d` is a non-empty run of decimal digits.
pub open spec fn all_digits(d: Seq<char>) -> bool {
    d.len() > 0 && forall|i: int| 0 <= i < d.len() ==> is_digit(#[trigger] d[i])
}

/// The `usize` that `s` spells as `str::parse::<usize>` reads it: an optional
/// `+`, then one or more decimal digits, with a value that fits.
pub open spec fn parsed_usize(s: Seq<char>) -> Option<nat> {
    if all_digits(unsigned_digits(s)) && digits_value(unsigned_digits(s)) <= usize::MAX {
        Some(digits_value(unsigned_digits(s)))
    } else {
        None
    }
}

proof fn lemma_digits_value_grows(d: Seq<char>, i: int, j: int)
    requires
        0 <= i <= j <= d.len(),
        forall|k: int| 0 <= k < d.len() ==> is_digit(#[trigger] d[k]),
    ensures
        digits_value(d.take(i)) <= digits_value(d.take(j)),
    decreases j - i,
{
    if i < j {
        lemma_digits_value_grows(d, i, j - 1);
        assert(d.take(j).drop_last() == d.take(j - 1));
        assert(is_digit(d[j - 1]));
    }
}

/// Parses a decimal `usize` the way `str::parse::<usize>` does.
pub fn parse_usize(s: &Vec<char>) -> (r: Option<usize>)
    ensures
        r matches Some(v) ==> parsed_usize(s@) == Some(v as nat),
        r is None ==> parsed_usize(s@) is None,
{
    let start: usize = if s.len() > 0 && s[0] == '+' {
        1
    } else {
        0
    };
    let ghost d = unsigned_digits(s@);
    assert(d == s@.skip(start as int));
    if start >= s.len() {
        return None;
    }
    let mut v: usize = 0;
    let mut i: usize = start;
    assert(d.take(0) == Seq::<char>::empty());
    while i < s.len()
        invariant
            start <= i <= s@.len(),
            d == s@.skip(start as int),
            d == unsigned_digits(s@),
            forall|k: int| start <= k < i ==> is_digit(#[trigger] s@[k]),
            v == digits_value(d.take(i - start)),
        decreases s@.len() - i,
    {
        let c = s[i];
        if !('0' <= c && c <= '9') {
            assert(d[i - start] == c);
            assert(!is_digit(d[i - start]));
            assert(!all_digits(d));
            return None;
        }
        let dig = (c as u32 - 48) as usize;
        assert(d.take(i - start + 1).drop_last() == d.take(i - start));
        assert(d.take(i - start + 1).last() == c);
        if v > (usize::MAX - dig) / 10 {
            proof {
                assert(v * 10 + dig > usize::MAX) by (nonlinear_arith)
                    requires
                        v > (usize::MAX - dig) / 10,
                        dig <= 9,
                ;
                assert(dig == (c as nat - 48) as nat);
                assert(digits_value(d.take(i - start + 1)) == v * 10 + dig);
                if all_digits(d) {
                    lemma_digits_value_grows(d, i - start + 1, d.len() as int);
                    assert(d.take(d.len() as int) == d);
                    assert(digits_value(d) > usize::MAX);
                }
                assert(parsed_usize(s@) is None);
            }
            return None;
        }
        proof {
            assert(v * 10 + dig <= usize::MAX) by (nonlinear_arith)
                requires
                    v <= (usize::MAX - dig) / 10,
                    dig <= 9,
            ;
        }
        v = v * 10 + dig;
        i = i + 1;
    }
    assert(d.take(d.len() as int) == d);
    assert forall|k: int| 0 <= k < d.len() implies is_digit(#[trigger] d[k]) by {
        assert(d[k] == s@[k + start]);
    }
    Some(v)
}

/// The last position of `c` in `s`, if any.
pub open spec fn last_index_of(s: Seq<char>, c: char) -> Option<int> {
    if exists|i: int| 0 <= i < s.len() && s[i] == c {
        Some(choose|i: int| 0 <= i < s.len() && s[i] == c && forall|j: int| i < j < s.len() ==> s[j] != c)
    } else {
        None
    }
}

/// Finds the last position of `c` in `s`.
pub fn rfind_char(s: &Vec<char>, c: char) -> (r: Option<usize>)
    ensures
        r matches Some(i) ==> last_index_of(s@, c) == Some(i as int) && i < s@.len() && s@[i as int]
            == c,
        r is None ==> last_index_of(s@, c) is None,
{
    let mut i: usize = s.len();
    while i > 0
        invariant
            i <= s@.len(),
            forall|j: int| i <= j < s@.len() ==> s@[j] != c,
        decreases i,
    {
        if s[i - 1] == c {
            let ghost k = (i - 1) as int;
            assert(0 <= k < s@.len() && s@[k] == c && forall|j: int| k < j < s@.len() ==> s@[j] != c);
            let ghost w = choose|w: int| 0 <= w < s@.len() && s@[w] == c && forall|j: int| w < j < s@.len() ==> s@[j] != c;
            assert(w == k) by {
                if w < k {
                    assert(s@[k] != c);
                }
                if w > k {
                    assert(s@[w] != c);
                }
            }
            return Some(i - 1);
        }
        i = i - 1;
    }
    None
}

/// A file stem split into name and key count: `name-<count>` gives the name
/// and the count when the text after the last `-` is a `usize`.
pub open spec fn split_stem_spec(stem: Seq<char>) -> (Seq<char>, Option<nat>) {
    match last_index_of(stem, '-') {
        Some(pos) => match parsed_usize(stem.skip(pos + 1)) {
            Some(n) => (stem.take(pos), Some(n)),
            None => (stem, None),
        },
        None => (stem, None),
    }
}

/// Splits a file stem into name and number of keys.
pub fn split_stem(stem: &str) -> (res: (String, Option<usize>))
    ensures
        res.0@ == split_stem_spec(stem@).0,
        res.1 matches Some(n) ==> split_stem_spec(stem@).1 == Some(n as nat),
        res.1 is None ==> split_stem_spec(stem@).1 is None,
{
    let chars = chars_of(stem);
    match rfind_char(&chars, '-') {
        Some(pos) => {
            let num = sub_chars(&chars, pos + 1, chars.len());
            assert(num@ == chars@.skip(pos + 1));
            match parse_usize(&num) {
                Some(n) => {
                    let name = sub_string(&chars, 0, pos);
                    proof {
                        assert(chars@.subrange(0, pos as int) == chars@.take(pos as int));
                    }
                    (name, Some(n))
                },
                None => (stem.to_owned(), None),
            }
        },
        None => (stem.to_owned(), None),
    }
}

/// The stem used when a path has none.
pub open spec fn stem_or_empty(path: Seq<char>) -> Seq<char> {
    match path_file_stem(path) {
        Some(s) => s,
        None => Seq::empty(),
    }
}

/// Splits a filename into name and number of keys
pub fn split_filename(file_path: &str) -> (res: (String, Option<usize>))
    ensures
        res.0@ == split_stem_spec(stem_or_empty(file_path@)).0,
        res.1 matches Some(n) ==> split_stem_spec(stem_or_empty(file_path@)).1 == Some(n as nat),
        res.1 is None ==> split_stem_spec(stem_or_empty(file_path@)).1 is None,
{
    let stem = match file_stem_of(file_path) {
        Some(s) => s,
        None => String::new(),
    };
    split_stem(stem.as_str())
}

/// Unicode `White_Space` characters, the class `\s` of the `regex` syntax.
pub open spec fn is_white_space(c: char) -> bool {
    ||| ('\u{9}' <= c <= '\u{d}')
    ||| c == ' '
    ||| c == '\u{85}'
    ||| c == '\u{a0}'
    ||| c == '\u{1680}'
    ||| ('\u{2000}' <= c <= '\u{200a}')
    ||| c == '\u{2028}'
    ||| c == '\u{2029}'
    ||| c == '\u{202f}'
    ||| c == '\u{205f}'
    ||| c == '\u{3000}'
}

fn white_space(c: char) -> (b: bool)
    ensures
        b == is_white_space(c),
{
    ('\u{9}' <= c && c <= '\u{d}') || c == ' ' || c == '\u{85}' || c == '\u{a0}' || c == '\u{1680}'
        || ('\u{2000}' <= c && c <= '\u{200a}') || c == '\u{2028}' || c == '\u{2029}' || c
        == '\u{202f}' || c == '\u{205f}' || c == '\u{3000}'
}

/// Whether every character of `s` before index `n` is white space.
pub open spec fn white_prefix(s: Seq<char>, n: int) -> bool {
    forall|i: int| 0 <= i < n ==> is_white_space(#[trigger] s[i])
}

pub open spec fn is_break(c: char) -> bool {
    c == '\r' || c == '\n'
}

/// Whether index `k` holds the last line break of the white-space run that
/// starts `content`.
pub open spec fn is_last_blank_break(content: Seq<char>, k: int) -> bool {
    &&& 0 <= k < content.len()
    &&& white_prefix(content, k + 1)
    &&& is_break(content[k])
    &&& forall|j: int|
        k < j < content.len() && white_prefix(content, j + 1) ==> !is_break(#[trigger] content[j])
}

/// `content` without the match of `^\s*[\r\n]`: the blank run at its start
/// up to and including the last line break in that run.
pub open spec fn without_leading_blank_lines(content: Seq<char>) -> Seq<char> {
    if exists|k: int| is_last_blank_break(content, k) {
        content.skip((choose|k: int| is_last_blank_break(content, k)) + 1)
    } else {
        content
    }
}

/// Removing the leading blank lines twice removes no more than once: what is
/// left starts with no blank line.
pub proof fn law_blank_line_removal_is_idempotent(content: Seq<char>)
    ensures
        without_leading_blank_lines(without_leading_blank_lines(content)) == without_leading_blank_lines(content),
{
    if exists|k: int| is_last_blank_break(content, k) {
        let k = choose|k: int| is_last_blank_break(content, k);
        let r = content.skip(k + 1);
        assert forall|k2: int| !is_last_blank_break(r, k2) by {
            if is_last_blank_break(r, k2) {
                let j = k + 1 + k2;
                assert forall|i: int| 0 <= i < j + 1 implies is_white_space(#[trigger] content[i]) by {
                    if i > k {
                        assert(content[i] == r[i - k - 1]);
                    }
                }
                assert(content[j] == r[k2]);
                assert(white_prefix(content, j + 1));
            }
        }
    }
}

/// Remove empty lines from the start of a string (the regex `^\s*[\r\n]`,
/// replaced by nothing)
pub fn remove_empty_lines(content: &str) -> (res: String)
    ensures
        res@ == without_leading_blank_lines(content@),
{
    let chars = chars_of(content);
    let mut w: usize = 0;
    let mut last: Option<usize> = None;
    while w < chars.len() && white_space(chars[w])
        invariant
            w <= chars@.len(),
            white_prefix(chars@, w as int),
            last matches Some(k) ==> k < w && is_break(chars@[k as int]),
            forall|j: int|
                (if let Some(k) = last {
                    k as int
                } else {
                    -1int
                }) < j < w ==> !is_break(#[trigger] chars@[j]),
        decreases chars@.len() - w,
    {
        if chars[w] == '\r' || chars[w] == '\n' {
            last = Some(w);
        }
        w = w + 1;
    }
    match last {
        Some(k) => {
            proof {
                assert forall|j: int|
                    k < j < chars@.len() && white_prefix(chars@, j + 1) implies !is_break(
                    #[trigger] chars@[j],
                ) by {
                    if j >= w {
                        assert(is_white_space(chars@[w as int]));
                    }
                }
                assert(is_last_blank_break(chars@, k as int));
                let c = choose|k2: int| is_last_blank_break(chars@, k2);
                assert(c == k) by {
                    if c < k {
                        assert(is_break(chars@[k as int]));
                    }
                    if c > k {
                        assert(is_break(chars@[c]));
                    }
                }
            }
            sub_string(&chars, k + 1, chars.len())
        },
        None => {
            proof {
                assert forall|k2: int| !is_last_blank_break(chars@, k2) by {
                    if is_last_blank_break(chars@, k2) {
                        if k2 >= w {
                            assert(is_white_space(chars@[w as int]));
                        }
                        assert(is_break(chars@[k2]));
                    }
                }
            }
            content.to_owned()
        },
    }
}

/// Replace all occurrences of a pattern in a string
pub fn replace_all(content: &str, find: &str, replace: &str) -> (res: String)
    ensures
        res@ == replaced(content@, find@, replace@),
        find@ == replace@ ==> res@ == content@,
        find@.len() > 0 && (forall|i: int| !occurs_at(content@, find@, i)) ==> res@ == content@,
{
    proof {
        law_replacing_pattern_by_itself_is_identity(content@, find@);
        if find@.len() > 0 && (forall|i: int| !occurs_at(content@, find@, i)) {
            law_replacing_absent_pattern_is_identity(content@, find@, replace@);
        }
    }
    let c = chars_of(content);
    let f = chars_of(find);
    let r = chars_of(replace);
    let out = replace_chars(&c, &f, &r);
    string_from(out.as_slice())
}

/// Whether a path may name a mapping: it starts with `~` or `<`.
pub open spec fn possibly_mapped(path: Seq<char>) -> bool {
    path.len() > 0 && (path[0] == '~' || path[0] == '<')
}

/// Determines if a path is possibly mapped (starts with '~' or '<')
pub fn is_possibly_mapped_path(path: &str) -> (b: bool)
    ensures
        b == possibly_mapped(path@),
{
    let chars = chars_of(path);
    chars.len() > 0 && (chars[0] == '~' || chars[0] == '<')
}

} // verus!
