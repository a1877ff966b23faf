//! Character-sequence helpers shared by the modules: conversions between
//! strings and character vectors, decimal and hexadecimal rendering.
use vstd::prelude::*;

verus! {

/// The characters of `s`, in order.
pub(crate) fn chars_of(s: &str) -> (v: Vec<char>)
    ensures
        v@ == s@,
{
    broadcast use vstd::string::axiom_spec_iter;
    let mut v: Vec<char> = Vec::new();
    for c in it: s.chars()
        invariant
            v@ == it.seq().take(it.index() as int),
            it.seq() == s@,
    {
        v.push(c);
    }
    v
}

/// The string made of the characters of `v` (`String: FromIterator<char>`).
#[verifier::external_body]
pub(crate) fn string_from(v: &[char]) -> (s: String)
    ensures
        s@ == v@,
{
    v.iter().collect()
}

/// The ASCII digit for `d < 10`.
pub open spec fn digit_char(d: nat) -> char {
    ((d + 48) as u32) as char
}

/// Decimal rendering of `n`, most significant digit first, without leading zeros.
pub open spec fn decimal(n: nat) -> Seq<char>
    decreases n,
{
    if n < 10 {
        seq![digit_char(n)]
    } else {
        decimal(n / 10).push(digit_char(n % 10))
    }
}

/// Lower-case hexadecimal digit for `d < 16`.
pub open spec fn hex_char(d: nat) -> char {
    if d < 10 {
        ((d + 48) as u32) as char
    } else {
        ((d + 87) as u32) as char
    }
}

/// Lower-case hexadecimal rendering of `bytes`, two digits per byte.
pub open spec fn hex_lower(bytes: Seq<u8>) -> Seq<char>
    decreases bytes.len(),
{
    if bytes.len() == 0 {
        Seq::empty()
    } else {
        hex_lower(bytes.drop_last()).push(hex_char((bytes.last() / 16) as nat)).push(
            hex_char((bytes.last() % 16) as nat),
        )
    }
}

fn digit_to_char(d: u64) -> (c: char)
    requires
        d < 10,
    ensures
        c == digit_char(d as nat),
{
    ((d as u8) + 48) as char
}

fn nibble_to_char(d: u8) -> (c: char)
    requires
        d < 16,
    ensures
        c == hex_char(d as nat),
{
    if d < 10 {
        (d + 48) as char
    } else {
        (d + 87) as char
    }
}

/// Appends the decimal rendering of `n` to `out`.
pub fn push_decimal(n: u64, out: &mut Vec<char>)
    ensures
        final(out)@ == old(out)@ + decimal(n as nat),
    decreases n,
{
    if n < 10 {
        out.push(digit_to_char(n));
        assert(decimal(n as nat) == seq![digit_char(n as nat)]);
    } else {
        push_decimal(n / 10, out);
        out.push(digit_to_char(n % 10));
    }
}

/// The decimal rendering of `n` as a string.
pub fn decimal_string(n: u64) -> (s: String)
    ensures
        s@ == decimal(n as nat),
{
    let mut v: Vec<char> = Vec::new();
    push_decimal(n, &mut v);
    assert(v@ == decimal(n as nat));
    string_from(v.as_slice())
}

/// The lower-case hexadecimal rendering of `bytes`.
pub fn hex_string(bytes: &[u8]) -> (s: String)
    ensures
        s@ == hex_lower(bytes@),
{
    let mut v: Vec<char> = Vec::new();
    let mut i: usize = 0;
    while i < bytes.len()
        invariant
            i <= bytes@.len(),
            v@ == hex_lower(bytes@.take(i as int)),
        decreases bytes@.len() - i,
    {
        let b = bytes[i];
        v.push(nibble_to_char(b / 16));
        v.push(nibble_to_char(b % 16));
        assert(bytes@.take(i + 1).drop_last() == bytes@.take(i as int));
        i = i + 1;
    }
    assert(bytes@.take(bytes@.len() as int) == bytes@);
    string_from(v.as_slice())
}

/// Whether `p` occurs in `s` starting at index `i`.
pub open spec fn occurs_at(s: Seq<char>, p: Seq<char>, i: int) -> bool {
    0 <= i && i + p.len() <= s.len() && s.subrange(i, i + p.len()) == p
}

/// Checks whether `p` occurs in `s` starting at index `i`.
pub fn matches_at(s: &Vec<char>, p: &Vec<char>, i: usize) -> (b: bool)
    ensures
        b == occurs_at(s@, p@, i as int),
{
    if i > s.len() || p.len() > s.len() - i {
        return false;
    }
    let n = s.len();
    let mut k: usize = 0;
    while k < p.len()
        invariant
            n == s@.len(),
            i + p@.len() <= n,
            k <= p@.len(),
            forall|j: int| 0 <= j < k ==> s@[i + j] == p@[j],
        decreases p@.len() - k,
    {
        if s[i + k] != p[k] {
            assert(s@.subrange(i as int, i + p@.len())[k as int] != p@[k as int]);
            return false;
        }
        k = k + 1;
    }
    assert(s@.subrange(i as int, i + p@.len()) =~= p@);
    true
}

/// `s` with `r` inserted before every character and at the end, as replacing
/// the empty pattern does.
pub open spec fn interleaved(s: Seq<char>, r: Seq<char>) -> Seq<char>
    decreases s.len(),
{
    if s.len() == 0 {
        r
    } else {
        r + seq![s[0]] + interleaved(s.skip(1), r)
    }
}

/// `s` with every non-overlapping occurrence of `p`, scanning from the left,
/// replaced by `r` (for an empty `p`: `r` between all characters and at both ends).
pub open spec fn replaced(s: Seq<char>, p: Seq<char>, r: Seq<char>) -> Seq<char>
    decreases s.len(),
{
    if p.len() == 0 {
        interleaved(s, r)
    } else if s.len() == 0 {
        s
    } else if occurs_at(s, p, 0) {
        r + replaced(s.skip(p.len() as int), p, r)
    } else {
        seq![s[0]] + replaced(s.skip(1), p, r)
    }
}

fn push_all(out: &mut Vec<char>, r: &Vec<char>)
    ensures
        final(out)@ == old(out)@ + r@,
{
    let mut k: usize = 0;
    while k < r.len()
        invariant
            k <= r@.len(),
            out@ == old(out)@ + r@.take(k as int),
        decreases r@.len() - k,
    {
        out.push(r[k]);
        assert(r@.take(k + 1) == r@.take(k as int).push(r@[k as int]));
        k = k + 1;
    }
    assert(r@.take(r@.len() as int) == r@);
}

/// Replaces every occurrence of `p` in `s` by `r`, as `str::replace` does.
pub fn replace_chars(s: &Vec<char>, p: &Vec<char>, r: &Vec<char>) -> (out: Vec<char>)
    ensures
        out@ == replaced(s@, p@, r@),
{
    let mut out: Vec<char> = Vec::new();
    let mut i: usize = 0;
    assert(s@.skip(0) == s@);
    if p.len() == 0 {
        while i < s.len()
            invariant
                i <= s@.len(),
                p@.len() == 0,
                out@ + interleaved(s@.skip(i as int), r@) == interleaved(s@, r@),
            decreases s@.len() - i,
        {
            proof {
                assert(s@.skip(i as int).skip(1) == s@.skip(i + 1));
                assert(interleaved(s@.skip(i as int), r@) == r@ + seq![s@[i as int]] + interleaved(
                    s@.skip(i + 1),
                    r@,
                ));
            }
            push_all(&mut out, r);
            out.push(s[i]);
            proof {
                assert(out@ + interleaved(s@.skip(i + 1), r@) == interleaved(s@, r@));
            }
            i = i + 1;
        }
        push_all(&mut out, r);
        proof {
            assert(s@.skip(i as int).len() == 0);
        }
        return out;
    }
    while i < s.len()
        invariant
            i <= s@.len(),
            p@.len() > 0,
            out@ + replaced(s@.skip(i as int), p@, r@) == replaced(s@, p@, r@),
        decreases s@.len() - i,
    {
        if matches_at(s, p, i) {
            proof {
                let t = s@.skip(i as int);
                assert(t.subrange(0, p@.len() as int) == s@.subrange(i as int, i + p@.len()));
                assert(occurs_at(t, p@, 0));
                assert(t.skip(p@.len() as int) == s@.skip(i + p@.len()));
            }
            push_all(&mut out, r);
            proof {
                assert(out@ + replaced(s@.skip(i + p@.len()), p@, r@) == replaced(s@, p@, r@));
            }
            i = i + p.len();
        } else {
            proof {
                let t = s@.skip(i as int);
                if occurs_at(t, p@, 0) {
                    assert(t.subrange(0, p@.len() as int) == s@.subrange(i as int, i + p@.len()));
                }
                assert(t.skip(1) == s@.skip(i + 1));
                assert(t[0] == s@[i as int]);
            }
            out.push(s[i]);
            proof {
                assert(out@ + replaced(s@.skip(i + 1), p@, r@) == replaced(s@, p@, r@));
            }
            i = i + 1;
        }
    }
    proof {
        assert(s@.skip(i as int).len() == 0);
        assert(replaced(s@.skip(i as int), p@, r@) == s@.skip(i as int));
        assert(out@ + Seq::<char>::empty() == out@);
    }
    out
}

/// The characters of `v` from index `from` up to, not including, `to`.
pub fn sub_chars(v: &Vec<char>, from: usize, to: usize) -> (out: Vec<char>)
    requires
        from <= to <= v@.len(),
    ensures
        out@ == v@.subrange(from as int, to as int),
{
    let mut out: Vec<char> = Vec::new();
    let mut i = from;
    while i < to
        invariant
            from <= i <= to <= v@.len(),
            out@ == v@.subrange(from as int, i as int),
        decreases to - i,
    {
        out.push(v[i]);
        assert(v@.subrange(from as int, i + 1) == v@.subrange(from as int, i as int).push(v@[i as int]));
        i = i + 1;
    }
    out
}

/// The string of the characters of `v` from `from` up to, not including, `to`.
pub fn sub_string(v: &Vec<char>, from: usize, to: usize) -> (s: String)
    requires
        from <= to <= v@.len(),
    ensures
        s@ == v@.subrange(from as int, to as int),
{
    let out = sub_chars(v, from, to);
    string_from(out.as_slice())
}

/// Replacing a pattern by itself leaves a text unchanged.
pub proof fn law_replacing_pattern_by_itself_is_identity(s: Seq<char>, p: Seq<char>)
    ensures
        replaced(s, p, p) == s,
    decreases s.len(),
{
    if p.len() == 0 {
        lemma_interleave_empty(s, p);
    } else if s.len() == 0 {
    } else if occurs_at(s, p, 0) {
        law_replacing_pattern_by_itself_is_identity(s.skip(p.len() as int), p);
        assert(s.subrange(0, p.len() as int) == p);
        assert(p + s.skip(p.len() as int) =~= s);
    } else {
        law_replacing_pattern_by_itself_is_identity(s.skip(1), p);
        assert(seq![s[0]] + s.skip(1) =~= s);
    }
}

proof fn lemma_interleave_empty(s: Seq<char>, r: Seq<char>)
    requires
        r.len() == 0,
    ensures
        interleaved(s, r) == s,
    decreases s.len(),
{
    if s.len() > 0 {
        lemma_interleave_empty(s.skip(1), r);
        assert(r + seq![s[0]] + s.skip(1) =~= s);
    } else {
        assert(r =~= s);
    }
}

/// A text in which the pattern does not occur is left unchanged.
pub proof fn law_replacing_absent_pattern_is_identity(s: Seq<char>, p: Seq<char>, r: Seq<char>)
    requires
        p.len() > 0,
        forall|i: int| !occurs_at(s, p, i),
    ensures
        replaced(s, p, r) == s,
    decreases s.len(),
{
    if s.len() > 0 {
        assert forall|i: int| !occurs_at(s.skip(1), p, i) by {
            if occurs_at(s.skip(1), p, i) {
                assert(s.skip(1).subrange(i, i + p.len()) == s.subrange(i + 1, i + 1 + p.len()));
                assert(occurs_at(s, p, i + 1));
            }
        }
        law_replacing_absent_pattern_is_identity(s.skip(1), p, r);
        assert(seq![s[0]] + s.skip(1) =~= s);
    }
}

} // verus!
