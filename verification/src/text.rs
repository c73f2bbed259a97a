//! Byte-sequence utilities shared by the parsing and path-handling modules:
//! searching for a separator, splitting at it, prefix tests and whitespace
//! trimming, each proved against a mathematical model over `Seq<u8>`.

use vstd::prelude::*;

verus! {

/// Index of the first occurrence of `sep` in `s`, or `s.len()` when `sep`
/// does not occur.
pub open spec fn find_byte(s: Seq<u8>, sep: u8) -> int
    decreases s.len(),
{
    if s.len() == 0 {
        0
    } else if s[0] == sep {
        0
    } else {
        1 + find_byte(s.drop_first(), sep)
    }
}

/// `find_byte` lands on the first occurrence: everything before it differs
/// from `sep`, and the index itself (when in range) holds `sep`.
pub proof fn lemma_find_byte(s: Seq<u8>, sep: u8)
    ensures
        0 <= find_byte(s, sep) <= s.len(),
        forall|j: int| 0 <= j < find_byte(s, sep) ==> s[j] != sep,
        find_byte(s, sep) < s.len() ==> s[find_byte(s, sep)] == sep,
    decreases s.len(),
{
    if s.len() == 0 {
    } else if s[0] == sep {
    } else {
        lemma_find_byte(s.drop_first(), sep);
        assert forall|j: int| 0 <= j < find_byte(s, sep) implies s[j] != sep by {
            if j > 0 {
                assert(s.drop_first()[j - 1] != sep);
            }
        }
        if find_byte(s, sep) < s.len() {
            assert(s.drop_first()[find_byte(s, sep) - 1] == sep);
        }
    }
}

/// An index with no `sep` before it, and `sep` at it unless it is the length,
/// is exactly `find_byte`.
pub proof fn lemma_find_byte_is(s: Seq<u8>, sep: u8, i: int)
    requires
        0 <= i <= s.len(),
        forall|j: int| 0 <= j < i ==> s[j] != sep,
        i < s.len() ==> s[i] == sep,
    ensures
        find_byte(s, sep) == i,
    decreases s.len(),
{
    if s.len() == 0 {
    } else if s[0] == sep {
        assert(i == 0);
    } else {
        assert(i >= 1);
        assert forall|j: int| 0 <= j < i - 1 implies s.drop_first()[j] != sep by {
            assert(s[j + 1] != sep);
        }
        lemma_find_byte_is(s.drop_first(), sep, i - 1);
    }
}

/// The segments of `s` delimited by `sep`.  The separator belongs to no
/// segment; a trailing separator yields a final empty segment, and the empty
/// sequence yields one empty segment.
pub open spec fn split_at_byte(s: Seq<u8>, sep: u8) -> Seq<Seq<u8>>
    decreases s.len(),
{
    let i = find_byte(s, sep);
    if 0 <= i < s.len() {
        seq![s.take(i)] + split_at_byte(s.skip(i + 1), sep)
    } else {
        seq![s]
    }
}

/// Copy of `s[from..to]` as a fresh vector.
pub fn copy_range(s: &Vec<u8>, from: usize, to: usize) -> (r: Vec<u8>)
    requires
        from <= to <= s@.len(),
    ensures
        r@ == s@.subrange(from as int, to as int),
{
    let mut r: Vec<u8> = Vec::new();
    let mut k: usize = from;
    while k < to
        invariant
            from <= k <= to <= s@.len(),
            r@ == s@.subrange(from as int, k as int),
        decreases to - k,
    {
        r.push(s[k]);
        assert(r@ =~= s@.subrange(from as int, k + 1 as int));
        k = k + 1;
    }
    r
}

/// Splits `s` at every occurrence of `sep`, as `split_at_byte` describes.
pub fn split_bytes(s: &Vec<u8>, sep: u8) -> (r: Vec<Vec<u8>>)
    ensures
        r.deep_view() == split_at_byte(s@, sep),
{
    let mut r: Vec<Vec<u8>> = Vec::new();
    let mut pos: usize = 0;
    proof {
        assert(s@.skip(0) =~= s@);
        assert(r.deep_view() + split_at_byte(s@, sep) =~= split_at_byte(s@, sep));
    }
    loop
        invariant_except_break
            0 <= pos <= s@.len(),
            split_at_byte(s@, sep) == r.deep_view() + split_at_byte(s@.skip(pos as int), sep),
        ensures
            r.deep_view() == split_at_byte(s@, sep),
        decreases s@.len() - pos,
    {
        let ghost rest = s@.skip(pos as int);
        let mut j: usize = pos;
        while j < s.len() && s[j] != sep
            invariant
                pos <= j <= s@.len(),
                forall|k: int| pos <= k < j ==> s@[k] != sep,
            decreases s@.len() - j,
        {
            j = j + 1;
        }
        proof {
            assert forall|m: int| 0 <= m < j - pos implies rest[m] != sep by {
                assert(s@[pos + m] != sep);
            }
            lemma_find_byte_is(rest, sep, j as int - pos as int);
        }
        let seg = copy_range(s, pos, j);
        let ghost old_segments = r.deep_view();
        r.push(seg);
        proof {
            assert(r.deep_view() =~~= old_segments.push(seg@));
        }
        if j == s.len() {
            proof {
                assert(seg@ =~= rest);
                assert(split_at_byte(rest, sep) == seq![rest]);
                assert(old_segments + split_at_byte(rest, sep) =~= r.deep_view());
            }
            break;
        }
        proof {
            assert(seg@ =~= rest.take(j as int - pos as int));
            assert(s@.skip(j as int + 1) =~= rest.skip(j as int - pos as int + 1));
            assert(split_at_byte(rest, sep) == seq![rest.take(j as int - pos as int)]
                + split_at_byte(rest.skip(j as int - pos as int + 1), sep));
            assert(old_segments + split_at_byte(rest, sep) =~= r.deep_view() + split_at_byte(
                s@.skip(j as int + 1),
                sep,
            ));
        }
        pos = j + 1;
    }
    r
}

/// `p` is an initial segment of `s`.
pub open spec fn is_prefix(p: Seq<u8>, s: Seq<u8>) -> bool {
    p.len() <= s.len() && s.take(p.len() as int) == p
}

/// Whether `s` begins with the bytes of `p`.
pub fn has_prefix(s: &Vec<u8>, p: &Vec<u8>) -> (r: bool)
    ensures
        r == is_prefix(p@, s@),
{
    if s.len() < p.len() {
        proof {
            assert(!is_prefix(p@, s@));
        }
        return false;
    }
    let mut i: usize = 0;
    while i < p.len()
        invariant
            0 <= i <= p@.len() <= s@.len(),
            forall|k: int| 0 <= k < i ==> s@[k] == p@[k],
        decreases p@.len() - i,
    {
        if s[i] != p[i] {
            proof {
                assert(s@.take(p@.len() as int)[i as int] == s@[i as int]);
            }
            return false;
        }
        i = i + 1;
    }
    proof {
        assert(s@.take(p@.len() as int) =~= p@);
    }
    true
}

/// Whether the two byte vectors hold the same bytes.
pub fn bytes_eq(a: &Vec<u8>, b: &Vec<u8>) -> (r: bool)
    ensures
        r == (a@ == b@),
{
    if a.len() != b.len() {
        return false;
    }
    let mut i: usize = 0;
    while i < a.len()
        invariant
            0 <= i <= a@.len(),
            a@.len() == b@.len(),
            forall|k: int| 0 <= k < i ==> a@[k] == b@[k],
        decreases a@.len() - i,
    {
        if a[i] != b[i] {
            return false;
        }
        i = i + 1;
    }
    proof {
        assert(a@ =~= b@);
    }
    true
}

/// Fresh copy of the whole vector.
pub fn clone_bytes(v: &Vec<u8>) -> (r: Vec<u8>)
    ensures
        r@ == v@,
{
    let r = copy_range(v, 0, v.len());
    proof {
        assert(v@.subrange(0, v@.len() as int) =~= v@);
    }
    r
}

/// Appends all bytes of `src` to `dst`.
pub fn append_bytes(dst: &mut Vec<u8>, src: &Vec<u8>)
    ensures
        final(dst)@ == old(dst)@ + src@,
{
    let mut k: usize = 0;
    while k < src.len()
        invariant
            0 <= k <= src@.len(),
            dst@ == old(dst)@ + src@.take(k as int),
        decreases src@.len() - k,
    {
        dst.push(src[k]);
        assert(dst@ =~= old(dst)@ + src@.take(k + 1));
        k = k + 1;
    }
    proof {
        assert(old(dst)@ + src@.take(src@.len() as int) =~= old(dst)@ + src@);
    }
}

/// A line with a trailing carriage return loses it; any other line is kept
/// as it is.
pub open spec fn strip_cr(l: Seq<u8>) -> Seq<u8> {
    if l.len() > 0 && l.last() == 13u8 {
        l.drop_last()
    } else {
        l
    }
}

/// The lines of `s`: the newline-delimited segments, each with a trailing
/// carriage return removed.
pub open spec fn lines_of(s: Seq<u8>) -> Seq<Seq<u8>> {
    split_at_byte(s, 10u8).map_values(|l: Seq<u8>| strip_cr(l))
}

/// Splits `s` into lines, as `lines_of` describes.
pub fn lines(s: &Vec<u8>) -> (r: Vec<Vec<u8>>)
    ensures
        r.deep_view() == lines_of(s@),
{
    let segs = split_bytes(s, 10u8);
    let mut r: Vec<Vec<u8>> = Vec::new();
    let mut i: usize = 0;
    while i < segs.len()
        invariant
            0 <= i <= segs@.len(),
            segs.deep_view() == split_at_byte(s@, 10u8),
            r.deep_view() == segs.deep_view().take(i as int).map_values(
                |l: Seq<u8>| strip_cr(l),
            ),
        decreases segs@.len() - i,
    {
        let sg = &segs[i];
        let end: usize = if sg.len() > 0 && sg[sg.len() - 1] == 13u8 {
            sg.len() - 1
        } else {
            sg.len()
        };
        let stripped = copy_range(sg, 0, end);
        proof {
            assert(segs@[i as int].deep_view() =~= sg@);
            assert(stripped@ =~= strip_cr(segs.deep_view()[i as int]));
        }
        let ghost old_lines = r.deep_view();
        r.push(stripped);
        proof {
            assert(r.deep_view() =~~= old_lines.push(stripped@));
            assert(r.deep_view() =~= segs.deep_view().take(i + 1).map_values(
                |l: Seq<u8>| strip_cr(l),
            ));
        }
        i = i + 1;
    }
    proof {
        assert(segs.deep_view().take(segs@.len() as int) =~= segs.deep_view());
        assert(r.deep_view() =~= lines_of(s@));
    }
    r
}

/// ASCII whitespace: space, tab, line feed, form feed, carriage return.
pub open spec fn is_ws(b: u8) -> bool {
    b == 32u8 || b == 9u8 || b == 10u8 || b == 12u8 || b == 13u8
}

/// Whitespace test on one byte, as `is_ws` describes.
pub fn is_space(b: u8) -> (r: bool)
    ensures
        r == is_ws(b),
{
    b == 32u8 || b == 9u8 || b == 10u8 || b == 12u8 || b == 13u8
}

/// `s` without its leading whitespace.
pub open spec fn trim_front(s: Seq<u8>) -> Seq<u8>
    decreases s.len(),
{
    if s.len() > 0 && is_ws(s[0]) {
        trim_front(s.drop_first())
    } else {
        s
    }
}

/// `s` without its trailing whitespace.
pub open spec fn trim_back(s: Seq<u8>) -> Seq<u8>
    decreases s.len(),
{
    if s.len() > 0 && is_ws(s.last()) {
        trim_back(s.drop_last())
    } else {
        s
    }
}

/// `s` without leading and trailing whitespace.
pub open spec fn trim_spec(s: Seq<u8>) -> Seq<u8> {
    trim_back(trim_front(s))
}

proof fn lemma_trim_front_at(s: Seq<u8>, lo: int)
    requires
        0 <= lo <= s.len(),
        forall|i: int| 0 <= i < lo ==> is_ws(s[i]),
        lo < s.len() ==> !is_ws(s[lo]),
    ensures
        trim_front(s) == s.skip(lo),
    decreases s.len(),
{
    if lo == 0 {
        assert(s.skip(0) =~= s);
    } else {
        assert(is_ws(s[0]));
        assert forall|i: int| 0 <= i < lo - 1 implies is_ws(s.drop_first()[i]) by {
            assert(is_ws(s[i + 1]));
        }
        lemma_trim_front_at(s.drop_first(), lo - 1);
        assert(s.drop_first().skip(lo - 1) =~= s.skip(lo));
    }
}

proof fn lemma_trim_back_at(s: Seq<u8>, hi: int)
    requires
        0 <= hi <= s.len(),
        forall|i: int| hi <= i < s.len() ==> is_ws(s[i]),
        hi > 0 ==> !is_ws(s[hi - 1]),
    ensures
        trim_back(s) == s.take(hi),
    decreases s.len(),
{
    if hi == s.len() {
        if s.len() > 0 {
            assert(!is_ws(s.last()));
        }
        assert(s.take(hi) =~= s);
    } else {
        assert(is_ws(s.last()));
        lemma_trim_back_at(s.drop_last(), hi);
        assert(s.drop_last().take(hi) =~= s.take(hi));
    }
}

/// Removes leading and trailing ASCII whitespace, as `trim_spec` describes.
pub fn trim_ascii(s: &Vec<u8>) -> (r: Vec<u8>)
    ensures
        r@ == trim_spec(s@),
{
    let mut lo: usize = 0;
    while lo < s.len() && is_space(s[lo])
        invariant
            0 <= lo <= s@.len(),
            forall|i: int| 0 <= i < lo ==> is_ws(s@[i]),
        decreases s@.len() - lo,
    {
        lo = lo + 1;
    }
    let mut hi: usize = s.len();
    while hi > lo && is_space(s[hi - 1])
        invariant
            lo <= hi <= s@.len(),
            forall|i: int| hi <= i < s@.len() ==> is_ws(s@[i]),
        decreases hi,
    {
        hi = hi - 1;
    }
    proof {
        lemma_trim_front_at(s@, lo as int);
        let rest = s@.skip(lo as int);
        assert forall|i: int| hi - lo <= i < rest.len() implies is_ws(rest[i]) by {
            assert(is_ws(s@[i + lo]));
        }
        if hi > lo {
            assert(rest[hi - lo - 1] == s@[hi - 1]);
        }
        lemma_trim_back_at(rest, hi as int - lo as int);
        assert(rest.take(hi as int - lo as int) =~= s@.subrange(lo as int, hi as int));
    }
    copy_range(s, lo, hi)
}

} // verus!
