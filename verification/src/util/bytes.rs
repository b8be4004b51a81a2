//! Byte strings: copying, comparing, case folding.

use vstd::prelude::*;

verus! {

/// The bytes that a text is stored as.
pub open spec fn text_bytes(t: Seq<char>) -> Seq<u8> {
    vstd::utf8::encode_utf8(t)
}

/// The bytes of a word of the protocol.
pub open spec fn lit(word: &str) -> Seq<u8> {
    text_bytes(word@)
}

/// An upper-case ASCII letter becomes its lower-case form; every other
/// byte stays.
pub open spec fn lower(b: u8) -> u8 {
    if 65 <= b <= 90 {
        (b + 32) as u8
    } else {
        b
    }
}

/// Equality of two byte strings that takes an ASCII letter for its other
/// case.
pub open spec fn same_ignoring_case(a: Seq<u8>, b: Seq<u8>) -> bool {
    &&& a.len() == b.len()
    &&& forall|i: int| 0 <= i < a.len() ==> lower(#[trigger] a[i]) == lower(b[i])
}

/// The byte with an upper-case ASCII letter made lower-case.
pub fn to_lower(b: u8) -> (r: u8)
    ensures
        r == lower(b),
{
    if 65 <= b && b <= 90 {
        b + 32
    } else {
        b
    }
}

/// Whether two byte strings are the same.
pub fn bytes_eq(a: &[u8], b: &[u8]) -> (r: bool)
    ensures
        r == (a@ == b@),
{
    if a.len() != b.len() {
        return false;
    }
    let mut i: usize = 0;
    while i < a.len()
        invariant
            i <= a.len(),
            a.len() == b.len(),
            a@.take(i as int) == b@.take(i as int),
        decreases a.len() - i,
    {
        if a[i] != b[i] {
            return false;
        }
        i = i + 1;
        proof {
            assert(a@.take(i as int) =~= a@.take(i - 1).push(a@[i - 1]));
            assert(b@.take(i as int) =~= b@.take(i - 1).push(b@[i - 1]));
        }
    }
    proof {
        assert(a@.take(i as int) =~= a@);
        assert(b@.take(i as int) =~= b@);
    }
    true
}

/// Whether two byte strings are the same but for the case of ASCII
/// letters.
pub fn eq_ignore_ascii_case(a: &[u8], b: &[u8]) -> (r: bool)
    ensures
        r == same_ignoring_case(a@, b@),
{
    if a.len() != b.len() {
        return false;
    }
    let mut i: usize = 0;
    while i < a.len()
        invariant
            i <= a.len(),
            a.len() == b.len(),
            forall|j: int| 0 <= j < i ==> lower(#[trigger] a@[j]) == lower(b@[j]),
        decreases a.len() - i,
    {
        if to_lower(a[i]) != to_lower(b[i]) {
            return false;
        }
        i = i + 1;
    }
    true
}

/// A copy of `src`.
pub fn copy_bytes(src: &[u8]) -> (out: Vec<u8>)
    ensures
        out@ == src@,
{
    let mut out: Vec<u8> = Vec::new();
    out.extend_from_slice(src);
    proof {
        assert(out@ =~= src@);
    }
    out
}

/// Appends `src` to `out`.
pub fn push_bytes(out: &mut Vec<u8>, src: &[u8])
    ensures
        final(out)@ == old(out)@ + src@,
{
    out.extend_from_slice(src);
    proof {
        assert(out@ =~= old(out)@ + src@);
    }
}

/// The bytes of a text.
pub fn str_bytes(s: &str) -> (out: Vec<u8>)
    ensures
        out@ == text_bytes(s@),
{
    copy_bytes(s.as_bytes())
}

/// The place of the first `b` in `s`; the length of `s` where it holds
/// none.
pub open spec fn first_index_of(s: Seq<u8>, b: u8) -> int
    decreases s.len(),
{
    if s.len() == 0 {
        0
    } else if s[0] == b {
        0
    } else {
        1 + first_index_of(s.skip(1), b)
    }
}

/// The parts of `s` between occurrences of `b`: one part more than `s`
/// holds occurrences, an empty part where two stand side by side or one
/// stands at an end.
pub open spec fn split(s: Seq<u8>, b: u8) -> Seq<Seq<u8>>
    decreases s.len(),
{
    let i = first_index_of(s, b);
    if 0 <= i < s.len() {
        seq![s.take(i)] + split(s.skip(i + 1), b)
    } else {
        seq![s]
    }
}

/// The first place of `b` lies within `s` or at its end, holds `b` where it
/// lies within, and no place before it holds `b`.
pub proof fn lemma_first_index_of(s: Seq<u8>, b: u8)
    ensures
        0 <= first_index_of(s, b) <= s.len(),
        first_index_of(s, b) < s.len() ==> s[first_index_of(s, b)] == b,
        forall|j: int| 0 <= j < first_index_of(s, b) ==> s[j] != b,
    decreases s.len(),
{
    if s.len() > 0 && s[0] != b {
        lemma_first_index_of(s.skip(1), b);
        assert forall|j: int| 0 <= j < first_index_of(s, b) implies s[j] != b by {
            if j > 0 {
                assert(s.skip(1)[j - 1] == s[j]);
            }
        }
    }
}

/// A split has at least one part.
pub proof fn lemma_split_nonempty(s: Seq<u8>, b: u8)
    ensures
        split(s, b).len() >= 1,
{
}

/// A place that holds `b`, with no `b` before it, is the first place of
/// `b`.
pub proof fn lemma_first_index_is(s: Seq<u8>, b: u8, i: int)
    requires
        0 <= i <= s.len(),
        i < s.len() ==> s[i] == b,
        forall|j: int| 0 <= j < i ==> s[j] != b,
    ensures
        first_index_of(s, b) == i,
{
    lemma_first_index_of(s, b);
    let k = first_index_of(s, b);
    if k < i {
        assert(s[k] != b);
    } else if i < k {
        assert(s[i] != b);
    }
}

/// The place of the first `b` in `s` from `from` on; the length of `s`
/// where there is none.
pub fn find_byte(s: &[u8], from: usize, b: u8) -> (i: usize)
    requires
        from <= s.len(),
    ensures
        i == from + first_index_of(s@.skip(from as int), b),
        from <= i <= s.len(),
{
    let mut i: usize = from;
    while i < s.len() && s[i] != b
        invariant
            from <= i <= s.len(),
            forall|j: int| from <= j < i ==> s@[j] != b,
        decreases s.len() - i,
    {
        i = i + 1;
    }
    proof {
        let t = s@.skip(from as int);
        assert forall|j: int| 0 <= j < i - from implies t[j] != b by {
            assert(t[j] == s@[from + j]);
        }
        lemma_first_index_is(t, b, i - from);
    }
    i
}

/// A copy of the bytes `from .. to` of `s`.
pub fn slice_bytes(s: &[u8], from: usize, to: usize) -> (out: Vec<u8>)
    requires
        from <= to <= s.len(),
    ensures
        out@ == s@.subrange(from as int, to as int),
{
    let mut out: Vec<u8> = Vec::new();
    let mut i: usize = from;
    while i < to
        invariant
            from <= i <= to <= s.len(),
            out@ == s@.subrange(from as int, i as int),
        decreases to - i,
    {
        out.push(s[i]);
        i = i + 1;
        proof {
            assert(out@ =~= s@.subrange(from as int, i as int));
        }
    }
    out
}

/// The parts of `s` between occurrences of `b`.
pub fn split_bytes(s: &[u8], b: u8) -> (parts: Vec<Vec<u8>>)
    ensures
        Seq::new(parts@.len(), |i: int| parts@[i]@) == split(s@, b),
{
    let mut parts: Vec<Vec<u8>> = Vec::new();
    let mut start: usize = 0;
    let ghost mut done: Seq<Seq<u8>> = Seq::empty();
    proof {
        assert(s@.skip(0) =~= s@);
        assert(done =~= Seq::new(parts@.len(), |i: int| parts@[i]@));
        assert(done + split(s@, b) =~= split(s@, b));
    }
    loop
        invariant
            start <= s.len(),
            done == Seq::new(parts@.len(), |i: int| parts@[i]@),
            split(s@, b) == done + split(s@.skip(start as int), b),
        decreases s.len() - start,
    {
        let i = find_byte(s, start, b);
        let part = slice_bytes(s, start, i);
        proof {
            let rest = s@.skip(start as int);
            assert(part@ =~= rest.take(i - start));
            if i == s.len() {
                assert(rest.take(i - start) =~= rest);
            }
        }
        let ghost before = done;
        parts.push(part);
        proof {
            done = before.push(part@);
            assert(done =~= Seq::new(parts@.len(), |k: int| parts@[k]@));
        }
        if i >= s.len() {
            proof {
                assert(split(s@, b) =~= done);
            }
            return parts;
        }
        proof {
            let rest = s@.skip(start as int);
            assert(rest.skip(i - start + 1) =~= s@.skip(i + 1));
            assert(before + (seq![rest.take(i - start)] + split(s@.skip(i + 1), b)) =~= done
                + split(s@.skip(i + 1), b));
        }
        start = i + 1;
    }
}

} // verus!
