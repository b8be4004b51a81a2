//! The collections that the server packs into one string.
//!
//! A small list, set, hash or sorted set is written as one string that
//! holds all its elements: a set of integers as an array of numbers of
//! one width, the others as a run of entries, each a string or a number,
//! in one of two formats. A number stands for its decimal text.

use vstd::prelude::*;
use crate::extractor::redis::rdb::rdb_reader::{
    be32,
    le16,
    le32,
    le64,
    read_be32,
    read_le16,
    read_le32,
    read_le64,
    signed,
};
use crate::meta::redis::redis_object::bytes_of;
use crate::util::bytes::{push_bytes, slice_bytes};
use crate::util::decimal::{digits_of, signed_digits_of, u64_to_decimal};

verus! {

/// The number that the three bytes of `s` from `at` on write, lowest
/// first.
pub open spec fn le24(s: Seq<u8>, at: int) -> int {
    le16(s, at) + s[at + 2] * 0x1_0000
}

/// `rest` with the strings `done` in front.
pub open spec fn items_after(done: Seq<Seq<u8>>, rest: Option<Seq<Seq<u8>>>) -> Option<
    Seq<Seq<u8>>,
> {
    match rest {
        Some(items) => Some(done + items),
        None => None,
    }
}

/// The number that the `width` bytes of `s` from `at` on write, lowest
/// first and signed; `width` is two, four or eight.
pub open spec fn int_at(s: Seq<u8>, at: int, width: int) -> int {
    if width == 2 {
        signed(le16(s, at), 0x8000)
    } else if width == 4 {
        signed(le32(s, at), 0x8000_0000)
    } else {
        signed(le64(s, at), 0x8000_0000_0000_0000)
    }
}

/// The members of a set of integers: the width of a number in four
/// bytes, the count of the numbers in four bytes, and the numbers.
pub open spec fn intset_items(s: Seq<u8>) -> Option<Seq<Seq<u8>>> {
    if s.len() < 8 {
        None
    } else {
        let width = le32(s, 0);
        let count = le32(s, 4);
        if (width == 2 || width == 4 || width == 8) && s.len() == 8 + count * width {
            Some(
                Seq::new(
                    count as nat,
                    |i: int| signed_digits_of(int_at(s, 8 + i * width, width)),
                ),
            )
        } else {
            None
        }
    }
}

/// How many bytes the mark and the data of the entry at `at` in a list
/// pack take; `None` where the mark is none, or the bytes that give the
/// length are not there.
pub open spec fn lp_body(s: Seq<u8>, at: int) -> Option<int> {
    let b = s[at] as int;
    if b < 128 {
        Some(1)
    } else if b < 192 {
        Some(1 + (b - 128))
    } else if b < 224 {
        Some(2)
    } else if b < 240 {
        if at + 1 < s.len() {
            Some(2 + (b - 224) * 256 + s[at + 1])
        } else {
            None
        }
    } else if b == 0xf0 {
        if at + 4 < s.len() {
            Some(5 + le32(s, at + 1))
        } else {
            None
        }
    } else if b == 0xf1 {
        Some(3)
    } else if b == 0xf2 {
        Some(4)
    } else if b == 0xf3 {
        Some(5)
    } else if b == 0xf4 {
        Some(9)
    } else {
        None
    }
}

/// How many bytes follow an entry of a list pack to say that its mark
/// and data take `body` bytes: seven bits of the number in each, the
/// highest number of two, three and four bytes left out.
pub open spec fn lp_back(body: int) -> int {
    if body < 128 {
        1
    } else if body < 16383 {
        2
    } else if body < 2097151 {
        3
    } else if body < 268435455 {
        4
    } else {
        5
    }
}

/// What the entry at `at` in a list pack holds: a number in its mark, a
/// string of a length that the mark gives or starts, or a number in the
/// bytes after the mark.
pub open spec fn lp_value(s: Seq<u8>, at: int) -> Seq<u8> {
    let b = s[at] as int;
    if b < 128 {
        digits_of(b as nat)
    } else if b < 192 {
        s.subrange(at + 1, at + 1 + (b - 128))
    } else if b < 224 {
        signed_digits_of(signed((b - 192) * 256 + s[at + 1], 0x1000))
    } else if b < 240 {
        s.subrange(at + 2, at + 2 + (b - 224) * 256 + s[at + 1])
    } else if b == 0xf0 {
        s.subrange(at + 5, at + 5 + le32(s, at + 1))
    } else if b == 0xf1 {
        signed_digits_of(signed(le16(s, at + 1), 0x8000))
    } else if b == 0xf2 {
        signed_digits_of(signed(le24(s, at + 1), 0x80_0000))
    } else if b == 0xf3 {
        signed_digits_of(signed(le32(s, at + 1), 0x8000_0000))
    } else {
        signed_digits_of(signed(le64(s, at + 1), 0x8000_0000_0000_0000))
    }
}

/// The entries of a list pack from `at` on, up to the mark that ends
/// the list pack, which is its last byte.
pub open spec fn lp_items(s: Seq<u8>, at: int) -> Option<Seq<Seq<u8>>>
    decreases s.len() - at,
{
    if at < 0 || at >= s.len() {
        None
    } else if s[at] == 0xff {
        if at + 1 == s.len() {
            Some(Seq::empty())
        } else {
            None
        }
    } else {
        match lp_body(s, at) {
            None => None,
            Some(body) => if at + body + lp_back(body) >= s.len() {
                None
            } else {
                items_after(seq![lp_value(s, at)], lp_items(s, at + body + lp_back(body)))
            },
        }
    }
}

/// The entries of the list pack `s`: after six bytes that give its size
/// and the count of its entries, which are not read, the entries and the
/// mark that ends them.
pub open spec fn listpack_items(s: Seq<u8>) -> Option<Seq<Seq<u8>>> {
    if s.len() < 7 {
        None
    } else {
        lp_items(s, 6)
    }
}

/// Where the mark of the entry at `at` in a zip list stands: behind the
/// length of the entry before it, which takes a byte, or five where the
/// first is 254.
pub open spec fn zl_mark(s: Seq<u8>, at: int) -> int {
    if s[at] < 254 {
        at + 1
    } else {
        at + 5
    }
}

/// How many bytes the mark and the data of the entry with its mark at
/// `p` in a zip list take; `None` where the mark is none, or the bytes
/// that give the length are not there.
pub open spec fn zl_body(s: Seq<u8>, p: int) -> Option<int> {
    if p >= s.len() {
        None
    } else {
        let e = s[p] as int;
        if e < 64 {
            Some(1 + e)
        } else if e < 128 {
            if p + 1 < s.len() {
                Some(2 + (e - 64) * 256 + s[p + 1])
            } else {
                None
            }
        } else if e < 192 {
            if p + 4 < s.len() {
                Some(5 + be32(s, p + 1))
            } else {
                None
            }
        } else if e == 0xc0 {
            Some(3)
        } else if e == 0xd0 {
            Some(5)
        } else if e == 0xe0 {
            Some(9)
        } else if e == 0xf0 {
            Some(4)
        } else if e == 0xfe {
            Some(2)
        } else if 0xf1 <= e <= 0xfd {
            Some(1)
        } else {
            None
        }
    }
}

/// What the entry with its mark at `p` in a zip list holds: a string of
/// a length that the mark gives or starts, a number in the bytes after
/// the mark, or a small number in the mark.
pub open spec fn zl_value(s: Seq<u8>, p: int) -> Seq<u8> {
    let e = s[p] as int;
    if e < 64 {
        s.subrange(p + 1, p + 1 + e)
    } else if e < 128 {
        s.subrange(p + 2, p + 2 + (e - 64) * 256 + s[p + 1])
    } else if e < 192 {
        s.subrange(p + 5, p + 5 + be32(s, p + 1))
    } else if e == 0xc0 {
        signed_digits_of(signed(le16(s, p + 1), 0x8000))
    } else if e == 0xd0 {
        signed_digits_of(signed(le32(s, p + 1), 0x8000_0000))
    } else if e == 0xe0 {
        signed_digits_of(signed(le64(s, p + 1), 0x8000_0000_0000_0000))
    } else if e == 0xf0 {
        signed_digits_of(signed(le24(s, p + 1), 0x80_0000))
    } else if e == 0xfe {
        signed_digits_of(signed(s[p + 1] as int, 0x80))
    } else {
        digits_of((e - 0xf1) as nat)
    }
}

/// The entries of a zip list from `at` on, up to the mark that ends the
/// zip list, which is its last byte.
pub open spec fn zl_items(s: Seq<u8>, at: int) -> Option<Seq<Seq<u8>>>
    decreases s.len() - at,
{
    if at < 0 || at >= s.len() {
        None
    } else if s[at] == 0xff {
        if at + 1 == s.len() {
            Some(Seq::empty())
        } else {
            None
        }
    } else {
        match zl_body(s, zl_mark(s, at)) {
            None => None,
            Some(body) => if zl_mark(s, at) + body >= s.len() {
                None
            } else {
                items_after(
                    seq![zl_value(s, zl_mark(s, at))],
                    zl_items(s, zl_mark(s, at) + body),
                )
            },
        }
    }
}

/// The entries of the zip list `s`: after ten bytes that give its size,
/// the place of its last entry and the count of its entries, which are
/// not read, the entries and the mark that ends them.
pub open spec fn ziplist_items(s: Seq<u8>) -> Option<Seq<Seq<u8>>> {
    if s.len() < 11 {
        None
    } else {
        zl_items(s, 10)
    }
}

/// Whether `r` holds the strings that `p` says.
pub open spec fn items_agree(r: Option<Vec<Vec<u8>>>, p: Option<Seq<Seq<u8>>>) -> bool {
    match p {
        Some(items) => r matches Some(v) && bytes_of(v@) == items,
        None => r is None,
    }
}

/// The decimal text of `v`, below twice `half`, read as a signed number.
fn signed_text(v: u64, half: u64) -> (out: Vec<u8>)
    requires
        1 <= half <= 0x8000_0000_0000_0000,
        v < 2 * half,
    ensures
        out@ == signed_digits_of(signed(v as int, half as int)),
{
    if v < half {
        u64_to_decimal(v)
    } else {
        let magnitude: u64 = half - (v - half);
        let digits = u64_to_decimal(magnitude);
        let mut out: Vec<u8> = Vec::new();
        out.push(45u8);
        push_bytes(&mut out, digits.as_slice());
        proof {
            assert(out@ =~= seq![45u8] + digits_of(magnitude as nat));
        }
        out
    }
}

/// The three bytes of `buf` from `at` on as a number, lowest first.
fn read_le24(buf: &[u8], at: usize) -> (v: u64)
    requires
        at + 3 <= buf.len(),
    ensures
        v == le24(buf@, at as int),
        v <= 0xff_ffff,
{
    read_le16(buf, at) + (buf[at + 2] as u64) * 0x1_0000
}

/// Reads the members of a set of integers.
pub fn read_intset(buf: &[u8]) -> (r: Option<Vec<Vec<u8>>>)
    ensures
        items_agree(r, intset_items(buf@)),
{
    if buf.len() < 8 {
        return None;
    }
    let width = read_le32(buf, 0);
    let count = read_le32(buf, 4);
    if !(width == 2 || width == 4 || width == 8) {
        return None;
    }
    let total: u64 = if width == 2 {
        8 + count * 2
    } else if width == 4 {
        8 + count * 4
    } else {
        8 + count * 8
    };
    if buf.len() as u64 != total {
        return None;
    }
    let ghost expected = intset_items(buf@)->Some_0;
    let step: usize = width as usize;
    let n: usize = buf.len();
    let mut items: Vec<Vec<u8>> = Vec::new();
    let mut at: usize = 8;
    let mut i: u64 = 0;
    while i < count
        invariant
            i <= count,
            n == buf@.len(),
            width == 2 || width == 4 || width == 8,
            step == width,
            buf@.len() == 8 + count * width,
            at == 8 + i * width,
            intset_items(buf@) == Some(expected),
            expected.len() == count,
            items@.len() == i,
            forall|k: int| 0 <= k < i ==> (#[trigger] items@[k])@ == expected[k],
        decreases count - i,
    {
        proof {
            assert((i + 1) * width <= count * width) by (nonlinear_arith)
                requires
                    i + 1 <= count,
                    width >= 0,
            ;
            assert((i + 1) * width == i * width + width) by (nonlinear_arith);
            assert(at + width <= buf@.len());
        }
        let text = if width == 2 {
            signed_text(read_le16(buf, at), 0x8000)
        } else if width == 4 {
            signed_text(read_le32(buf, at), 0x8000_0000)
        } else {
            signed_text(read_le64(buf, at), 0x8000_0000_0000_0000)
        };
        proof {
            assert(text@ == expected[i as int]);
        }
        items.push(text);
        at = at + step;
        i = i + 1;
    }
    proof {
        assert(bytes_of(items@) =~= expected);
    }
    Some(items)
}

/// Reads the entry at `at` in a list pack: what it holds, and where the
/// next entry starts.
fn read_lp_entry(buf: &[u8], at: usize) -> (r: Option<(Vec<u8>, usize)>)
    requires
        at < buf.len(),
    ensures
        match lp_body(buf@, at as int) {
            Some(body) => if at + body + lp_back(body) >= buf.len() {
                r is None
            } else {
                r matches Some(e) && e.0@ == lp_value(buf@, at as int) && e.1 == at + body
                    + lp_back(body)
            },
            None => r is None,
        },
{
    let left: u64 = (buf.len() - at) as u64;
    let b: u8 = buf[at];
    let body: u64 = if b < 128 {
        1
    } else if b < 192 {
        1 + (b - 128) as u64
    } else if b < 224 {
        2
    } else if b < 240 {
        if left < 2 {
            return None;
        }
        2 + ((b - 224) as u64) * 256 + buf[at + 1] as u64
    } else if b == 0xf0 {
        if left < 5 {
            return None;
        }
        5 + read_le32(buf, at + 1)
    } else if b == 0xf1 {
        3
    } else if b == 0xf2 {
        4
    } else if b == 0xf3 {
        5
    } else if b == 0xf4 {
        9
    } else {
        return None;
    };
    let back: u64 = if body < 128 {
        1
    } else if body < 16383 {
        2
    } else if body < 2097151 {
        3
    } else if body < 268435455 {
        4
    } else {
        5
    };
    if body + back >= left {
        return None;
    }
    let end: usize = at + body as usize;
    let value = if b < 128 {
        u64_to_decimal(b as u64)
    } else if b < 192 {
        slice_bytes(buf, at + 1, end)
    } else if b < 224 {
        signed_text(((b - 192) as u64) * 256 + buf[at + 1] as u64, 0x1000)
    } else if b < 240 {
        slice_bytes(buf, at + 2, end)
    } else if b == 0xf0 {
        slice_bytes(buf, at + 5, end)
    } else if b == 0xf1 {
        signed_text(read_le16(buf, at + 1), 0x8000)
    } else if b == 0xf2 {
        signed_text(read_le24(buf, at + 1), 0x80_0000)
    } else if b == 0xf3 {
        signed_text(read_le32(buf, at + 1), 0x8000_0000)
    } else {
        signed_text(read_le64(buf, at + 1), 0x8000_0000_0000_0000)
    };
    Some((value, end + back as usize))
}

/// Reads the entries of a list pack.
pub fn read_listpack(buf: &[u8]) -> (r: Option<Vec<Vec<u8>>>)
    ensures
        items_agree(r, listpack_items(buf@)),
{
    if buf.len() < 7 {
        return None;
    }
    let mut items: Vec<Vec<u8>> = Vec::new();
    let mut at: usize = 6;
    proof {
        assert(bytes_of(items@) =~= Seq::<Seq<u8>>::empty());
        lemma_items_after_nothing(lp_items(buf@, 6));
    }
    loop
        invariant
            6 <= at < buf.len(),
            listpack_items(buf@) == items_after(bytes_of(items@), lp_items(buf@, at as int)),
        decreases buf.len() - at,
    {
        if buf[at] == 0xff {
            if at + 1 == buf.len() {
                proof {
                    assert(bytes_of(items@) + Seq::<Seq<u8>>::empty() =~= bytes_of(items@));
                }
                return Some(items);
            }
            return None;
        }
        let ghost before = bytes_of(items@);
        match read_lp_entry(buf, at) {
            Some((value, next)) => {
                proof {
                    lemma_items_after_step(before, value@, lp_items(buf@, next as int));
                }
                items.push(value);
                proof {
                    assert(bytes_of(items@) =~= before.push(value@));
                }
                at = next;
            },
            None => {
                return None;
            },
        }
    }
}

/// Reads the entry at `at` in a zip list: what it holds, and where the
/// next entry starts.
fn read_zl_entry(buf: &[u8], at: usize) -> (r: Option<(Vec<u8>, usize)>)
    requires
        at < buf.len(),
    ensures
        match zl_body(buf@, zl_mark(buf@, at as int)) {
            Some(body) => if zl_mark(buf@, at as int) + body >= buf.len() {
                r is None
            } else {
                r matches Some(e) && e.0@ == zl_value(buf@, zl_mark(buf@, at as int)) && e.1
                    == zl_mark(buf@, at as int) + body
            },
            None => r is None,
        },
{
    let head: usize = if buf[at] < 254 {
        1
    } else {
        5
    };
    if buf.len() - at <= head {
        return None;
    }
    let p: usize = at + head;
    let left: u64 = (buf.len() - p) as u64;
    let e: u8 = buf[p];
    let body: u64 = if e < 64 {
        1 + e as u64
    } else if e < 128 {
        if left < 2 {
            return None;
        }
        2 + ((e - 64) as u64) * 256 + buf[p + 1] as u64
    } else if e < 192 {
        if left < 5 {
            return None;
        }
        5 + read_be32(buf, p + 1)
    } else if e == 0xc0 {
        3
    } else if e == 0xd0 {
        5
    } else if e == 0xe0 {
        9
    } else if e == 0xf0 {
        4
    } else if e == 0xfe {
        2
    } else if 0xf1 <= e && e <= 0xfd {
        1
    } else {
        return None;
    };
    if body >= left {
        return None;
    }
    let end: usize = p + body as usize;
    let value = if e < 64 {
        slice_bytes(buf, p + 1, end)
    } else if e < 128 {
        slice_bytes(buf, p + 2, end)
    } else if e < 192 {
        slice_bytes(buf, p + 5, end)
    } else if e == 0xc0 {
        signed_text(read_le16(buf, p + 1), 0x8000)
    } else if e == 0xd0 {
        signed_text(read_le32(buf, p + 1), 0x8000_0000)
    } else if e == 0xe0 {
        signed_text(read_le64(buf, p + 1), 0x8000_0000_0000_0000)
    } else if e == 0xf0 {
        signed_text(read_le24(buf, p + 1), 0x80_0000)
    } else if e == 0xfe {
        signed_text(buf[p + 1] as u64, 0x80)
    } else {
        u64_to_decimal((e - 0xf1) as u64)
    };
    Some((value, end))
}

/// Reads the entries of a zip list.
pub fn read_ziplist(buf: &[u8]) -> (r: Option<Vec<Vec<u8>>>)
    ensures
        items_agree(r, ziplist_items(buf@)),
{
    if buf.len() < 11 {
        return None;
    }
    let mut items: Vec<Vec<u8>> = Vec::new();
    let mut at: usize = 10;
    proof {
        assert(bytes_of(items@) =~= Seq::<Seq<u8>>::empty());
        lemma_items_after_nothing(zl_items(buf@, 10));
    }
    loop
        invariant
            10 <= at < buf.len(),
            ziplist_items(buf@) == items_after(bytes_of(items@), zl_items(buf@, at as int)),
        decreases buf.len() - at,
    {
        if buf[at] == 0xff {
            if at + 1 == buf.len() {
                proof {
                    assert(bytes_of(items@) + Seq::<Seq<u8>>::empty() =~= bytes_of(items@));
                }
                return Some(items);
            }
            return None;
        }
        let ghost before = bytes_of(items@);
        match read_zl_entry(buf, at) {
            Some((value, next)) => {
                proof {
                    lemma_items_after_step(before, value@, zl_items(buf@, next as int));
                }
                items.push(value);
                proof {
                    assert(bytes_of(items@) =~= before.push(value@));
                }
                at = next;
            },
            None => {
                return None;
            },
        }
    }
}

/// Strings with nothing in front are the strings.
pub proof fn lemma_items_after_nothing(rest: Option<Seq<Seq<u8>>>)
    ensures
        items_after(Seq::empty(), rest) == rest,
{
    match rest {
        Some(items) => {
            assert(Seq::<Seq<u8>>::empty() + items =~= items);
        },
        None => {},
    }
}

/// To put strings in front of one string and what follows it is to put
/// the strings and the one in front of what follows.
pub proof fn lemma_items_after_step(
    done: Seq<Seq<u8>>,
    value: Seq<u8>,
    rest: Option<Seq<Seq<u8>>>,
)
    ensures
        items_after(done, items_after(seq![value], rest)) == items_after(done.push(value), rest),
{
    match rest {
        Some(items) => {
            assert(done + (seq![value] + items) =~= done.push(value) + items);
        },
        None => {},
    }
}

} // verus!
