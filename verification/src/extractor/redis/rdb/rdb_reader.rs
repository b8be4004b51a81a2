//! Lengths and strings, the two things that everything in a snapshot is
//! made of.
//!
//! A length takes one, two, five or nine bytes; the upper two bits of
//! the first say which. With both bits set the byte gives no length but
//! says that a string is written in a special form: as a small integer,
//! or compressed.

use vstd::prelude::*;
use crate::extractor::redis::rdb::lzf::{decompress, decompressed};
use crate::util::bytes::slice_bytes;
use crate::util::decimal::{i64_to_decimal, signed_digits_of};

verus! {

/// What a length field holds.
#[derive(Debug, Clone, Copy, PartialEq, Eq, Structural)]
pub enum Length {
    /// A length.
    Plain(u64),
    /// The mark of a string in a special form.
    Special(u8),
}

/// What the start of a byte sequence holds, read as a length.
pub enum ParsedLen {
    Done { value: Length, len: int },
    Incomplete,
    Invalid,
}

/// What the start of a byte sequence holds, read as a string.
pub enum ParsedStr {
    Done { bytes: Seq<u8>, len: int },
    Incomplete,
    Invalid,
}

/// The number that the four bytes of `s` from `at` on write, highest
/// first.
pub open spec fn be32(s: Seq<u8>, at: int) -> int {
    s[at] * 0x100_0000 + s[at + 1] * 0x1_0000 + s[at + 2] * 0x100 + s[at + 3]
}

/// The number that the eight bytes of `s` from `at` on write, highest
/// first.
pub open spec fn be64(s: Seq<u8>, at: int) -> int {
    be32(s, at) * 0x1_0000_0000 + be32(s, at + 4)
}

/// The number that the two bytes of `s` from `at` on write, lowest
/// first.
pub open spec fn le16(s: Seq<u8>, at: int) -> int {
    s[at] + s[at + 1] * 0x100
}

/// The number that the four bytes of `s` from `at` on write, lowest
/// first.
pub open spec fn le32(s: Seq<u8>, at: int) -> int {
    le16(s, at) + le16(s, at + 2) * 0x1_0000
}

/// The number that the eight bytes of `s` from `at` on write, lowest
/// first.
pub open spec fn le64(s: Seq<u8>, at: int) -> int {
    le32(s, at) + le32(s, at + 4) * 0x1_0000_0000
}

/// The number `v`, below twice `half`, read as a signed number: from
/// `half` on it stands for a negative number.
pub open spec fn signed(v: int, half: int) -> int {
    if v >= half {
        v - 2 * half
    } else {
        v
    }
}

/// The length at the start of `s`.
#[verifier::opaque]
pub open spec fn parse_len(s: Seq<u8>) -> ParsedLen {
    if s.len() == 0 {
        ParsedLen::Incomplete
    } else {
        let b = s[0] as int;
        if b / 64 == 0 {
            ParsedLen::Done { value: Length::Plain((b % 64) as u64), len: 1 }
        } else if b / 64 == 1 {
            if s.len() < 2 {
                ParsedLen::Incomplete
            } else {
                ParsedLen::Done { value: Length::Plain(((b % 64) * 256 + s[1]) as u64), len: 2 }
            }
        } else if b / 64 == 2 {
            if b == 0x80 {
                if s.len() < 5 {
                    ParsedLen::Incomplete
                } else {
                    ParsedLen::Done { value: Length::Plain(be32(s, 1) as u64), len: 5 }
                }
            } else if b == 0x81 {
                if s.len() < 9 {
                    ParsedLen::Incomplete
                } else {
                    ParsedLen::Done { value: Length::Plain(be64(s, 1) as u64), len: 9 }
                }
            } else {
                ParsedLen::Invalid
            }
        } else {
            ParsedLen::Done { value: Length::Special((b % 64) as u8), len: 1 }
        }
    }
}

/// The length at the start of `s`, where no special form is allowed.
pub open spec fn parse_count(s: Seq<u8>) -> ParsedLen {
    match parse_len(s) {
        ParsedLen::Done { value: Length::Special(_), .. } => ParsedLen::Invalid,
        other => other,
    }
}

/// The compressed string that follows its mark, which ends at `head`
/// in `s`: the length of the compressed data, the length that it
/// expands to, and the data. A string that expands to more than an
/// address can count is taken as invalid.
#[verifier::opaque]
pub open spec fn parse_compressed(s: Seq<u8>, head: int) -> ParsedStr {
    match parse_count(s.skip(head)) {
        ParsedLen::Incomplete => ParsedStr::Incomplete,
        ParsedLen::Invalid => ParsedStr::Invalid,
        ParsedLen::Done { value, len: l1 } => match parse_count(s.skip(head + l1)) {
            ParsedLen::Incomplete => ParsedStr::Incomplete,
            ParsedLen::Invalid => ParsedStr::Invalid,
            ParsedLen::Done { value: expanded, len: l2 } => {
                let clen = value->Plain_0 as int;
                let ulen = expanded->Plain_0 as int;
                let start = head + l1 + l2;
                if s.len() < start + clen {
                    ParsedStr::Incomplete
                } else if ulen > usize::MAX {
                    ParsedStr::Invalid
                } else {
                    match decompressed(s.subrange(start, start + clen), ulen) {
                        Some(out) => ParsedStr::Done { bytes: out, len: start + clen },
                        None => ParsedStr::Invalid,
                    }
                }
            },
        },
    }
}

/// The string at the start of `s`: its length and its bytes, or an
/// integer of one, two or four bytes that stands for its decimal text,
/// or compressed data.
#[verifier::opaque]
pub open spec fn parse_string(s: Seq<u8>) -> ParsedStr {
    match parse_len(s) {
        ParsedLen::Incomplete => ParsedStr::Incomplete,
        ParsedLen::Invalid => ParsedStr::Invalid,
        ParsedLen::Done { value: Length::Plain(n), len } => if s.len() < len + n {
            ParsedStr::Incomplete
        } else {
            ParsedStr::Done { bytes: s.subrange(len, len + n), len: len + n }
        },
        ParsedLen::Done { value: Length::Special(form), len } => if form == 0 {
            if s.len() < len + 1 {
                ParsedStr::Incomplete
            } else {
                ParsedStr::Done {
                    bytes: signed_digits_of(signed(s[len] as int, 0x80)),
                    len: len + 1,
                }
            }
        } else if form == 1 {
            if s.len() < len + 2 {
                ParsedStr::Incomplete
            } else {
                ParsedStr::Done {
                    bytes: signed_digits_of(signed(le16(s, len), 0x8000)),
                    len: len + 2,
                }
            }
        } else if form == 2 {
            if s.len() < len + 4 {
                ParsedStr::Incomplete
            } else {
                ParsedStr::Done {
                    bytes: signed_digits_of(signed(le32(s, len), 0x8000_0000)),
                    len: len + 4,
                }
            }
        } else if form == 3 {
            parse_compressed(s, len)
        } else {
            ParsedStr::Invalid
        },
    }
}

/// What reading a length came to.
#[derive(Debug, Clone, Copy, PartialEq, Eq, Structural)]
pub enum LenResult {
    /// A length field, which took `len` bytes.
    Done { value: Length, len: usize },
    Incomplete,
    Invalid,
}

/// What reading a string came to.
#[derive(Debug)]
pub enum StrResult {
    /// A string, which took `len` bytes of the buffer.
    Done { bytes: Vec<u8>, len: usize },
    Incomplete,
    Invalid,
}

/// Whether `r` is what `p` says.
pub open spec fn len_agrees(r: LenResult, p: ParsedLen) -> bool {
    match p {
        ParsedLen::Done { value, len } => r matches LenResult::Done { value: v, len: l } && v
            == value && l == len,
        ParsedLen::Incomplete => r is Incomplete,
        ParsedLen::Invalid => r is Invalid,
    }
}

/// Whether `r` is what `p` says.
pub open spec fn str_agrees(r: StrResult, p: ParsedStr) -> bool {
    match p {
        ParsedStr::Done { bytes, len } => r matches StrResult::Done { bytes: b, len: l } && b@
            == bytes && l == len,
        ParsedStr::Incomplete => r is Incomplete,
        ParsedStr::Invalid => r is Invalid,
    }
}

/// The four bytes of `buf` from `at` on as a number, highest first.
pub fn read_be32(buf: &[u8], at: usize) -> (v: u64)
    requires
        at + 4 <= buf.len(),
    ensures
        v == be32(buf@, at as int),
        v <= 0xffff_ffff,
{
    (buf[at] as u64) * 0x100_0000 + (buf[at + 1] as u64) * 0x1_0000 + (buf[at + 2] as u64) * 0x100
        + (buf[at + 3] as u64)
}

/// The eight bytes of `buf` from `at` on as a number, highest first.
pub fn read_be64(buf: &[u8], at: usize) -> (v: u64)
    requires
        at + 8 <= buf.len(),
    ensures
        v == be64(buf@, at as int),
{
    read_be32(buf, at) * 0x1_0000_0000 + read_be32(buf, at + 4)
}

/// The two bytes of `buf` from `at` on as a number, lowest first.
pub fn read_le16(buf: &[u8], at: usize) -> (v: u64)
    requires
        at + 2 <= buf.len(),
    ensures
        v == le16(buf@, at as int),
        v <= 0xffff,
{
    (buf[at] as u64) + (buf[at + 1] as u64) * 0x100
}

/// The four bytes of `buf` from `at` on as a number, lowest first.
pub fn read_le32(buf: &[u8], at: usize) -> (v: u64)
    requires
        at + 4 <= buf.len(),
    ensures
        v == le32(buf@, at as int),
        v <= 0xffff_ffff,
{
    read_le16(buf, at) + read_le16(buf, at + 2) * 0x1_0000
}

/// The eight bytes of `buf` from `at` on as a number, lowest first.
pub fn read_le64(buf: &[u8], at: usize) -> (v: u64)
    requires
        at + 8 <= buf.len(),
    ensures
        v == le64(buf@, at as int),
{
    read_le32(buf, at) + read_le32(buf, at + 4) * 0x1_0000_0000
}

/// Reads the length field at `pos` in `buf`.
pub fn read_len(buf: &[u8], pos: usize) -> (r: LenResult)
    requires
        pos <= buf.len(),
    ensures
        len_agrees(r, parse_len(buf@.skip(pos as int))),
        r matches LenResult::Done { len, .. } ==> 1 <= len <= 9 && pos + len <= buf.len(),
{
    let ghost s = buf@.skip(pos as int);
    reveal(parse_len);
    let left: usize = buf.len() - pos;
    if left == 0 {
        return LenResult::Incomplete;
    }
    let b: u8 = buf[pos];
    proof {
        assert(s[0] == b);
    }
    if b / 64 == 0 {
        LenResult::Done { value: Length::Plain((b % 64) as u64), len: 1 }
    } else if b / 64 == 1 {
        if left < 2 {
            return LenResult::Incomplete;
        }
        proof {
            assert(s[1] == buf@[pos + 1]);
        }
        LenResult::Done {
            value: Length::Plain(((b % 64) as u64) * 256 + buf[pos + 1] as u64),
            len: 2,
        }
    } else if b / 64 == 2 {
        if b == 0x80 {
            if left < 5 {
                return LenResult::Incomplete;
            }
            proof {
                assert(be32(s, 1) == be32(buf@, pos + 1)) by {
                    assert(s[1] == buf@[pos + 1] && s[2] == buf@[pos + 2] && s[3] == buf@[pos + 3]
                        && s[4] == buf@[pos + 4]);
                }
            }
            LenResult::Done { value: Length::Plain(read_be32(buf, pos + 1)), len: 5 }
        } else if b == 0x81 {
            if left < 9 {
                return LenResult::Incomplete;
            }
            proof {
                assert(be64(s, 1) == be64(buf@, pos + 1)) by {
                    assert(s[1] == buf@[pos + 1] && s[2] == buf@[pos + 2] && s[3] == buf@[pos + 3]
                        && s[4] == buf@[pos + 4]);
                    assert(s[5] == buf@[pos + 5] && s[6] == buf@[pos + 6] && s[7] == buf@[pos + 7]
                        && s[8] == buf@[pos + 8]);
                }
            }
            LenResult::Done { value: Length::Plain(read_be64(buf, pos + 1)), len: 9 }
        } else {
            LenResult::Invalid
        }
    } else {
        LenResult::Done { value: Length::Special(b % 64), len: 1 }
    }
}

/// Reads the length field at `pos` in `buf`, where no special form is
/// allowed.
pub fn read_count(buf: &[u8], pos: usize) -> (r: LenResult)
    requires
        pos <= buf.len(),
    ensures
        len_agrees(r, parse_count(buf@.skip(pos as int))),
        r matches LenResult::Done { value, len } ==> value is Plain && 1 <= len <= 9 && pos + len
            <= buf.len(),
{
    match read_len(buf, pos) {
        LenResult::Done { value: Length::Special(_), .. } => LenResult::Invalid,
        other => other,
    }
}

/// Reads the string at `pos` in `buf`.
pub fn read_string(buf: &[u8], pos: usize) -> (r: StrResult)
    requires
        pos <= buf.len(),
    ensures
        str_agrees(r, parse_string(buf@.skip(pos as int))),
        r matches StrResult::Done { len, .. } ==> 1 <= len && pos + len <= buf.len(),
{
    let ghost s = buf@.skip(pos as int);
    reveal(parse_string);
    let (value, head) = match read_len(buf, pos) {
        LenResult::Done { value, len } => (value, len),
        LenResult::Incomplete => {
            return StrResult::Incomplete;
        },
        LenResult::Invalid => {
            return StrResult::Invalid;
        },
    };
    let at: usize = pos + head;
    let left: usize = buf.len() - at;
    match value {
        Length::Plain(n) => {
            if n > left as u64 {
                return StrResult::Incomplete;
            }
            let n: usize = n as usize;
            let bytes = slice_bytes(buf, at, at + n);
            proof {
                assert(bytes@ =~= s.subrange(head as int, head + n));
            }
            StrResult::Done { bytes, len: head + n }
        },
        Length::Special(form) => {
            if form == 0 {
                if left < 1 {
                    return StrResult::Incomplete;
                }
                proof {
                    assert(s[head as int] == buf@[at as int]);
                }
                let v: u8 = buf[at];
                let n: i64 = if v >= 0x80 {
                    v as i64 - 0x100
                } else {
                    v as i64
                };
                StrResult::Done { bytes: i64_to_decimal(n), len: head + 1 }
            } else if form == 1 {
                if left < 2 {
                    return StrResult::Incomplete;
                }
                proof {
                    assert(s[head as int] == buf@[at as int]);
                    assert(s[head + 1] == buf@[at + 1]);
                }
                let v = read_le16(buf, at);
                let n: i64 = if v >= 0x8000 {
                    v as i64 - 0x1_0000
                } else {
                    v as i64
                };
                StrResult::Done { bytes: i64_to_decimal(n), len: head + 2 }
            } else if form == 2 {
                if left < 4 {
                    return StrResult::Incomplete;
                }
                proof {
                    assert(s[head as int] == buf@[at as int]);
                    assert(s[head + 1] == buf@[at + 1]);
                    assert(s[head + 2] == buf@[at + 2]);
                    assert(s[head + 3] == buf@[at + 3]);
                }
                let v = read_le32(buf, at);
                let n: i64 = if v >= 0x8000_0000 {
                    v as i64 - 0x1_0000_0000
                } else {
                    v as i64
                };
                StrResult::Done { bytes: i64_to_decimal(n), len: head + 4 }
            } else if form == 3 {
                read_compressed(buf, pos, head)
            } else {
                StrResult::Invalid
            }
        },
    }
}

/// Reads the compressed string whose mark ends `head` bytes after
/// `pos`.
#[verifier::rlimit(40)]
fn read_compressed(buf: &[u8], pos: usize, head: usize) -> (r: StrResult)
    requires
        pos + head <= buf.len(),
        head >= 1,
    ensures
        str_agrees(r, parse_compressed(buf@.skip(pos as int), head as int)),
        r matches StrResult::Done { len, .. } ==> 1 <= len && pos + len <= buf.len(),
{
    let ghost s = buf@.skip(pos as int);
    let at: usize = pos + head;
    reveal(parse_compressed);
    proof {
        assert(s.skip(head as int) =~= buf@.skip(at as int));
    }
    let (clen, l1) = match read_count(buf, at) {
        LenResult::Done { value: Length::Plain(n), len } => (n, len),
        LenResult::Done { value: Length::Special(_), .. } => {
            return StrResult::Invalid;
        },
        LenResult::Incomplete => {
            return StrResult::Incomplete;
        },
        LenResult::Invalid => {
            return StrResult::Invalid;
        },
    };
    proof {
        assert(s.skip(head + l1) =~= buf@.skip(at + l1));
    }
    let (ulen, l2) = match read_count(buf, at + l1) {
        LenResult::Done { value: Length::Plain(n), len } => (n, len),
        LenResult::Done { value: Length::Special(_), .. } => {
            return StrResult::Invalid;
        },
        LenResult::Incomplete => {
            return StrResult::Incomplete;
        },
        LenResult::Invalid => {
            return StrResult::Invalid;
        },
    };
    let start: usize = at + l1 + l2;
    let left: usize = buf.len() - start;
    if clen > left as u64 {
        return StrResult::Incomplete;
    }
    let clen: usize = clen as usize;
    proof {
        assert(s.subrange(head + l1 + l2, head + l1 + l2 + clen) =~= buf@.subrange(
            start as int,
            start + clen,
        ));
    }
    if ulen > usize::MAX as u64 {
        return StrResult::Invalid;
    }
    match decompress(buf, start, start + clen, ulen as usize) {
        Some(bytes) => StrResult::Done { bytes, len: head + l1 + l2 + clen },
        None => StrResult::Invalid,
    }
}

} // verus!
