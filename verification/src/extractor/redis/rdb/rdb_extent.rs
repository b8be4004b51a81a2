//! How far a part of a value reaches that is passed over.
//!
//! A value of a module is not decoded, and a stream holds counts that
//! the commands which build it again have no use for. To pass over them
//! it is enough to know where they end, and that follows from the pieces
//! that they are written with: lengths, strings and runs of bytes of a
//! fixed size.

use vstd::prelude::*;
use crate::extractor::redis::rdb::rdb_reader::{
    parse_count,
    parse_string,
    read_count,
    read_string,
    LenResult,
    Length,
    ParsedLen,
    ParsedStr,
    StrResult,
};

verus! {

/// A piece that a value is written with.
#[derive(Debug, Clone, Copy, PartialEq, Eq, Structural)]
pub enum Field {
    /// A length or a number, in the form of a length.
    Count,
    /// A string.
    Str,
    /// So many bytes.
    Bytes(u8),
}

/// How far something reaches that stands at the start of a byte
/// sequence.
pub enum Extent {
    Done { len: int },
    Incomplete,
    Invalid,
}

/// What looking for the end of something came to.
#[derive(Debug, Clone, Copy, PartialEq, Eq, Structural)]
pub enum ExtentResult {
    /// It takes `len` bytes.
    Done { len: usize },
    /// The buffer ends within it.
    Incomplete,
    /// The buffer does not hold it.
    Invalid,
}

/// Whether `r` is what `e` says.
pub open spec fn extent_agrees(r: ExtentResult, e: Extent) -> bool {
    match e {
        Extent::Done { len } => r matches ExtentResult::Done { len: l } && l == len,
        Extent::Incomplete => r is Incomplete,
        Extent::Invalid => r is Invalid,
    }
}

/// The bytes that `e` takes; none where it is not whole.
pub open spec fn reach(e: Extent) -> int {
    match e {
        Extent::Done { len } => len,
        _ => 0,
    }
}

/// `first`, then `rest` behind it.
pub open spec fn then(first: Extent, rest: Extent) -> Extent {
    match first {
        Extent::Done { len } => match rest {
            Extent::Done { len: more } => Extent::Done { len: len + more },
            other => other,
        },
        other => other,
    }
}

/// How far the piece `f` at the start of `s` reaches.
pub open spec fn field_extent(s: Seq<u8>, f: Field) -> Extent {
    match f {
        Field::Count => match parse_count(s) {
            ParsedLen::Done { len, .. } => Extent::Done { len },
            ParsedLen::Incomplete => Extent::Incomplete,
            ParsedLen::Invalid => Extent::Invalid,
        },
        Field::Str => match parse_string(s) {
            ParsedStr::Done { len, .. } => Extent::Done { len },
            ParsedStr::Incomplete => Extent::Incomplete,
            ParsedStr::Invalid => Extent::Invalid,
        },
        Field::Bytes(n) => if s.len() < n {
            Extent::Incomplete
        } else {
            Extent::Done { len: n as int }
        },
    }
}

/// How far the pieces `fields`, one after the other from the start of
/// `s`, reach.
pub open spec fn fields_extent(s: Seq<u8>, fields: Seq<Field>) -> Extent
    decreases fields.len(),
{
    if fields.len() == 0 {
        Extent::Done { len: 0 }
    } else {
        let first = field_extent(s, fields[0]);
        then(first, fields_extent(s.skip(reach(first)), fields.skip(1)))
    }
}

/// The piece that follows the mark `mark` in a value of a module: a
/// number, signed or not, a float in four bytes, one in eight, or a
/// string.
pub open spec fn marked_field(mark: u64) -> Option<Field> {
    if mark == 1 || mark == 2 {
        Some(Field::Count)
    } else if mark == 3 {
        Some(Field::Bytes(4))
    } else if mark == 4 {
        Some(Field::Bytes(8))
    } else if mark == 5 {
        Some(Field::Str)
    } else {
        None
    }
}

/// How far the marked pieces at the start of `s` reach, up to the mark
/// zero that ends them. A mark and its piece take a byte at least, and
/// no more than there is.
pub open spec fn marked_extent(s: Seq<u8>) -> Extent
    decreases s.len(),
{
    match parse_count(s) {
        ParsedLen::Done { value, len } => if value->Plain_0 == 0 {
            Extent::Done { len }
        } else {
            match marked_field(value->Plain_0) {
                None => Extent::Invalid,
                Some(f) => match field_extent(s.skip(len), f) {
                    Extent::Done { len: more } => if len + more < 1 || len + more > s.len() {
                        Extent::Invalid
                    } else {
                        then(Extent::Done { len: len + more }, marked_extent(s.skip(len + more)))
                    },
                    other => other,
                },
            }
        },
        ParsedLen::Incomplete => Extent::Incomplete,
        ParsedLen::Invalid => Extent::Invalid,
    }
}

/// How far the value of a module at the start of `s` reaches: the
/// identifier of the module, then its marked pieces.
pub open spec fn module_extent(s: Seq<u8>) -> Extent {
    let id = field_extent(s, Field::Count);
    then(id, marked_extent(s.skip(reach(id))))
}

/// Finds the end of the piece `f` at `pos` in `buf`.
pub fn skip_field(buf: &[u8], pos: usize, f: Field) -> (r: ExtentResult)
    requires
        pos <= buf.len(),
    ensures
        extent_agrees(r, field_extent(buf@.skip(pos as int), f)),
        r matches ExtentResult::Done { len } ==> pos + len <= buf.len(),
{
    match f {
        Field::Count => match read_count(buf, pos) {
            LenResult::Done { len, .. } => ExtentResult::Done { len },
            LenResult::Incomplete => ExtentResult::Incomplete,
            LenResult::Invalid => ExtentResult::Invalid,
        },
        Field::Str => match read_string(buf, pos) {
            StrResult::Done { len, .. } => ExtentResult::Done { len },
            StrResult::Incomplete => ExtentResult::Incomplete,
            StrResult::Invalid => ExtentResult::Invalid,
        },
        Field::Bytes(n) => {
            let left: usize = buf.len() - pos;
            if left < n as usize {
                ExtentResult::Incomplete
            } else {
                ExtentResult::Done { len: n as usize }
            }
        },
    }
}

/// Finds the end of the pieces `fields`, one after the other from `pos`
/// on in `buf`.
pub fn skip_fields(buf: &[u8], pos: usize, fields: &Vec<Field>) -> (r: ExtentResult)
    requires
        pos <= buf.len(),
    ensures
        extent_agrees(r, fields_extent(buf@.skip(pos as int), fields@)),
        r matches ExtentResult::Done { len } ==> pos + len <= buf.len(),
{
    let ghost start = buf@.skip(pos as int);
    let mut cur: usize = pos;
    let mut i: usize = 0;
    proof {
        assert(fields@.skip(0) =~= fields@);
    }
    while i < fields.len()
        invariant
            i <= fields@.len(),
            pos <= cur <= buf.len(),
            start == buf@.skip(pos as int),
            fields_extent(start, fields@) == then(
                Extent::Done { len: cur - pos },
                fields_extent(buf@.skip(cur as int), fields@.skip(i as int)),
            ),
        decreases fields@.len() - i,
    {
        let ghost here = buf@.skip(cur as int);
        proof {
            assert(fields@.skip(i as int)[0] == fields@[i as int]);
            assert(fields@.skip(i as int).skip(1) =~= fields@.skip(i + 1));
        }
        match skip_field(buf, cur, fields[i]) {
            ExtentResult::Done { len } => {
                proof {
                    assert(here.skip(len as int) =~= buf@.skip(cur + len));
                }
                cur = cur + len;
                i = i + 1;
            },
            ExtentResult::Incomplete => {
                return ExtentResult::Incomplete;
            },
            ExtentResult::Invalid => {
                return ExtentResult::Invalid;
            },
        }
    }
    ExtentResult::Done { len: cur - pos }
}

/// The piece that follows the mark `mark` in a value of a module.
fn field_after(mark: u64) -> (f: Option<Field>)
    ensures
        f == marked_field(mark),
{
    if mark == 1 || mark == 2 {
        Some(Field::Count)
    } else if mark == 3 {
        Some(Field::Bytes(4))
    } else if mark == 4 {
        Some(Field::Bytes(8))
    } else if mark == 5 {
        Some(Field::Str)
    } else {
        None
    }
}

/// Finds the end of the value of a module at `pos` in `buf`.
pub fn skip_module(buf: &[u8], pos: usize) -> (r: ExtentResult)
    requires
        pos <= buf.len(),
    ensures
        extent_agrees(r, module_extent(buf@.skip(pos as int))),
        r matches ExtentResult::Done { len } ==> pos + len <= buf.len(),
{
    let ghost s = buf@.skip(pos as int);
    let id = match skip_field(buf, pos, Field::Count) {
        ExtentResult::Done { len } => len,
        other => {
            return other;
        },
    };
    let first: usize = pos + id;
    let mut cur: usize = first;
    proof {
        assert(s.skip(id as int) =~= buf@.skip(first as int));
    }
    loop
        invariant_except_break
            marked_extent(buf@.skip(first as int)) == then(
                Extent::Done { len: cur - first },
                marked_extent(buf@.skip(cur as int)),
            ),
        invariant
            pos <= first <= cur <= buf.len(),
            module_extent(buf@.skip(pos as int)) == then(
                Extent::Done { len: first - pos },
                marked_extent(buf@.skip(first as int)),
            ),
        ensures
            first <= cur <= buf.len(),
            marked_extent(buf@.skip(first as int)) == (Extent::Done { len: cur - first }),
        decreases buf.len() - cur,
    {
        let ghost here = buf@.skip(cur as int);
        let (mark, len) = match read_count(buf, cur) {
            LenResult::Done { value: Length::Plain(n), len } => (n, len),
            LenResult::Done { value: Length::Special(_), .. } => {
                return ExtentResult::Invalid;
            },
            LenResult::Incomplete => {
                return ExtentResult::Incomplete;
            },
            LenResult::Invalid => {
                return ExtentResult::Invalid;
            },
        };
        if mark == 0 {
            cur = cur + len;
            break;
        }
        let f = match field_after(mark) {
            Some(f) => f,
            None => {
                return ExtentResult::Invalid;
            },
        };
        proof {
            assert(here.skip(len as int) =~= buf@.skip(cur + len));
        }
        match skip_field(buf, cur + len, f) {
            ExtentResult::Done { len: more } => {
                proof {
                    assert(here.skip(len + more) =~= buf@.skip(cur + len + more));
                }
                cur = cur + len + more;
            },
            other => {
                return other;
            },
        }
    }
    ExtentResult::Done { len: cur - pos }
}

} // verus!
