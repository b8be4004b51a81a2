//! Reading values from the bytes of the wire.
//!
//! A value starts with a byte that says what it is, followed by a line:
//! `+` a status, `-` an error, `:` an integer, `$` a byte string of the
//! length that the line gives, `*` an array of as many values as the line
//! gives. A line ends with a carriage return and a line feed. A byte
//! string is followed by the same two bytes. The length -1 stands for no
//! value.

use vstd::prelude::*;
use crate::extractor::redis::redis_resp_types::{lemma_bulk_view, value_views, Value, ValueView};
use crate::util::bytes::{bytes_eq, find_byte, first_index_of, lemma_first_index_of, slice_bytes};
use crate::util::decimal::{parse_i64, parse_i64_spec};

verus! {

/// How deep arrays may stand in arrays.
pub const MAX_DEPTH: usize = 32;

/// What the start of a byte sequence holds.
pub enum Parsed {
    /// A value, which took `len` bytes.
    Done { value: ValueView, len: int },
    /// The start of a value; more bytes are needed to tell.
    Incomplete,
    /// Nothing that the protocol allows.
    Invalid,
}

/// What the start of a byte sequence holds, read as a run of values.
pub enum ParsedItems {
    Done { values: Seq<ValueView>, len: int },
    Incomplete,
    Invalid,
}

/// What the start of a byte sequence holds, read as a line.
pub enum ParsedLine {
    /// The line `text`; with its end it took `len` bytes.
    Done { text: Seq<u8>, len: int },
    Incomplete,
    Invalid,
}

/// The text `OK`.
pub open spec fn ok_text() -> Seq<u8> {
    seq![79u8, 75u8]
}

/// The line at the start of `s`: what stands before the first carriage
/// return, which a line feed has to follow.
pub open spec fn parse_line(s: Seq<u8>) -> ParsedLine {
    let i = first_index_of(s, 13u8);
    if i + 1 >= s.len() {
        ParsedLine::Incomplete
    } else if s[i + 1] == 10 {
        ParsedLine::Done { text: s.take(i), len: i + 2 }
    } else {
        ParsedLine::Invalid
    }
}

/// The byte string of the length `n` that starts at `head` in `s`.
pub open spec fn parse_data(s: Seq<u8>, head: int, n: int) -> Parsed {
    if n == -1 {
        Parsed::Done { value: ValueView::Nil, len: head }
    } else if n < -1 {
        Parsed::Invalid
    } else if s.len() < head + n + 2 {
        Parsed::Incomplete
    } else if s[head + n] == 13 && s[head + n + 1] == 10 {
        Parsed::Done { value: ValueView::Data(s.subrange(head, head + n)), len: head + n + 2 }
    } else {
        Parsed::Invalid
    }
}

/// The value at the start of `s`, where arrays may stand `depth` deep.
pub open spec fn parse_value(s: Seq<u8>, depth: nat) -> Parsed
    decreases s.len(), 0nat,
{
    if s.len() == 0 {
        Parsed::Incomplete
    } else {
        match parse_line(s.skip(1)) {
            ParsedLine::Incomplete => Parsed::Incomplete,
            ParsedLine::Invalid => Parsed::Invalid,
            ParsedLine::Done { text, len } => {
                let head = len + 1;
                if s[0] == 43 {
                    Parsed::Done {
                        value: if text == ok_text() {
                            ValueView::Okay
                        } else {
                            ValueView::Status(text)
                        },
                        len: head,
                    }
                } else if s[0] == 45 {
                    Parsed::Done { value: ValueView::ServerError(text), len: head }
                } else if s[0] == 58 {
                    match parse_i64_spec(text) {
                        Some(v) => Parsed::Done { value: ValueView::Int(v), len: head },
                        None => Parsed::Invalid,
                    }
                } else if s[0] == 36 {
                    match parse_i64_spec(text) {
                        Some(n) => parse_data(s, head, n as int),
                        None => Parsed::Invalid,
                    }
                } else if s[0] == 42 {
                    match parse_i64_spec(text) {
                        Some(n) => if n == -1 {
                            Parsed::Done { value: ValueView::Nil, len: head }
                        } else if n < -1 || depth == 0 || head < 1 || head > s.len() {
                            Parsed::Invalid
                        } else {
                            match parse_items(s.skip(head), n as nat, (depth - 1) as nat) {
                                ParsedItems::Done { values, len } => Parsed::Done {
                                    value: ValueView::Bulk(values),
                                    len: head + len,
                                },
                                ParsedItems::Incomplete => Parsed::Incomplete,
                                ParsedItems::Invalid => Parsed::Invalid,
                            }
                        },
                        None => Parsed::Invalid,
                    }
                } else {
                    Parsed::Invalid
                }
            },
        }
    }
}

/// The `count` values at the start of `s`, one after the other.
pub open spec fn parse_items(s: Seq<u8>, count: nat, depth: nat) -> ParsedItems
    decreases s.len(), count + 1,
{
    if count == 0 {
        ParsedItems::Done { values: Seq::empty(), len: 0 }
    } else {
        match parse_value(s, depth) {
            Parsed::Incomplete => ParsedItems::Incomplete,
            Parsed::Invalid => ParsedItems::Invalid,
            Parsed::Done { value, len } => if len < 1 || len > s.len() {
                ParsedItems::Invalid
            } else {
                match parse_items(s.skip(len), (count - 1) as nat, depth) {
                    ParsedItems::Done { values, len: more } => ParsedItems::Done {
                        values: seq![value] + values,
                        len: len + more,
                    },
                    ParsedItems::Incomplete => ParsedItems::Incomplete,
                    ParsedItems::Invalid => ParsedItems::Invalid,
                }
            },
        }
    }
}

/// What reading a value from a buffer came to.
#[derive(Debug)]
pub enum ParseResult {
    /// A value, which took the first `len` bytes of the buffer.
    Done { value: Value, len: usize },
    /// The buffer ends within a value: read more and try again.
    Incomplete,
    /// The buffer starts with nothing that the protocol allows.
    Invalid,
}

/// Whether `r` is what `p` says.
pub open spec fn agrees(r: ParseResult, p: Parsed) -> bool {
    match p {
        Parsed::Done { value, len } => r matches ParseResult::Done { value: v, len: l } && v@
            == value && l == len,
        Parsed::Incomplete => r is Incomplete,
        Parsed::Invalid => r is Invalid,
    }
}

/// `rest` with the values `done`, which took `taken` bytes, in front.
pub open spec fn prepend(done: Seq<ValueView>, taken: int, rest: ParsedItems) -> ParsedItems {
    match rest {
        ParsedItems::Done { values, len } => ParsedItems::Done {
            values: done + values,
            len: taken + len,
        },
        ParsedItems::Incomplete => ParsedItems::Incomplete,
        ParsedItems::Invalid => ParsedItems::Invalid,
    }
}

enum LineEnd {
    At(usize),
    Incomplete,
    Invalid,
}

/// Finds the end of the line that starts at `from`: the place of its
/// carriage return.
fn read_line(buf: &[u8], from: usize) -> (r: LineEnd)
    requires
        from <= buf.len(),
    ensures
        match parse_line(buf@.skip(from as int)) {
            ParsedLine::Done { text, len } => r matches LineEnd::At(end) && from <= end && end + 2
                <= buf.len() && len == end + 2 - from && text == buf@.subrange(
                from as int,
                end as int,
            ),
            ParsedLine::Incomplete => r is Incomplete,
            ParsedLine::Invalid => r is Invalid,
        },
{
    let i = find_byte(buf, from, 13u8);
    proof {
        lemma_first_index_of(buf@.skip(from as int), 13u8);
    }
    if i >= buf.len() || buf.len() - i < 2 {
        return LineEnd::Incomplete;
    }
    if buf[i + 1] == 10 {
        proof {
            assert(buf@.skip(from as int).take(i - from) =~= buf@.subrange(from as int, i as int));
        }
        LineEnd::At(i)
    } else {
        LineEnd::Invalid
    }
}

/// Reads the value at `pos` in `buf`, where arrays may stand `depth`
/// deep.
fn parse_at(buf: &[u8], pos: usize, depth: usize) -> (r: ParseResult)
    requires
        pos <= buf.len(),
    ensures
        agrees(r, parse_value(buf@.skip(pos as int), depth as nat)),
        r matches ParseResult::Done { len, .. } ==> 1 <= len && pos + len <= buf.len(),
    decreases depth,
{
    let ghost s = buf@.skip(pos as int);
    if pos >= buf.len() {
        return ParseResult::Incomplete;
    }
    let tag: u8 = buf[pos];
    proof {
        assert(s[0] == tag);
        assert(s.skip(1) =~= buf@.skip(pos + 1));
    }
    let end: usize = match read_line(buf, pos + 1) {
        LineEnd::At(end) => end,
        LineEnd::Incomplete => {
            return ParseResult::Incomplete;
        },
        LineEnd::Invalid => {
            return ParseResult::Invalid;
        },
    };
    let text = slice_bytes(buf, pos + 1, end);
    let after: usize = end + 2;
    let ghost head: int = after - pos;
    if tag == 43 {
        let ok: Vec<u8> = vec![79u8, 75u8];
        proof {
            assert(ok@ =~= ok_text());
        }
        if bytes_eq(text.as_slice(), ok.as_slice()) {
            return ParseResult::Done { value: Value::Okay, len: after - pos };
        }
        return ParseResult::Done { value: Value::Status(text), len: after - pos };
    }
    if tag == 45 {
        return ParseResult::Done { value: Value::ServerError(text), len: after - pos };
    }
    let number: i64 = match parse_i64(text.as_slice()) {
        Some(v) => v,
        None => {
            return ParseResult::Invalid;
        },
    };
    if tag == 58 {
        return ParseResult::Done { value: Value::Int(number), len: after - pos };
    }
    if tag == 36 {
        if number == -1 {
            return ParseResult::Done { value: Value::Nil, len: after - pos };
        }
        if number < -1 {
            return ParseResult::Invalid;
        }
        let left: usize = buf.len() - after;
        if number as u64 > left as u64 {
            return ParseResult::Incomplete;
        }
        let n: usize = number as usize;
        if left - n < 2 {
            return ParseResult::Incomplete;
        }
        proof {
            assert(s[head + n] == buf@[after + n]);
            assert(s[head + n + 1] == buf@[after + n + 1]);
        }
        if buf[after + n] == 13 && buf[after + n + 1] == 10 {
            let data = slice_bytes(buf, after, after + n);
            proof {
                assert(data@ =~= s.subrange(head, head + n));
            }
            return ParseResult::Done { value: Value::Data(data), len: after + n + 2 - pos };
        }
        return ParseResult::Invalid;
    }
    if tag == 42 {
        if number == -1 {
            return ParseResult::Done { value: Value::Nil, len: after - pos };
        }
        if number < -1 || depth == 0 {
            return ParseResult::Invalid;
        }
        let count: u64 = number as u64;
        let ghost start = buf@.skip(after as int);
        proof {
            assert(s.skip(head) =~= start);
        }
        let mut items: Vec<Value> = Vec::new();
        let mut cur: usize = after;
        let mut k: u64 = 0;
        proof {
            assert(prepend(
                value_views(items@),
                0,
                parse_items(start, count as nat, (depth - 1) as nat),
            ) == parse_items(start, count as nat, (depth - 1) as nat)) by {
                let rest = parse_items(start, count as nat, (depth - 1) as nat);
                match rest {
                    ParsedItems::Done { values, len } => {
                        assert(value_views(items@) + values =~= values);
                    },
                    _ => {},
                }
            }
        }
        while k < count
            invariant
                k <= count,
                after <= cur <= buf.len(),
                depth >= 1,
                start == buf@.skip(after as int),
                parse_items(start, count as nat, (depth - 1) as nat) == prepend(
                    value_views(items@),
                    cur - after,
                    parse_items(buf@.skip(cur as int), (count - k) as nat, (depth - 1) as nat),
                ),
                s == buf@.skip(pos as int),
                tag == 42,
                s.len() > 0 && s[0] == tag,
                parse_line(s.skip(1)) == (ParsedLine::Done {
                    text: text@,
                    len: after - pos - 1,
                }),
                parse_i64_spec(text@) == Some(number),
                number == count,
                head == after - pos,
                pos < after,
                s.skip(head) == start,
            decreases count - k,
        {
            let ghost here = buf@.skip(cur as int);
            match parse_at(buf, cur, depth - 1) {
                ParseResult::Done { value, len } => {
                    let ghost before = items@;
                    proof {
                        assert(here.skip(len as int) =~= buf@.skip(cur + len));
                        let rest = parse_items(
                            buf@.skip(cur + len),
                            (count - k - 1) as nat,
                            (depth - 1) as nat,
                        );
                        match rest {
                            ParsedItems::Done { values, len: more } => {
                                assert(value_views(before.push(value)) + values =~= value_views(
                                    before,
                                ) + (seq![value@] + values));
                            },
                            _ => {},
                        }
                        assert(value_views(before.push(value)) =~= value_views(before).push(
                            value@,
                        ));
                    }
                    items.push(value);
                    cur = cur + len;
                    k = k + 1;
                },
                ParseResult::Incomplete => {
                    return ParseResult::Incomplete;
                },
                ParseResult::Invalid => {
                    return ParseResult::Invalid;
                },
            }
        }
        proof {
            lemma_bulk_view(items);
            assert(value_views(items@) + Seq::<ValueView>::empty() =~= value_views(items@));
        }
        return ParseResult::Done { value: Value::Bulk(items), len: cur - pos };
    }
    ParseResult::Invalid
}

/// Reads the value at the start of `buf`.
pub fn read_value(buf: &[u8]) -> (r: ParseResult)
    ensures
        agrees(r, parse_value(buf@, MAX_DEPTH as nat)),
        r matches ParseResult::Done { len, .. } ==> 1 <= len <= buf.len(),
{
    proof {
        assert(buf@.skip(0) =~= buf@);
    }
    parse_at(buf, 0, MAX_DEPTH)
}

} // verus!
