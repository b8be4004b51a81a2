//! The records of a snapshot.
//!
//! After its header a snapshot is a run of records. A record starts with
//! a byte that says what it is: a setting of the server, the database
//! that the following keys belong to, the expiry of the next key, the
//! end of the file, or, as the type of a value, a key with its value.
//!
//! A string, a list, a set, a hash and a sorted set with its scores as
//! text are decoded, also where the server has packed the collection
//! into one string or into a list of such strings. A stream is decoded
//! into the commands that build it again. A sorted set with binary
//! scores, a hash in the oldest packed form and a value of a module are
//! kept as they are written; they can be restored, not read. A value of
//! a module in the older form, which only the module can read, is not
//! accepted.
//!
//! Two records belong to no key: the code of a library of functions,
//! and what a module has saved beside its values, which is passed over.

use vstd::prelude::*;
use crate::extractor::redis::rdb::rdb_extent::{module_extent, skip_module, Extent, ExtentResult};
use crate::extractor::redis::rdb::rdb_packed::{
    intset_items,
    items_after,
    items_agree,
    listpack_items,
    read_intset,
    read_listpack,
    read_ziplist,
    ziplist_items,
};
use crate::extractor::redis::rdb::rdb_stream::{
    is_stream,
    parse_stream,
    read_stream,
    CmdsResult,
    ParsedCmds,
};
use crate::extractor::redis::rdb::rdb_reader::{
    le32,
    le64,
    parse_count,
    parse_string,
    read_count,
    read_le32,
    read_le64,
    read_string,
    LenResult,
    Length,
    ParsedLen,
    ParsedStr,
    StrResult,
};
use crate::meta::redis::redis_object::{
    bytes_of,
    field_views,
    scored_views,
    HashField,
    HashObject,
    ListObject,
    ModuleObject,
    ObjectView,
    RedisObject,
    SetObject,
    StreamObject,
    StringObject,
    ZSetEntry,
    ZsetObject,
};
use crate::util::bytes::{copy_bytes, slice_bytes};
use crate::util::decimal::{all_digits, digits_value};

verus! {

/// What the elements of a value are made of.
#[derive(Debug, Clone, Copy, PartialEq, Eq, Structural)]
pub enum ElemKind {
    /// A string.
    Str,
    /// A string and a score written as text.
    Scored,
    /// A string and a score in eight bytes.
    Scored2,
    /// The kind of a node of a list, one for a single element and two
    /// for a packed run of them, and the node as a string.
    Node,
}

/// What the start of a byte sequence holds, read as a run of strings.
pub enum ParsedStrs {
    Done { items: Seq<Seq<u8>>, len: int },
    Incomplete,
    Invalid,
}

/// The text `-inf`.
pub open spec fn minus_inf() -> Seq<u8> {
    seq![45u8, 105u8, 110u8, 102u8]
}

/// The text `inf`.
pub open spec fn plus_inf() -> Seq<u8> {
    seq![105u8, 110u8, 102u8]
}

/// The text `nan`.
pub open spec fn not_a_number() -> Seq<u8> {
    seq![110u8, 97u8, 110u8]
}

/// The score at the start of `s`: a byte that gives the length of its
/// text, or stands for one of three scores that have no digits.
#[verifier::opaque]
pub open spec fn parse_score(s: Seq<u8>) -> ParsedStr {
    if s.len() == 0 {
        ParsedStr::Incomplete
    } else if s[0] == 255 {
        ParsedStr::Done { bytes: minus_inf(), len: 1 }
    } else if s[0] == 254 {
        ParsedStr::Done { bytes: plus_inf(), len: 1 }
    } else if s[0] == 253 {
        ParsedStr::Done { bytes: not_a_number(), len: 1 }
    } else if s.len() < 1 + s[0] {
        ParsedStr::Incomplete
    } else {
        ParsedStr::Done { bytes: s.subrange(1, 1 + s[0]), len: 1 + s[0] }
    }
}

/// What follows the string of an element of kind `kind`, from `s` on.
pub open spec fn parse_second(s: Seq<u8>, kind: ElemKind) -> ParsedStr {
    match kind {
        ElemKind::Scored => parse_score(s),
        _ => if s.len() < 8 {
            ParsedStr::Incomplete
        } else {
            ParsedStr::Done { bytes: s.subrange(0, 8), len: 8 }
        },
    }
}

/// The element of kind `kind` at the start of `s`, as the strings that
/// it is made of.
#[verifier::opaque]
pub open spec fn parse_elem(s: Seq<u8>, kind: ElemKind) -> ParsedStrs {
    match kind {
        ElemKind::Str => match parse_string(s) {
            ParsedStr::Done { bytes, len } => ParsedStrs::Done { items: seq![bytes], len },
            ParsedStr::Incomplete => ParsedStrs::Incomplete,
            ParsedStr::Invalid => ParsedStrs::Invalid,
        },
        ElemKind::Node => match parse_count(s) {
            ParsedLen::Done { value, len: l1 } => if value->Plain_0 != 1 && value->Plain_0 != 2 {
                ParsedStrs::Invalid
            } else {
                match parse_string(s.skip(l1)) {
                    ParsedStr::Done { bytes, len } => ParsedStrs::Done {
                        items: seq![seq![value->Plain_0 as u8], bytes],
                        len: l1 + len,
                    },
                    ParsedStr::Incomplete => ParsedStrs::Incomplete,
                    ParsedStr::Invalid => ParsedStrs::Invalid,
                }
            },
            ParsedLen::Incomplete => ParsedStrs::Incomplete,
            ParsedLen::Invalid => ParsedStrs::Invalid,
        },
        _ => match parse_string(s) {
            ParsedStr::Done { bytes, len: l1 } => match parse_second(s.skip(l1), kind) {
                ParsedStr::Done { bytes: second, len } => ParsedStrs::Done {
                    items: seq![bytes, second],
                    len: l1 + len,
                },
                ParsedStr::Incomplete => ParsedStrs::Incomplete,
                ParsedStr::Invalid => ParsedStrs::Invalid,
            },
            ParsedStr::Incomplete => ParsedStrs::Incomplete,
            ParsedStr::Invalid => ParsedStrs::Invalid,
        },
    }
}

/// The `count` elements of kind `kind` at the start of `s`, as the
/// strings that they are made of, in order.
pub open spec fn parse_elems(s: Seq<u8>, kind: ElemKind, count: nat) -> ParsedStrs
    decreases count,
{
    if count == 0 {
        ParsedStrs::Done { items: Seq::empty(), len: 0 }
    } else {
        match parse_elem(s, kind) {
            ParsedStrs::Incomplete => ParsedStrs::Incomplete,
            ParsedStrs::Invalid => ParsedStrs::Invalid,
            ParsedStrs::Done { items, len } => match parse_elems(
                s.skip(len),
                kind,
                (count - 1) as nat,
            ) {
                ParsedStrs::Done { items: more, len: rest } => ParsedStrs::Done {
                    items: items + more,
                    len: len + rest,
                },
                ParsedStrs::Incomplete => ParsedStrs::Incomplete,
                ParsedStrs::Invalid => ParsedStrs::Invalid,
            },
        }
    }
}

/// How a value of the type `type_byte` is written: the kind of its
/// elements, how many elements stand for one that its count counts, and
/// whether a count comes first. `None` for a type that is not written
/// as a run of elements.
pub open spec fn shape_of(type_byte: u8) -> Option<(ElemKind, int, bool)> {
    if type_byte == 0 || (9 <= type_byte <= 13) || type_byte == 16 || type_byte == 17 || type_byte
        == 20 {
        Some((ElemKind::Str, 1, false))
    } else if type_byte == 1 || type_byte == 2 || type_byte == 14 {
        Some((ElemKind::Str, 1, true))
    } else if type_byte == 4 {
        Some((ElemKind::Str, 2, true))
    } else if type_byte == 3 {
        Some((ElemKind::Scored, 1, true))
    } else if type_byte == 5 {
        Some((ElemKind::Scored2, 1, true))
    } else if type_byte == 18 {
        Some((ElemKind::Node, 1, true))
    } else {
        None
    }
}

/// A value that reaches as far as `e` says and is not taken apart.
pub open spec fn whole(e: Extent) -> ParsedStrs {
    match e {
        Extent::Done { len } => ParsedStrs::Done { items: Seq::empty(), len },
        Extent::Incomplete => ParsedStrs::Incomplete,
        Extent::Invalid => ParsedStrs::Invalid,
    }
}

/// The value of the type `type_byte` at the start of `s`, as the strings
/// that it is made of. A value of a module is not taken apart.
#[verifier::opaque]
pub open spec fn parse_value(type_byte: u8, s: Seq<u8>) -> ParsedStrs {
    match shape_of(type_byte) {
        None => if type_byte == 7 {
            whole(module_extent(s))
        } else {
            ParsedStrs::Invalid
        },
        Some(shape) => if !shape.2 {
            parse_elems(s, shape.0, 1)
        } else {
            match parse_count(s) {
                ParsedLen::Incomplete => ParsedStrs::Incomplete,
                ParsedLen::Invalid => ParsedStrs::Invalid,
                ParsedLen::Done { value, len } => if value->Plain_0 * shape.1 > u64::MAX {
                    ParsedStrs::Invalid
                } else {
                    match parse_elems(s.skip(len), shape.0, (value->Plain_0 * shape.1) as nat) {
                        ParsedStrs::Done { items, len: rest } => ParsedStrs::Done {
                            items,
                            len: len + rest,
                        },
                        ParsedStrs::Incomplete => ParsedStrs::Incomplete,
                        ParsedStrs::Invalid => ParsedStrs::Invalid,
                    }
                },
            }
        },
    }
}

/// The strings of `items` two by two.
pub open spec fn pairs_of(items: Seq<Seq<u8>>) -> Seq<(Seq<u8>, Seq<u8>)> {
    Seq::new((items.len() / 2) as nat, |i: int| (items[2 * i], items[2 * i + 1]))
}

/// `items` where they can be taken two by two.
pub open spec fn in_pairs(items: Option<Seq<Seq<u8>>>) -> Option<Seq<Seq<u8>>> {
    match items {
        Some(i) => if i.len() % 2 == 0 {
            Some(i)
        } else {
            None
        },
        None => None,
    }
}

/// The entries of the zip lists `lists`, one list after the other.
pub open spec fn ziplists_items(lists: Seq<Seq<u8>>) -> Option<Seq<Seq<u8>>>
    decreases lists.len(),
{
    if lists.len() == 0 {
        Some(Seq::empty())
    } else {
        match ziplists_items(lists.drop_last()) {
            Some(done) => items_after(done, ziplist_items(lists.last())),
            None => None,
        }
    }
}

/// The elements of a node of the kind `kind`: the node itself, or the
/// entries of the list pack that it is.
pub open spec fn node_items(kind: Seq<u8>, node: Seq<u8>) -> Option<Seq<Seq<u8>>> {
    if kind == seq![1u8] {
        Some(seq![node])
    } else {
        listpack_items(node)
    }
}

/// The elements of the nodes `parts`, each written as its kind and the
/// node, one node after the other; `parts` holds two strings for each
/// node.
pub open spec fn nodes_items(parts: Seq<Seq<u8>>) -> Option<Seq<Seq<u8>>>
    decreases parts.len(),
{
    if parts.len() < 2 {
        Some(Seq::empty())
    } else {
        match nodes_items(parts.take(parts.len() - 2)) {
            Some(done) => items_after(done, node_items(parts[parts.len() - 2], parts.last())),
            None => None,
        }
    }
}

/// The elements of a value of the type `type_byte` that is written as
/// the strings `items`: the strings themselves, or what is packed into
/// them; `None` where that cannot be read.
pub open spec fn decoded(type_byte: u8, items: Seq<Seq<u8>>) -> Option<Seq<Seq<u8>>> {
    if type_byte == 14 {
        ziplists_items(items)
    } else if type_byte == 18 {
        if items.len() % 2 == 0 {
            nodes_items(items)
        } else {
            None
        }
    } else if type_byte == 10 || type_byte == 11 || type_byte == 12 || type_byte == 13
        || type_byte == 16 || type_byte == 17 || type_byte == 20 {
        if items.len() != 1 {
            None
        } else if type_byte == 10 {
            ziplist_items(items[0])
        } else if type_byte == 11 {
            intset_items(items[0])
        } else if type_byte == 20 {
            listpack_items(items[0])
        } else if type_byte == 12 || type_byte == 13 {
            in_pairs(ziplist_items(items[0]))
        } else {
            in_pairs(listpack_items(items[0]))
        }
    } else {
        Some(items)
    }
}

/// Whether a value of the type `type_byte` is a list.
pub open spec fn is_list(type_byte: u8) -> bool {
    type_byte == 1 || type_byte == 10 || type_byte == 14 || type_byte == 18
}

/// Whether a value of the type `type_byte` is a set.
pub open spec fn is_set(type_byte: u8) -> bool {
    type_byte == 2 || type_byte == 11 || type_byte == 20
}

/// Whether a value of the type `type_byte` is a sorted set with its
/// scores as text.
pub open spec fn is_zset(type_byte: u8) -> bool {
    type_byte == 3 || type_byte == 12 || type_byte == 17
}

/// Whether a value of the type `type_byte` is a hash.
pub open spec fn is_hash(type_byte: u8) -> bool {
    type_byte == 4 || type_byte == 13 || type_byte == 16
}

/// The object of the type `type_byte` under `key` with the elements
/// `items`; unknown for a type that is kept as it is written, but for a
/// value of a module.
pub open spec fn object_of(type_byte: u8, key: Seq<u8>, items: Seq<Seq<u8>>) -> ObjectView {
    if type_byte == 0 && items.len() == 1 {
        ObjectView::String { key, value: items[0] }
    } else if is_list(type_byte) {
        ObjectView::List { key, elements: items }
    } else if is_set(type_byte) {
        ObjectView::SetObj { key, elements: items }
    } else if is_zset(type_byte) {
        ObjectView::Zset { key, elements: pairs_of(items) }
    } else if is_hash(type_byte) {
        ObjectView::Hash { key, fields: pairs_of(items) }
    } else if type_byte == 7 {
        ObjectView::Module { key }
    } else {
        ObjectView::Unknown
    }
}

/// A record of a snapshot.
#[derive(Debug)]
pub enum RdbItem {
    /// A setting of the server that wrote the snapshot.
    Aux { key: Vec<u8>, value: Vec<u8> },
    /// The keys that follow belong to the database `db_id`.
    SelectDb { db_id: u64 },
    /// How many keys the database holds, and how many of them expire.
    ResizeDb { db_size: u64, expires_size: u64 },
    /// The next key expires at `at_ms` milliseconds since the epoch.
    Expire { at_ms: u64 },
    /// How long the next key has been idle.
    Idle { seconds: u64 },
    /// How often the next key is used.
    Freq { value: u8 },
    /// A key and its value. `raw` is the value as it is written.
    Object { type_byte: u8, key: Vec<u8>, value: RedisObject, raw: Vec<u8> },
    /// The code of a library of functions.
    Function { code: Vec<u8> },
    /// What a module has saved beside its values.
    ModuleAux {  },
    /// The end of the snapshot, with its checksum.
    End { checksum: u64 },
}

/// A record, as the contracts speak of it.
pub enum ItemView {
    Aux { key: Seq<u8>, value: Seq<u8> },
    SelectDb { db_id: u64 },
    ResizeDb { db_size: u64, expires_size: u64 },
    Expire { at_ms: u64 },
    Idle { seconds: u64 },
    Freq { value: u8 },
    Object { type_byte: u8, key: Seq<u8>, value: ObjectView, raw: Seq<u8> },
    Function { code: Seq<u8> },
    ModuleAux {  },
    End { checksum: u64 },
}

impl View for RdbItem {
    type V = ItemView;

    open spec fn view(&self) -> ItemView {
        match self {
            RdbItem::Aux { key, value } => ItemView::Aux { key: key@, value: value@ },
            RdbItem::SelectDb { db_id } => ItemView::SelectDb { db_id: *db_id },
            RdbItem::ResizeDb { db_size, expires_size } => ItemView::ResizeDb {
                db_size: *db_size,
                expires_size: *expires_size,
            },
            RdbItem::Expire { at_ms } => ItemView::Expire { at_ms: *at_ms },
            RdbItem::Idle { seconds } => ItemView::Idle { seconds: *seconds },
            RdbItem::Freq { value } => ItemView::Freq { value: *value },
            RdbItem::Object { type_byte, key, value, raw } => ItemView::Object {
                type_byte: *type_byte,
                key: key@,
                value: value@,
                raw: raw@,
            },
            RdbItem::Function { code } => ItemView::Function { code: code@ },
            RdbItem::ModuleAux {  } => ItemView::ModuleAux {  },
            RdbItem::End { checksum } => ItemView::End { checksum: *checksum },
        }
    }
}

/// What the start of a byte sequence holds, read as a record.
pub enum ParsedItem {
    Done { item: ItemView, len: int },
    Incomplete,
    Invalid,
}

/// The key and the value of the type `type_byte` that start at 1 in
/// `s`. A value whose packed elements cannot be read is invalid. A
/// stream is the commands that build it again.
#[verifier::opaque]
pub open spec fn parse_object(type_byte: u8, s: Seq<u8>) -> ParsedItem {
    match parse_string(s.skip(1)) {
        ParsedStr::Incomplete => ParsedItem::Incomplete,
        ParsedStr::Invalid => ParsedItem::Invalid,
        ParsedStr::Done { bytes: key, len: lk } => if is_stream(type_byte) {
            match parse_stream(type_byte, key, s.skip(1 + lk)) {
                ParsedCmds::Incomplete => ParsedItem::Incomplete,
                ParsedCmds::Invalid => ParsedItem::Invalid,
                ParsedCmds::Done { cmds, len: lv } => ParsedItem::Done {
                    item: ItemView::Object {
                        type_byte,
                        key,
                        value: ObjectView::Stream { key, cmds },
                        raw: s.subrange(1 + lk, 1 + lk + lv),
                    },
                    len: 1 + lk + lv,
                },
            }
        } else {
            match parse_value(type_byte, s.skip(1 + lk)) {
            ParsedStrs::Incomplete => ParsedItem::Incomplete,
            ParsedStrs::Invalid => ParsedItem::Invalid,
            ParsedStrs::Done { items, len: lv } => match decoded(type_byte, items) {
                None => ParsedItem::Invalid,
                Some(elements) => ParsedItem::Done {
                    item: ItemView::Object {
                        type_byte,
                        key,
                        value: object_of(type_byte, key, elements),
                        raw: s.subrange(1 + lk, 1 + lk + lv),
                    },
                    len: 1 + lk + lv,
                },
            },
            }
        },
    }
}

/// The record at the start of `s`.
#[verifier::opaque]
pub open spec fn parse_item(s: Seq<u8>) -> ParsedItem {
    if s.len() == 0 {
        ParsedItem::Incomplete
    } else if s[0] == 0xfa {
        match parse_string(s.skip(1)) {
            ParsedStr::Incomplete => ParsedItem::Incomplete,
            ParsedStr::Invalid => ParsedItem::Invalid,
            ParsedStr::Done { bytes: key, len: lk } => match parse_string(s.skip(1 + lk)) {
                ParsedStr::Incomplete => ParsedItem::Incomplete,
                ParsedStr::Invalid => ParsedItem::Invalid,
                ParsedStr::Done { bytes: value, len: lv } => ParsedItem::Done {
                    item: ItemView::Aux { key, value },
                    len: 1 + lk + lv,
                },
            },
        }
    } else if s[0] == 0xfb {
        match parse_count(s.skip(1)) {
            ParsedLen::Incomplete => ParsedItem::Incomplete,
            ParsedLen::Invalid => ParsedItem::Invalid,
            ParsedLen::Done { value: a, len: la } => match parse_count(s.skip(1 + la)) {
                ParsedLen::Incomplete => ParsedItem::Incomplete,
                ParsedLen::Invalid => ParsedItem::Invalid,
                ParsedLen::Done { value: b, len: lb } => ParsedItem::Done {
                    item: ItemView::ResizeDb { db_size: a->Plain_0, expires_size: b->Plain_0 },
                    len: 1 + la + lb,
                },
            },
        }
    } else if s[0] == 0xfe || s[0] == 0xf8 {
        match parse_count(s.skip(1)) {
            ParsedLen::Incomplete => ParsedItem::Incomplete,
            ParsedLen::Invalid => ParsedItem::Invalid,
            ParsedLen::Done { value, len } => ParsedItem::Done {
                item: if s[0] == 0xfe {
                    ItemView::SelectDb { db_id: value->Plain_0 }
                } else {
                    ItemView::Idle { seconds: value->Plain_0 }
                },
                len: 1 + len,
            },
        }
    } else if s[0] == 0xfd {
        if s.len() < 5 {
            ParsedItem::Incomplete
        } else {
            ParsedItem::Done { item: ItemView::Expire { at_ms: (le32(s, 1) * 1000) as u64 }, len: 5 }
        }
    } else if s[0] == 0xfc {
        if s.len() < 9 {
            ParsedItem::Incomplete
        } else {
            ParsedItem::Done { item: ItemView::Expire { at_ms: le64(s, 1) as u64 }, len: 9 }
        }
    } else if s[0] == 0xf9 {
        if s.len() < 2 {
            ParsedItem::Incomplete
        } else {
            ParsedItem::Done { item: ItemView::Freq { value: s[1] }, len: 2 }
        }
    } else if s[0] == 0xff {
        if s.len() < 9 {
            ParsedItem::Incomplete
        } else {
            ParsedItem::Done { item: ItemView::End { checksum: le64(s, 1) as u64 }, len: 9 }
        }
    } else if s[0] == 0xf5 {
        match parse_string(s.skip(1)) {
            ParsedStr::Incomplete => ParsedItem::Incomplete,
            ParsedStr::Invalid => ParsedItem::Invalid,
            ParsedStr::Done { bytes, len } => ParsedItem::Done {
                item: ItemView::Function { code: bytes },
                len: 1 + len,
            },
        }
    } else if s[0] == 0xf7 {
        match module_extent(s.skip(1)) {
            Extent::Incomplete => ParsedItem::Incomplete,
            Extent::Invalid => ParsedItem::Invalid,
            Extent::Done { len } => ParsedItem::Done { item: ItemView::ModuleAux {  }, len: 1 + len },
        }
    } else {
        parse_object(s[0], s)
    }
}

/// The word that a snapshot starts with.
pub open spec fn magic() -> Seq<u8> {
    seq![82u8, 69u8, 68u8, 73u8, 83u8]
}

/// The version of the format that the header of a snapshot gives: the
/// word `REDIS` and four digits. `Ok(None)` where `s` is too short to
/// tell.
pub open spec fn parse_header(s: Seq<u8>) -> Result<Option<u32>, ()> {
    if s.len() < 9 {
        Ok(None)
    } else if s.subrange(0, 5) == magic() && all_digits(s.subrange(5, 9)) {
        Ok(Some(digits_value(s.subrange(5, 9)) as u32))
    } else {
        Err(())
    }
}

/// Whether the snapshot `s` ends with the checksum of all that stands
/// before it. A checksum of zero says that the server wrote none.
pub open spec fn checksum_holds(s: Seq<u8>) -> bool {
    &&& s.len() >= 8
    &&& (le64(s, s.len() - 8) == 0 || le64(s, s.len() - 8) == crate::util::crc64::crc64_spec(
        0,
        s.take(s.len() - 8),
    ))
}

/// What reading a run of strings came to.
#[derive(Debug)]
pub enum StrsResult {
    Done { items: Vec<Vec<u8>>, len: usize },
    Incomplete,
    Invalid,
}

/// What reading a record came to.
#[derive(Debug)]
pub enum ItemResult {
    /// A record, which took `len` bytes of the buffer.
    Done { item: RdbItem, len: usize },
    /// The buffer ends within the record: read more and try again.
    Incomplete,
    /// The buffer holds nothing that is accepted as a record.
    Invalid,
}

/// Whether `r` is what `p` says.
pub open spec fn strs_agree(r: StrsResult, p: ParsedStrs) -> bool {
    match p {
        ParsedStrs::Done { items, len } => r matches StrsResult::Done { items: i, len: l }
            && bytes_of(i@) == items && l == len,
        ParsedStrs::Incomplete => r is Incomplete,
        ParsedStrs::Invalid => r is Invalid,
    }
}

/// Whether `r` is what `p` says.
pub open spec fn item_agrees(r: ItemResult, p: ParsedItem) -> bool {
    match p {
        ParsedItem::Done { item, len } => r matches ItemResult::Done { item: i, len: l } && i@
            == item && l == len,
        ParsedItem::Incomplete => r is Incomplete,
        ParsedItem::Invalid => r is Invalid,
    }
}

/// `rest` with the strings `done`, which took `taken` bytes, in front.
pub open spec fn strs_after(done: Seq<Seq<u8>>, taken: int, rest: ParsedStrs) -> ParsedStrs {
    match rest {
        ParsedStrs::Done { items, len } => ParsedStrs::Done { items: done + items, len: taken + len },
        ParsedStrs::Incomplete => ParsedStrs::Incomplete,
        ParsedStrs::Invalid => ParsedStrs::Invalid,
    }
}

/// Reads the score at `pos` in `buf`.
fn read_score(buf: &[u8], pos: usize) -> (r: StrResult)
    requires
        pos <= buf.len(),
    ensures
        crate::extractor::redis::rdb::rdb_reader::str_agrees(
            r,
            parse_score(buf@.skip(pos as int)),
        ),
        r matches StrResult::Done { len, .. } ==> 1 <= len && pos + len <= buf.len(),
{
    let ghost s = buf@.skip(pos as int);
    reveal(parse_score);
    let left: usize = buf.len() - pos;
    if left == 0 {
        return StrResult::Incomplete;
    }
    let l: u8 = buf[pos];
    proof {
        assert(s[0] == l);
    }
    if l == 255 {
        StrResult::Done { bytes: vec![45u8, 105u8, 110u8, 102u8], len: 1 }
    } else if l == 254 {
        StrResult::Done { bytes: vec![105u8, 110u8, 102u8], len: 1 }
    } else if l == 253 {
        StrResult::Done { bytes: vec![110u8, 97u8, 110u8], len: 1 }
    } else if left < 1 + l as usize {
        StrResult::Incomplete
    } else {
        let bytes = slice_bytes(buf, pos + 1, pos + 1 + l as usize);
        proof {
            assert(bytes@ =~= s.subrange(1, 1 + l));
        }
        StrResult::Done { bytes, len: 1 + l as usize }
    }
}

/// Reads the element of kind `kind` at `pos` in `buf` and appends its
/// strings to `items`. `Ok` holds the bytes that the element took.
fn read_elem(buf: &[u8], pos: usize, kind: ElemKind, items: &mut Vec<Vec<u8>>) -> (r: Result<
    usize,
    bool,
>)
    requires
        pos <= buf.len(),
    ensures
        match parse_elem(buf@.skip(pos as int), kind) {
            ParsedStrs::Done { items: read, len } => r matches Ok(l) && l == len && bytes_of(
                final(items)@,
            ) == bytes_of(old(items)@) + read && 1 <= len && pos + len <= buf.len(),
            ParsedStrs::Incomplete => r == Err::<usize, bool>(false) && final(items)@ == old(
                items,
            )@,
            ParsedStrs::Invalid => r == Err::<usize, bool>(true) && final(items)@ == old(items)@,
        },
{
    let ghost s = buf@.skip(pos as int);
    let ghost before = items@;
    reveal(parse_elem);
    match kind {
        ElemKind::Str => match read_string(buf, pos) {
            StrResult::Done { bytes, len } => {
                items.push(bytes);
                proof {
                    assert(bytes_of(items@) =~= bytes_of(before) + seq![bytes@]);
                }
                Ok(len)
            },
            StrResult::Incomplete => Err(false),
            StrResult::Invalid => Err(true),
        },
        ElemKind::Node => {
            let (kind, l1) = match read_count(buf, pos) {
                LenResult::Done { value: Length::Plain(n), len } => (n, len),
                LenResult::Done { value: Length::Special(_), .. } => {
                    return Err(true);
                },
                LenResult::Incomplete => {
                    return Err(false);
                },
                LenResult::Invalid => {
                    return Err(true);
                },
            };
            if kind != 1 && kind != 2 {
                return Err(true);
            }
            proof {
                assert(s.skip(l1 as int) =~= buf@.skip(pos + l1));
            }
            match read_string(buf, pos + l1) {
                StrResult::Done { bytes, len } => {
                    let mark: Vec<u8> = vec![kind as u8];
                    proof {
                        assert(mark@ =~= seq![kind as u8]);
                    }
                    items.push(mark);
                    items.push(bytes);
                    proof {
                        assert(bytes_of(items@) =~= bytes_of(before) + seq![mark@, bytes@]);
                    }
                    Ok(l1 + len)
                },
                StrResult::Incomplete => Err(false),
                StrResult::Invalid => Err(true),
            }
        },
        _ => {
            let (first, l1) = match read_string(buf, pos) {
                StrResult::Done { bytes, len } => (bytes, len),
                StrResult::Incomplete => {
                    return Err(false);
                },
                StrResult::Invalid => {
                    return Err(true);
                },
            };
            let at: usize = pos + l1;
            proof {
                assert(s.skip(l1 as int) =~= buf@.skip(at as int));
            }
            let (second, l2) = match kind {
                ElemKind::Scored => match read_score(buf, at) {
                    StrResult::Done { bytes, len } => (bytes, len),
                    StrResult::Incomplete => {
                        return Err(false);
                    },
                    StrResult::Invalid => {
                        return Err(true);
                    },
                },
                _ => {
                    if buf.len() - at < 8 {
                        return Err(false);
                    }
                    let bytes = slice_bytes(buf, at, at + 8);
                    proof {
                        assert(bytes@ =~= buf@.skip(at as int).subrange(0, 8));
                    }
                    (bytes, 8usize)
                },
            };
            items.push(first);
            items.push(second);
            proof {
                assert(bytes_of(items@) =~= bytes_of(before) + seq![first@, second@]);
            }
            Ok(l1 + l2)
        },
    }
}

/// Reads `count` elements of kind `kind` from `pos` on in `buf`.
fn read_elems(buf: &[u8], pos: usize, kind: ElemKind, count: u64) -> (r: StrsResult)
    requires
        pos <= buf.len(),
    ensures
        strs_agree(r, parse_elems(buf@.skip(pos as int), kind, count as nat)),
        r matches StrsResult::Done { len, .. } ==> pos + len <= buf.len(),
{
    let ghost start = buf@.skip(pos as int);
    let mut items: Vec<Vec<u8>> = Vec::new();
    let mut cur: usize = pos;
    let mut k: u64 = 0;
    proof {
        let all = parse_elems(start, kind, count as nat);
        match all {
            ParsedStrs::Done { items: read, len } => {
                assert(bytes_of(items@) + read =~= read);
            },
            _ => {},
        }
    }
    while k < count
        invariant
            k <= count,
            pos <= cur <= buf.len(),
            start == buf@.skip(pos as int),
            parse_elems(start, kind, count as nat) == strs_after(
                bytes_of(items@),
                cur - pos,
                parse_elems(buf@.skip(cur as int), kind, (count - k) as nat),
            ),
        decreases count - k,
    {
        let ghost here = buf@.skip(cur as int);
        let ghost before = bytes_of(items@);
        match read_elem(buf, cur, kind, &mut items) {
            Ok(len) => {
                proof {
                    assert(here.skip(len as int) =~= buf@.skip(cur + len));
                    let read = parse_elem(here, kind)->Done_items;
                    let rest = parse_elems(buf@.skip(cur + len), kind, (count - k - 1) as nat);
                    match rest {
                        ParsedStrs::Done { items: more, len: l } => {
                            assert(before + (read + more) =~= (before + read) + more);
                        },
                        _ => {},
                    }
                }
                cur = cur + len;
                k = k + 1;
            },
            Err(invalid) => {
                if invalid {
                    return StrsResult::Invalid;
                } else {
                    return StrsResult::Incomplete;
                }
            },
        }
    }
    proof {
        assert(bytes_of(items@) + Seq::<Seq<u8>>::empty() =~= bytes_of(items@));
    }
    StrsResult::Done { items, len: cur - pos }
}

/// How a value of the type `type_byte` is written.
fn shape(type_byte: u8) -> (r: Option<(ElemKind, u64, bool)>)
    ensures
        match r {
            Some(s) => shape_of(type_byte) == Some((s.0, s.1 as int, s.2)) && 1 <= s.1 <= 2,
            None => shape_of(type_byte) is None,
        },
{
    if type_byte == 0 || (9 <= type_byte && type_byte <= 13) || type_byte == 16 || type_byte == 17
        || type_byte == 20 {
        Some((ElemKind::Str, 1, false))
    } else if type_byte == 1 || type_byte == 2 || type_byte == 14 {
        Some((ElemKind::Str, 1, true))
    } else if type_byte == 4 {
        Some((ElemKind::Str, 2, true))
    } else if type_byte == 3 {
        Some((ElemKind::Scored, 1, true))
    } else if type_byte == 5 {
        Some((ElemKind::Scored2, 1, true))
    } else if type_byte == 18 {
        Some((ElemKind::Node, 1, true))
    } else {
        None
    }
}

/// Reads the value of the type `type_byte` at `pos` in `buf`.
fn read_value_strings(type_byte: u8, buf: &[u8], pos: usize) -> (r: StrsResult)
    requires
        pos <= buf.len(),
    ensures
        strs_agree(r, parse_value(type_byte, buf@.skip(pos as int))),
        r matches StrsResult::Done { len, .. } ==> pos + len <= buf.len(),
{
    let ghost s = buf@.skip(pos as int);
    reveal(parse_value);
    let (kind, times, counted) = match shape(type_byte) {
        Some(s) => s,
        None => {
            if type_byte != 7 {
                return StrsResult::Invalid;
            }
            return match skip_module(buf, pos) {
                ExtentResult::Done { len } => {
                    let items: Vec<Vec<u8>> = Vec::new();
                    proof {
                        assert(bytes_of(items@) =~= Seq::<Seq<u8>>::empty());
                    }
                    StrsResult::Done { items, len }
                },
                ExtentResult::Incomplete => StrsResult::Incomplete,
                ExtentResult::Invalid => StrsResult::Invalid,
            };
        },
    };
    if !counted {
        return read_elems(buf, pos, kind, 1);
    }
    let (n, head) = match read_count(buf, pos) {
        LenResult::Done { value: Length::Plain(n), len } => (n, len),
        LenResult::Done { value: Length::Special(_), .. } => {
            return StrsResult::Invalid;
        },
        LenResult::Incomplete => {
            return StrsResult::Incomplete;
        },
        LenResult::Invalid => {
            return StrsResult::Invalid;
        },
    };
    let total: u64 = match n.checked_mul(times) {
        Some(t) => t,
        None => {
            return StrsResult::Invalid;
        },
    };
    proof {
        assert(s.skip(head as int) =~= buf@.skip(pos + head));
    }
    match read_elems(buf, pos + head, kind, total) {
        StrsResult::Done { items, len } => StrsResult::Done { items, len: head + len },
        StrsResult::Incomplete => StrsResult::Incomplete,
        StrsResult::Invalid => StrsResult::Invalid,
    }
}

/// The strings of `items` two by two, as the fields of a hash.
fn hash_fields(items: &Vec<Vec<u8>>) -> (fields: Vec<HashField>)
    ensures
        field_views(fields@) == pairs_of(bytes_of(items@)),
{
    let mut fields: Vec<HashField> = Vec::new();
    let total: usize = items.len();
    let n: usize = total / 2;
    let mut i: usize = 0;
    while i < n
        invariant
            i <= n,
            total == items@.len(),
            n == total / 2,
            fields@.len() == i,
            forall|k: int|
                0 <= k < i ==> (#[trigger] fields@[k]).field@ == items@[2 * k]@ && fields@[k].value@
                    == items@[2 * k + 1]@,
        decreases n - i,
    {
        fields.push(
            HashField {
                field: copy_bytes(items[2 * i].as_slice()),
                value: copy_bytes(items[2 * i + 1].as_slice()),
            },
        );
        i = i + 1;
    }
    proof {
        assert(field_views(fields@) =~= pairs_of(bytes_of(items@)));
    }
    fields
}

/// The strings of `items` two by two, as the members of a sorted set.
fn scored_members(items: &Vec<Vec<u8>>) -> (elements: Vec<ZSetEntry>)
    ensures
        scored_views(elements@) == pairs_of(bytes_of(items@)),
{
    let mut elements: Vec<ZSetEntry> = Vec::new();
    let total: usize = items.len();
    let n: usize = total / 2;
    let mut i: usize = 0;
    while i < n
        invariant
            i <= n,
            total == items@.len(),
            n == total / 2,
            elements@.len() == i,
            forall|k: int|
                0 <= k < i ==> (#[trigger] elements@[k]).member@ == items@[2 * k]@
                    && elements@[k].score@ == items@[2 * k + 1]@,
        decreases n - i,
    {
        elements.push(
            ZSetEntry {
                member: copy_bytes(items[2 * i].as_slice()),
                score: copy_bytes(items[2 * i + 1].as_slice()),
            },
        );
        i = i + 1;
    }
    proof {
        assert(scored_views(elements@) =~= pairs_of(bytes_of(items@)));
    }
    elements
}

/// Appends the strings `more` to `items`.
fn append_items(items: &mut Vec<Vec<u8>>, more: Vec<Vec<u8>>)
    ensures
        bytes_of(final(items)@) == bytes_of(old(items)@) + bytes_of(more@),
{
    let ghost before = items@;
    let ghost added = more@;
    let mut more = more;
    items.append(&mut more);
    proof {
        assert(bytes_of(items@) =~= bytes_of(before) + bytes_of(added));
    }
}

/// Reads the entries of the zip lists `lists`, one list after the
/// other.
fn read_ziplists(lists: &Vec<Vec<u8>>) -> (r: Option<Vec<Vec<u8>>>)
    ensures
        items_agree(r, ziplists_items(bytes_of(lists@))),
{
    let ghost all = bytes_of(lists@);
    let mut items: Vec<Vec<u8>> = Vec::new();
    let mut i: usize = 0;
    proof {
        assert(all.take(0) =~= Seq::<Seq<u8>>::empty());
        assert(bytes_of(items@) =~= Seq::<Seq<u8>>::empty());
    }
    while i < lists.len()
        invariant
            i <= lists@.len(),
            all == bytes_of(lists@),
            ziplists_items(all.take(i as int)) == Some(bytes_of(items@)),
        decreases lists@.len() - i,
    {
        proof {
            let t = all.take(i + 1);
            assert(t.drop_last() =~= all.take(i as int));
            assert(t.last() == lists@[i as int]@);
        }
        match read_ziplist(lists[i].as_slice()) {
            Some(more) => {
                append_items(&mut items, more);
            },
            None => {
                proof {
                    lemma_ziplists_fail_early(all, i + 1);
                }
                return None;
            },
        }
        i = i + 1;
    }
    proof {
        assert(all.take(i as int) =~= all);
    }
    Some(items)
}

/// Reads the elements of the nodes `parts`, each written as its kind
/// and the node, one node after the other.
fn read_nodes(parts: &Vec<Vec<u8>>) -> (r: Option<Vec<Vec<u8>>>)
    requires
        parts@.len() % 2 == 0,
    ensures
        items_agree(r, nodes_items(bytes_of(parts@))),
{
    let ghost all = bytes_of(parts@);
    let total: usize = parts.len();
    let n: usize = total / 2;
    let mut items: Vec<Vec<u8>> = Vec::new();
    let mut i: usize = 0;
    proof {
        assert(all.take(0) =~= Seq::<Seq<u8>>::empty());
        assert(bytes_of(items@) =~= Seq::<Seq<u8>>::empty());
    }
    while i < n
        invariant
            i <= n,
            total == parts@.len(),
            n == total / 2,
            total % 2 == 0,
            all == bytes_of(parts@),
            nodes_items(all.take(2 * i)) == Some(bytes_of(items@)),
        decreases n - i,
    {
        let kind = &parts[2 * i];
        let node = &parts[2 * i + 1];
        proof {
            let t = all.take(2 * i + 2);
            assert(t.take(t.len() - 2) =~= all.take(2 * i));
            assert(t[t.len() - 2] == kind@);
            assert(t.last() == node@);
        }
        let single = kind.len() == 1 && kind[0] == 1;
        proof {
            assert(single == (kind@ == seq![1u8])) by {
                if single {
                    assert(kind@ =~= seq![1u8]);
                } else if kind@ == seq![1u8] {
                    assert(kind@.len() == 1 && kind@[0] == 1);
                }
            }
        }
        if single {
            let ghost before = bytes_of(items@);
            let copy = copy_bytes(node.as_slice());
            items.push(copy);
            proof {
                assert(bytes_of(items@) =~= before + seq![node@]);
            }
        } else {
            match read_listpack(node.as_slice()) {
                Some(more) => {
                    append_items(&mut items, more);
                },
                None => {
                    proof {
                        lemma_nodes_fail_early(all, 2 * i + 2);
                    }
                    return None;
                },
            }
        }
        i = i + 1;
    }
    proof {
        assert(all.take(2 * i) =~= all);
    }
    Some(items)
}

/// `items` where they can be taken two by two.
fn taken_in_pairs(items: Option<Vec<Vec<u8>>>) -> (r: Option<Vec<Vec<u8>>>)
    ensures
        forall|p: Option<Seq<Seq<u8>>>| #[trigger] items_agree(items, p) ==> items_agree(r, in_pairs(p)),
{
    match items {
        Some(v) => if v.len() % 2 == 0 {
            Some(v)
        } else {
            None
        },
        None => None,
    }
}

/// Reads the elements of a value of the type `type_byte` that is
/// written as the strings `items`.
fn decode_items(type_byte: u8, items: Vec<Vec<u8>>) -> (r: Option<Vec<Vec<u8>>>)
    ensures
        items_agree(r, decoded(type_byte, bytes_of(items@))),
{
    if type_byte == 14 {
        read_ziplists(&items)
    } else if type_byte == 18 {
        if items.len() % 2 != 0 {
            return None;
        }
        read_nodes(&items)
    } else if type_byte == 10 || type_byte == 11 || type_byte == 12 || type_byte == 13
        || type_byte == 16 || type_byte == 17 || type_byte == 20 {
        if items.len() != 1 {
            return None;
        }
        let packed = items[0].as_slice();
        if type_byte == 10 {
            read_ziplist(packed)
        } else if type_byte == 11 {
            read_intset(packed)
        } else if type_byte == 20 {
            read_listpack(packed)
        } else if type_byte == 12 || type_byte == 13 {
            let read = read_ziplist(packed);
            proof {
                assert(items_agree(read, ziplist_items(packed@)));
            }
            taken_in_pairs(read)
        } else {
            let read = read_listpack(packed);
            proof {
                assert(items_agree(read, listpack_items(packed@)));
            }
            taken_in_pairs(read)
        }
    } else {
        Some(items)
    }
}

/// The object of the type `type_byte` under `key` with the elements
/// `items`.
fn build_object(type_byte: u8, key: &Vec<u8>, items: Vec<Vec<u8>>) -> (value: RedisObject)
    ensures
        value@ == object_of(type_byte, key@, bytes_of(items@)),
{
    if type_byte == 0 && items.len() == 1 {
        RedisObject::String(
            StringObject { key: copy_bytes(key.as_slice()), value: copy_bytes(items[0].as_slice()) },
        )
    } else if type_byte == 1 || type_byte == 10 || type_byte == 14 || type_byte == 18 {
        RedisObject::List(ListObject { key: copy_bytes(key.as_slice()), elements: items })
    } else if type_byte == 2 || type_byte == 11 || type_byte == 20 {
        RedisObject::SetObj(SetObject { key: copy_bytes(key.as_slice()), elements: items })
    } else if type_byte == 3 || type_byte == 12 || type_byte == 17 {
        RedisObject::Zset(
            ZsetObject { key: copy_bytes(key.as_slice()), elements: scored_members(&items) },
        )
    } else if type_byte == 4 || type_byte == 13 || type_byte == 16 {
        RedisObject::Hash(HashObject { key: copy_bytes(key.as_slice()), fields: hash_fields(&items) })
    } else if type_byte == 7 {
        RedisObject::Module(ModuleObject { key: copy_bytes(key.as_slice()) })
    } else {
        RedisObject::Unknown
    }
}

pub struct RdbParser {}

impl RdbParser {
    /// Reads the header of a snapshot: the version of its format.
    /// `Ok(None)` where the buffer is too short to tell, an error where
    /// it does not start as a snapshot does. The header takes nine
    /// bytes.
    pub fn read_header(buf: &[u8]) -> (r: Result<Option<u32>, ()>)
        ensures
            r == parse_header(buf@),
    {
        if buf.len() < 9 {
            return Ok(None);
        }
        let word = slice_bytes(buf, 0, 5);
        let expected: Vec<u8> = vec![82u8, 69u8, 68u8, 73u8, 83u8];
        proof {
            assert(expected@ =~= magic());
        }
        if !crate::util::bytes::bytes_eq(word.as_slice(), expected.as_slice()) {
            return Err(());
        }
        let ghost digits = buf@.subrange(5, 9);
        let mut version: u32 = 0;
        let mut i: usize = 5;
        proof {
            assert(digits.take(0) =~= Seq::<u8>::empty());
        }
        while i < 9
            invariant
                5 <= i <= 9,
                buf.len() >= 9,
                digits == buf@.subrange(5, 9),
                all_digits(digits.take(i - 5)),
                version == digits_value(digits.take(i - 5)),
                version <= 9999,
                i == 5 ==> version == 0,
                i == 6 ==> version <= 9,
                i == 7 ==> version <= 99,
                i == 8 ==> version <= 999,
            decreases 9 - i,
        {
            let c: u8 = buf[i];
            proof {
                assert(digits[i - 5] == c);
            }
            if c < 48 || c > 57 {
                return Err(());
            }
            proof {
                let t = digits.take(i - 5 + 1);
                assert(t.drop_last() =~= digits.take(i - 5));
                assert(t.last() == c);
                assert forall|j: int| 0 <= j < t.len() implies 48 <= #[trigger] t[j] <= 57 by {
                    if j < i - 5 {
                        assert(digits.take(i - 5)[j] == t[j]);
                    }
                }
            }
            version = version * 10 + (c - 48) as u32;
            i = i + 1;
        }
        proof {
            assert(digits.take(4) =~= digits);
        }
        Ok(Some(version))
    }

    /// Whether the snapshot `buf` ends with the checksum of all that
    /// stands before it, or with no checksum.
    pub fn checksum_ok(buf: &[u8]) -> (r: bool)
        ensures
            r == checksum_holds(buf@),
    {
        if buf.len() < 8 {
            return false;
        }
        let at: usize = buf.len() - 8;
        let written = read_le64(buf, at);
        if written == 0 {
            return true;
        }
        let body = slice_bytes(buf, 0, at);
        proof {
            assert(body@ =~= buf@.take(at as int));
        }
        crate::util::crc64::crc64(0, body.as_slice()) == written
    }

    /// Reads the key and the value of the type `type_byte` after the
    /// type byte at `pos`.
    fn read_object(type_byte: u8, buf: &[u8], pos: usize) -> (r: ItemResult)
        requires
            pos < buf.len(),
        ensures
            item_agrees(r, parse_object(type_byte, buf@.skip(pos as int))),
            r matches ItemResult::Done { len, .. } ==> 1 <= len && pos + len <= buf.len(),
    {
        let ghost s = buf@.skip(pos as int);
        reveal(parse_object);
        proof {
            assert(s.skip(1) =~= buf@.skip(pos + 1));
        }
        let (key, lk) = match read_string(buf, pos + 1) {
            StrResult::Done { bytes, len } => (bytes, len),
            StrResult::Incomplete => {
                return ItemResult::Incomplete;
            },
            StrResult::Invalid => {
                return ItemResult::Invalid;
            },
        };
        let at: usize = pos + 1 + lk;
        proof {
            assert(s.skip(1 + lk) =~= buf@.skip(at as int));
        }
        if type_byte == 15 || type_byte == 19 || type_byte == 21 {
            return match read_stream(type_byte, key.as_slice(), buf, at) {
                CmdsResult::Done { cmds, len: lv } => {
                    let raw = slice_bytes(buf, at, at + lv);
                    proof {
                        assert(raw@ =~= s.subrange(1 + lk, 1 + lk + lv));
                    }
                    let value = RedisObject::Stream(
                        StreamObject { key: copy_bytes(key.as_slice()), cmds },
                    );
                    ItemResult::Done {
                        item: RdbItem::Object { type_byte, key, value, raw },
                        len: 1 + lk + lv,
                    }
                },
                CmdsResult::Incomplete => ItemResult::Incomplete,
                CmdsResult::Invalid => ItemResult::Invalid,
            };
        }
        match read_value_strings(type_byte, buf, at) {
            StrsResult::Done { items, len: lv } => {
                let raw = slice_bytes(buf, at, at + lv);
                proof {
                    assert(raw@ =~= s.subrange(1 + lk, 1 + lk + lv));
                }
                let elements = match decode_items(type_byte, items) {
                    Some(e) => e,
                    None => {
                        return ItemResult::Invalid;
                    },
                };
                let value = build_object(type_byte, &key, elements);
                ItemResult::Done {
                    item: RdbItem::Object { type_byte, key, value, raw },
                    len: 1 + lk + lv,
                }
            },
            StrsResult::Incomplete => ItemResult::Incomplete,
            StrsResult::Invalid => ItemResult::Invalid,
        }
    }

    /// Reads the record at `pos` in `buf`.
    pub fn read_item(buf: &[u8], pos: usize) -> (r: ItemResult)
        requires
            pos <= buf.len(),
        ensures
            item_agrees(r, parse_item(buf@.skip(pos as int))),
            r matches ItemResult::Done { len, .. } ==> 1 <= len && pos + len <= buf.len(),
    {
        let ghost s = buf@.skip(pos as int);
        reveal(parse_item);
        let left: usize = buf.len() - pos;
        if left == 0 {
            return ItemResult::Incomplete;
        }
        let op: u8 = buf[pos];
        proof {
            assert(s[0] == op);
            assert(s.skip(1) =~= buf@.skip(pos + 1));
        }
        if op == 0xfa {
            let (key, lk) = match read_string(buf, pos + 1) {
                StrResult::Done { bytes, len } => (bytes, len),
                StrResult::Incomplete => {
                    return ItemResult::Incomplete;
                },
                StrResult::Invalid => {
                    return ItemResult::Invalid;
                },
            };
            proof {
                assert(s.skip(1 + lk) =~= buf@.skip(pos + 1 + lk));
            }
            match read_string(buf, pos + 1 + lk) {
                StrResult::Done { bytes, len } => ItemResult::Done {
                    item: RdbItem::Aux { key, value: bytes },
                    len: 1 + lk + len,
                },
                StrResult::Incomplete => ItemResult::Incomplete,
                StrResult::Invalid => ItemResult::Invalid,
            }
        } else if op == 0xfb {
            let (a, la) = match read_count(buf, pos + 1) {
                LenResult::Done { value: Length::Plain(n), len } => (n, len),
                LenResult::Done { value: Length::Special(_), .. } => {
                    return ItemResult::Invalid;
                },
                LenResult::Incomplete => {
                    return ItemResult::Incomplete;
                },
                LenResult::Invalid => {
                    return ItemResult::Invalid;
                },
            };
            proof {
                assert(s.skip(1 + la) =~= buf@.skip(pos + 1 + la));
            }
            match read_count(buf, pos + 1 + la) {
                LenResult::Done { value: Length::Plain(b), len } => ItemResult::Done {
                    item: RdbItem::ResizeDb { db_size: a, expires_size: b },
                    len: 1 + la + len,
                },
                LenResult::Done { value: Length::Special(_), .. } => ItemResult::Invalid,
                LenResult::Incomplete => ItemResult::Incomplete,
                LenResult::Invalid => ItemResult::Invalid,
            }
        } else if op == 0xfe || op == 0xf8 {
            match read_count(buf, pos + 1) {
                LenResult::Done { value: Length::Plain(n), len } => ItemResult::Done {
                    item: if op == 0xfe {
                        RdbItem::SelectDb { db_id: n }
                    } else {
                        RdbItem::Idle { seconds: n }
                    },
                    len: 1 + len,
                },
                LenResult::Done { value: Length::Special(_), .. } => ItemResult::Invalid,
                LenResult::Incomplete => ItemResult::Incomplete,
                LenResult::Invalid => ItemResult::Invalid,
            }
        } else if op == 0xfd {
            if left < 5 {
                return ItemResult::Incomplete;
            }
            proof {
                assert(le32(s, 1) == le32(buf@, pos + 1)) by {
                    assert(s[1] == buf@[pos + 1] && s[2] == buf@[pos + 2] && s[3] == buf@[pos + 3]
                        && s[4] == buf@[pos + 4]);
                }
            }
            ItemResult::Done { item: RdbItem::Expire { at_ms: read_le32(buf, pos + 1) * 1000 }, len: 5 }
        } else if op == 0xfc || op == 0xff {
            if left < 9 {
                return ItemResult::Incomplete;
            }
            proof {
                assert(le64(s, 1) == le64(buf@, pos + 1)) by {
                    assert(s[1] == buf@[pos + 1] && s[2] == buf@[pos + 2] && s[3] == buf@[pos + 3]
                        && s[4] == buf@[pos + 4]);
                    assert(s[5] == buf@[pos + 5] && s[6] == buf@[pos + 6] && s[7] == buf@[pos + 7]
                        && s[8] == buf@[pos + 8]);
                }
            }
            let v = read_le64(buf, pos + 1);
            ItemResult::Done {
                item: if op == 0xfc {
                    RdbItem::Expire { at_ms: v }
                } else {
                    RdbItem::End { checksum: v }
                },
                len: 9,
            }
        } else if op == 0xf9 {
            if left < 2 {
                return ItemResult::Incomplete;
            }
            proof {
                assert(s[1] == buf@[pos + 1]);
            }
            ItemResult::Done { item: RdbItem::Freq { value: buf[pos + 1] }, len: 2 }
        } else if op == 0xf5 {
            match read_string(buf, pos + 1) {
                StrResult::Done { bytes, len } => ItemResult::Done {
                    item: RdbItem::Function { code: bytes },
                    len: 1 + len,
                },
                StrResult::Incomplete => ItemResult::Incomplete,
                StrResult::Invalid => ItemResult::Invalid,
            }
        } else if op == 0xf7 {
            match skip_module(buf, pos + 1) {
                ExtentResult::Done { len } => ItemResult::Done {
                    item: RdbItem::ModuleAux {  },
                    len: 1 + len,
                },
                ExtentResult::Incomplete => ItemResult::Incomplete,
                ExtentResult::Invalid => ItemResult::Invalid,
            }
        } else {
            RdbParser::read_object(op, buf, pos)
        }
    }
}

/// Where a zip list among the first `k` cannot be read, the lists
/// cannot.
pub proof fn lemma_ziplists_fail_early(lists: Seq<Seq<u8>>, k: int)
    requires
        0 <= k <= lists.len(),
        ziplists_items(lists.take(k)) is None,
    ensures
        ziplists_items(lists) is None,
    decreases lists.len() - k,
{
    if k < lists.len() {
        let t = lists.take(k + 1);
        assert(t.drop_last() =~= lists.take(k));
        lemma_ziplists_fail_early(lists, k + 1);
    } else {
        assert(lists.take(k) =~= lists);
    }
}

/// Where a node among the first `k` strings cannot be read, the nodes
/// cannot.
pub proof fn lemma_nodes_fail_early(parts: Seq<Seq<u8>>, k: int)
    requires
        0 <= k <= parts.len(),
        k % 2 == 0,
        parts.len() % 2 == 0,
        nodes_items(parts.take(k)) is None,
    ensures
        nodes_items(parts) is None,
    decreases parts.len() - k,
{
    if k < parts.len() {
        let t = parts.take(k + 2);
        assert(t.take(t.len() - 2) =~= parts.take(k));
        lemma_nodes_fail_early(parts, k + 2);
    } else {
        assert(parts.take(k) =~= parts);
    }
}

} // verus!
