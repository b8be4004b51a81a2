//! A stream of a snapshot, as the commands that build it again.
//!
//! The entries of a stream are written in blocks. A block is a run of
//! packed elements: a head that names the fields that most entries of
//! the block have, then the entries. An entry gives its identifier as
//! the distance from the identifier of the block, and its values; its
//! fields only where they are not those of the head. Each entry that was
//! not deleted becomes a command that appends it.
//!
//! Behind the blocks stand the last identifier that the stream gave out
//! and its groups of consumers. A group has a list of the entries that
//! were delivered and not yet acknowledged; each consumer names those
//! among them that were delivered to it. A group becomes a command that
//! creates it, and each entry that is pending with a consumer a command
//! that claims it for that consumer.

use vstd::prelude::*;
use crate::extractor::redis::rdb::rdb_extent::{
    field_extent,
    fields_extent,
    reach,
    skip_field,
    skip_fields,
    Extent,
    ExtentResult,
    Field,
};
use crate::extractor::redis::rdb::rdb_packed::{listpack_items, read_listpack};
use crate::extractor::redis::rdb::rdb_reader::{
    be32,
    be64,
    le16,
    le32,
    le64,
    parse_count,
    parse_string,
    read_be64,
    read_count,
    read_le64,
    read_string,
    LenResult,
    Length,
    ParsedLen,
    ParsedStr,
    StrResult,
};
use crate::meta::redis::redis_object::{bytes_of, RedisCmd};
use crate::sinker::redis::cmd_encoder::cmd_views;
use crate::util::bytes::{lit, push_bytes};
use crate::util::decimal::{digits_of, parse_i64, parse_i64_spec, u64_to_decimal};

verus! {

/// The identifier of an entry of a stream: a time in milliseconds, and a
/// number that tells the entries of one millisecond apart.
#[derive(Debug, Clone, Copy, PartialEq, Eq, Structural)]
pub struct StreamId {
    pub ms: u64,
    pub seq: u64,
}

/// An identifier as commands write it: the two numbers with a hyphen
/// between them.
pub open spec fn id_text(id: StreamId) -> Seq<u8> {
    digits_of(id.ms as nat) + seq![45u8] + digits_of(id.seq as nat)
}

/// The strings of `fields` and `values` in turn: a field, its value, the
/// next field.
pub open spec fn interleave(fields: Seq<Seq<u8>>, values: Seq<Seq<u8>>) -> Seq<Seq<u8>> {
    Seq::new(
        2 * fields.len(),
        |i: int|
            if i % 2 == 0 {
                fields[i / 2]
            } else {
                values[i / 2]
            },
    )
}

/// The command that appends the entry `id` with the fields and values
/// `pairs` to the stream under `key`.
pub open spec fn xadd_cmd(key: Seq<u8>, id: StreamId, pairs: Seq<Seq<u8>>) -> Seq<Seq<u8>> {
    seq![lit("xadd"), key, id_text(id)] + pairs
}

/// `rest` with the commands `done` in front.
pub open spec fn cmds_after(done: Seq<Seq<Seq<u8>>>, rest: Option<Seq<Seq<Seq<u8>>>>) -> Option<
    Seq<Seq<Seq<u8>>>,
> {
    match rest {
        Some(cmds) => Some(done + cmds),
        None => None,
    }
}

/// The number that the element at `p` of `items` writes.
pub open spec fn num_at(items: Seq<Seq<u8>>, p: int) -> Option<int> {
    if 0 <= p < items.len() {
        match parse_i64_spec(items[p]) {
            Some(v) => Some(v as int),
            None => None,
        }
    } else {
        None
    }
}

/// `base` moved by `diff`, where that is an identifier's number.
pub open spec fn moved(base: u64, diff: int) -> Option<u64> {
    if 0 <= base + diff <= u64::MAX {
        Some((base + diff) as u64)
    } else {
        None
    }
}

/// An entry of a block.
pub struct EntryView {
    /// Whether the entry was deleted.
    pub deleted: bool,
    pub id: StreamId,
    /// Its fields and values in turn.
    pub pairs: Seq<Seq<u8>>,
    /// Where the next entry starts.
    pub next: int,
}

/// The entry that starts at `p` in the elements `items` of a block whose
/// identifier is `first` and whose head names the fields `fields`.
///
/// An entry starts with its flags, one for a deleted entry and two for
/// one with the fields of the head, and the distance of its identifier
/// from that of the block. With the fields of the head its values
/// follow; else the count of its fields, then fields and values in turn.
/// One more element ends the entry.
pub open spec fn entry_at(
    first: StreamId,
    fields: Seq<Seq<u8>>,
    items: Seq<Seq<u8>>,
    p: int,
) -> Option<EntryView> {
    match (num_at(items, p), num_at(items, p + 1), num_at(items, p + 2)) {
        (Some(flags), Some(ms_diff), Some(seq_diff)) => match (
            moved(first.ms, ms_diff),
            moved(first.seq, seq_diff),
        ) {
            (Some(ms), Some(seq)) => if flags < 0 || flags > 3 {
                None
            } else if flags >= 2 {
                if p + 4 + fields.len() > items.len() {
                    None
                } else {
                    Some(
                        EntryView {
                            deleted: flags == 3,
                            id: StreamId { ms, seq },
                            pairs: interleave(fields, items.subrange(p + 3, p + 3 + fields.len())),
                            next: p + 4 + fields.len(),
                        },
                    )
                }
            } else {
                match num_at(items, p + 3) {
                    Some(n) => if n < 0 || p + 5 + 2 * n > items.len() {
                        None
                    } else {
                        Some(
                            EntryView {
                                deleted: flags == 1,
                                id: StreamId { ms, seq },
                                pairs: items.subrange(p + 4, p + 4 + 2 * n),
                                next: p + 5 + 2 * n,
                            },
                        )
                    },
                    None => None,
                }
            },
            _ => None,
        },
        _ => None,
    }
}

/// The commands that append the entries from `p` on in the elements
/// `items` of a block, up to the end of the elements.
pub open spec fn entries_cmds(
    key: Seq<u8>,
    first: StreamId,
    fields: Seq<Seq<u8>>,
    items: Seq<Seq<u8>>,
    p: int,
) -> Option<Seq<Seq<Seq<u8>>>>
    decreases items.len() - p,
{
    if p >= items.len() {
        if p == items.len() {
            Some(Seq::empty())
        } else {
            None
        }
    } else {
        match entry_at(first, fields, items, p) {
            None => None,
            Some(e) => if e.deleted {
                entries_cmds(key, first, fields, items, e.next)
            } else {
                cmds_after(
                    seq![xadd_cmd(key, e.id, e.pairs)],
                    entries_cmds(key, first, fields, items, e.next),
                )
            },
        }
    }
}

/// The commands that append the entries of the block with the
/// identifier `first` and the elements `items` to the stream under
/// `key`. The head of a block is two counts, which are not read, the
/// count of its fields, the fields, and one more element.
pub open spec fn block_cmds(key: Seq<u8>, first: StreamId, items: Seq<Seq<u8>>) -> Option<
    Seq<Seq<Seq<u8>>>,
> {
    match num_at(items, 2) {
        Some(n) => if n < 0 || 4 + n > items.len() {
            None
        } else {
            entries_cmds(key, first, items.subrange(3, 3 + n), items, 4 + n)
        },
        None => None,
    }
}

/// Whether `r` holds the commands that `p` says.
pub open spec fn cmds_agree(r: Option<Vec<RedisCmd>>, p: Option<Seq<Seq<Seq<u8>>>>) -> bool {
    match p {
        Some(cmds) => r matches Some(v) && cmd_views(v@) == cmds,
        None => r is None,
    }
}

/// An identifier as commands write it.
pub fn id_to_text(id: StreamId) -> (out: Vec<u8>)
    ensures
        out@ == id_text(id),
{
    let mut out = u64_to_decimal(id.ms);
    out.push(45u8);
    let seq = u64_to_decimal(id.seq);
    push_bytes(&mut out, seq.as_slice());
    proof {
        assert(out@ =~= id_text(id));
    }
    out
}

/// The number that the element at `p` of `items` writes.
fn read_num(items: &Vec<Vec<u8>>, p: usize) -> (r: Option<i64>)
    ensures
        match num_at(bytes_of(items@), p as int) {
            Some(v) => r == Some(v as i64) && i64::MIN <= v <= i64::MAX,
            None => r is None,
        },
{
    if p < items.len() {
        parse_i64(items[p].as_slice())
    } else {
        None
    }
}

/// `base` moved by `diff`.
fn move_by(base: u64, diff: i64) -> (r: Option<u64>)
    ensures
        r == moved(base, diff as int),
{
    if diff >= 0 {
        base.checked_add(diff as u64)
    } else {
        let back: u64 = if diff == i64::MIN {
            0x8000_0000_0000_0000
        } else {
            (-diff) as u64
        };
        base.checked_sub(back)
    }
}

/// The command that appends an entry with the fields of the head of its
/// block, which stand from 3 on in `items`, and the values from `at` on.
fn xadd_same(key: &[u8], id: StreamId, items: &Vec<Vec<u8>>, count: usize, at: usize) -> (cmd:
    RedisCmd)
    requires
        3 + count <= items@.len(),
        at + count <= items@.len(),
    ensures
        cmd@ == xadd_cmd(
            key@,
            id,
            interleave(
                bytes_of(items@).subrange(3, 3 + count),
                bytes_of(items@).subrange(at as int, at + count),
            ),
        ),
{
    let ghost all = bytes_of(items@);
    let ghost pairs = interleave(all.subrange(3, 3 + count), all.subrange(at as int, at + count));
    let mut cmd = RedisCmd::new();
    cmd.add_str_arg("xadd");
    cmd.add_bytes_arg(key);
    cmd.add_arg(id_to_text(id));
    let ghost head = cmd@;
    let total: usize = items.len();
    let mut j: usize = 0;
    proof {
        assert(head =~= seq![lit("xadd"), key@, id_text(id)]);
        assert(cmd@ =~= head + pairs.take(0));
    }
    while j < count
        invariant
            j <= count,
            total == items@.len(),
            3 + count <= items@.len(),
            at + count <= items@.len(),
            all == bytes_of(items@),
            pairs == interleave(all.subrange(3, 3 + count), all.subrange(at as int, at + count)),
            cmd@ == head + pairs.take(2 * j),
        decreases count - j,
    {
        cmd.add_bytes_arg(items[3 + j].as_slice());
        cmd.add_bytes_arg(items[at + j].as_slice());
        proof {
            assert(pairs[2 * j] == items@[3 + j]@);
            assert(pairs[2 * j + 1] == items@[at + j]@);
            assert(pairs.take(2 * j + 2) =~= pairs.take(2 * j).push(pairs[2 * j]).push(
                pairs[2 * j + 1],
            ));
            assert(cmd@ =~= head + pairs.take(2 * j + 2));
        }
        j = j + 1;
    }
    proof {
        assert(pairs.take(2 * count) =~= pairs);
    }
    cmd
}

/// The command that appends an entry with the `count` fields and values
/// that stand from `at` on in `items`.
fn xadd_own(key: &[u8], id: StreamId, items: &Vec<Vec<u8>>, count: usize, at: usize) -> (cmd:
    RedisCmd)
    requires
        at + count <= items@.len(),
    ensures
        cmd@ == xadd_cmd(key@, id, bytes_of(items@).subrange(at as int, at + count)),
{
    let ghost all = bytes_of(items@);
    let ghost pairs = all.subrange(at as int, at + count);
    let mut cmd = RedisCmd::new();
    cmd.add_str_arg("xadd");
    cmd.add_bytes_arg(key);
    cmd.add_arg(id_to_text(id));
    let ghost head = cmd@;
    let total: usize = items.len();
    let mut j: usize = 0;
    proof {
        assert(head =~= seq![lit("xadd"), key@, id_text(id)]);
        assert(cmd@ =~= head + pairs.take(0));
    }
    while j < count
        invariant
            j <= count,
            total == items@.len(),
            at + count <= items@.len(),
            all == bytes_of(items@),
            pairs == all.subrange(at as int, at + count),
            cmd@ == head + pairs.take(j as int),
        decreases count - j,
    {
        cmd.add_bytes_arg(items[at + j].as_slice());
        proof {
            assert(pairs[j as int] == items@[at + j]@);
            assert(pairs.take(j + 1) =~= pairs.take(j as int).push(pairs[j as int]));
            assert(cmd@ =~= head + pairs.take(j + 1));
        }
        j = j + 1;
    }
    proof {
        assert(pairs.take(count as int) =~= pairs);
    }
    cmd
}

/// What reading an entry came to: whether it was deleted, the command
/// that appends it, and where the next entry starts.
struct Entry {
    deleted: bool,
    cmd: RedisCmd,
    next: usize,
}

/// Reads the entry that starts at `p` in the elements of a block whose
/// head names `count` fields.
fn read_entry(key: &[u8], first: StreamId, items: &Vec<Vec<u8>>, count: usize, p: usize) -> (r:
    Option<Entry>)
    requires
        4 + count <= items@.len(),
        p < items@.len(),
    ensures
        match entry_at(first, bytes_of(items@).subrange(3, 3 + count), bytes_of(items@), p as int) {
            Some(e) => r matches Some(x) && x.deleted == e.deleted && x.next == e.next && x.next
                > p && x.cmd@ == xadd_cmd(key@, e.id, e.pairs),
            None => r is None,
        },
{
    let ghost all = bytes_of(items@);
    let total: usize = items.len();
    let left: usize = total - p;
    let flags = match read_num(items, p) {
        Some(v) => v,
        None => {
            return None;
        },
    };
    if left < 3 {
        return None;
    }
    let ms_diff = match read_num(items, p + 1) {
        Some(v) => v,
        None => {
            return None;
        },
    };
    let seq_diff = match read_num(items, p + 2) {
        Some(v) => v,
        None => {
            return None;
        },
    };
    let ms = match move_by(first.ms, ms_diff) {
        Some(v) => v,
        None => {
            return None;
        },
    };
    let seq = match move_by(first.seq, seq_diff) {
        Some(v) => v,
        None => {
            return None;
        },
    };
    if flags < 0 || flags > 3 {
        return None;
    }
    let id = StreamId { ms, seq };
    if flags >= 2 {
        if left < 4 || left - 4 < count {
            return None;
        }
        let cmd = xadd_same(key, id, items, count, p + 3);
        Some(Entry { deleted: flags == 3, cmd, next: p + 4 + count })
    } else {
        if left < 4 {
            return None;
        }
        let n = match read_num(items, p + 3) {
            Some(v) => v,
            None => {
                return None;
            },
        };
        if n < 0 || left < 5 || n as u64 > ((left - 5) / 2) as u64 {
            return None;
        }
        let own: usize = 2 * (n as usize);
        let cmd = xadd_own(key, id, items, own, p + 4);
        Some(Entry { deleted: flags == 1, cmd, next: p + 5 + own })
    }
}

/// Reads the commands that append the entries of a block.
pub fn read_block(key: &[u8], first: StreamId, items: &Vec<Vec<u8>>) -> (r: Option<Vec<RedisCmd>>)
    ensures
        cmds_agree(r, block_cmds(key@, first, bytes_of(items@))),
{
    let ghost all = bytes_of(items@);
    let total: usize = items.len();
    let n = match read_num(items, 2) {
        Some(v) => v,
        None => {
            return None;
        },
    };
    if n < 0 || total < 4 || n as u64 > (total - 4) as u64 {
        return None;
    }
    let count: usize = n as usize;
    let ghost fields = all.subrange(3, 3 + count);
    let mut cmds: Vec<RedisCmd> = Vec::new();
    let mut p: usize = 4 + count;
    proof {
        assert(cmd_views(cmds@) =~= Seq::<Seq<Seq<u8>>>::empty());
        lemma_cmds_after_nothing(entries_cmds(key@, first, fields, all, p as int));
    }
    while p < total
        invariant
            4 + count <= p <= total,
            total == items@.len(),
            all == bytes_of(items@),
            fields == all.subrange(3, 3 + count),
            block_cmds(key@, first, all) == cmds_after(
                cmd_views(cmds@),
                entries_cmds(key@, first, fields, all, p as int),
            ),
        decreases total - p,
    {
        let ghost before = cmd_views(cmds@);
        match read_entry(key, first, items, count, p) {
            Some(entry) => {
                if !entry.deleted {
                    proof {
                        lemma_cmds_after_step(
                            before,
                            entry.cmd@,
                            entries_cmds(key@, first, fields, all, entry.next as int),
                        );
                    }
                    cmds.push(entry.cmd);
                    proof {
                        assert(cmd_views(cmds@) =~= before.push(entry.cmd@));
                    }
                }
                p = entry.next;
            },
            None => {
                return None;
            },
        }
    }
    proof {
        assert(cmd_views(cmds@) + Seq::<Seq<Seq<u8>>>::empty() =~= cmd_views(cmds@));
    }
    Some(cmds)
}

/// An entry that was delivered and not yet acknowledged: its identifier,
/// when it was last delivered, in milliseconds, and how often.
#[derive(Debug, Clone, Copy, PartialEq, Eq, Structural)]
pub struct PendingEntry {
    pub id: StreamId,
    pub delivered_ms: u64,
    pub deliveries: u64,
}

/// What the start of a byte sequence holds, read as a part of a stream
/// that gives commands.
pub enum ParsedCmds {
    Done { cmds: Seq<Seq<Seq<u8>>>, len: int },
    Incomplete,
    Invalid,
}

/// What the start of a byte sequence holds, read as an identifier.
pub enum ParsedId {
    Done { id: StreamId, len: int },
    Incomplete,
    Invalid,
}

/// What the start of a byte sequence holds, read as a list of pending
/// entries.
pub enum ParsedPending {
    Done { entries: Seq<PendingEntry>, len: int },
    Incomplete,
    Invalid,
}

/// How reading a piece went.
pub enum Status {
    Done,
    Incomplete,
    Invalid,
}

/// The bytes that `p` takes; none where it is not whole.
pub open spec fn taken(p: ParsedCmds) -> int {
    match p {
        ParsedCmds::Done { len, .. } => len,
        _ => 0,
    }
}

/// `first`, then `rest` behind it.
pub open spec fn joined(first: ParsedCmds, rest: ParsedCmds) -> ParsedCmds {
    match first {
        ParsedCmds::Done { cmds, len } => match rest {
            ParsedCmds::Done { cmds: more, len: further } => ParsedCmds::Done {
                cmds: cmds + more,
                len: len + further,
            },
            other => other,
        },
        other => other,
    }
}

/// `rest` where the piece before it was read; else what became of the
/// piece.
pub open spec fn guard(status: Status, rest: ParsedCmds) -> ParsedCmds {
    match status {
        Status::Done => rest,
        Status::Incomplete => ParsedCmds::Incomplete,
        Status::Invalid => ParsedCmds::Invalid,
    }
}

/// How reading a string went.
pub open spec fn str_status(p: ParsedStr) -> Status {
    match p {
        ParsedStr::Done { .. } => Status::Done,
        ParsedStr::Incomplete => Status::Incomplete,
        ParsedStr::Invalid => Status::Invalid,
    }
}

/// The bytes that a string takes; none where it is not whole.
pub open spec fn str_taken(p: ParsedStr) -> int {
    match p {
        ParsedStr::Done { len, .. } => len,
        _ => 0,
    }
}

/// What a string holds; nothing where it is not whole.
pub open spec fn str_value(p: ParsedStr) -> Seq<u8> {
    match p {
        ParsedStr::Done { bytes, .. } => bytes,
        _ => Seq::empty(),
    }
}

/// How reading a count went.
pub open spec fn count_status(p: ParsedLen) -> Status {
    match p {
        ParsedLen::Done { .. } => Status::Done,
        ParsedLen::Incomplete => Status::Incomplete,
        ParsedLen::Invalid => Status::Invalid,
    }
}

/// The bytes that a count takes; none where it is not whole.
pub open spec fn count_taken(p: ParsedLen) -> int {
    match p {
        ParsedLen::Done { len, .. } => len,
        _ => 0,
    }
}

/// The number that a count gives; zero where it is not whole.
pub open spec fn count_value(p: ParsedLen) -> u64 {
    match p {
        ParsedLen::Done { value: Length::Plain(n), .. } => n,
        _ => 0,
    }
}

/// How reading a piece that gives nothing went.
pub open spec fn extent_status(e: Extent) -> Status {
    match e {
        Extent::Done { .. } => Status::Done,
        Extent::Incomplete => Status::Incomplete,
        Extent::Invalid => Status::Invalid,
    }
}

/// How reading an identifier went.
pub open spec fn id_status(p: ParsedId) -> Status {
    match p {
        ParsedId::Done { .. } => Status::Done,
        ParsedId::Incomplete => Status::Incomplete,
        ParsedId::Invalid => Status::Invalid,
    }
}

/// The bytes that an identifier takes; none where it is not whole.
pub open spec fn id_taken(p: ParsedId) -> int {
    match p {
        ParsedId::Done { len, .. } => len,
        _ => 0,
    }
}

/// The identifier that was read; zero where it is not whole.
pub open spec fn id_value(p: ParsedId) -> StreamId {
    match p {
        ParsedId::Done { id, .. } => id,
        _ => StreamId { ms: 0, seq: 0 },
    }
}

/// How reading a list of pending entries went.
pub open spec fn pending_status(p: ParsedPending) -> Status {
    match p {
        ParsedPending::Done { .. } => Status::Done,
        ParsedPending::Incomplete => Status::Incomplete,
        ParsedPending::Invalid => Status::Invalid,
    }
}

/// The bytes that a list of pending entries takes; none where it is not
/// whole.
pub open spec fn pending_taken(p: ParsedPending) -> int {
    match p {
        ParsedPending::Done { len, .. } => len,
        _ => 0,
    }
}

/// The pending entries that were read; none where the list is not
/// whole.
pub open spec fn pending_value(p: ParsedPending) -> Seq<PendingEntry> {
    match p {
        ParsedPending::Done { entries, .. } => entries,
        _ => Seq::empty(),
    }
}

/// The identifier that the sixteen bytes of `s` from `at` on write: its
/// two numbers, each highest byte first.
pub open spec fn id_at(s: Seq<u8>, at: int) -> StreamId {
    StreamId { ms: be64(s, at) as u64, seq: be64(s, at + 8) as u64 }
}

/// The identifier at the start of `s`, written as two counts.
#[verifier::opaque]
pub open spec fn parse_id(s: Seq<u8>) -> ParsedId {
    let ms = parse_count(s);
    let seq = parse_count(s.skip(count_taken(ms)));
    match count_status(ms) {
        Status::Done => match count_status(seq) {
            Status::Done => ParsedId::Done {
                id: StreamId { ms: count_value(ms), seq: count_value(seq) },
                len: count_taken(ms) + count_taken(seq),
            },
            Status::Incomplete => ParsedId::Incomplete,
            Status::Invalid => ParsedId::Invalid,
        },
        Status::Incomplete => ParsedId::Incomplete,
        Status::Invalid => ParsedId::Invalid,
    }
}

/// The commands of the block at the start of `s`: its identifier as a
/// string of sixteen bytes, and its elements packed into a string.
#[verifier::opaque]
pub open spec fn parse_block(key: Seq<u8>, s: Seq<u8>) -> ParsedCmds {
    let id = parse_string(s);
    let pack = parse_string(s.skip(str_taken(id)));
    guard(
        str_status(id),
        guard(
            str_status(pack),
            if str_value(id).len() != 16 {
                ParsedCmds::Invalid
            } else {
                match listpack_items(str_value(pack)) {
                    None => ParsedCmds::Invalid,
                    Some(items) => match block_cmds(key, id_at(str_value(id), 0), items) {
                        None => ParsedCmds::Invalid,
                        Some(cmds) => ParsedCmds::Done {
                            cmds,
                            len: str_taken(id) + str_taken(pack),
                        },
                    },
                }
            },
        ),
    )
}

/// The commands of the `count` blocks at the start of `s`.
pub open spec fn parse_blocks(key: Seq<u8>, s: Seq<u8>, count: nat) -> ParsedCmds
    decreases count,
{
    if count == 0 {
        ParsedCmds::Done { cmds: Seq::empty(), len: 0 }
    } else {
        let first = parse_block(key, s);
        joined(first, parse_blocks(key, s.skip(taken(first)), (count - 1) as nat))
    }
}

/// The `count` pending entries at the start of `s`: of each its
/// identifier in sixteen bytes, the time of its last delivery in eight,
/// lowest first, and the count of its deliveries.
pub open spec fn parse_pending(s: Seq<u8>, count: nat) -> ParsedPending
    decreases count,
{
    if count == 0 {
        ParsedPending::Done { entries: Seq::empty(), len: 0 }
    } else if s.len() < 24 {
        ParsedPending::Incomplete
    } else {
        let deliveries = parse_count(s.skip(24));
        let first = PendingEntry {
            id: id_at(s, 0),
            delivered_ms: le64(s, 16) as u64,
            deliveries: count_value(deliveries),
        };
        match count_status(deliveries) {
            Status::Done => match parse_pending(
                s.skip(24 + count_taken(deliveries)),
                (count - 1) as nat,
            ) {
                ParsedPending::Done { entries, len } => ParsedPending::Done {
                    entries: seq![first] + entries,
                    len: 24 + count_taken(deliveries) + len,
                },
                other => other,
            },
            Status::Incomplete => ParsedPending::Incomplete,
            Status::Invalid => ParsedPending::Invalid,
        }
    }
}

/// The first of `entries` with the identifier `id`.
pub open spec fn pending_of(entries: Seq<PendingEntry>, id: StreamId) -> Option<PendingEntry>
    decreases entries.len(),
{
    if entries.len() == 0 {
        None
    } else if entries[0].id == id {
        Some(entries[0])
    } else {
        pending_of(entries.skip(1), id)
    }
}

/// The command that claims the pending entry `entry` of the group
/// `group` for `consumer`, with the time and the count of its
/// deliveries, whoever holds it and without reading it.
pub open spec fn claim_cmd(key: Seq<u8>, group: Seq<u8>, consumer: Seq<u8>, entry: PendingEntry)
    -> Seq<Seq<u8>> {
    seq![
        lit("xclaim"),
        key,
        group,
        consumer,
        lit("0"),
        id_text(entry.id),
        lit("TIME"),
        digits_of(entry.delivered_ms as nat),
        lit("RETRYCOUNT"),
        digits_of(entry.deliveries as nat),
        lit("JUSTID"),
        lit("FORCE"),
    ]
}

/// The commands that claim the `count` entries at the start of `s`,
/// each an identifier in sixteen bytes, for `consumer`. An identifier
/// that is not among the pending entries of the group is invalid.
pub open spec fn parse_claims(
    key: Seq<u8>,
    group: Seq<u8>,
    consumer: Seq<u8>,
    pending: Seq<PendingEntry>,
    s: Seq<u8>,
    count: nat,
) -> ParsedCmds
    decreases count,
{
    if count == 0 {
        ParsedCmds::Done { cmds: Seq::empty(), len: 0 }
    } else if s.len() < 16 {
        ParsedCmds::Incomplete
    } else {
        match pending_of(pending, id_at(s, 0)) {
            None => ParsedCmds::Invalid,
            Some(entry) => joined(
                ParsedCmds::Done { cmds: seq![claim_cmd(key, group, consumer, entry)], len: 16 },
                parse_claims(key, group, consumer, pending, s.skip(16), (count - 1) as nat),
            ),
        }
    }
}

/// The bytes in which a consumer gives its times: when it was last
/// seen, and in the third form of a stream also when it was last active.
pub open spec fn consumer_times(type_byte: u8) -> int {
    if type_byte == 21 {
        16
    } else {
        8
    }
}

/// The commands of the consumer at the start of `s`: its name, its
/// times, the count of the entries that are pending with it, and their
/// identifiers.
#[verifier::opaque]
pub open spec fn parse_consumer(
    type_byte: u8,
    key: Seq<u8>,
    group: Seq<u8>,
    pending: Seq<PendingEntry>,
    s: Seq<u8>,
) -> ParsedCmds {
    let name = parse_string(s);
    let at = str_taken(name) + consumer_times(type_byte);
    let count = parse_count(s.skip(at));
    guard(
        str_status(name),
        if s.len() < at {
            ParsedCmds::Incomplete
        } else {
            guard(
                count_status(count),
                joined(
                    ParsedCmds::Done { cmds: Seq::empty(), len: at + count_taken(count) },
                    parse_claims(
                        key,
                        group,
                        str_value(name),
                        pending,
                        s.skip(at + count_taken(count)),
                        count_value(count) as nat,
                    ),
                ),
            )
        },
    )
}

/// The commands of the `count` consumers at the start of `s`.
pub open spec fn parse_consumers(
    type_byte: u8,
    key: Seq<u8>,
    group: Seq<u8>,
    pending: Seq<PendingEntry>,
    s: Seq<u8>,
    count: nat,
) -> ParsedCmds
    decreases count,
{
    if count == 0 {
        ParsedCmds::Done { cmds: Seq::empty(), len: 0 }
    } else {
        let first = parse_consumer(type_byte, key, group, pending, s);
        joined(
            first,
            parse_consumers(
                type_byte,
                key,
                group,
                pending,
                s.skip(taken(first)),
                (count - 1) as nat,
            ),
        )
    }
}

/// The command that creates the group `name`, which has delivered the
/// entries up to `id`.
pub open spec fn group_cmd(key: Seq<u8>, name: Seq<u8>, id: StreamId) -> Seq<Seq<u8>> {
    seq![lit("xgroup"), lit("create"), key, name, id_text(id)]
}

/// What a group holds behind its last identifier: nothing in the first
/// form of a stream, later the count of the entries that it has read.
pub open spec fn group_extra(type_byte: u8) -> Seq<Field> {
    if type_byte == 15 {
        Seq::empty()
    } else {
        seq![Field::Count]
    }
}

/// The commands of the group at the start of `s`: its name, the last
/// identifier that it delivered, its pending entries with their count
/// before them, the count of its consumers, and the consumers.
#[verifier::opaque]
pub open spec fn parse_group(type_byte: u8, key: Seq<u8>, s: Seq<u8>) -> ParsedCmds {
    let name = parse_string(s);
    let l1 = str_taken(name);
    let id = parse_id(s.skip(l1));
    let l2 = l1 + id_taken(id);
    let extra = fields_extent(s.skip(l2), group_extra(type_byte));
    let l3 = l2 + reach(extra);
    let listed = parse_count(s.skip(l3));
    let l4 = l3 + count_taken(listed);
    let pending = parse_pending(s.skip(l4), count_value(listed) as nat);
    let l5 = l4 + pending_taken(pending);
    let consumers = parse_count(s.skip(l5));
    let l6 = l5 + count_taken(consumers);
    guard(
        str_status(name),
        guard(
            id_status(id),
            guard(
                extent_status(extra),
                guard(
                    count_status(listed),
                    guard(
                        pending_status(pending),
                        guard(
                            count_status(consumers),
                            joined(
                                ParsedCmds::Done {
                                    cmds: seq![group_cmd(key, str_value(name), id_value(id))],
                                    len: l6,
                                },
                                parse_consumers(
                                    type_byte,
                                    key,
                                    str_value(name),
                                    pending_value(pending),
                                    s.skip(l6),
                                    count_value(consumers) as nat,
                                ),
                            ),
                        ),
                    ),
                ),
            ),
        ),
    )
}

/// The commands of the `count` groups at the start of `s`.
pub open spec fn parse_groups(type_byte: u8, key: Seq<u8>, s: Seq<u8>, count: nat) -> ParsedCmds
    decreases count,
{
    if count == 0 {
        ParsedCmds::Done { cmds: Seq::empty(), len: 0 }
    } else {
        let first = parse_group(type_byte, key, s);
        joined(first, parse_groups(type_byte, key, s.skip(taken(first)), (count - 1) as nat))
    }
}

/// Whether a value of the type `type_byte` is a stream.
pub open spec fn is_stream(type_byte: u8) -> bool {
    type_byte == 15 || type_byte == 19 || type_byte == 21
}

/// What a stream holds behind its last identifier: nothing in its first
/// form; later its first identifier, the highest that was deleted, and
/// the number of entries that were ever added.
pub open spec fn stream_extra(type_byte: u8) -> Seq<Field> {
    if type_byte == 15 {
        Seq::empty()
    } else {
        seq![Field::Count, Field::Count, Field::Count, Field::Count, Field::Count]
    }
}

/// The commands that a stream starts with: the key is deleted, so that
/// the commands can be sent again.
pub open spec fn opening_cmds(key: Seq<u8>) -> Seq<Seq<Seq<u8>>> {
    seq![seq![lit("del"), key]]
}

/// The commands that stand between the entries of a stream and its
/// groups. Where no entry was appended, one is appended that the stream
/// drops at once, so that the stream exists. Then the last identifier
/// is set.
pub open spec fn closing_cmds(key: Seq<u8>, last: StreamId, appended: bool) -> Seq<Seq<Seq<u8>>> {
    let set = seq![lit("xsetid"), key, id_text(last)];
    if appended {
        seq![set]
    } else {
        seq![
            seq![lit("xadd"), key, lit("MAXLEN"), lit("0"), lit("0-1"), lit("x"), lit("y")],
            set,
        ]
    }
}

/// The commands that build the stream at the start of `s` again under
/// `key`, written in the form `type_byte`: the count of its blocks and
/// the blocks, its length, which is not read, its last identifier, the
/// count of its groups, and the groups.
#[verifier::opaque]
pub open spec fn parse_stream(type_byte: u8, key: Seq<u8>, s: Seq<u8>) -> ParsedCmds {
    let count = parse_count(s);
    let l1 = count_taken(count);
    let blocks = parse_blocks(key, s.skip(l1), count_value(count) as nat);
    let l2 = l1 + taken(blocks);
    let length = field_extent(s.skip(l2), Field::Count);
    let l3 = l2 + reach(length);
    let last = parse_id(s.skip(l3));
    let l4 = l3 + id_taken(last);
    let extra = fields_extent(s.skip(l4), stream_extra(type_byte));
    let l5 = l4 + reach(extra);
    let groups = parse_count(s.skip(l5));
    let l6 = l5 + count_taken(groups);
    guard(
        count_status(count),
        match blocks {
            ParsedCmds::Done { cmds: appends, .. } => guard(
                extent_status(length),
                guard(
                    id_status(last),
                    guard(
                        extent_status(extra),
                        guard(
                            count_status(groups),
                            joined(
                                ParsedCmds::Done {
                                    cmds: opening_cmds(key) + appends + closing_cmds(
                                        key,
                                        id_value(last),
                                        appends.len() > 0,
                                    ),
                                    len: l6,
                                },
                                parse_groups(
                                    type_byte,
                                    key,
                                    s.skip(l6),
                                    count_value(groups) as nat,
                                ),
                            ),
                        ),
                    ),
                ),
            ),
            other => other,
        },
    )
}

/// What reading an identifier came to.
#[derive(Debug, Clone, Copy, PartialEq, Eq, Structural)]
pub enum IdResult {
    Done { id: StreamId, len: usize },
    Incomplete,
    Invalid,
}

/// Whether `r` is what `p` says.
pub open spec fn id_agrees(r: IdResult, p: ParsedId) -> bool {
    match p {
        ParsedId::Done { id, len } => r matches IdResult::Done { id: i, len: l } && i == id && l
            == len,
        ParsedId::Incomplete => r is Incomplete,
        ParsedId::Invalid => r is Invalid,
    }
}

/// What reading a list of pending entries came to.
#[derive(Debug)]
pub enum PendingResult {
    Done { entries: Vec<PendingEntry>, len: usize },
    Incomplete,
    Invalid,
}

/// Whether `r` is what `p` says.
pub open spec fn pending_agrees(r: PendingResult, p: ParsedPending) -> bool {
    match p {
        ParsedPending::Done { entries, len } => r matches PendingResult::Done {
            entries: e,
            len: l,
        } && e@ == entries && l == len,
        ParsedPending::Incomplete => r is Incomplete,
        ParsedPending::Invalid => r is Invalid,
    }
}

/// What reading a stream came to.
#[derive(Debug)]
pub enum CmdsResult {
    /// The commands that build the stream again; it took `len` bytes.
    Done { cmds: Vec<RedisCmd>, len: usize },
    /// The buffer ends within the stream.
    Incomplete,
    /// The buffer does not hold a stream.
    Invalid,
}

/// Whether `r` is what `p` says.
pub open spec fn cmds_result_agrees(r: CmdsResult, p: ParsedCmds) -> bool {
    match p {
        ParsedCmds::Done { cmds, len } => r matches CmdsResult::Done { cmds: c, len: l }
            && cmd_views(c@) == cmds && l == len,
        ParsedCmds::Incomplete => r is Incomplete,
        ParsedCmds::Invalid => r is Invalid,
    }
}

/// Whether `r` is what `p` says, and the commands of `p` were added to
/// the commands `before`, which gave `after`.
pub open spec fn wrote(
    r: ExtentResult,
    before: Seq<Seq<Seq<u8>>>,
    after: Seq<Seq<Seq<u8>>>,
    p: ParsedCmds,
) -> bool {
    match p {
        ParsedCmds::Done { cmds, len } => r matches ExtentResult::Done { len: l } && l == len
            && after == before + cmds,
        ParsedCmds::Incomplete => r is Incomplete,
        ParsedCmds::Invalid => r is Invalid,
    }
}

/// A number of eight bytes, highest first, reads the same from a place
/// in a sequence and from the start of what follows that place.
pub proof fn lemma_be64_skip(s: Seq<u8>, pos: int, at: int)
    requires
        0 <= pos,
        0 <= at,
        pos + at + 8 <= s.len(),
    ensures
        be64(s.skip(pos), at) == be64(s, pos + at),
{
    let t = s.skip(pos);
    assert(t[at] == s[pos + at] && t[at + 1] == s[pos + at + 1] && t[at + 2] == s[pos + at + 2]
        && t[at + 3] == s[pos + at + 3]);
    assert(t[at + 4] == s[pos + at + 4] && t[at + 5] == s[pos + at + 5] && t[at + 6] == s[pos + at
        + 6] && t[at + 7] == s[pos + at + 7]);
    assert(be32(t, at) == be32(s, pos + at));
    assert(be32(t, at + 4) == be32(s, pos + at + 4));
}

/// A number of eight bytes, lowest first, reads the same from a place in
/// a sequence and from the start of what follows that place.
pub proof fn lemma_le64_skip(s: Seq<u8>, pos: int, at: int)
    requires
        0 <= pos,
        0 <= at,
        pos + at + 8 <= s.len(),
    ensures
        le64(s.skip(pos), at) == le64(s, pos + at),
{
    let t = s.skip(pos);
    assert(t[at] == s[pos + at] && t[at + 1] == s[pos + at + 1] && t[at + 2] == s[pos + at + 2]
        && t[at + 3] == s[pos + at + 3]);
    assert(t[at + 4] == s[pos + at + 4] && t[at + 5] == s[pos + at + 5] && t[at + 6] == s[pos + at
        + 6] && t[at + 7] == s[pos + at + 7]);
    assert(le16(t, at) == le16(s, pos + at));
    assert(le16(t, at + 2) == le16(s, pos + at + 2));
    assert(le16(t, at + 4) == le16(s, pos + at + 4));
    assert(le16(t, at + 6) == le16(s, pos + at + 6));
    assert(le32(t, at) == le32(s, pos + at));
    assert(le32(t, at + 4) == le32(s, pos + at + 4));
}

/// Reads the identifier at `pos` in `buf`, written as two counts.
fn read_id(buf: &[u8], pos: usize) -> (r: IdResult)
    requires
        pos <= buf.len(),
    ensures
        id_agrees(r, parse_id(buf@.skip(pos as int))),
        r matches IdResult::Done { len, .. } ==> pos + len <= buf.len(),
{
    reveal(parse_id);
    let ghost s = buf@.skip(pos as int);
    let (ms, l1) = match read_count(buf, pos) {
        LenResult::Done { value: Length::Plain(n), len } => (n, len),
        LenResult::Done { value: Length::Special(_), .. } => {
            return IdResult::Invalid;
        },
        LenResult::Incomplete => {
            return IdResult::Incomplete;
        },
        LenResult::Invalid => {
            return IdResult::Invalid;
        },
    };
    proof {
        assert(s.skip(l1 as int) =~= buf@.skip(pos + l1));
    }
    match read_count(buf, pos + l1) {
        LenResult::Done { value: Length::Plain(n), len } => IdResult::Done {
            id: StreamId { ms, seq: n },
            len: l1 + len,
        },
        LenResult::Done { value: Length::Special(_), .. } => IdResult::Invalid,
        LenResult::Incomplete => IdResult::Incomplete,
        LenResult::Invalid => IdResult::Invalid,
    }
}

/// Reads the block at `pos` in `buf` and adds its commands to `out`.
fn read_block_at(key: &[u8], buf: &[u8], pos: usize, out: &mut Vec<RedisCmd>) -> (r: ExtentResult)
    requires
        pos <= buf.len(),
    ensures
        wrote(
            r,
            cmd_views(old(out)@),
            cmd_views(final(out)@),
            parse_block(key@, buf@.skip(pos as int)),
        ),
        r matches ExtentResult::Done { len } ==> pos + len <= buf.len(),
{
    reveal(parse_block);
    let ghost s = buf@.skip(pos as int);
    let ghost before = out@;
    let (id, l1) = match read_string(buf, pos) {
        StrResult::Done { bytes, len } => (bytes, len),
        StrResult::Incomplete => {
            return ExtentResult::Incomplete;
        },
        StrResult::Invalid => {
            return ExtentResult::Invalid;
        },
    };
    proof {
        assert(s.skip(l1 as int) =~= buf@.skip(pos + l1));
    }
    let (pack, l2) = match read_string(buf, pos + l1) {
        StrResult::Done { bytes, len } => (bytes, len),
        StrResult::Incomplete => {
            return ExtentResult::Incomplete;
        },
        StrResult::Invalid => {
            return ExtentResult::Invalid;
        },
    };
    if id.len() != 16 {
        return ExtentResult::Invalid;
    }
    let first = StreamId { ms: read_be64(id.as_slice(), 0), seq: read_be64(id.as_slice(), 8) };
    let items = match read_listpack(pack.as_slice()) {
        Some(i) => i,
        None => {
            return ExtentResult::Invalid;
        },
    };
    let mut cmds = match read_block(key, first, &items) {
        Some(c) => c,
        None => {
            return ExtentResult::Invalid;
        },
    };
    out.append(&mut cmds);
    proof {
        assert(cmd_views(out@) =~= cmd_views(before) + block_cmds(key@, first, bytes_of(items@))->Some_0);
    }
    ExtentResult::Done { len: l1 + l2 }
}

/// Reads `count` blocks from `pos` on in `buf` and adds their commands
/// to `out`.
fn read_blocks(key: &[u8], buf: &[u8], pos: usize, count: u64, out: &mut Vec<RedisCmd>) -> (r:
    ExtentResult)
    requires
        pos <= buf.len(),
    ensures
        wrote(
            r,
            cmd_views(old(out)@),
            cmd_views(final(out)@),
            parse_blocks(key@, buf@.skip(pos as int), count as nat),
        ),
        r matches ExtentResult::Done { len } ==> pos + len <= buf.len(),
{
    let ghost start = buf@.skip(pos as int);
    let ghost before = cmd_views(out@);
    let ghost mut done: Seq<Seq<Seq<u8>>> = Seq::empty();
    let mut cur: usize = pos;
    let mut k: u64 = 0;
    proof {
        assert(before + done =~= before);
        lemma_joined_nothing(parse_blocks(key@, start, count as nat));
    }
    while k < count
        invariant
            k <= count,
            pos <= cur <= buf.len(),
            start == buf@.skip(pos as int),
            cmd_views(out@) == before + done,
            parse_blocks(key@, start, count as nat) == joined(
                ParsedCmds::Done { cmds: done, len: cur - pos },
                parse_blocks(key@, buf@.skip(cur as int), (count - k) as nat),
            ),
        decreases count - k,
    {
        let ghost here = buf@.skip(cur as int);
        let ghost first = parse_block(key@, here);
        match read_block_at(key, buf, cur, out) {
            ExtentResult::Done { len } => {
                proof {
                    assert(here.skip(len as int) =~= buf@.skip(cur + len));
                    lemma_joined_step(
                        done,
                        cur - pos,
                        first,
                        parse_blocks(key@, buf@.skip(cur + len), (count - k - 1) as nat),
                    );
                    assert(before + (done + first->Done_cmds) =~= (before + done)
                        + first->Done_cmds);
                    done = done + first->Done_cmds;
                }
                cur = cur + len;
                k = k + 1;
            },
            ExtentResult::Incomplete => {
                return ExtentResult::Incomplete;
            },
            ExtentResult::Invalid => {
                return ExtentResult::Invalid;
            },
        }
    }
    proof {
        assert(done + Seq::<Seq<Seq<u8>>>::empty() =~= done);
    }
    ExtentResult::Done { len: cur - pos }
}

/// Reads `count` pending entries from `pos` on in `buf`.
fn read_pending(buf: &[u8], pos: usize, count: u64) -> (r: PendingResult)
    requires
        pos <= buf.len(),
    ensures
        pending_agrees(r, parse_pending(buf@.skip(pos as int), count as nat)),
        r matches PendingResult::Done { len, .. } ==> pos + len <= buf.len(),
{
    let ghost start = buf@.skip(pos as int);
    let mut entries: Vec<PendingEntry> = Vec::new();
    let mut cur: usize = pos;
    let mut k: u64 = 0;
    proof {
        lemma_pending_nothing(parse_pending(start, count as nat));
    }
    while k < count
        invariant
            k <= count,
            pos <= cur <= buf.len(),
            start == buf@.skip(pos as int),
            parse_pending(start, count as nat) == pending_after(
                entries@,
                cur - pos,
                parse_pending(buf@.skip(cur as int), (count - k) as nat),
            ),
        decreases count - k,
    {
        let ghost here = buf@.skip(cur as int);
        let ghost seen = entries@;
        if buf.len() - cur < 24 {
            return PendingResult::Incomplete;
        }
        proof {
            lemma_be64_skip(buf@, cur as int, 0);
            lemma_be64_skip(buf@, cur as int, 8);
            lemma_le64_skip(buf@, cur as int, 16);
            assert(here.skip(24) =~= buf@.skip(cur + 24));
        }
        let id = StreamId { ms: read_be64(buf, cur), seq: read_be64(buf, cur + 8) };
        let delivered_ms = read_le64(buf, cur + 16);
        let (deliveries, len) = match read_count(buf, cur + 24) {
            LenResult::Done { value: Length::Plain(n), len } => (n, len),
            LenResult::Done { value: Length::Special(_), .. } => {
                return PendingResult::Invalid;
            },
            LenResult::Incomplete => {
                return PendingResult::Incomplete;
            },
            LenResult::Invalid => {
                return PendingResult::Invalid;
            },
        };
        let entry = PendingEntry { id, delivered_ms, deliveries };
        entries.push(entry);
        proof {
            assert(here.skip(24 + len) =~= buf@.skip(cur + 24 + len));
            let rest = parse_pending(buf@.skip(cur + 24 + len), (count - k - 1) as nat);
            match rest {
                ParsedPending::Done { entries: more, .. } => {
                    assert(seen + (seq![entry] + more) =~= seen.push(entry) + more);
                },
                _ => {},
            }
        }
        cur = cur + 24 + len;
        k = k + 1;
    }
    proof {
        assert(entries@ + Seq::<PendingEntry>::empty() =~= entries@);
    }
    PendingResult::Done { entries, len: cur - pos }
}

/// The first of `entries` with the identifier `id`.
fn find_pending(entries: &Vec<PendingEntry>, id: StreamId) -> (r: Option<PendingEntry>)
    ensures
        r == pending_of(entries@, id),
{
    let mut i: usize = 0;
    proof {
        assert(entries@.skip(0) =~= entries@);
    }
    while i < entries.len()
        invariant
            i <= entries@.len(),
            pending_of(entries@, id) == pending_of(entries@.skip(i as int), id),
        decreases entries@.len() - i,
    {
        proof {
            assert(entries@.skip(i as int)[0] == entries@[i as int]);
            assert(entries@.skip(i as int).skip(1) =~= entries@.skip(i + 1));
        }
        if entries[i].id.ms == id.ms && entries[i].id.seq == id.seq {
            return Some(entries[i]);
        }
        i = i + 1;
    }
    None
}

/// The command that claims a pending entry for a consumer.
fn claim(key: &[u8], group: &[u8], consumer: &[u8], entry: PendingEntry) -> (cmd: RedisCmd)
    ensures
        cmd@ == claim_cmd(key@, group@, consumer@, entry),
{
    let mut cmd = RedisCmd::new();
    cmd.add_str_arg("xclaim");
    cmd.add_bytes_arg(key);
    cmd.add_bytes_arg(group);
    cmd.add_bytes_arg(consumer);
    cmd.add_str_arg("0");
    cmd.add_arg(id_to_text(entry.id));
    cmd.add_str_arg("TIME");
    cmd.add_arg(u64_to_decimal(entry.delivered_ms));
    cmd.add_str_arg("RETRYCOUNT");
    cmd.add_arg(u64_to_decimal(entry.deliveries));
    cmd.add_str_arg("JUSTID");
    cmd.add_str_arg("FORCE");
    proof {
        assert(cmd@ =~= claim_cmd(key@, group@, consumer@, entry));
    }
    cmd
}

/// Reads `count` identifiers from `pos` on in `buf` and adds the
/// commands that claim their entries for `consumer` to `out`.
fn read_claims(
    key: &[u8],
    group: &[u8],
    consumer: &[u8],
    pending: &Vec<PendingEntry>,
    buf: &[u8],
    pos: usize,
    count: u64,
    out: &mut Vec<RedisCmd>,
) -> (r: ExtentResult)
    requires
        pos <= buf.len(),
    ensures
        wrote(
            r,
            cmd_views(old(out)@),
            cmd_views(final(out)@),
            parse_claims(
                key@,
                group@,
                consumer@,
                pending@,
                buf@.skip(pos as int),
                count as nat,
            ),
        ),
        r matches ExtentResult::Done { len } ==> pos + len <= buf.len(),
{
    let ghost start = buf@.skip(pos as int);
    let ghost before = cmd_views(out@);
    let ghost mut done: Seq<Seq<Seq<u8>>> = Seq::empty();
    let mut cur: usize = pos;
    let mut k: u64 = 0;
    proof {
        assert(before + done =~= before);
        lemma_joined_nothing(parse_claims(key@, group@, consumer@, pending@, start, count as nat));
    }
    while k < count
        invariant
            k <= count,
            pos <= cur <= buf.len(),
            start == buf@.skip(pos as int),
            cmd_views(out@) == before + done,
            parse_claims(key@, group@, consumer@, pending@, start, count as nat) == joined(
                ParsedCmds::Done { cmds: done, len: cur - pos },
                parse_claims(
                    key@,
                    group@,
                    consumer@,
                    pending@,
                    buf@.skip(cur as int),
                    (count - k) as nat,
                ),
            ),
        decreases count - k,
    {
        let ghost here = buf@.skip(cur as int);
        let ghost sent = out@;
        if buf.len() - cur < 16 {
            return ExtentResult::Incomplete;
        }
        proof {
            lemma_be64_skip(buf@, cur as int, 0);
            lemma_be64_skip(buf@, cur as int, 8);
            assert(here.skip(16) =~= buf@.skip(cur + 16));
        }
        let id = StreamId { ms: read_be64(buf, cur), seq: read_be64(buf, cur + 8) };
        let entry = match find_pending(pending, id) {
            Some(e) => e,
            None => {
                return ExtentResult::Invalid;
            },
        };
        let cmd = claim(key, group, consumer, entry);
        out.push(cmd);
        proof {
            let one = ParsedCmds::Done { cmds: seq![cmd@], len: 16 };
            lemma_joined_step(
                done,
                cur - pos,
                one,
                parse_claims(
                    key@,
                    group@,
                    consumer@,
                    pending@,
                    buf@.skip(cur + 16),
                    (count - k - 1) as nat,
                ),
            );
            assert(cmd_views(out@) =~= cmd_views(sent).push(cmd@));
            assert(before + (done + seq![cmd@]) =~= (before + done).push(cmd@));
            done = done + seq![cmd@];
        }
        cur = cur + 16;
        k = k + 1;
    }
    proof {
        assert(done + Seq::<Seq<Seq<u8>>>::empty() =~= done);
    }
    ExtentResult::Done { len: cur - pos }
}

/// Reads the consumer at `pos` in `buf` and adds its commands to `out`.
fn read_consumer(
    type_byte: u8,
    key: &[u8],
    group: &[u8],
    pending: &Vec<PendingEntry>,
    buf: &[u8],
    pos: usize,
    out: &mut Vec<RedisCmd>,
) -> (r: ExtentResult)
    requires
        pos <= buf.len(),
    ensures
        wrote(
            r,
            cmd_views(old(out)@),
            cmd_views(final(out)@),
            parse_consumer(type_byte, key@, group@, pending@, buf@.skip(pos as int)),
        ),
        r matches ExtentResult::Done { len } ==> pos + len <= buf.len(),
{
    reveal(parse_consumer);
    let ghost s = buf@.skip(pos as int);
    let ghost before = cmd_views(out@);
    let (name, l1) = match read_string(buf, pos) {
        StrResult::Done { bytes, len } => (bytes, len),
        StrResult::Incomplete => {
            return ExtentResult::Incomplete;
        },
        StrResult::Invalid => {
            return ExtentResult::Invalid;
        },
    };
    let times: usize = if type_byte == 21 {
        16
    } else {
        8
    };
    if buf.len() - pos - l1 < times {
        return ExtentResult::Incomplete;
    }
    let at: usize = l1 + times;
    proof {
        assert(s.skip(at as int) =~= buf@.skip(pos + at));
    }
    let (count, l2) = match read_count(buf, pos + at) {
        LenResult::Done { value: Length::Plain(n), len } => (n, len),
        LenResult::Done { value: Length::Special(_), .. } => {
            return ExtentResult::Invalid;
        },
        LenResult::Incomplete => {
            return ExtentResult::Incomplete;
        },
        LenResult::Invalid => {
            return ExtentResult::Invalid;
        },
    };
    proof {
        assert(s.skip(at + l2) =~= buf@.skip(pos + at + l2));
        let claims = parse_claims(key@, group@, name@, pending@, s.skip(at + l2), count as nat);
        assert(parse_string(s) == (ParsedStr::Done { bytes: name@, len: l1 as int }));
        assert(parse_count(s.skip(at as int)) == (ParsedLen::Done {
            value: Length::Plain(count),
            len: l2 as int,
        }));
        assert(parse_consumer(type_byte, key@, group@, pending@, s) == joined(
            ParsedCmds::Done { cmds: Seq::empty(), len: at + l2 },
            claims,
        ));
        lemma_joined_silent(at + l2, claims);
    }
    match read_claims(key, group, name.as_slice(), pending, buf, pos + at + l2, count, out) {
        ExtentResult::Done { len } => ExtentResult::Done { len: at + l2 + len },
        other => other,
    }
}

/// Reads `count` consumers from `pos` on in `buf` and adds their
/// commands to `out`.
fn read_consumers(
    type_byte: u8,
    key: &[u8],
    group: &[u8],
    pending: &Vec<PendingEntry>,
    buf: &[u8],
    pos: usize,
    count: u64,
    out: &mut Vec<RedisCmd>,
) -> (r: ExtentResult)
    requires
        pos <= buf.len(),
    ensures
        wrote(
            r,
            cmd_views(old(out)@),
            cmd_views(final(out)@),
            parse_consumers(
                type_byte,
                key@,
                group@,
                pending@,
                buf@.skip(pos as int),
                count as nat,
            ),
        ),
        r matches ExtentResult::Done { len } ==> pos + len <= buf.len(),
{
    let ghost start = buf@.skip(pos as int);
    let ghost before = cmd_views(out@);
    let ghost mut done: Seq<Seq<Seq<u8>>> = Seq::empty();
    let mut cur: usize = pos;
    let mut k: u64 = 0;
    proof {
        assert(before + done =~= before);
        lemma_joined_nothing(
            parse_consumers(type_byte, key@, group@, pending@, start, count as nat),
        );
    }
    while k < count
        invariant
            k <= count,
            pos <= cur <= buf.len(),
            start == buf@.skip(pos as int),
            cmd_views(out@) == before + done,
            parse_consumers(type_byte, key@, group@, pending@, start, count as nat) == joined(
                ParsedCmds::Done { cmds: done, len: cur - pos },
                parse_consumers(
                    type_byte,
                    key@,
                    group@,
                    pending@,
                    buf@.skip(cur as int),
                    (count - k) as nat,
                ),
            ),
        decreases count - k,
    {
        let ghost here = buf@.skip(cur as int);
        let ghost first = parse_consumer(type_byte, key@, group@, pending@, here);
        match read_consumer(type_byte, key, group, pending, buf, cur, out) {
            ExtentResult::Done { len } => {
                proof {
                    assert(here.skip(len as int) =~= buf@.skip(cur + len));
                    lemma_joined_step(
                        done,
                        cur - pos,
                        first,
                        parse_consumers(
                            type_byte,
                            key@,
                            group@,
                            pending@,
                            buf@.skip(cur + len),
                            (count - k - 1) as nat,
                        ),
                    );
                    assert(before + (done + first->Done_cmds) =~= (before + done)
                        + first->Done_cmds);
                    done = done + first->Done_cmds;
                }
                cur = cur + len;
                k = k + 1;
            },
            ExtentResult::Incomplete => {
                return ExtentResult::Incomplete;
            },
            ExtentResult::Invalid => {
                return ExtentResult::Invalid;
            },
        }
    }
    proof {
        assert(done + Seq::<Seq<Seq<u8>>>::empty() =~= done);
    }
    ExtentResult::Done { len: cur - pos }
}

/// What a group holds behind its last identifier.
fn group_extra_fields(type_byte: u8) -> (fields: Vec<Field>)
    ensures
        fields@ == group_extra(type_byte),
{
    let fields: Vec<Field> = if type_byte == 15 {
        Vec::new()
    } else {
        vec![Field::Count]
    };
    proof {
        assert(fields@ =~= group_extra(type_byte));
    }
    fields
}

/// What a stream holds behind its last identifier.
fn stream_extra_fields(type_byte: u8) -> (fields: Vec<Field>)
    ensures
        fields@ == stream_extra(type_byte),
{
    let fields: Vec<Field> = if type_byte == 15 {
        Vec::new()
    } else {
        vec![Field::Count, Field::Count, Field::Count, Field::Count, Field::Count]
    };
    proof {
        assert(fields@ =~= stream_extra(type_byte));
    }
    fields
}

/// Reads the group at `pos` in `buf` and adds its commands to `out`.
fn read_group(type_byte: u8, key: &[u8], buf: &[u8], pos: usize, out: &mut Vec<RedisCmd>) -> (r:
    ExtentResult)
    requires
        pos <= buf.len(),
    ensures
        wrote(
            r,
            cmd_views(old(out)@),
            cmd_views(final(out)@),
            parse_group(type_byte, key@, buf@.skip(pos as int)),
        ),
        r matches ExtentResult::Done { len } ==> pos + len <= buf.len(),
{
    reveal(parse_group);
    let ghost s = buf@.skip(pos as int);
    let ghost before = out@;
    let (name, l1) = match read_string(buf, pos) {
        StrResult::Done { bytes, len } => (bytes, len),
        StrResult::Incomplete => {
            return ExtentResult::Incomplete;
        },
        StrResult::Invalid => {
            return ExtentResult::Invalid;
        },
    };
    proof {
        assert(s.skip(l1 as int) =~= buf@.skip(pos + l1));
    }
    let (id, l2) = match read_id(buf, pos + l1) {
        IdResult::Done { id, len } => (id, l1 + len),
        IdResult::Incomplete => {
            return ExtentResult::Incomplete;
        },
        IdResult::Invalid => {
            return ExtentResult::Invalid;
        },
    };
    proof {
        assert(s.skip(l2 as int) =~= buf@.skip(pos + l2));
    }
    let l3 = match skip_fields(buf, pos + l2, &group_extra_fields(type_byte)) {
        ExtentResult::Done { len } => l2 + len,
        other => {
            return other;
        },
    };
    proof {
        assert(s.skip(l3 as int) =~= buf@.skip(pos + l3));
    }
    let (listed, l4) = match read_count(buf, pos + l3) {
        LenResult::Done { value: Length::Plain(n), len } => (n, l3 + len),
        LenResult::Done { value: Length::Special(_), .. } => {
            return ExtentResult::Invalid;
        },
        LenResult::Incomplete => {
            return ExtentResult::Incomplete;
        },
        LenResult::Invalid => {
            return ExtentResult::Invalid;
        },
    };
    proof {
        assert(s.skip(l4 as int) =~= buf@.skip(pos + l4));
    }
    let (pending, l5) = match read_pending(buf, pos + l4, listed) {
        PendingResult::Done { entries, len } => (entries, l4 + len),
        PendingResult::Incomplete => {
            return ExtentResult::Incomplete;
        },
        PendingResult::Invalid => {
            return ExtentResult::Invalid;
        },
    };
    proof {
        assert(s.skip(l5 as int) =~= buf@.skip(pos + l5));
    }
    let (consumers, l6) = match read_count(buf, pos + l5) {
        LenResult::Done { value: Length::Plain(n), len } => (n, l5 + len),
        LenResult::Done { value: Length::Special(_), .. } => {
            return ExtentResult::Invalid;
        },
        LenResult::Incomplete => {
            return ExtentResult::Incomplete;
        },
        LenResult::Invalid => {
            return ExtentResult::Invalid;
        },
    };
    let mut create = RedisCmd::new();
    create.add_str_arg("xgroup");
    create.add_str_arg("create");
    create.add_bytes_arg(key);
    create.add_bytes_arg(name.as_slice());
    create.add_arg(id_to_text(id));
    proof {
        assert(create@ =~= group_cmd(key@, name@, id));
        assert(s.skip(l6 as int) =~= buf@.skip(pos + l6));
    }
    out.push(create);
    proof {
        assert(cmd_views(out@) =~= cmd_views(before).push(create@));
        let rest = parse_consumers(
            type_byte,
            key@,
            name@,
            pending@,
            s.skip(l6 as int),
            consumers as nat,
        );
        assert(parse_group(type_byte, key@, s) == joined(
            ParsedCmds::Done { cmds: seq![create@], len: l6 as int },
            rest,
        ));
        lemma_joined_one(cmd_views(before), create@, l6 as int, rest);
    }
    match read_consumers(
        type_byte,
        key,
        name.as_slice(),
        &pending,
        buf,
        pos + l6,
        consumers,
        out,
    ) {
        ExtentResult::Done { len } => ExtentResult::Done { len: l6 + len },
        other => other,
    }
}

/// Reads `count` groups from `pos` on in `buf` and adds their commands
/// to `out`.
fn read_groups(
    type_byte: u8,
    key: &[u8],
    buf: &[u8],
    pos: usize,
    count: u64,
    out: &mut Vec<RedisCmd>,
) -> (r: ExtentResult)
    requires
        pos <= buf.len(),
    ensures
        wrote(
            r,
            cmd_views(old(out)@),
            cmd_views(final(out)@),
            parse_groups(type_byte, key@, buf@.skip(pos as int), count as nat),
        ),
        r matches ExtentResult::Done { len } ==> pos + len <= buf.len(),
{
    let ghost start = buf@.skip(pos as int);
    let ghost before = cmd_views(out@);
    let ghost mut done: Seq<Seq<Seq<u8>>> = Seq::empty();
    let mut cur: usize = pos;
    let mut k: u64 = 0;
    proof {
        assert(before + done =~= before);
        lemma_joined_nothing(parse_groups(type_byte, key@, start, count as nat));
    }
    while k < count
        invariant
            k <= count,
            pos <= cur <= buf.len(),
            start == buf@.skip(pos as int),
            cmd_views(out@) == before + done,
            parse_groups(type_byte, key@, start, count as nat) == joined(
                ParsedCmds::Done { cmds: done, len: cur - pos },
                parse_groups(type_byte, key@, buf@.skip(cur as int), (count - k) as nat),
            ),
        decreases count - k,
    {
        let ghost here = buf@.skip(cur as int);
        let ghost first = parse_group(type_byte, key@, here);
        match read_group(type_byte, key, buf, cur, out) {
            ExtentResult::Done { len } => {
                proof {
                    assert(here.skip(len as int) =~= buf@.skip(cur + len));
                    lemma_joined_step(
                        done,
                        cur - pos,
                        first,
                        parse_groups(
                            type_byte,
                            key@,
                            buf@.skip(cur + len),
                            (count - k - 1) as nat,
                        ),
                    );
                    assert(before + (done + first->Done_cmds) =~= (before + done)
                        + first->Done_cmds);
                    done = done + first->Done_cmds;
                }
                cur = cur + len;
                k = k + 1;
            },
            ExtentResult::Incomplete => {
                return ExtentResult::Incomplete;
            },
            ExtentResult::Invalid => {
                return ExtentResult::Invalid;
            },
        }
    }
    proof {
        assert(done + Seq::<Seq<Seq<u8>>>::empty() =~= done);
    }
    ExtentResult::Done { len: cur - pos }
}

/// Adds the commands that stand between the entries of a stream and its
/// groups to `out`.
fn add_closing(key: &[u8], last: StreamId, appended: bool, out: &mut Vec<RedisCmd>)
    ensures
        cmd_views(final(out)@) == cmd_views(old(out)@) + closing_cmds(key@, last, appended),
{
    let ghost before = out@;
    if !appended {
        let mut seed = RedisCmd::new();
        seed.add_str_arg("xadd");
        seed.add_bytes_arg(key);
        seed.add_str_arg("MAXLEN");
        seed.add_str_arg("0");
        seed.add_str_arg("0-1");
        seed.add_str_arg("x");
        seed.add_str_arg("y");
        proof {
            assert(seed@ =~= seq![
                lit("xadd"),
                key@,
                lit("MAXLEN"),
                lit("0"),
                lit("0-1"),
                lit("x"),
                lit("y"),
            ]);
        }
        out.push(seed);
    }
    let mut set = RedisCmd::new();
    set.add_str_arg("xsetid");
    set.add_bytes_arg(key);
    set.add_arg(id_to_text(last));
    proof {
        assert(set@ =~= seq![lit("xsetid"), key@, id_text(last)]);
    }
    out.push(set);
    proof {
        assert(cmd_views(out@) =~= cmd_views(before) + closing_cmds(key@, last, appended));
    }
}

/// Reads the stream at `pos` in `buf`, written in the form `type_byte`,
/// as the commands that build it again under `key`.
pub fn read_stream(type_byte: u8, key: &[u8], buf: &[u8], pos: usize) -> (r: CmdsResult)
    requires
        pos <= buf.len(),
    ensures
        cmds_result_agrees(r, parse_stream(type_byte, key@, buf@.skip(pos as int))),
        r matches CmdsResult::Done { len, .. } ==> pos + len <= buf.len(),
{
    reveal(parse_stream);
    let ghost s = buf@.skip(pos as int);
    let (count, l1) = match read_count(buf, pos) {
        LenResult::Done { value: Length::Plain(n), len } => (n, len),
        LenResult::Done { value: Length::Special(_), .. } => {
            return CmdsResult::Invalid;
        },
        LenResult::Incomplete => {
            return CmdsResult::Incomplete;
        },
        LenResult::Invalid => {
            return CmdsResult::Invalid;
        },
    };
    let mut cmds: Vec<RedisCmd> = Vec::new();
    let mut del = RedisCmd::new();
    del.add_str_arg("del");
    del.add_bytes_arg(key);
    cmds.push(del);
    let ghost opened = cmds@;
    proof {
        assert(del@ =~= seq![lit("del"), key@]);
        assert(cmd_views(cmds@) =~= opening_cmds(key@));
        assert(s.skip(l1 as int) =~= buf@.skip(pos + l1));
    }
    let l2 = match read_blocks(key, buf, pos + l1, count, &mut cmds) {
        ExtentResult::Done { len } => l1 + len,
        ExtentResult::Incomplete => {
            return CmdsResult::Incomplete;
        },
        ExtentResult::Invalid => {
            return CmdsResult::Invalid;
        },
    };
    let appended: bool = cmds.len() > 1;
    let ghost appends = parse_blocks(key@, s.skip(l1 as int), count as nat)->Done_cmds;
    proof {
        assert(cmd_views(cmds@).len() == cmds@.len());
        assert(s.skip(l2 as int) =~= buf@.skip(pos + l2));
    }
    let l3 = match skip_field(buf, pos + l2, Field::Count) {
        ExtentResult::Done { len } => l2 + len,
        ExtentResult::Incomplete => {
            return CmdsResult::Incomplete;
        },
        ExtentResult::Invalid => {
            return CmdsResult::Invalid;
        },
    };
    proof {
        assert(s.skip(l3 as int) =~= buf@.skip(pos + l3));
    }
    let (last, l4) = match read_id(buf, pos + l3) {
        IdResult::Done { id, len } => (id, l3 + len),
        IdResult::Incomplete => {
            return CmdsResult::Incomplete;
        },
        IdResult::Invalid => {
            return CmdsResult::Invalid;
        },
    };
    proof {
        assert(s.skip(l4 as int) =~= buf@.skip(pos + l4));
    }
    let l5 = match skip_fields(buf, pos + l4, &stream_extra_fields(type_byte)) {
        ExtentResult::Done { len } => l4 + len,
        ExtentResult::Incomplete => {
            return CmdsResult::Incomplete;
        },
        ExtentResult::Invalid => {
            return CmdsResult::Invalid;
        },
    };
    proof {
        assert(s.skip(l5 as int) =~= buf@.skip(pos + l5));
    }
    let (groups, l6) = match read_count(buf, pos + l5) {
        LenResult::Done { value: Length::Plain(n), len } => (n, l5 + len),
        LenResult::Done { value: Length::Special(_), .. } => {
            return CmdsResult::Invalid;
        },
        LenResult::Incomplete => {
            return CmdsResult::Incomplete;
        },
        LenResult::Invalid => {
            return CmdsResult::Invalid;
        },
    };
    add_closing(key, last, appended, &mut cmds);
    proof {
        assert(s.skip(l6 as int) =~= buf@.skip(pos + l6));
    }
    match read_groups(type_byte, key, buf, pos + l6, groups, &mut cmds) {
        ExtentResult::Done { len } => CmdsResult::Done { cmds, len: l6 + len },
        ExtentResult::Incomplete => CmdsResult::Incomplete,
        ExtentResult::Invalid => CmdsResult::Invalid,
    }
}

/// `rest` with the pending entries `done`, which took `taken` bytes, in
/// front.
pub open spec fn pending_after(done: Seq<PendingEntry>, taken: int, rest: ParsedPending)
    -> ParsedPending {
    match rest {
        ParsedPending::Done { entries, len } => ParsedPending::Done {
            entries: done + entries,
            len: taken + len,
        },
        other => other,
    }
}

/// Pending entries with nothing in front are the entries.
pub proof fn lemma_pending_nothing(rest: ParsedPending)
    ensures
        pending_after(Seq::empty(), 0, rest) == rest,
{
    match rest {
        ParsedPending::Done { entries, .. } => {
            assert(Seq::<PendingEntry>::empty() + entries =~= entries);
        },
        _ => {},
    }
}

/// A part with nothing in front is the part.
pub proof fn lemma_joined_nothing(rest: ParsedCmds)
    ensures
        joined(ParsedCmds::Done { cmds: Seq::empty(), len: 0 }, rest) == rest,
{
    match rest {
        ParsedCmds::Done { cmds, .. } => {
            assert(Seq::<Seq<Seq<u8>>>::empty() + cmds =~= cmds);
        },
        _ => {},
    }
}

/// A part behind bytes that give no command has the commands of the
/// part, and reaches further by those bytes.
pub proof fn lemma_joined_silent(taken: int, rest: ParsedCmds)
    ensures
        joined(ParsedCmds::Done { cmds: Seq::empty(), len: taken }, rest) == (match rest {
            ParsedCmds::Done { cmds, len } => ParsedCmds::Done { cmds, len: taken + len },
            other => other,
        }),
{
    match rest {
        ParsedCmds::Done { cmds, .. } => {
            assert(Seq::<Seq<Seq<u8>>>::empty() + cmds =~= cmds);
        },
        _ => {},
    }
}

/// A part behind one command has that command and the commands of the
/// part; added to the commands `before`, they are the commands of the
/// part added to `before` with the one.
pub proof fn lemma_joined_one(
    before: Seq<Seq<Seq<u8>>>,
    cmd: Seq<Seq<u8>>,
    taken: int,
    rest: ParsedCmds,
)
    ensures
        joined(ParsedCmds::Done { cmds: seq![cmd], len: taken }, rest) == (match rest {
            ParsedCmds::Done { cmds, len } => ParsedCmds::Done {
                cmds: seq![cmd] + cmds,
                len: taken + len,
            },
            other => other,
        }),
        rest matches ParsedCmds::Done { cmds, .. } ==> before.push(cmd) + cmds == before + (
        seq![cmd] + cmds),
{
    match rest {
        ParsedCmds::Done { cmds, .. } => {
            assert(before.push(cmd) + cmds =~= before + (seq![cmd] + cmds));
        },
        _ => {},
    }
}

/// To put commands in front of a part and what follows it is to put the
/// commands and those of the part in front of what follows.
pub proof fn lemma_joined_step(
    done: Seq<Seq<Seq<u8>>>,
    taken: int,
    first: ParsedCmds,
    rest: ParsedCmds,
)
    requires
        first is Done,
    ensures
        joined(ParsedCmds::Done { cmds: done, len: taken }, joined(first, rest)) == joined(
            ParsedCmds::Done {
                cmds: done + first->Done_cmds,
                len: taken + first->Done_len,
            },
            rest,
        ),
{
    match rest {
        ParsedCmds::Done { cmds, .. } => {
            assert(done + (first->Done_cmds + cmds) =~= (done + first->Done_cmds) + cmds);
        },
        _ => {},
    }
}

/// Commands with nothing in front are the commands.
pub proof fn lemma_cmds_after_nothing(rest: Option<Seq<Seq<Seq<u8>>>>)
    ensures
        cmds_after(Seq::empty(), rest) == rest,
{
    match rest {
        Some(cmds) => {
            assert(Seq::<Seq<Seq<u8>>>::empty() + cmds =~= cmds);
        },
        None => {},
    }
}

/// To put commands in front of one command and what follows it is to
/// put the commands and the one in front of what follows.
pub proof fn lemma_cmds_after_step(
    done: Seq<Seq<Seq<u8>>>,
    cmd: Seq<Seq<u8>>,
    rest: Option<Seq<Seq<Seq<u8>>>>,
)
    ensures
        cmds_after(done, cmds_after(seq![cmd], rest)) == cmds_after(done.push(cmd), rest),
{
    match rest {
        Some(cmds) => {
            assert(done + (seq![cmd] + cmds) =~= done.push(cmd) + cmds);
        },
        None => {},
    }
}

} // verus!
