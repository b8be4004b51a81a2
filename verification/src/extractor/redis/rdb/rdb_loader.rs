//! From the records of a snapshot to change records.
//!
//! The snapshot comes as one payload: a line with its length, then that
//! many bytes. Its records are taken one by one. A key takes the
//! database of the last record that selects one, and the expiry of the
//! record that stands right before it. A library of functions becomes
//! the command that loads it.

use vstd::prelude::*;
use crate::error::Error;
use crate::extractor::redis::rdb::rdb_parser::{
    checksum_holds,
    parse_header,
    parse_item,
    ItemResult,
    ItemView,
    ParsedItem,
    RdbItem,
    RdbParser,
};
use crate::extractor::redis::redis_cdc_extractor::{filtered, RedisDbFilter};
use crate::extractor::redis::redis_resp_reader::{parse_line, ParsedLine};
use crate::meta::redis::redis_entry::RedisEntry;
use crate::meta::redis::redis_object::{ObjectView, RedisCmd, RedisObject};
use crate::util::bytes::{find_byte, lemma_first_index_of, lit, slice_bytes};
use crate::util::decimal::{parse_u64, parse_u64_spec};

verus! {

/// What the start of a byte sequence holds, read as the line that
/// announces a snapshot.
pub enum ParsedPayload {
    /// A snapshot of `payload` bytes follows the first `header` bytes.
    Done { payload: u64, header: int },
    Incomplete,
    Invalid,
}

/// The number of line feeds that `s` starts with.
pub open spec fn leading_newlines(s: Seq<u8>) -> int
    decreases s.len(),
{
    if s.len() > 0 && s[0] == 10 {
        1 + leading_newlines(s.skip(1))
    } else {
        0
    }
}

/// The announcement of a snapshot at the start of `s`: line feeds, which
/// the master sends while it prepares the snapshot, then `$`, the
/// length of the snapshot in decimal and the end of the line.
pub open spec fn parse_payload(s: Seq<u8>) -> ParsedPayload {
    let k = leading_newlines(s);
    if k >= s.len() {
        ParsedPayload::Incomplete
    } else if s[k] != 36 {
        ParsedPayload::Invalid
    } else {
        match parse_line(s.skip(k + 1)) {
            ParsedLine::Incomplete => ParsedPayload::Incomplete,
            ParsedLine::Invalid => ParsedPayload::Invalid,
            ParsedLine::Done { text, len } => match parse_u64_spec(text) {
                Some(n) => ParsedPayload::Done { payload: n, header: k + 1 + len },
                None => ParsedPayload::Invalid,
            },
        }
    }
}

/// What reading the announcement of a snapshot came to.
#[derive(Debug, Clone, Copy, PartialEq, Eq, Structural)]
pub enum PayloadResult {
    /// A snapshot of `payload` bytes follows the first `header` bytes
    /// of the buffer.
    Done { payload: u64, header: usize },
    Incomplete,
    Invalid,
}

/// Whether `r` is what `p` says.
pub open spec fn payload_agrees(r: PayloadResult, p: ParsedPayload) -> bool {
    match p {
        ParsedPayload::Done { payload, header } => r matches PayloadResult::Done {
            payload: n,
            header: h,
        } && n == payload && h == header,
        ParsedPayload::Incomplete => r is Incomplete,
        ParsedPayload::Invalid => r is Invalid,
    }
}

/// The line feeds that `s` starts with end within `s` or at its end; every
/// place before their end holds a line feed, and the place of their end
/// holds none.
pub proof fn lemma_leading_newlines(s: Seq<u8>)
    ensures
        0 <= leading_newlines(s) <= s.len(),
        forall|j: int| 0 <= j < leading_newlines(s) ==> s[j] == 10,
        leading_newlines(s) < s.len() ==> s[leading_newlines(s)] != 10,
    decreases s.len(),
{
    if s.len() > 0 && s[0] == 10 {
        lemma_leading_newlines(s.skip(1));
        assert forall|j: int| 0 <= j < leading_newlines(s) implies s[j] == 10 by {
            if j > 0 {
                assert(s.skip(1)[j - 1] == s[j]);
            }
        }
        if leading_newlines(s) < s.len() {
            assert(s.skip(1)[leading_newlines(s) - 1] == s[leading_newlines(s)]);
        }
    }
}

/// A place with only line feeds before it, which holds none itself, is
/// where the line feeds end.
pub proof fn lemma_leading_newlines_is(s: Seq<u8>, k: int)
    requires
        0 <= k <= s.len(),
        forall|j: int| 0 <= j < k ==> s[j] == 10,
        k < s.len() ==> s[k] != 10,
    ensures
        leading_newlines(s) == k,
{
    lemma_leading_newlines(s);
    let n = leading_newlines(s);
    if n < k {
        assert(s[n] == 10);
    } else if k < n {
        assert(s[k] == 10);
    }
}

/// Reads the announcement of a snapshot at the start of `buf`.
pub fn read_payload_header(buf: &[u8]) -> (r: PayloadResult)
    ensures
        payload_agrees(r, parse_payload(buf@)),
        r matches PayloadResult::Done { header, .. } ==> 4 <= header <= buf.len(),
{
    let mut k: usize = 0;
    while k < buf.len() && buf[k] == 10
        invariant
            k <= buf.len(),
            forall|j: int| 0 <= j < k ==> buf@[j] == 10,
        decreases buf.len() - k,
    {
        k = k + 1;
    }
    proof {
        lemma_leading_newlines_is(buf@, k as int);
    }
    if k >= buf.len() {
        return PayloadResult::Incomplete;
    }
    if buf[k] != 36 {
        return PayloadResult::Invalid;
    }
    let ghost line = buf@.skip(k + 1);
    let cr = find_byte(buf, k + 1, 13u8);
    proof {
        lemma_first_index_of(line, 13u8);
    }
    if cr >= buf.len() || buf.len() - cr < 2 {
        return PayloadResult::Incomplete;
    }
    proof {
        assert(line[cr - k - 1 + 1] == buf@[cr + 1]);
    }
    if buf[cr + 1] != 10 {
        return PayloadResult::Invalid;
    }
    let text = slice_bytes(buf, k + 1, cr);
    proof {
        assert(text@ =~= line.take(cr - k - 1));
    }
    match parse_u64(text.as_slice()) {
        Some(n) => PayloadResult::Done { payload: n, header: cr + 2 },
        None => PayloadResult::Invalid,
    }
}

/// What the loader has seen of a snapshot so far.
#[derive(Debug, Clone, Copy)]
pub struct RdbLoader {
    /// The database that the next key belongs to.
    pub now_db_id: i64,
    /// When the next key expires, in milliseconds since the epoch; zero
    /// where it does not.
    pub expire_ms: i64,
    /// The number of change records made so far.
    pub loaded: u64,
    /// Whether the end of the snapshot was seen.
    pub finished: bool,
}

/// The estimate of the size of a key with its value.
pub open spec fn size_of(key: int, raw: int) -> usize {
    if key + raw > usize::MAX {
        usize::MAX
    } else {
        (key + raw) as usize
    }
}

/// Whether `entry` is the change record of the key `key` of the type
/// `type_byte` with the value `value`, written as `raw`, that the loader
/// `s` meets.
pub open spec fn is_entry_of(
    entry: RedisEntry,
    s: RdbLoader,
    type_byte: u8,
    key: Seq<u8>,
    value: ObjectView,
    raw: Seq<u8>,
) -> bool {
    &&& entry.id == s.loaded
    &&& entry.is_base
    &&& entry.db_id == s.now_db_id
    &&& entry.timestamp_ms == 0
    &&& entry.expire_ms == s.expire_ms
    &&& entry.raw_bytes@ == raw
    &&& entry.value_type_byte == type_byte
    &&& entry.key@ == key
    &&& entry.value@ == value
    &&& entry.cmd@.len() == 0
    &&& entry.data_size == size_of(key.len() as int, raw.len() as int)
}

/// Whether `entry` is the change record of the library of functions
/// with the code `code` that the loader `s` meets: the command that
/// loads the library.
pub open spec fn is_function_entry(entry: RedisEntry, s: RdbLoader, code: Seq<u8>) -> bool {
    &&& entry.id == s.loaded
    &&& entry.is_base
    &&& entry.db_id == s.now_db_id
    &&& entry.timestamp_ms == 0
    &&& entry.expire_ms == 0
    &&& entry.raw_bytes@.len() == 0
    &&& entry.value_type_byte == 0
    &&& entry.key@.len() == 0
    &&& entry.value@ == ObjectView::Unknown
    &&& entry.cmd@ == seq![lit("function"), lit("load"), code]
    &&& entry.data_size == code.len()
}

/// The loader after the record `item`; an error where the record
/// cannot be taken: it follows the end of the snapshot, or it names a
/// database or an expiry beyond what can be counted.
pub open spec fn after_item(s: RdbLoader, item: ItemView) -> Result<RdbLoader, Error> {
    if s.finished {
        Err(Error::MalformedValue)
    } else {
        match item {
            ItemView::SelectDb { db_id } => if db_id > i64::MAX {
                Err(Error::MalformedValue)
            } else {
                Ok(RdbLoader { now_db_id: db_id as i64, ..s })
            },
            ItemView::Expire { at_ms } => if at_ms > i64::MAX {
                Err(Error::MalformedValue)
            } else {
                Ok(RdbLoader { expire_ms: at_ms as i64, ..s })
            },
            ItemView::Object { .. } => Ok(
                RdbLoader {
                    expire_ms: 0,
                    loaded: if s.loaded == u64::MAX {
                        s.loaded
                    } else {
                        (s.loaded + 1) as u64
                    },
                    ..s
                },
            ),
            ItemView::Function { .. } => Ok(
                RdbLoader {
                    loaded: if s.loaded == u64::MAX {
                        s.loaded
                    } else {
                        (s.loaded + 1) as u64
                    },
                    ..s
                },
            ),
            ItemView::End { .. } => Ok(RdbLoader { finished: true, ..s }),
            _ => Ok(s),
        }
    }
}

/// A record of a snapshot, with the loader as it was when it met the
/// record.
pub struct Met {
    pub loader: RdbLoader,
    pub item: ItemView,
}

/// `rest` with the records `done` in front.
pub open spec fn met_after(done: Seq<Met>, rest: Result<Seq<Met>, Error>) -> Result<
    Seq<Met>,
    Error,
> {
    match rest {
        Ok(more) => Ok(done + more),
        Err(e) => Err(e),
    }
}

/// The records of the snapshot `s` from `pos` on, each with the loader
/// that meets it, up to the record that ends the snapshot. A loader that
/// has seen the end takes no more. A record that is cut short or not
/// accepted, or that the loader cannot take, is an error: no snapshot is
/// taken in part.
pub open spec fn walk(s: Seq<u8>, pos: int, loader: RdbLoader) -> Result<Seq<Met>, Error>
    decreases s.len() - pos,
{
    if loader.finished {
        Ok(Seq::empty())
    } else if pos < 0 || pos > s.len() {
        Err(Error::MalformedValue)
    } else {
        match parse_item(s.skip(pos)) {
            ParsedItem::Done { item, len } => if len < 1 || pos + len > s.len() {
                Err(Error::MalformedValue)
            } else {
                match after_item(loader, item) {
                    Ok(next) => met_after(seq![Met { loader, item }], walk(s, pos + len, next)),
                    Err(e) => Err(e),
                }
            },
            _ => Err(Error::MalformedValue),
        }
    }
}

/// The records of the snapshot `s`: after a header of nine bytes, where
/// the snapshot starts as one does and its checksum holds.
pub open spec fn records_of(s: Seq<u8>) -> Result<Seq<Met>, Error> {
    match parse_header(s) {
        Ok(Some(_)) => if checksum_holds(s) {
            walk(s, 9, RdbLoader { now_db_id: 0, expire_ms: 0, loaded: 0, finished: false })
        } else {
            Err(Error::MalformedValue)
        },
        _ => Err(Error::MalformedValue),
    }
}

/// Whether the record `m` makes a change record that the filter keeps:
/// it is a key with its value or a library of functions, in a database
/// that the filter does not drop.
pub open spec fn is_kept(m: Met, do_dbs: Seq<i64>, ignore_dbs: Seq<i64>) -> bool {
    (m.item is Object || m.item is Function) && !filtered(do_dbs, ignore_dbs, m.loader.now_db_id)
}

/// The records of `records` that make a change record that the filter
/// keeps, in order.
pub open spec fn kept(records: Seq<Met>, do_dbs: Seq<i64>, ignore_dbs: Seq<i64>) -> Seq<Met>
    decreases records.len(),
{
    if records.len() == 0 {
        Seq::empty()
    } else if is_kept(records.last(), do_dbs, ignore_dbs) {
        kept(records.drop_last(), do_dbs, ignore_dbs).push(records.last())
    } else {
        kept(records.drop_last(), do_dbs, ignore_dbs)
    }
}

/// Whether `entry` is the change record that the record `m` makes.
pub open spec fn is_entry_of_met(entry: RedisEntry, m: Met) -> bool {
    match m.item {
        ItemView::Object { type_byte, key, value, raw } => is_entry_of(
            entry,
            m.loader,
            type_byte,
            key,
            value,
            raw,
        ),
        ItemView::Function { code } => is_function_entry(entry, m.loader, code),
        _ => false,
    }
}

/// Whether `entries` are the change records that the records `records`
/// make, one for each and in order.
pub open spec fn are_entries_of(entries: Seq<RedisEntry>, records: Seq<Met>) -> bool {
    &&& entries.len() == records.len()
    &&& forall|k: int| 0 <= k < entries.len() ==> is_entry_of_met(#[trigger] entries[k], records[k])
}

impl RdbLoader {
    /// The change records of the snapshot `snapshot` that `filter`
    /// keeps, in the order of the snapshot. A snapshot that does not
    /// start as one does, whose checksum does not hold, that is cut
    /// short or that holds a record which is not accepted gives an error
    /// and no change record.
    pub fn load(snapshot: &[u8], filter: &RedisDbFilter) -> (r: Result<Vec<RedisEntry>, Error>)
        ensures
            match records_of(snapshot@) {
                Ok(records) => r matches Ok(entries) && are_entries_of(
                    entries@,
                    kept(records, filter.do_dbs@, filter.ignore_dbs@),
                ),
                Err(e) => r == Err::<Vec<RedisEntry>, _>(e),
            },
    {
        match RdbParser::read_header(snapshot) {
            Ok(Some(_)) => {},
            _ => {
                return Err(Error::MalformedValue);
            },
        }
        if !RdbParser::checksum_ok(snapshot) {
            return Err(Error::MalformedValue);
        }
        let ghost s = snapshot@;
        let ghost do_dbs = filter.do_dbs@;
        let ghost ignore_dbs = filter.ignore_dbs@;
        let mut loader = RdbLoader::new();
        let ghost first = loader;
        let mut entries: Vec<RedisEntry> = Vec::new();
        let ghost mut done: Seq<Met> = Seq::empty();
        let mut pos: usize = 9;
        proof {
            lemma_met_after_nothing(walk(s, 9, first));
        }
        while !loader.finished
            invariant
                pos <= snapshot.len(),
                s == snapshot@,
                do_dbs == filter.do_dbs@,
                ignore_dbs == filter.ignore_dbs@,
                records_of(s) == walk(s, 9, first),
                walk(s, 9, first) == met_after(done, walk(s, pos as int, loader)),
                are_entries_of(entries@, kept(done, do_dbs, ignore_dbs)),
            decreases snapshot.len() - pos,
        {
            let ghost here = loader;
            let ghost seen = entries@;
            match RdbParser::read_item(snapshot, pos) {
                ItemResult::Done { item, len } => {
                    let ghost view = item@;
                    let ghost met = Met { loader: here, item: view };
                    match loader.on_item(item) {
                        Ok(made) => {
                            proof {
                                lemma_met_after_step(done, met, walk(s, pos + len, loader));
                                assert(done.push(met).drop_last() =~= done);
                            }
                            match made {
                                Some(entry) => {
                                    if !filter.filter_db(entry.db_id) {
                                        entries.push(entry);
                                        proof {
                                            assert(entries@.drop_last() =~= seen);
                                        }
                                    }
                                },
                                None => {},
                            }
                            proof {
                                done = done.push(met);
                            }
                            pos = pos + len;
                        },
                        Err(e) => {
                            return Err(e);
                        },
                    }
                },
                _ => {
                    return Err(Error::MalformedValue);
                },
            }
        }
        proof {
            assert(done + Seq::<Met>::empty() =~= done);
        }
        Ok(entries)
    }

    /// A loader at the start of a snapshot: in database zero, with no
    /// key taken.
    pub fn new() -> (s: RdbLoader)
        ensures
            s == (RdbLoader { now_db_id: 0, expire_ms: 0, loaded: 0, finished: false }),
    {
        RdbLoader { now_db_id: 0, expire_ms: 0, loaded: 0, finished: false }
    }

    /// Takes one record of the snapshot and gives the change record that
    /// it makes, if it is a key with its value or a library of functions.
    /// Where the record cannot be taken the loader stays as it was.
    pub fn on_item(&mut self, item: RdbItem) -> (r: Result<Option<RedisEntry>, Error>)
        ensures
            match after_item(*old(self), item@) {
                Ok(next) => {
                    &&& *final(self) == next
                    &&& match item@ {
                        ItemView::Object { type_byte, key, value, raw } => r matches Ok(Some(entry))
                            && is_entry_of(entry, *old(self), type_byte, key, value, raw),
                        ItemView::Function { code } => r matches Ok(Some(entry))
                            && is_function_entry(entry, *old(self), code),
                        _ => r matches Ok(None),
                    }
                },
                Err(e) => r == Err::<Option<RedisEntry>, _>(e) && *final(self) == *old(self),
            },
    {
        if self.finished {
            return Err(Error::MalformedValue);
        }
        match item {
            RdbItem::SelectDb { db_id } => {
                if db_id > i64::MAX as u64 {
                    return Err(Error::MalformedValue);
                }
                self.now_db_id = db_id as i64;
                Ok(None)
            },
            RdbItem::Expire { at_ms } => {
                if at_ms > i64::MAX as u64 {
                    return Err(Error::MalformedValue);
                }
                self.expire_ms = at_ms as i64;
                Ok(None)
            },
            RdbItem::Object { type_byte, key, value, raw } => {
                let data_size: usize = match key.len().checked_add(raw.len()) {
                    Some(n) => n,
                    None => usize::MAX,
                };
                let entry = RedisEntry {
                    id: self.loaded,
                    is_base: true,
                    db_id: self.now_db_id,
                    timestamp_ms: 0,
                    expire_ms: self.expire_ms,
                    raw_bytes: raw,
                    value_type_byte: type_byte,
                    key,
                    value,
                    cmd: RedisCmd::new(),
                    data_size,
                };
                self.expire_ms = 0;
                if self.loaded < u64::MAX {
                    self.loaded = self.loaded + 1;
                }
                Ok(Some(entry))
            },
            RdbItem::Function { code } => {
                let data_size: usize = code.len();
                let mut cmd = RedisCmd::new();
                cmd.add_str_arg("function");
                cmd.add_str_arg("load");
                cmd.add_arg(code);
                proof {
                    assert(cmd@ =~= seq![lit("function"), lit("load"), code@]);
                }
                let entry = RedisEntry {
                    id: self.loaded,
                    is_base: true,
                    db_id: self.now_db_id,
                    timestamp_ms: 0,
                    expire_ms: 0,
                    raw_bytes: Vec::new(),
                    value_type_byte: 0,
                    key: Vec::new(),
                    value: RedisObject::Unknown,
                    cmd,
                    data_size,
                };
                if self.loaded < u64::MAX {
                    self.loaded = self.loaded + 1;
                }
                Ok(Some(entry))
            },
            RdbItem::End { .. } => {
                self.finished = true;
                Ok(None)
            },
            _ => Ok(None),
        }
    }
}

/// Records with nothing in front are the records.
pub proof fn lemma_met_after_nothing(rest: Result<Seq<Met>, Error>)
    ensures
        met_after(Seq::empty(), rest) == rest,
{
    match rest {
        Ok(more) => {
            assert(Seq::<Met>::empty() + more =~= more);
        },
        Err(_) => {},
    }
}

/// To put records in front of one record and what follows it is to put
/// the records and the one in front of what follows.
pub proof fn lemma_met_after_step(done: Seq<Met>, m: Met, rest: Result<Seq<Met>, Error>)
    ensures
        met_after(done, met_after(seq![m], rest)) == met_after(done.push(m), rest),
{
    match rest {
        Ok(more) => {
            assert(done + (seq![m] + more) =~= done.push(m) + more);
        },
        Err(_) => {},
    }
}

} // verus!
