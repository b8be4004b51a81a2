//! What a Redis destination is sent for a batch of change records.
//!
//! The sinker turns records into commands and commands into requests. It
//! holds no connection: its caller sends each request and counts the
//! replies.

use vstd::prelude::*;
use crate::error::Error;
use crate::meta::col_value::{ColEntry, ColMap};
use crate::meta::dt_data::DtData;
use crate::meta::rdb_meta_manager::RdbMetaManager;
use crate::meta::redis::redis_entry::RedisEntry;
use crate::meta::redis::redis_object::{RedisCmd, RedisObject, StreamObject};
use crate::meta::redis::redis_write_method::RedisWriteMethod;
use crate::meta::row_data::RowData;
use crate::meta::row_type::RowType;
use crate::sinker::base_sinker::chunk_len;
use crate::sinker::redis::cmd_encoder::{cmd_views, encode_cmd, encode_cmds, CmdEncoder, PackedCmds};
use crate::sinker::redis::entry_rewriter::{
    expire_cmd,
    hash_cmds,
    lemma_cmd_views_concat,
    lemma_cmd_views_push,
    list_cmds,
    restore_cmd,
    set_cmds,
    string_cmds,
    zset_cmds,
    EntryRewriter,
    RedisVersion,
};
use crate::util::bytes::{lit, push_bytes, str_bytes, text_bytes};
use crate::util::decimal::{i64_to_decimal, signed_digits_of};

verus! {

/// The state of a sinker that writes to Redis.
#[derive(Debug, Clone, Copy)]
pub struct RedisSinker {
    /// The number of records whose commands go out as one request; with
    /// one or less every command is a request of its own.
    pub batch_size: usize,
    /// The database that the destination connection has selected.
    pub now_db_id: i64,
    /// The version of the destination server.
    pub version: RedisVersion,
    pub method: RedisWriteMethod,
}

/// The command that selects the database of `entry`, where the
/// connection has another selected.
pub open spec fn select_cmds(now_db_id: i64, entry: RedisEntry) -> Seq<Seq<Seq<u8>>> {
    if entry.db_id != now_db_id {
        seq![seq![lit("SELECT"), signed_digits_of(entry.db_id as int)]]
    } else {
        Seq::empty()
    }
}

/// The commands that rebuild the object of `entry` by its type. A stream
/// is rebuilt by the commands that it was decoded into, an object of a
/// module from its serialized form. An entry without a decoded object is
/// restored from its serialized form where it holds one; else it is a
/// command of the stream and goes out as it came; where it holds no
/// command either, there is nothing to rebuild it from.
pub open spec fn object_cmds(entry: RedisEntry, version: RedisVersion) -> Result<
    Seq<Seq<Seq<u8>>>,
    Error,
> {
    match entry.value {
        RedisObject::String(obj) => Ok(string_cmds(obj)),
        RedisObject::List(obj) => Ok(list_cmds(obj)),
        RedisObject::SetObj(obj) => Ok(set_cmds(obj)),
        RedisObject::Hash(obj) => Ok(hash_cmds(obj)),
        RedisObject::Zset(obj) => Ok(zset_cmds(obj)),
        RedisObject::Stream(obj) => Ok(cmd_views(obj.cmds@)),
        RedisObject::Module(_) => Ok(seq![restore_cmd(entry, version)]),
        RedisObject::Unknown => if entry.spec_is_raw() {
            Ok(seq![restore_cmd(entry, version)])
        } else if entry.cmd@.len() > 0 {
            Ok(seq![entry.cmd@])
        } else {
            Err(Error::RewriteNotImplemented)
        },
    }
}

/// The expire command of `entry` as a run of commands.
pub open spec fn expire_cmds(entry: RedisEntry) -> Seq<Seq<Seq<u8>>> {
    match expire_cmd(entry) {
        Some(c) => seq![c],
        None => Seq::empty(),
    }
}

/// The commands that write `entry`, the database taken as selected.
///
/// By restore: one command, which restores the serialized object where
/// the entry holds one and is the entry's own command where it does not.
/// By rewrite: the commands that rebuild the object, then the command
/// that sets its expiry, if it has one.
pub open spec fn entry_cmds(entry: RedisEntry, method: RedisWriteMethod, version: RedisVersion)
    -> Result<Seq<Seq<Seq<u8>>>, Error> {
    match method {
        RedisWriteMethod::Restore => Ok(
            seq![
                if entry.spec_is_raw() {
                    restore_cmd(entry, version)
                } else {
                    entry.cmd@
                },
            ],
        ),
        RedisWriteMethod::Rewrite => match object_cmds(entry, version) {
            Ok(c) => Ok(c + expire_cmds(entry)),
            Err(e) => Err(e),
        },
    }
}

/// The commands that write `item` on a connection that has the database
/// `db` selected, and the database that is selected after them. Only a
/// Redis entry gives commands.
pub open spec fn item_cmds(db: i64, item: DtData, method: RedisWriteMethod, version: RedisVersion)
    -> Result<(Seq<Seq<Seq<u8>>>, i64), Error> {
    match item {
        DtData::Redis { entry } => match entry_cmds(entry, method, version) {
            Ok(c) => Ok((select_cmds(db, entry) + c, entry.db_id)),
            Err(e) => Err(e),
        },
        _ => Ok((Seq::empty(), db)),
    }
}

/// The commands that write `items`, in order, on a connection that has
/// the database `db` selected, and the database that is selected after
/// them.
pub open spec fn items_cmds(
    db: i64,
    items: Seq<DtData>,
    method: RedisWriteMethod,
    version: RedisVersion,
) -> Result<(Seq<Seq<Seq<u8>>>, i64), Error>
    decreases items.len(),
{
    if items.len() == 0 {
        Ok((Seq::empty(), db))
    } else {
        match items_cmds(db, items.drop_last(), method, version) {
            Err(e) => Err(e),
            Ok(done) => match item_cmds(done.1, items.last(), method, version) {
                Err(e) => Err(e),
                Ok(more) => Ok((done.0 + more.0, more.1)),
            },
        }
    }
}

/// Whether `after` is the entry `before` with the commands of its
/// stream taken out: a stream holds no command any more, and everything
/// else is as it was.
pub open spec fn is_drained_entry(after: RedisEntry, before: RedisEntry) -> bool {
    &&& after.id == before.id
    &&& after.is_base == before.is_base
    &&& after.db_id == before.db_id
    &&& after.timestamp_ms == before.timestamp_ms
    &&& after.expire_ms == before.expire_ms
    &&& after.raw_bytes == before.raw_bytes
    &&& after.value_type_byte == before.value_type_byte
    &&& after.key == before.key
    &&& after.cmd == before.cmd
    &&& after.data_size == before.data_size
    &&& match before.value {
        RedisObject::Stream(obj) => {
            &&& after.value matches RedisObject::Stream(left)
            &&& left.key == obj.key
            &&& left.cmds@.len() == 0
        },
        _ => after.value == before.value,
    }
}

/// Whether writing `item` by `method` takes the commands out of it: it
/// is a stream that is rebuilt by its commands.
pub open spec fn gives_up_cmds(item: DtData, method: RedisWriteMethod) -> bool {
    &&& method is Rewrite
    &&& item matches DtData::Redis { entry }
    &&& entry.value is Stream
}

/// Whether `after` is the record `before` once it was written by
/// `method`: a stream that was rebuilt by its commands has handed them
/// over and holds none; every other record is as it was.
pub open spec fn is_written(after: DtData, before: DtData, method: RedisWriteMethod) -> bool {
    if gives_up_cmds(before, method) {
        &&& after matches DtData::Redis { entry }
        &&& is_drained_entry(entry, before->Redis_entry)
    } else {
        after == before
    }
}

/// Whether `after` are the records `before` once those from `from` up
/// to `to` were written by `method`.
pub open spec fn are_written(
    after: Seq<DtData>,
    before: Seq<DtData>,
    method: RedisWriteMethod,
    from: int,
    to: int,
) -> bool {
    &&& after.len() == before.len()
    &&& forall|i: int|
        0 <= i < before.len() ==> if from <= i < to {
            is_written(#[trigger] after[i], before[i], method)
        } else {
            after[i] == before[i]
        }
}

/// The key that a row is kept under: schema, table and the value of the
/// key column, with dots between.
pub open spec fn dml_key(row: RowData, value: Seq<u8>) -> Seq<u8> {
    text_bytes(row.schema@) + seq![46u8] + text_bytes(row.tb@) + seq![46u8] + value
}

/// The columns of a row image as arguments: each name, then the value as
/// text, empty for a null.
pub open spec fn col_args(entries: Seq<ColEntry>) -> Seq<Seq<u8>>
    decreases entries.len(),
{
    if entries.len() == 0 {
        Seq::empty()
    } else {
        col_args(entries.drop_last()).push(text_bytes(entries.last().name@)).push(
            match entries.last().value.spec_text() {
                Some(t) => t,
                None => Seq::empty(),
            },
        )
    }
}

/// The row image that names the row: the image before a delete, the
/// image after any other change.
pub open spec fn key_image(row: RowData) -> Option<ColMap> {
    if row.row_type == RowType::Delete {
        row.before
    } else {
        row.after
    }
}

/// The command that writes a row change to Redis, where the table has a
/// key column `order_col` and the row a value in it: a hash of the
/// columns for an insert or an update, the removal of the key for a
/// delete.
pub open spec fn dml_cmd(row: RowData, order_col: Option<Seq<char>>) -> Option<Seq<Seq<u8>>> {
    match order_col {
        None => None,
        Some(col) => match key_image(row) {
            None => None,
            Some(image) => match image.spec_get(col) {
                None => None,
                Some(v) => match v.spec_text() {
                    None => None,
                    Some(t) => if row.row_type == RowType::Delete {
                        Some(seq![lit("del"), dml_key(row, t)])
                    } else {
                        Some(seq![lit("hset"), dml_key(row, t)] + col_args(image.entries@))
                    },
                },
            },
        },
    }
}

/// The commands of the rows of `rows` that have one, in order.
pub open spec fn dml_cmds(rows: Seq<RowData>, order_col: Option<Seq<char>>) -> Seq<Seq<Seq<u8>>>
    decreases rows.len(),
{
    if rows.len() == 0 {
        Seq::empty()
    } else {
        match dml_cmd(rows.last(), order_col) {
            Some(c) => dml_cmds(rows.drop_last(), order_col).push(c),
            None => dml_cmds(rows.drop_last(), order_col),
        }
    }
}

/// Appends `more` to `cmds`.
fn extend_cmds(cmds: &mut Vec<RedisCmd>, more: Vec<RedisCmd>)
    ensures
        cmd_views(final(cmds)@) == cmd_views(old(cmds)@) + cmd_views(more@),
{
    let mut more = more;
    let ghost added = more@;
    cmds.append(&mut more);
    proof {
        lemma_cmd_views_concat(old(cmds)@, added);
    }
}

/// Copies of `cmds`.
fn duplicate_cmds(cmds: &Vec<RedisCmd>) -> (out: Vec<RedisCmd>)
    ensures
        cmd_views(out@) == cmd_views(cmds@),
{
    let mut out: Vec<RedisCmd> = Vec::new();
    let mut i: usize = 0;
    while i < cmds.len()
        invariant
            i <= cmds@.len(),
            cmd_views(out@) == cmd_views(cmds@).take(i as int),
        decreases cmds@.len() - i,
    {
        let ghost before = out@;
        let c = cmds[i].duplicate();
        out.push(c);
        i = i + 1;
        proof {
            lemma_cmd_views_push(before, c);
            assert(cmd_views(out@) =~= cmd_views(cmds@).take(i as int));
        }
    }
    proof {
        assert(cmd_views(cmds@).take(i as int) =~= cmd_views(cmds@));
    }
    out
}

/// Takes the commands out of a stream: the record holds the stream
/// without its commands. Any other record stays as it is.
fn drain_stream(dt_data: &mut DtData)
    ensures
        is_written(*final(dt_data), *old(dt_data), RedisWriteMethod::Rewrite),
{
    let mut taken = DtData::Begin {  };
    core::mem::swap(dt_data, &mut taken);
    let back = match taken {
        DtData::Redis { entry } => {
            let RedisEntry {
                id,
                is_base,
                db_id,
                timestamp_ms,
                expire_ms,
                raw_bytes,
                value_type_byte,
                key,
                value,
                cmd,
                data_size,
            } = entry;
            let value = match value {
                RedisObject::Stream(obj) => RedisObject::Stream(
                    StreamObject { key: obj.key, cmds: Vec::new() },
                ),
                other => other,
            };
            DtData::Redis {
                entry: RedisEntry {
                    id,
                    is_base,
                    db_id,
                    timestamp_ms,
                    expire_ms,
                    raw_bytes,
                    value_type_byte,
                    key,
                    value,
                    cmd,
                    data_size,
                },
            }
        },
        other => other,
    };
    *dt_data = back;
}

/// Takes the commands out of the streams among the records `from` up to
/// `to` of `data`, where the records were written by rebuilding them.
fn drain_streams(data: &mut Vec<DtData>, method: RedisWriteMethod, from: usize, to: usize)
    requires
        from <= to <= old(data)@.len(),
    ensures
        are_written(final(data)@, old(data)@, method, from as int, to as int),
{
    match method {
        RedisWriteMethod::Restore => {},
        RedisWriteMethod::Rewrite => {
            let ghost before = data@;
            let mut i: usize = from;
            while i < to
                invariant
                    from <= i <= to,
                    to <= before.len(),
                    are_written(data@, before, RedisWriteMethod::Rewrite, from as int, i as int),
                decreases to - i,
            {
                drain_stream(&mut data[i]);
                i = i + 1;
            }
        },
    }
}

impl RedisSinker {
    /// The commands that rebuild the object of `entry` by its type.
    fn rewrite_object(&self, entry: &RedisEntry) -> (r: Result<Vec<RedisCmd>, Error>)
        ensures
            match r {
                Ok(cmds) => object_cmds(*entry, self.version) == Ok::<_, Error>(cmd_views(cmds@)),
                Err(e) => object_cmds(*entry, self.version) == Err::<Seq<Seq<Seq<u8>>>, _>(e),
            },
    {
        match &entry.value {
            RedisObject::String(obj) => Ok(EntryRewriter::rewrite_string(obj)),
            RedisObject::List(obj) => Ok(EntryRewriter::rewrite_list(obj)),
            RedisObject::SetObj(obj) => Ok(EntryRewriter::rewrite_set(obj)),
            RedisObject::Hash(obj) => Ok(EntryRewriter::rewrite_hash(obj)),
            RedisObject::Zset(obj) => Ok(EntryRewriter::rewrite_zset(obj)),
            RedisObject::Stream(obj) => Ok(duplicate_cmds(&obj.cmds)),
            RedisObject::Module(_) => {
                let cmd = EntryRewriter::rewrite_as_restore(entry, self.version);
                let cmds: Vec<RedisCmd> = vec![cmd];
                proof {
                    assert(cmd_views(cmds@) =~= seq![restore_cmd(*entry, self.version)]);
                }
                Ok(cmds)
            },
            RedisObject::Unknown => {
                if entry.is_raw() {
                    let cmd = EntryRewriter::rewrite_as_restore(entry, self.version);
                    let cmds: Vec<RedisCmd> = vec![cmd];
                    proof {
                        assert(cmd_views(cmds@) =~= seq![restore_cmd(*entry, self.version)]);
                    }
                    Ok(cmds)
                } else if entry.cmd.len() > 0 {
                    let cmd = entry.cmd.duplicate();
                    let cmds: Vec<RedisCmd> = vec![cmd];
                    proof {
                        assert(cmd_views(cmds@) =~= seq![entry.cmd@]);
                    }
                    Ok(cmds)
                } else {
                    Err(Error::RewriteNotImplemented)
                }
            },
        }
    }

    /// The commands that write a change record to the destination.
    ///
    /// Only a Redis entry gives commands. Where the entry belongs to
    /// another database than the one selected, a `SELECT` comes first and
    /// the sinker takes the entry's database as selected. A stream that
    /// is rebuilt by its commands hands them over: it holds none
    /// afterwards, so that they are written once. An entry that cannot be
    /// written leaves the sinker and the record as they were.
    pub fn rewrite_entry(&mut self, dt_data: &mut DtData) -> (r: Result<Vec<RedisCmd>, Error>)
        ensures
            match item_cmds(
                old(self).now_db_id,
                *old(dt_data),
                old(self).method,
                old(self).version,
            ) {
                Ok(expected) => {
                    &&& r is Ok
                    &&& cmd_views(r->Ok_0@) == expected.0
                    &&& *final(self) == (RedisSinker { now_db_id: expected.1, ..*old(self) })
                    &&& is_written(*final(dt_data), *old(dt_data), old(self).method)
                },
                Err(e) => r == Err::<Vec<RedisCmd>, _>(e) && *final(self) == *old(self)
                    && *final(dt_data) == *old(dt_data),
            },
    {
        let r = self.entry_commands(dt_data);
        if r.is_ok() {
            match self.method {
                RedisWriteMethod::Rewrite => {
                    drain_stream(dt_data);
                },
                RedisWriteMethod::Restore => {},
            }
        }
        r
    }

    /// The commands that write a change record to the destination; the
    /// record is left as it is.
    fn entry_commands(&mut self, dt_data: &DtData) -> (r: Result<Vec<RedisCmd>, Error>)
        ensures
            match item_cmds(old(self).now_db_id, *dt_data, old(self).method, old(self).version) {
                Ok(expected) => {
                    &&& r is Ok
                    &&& cmd_views(r->Ok_0@) == expected.0
                    &&& *final(self) == (RedisSinker { now_db_id: expected.1, ..*old(self) })
                },
                Err(e) => r == Err::<Vec<RedisCmd>, _>(e) && *final(self) == *old(self),
            },
    {
        let mut cmds: Vec<RedisCmd> = Vec::new();
        proof {
            assert(cmd_views(cmds@) =~= Seq::<Seq<Seq<u8>>>::empty());
        }
        match dt_data {
            DtData::Redis { entry } => {
                let body: Vec<RedisCmd> = match self.method {
                    RedisWriteMethod::Restore => {
                        let cmd = if entry.is_raw() {
                            EntryRewriter::rewrite_as_restore(entry, self.version)
                        } else {
                            entry.cmd.duplicate()
                        };
                        let one: Vec<RedisCmd> = vec![cmd];
                        proof {
                            assert(cmd_views(one@) =~= seq![cmd@]);
                        }
                        one
                    },
                    RedisWriteMethod::Rewrite => {
                        let mut rewritten = match self.rewrite_object(entry) {
                            Ok(c) => c,
                            Err(e) => {
                                return Err(e);
                            },
                        };
                        match EntryRewriter::rewrite_expire(entry) {
                            Some(expire) => {
                                let ghost before = rewritten@;
                                rewritten.push(expire);
                                proof {
                                    lemma_cmd_views_push(before, expire);
                                    assert(cmd_views(rewritten@) =~= cmd_views(before)
                                        + expire_cmds(*entry));
                                }
                            },
                            None => {
                                proof {
                                    assert(cmd_views(rewritten@) =~= cmd_views(rewritten@)
                                        + expire_cmds(*entry));
                                }
                            },
                        }
                        rewritten
                    },
                };
                if entry.db_id != self.now_db_id {
                    let mut select = RedisCmd::new();
                    select.add_str_arg("SELECT");
                    select.add_arg(i64_to_decimal(entry.db_id));
                    let ghost before = cmds@;
                    cmds.push(select);
                    proof {
                        lemma_cmd_views_push(before, select);
                        assert(select@ =~= seq![lit("SELECT"), signed_digits_of(entry.db_id as int)]);
                        assert(cmd_views(cmds@) =~= select_cmds(self.now_db_id, *entry));
                    }
                    self.now_db_id = entry.db_id;
                }
                extend_cmds(&mut cmds, body);
                Ok(cmds)
            },
            _ => Ok(cmds),
        }
    }

    /// The commands that write the records `start_index .. start_index +
    /// batch_size` of `data`, as far as `data` has them. The streams
    /// among them that are rebuilt by their commands hand them over.
    /// Where a record cannot be written the sinker and the records stay
    /// as they were.
    pub fn batch_sink_raw(&mut self, data: &mut Vec<DtData>, start_index: usize, batch_size: usize)
        -> (r: Result<Vec<RedisCmd>, Error>)
        ensures
            ({
                let from = if start_index <= old(data)@.len() {
                    start_index as int
                } else {
                    old(data)@.len() as int
                };
                let len = chunk_len(old(data)@.len() as int, from, batch_size as int);
                match items_cmds(
                    old(self).now_db_id,
                    old(data)@.subrange(from, from + len),
                    old(self).method,
                    old(self).version,
                ) {
                    Ok(expected) => {
                        &&& r is Ok
                        &&& cmd_views(r->Ok_0@) == expected.0
                        &&& *final(self) == (RedisSinker { now_db_id: expected.1, ..*old(self) })
                        &&& are_written(
                            final(data)@,
                            old(data)@,
                            old(self).method,
                            from,
                            from + len,
                        )
                    },
                    Err(e) => r == Err::<Vec<RedisCmd>, _>(e) && *final(self) == *old(self)
                        && final(data)@ == old(data)@,
                }
            }),
    {
        let r = self.chunk_commands(data, start_index, batch_size);
        if r.is_ok() {
            let n: usize = data.len();
            let from: usize = if start_index <= n {
                start_index
            } else {
                n
            };
            let len: usize = if n - from < batch_size {
                n - from
            } else {
                batch_size
            };
            drain_streams(data, self.method, from, from + len);
        }
        r
    }

    /// The commands that write the records `start_index .. start_index +
    /// batch_size` of `data`, as far as `data` has them; the records are
    /// left as they are.
    fn chunk_commands(&mut self, data: &Vec<DtData>, start_index: usize, batch_size: usize) -> (r:
        Result<Vec<RedisCmd>, Error>)
        ensures
            ({
                let from = if start_index <= data@.len() {
                    start_index as int
                } else {
                    data@.len() as int
                };
                let len = chunk_len(data@.len() as int, from, batch_size as int);
                match items_cmds(
                    old(self).now_db_id,
                    data@.subrange(from, from + len),
                    old(self).method,
                    old(self).version,
                ) {
                    Ok(expected) => {
                        &&& r is Ok
                        &&& cmd_views(r->Ok_0@) == expected.0
                        &&& *final(self) == (RedisSinker { now_db_id: expected.1, ..*old(self) })
                    },
                    Err(e) => r == Err::<Vec<RedisCmd>, _>(e) && *final(self) == *old(self),
                }
            }),
    {
        let from: usize = if start_index <= data.len() {
            start_index
        } else {
            data.len()
        };
        let len: usize = if data.len() - from < batch_size {
            data.len() - from
        } else {
            batch_size
        };
        let n: usize = data.len();
        let ghost chunk = data@.subrange(from as int, from + len);
        let start_db: i64 = self.now_db_id;
        let mut cmds: Vec<RedisCmd> = Vec::new();
        proof {
            assert(cmd_views(cmds@) =~= Seq::<Seq<Seq<u8>>>::empty());
        }
        let mut i: usize = 0;
        while i < len
            invariant
                i <= len,
                from + len <= n,
                n == data@.len(),
                from == (if start_index <= n {
                    start_index
                } else {
                    n
                }),
                len == chunk_len(n as int, from as int, batch_size as int),
                chunk == data@.subrange(from as int, from + len),
                self.method == old(self).method,
                self.version == old(self).version,
                self.batch_size == old(self).batch_size,
                start_db == old(self).now_db_id,
                items_cmds(start_db, chunk.take(i as int), self.method, self.version) == Ok::<
                    _,
                    Error,
                >((cmd_views(cmds@), self.now_db_id)),
            decreases len - i,
        {
            proof {
                let t = chunk.take(i + 1);
                assert(t.drop_last() =~= chunk.take(i as int));
                assert(t.last() == data@[from + i]);
            }
            let ghost db_before = self.now_db_id;
            match self.entry_commands(&data[from + i]) {
                Ok(more) => {
                    extend_cmds(&mut cmds, more);
                },
                Err(e) => {
                    self.now_db_id = start_db;
                    proof {
                        let t = chunk.take(i + 1);
                        assert(item_cmds(db_before, t.last(), self.method, self.version) is Err);
                        assert(items_cmds(start_db, t, self.method, self.version) == Err::<
                            (Seq<Seq<Seq<u8>>>, i64),
                            _,
                        >(e));
                        lemma_items_cmds_fail_early(
                            start_db,
                            chunk,
                            self.method,
                            self.version,
                            i + 1,
                        );
                    }
                    return Err(e);
                },
            }
            i = i + 1;
        }
        proof {
            assert(chunk.take(len as int) =~= chunk);
        }
        Ok(cmds)
    }

    /// The command that writes a row change to Redis, if it has one.
    /// `order_col` is the single key column of the row's table, where it
    /// has one.
    pub fn dml_to_redis_cmd(row_data: &RowData, order_col: Option<&str>) -> (r: Option<RedisCmd>)
        ensures
            match r {
                Some(cmd) => dml_cmd(
                    *row_data,
                    match order_col {
                        Some(c) => Some(c@),
                        None => None,
                    },
                ) == Some(cmd@),
                None => dml_cmd(
                    *row_data,
                    match order_col {
                        Some(c) => Some(c@),
                        None => None,
                    },
                ) is None,
            },
    {
        let col = match order_col {
            Some(c) => c,
            None => {
                return None;
            },
        };
        let deleting: bool = row_data.row_type == RowType::Delete;
        let image: &ColMap = if deleting {
            match &row_data.before {
                Some(m) => m,
                None => {
                    return None;
                },
            }
        } else {
            match &row_data.after {
                Some(m) => m,
                None => {
                    return None;
                },
            }
        };
        let value = match image.get(col) {
            Some(v) => v,
            None => {
                return None;
            },
        };
        let text = match value.to_option_bytes() {
            Some(t) => t,
            None => {
                return None;
            },
        };
        let mut key = str_bytes(row_data.schema.as_str());
        key.push(46u8);
        let tb = str_bytes(row_data.tb.as_str());
        push_bytes(&mut key, tb.as_slice());
        key.push(46u8);
        push_bytes(&mut key, text.as_slice());
        proof {
            assert(key@ =~= dml_key(*row_data, text@));
        }
        let mut cmd = RedisCmd::new();
        if deleting {
            cmd.add_str_arg("del");
            cmd.add_arg(key);
            proof {
                assert(cmd@ =~= seq![lit("del"), dml_key(*row_data, text@)]);
            }
        } else {
            cmd.add_str_arg("hset");
            cmd.add_arg(key);
            let ghost head = cmd@;
            proof {
                assert(head =~= seq![lit("hset"), dml_key(*row_data, text@)]);
            }
            let mut i: usize = 0;
            while i < image.entries.len()
                invariant
                    i <= image.entries@.len(),
                    cmd@ == head + col_args(image.entries@.take(i as int)),
                decreases image.entries@.len() - i,
            {
                let entry = &image.entries[i];
                cmd.add_str_arg(entry.name.as_str());
                match entry.value.to_option_bytes() {
                    Some(v) => {
                        cmd.add_arg(v);
                    },
                    None => {
                        cmd.add_arg(Vec::new());
                    },
                }
                i = i + 1;
                proof {
                    let t = image.entries@.take(i as int);
                    assert(t.drop_last() =~= image.entries@.take(i - 1));
                    assert(t.last() == image.entries@[i - 1]);
                    assert(cmd@ =~= head + col_args(t));
                }
            }
            proof {
                assert(image.entries@.take(i as int) =~= image.entries@);
            }
        }
        Some(cmd)
    }

    /// The commands of the rows `start_index .. start_index + batch_size`
    /// of `data`, as far as `data` has them; a row without a command is
    /// passed over.
    pub fn batch_sink_dml(
        data: &Vec<RowData>,
        order_col: Option<&str>,
        start_index: usize,
        batch_size: usize,
    ) -> (cmds: Vec<RedisCmd>)
        ensures
            ({
                let from = if start_index <= data@.len() {
                    start_index as int
                } else {
                    data@.len() as int
                };
                let len = chunk_len(data@.len() as int, from, batch_size as int);
                cmd_views(cmds@) == dml_cmds(
                    data@.subrange(from, from + len),
                    match order_col {
                        Some(c) => Some(c@),
                        None => None,
                    },
                )
            }),
    {
        let from: usize = if start_index <= data.len() {
            start_index
        } else {
            data.len()
        };
        let len: usize = if data.len() - from < batch_size {
            data.len() - from
        } else {
            batch_size
        };
        let n: usize = data.len();
        let ghost chunk = data@.subrange(from as int, from + len);
        let ghost col = match order_col {
            Some(c) => Some(c@),
            None => None,
        };
        let mut cmds: Vec<RedisCmd> = Vec::new();
        proof {
            assert(cmd_views(cmds@) =~= Seq::<Seq<Seq<u8>>>::empty());
        }
        let mut i: usize = 0;
        while i < len
            invariant
                i <= len,
                from + len <= n,
                n == data@.len(),
                chunk == data@.subrange(from as int, from + len),
                col == (match order_col {
                    Some(c) => Some(c@),
                    None => None,
                }),
                cmd_views(cmds@) == dml_cmds(chunk.take(i as int), col),
            decreases len - i,
        {
            proof {
                let t = chunk.take(i + 1);
                assert(t.drop_last() =~= chunk.take(i as int));
                assert(t.last() == data@[from + i]);
            }
            match RedisSinker::dml_to_redis_cmd(&data[from + i], order_col) {
                Some(cmd) => {
                    let ghost before = cmds@;
                    cmds.push(cmd);
                    proof {
                        lemma_cmd_views_push(before, cmd);
                    }
                },
                None => {},
            }
            i = i + 1;
        }
        proof {
            assert(chunk.take(len as int) =~= chunk);
        }
        cmds
    }

    /// The commands as one pipelined request, which is owed one reply for
    /// each command; no request where there is no command.
    pub fn batch_sink(cmds: &Vec<RedisCmd>) -> (request: Option<PackedCmds>)
        ensures
            cmds@.len() == 0 ==> request is None,
            cmds@.len() > 0 ==> request is Some && request->0.bytes@ == encode_cmds(cmd_views(cmds@))
                && request->0.replies == cmds@.len(),
    {
        if cmds.len() == 0 {
            None
        } else {
            Some(CmdEncoder::pack(cmds))
        }
    }

    /// Each command as a request of its own, in order.
    pub fn serial_sink(cmds: &Vec<RedisCmd>) -> (requests: Vec<Vec<u8>>)
        ensures
            requests@.len() == cmds@.len(),
            forall|i: int| 0 <= i < cmds@.len() ==> (#[trigger] requests@[i])@ == encode_cmd(cmds@[i]@),
    {
        let mut requests: Vec<Vec<u8>> = Vec::new();
        let mut i: usize = 0;
        while i < cmds.len()
            invariant
                i <= cmds@.len(),
                requests@.len() == i,
                forall|j: int| 0 <= j < i ==> (#[trigger] requests@[j])@ == encode_cmd(cmds@[j]@),
            decreases cmds@.len() - i,
        {
            requests.push(CmdEncoder::encode(&cmds[i]));
            i = i + 1;
        }
        requests
    }

    /// Whether the sinker sends the commands of several records as one
    /// request.
    pub fn sends_batches(&self) -> (r: bool)
        ensures
            r == (self.batch_size > 1),
    {
        self.batch_size > 1
    }
}

/// Where a prefix of `items` cannot be written, `items` cannot be written,
/// for the same reason.
pub proof fn lemma_items_cmds_fail_early(
    db: i64,
    items: Seq<DtData>,
    method: RedisWriteMethod,
    version: RedisVersion,
    k: int,
)
    requires
        0 <= k <= items.len(),
        items_cmds(db, items.take(k), method, version) is Err,
    ensures
        items_cmds(db, items, method, version) == items_cmds(db, items.take(k), method, version),
    decreases items.len() - k,
{
    if k == items.len() {
        assert(items.take(k) =~= items);
    } else {
        let t = items.take(k + 1);
        assert(t.drop_last() =~= items.take(k));
        lemma_items_cmds_fail_early(db, items, method, version, k + 1);
    }
}

/// The bytes of the requests of `requests`, one after the other.
pub open spec fn requests_bytes(requests: Seq<PackedCmds>) -> Seq<u8>
    decreases requests.len(),
{
    if requests.len() == 0 {
        Seq::empty()
    } else {
        requests_bytes(requests.drop_last()) + requests.last().bytes@
    }
}

/// The number of replies that the requests of `requests` are owed.
pub open spec fn requests_replies(requests: Seq<PackedCmds>) -> int
    decreases requests.len(),
{
    if requests.len() == 0 {
        0
    } else {
        requests_replies(requests.drop_last()) + requests.last().replies
    }
}

/// The requests of `requests`, each as its bytes and the number of
/// replies that it is owed.
pub open spec fn request_views(requests: Seq<PackedCmds>) -> Seq<(Seq<u8>, int)> {
    Seq::new(requests.len(), |i: int| (requests[i].bytes@, requests[i].replies as int))
}

/// The requests that carry the commands `cmds` of one chunk: where
/// `batch` holds, one request for all of them, or none where there is no
/// command; else one request for each command.
pub open spec fn requests_of(cmds: Seq<Seq<Seq<u8>>>, batch: bool) -> Seq<(Seq<u8>, int)> {
    if batch {
        if cmds.len() == 0 {
            Seq::empty()
        } else {
            seq![(encode_cmds(cmds), cmds.len() as int)]
        }
    } else {
        Seq::new(cmds.len(), |i: int| (encode_cmd(cmds[i]), 1int))
    }
}

/// The requests that write the records of `data` from `from` on, chunk
/// by chunk of `step` records, on a connection that has the database
/// `db` selected; and the database that is selected after them.
pub open spec fn raw_plan(
    db: i64,
    data: Seq<DtData>,
    method: RedisWriteMethod,
    version: RedisVersion,
    step: int,
    batch: bool,
    from: int,
) -> Result<(Seq<(Seq<u8>, int)>, i64), Error>
    decreases data.len() - from,
{
    if from >= data.len() || from < 0 || step < 1 {
        Ok((Seq::empty(), db))
    } else {
        let len = chunk_len(data.len() as int, from, step);
        match items_cmds(db, data.subrange(from, from + len), method, version) {
            Err(e) => Err(e),
            Ok(chunk) => match raw_plan(chunk.1, data, method, version, step, batch, from + len) {
                Err(e) => Err(e),
                Ok(rest) => Ok((requests_of(chunk.0, batch) + rest.0, rest.1)),
            },
        }
    }
}

/// The requests that write the rows of `data` from `from` on, chunk by
/// chunk of `step` rows.
pub open spec fn dml_plan(
    metas: RdbMetaManager,
    data: Seq<RowData>,
    step: int,
    batch: bool,
    from: int,
) -> Result<Seq<(Seq<u8>, int)>, Error>
    decreases data.len() - from,
{
    if from >= data.len() || from < 0 || step < 1 {
        Ok(Seq::empty())
    } else {
        let len = chunk_len(data.len() as int, from, step);
        match rows_cmds(metas, data.subrange(from, from + len)) {
            Err(e) => Err(e),
            Ok(cmds) => match dml_plan(metas, data, step, batch, from + len) {
                Err(e) => Err(e),
                Ok(rest) => Ok(requests_of(cmds, batch) + rest),
            },
        }
    }
}

/// `rest` with the requests `done` in front.
pub open spec fn plan_after(
    done: Seq<(Seq<u8>, int)>,
    rest: Result<(Seq<(Seq<u8>, int)>, i64), Error>,
) -> Result<(Seq<(Seq<u8>, int)>, i64), Error> {
    match rest {
        Ok(r) => Ok((done + r.0, r.1)),
        Err(e) => Err(e),
    }
}

/// `rest` with the requests `done` in front.
pub open spec fn dml_plan_after(
    done: Seq<(Seq<u8>, int)>,
    rest: Result<Seq<(Seq<u8>, int)>, Error>,
) -> Result<Seq<(Seq<u8>, int)>, Error> {
    match rest {
        Ok(r) => Ok(done + r),
        Err(e) => Err(e),
    }
}

/// The size of a chunk of the sinker: its batch size, or one where it
/// sends every command by itself.
pub open spec fn step_of(batch_size: usize) -> int {
    if batch_size > 1 {
        batch_size as int
    } else {
        1
    }
}

/// Whether every request of `requests` carries a command, and no more
/// than one where `single` holds.
pub open spec fn requests_fit(requests: Seq<PackedCmds>, single: bool) -> bool {
    forall|i: int|
        0 <= i < requests.len() ==> (#[trigger] requests[i]).replies >= 1 && (single
            ==> requests[i].replies == 1)
}

/// The key column of the table of `row`, as the cache `metas` has it:
/// `None` where the table is not in the cache, `Some(None)` where it has
/// no key column.
pub open spec fn order_col_of(metas: RdbMetaManager, row: RowData) -> Option<Option<Seq<char>>> {
    match metas.spec_get(row.schema@, row.tb@) {
        None => None,
        Some(m) => Some(
            match m.order_col {
                Some(c) => Some(c@),
                None => None,
            },
        ),
    }
}

/// The commands that write the rows of `rows`, each by the key column of
/// its table; an error where the metadata of a table is not in the
/// cache.
pub open spec fn rows_cmds(metas: RdbMetaManager, rows: Seq<RowData>) -> Result<
    Seq<Seq<Seq<u8>>>,
    Error,
>
    decreases rows.len(),
{
    if rows.len() == 0 {
        Ok(Seq::empty())
    } else {
        match rows_cmds(metas, rows.drop_last()) {
            Err(e) => Err(e),
            Ok(done) => match order_col_of(metas, rows.last()) {
                None => Err(Error::TableMetaMissing),
                Some(col) => match dml_cmd(rows.last(), col) {
                    Some(c) => Ok(done.push(c)),
                    None => Ok(done),
                },
            },
        }
    }
}

/// Commands on the wire, one after the other, are the commands of the
/// first run and then those of the second.
pub proof fn lemma_encode_cmds_concat(a: Seq<Seq<Seq<u8>>>, b: Seq<Seq<Seq<u8>>>)
    ensures
        encode_cmds(a + b) == encode_cmds(a) + encode_cmds(b),
    decreases b.len(),
{
    if b.len() == 0 {
        assert(a + b =~= a);
        assert(encode_cmds(a) + encode_cmds(b) =~= encode_cmds(a));
    } else {
        lemma_encode_cmds_concat(a, b.drop_last());
        assert((a + b).drop_last() =~= a + b.drop_last());
        assert((a + b).last() == b.last());
        assert(encode_cmds(a + b) =~= encode_cmds(a) + encode_cmds(b));
    }
}

/// The commands of a run of records are the commands of its first part,
/// then the commands of its second part on the connection as the first
/// part leaves it.
pub proof fn lemma_items_cmds_concat(
    db: i64,
    a: Seq<DtData>,
    b: Seq<DtData>,
    method: RedisWriteMethod,
    version: RedisVersion,
)
    ensures
        items_cmds(db, a + b, method, version) == (match items_cmds(db, a, method, version) {
            Err(e) => Err(e),
            Ok(first) => match items_cmds(first.1, b, method, version) {
                Err(e) => Err(e),
                Ok(second) => Ok((first.0 + second.0, second.1)),
            },
        }),
    decreases b.len(),
{
    if b.len() == 0 {
        assert(a + b =~= a);
        match items_cmds(db, a, method, version) {
            Ok(first) => {
                assert(first.0 + Seq::<Seq<Seq<u8>>>::empty() =~= first.0);
            },
            Err(_) => {},
        }
    } else {
        lemma_items_cmds_concat(db, a, b.drop_last(), method, version);
        assert((a + b).drop_last() =~= a + b.drop_last());
        assert((a + b).last() == b.last());
        match items_cmds(db, a, method, version) {
            Ok(first) => match items_cmds(first.1, b.drop_last(), method, version) {
                Ok(mid) => match item_cmds(mid.1, b.last(), method, version) {
                    Ok(more) => {
                        assert((first.0 + mid.0) + more.0 =~= first.0 + (mid.0 + more.0));
                    },
                    Err(_) => {},
                },
                Err(_) => {},
            },
            Err(_) => {},
        }
    }
}

impl RedisSinker {
    /// Appends to `requests` the requests that carry the commands
    /// `cmds`: one request for all of them where the sinker sends
    /// batches, one for each where it does not.
    fn add_requests(&self, requests: &mut Vec<PackedCmds>, cmds: &Vec<RedisCmd>)
        ensures
            requests_bytes(final(requests)@) == requests_bytes(old(requests)@) + encode_cmds(
                cmd_views(cmds@),
            ),
            requests_replies(final(requests)@) == requests_replies(old(requests)@) + cmds@.len(),
            requests_fit(old(requests)@, self.batch_size <= 1) ==> requests_fit(
                final(requests)@,
                self.batch_size <= 1,
            ),
            request_views(final(requests)@) == request_views(old(requests)@) + requests_of(
                cmd_views(cmds@),
                self.batch_size > 1,
            ),
    {
        let ghost start = requests@;
        let ghost views = cmd_views(cmds@);
        if self.batch_size > 1 {
            match RedisSinker::batch_sink(cmds) {
                Some(request) => {
                    requests.push(request);
                    proof {
                        assert(requests@.drop_last() =~= start);
                        assert(request_views(requests@) =~= request_views(start) + requests_of(
                            views,
                            true,
                        ));
                    }
                },
                None => {
                    proof {
                        assert(views =~= Seq::<Seq<Seq<u8>>>::empty());
                        assert(requests_bytes(start) + encode_cmds(views) =~= requests_bytes(start));
                        assert(request_views(requests@) =~= request_views(start) + requests_of(
                            views,
                            true,
                        ));
                    }
                },
            }
        } else {
            let mut i: usize = 0;
            proof {
                assert(views.take(0) =~= Seq::<Seq<Seq<u8>>>::empty());
                assert(requests_bytes(start) + encode_cmds(views.take(0)) =~= requests_bytes(start));
                assert(request_views(requests@) =~= request_views(start) + requests_of(
                    views,
                    false,
                ).take(0));
            }
            while i < cmds.len()
                invariant
                    i <= cmds@.len(),
                    views == cmd_views(cmds@),
                    requests_bytes(requests@) == requests_bytes(start) + encode_cmds(
                        views.take(i as int),
                    ),
                    requests_replies(requests@) == requests_replies(start) + i,
                    requests_fit(start, true) ==> requests_fit(requests@, true),
                    request_views(requests@) == request_views(start) + requests_of(views, false).take(
                        i as int,
                    ),
                decreases cmds@.len() - i,
            {
                let ghost before = requests@;
                let bytes = CmdEncoder::encode(&cmds[i]);
                requests.push(PackedCmds { bytes, replies: 1 });
                i = i + 1;
                proof {
                    assert(requests@.drop_last() =~= before);
                    let t = views.take(i as int);
                    assert(t.drop_last() =~= views.take(i - 1));
                    assert(t.last() == cmds@[i - 1]@);
                    assert(requests_bytes(requests@) =~= requests_bytes(start) + encode_cmds(t));
                    let one = (encode_cmd(views[i - 1]), 1int);
                    let singles = requests_of(views, false);
                    assert(request_views(requests@) =~= request_views(before).push(one));
                    assert(singles.take(i as int) =~= singles.take(i - 1).push(one));
                    assert(request_views(requests@) =~= request_views(start) + singles.take(
                        i as int,
                    ));
                }
            }
            proof {
                assert(views.take(i as int) =~= views);
                assert(requests_of(views, false).take(i as int) =~= requests_of(views, false));
            }
        }
    }

    /// The requests that write the records `data` to the destination, in
    /// order.
    ///
    /// The requests carry the commands of all the records, one after the
    /// other, and are owed one reply for each command. Where the sinker
    /// sends batches, the commands of `batch_size` records go out as one
    /// request; else every command is a request of its own. The streams
    /// that are rebuilt by their commands hand them over. Where a record
    /// cannot be written there is no request at all, and the sinker and
    /// the records stay as they were.
    pub fn sink_raw(&mut self, data: &mut Vec<DtData>) -> (r: Result<Vec<PackedCmds>, Error>)
        ensures
            match raw_plan(
                old(self).now_db_id,
                old(data)@,
                old(self).method,
                old(self).version,
                step_of(old(self).batch_size),
                old(self).batch_size > 1,
                0,
            ) {
                Ok(plan) => r is Ok && request_views(r->Ok_0@) == plan.0,
                Err(e) => r == Err::<Vec<PackedCmds>, _>(e),
            },
            match items_cmds(
                old(self).now_db_id,
                old(data)@,
                old(self).method,
                old(self).version,
            ) {
                Ok(expected) => {
                    &&& r is Ok
                    &&& requests_bytes(r->Ok_0@) == encode_cmds(expected.0)
                    &&& requests_replies(r->Ok_0@) == expected.0.len()
                    &&& requests_fit(r->Ok_0@, old(self).batch_size <= 1)
                    &&& *final(self) == (RedisSinker { now_db_id: expected.1, ..*old(self) })
                    &&& are_written(
                        final(data)@,
                        old(data)@,
                        old(self).method,
                        0,
                        old(data)@.len() as int,
                    )
                },
                Err(e) => r == Err::<Vec<PackedCmds>, _>(e) && *final(self) == *old(self)
                    && final(data)@ == old(data)@,
            },
    {
        let r = self.requests_of_records(data);
        if r.is_ok() {
            let n: usize = data.len();
            drain_streams(data, self.method, 0, n);
        }
        r
    }

    /// The requests that write the records `data` to the destination, in
    /// order; the records are left as they are.
    fn requests_of_records(&mut self, data: &Vec<DtData>) -> (r: Result<Vec<PackedCmds>, Error>)
        ensures
            match raw_plan(
                old(self).now_db_id,
                data@,
                old(self).method,
                old(self).version,
                step_of(old(self).batch_size),
                old(self).batch_size > 1,
                0,
            ) {
                Ok(plan) => r is Ok && request_views(r->Ok_0@) == plan.0,
                Err(e) => r == Err::<Vec<PackedCmds>, _>(e),
            },
            match items_cmds(old(self).now_db_id, data@, old(self).method, old(self).version) {
                Ok(expected) => {
                    &&& r is Ok
                    &&& requests_bytes(r->Ok_0@) == encode_cmds(expected.0)
                    &&& requests_replies(r->Ok_0@) == expected.0.len()
                    &&& requests_fit(r->Ok_0@, old(self).batch_size <= 1)
                    &&& *final(self) == (RedisSinker { now_db_id: expected.1, ..*old(self) })
                },
                Err(e) => r == Err::<Vec<PackedCmds>, _>(e) && *final(self) == *old(self),
            },
    {
        let start_db: i64 = self.now_db_id;
        let step: usize = if self.batch_size > 1 {
            self.batch_size
        } else {
            1
        };
        let n: usize = data.len();
        let mut requests: Vec<PackedCmds> = Vec::new();
        let ghost mut all: Seq<Seq<Seq<u8>>> = Seq::empty();
        let mut from: usize = 0;
        proof {
            assert(data@.take(0) =~= Seq::<DtData>::empty());
            assert(request_views(requests@) =~= Seq::<(Seq<u8>, int)>::empty());
            lemma_plan_after_nothing(
                raw_plan(
                    start_db,
                    data@,
                    self.method,
                    self.version,
                    step as int,
                    self.batch_size > 1,
                    0,
                ),
            );
        }
        while from < n
            invariant
                from <= n,
                n == data@.len(),
                step >= 1,
                self.method == old(self).method,
                self.version == old(self).version,
                self.batch_size == old(self).batch_size,
                start_db == old(self).now_db_id,
                items_cmds(start_db, data@.take(from as int), self.method, self.version) == Ok::<
                    _,
                    Error,
                >((all, self.now_db_id)),
                requests_bytes(requests@) == encode_cmds(all),
                requests_replies(requests@) == all.len(),
                requests_fit(requests@, self.batch_size <= 1),
                step == step_of(self.batch_size),
                raw_plan(
                    start_db,
                    data@,
                    self.method,
                    self.version,
                    step as int,
                    self.batch_size > 1,
                    0,
                ) == plan_after(
                    request_views(requests@),
                    raw_plan(
                        self.now_db_id,
                        data@,
                        self.method,
                        self.version,
                        step as int,
                        self.batch_size > 1,
                        from as int,
                    ),
                ),
            decreases n - from,
        {
            let len: usize = if n - from < step {
                n - from
            } else {
                step
            };
            let ghost done = data@.take(from as int);
            let ghost chunk = data@.subrange(from as int, from + len);
            proof {
                assert(data@.take(from + len) =~= done + chunk);
                lemma_items_cmds_concat(start_db, done, chunk, self.method, self.version);
                lemma_raw_plan_step(
                    request_views(requests@),
                    self.now_db_id,
                    data@,
                    self.method,
                    self.version,
                    step as int,
                    self.batch_size > 1,
                    from as int,
                );
            }
            match self.chunk_commands(data, from, step) {
                Ok(cmds) => {
                    self.add_requests(&mut requests, &cmds);
                    proof {
                        lemma_encode_cmds_concat(all, cmd_views(cmds@));
                        all = all + cmd_views(cmds@);
                    }
                },
                Err(e) => {
                    self.now_db_id = start_db;
                    proof {
                        lemma_items_cmds_fail_early(
                            start_db,
                            data@,
                            self.method,
                            self.version,
                            from + len,
                        );
                    }
                    return Err(e);
                },
            }
            from = from + len;
        }
        proof {
            assert(data@.take(from as int) =~= data@);
            lemma_raw_plan_step(
                request_views(requests@),
                self.now_db_id,
                data@,
                self.method,
                self.version,
                step as int,
                self.batch_size > 1,
                from as int,
            );
        }
        Ok(requests)
    }

    /// The commands of the rows `from .. from + len` of `data`, each by
    /// the key column that `metas` holds for its table.
    fn chunk_dml(data: &Vec<RowData>, metas: &RdbMetaManager, from: usize, len: usize) -> (r: Result<
        Vec<RedisCmd>,
        Error,
    >)
        requires
            from + len <= data@.len(),
        ensures
            match rows_cmds(*metas, data@.subrange(from as int, from + len)) {
                Ok(expected) => r is Ok && cmd_views(r->Ok_0@) == expected,
                Err(e) => r == Err::<Vec<RedisCmd>, _>(e),
            },
    {
        let ghost chunk = data@.subrange(from as int, from + len);
        let n: usize = data.len();
        let mut cmds: Vec<RedisCmd> = Vec::new();
        let mut i: usize = 0;
        proof {
            assert(chunk.take(0) =~= Seq::<RowData>::empty());
            assert(cmd_views(cmds@) =~= Seq::<Seq<Seq<u8>>>::empty());
        }
        while i < len
            invariant
                i <= len,
                from + len <= n,
                n == data@.len(),
                chunk == data@.subrange(from as int, from + len),
                rows_cmds(*metas, chunk.take(i as int)) == Ok::<_, Error>(cmd_views(cmds@)),
            decreases len - i,
        {
            let row = &data[from + i];
            proof {
                let t = chunk.take(i + 1);
                assert(t.drop_last() =~= chunk.take(i as int));
                assert(t.last() == *row);
            }
            let meta = match metas.get_tb_meta(row.schema.as_str(), row.tb.as_str()) {
                Some(m) => m,
                None => {
                    proof {
                        lemma_rows_cmds_fail_early(*metas, chunk, i + 1);
                    }
                    return Err(Error::TableMetaMissing);
                },
            };
            let cmd = match &meta.order_col {
                Some(c) => RedisSinker::dml_to_redis_cmd(row, Some(c.as_str())),
                None => RedisSinker::dml_to_redis_cmd(row, None),
            };
            match cmd {
                Some(c) => {
                    let ghost before = cmds@;
                    cmds.push(c);
                    proof {
                        lemma_cmd_views_push(before, c);
                    }
                },
                None => {},
            }
            i = i + 1;
        }
        proof {
            assert(chunk.take(len as int) =~= chunk);
        }
        Ok(cmds)
    }

    /// The requests that write the row changes `data` to the
    /// destination, in order; each row by the key column that `metas`
    /// holds for its table.
    ///
    /// The requests carry the commands of the rows that have one, one
    /// after the other, and are owed one reply for each command. Where
    /// the sinker sends batches, the commands of `batch_size` rows go
    /// out as one request; else every command is a request of its own.
    /// Where the metadata of a table is not in the cache there is no
    /// request at all: the caller fetches it and comes again.
    pub fn sink_dml(&self, data: &Vec<RowData>, metas: &RdbMetaManager) -> (r: Result<
        Vec<PackedCmds>,
        Error,
    >)
        ensures
            match dml_plan(*metas, data@, step_of(self.batch_size), self.batch_size > 1, 0) {
                Ok(plan) => r is Ok && request_views(r->Ok_0@) == plan,
                Err(e) => r == Err::<Vec<PackedCmds>, _>(e),
            },
            match rows_cmds(*metas, data@) {
                Ok(expected) => {
                    &&& r is Ok
                    &&& requests_bytes(r->Ok_0@) == encode_cmds(expected)
                    &&& requests_replies(r->Ok_0@) == expected.len()
                    &&& requests_fit(r->Ok_0@, self.batch_size <= 1)
                },
                Err(e) => r == Err::<Vec<PackedCmds>, _>(e),
            },
    {
        let step: usize = if self.batch_size > 1 {
            self.batch_size
        } else {
            1
        };
        let batch: bool = self.batch_size > 1;
        let n: usize = data.len();
        let mut requests: Vec<PackedCmds> = Vec::new();
        let ghost mut all: Seq<Seq<Seq<u8>>> = Seq::empty();
        let mut from: usize = 0;
        proof {
            assert(data@.take(0) =~= Seq::<RowData>::empty());
            assert(request_views(requests@) =~= Seq::<(Seq<u8>, int)>::empty());
            lemma_dml_plan_after_nothing(dml_plan(*metas, data@, step as int, batch, 0));
        }
        while from < n
            invariant
                from <= n,
                n == data@.len(),
                step == step_of(self.batch_size),
                batch == (self.batch_size > 1),
                rows_cmds(*metas, data@.take(from as int)) == Ok::<_, Error>(all),
                requests_bytes(requests@) == encode_cmds(all),
                requests_replies(requests@) == all.len(),
                requests_fit(requests@, self.batch_size <= 1),
                dml_plan(*metas, data@, step as int, batch, 0) == dml_plan_after(
                    request_views(requests@),
                    dml_plan(*metas, data@, step as int, batch, from as int),
                ),
            decreases n - from,
        {
            let len: usize = if n - from < step {
                n - from
            } else {
                step
            };
            let ghost done = data@.take(from as int);
            let ghost chunk = data@.subrange(from as int, from + len);
            proof {
                assert(data@.take(from + len) =~= done + chunk);
                lemma_rows_cmds_concat(*metas, done, chunk);
                lemma_dml_plan_step(
                    request_views(requests@),
                    *metas,
                    data@,
                    step as int,
                    batch,
                    from as int,
                );
            }
            match RedisSinker::chunk_dml(data, metas, from, len) {
                Ok(cmds) => {
                    self.add_requests(&mut requests, &cmds);
                    proof {
                        lemma_encode_cmds_concat(all, cmd_views(cmds@));
                        all = all + cmd_views(cmds@);
                    }
                },
                Err(e) => {
                    proof {
                        lemma_rows_cmds_fail_early(*metas, data@, from + len);
                    }
                    return Err(e);
                },
            }
            from = from + len;
        }
        proof {
            assert(data@.take(from as int) =~= data@);
            lemma_dml_plan_step(
                request_views(requests@),
                *metas,
                data@,
                step as int,
                batch,
                from as int,
            );
        }
        Ok(requests)
    }
}

/// A plan with no request in front is the plan.
pub proof fn lemma_plan_after_nothing(rest: Result<(Seq<(Seq<u8>, int)>, i64), Error>)
    ensures
        plan_after(Seq::empty(), rest) == rest,
{
    match rest {
        Ok(r) => {
            assert(Seq::<(Seq<u8>, int)>::empty() + r.0 =~= r.0);
        },
        Err(_) => {},
    }
}

/// The plan from a place on is the requests of the chunk at that place,
/// then the plan from the end of the chunk on, for the database that is
/// selected there; behind the last record the plan is empty.
pub proof fn lemma_raw_plan_step(
    done: Seq<(Seq<u8>, int)>,
    db: i64,
    data: Seq<DtData>,
    method: RedisWriteMethod,
    version: RedisVersion,
    step: int,
    batch: bool,
    from: int,
)
    requires
        0 <= from <= data.len(),
        step >= 1,
    ensures
        plan_after(done, raw_plan(db, data, method, version, step, batch, from)) == (if from
            == data.len() {
            Ok((done, db))
        } else {
            match items_cmds(
                db,
                data.subrange(from, from + chunk_len(data.len() as int, from, step)),
                method,
                version,
            ) {
                Err(e) => Err(e),
                Ok(chunk) => plan_after(
                    done + requests_of(chunk.0, batch),
                    raw_plan(
                        chunk.1,
                        data,
                        method,
                        version,
                        step,
                        batch,
                        from + chunk_len(data.len() as int, from, step),
                    ),
                ),
            }
        }),
{
    if from == data.len() {
        assert(done + Seq::<(Seq<u8>, int)>::empty() =~= done);
    } else {
        let len = chunk_len(data.len() as int, from, step);
        match items_cmds(db, data.subrange(from, from + len), method, version) {
            Err(_) => {},
            Ok(chunk) => {
                let more = requests_of(chunk.0, batch);
                match raw_plan(chunk.1, data, method, version, step, batch, from + len) {
                    Ok(r) => {
                        assert(done + (more + r.0) =~= (done + more) + r.0);
                    },
                    Err(_) => {},
                }
            },
        }
    }
}

/// A plan with no request in front is the plan.
pub proof fn lemma_dml_plan_after_nothing(rest: Result<Seq<(Seq<u8>, int)>, Error>)
    ensures
        dml_plan_after(Seq::empty(), rest) == rest,
{
    match rest {
        Ok(r) => {
            assert(Seq::<(Seq<u8>, int)>::empty() + r =~= r);
        },
        Err(_) => {},
    }
}

/// The plan from a place on is the requests of the chunk at that place,
/// then the plan from the end of the chunk on; behind the last row the
/// plan is empty.
pub proof fn lemma_dml_plan_step(
    done: Seq<(Seq<u8>, int)>,
    metas: RdbMetaManager,
    data: Seq<RowData>,
    step: int,
    batch: bool,
    from: int,
)
    requires
        0 <= from <= data.len(),
        step >= 1,
    ensures
        dml_plan_after(done, dml_plan(metas, data, step, batch, from)) == (if from == data.len() {
            Ok(done)
        } else {
            match rows_cmds(
                metas,
                data.subrange(from, from + chunk_len(data.len() as int, from, step)),
            ) {
                Err(e) => Err(e),
                Ok(cmds) => dml_plan_after(
                    done + requests_of(cmds, batch),
                    dml_plan(
                        metas,
                        data,
                        step,
                        batch,
                        from + chunk_len(data.len() as int, from, step),
                    ),
                ),
            }
        }),
{
    if from == data.len() {
        assert(done + Seq::<(Seq<u8>, int)>::empty() =~= done);
    } else {
        let len = chunk_len(data.len() as int, from, step);
        match rows_cmds(metas, data.subrange(from, from + len)) {
            Err(_) => {},
            Ok(cmds) => {
                let more = requests_of(cmds, batch);
                match dml_plan(metas, data, step, batch, from + len) {
                    Ok(r) => {
                        assert(done + (more + r) =~= (done + more) + r);
                    },
                    Err(_) => {},
                }
            },
        }
    }
}

/// The commands of a run of rows are the commands of its first part,
/// then the commands of its second part.
pub proof fn lemma_rows_cmds_concat(metas: RdbMetaManager, a: Seq<RowData>, b: Seq<RowData>)
    ensures
        rows_cmds(metas, a + b) == (match rows_cmds(metas, a) {
            Err(e) => Err(e),
            Ok(first) => match rows_cmds(metas, b) {
                Err(e) => Err(e),
                Ok(second) => Ok(first + second),
            },
        }),
    decreases b.len(),
{
    if b.len() == 0 {
        assert(a + b =~= a);
        match rows_cmds(metas, a) {
            Ok(first) => {
                assert(first + Seq::<Seq<Seq<u8>>>::empty() =~= first);
            },
            Err(_) => {},
        }
    } else {
        lemma_rows_cmds_concat(metas, a, b.drop_last());
        assert((a + b).drop_last() =~= a + b.drop_last());
        assert((a + b).last() == b.last());
        match rows_cmds(metas, a) {
            Ok(first) => match rows_cmds(metas, b.drop_last()) {
                Ok(mid) => match order_col_of(metas, b.last()) {
                    Some(col) => match dml_cmd(b.last(), col) {
                        Some(c) => {
                            assert((first + mid).push(c) =~= first + mid.push(c));
                        },
                        None => {},
                    },
                    None => {},
                },
                Err(_) => {},
            },
            Err(_) => {},
        }
    }
}

/// Where the metadata of a table of the first `k` rows is missing, it
/// is missing for all the rows.
pub proof fn lemma_rows_cmds_fail_early(metas: RdbMetaManager, rows: Seq<RowData>, k: int)
    requires
        0 <= k <= rows.len(),
        rows_cmds(metas, rows.take(k)) is Err,
    ensures
        rows_cmds(metas, rows) == rows_cmds(metas, rows.take(k)),
    decreases rows.len() - k,
{
    if k == rows.len() {
        assert(rows.take(k) =~= rows);
    } else {
        let t = rows.take(k + 1);
        assert(t.drop_last() =~= rows.take(k));
        lemma_rows_cmds_fail_early(metas, rows, k + 1);
    }
}

} // verus!
