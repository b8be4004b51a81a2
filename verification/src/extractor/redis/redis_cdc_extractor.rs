//! The stream of commands that a master sends its replica after the
//! snapshot.
//!
//! Every value read from the stream moves the replication offset on by
//! the bytes that it took. A `SELECT` switches the database that the
//! following commands belong to. A write to the heartbeat key, in the
//! heartbeat database, gives the latest heartbeat timestamp. Every other
//! command becomes a change record, unless the filter drops its database.

use vstd::prelude::*;
use crate::error::Error;
use crate::extractor::redis::redis_psync_extractor::{PsyncView, RedisPsyncExtractor, Stage};
use crate::extractor::redis::redis_resp_types::{lemma_bulk_view, value_views, Value, ValueView};
use crate::meta::dt_data::{DtData, DtItem};
use crate::meta::position::{Position, TIMESTAMP_WIDTH};
use crate::meta::redis::redis_entry::RedisEntry;
use crate::meta::redis::redis_object::RedisCmd;
use crate::util::bytes::lit;
use crate::util::bytes::{
    copy_bytes,
    eq_ignore_ascii_case,
    find_byte,
    first_index_of,
    same_ignoring_case,
    slice_bytes,
    str_bytes,
    text_bytes,
};
use crate::util::decimal::{
    digits_of,
    fixed_digits,
    i64_to_decimal,
    parse_i64,
    parse_i64_spec,
    signed_digits_of,
    u64_to_decimal,
};

verus! {

/// Which databases are captured.
#[derive(Debug, Clone)]
pub struct RedisDbFilter {
    /// Where not empty, only these databases are captured.
    pub do_dbs: Vec<i64>,
    /// These databases are never captured.
    pub ignore_dbs: Vec<i64>,
}

/// Whether the filter drops the database `db`: it is named as ignored, or
/// other databases are named as captured and it is not among them.
pub open spec fn filtered(do_dbs: Seq<i64>, ignore_dbs: Seq<i64>, db: i64) -> bool {
    ignore_dbs.contains(db) || (do_dbs.len() > 0 && !do_dbs.contains(db))
}

fn contains_db(dbs: &Vec<i64>, db: i64) -> (r: bool)
    ensures
        r == dbs@.contains(db),
{
    let mut i: usize = 0;
    while i < dbs.len()
        invariant
            i <= dbs@.len(),
            forall|j: int| 0 <= j < i ==> dbs@[j] != db,
        decreases dbs@.len() - i,
    {
        if dbs[i] == db {
            return true;
        }
        i = i + 1;
    }
    false
}

impl RedisDbFilter {
    /// A filter that captures every database.
    pub fn new() -> (f: RedisDbFilter)
        ensures
            f.do_dbs@.len() == 0,
            f.ignore_dbs@.len() == 0,
    {
        RedisDbFilter { do_dbs: Vec::new(), ignore_dbs: Vec::new() }
    }

    /// Whether the filter drops the database `db`.
    pub fn filter_db(&self, db: i64) -> (r: bool)
        ensures
            r == filtered(self.do_dbs@, self.ignore_dbs@, db),
    {
        contains_db(&self.ignore_dbs, db) || (self.do_dbs.len() > 0 && !contains_db(
            &self.do_dbs,
            db,
        ))
    }
}

/// The key that heartbeats are written to, and its database.
#[derive(Debug, Clone)]
pub struct HeartbeatKey {
    pub db_id: i64,
    pub key: Vec<u8>,
}

/// The heartbeat key that a configured text names. The text is of the
/// form `<db-index>.<key>`: a database index in decimal, a dot, and a key
/// that is not empty. Any other text names none.
pub open spec fn heartbeat_target(config: Seq<u8>) -> Option<(i64, Seq<u8>)> {
    let dot = first_index_of(config, 46u8);
    if 0 <= dot < config.len() && dot + 1 < config.len() {
        match parse_i64_spec(config.take(dot)) {
            Some(db) => Some((db, config.skip(dot + 1))),
            None => None,
        }
    } else {
        None
    }
}

/// The heartbeat key that the configured text `config` names, `None`
/// where it is not of the form `<db-index>.<key>`.
pub fn parse_heartbeat_key(config: &str) -> (r: Option<HeartbeatKey>)
    ensures
        match r {
            Some(h) => heartbeat_target(text_bytes(config@)) == Some((h.db_id, h.key@)),
            None => heartbeat_target(text_bytes(config@)) is None,
        },
{
    let bytes = str_bytes(config);
    let dot = find_byte(bytes.as_slice(), 0, 46u8);
    proof {
        assert(bytes@.skip(0) =~= bytes@);
    }
    if dot >= bytes.len() || dot + 1 >= bytes.len() {
        return None;
    }
    let db_text = slice_bytes(bytes.as_slice(), 0, dot);
    proof {
        assert(db_text@ =~= bytes@.take(dot as int));
    }
    match parse_i64(db_text.as_slice()) {
        Some(db_id) => {
            let key = slice_bytes(bytes.as_slice(), dot + 1, bytes.len());
            proof {
                assert(key@ =~= bytes@.skip(dot + 1));
            }
            Some(HeartbeatKey { db_id, key })
        },
        None => None,
    }
}

/// The configuration and the starting point of a replica.
#[derive(Debug, Clone)]
pub struct RedisCdcExtractor {
    /// The run identifier of the master, empty before the first
    /// handshake.
    pub run_id: Vec<u8>,
    /// The replication offset to go on from.
    pub repl_offset: u64,
    /// The port that the replica announces.
    pub repl_port: u64,
    /// The database that the stream is in.
    pub now_db_id: i64,
    /// How often the master is told how far the replica has come.
    pub keepalive_interval_secs: u64,
    /// How often a heartbeat is written; zero for never.
    pub heartbeat_interval_secs: u64,
    /// The heartbeat key, as `<db-index>.<key>`.
    pub heartbeat_key: String,
    pub filter: RedisDbFilter,
}

/// A replica in the streaming state.
#[derive(Debug, Clone)]
pub struct AofStream {
    pub run_id: Vec<u8>,
    /// The bytes of the stream consumed so far.
    pub repl_offset: u64,
    /// The database that the following commands belong to.
    pub now_db_id: i64,
    /// The heartbeat key, where heartbeats are observed.
    pub heartbeat: Option<HeartbeatKey>,
    /// The latest heartbeat timestamp seen; empty before the first.
    pub heartbeat_timestamp: Vec<u8>,
    pub filter: RedisDbFilter,
}

/// What a stream is, to the contracts.
pub struct AofView {
    pub run_id: Seq<u8>,
    pub repl_offset: u64,
    pub now_db_id: i64,
    pub heartbeat: Option<(i64, Seq<u8>)>,
    pub heartbeat_timestamp: Seq<u8>,
    pub do_dbs: Seq<i64>,
    pub ignore_dbs: Seq<i64>,
}

impl View for AofStream {
    type V = AofView;

    open spec fn view(&self) -> AofView {
        AofView {
            run_id: self.run_id@,
            repl_offset: self.repl_offset,
            now_db_id: self.now_db_id,
            heartbeat: match self.heartbeat {
                Some(h) => Some((h.db_id, h.key@)),
                None => None,
            },
            heartbeat_timestamp: self.heartbeat_timestamp@,
            do_dbs: self.filter.do_dbs@,
            ignore_dbs: self.filter.ignore_dbs@,
        }
    }
}

/// What reading one value from the stream came to.
pub enum AofEvent {
    /// Nothing to do: no value, or a command without arguments.
    Nothing,
    /// The stream cannot be followed any further.
    Failed(Error),
    /// The stream switched to another database.
    Switched,
    /// A heartbeat was seen.
    Heartbeat,
    /// The command belongs to a database that the filter drops.
    Filtered,
    /// The command is a change record.
    Emitted { cmd: Seq<Seq<u8>> },
}

/// Whether every value of `items` is a byte string.
pub open spec fn all_data(items: Seq<ValueView>) -> bool {
    forall|i: int| 0 <= i < items.len() ==> #[trigger] items[i] is Data
}

/// The byte strings that the values of `items` are.
pub open spec fn data_of(items: Seq<ValueView>) -> Seq<Seq<u8>> {
    Seq::new(items.len(), |i: int| items[i]->Data_0)
}

/// The command that a value of the stream holds: the byte strings of an
/// array, all of them. A value that is no array holds none, and neither
/// does an array with a value in it that is no byte string: such a
/// value is an error of the protocol, and no part of it is a command.
pub open spec fn command_of(value: ValueView) -> Result<Seq<Seq<u8>>, Error> {
    match value {
        ValueView::Bulk(items) => if all_data(items) {
            Ok(data_of(items))
        } else {
            Err(Error::UnexpectedAofValue)
        },
        _ => Err(Error::UnexpectedAofValue),
    }
}

/// The argument of `cmd` at `idx`, empty where it has none there.
pub open spec fn arg(cmd: Seq<Seq<u8>>, idx: int) -> Seq<u8> {
    if 0 <= idx < cmd.len() {
        cmd[idx]
    } else {
        Seq::empty()
    }
}

/// Whether `cmd` is a `SELECT`, in any case of letters.
pub open spec fn is_select(cmd: Seq<Seq<u8>>) -> bool {
    same_ignoring_case(arg(cmd, 0), lit("select"))
}

/// Whether `cmd`, read in the database `db`, writes the heartbeat key:
/// `db` is the heartbeat database and the first argument of `cmd` is the
/// heartbeat key, in any case of letters.
pub open spec fn is_heartbeat(heartbeat: Option<(i64, Seq<u8>)>, db: i64, cmd: Seq<Seq<u8>>) -> bool {
    match heartbeat {
        Some(h) => db == h.0 && same_ignoring_case(arg(cmd, 1), h.1),
        None => false,
    }
}

/// The stream after the value `value`, which took `n` bytes, and what
/// the value came to.
pub open spec fn spec_on_value(s: AofView, value: ValueView, n: usize) -> (AofView, AofEvent) {
    if value is Nil {
        (s, AofEvent::Nothing)
    } else if s.repl_offset + n > u64::MAX {
        (s, AofEvent::Failed(Error::OffsetOverflow))
    } else {
        let s1 = AofView { repl_offset: (s.repl_offset + n) as u64, ..s };
        match command_of(value) {
            Err(e) => (s1, AofEvent::Failed(e)),
            Ok(cmd) => if cmd.len() == 0 {
                (s1, AofEvent::Nothing)
            } else if is_select(cmd) {
                match parse_i64_spec(arg(cmd, 1)) {
                    Some(db) => (AofView { now_db_id: db, ..s1 }, AofEvent::Switched),
                    None => (s1, AofEvent::Failed(Error::MalformedSelect)),
                }
            } else if is_heartbeat(s1.heartbeat, s1.now_db_id, cmd) {
                (AofView { heartbeat_timestamp: arg(cmd, 2), ..s1 }, AofEvent::Heartbeat)
            } else if filtered(s1.do_dbs, s1.ignore_dbs, s1.now_db_id) {
                (s1, AofEvent::Filtered)
            } else {
                (s1, AofEvent::Emitted { cmd })
            },
        }
    }
}

/// Whether `item` is the change record of the command `cmd`, captured
/// when the stream was `s`: an entry of the stream that holds the
/// command and its database and nothing else, no object, no serialized
/// form and no expiry, with the position of the stream.
pub open spec fn is_record_of(item: DtItem, cmd: Seq<Seq<u8>>, s: AofView) -> bool {
    &&& item.dt_data matches DtData::Redis { entry }
    &&& entry.cmd@ == cmd
    &&& entry.db_id == s.now_db_id
    &&& entry.id == 0
    &&& !entry.is_base
    &&& entry.timestamp_ms == 0
    &&& entry.expire_ms == 0
    &&& entry.raw_bytes@.len() == 0
    &&& entry.value_type_byte == 0
    &&& entry.key@.len() == 0
    &&& entry.value is Unknown
    &&& entry.data_size == 0
    &&& item.data_origin_node@.len() == 0
    &&& item.position matches Position::Redis { run_id, repl_offset, now_db_id, timestamp }
    &&& run_id@ == s.run_id
    &&& repl_offset == s.repl_offset
    &&& now_db_id == s.now_db_id
    &&& timestamp@ == s.heartbeat_timestamp
}

/// The acknowledged offset: the greater of the replica's own offset and
/// the offset that the sinker has committed, where it has committed one.
pub open spec fn ack_offset(repl_offset: u64, committed: Position) -> u64 {
    match committed {
        Position::Redis { repl_offset: done, .. } => if done >= repl_offset {
            done
        } else {
            repl_offset
        },
        _ => repl_offset,
    }
}

/// What a heartbeat task needs to start.
#[derive(Debug, Clone)]
pub struct HeartbeatPlan {
    /// The command that selects the heartbeat database on the heartbeat
    /// connection.
    pub select: RedisCmd,
    /// The seconds between two heartbeats.
    pub interval_secs: u64,
    /// The milliseconds that the task sleeps between two looks at the
    /// clock.
    pub sleep_millis: u64,
}

impl RedisCdcExtractor {
    /// The replica at the start of its handshake, with what it knows of
    /// its master.
    pub fn extract(&self) -> (psync: RedisPsyncExtractor)
        ensures
            psync@ == (PsyncView {
                run_id: self.run_id@,
                repl_offset: self.repl_offset,
                repl_port: self.repl_port,
                now_db_id: self.now_db_id,
                stage: Stage::NotStarted,
            }),
    {
        RedisPsyncExtractor::new(
            copy_bytes(self.run_id.as_slice()),
            self.repl_offset,
            self.repl_port,
            self.now_db_id,
        )
    }

    /// Takes over what the handshake came to and enters the streaming
    /// state. A handshake that has not reached the stream leaves the
    /// extractor as it was and gives no stream.
    pub fn enter_streaming(&mut self, psync: &RedisPsyncExtractor) -> (r: Result<AofStream, Error>)
        ensures
            match r {
                Ok(stream) => {
                    &&& psync.stage == Stage::Streaming
                    &&& final(self).run_id@ == psync.run_id@
                    &&& final(self).repl_offset == psync.repl_offset
                    &&& final(self).repl_port == old(self).repl_port
                    &&& final(self).now_db_id == old(self).now_db_id
                    &&& final(self).heartbeat_key == old(self).heartbeat_key
                    &&& final(self).filter == old(self).filter
                    &&& final(self).keepalive_interval_secs == old(self).keepalive_interval_secs
                    &&& final(self).heartbeat_interval_secs == old(self).heartbeat_interval_secs
                    &&& stream@.run_id == psync.run_id@
                    &&& stream@.repl_offset == psync.repl_offset
                    &&& stream@.now_db_id == old(self).now_db_id
                    &&& stream@.heartbeat == heartbeat_target(text_bytes(old(self).heartbeat_key@))
                    &&& stream@.heartbeat_timestamp == Seq::<u8>::empty()
                    &&& stream@.do_dbs == old(self).filter.do_dbs@
                    &&& stream@.ignore_dbs == old(self).filter.ignore_dbs@
                },
                Err(e) => psync.stage != Stage::Streaming && e == Error::UnexpectedHandshakeReply
                    && *final(self) == *old(self),
            },
    {
        if psync.stage != Stage::Streaming {
            return Err(Error::UnexpectedHandshakeReply);
        }
        self.run_id = copy_bytes(psync.run_id.as_slice());
        self.repl_offset = psync.repl_offset;
        Ok(self.receive_aof())
    }

    /// The replica as it enters the streaming state.
    pub fn receive_aof(&self) -> (stream: AofStream)
        ensures
            stream@.run_id == self.run_id@,
            stream@.repl_offset == self.repl_offset,
            stream@.now_db_id == self.now_db_id,
            stream@.heartbeat == heartbeat_target(text_bytes(self.heartbeat_key@)),
            stream@.heartbeat_timestamp == Seq::<u8>::empty(),
            stream@.do_dbs == self.filter.do_dbs@,
            stream@.ignore_dbs == self.filter.ignore_dbs@,
    {
        let do_dbs = copy_dbs(&self.filter.do_dbs);
        let ignore_dbs = copy_dbs(&self.filter.ignore_dbs);
        AofStream {
            run_id: copy_bytes(self.run_id.as_slice()),
            repl_offset: self.repl_offset,
            now_db_id: self.now_db_id,
            heartbeat: parse_heartbeat_key(self.heartbeat_key.as_str()),
            heartbeat_timestamp: Vec::new(),
            filter: RedisDbFilter { do_dbs, ignore_dbs },
        }
    }

    /// What the heartbeat task is started with, `None` where heartbeats
    /// are switched off: the interval is zero or too long to count in
    /// milliseconds, or the heartbeat key is not of the form
    /// `<db-index>.<key>`.
    pub fn start_heartbeat(&self) -> (plan: Option<HeartbeatPlan>)
        ensures
            match plan {
                Some(p) => {
                    &&& self.heartbeat_interval_secs > 0
                    &&& self.heartbeat_interval_secs * 1000 <= u64::MAX
                    &&& heartbeat_target(text_bytes(self.heartbeat_key@)) matches Some(h)
                    &&& p.select@ == seq![lit("SELECT"), signed_digits_of(h.0 as int)]
                    &&& p.interval_secs == self.heartbeat_interval_secs
                    &&& p.sleep_millis == self.heartbeat_interval_secs * 1000
                },
                None => self.heartbeat_interval_secs == 0 || self.heartbeat_interval_secs * 1000
                    > u64::MAX || heartbeat_target(text_bytes(self.heartbeat_key@)) is None,
            },
    {
        if self.heartbeat_interval_secs == 0 {
            return None;
        }
        let sleep_millis = match self.heartbeat_interval_secs.checked_mul(1000) {
            Some(m) => m,
            None => {
                return None;
            },
        };
        match parse_heartbeat_key(self.heartbeat_key.as_str()) {
            Some(h) => {
                let mut select = RedisCmd::new();
                select.add_str_arg("SELECT");
                select.add_arg(i64_to_decimal(h.db_id));
                proof {
                    assert(select@ =~= seq![lit("SELECT"), signed_digits_of(h.db_id as int)]);
                }
                Some(
                    HeartbeatPlan {
                        select,
                        interval_secs: self.heartbeat_interval_secs,
                        sleep_millis,
                    },
                )
            },
            None => None,
        }
    }

    /// The command that writes a heartbeat: the time `now_millis`, in
    /// milliseconds since the epoch, set under `key`.
    pub fn heartbeat(key: &[u8], now_millis: u64) -> (cmd: RedisCmd)
        ensures
            cmd@ == seq![
                lit("SET"),
                key@,
                fixed_digits(now_millis as nat, TIMESTAMP_WIDTH as nat),
            ],
    {
        let mut cmd = RedisCmd::new();
        cmd.add_str_arg("SET");
        cmd.add_bytes_arg(key);
        cmd.add_arg(Position::format_timestamp_millis(now_millis));
        proof {
            assert(cmd@ =~= seq![
                lit("SET"),
                key@,
                fixed_digits(now_millis as nat, TIMESTAMP_WIDTH as nat),
            ]);
        }
        cmd
    }

    /// Whether `elapsed_secs` seconds since the last one call for the
    /// next acknowledgement or heartbeat, at one every `interval_secs`.
    pub fn is_due(elapsed_secs: u64, interval_secs: u64) -> (due: bool)
        ensures
            due == (elapsed_secs >= interval_secs),
    {
        elapsed_secs >= interval_secs
    }
}

fn copy_dbs(dbs: &Vec<i64>) -> (out: Vec<i64>)
    ensures
        out@ == dbs@,
{
    let mut out: Vec<i64> = Vec::new();
    let mut i: usize = 0;
    while i < dbs.len()
        invariant
            i <= dbs@.len(),
            out@ == dbs@.take(i as int),
        decreases dbs@.len() - i,
    {
        out.push(dbs[i]);
        i = i + 1;
        proof {
            assert(out@ =~= dbs@.take(i as int));
        }
    }
    proof {
        assert(dbs@.take(i as int) =~= dbs@);
    }
    out
}

impl AofStream {
    /// The command that a value of the stream holds; an error where the
    /// value is no array of byte strings.
    pub fn handle_redis_value(value: Value) -> (r: Result<RedisCmd, Error>)
        ensures
            match r {
                Ok(cmd) => command_of(value@) == Ok::<_, Error>(cmd@),
                Err(e) => command_of(value@) == Err::<Seq<Seq<u8>>, _>(e),
            },
    {
        let mut cmd = RedisCmd::new();
        match &value {
            Value::Bulk(values) => {
                let ghost views = value_views(values@);
                let mut i: usize = 0;
                proof {
                    lemma_bulk_view(*values);
                    assert(cmd@ =~= data_of(views.take(0)));
                }
                while i < values.len()
                    invariant
                        i <= values@.len(),
                        value@ == ValueView::Bulk(views),
                        views == value_views(values@),
                        all_data(views.take(i as int)),
                        cmd@ == data_of(views.take(i as int)),
                    decreases values@.len() - i,
                {
                    proof {
                        assert(views[i as int] == values@[i as int]@);
                    }
                    match &values[i] {
                        Value::Data(data) => {
                            let ghost before = cmd@;
                            cmd.add_bytes_arg(data.as_slice());
                            proof {
                                let t = views.take(i + 1);
                                assert forall|k: int| 0 <= k < t.len() implies #[trigger] t[k] is Data by {
                                    if k < i {
                                        assert(views.take(i as int)[k] == t[k]);
                                    }
                                }
                                assert(cmd@ =~= data_of(t)) by {
                                    assert forall|k: int| 0 <= k < i implies cmd@[k] == data_of(t)[k] by {
                                        assert(views.take(i as int)[k] == t[k]);
                                    }
                                }
                            }
                        },
                        _ => {
                            proof {
                                assert(!(views[i as int] is Data));
                            }
                            return Err(Error::UnexpectedAofValue);
                        },
                    }
                    i = i + 1;
                }
                proof {
                    assert(views.take(i as int) =~= views);
                }
                Ok(cmd)
            },
            _ => Err(Error::UnexpectedAofValue),
        }
    }

    /// Takes one value read from the stream, which took `n` bytes, and
    /// gives the change record that it makes, if it makes one.
    pub fn on_value(&mut self, value: Value, n: usize) -> (r: Result<Option<DtItem>, Error>)
        ensures
            final(self)@ == spec_on_value(old(self)@, value@, n).0,
            match spec_on_value(old(self)@, value@, n).1 {
                AofEvent::Failed(e) => r == Err::<Option<DtItem>, _>(e),
                AofEvent::Emitted { cmd } => r matches Ok(Some(item)) && is_record_of(
                    item,
                    cmd,
                    final(self)@,
                ),
                _ => r matches Ok(None),
            },
    {
        if let Value::Nil = value {
            return Ok(None);
        }
        let moved = match self.repl_offset.checked_add(n as u64) {
            Some(m) => m,
            None => {
                return Err(Error::OffsetOverflow);
            },
        };
        self.repl_offset = moved;
        let cmd = match AofStream::handle_redis_value(value) {
            Ok(c) => c,
            Err(e) => {
                return Err(e);
            },
        };
        if cmd.len() == 0 {
            return Ok(None);
        }
        let name = cmd.get_name();
        let select = str_bytes("select");
        if eq_ignore_ascii_case(name.as_slice(), select.as_slice()) {
            let db_text = cmd.get_arg(1);
            match parse_i64(db_text.as_slice()) {
                Some(db) => {
                    self.now_db_id = db;
                    return Ok(None);
                },
                None => {
                    return Err(Error::MalformedSelect);
                },
            }
        }
        let is_beat: bool = match &self.heartbeat {
            Some(h) => {
                let key = cmd.get_arg(1);
                self.now_db_id == h.db_id && eq_ignore_ascii_case(key.as_slice(), h.key.as_slice())
            },
            None => false,
        };
        if is_beat {
            self.heartbeat_timestamp = cmd.get_arg(2);
            return Ok(None);
        }
        if self.filter.filter_db(self.now_db_id) {
            return Ok(None);
        }
        let mut entry = RedisEntry::new();
        entry.cmd = cmd;
        entry.db_id = self.now_db_id;
        let position = Position::Redis {
            run_id: copy_bytes(self.run_id.as_slice()),
            repl_offset: self.repl_offset,
            now_db_id: self.now_db_id,
            timestamp: copy_bytes(self.heartbeat_timestamp.as_slice()),
        };
        Ok(
            Some(
                DtItem {
                    dt_data: DtData::Redis { entry },
                    position,
                    data_origin_node: String::new(),
                },
            ),
        )
    }

    /// The command that tells the master how far the replica has come:
    /// the greater of its own offset and the offset that the sinker has
    /// committed.
    pub fn keep_alive_ack(&self, committed: &Position) -> (cmd: RedisCmd)
        ensures
            cmd@ == seq![
                lit("replconf"),
                lit("ack"),
                digits_of(ack_offset(self.repl_offset, *committed) as nat),
            ],
    {
        let mut offset: u64 = self.repl_offset;
        match committed {
            Position::Redis { repl_offset, .. } => {
                if *repl_offset >= self.repl_offset {
                    offset = *repl_offset;
                }
            },
            _ => {},
        }
        let mut cmd = RedisCmd::new();
        cmd.add_str_arg("replconf");
        cmd.add_str_arg("ack");
        cmd.add_arg(u64_to_decimal(offset));
        proof {
            assert(cmd@ =~= seq![
                lit("replconf"),
                lit("ack"),
                digits_of(ack_offset(self.repl_offset, *committed) as nat),
            ]);
        }
        cmd
    }
}

} // verus!
