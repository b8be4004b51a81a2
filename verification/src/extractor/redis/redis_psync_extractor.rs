//! The handshake of a replica with its master.
//!
//! The replica asks four things in turn and waits for the answer to
//! each: whether the master is there (`PING`), to note the port that the
//! replica listens on, to note what the replica can take, and to start
//! the replication (`PSYNC`). The master answers the last with a full
//! resynchronisation, which names its run identifier and the offset of
//! the snapshot that follows, or lets the replica continue from where it
//! was. Any other answer fails the handshake for good: the caller has to
//! start over with a new connection.
//!
//! The machine holds no connection. Its caller sends each command and
//! hands back the reply.

use vstd::prelude::*;
use crate::error::Error;
use crate::extractor::redis::redis_resp_types::{Value, ValueView};
use crate::meta::dt_data::{DtData, DtItem};
use crate::meta::position::{Position, PositionView};
use crate::meta::redis::redis_entry::RedisEntry;
use crate::meta::redis::redis_object::RedisCmd;
use crate::util::bytes::lit;
use crate::util::bytes::{
    copy_bytes,
    eq_ignore_ascii_case,
    same_ignoring_case,
    split,
    split_bytes,
    str_bytes,
};
use crate::util::decimal::{digits_of, parse_u64, parse_u64_spec, u64_to_decimal};

verus! {

/// How far the replica has come.
#[derive(Debug, Clone, Copy, PartialEq, Eq, Structural)]
pub enum Stage {
    /// Nothing is sent yet.
    NotStarted,
    /// The handshake waits for the answer to `PING`.
    Ping,
    /// The handshake waits for the answer to the port announcement.
    ListeningPort,
    /// The handshake waits for the answer to the capability announcement.
    Capability,
    /// The handshake waits for the answer to `PSYNC`.
    Psync,
    /// The master sends its snapshot.
    SnapshotLoad,
    /// The master streams its commands.
    Streaming,
    /// The handshake failed.
    Failed,
}

/// What the caller is to do next.
#[derive(Debug)]
pub enum HandshakeStep {
    /// Send the command and hand back the reply.
    Send(RedisCmd),
    /// Read the snapshot, then the stream.
    FullResync,
    /// Read the stream.
    Continue,
    /// Give up this connection.
    Failed(Error),
}

/// A replica during the handshake.
#[derive(Debug, Clone)]
pub struct RedisPsyncExtractor {
    /// The run identifier of the master; empty where the replica knows
    /// none.
    pub run_id: Vec<u8>,
    /// The replication offset that the replica has come to.
    pub repl_offset: u64,
    /// The port that the replica announces.
    pub repl_port: u64,
    pub now_db_id: i64,
    pub stage: Stage,
}

/// What a replica is, to the contracts.
pub struct PsyncView {
    pub run_id: Seq<u8>,
    pub repl_offset: u64,
    pub repl_port: u64,
    pub now_db_id: i64,
    pub stage: Stage,
}

impl View for RedisPsyncExtractor {
    type V = PsyncView;

    open spec fn view(&self) -> PsyncView {
        PsyncView {
            run_id: self.run_id@,
            repl_offset: self.repl_offset,
            repl_port: self.repl_port,
            now_db_id: self.now_db_id,
            stage: self.stage,
        }
    }
}

/// Whether the replica has to ask for a full resynchronisation: it knows
/// no run identifier, or its offset has no successor to ask for.
pub open spec fn wants_full(s: PsyncView) -> bool {
    s.run_id.len() == 0 || s.repl_offset == u64::MAX
}

/// The command that asks whether the master is there.
pub open spec fn ping_cmd() -> Seq<Seq<u8>> {
    seq![lit("PING")]
}

/// The command that announces the port that the replica listens on.
pub open spec fn port_cmd(port: u64) -> Seq<Seq<u8>> {
    seq![lit("replconf"), lit("listening-port"), digits_of(port as nat)]
}

/// The command that announces what the replica can take: a change of the
/// run identifier on `CONTINUE`.
pub open spec fn capa_cmd() -> Seq<Seq<u8>> {
    seq![lit("replconf"), lit("capa"), lit("psync2")]
}

/// The `PSYNC` request: for a full resynchronisation the run identifier
/// `?` and the offset `-1`, else the run identifier that the replica
/// knows and the offset of the first byte that it lacks.
pub open spec fn psync_cmd(s: PsyncView) -> Seq<Seq<u8>> {
    if wants_full(s) {
        seq![lit("PSYNC"), lit("?"), lit("-1")]
    } else {
        seq![lit("PSYNC"), s.run_id, digits_of((s.repl_offset + 1) as nat)]
    }
}

/// The replica after the answer `line` to its `PSYNC`.
///
/// `FULLRESYNC <run-id> <offset>` gives the replica the run identifier
/// and the offset and lets the snapshot follow; without a run identifier,
/// or without an offset that can be read, it fails the handshake.
/// `CONTINUE`, with or without a new run identifier, lets the stream
/// follow, if the replica did not ask for a full resynchronisation.
pub open spec fn after_psync_reply(s: PsyncView, line: Seq<u8>) -> Result<PsyncView, Error> {
    let f = split(line, 32u8);
    if same_ignoring_case(f[0], lit("FULLRESYNC")) {
        if f.len() < 2 || f[1].len() == 0 {
            Err(Error::MissingRunId)
        } else if f.len() < 3 {
            Err(Error::MalformedOffset)
        } else {
            match parse_u64_spec(f[2]) {
                Some(offset) => Ok(
                    PsyncView {
                        run_id: f[1],
                        repl_offset: offset,
                        stage: Stage::SnapshotLoad,
                        ..s
                    },
                ),
                None => Err(Error::MalformedOffset),
            }
        }
    } else if same_ignoring_case(f[0], lit("CONTINUE")) {
        if wants_full(s) {
            Err(Error::UnexpectedHandshakeReply)
        } else {
            Ok(
                PsyncView {
                    run_id: if f.len() >= 2 && f[1].len() > 0 {
                        f[1]
                    } else {
                        s.run_id
                    },
                    stage: Stage::Streaming,
                    ..s
                },
            )
        }
    } else {
        Err(Error::UnexpectedHandshakeReply)
    }
}

/// What the caller is to do next, by what the contracts need of it.
pub enum StepView {
    Send(Seq<Seq<u8>>),
    FullResync,
    Continue,
    Failed(Error),
}

impl View for HandshakeStep {
    type V = StepView;

    open spec fn view(&self) -> StepView {
        match self {
            HandshakeStep::Send(cmd) => StepView::Send(cmd@),
            HandshakeStep::FullResync => StepView::FullResync,
            HandshakeStep::Continue => StepView::Continue,
            HandshakeStep::Failed(e) => StepView::Failed(*e),
        }
    }
}

/// The replica after `reply`, and what its caller is to do next.
pub open spec fn spec_on_reply(s: PsyncView, reply: ValueView) -> (PsyncView, StepView) {
    let failed = (
        PsyncView { stage: Stage::Failed, ..s },
        StepView::Failed(Error::UnexpectedHandshakeReply),
    );
    match s.stage {
        Stage::Ping => match reply {
            ValueView::Status(line) => if same_ignoring_case(line, lit("PONG")) {
                (PsyncView { stage: Stage::ListeningPort, ..s }, StepView::Send(port_cmd(s.repl_port)))
            } else {
                failed
            },
            _ => failed,
        },
        Stage::ListeningPort => if reply is Okay {
            (PsyncView { stage: Stage::Capability, ..s }, StepView::Send(capa_cmd()))
        } else {
            failed
        },
        Stage::Capability => if reply is Okay {
            (PsyncView { stage: Stage::Psync, ..s }, StepView::Send(psync_cmd(s)))
        } else {
            failed
        },
        Stage::Psync => match reply {
            ValueView::Status(line) => match after_psync_reply(s, line) {
                Ok(next) => (
                    next,
                    if next.stage == Stage::SnapshotLoad {
                        StepView::FullResync
                    } else {
                        StepView::Continue
                    },
                ),
                Err(e) => (PsyncView { stage: Stage::Failed, ..s }, StepView::Failed(e)),
            },
            _ => failed,
        },
        _ => failed,
    }
}

impl RedisPsyncExtractor {
    /// A replica that has sent nothing yet.
    pub fn new(run_id: Vec<u8>, repl_offset: u64, repl_port: u64, now_db_id: i64) -> (r:
        RedisPsyncExtractor)
        ensures
            r@ == (PsyncView {
                run_id: run_id@,
                repl_offset,
                repl_port,
                now_db_id,
                stage: Stage::NotStarted,
            }),
    {
        RedisPsyncExtractor { run_id, repl_offset, repl_port, now_db_id, stage: Stage::NotStarted }
    }

    /// Starts the handshake, from whatever stage the replica was in, and
    /// gives the first command to send.
    pub fn start(&mut self) -> (cmd: RedisCmd)
        ensures
            cmd@ == ping_cmd(),
            final(self)@ == (PsyncView { stage: Stage::Ping, ..old(self)@ }),
    {
        self.stage = Stage::Ping;
        let mut cmd = RedisCmd::new();
        cmd.add_str_arg("PING");
        proof {
            assert(cmd@ =~= ping_cmd());
        }
        cmd
    }

    /// Takes the reply to the command sent last and says what to do
    /// next.
    pub fn on_reply(&mut self, reply: &Value) -> (step: HandshakeStep)
        ensures
            final(self)@ == spec_on_reply(old(self)@, reply@).0,
            step@ == spec_on_reply(old(self)@, reply@).1,
    {
        match self.stage {
            Stage::Ping => {
                if let Value::Status(line) = reply {
                    let pong = str_bytes("PONG");
                    if eq_ignore_ascii_case(line.as_slice(), pong.as_slice()) {
                        self.stage = Stage::ListeningPort;
                        let mut cmd = RedisCmd::new();
                        cmd.add_str_arg("replconf");
                        cmd.add_str_arg("listening-port");
                        cmd.add_arg(u64_to_decimal(self.repl_port));
                        proof {
                            assert(cmd@ =~= port_cmd(self.repl_port));
                        }
                        return HandshakeStep::Send(cmd);
                    }
                }
            },
            Stage::ListeningPort => {
                if let Value::Okay = reply {
                    self.stage = Stage::Capability;
                    let mut cmd = RedisCmd::new();
                    cmd.add_str_arg("replconf");
                    cmd.add_str_arg("capa");
                    cmd.add_str_arg("psync2");
                    proof {
                        assert(cmd@ =~= capa_cmd());
                    }
                    return HandshakeStep::Send(cmd);
                }
            },
            Stage::Capability => {
                if let Value::Okay = reply {
                    self.stage = Stage::Psync;
                    let mut cmd = RedisCmd::new();
                    cmd.add_str_arg("PSYNC");
                    if self.run_id.len() == 0 || self.repl_offset == u64::MAX {
                        cmd.add_str_arg("?");
                        cmd.add_str_arg("-1");
                    } else {
                        cmd.add_bytes_arg(self.run_id.as_slice());
                        cmd.add_arg(u64_to_decimal(self.repl_offset + 1));
                    }
                    proof {
                        assert(cmd@ =~= psync_cmd(old(self)@));
                    }
                    return HandshakeStep::Send(cmd);
                }
            },
            Stage::Psync => {
                if let Value::Status(line) = reply {
                    match self.take_psync_reply(line.as_slice()) {
                        Ok(full) => {
                            if full {
                                return HandshakeStep::FullResync;
                            } else {
                                return HandshakeStep::Continue;
                            }
                        },
                        Err(e) => {
                            self.stage = Stage::Failed;
                            return HandshakeStep::Failed(e);
                        },
                    }
                }
            },
            _ => {},
        }
        self.stage = Stage::Failed;
        HandshakeStep::Failed(Error::UnexpectedHandshakeReply)
    }

    /// Takes the answer to `PSYNC`. `Ok(true)` where the snapshot
    /// follows, `Ok(false)` where the stream does; the replica is
    /// unchanged where the answer fails the handshake.
    fn take_psync_reply(&mut self, line: &[u8]) -> (r: Result<bool, Error>)
        ensures
            match after_psync_reply(old(self)@, line@) {
                Ok(next) => final(self)@ == next && r == Ok::<bool, Error>(
                    next.stage == Stage::SnapshotLoad,
                ),
                Err(e) => final(self)@ == old(self)@ && r == Err::<bool, _>(e),
            },
    {
        let fields = split_bytes(line, 32u8);
        let ghost f = split(line@, 32u8);
        proof {
            assert(f =~= Seq::new(fields@.len(), |i: int| fields@[i]@));
            assert(f.len() >= 1) by {
                crate::util::bytes::lemma_split_nonempty(line@, 32u8);
            }
            assert(forall|i: int| 0 <= i < f.len() ==> f[i] == fields@[i]@);
        }
        let full = str_bytes("FULLRESYNC");
        let cont = str_bytes("CONTINUE");
        if eq_ignore_ascii_case(fields[0].as_slice(), full.as_slice()) {
            if fields.len() < 2 || fields[1].len() == 0 {
                return Err(Error::MissingRunId);
            }
            if fields.len() < 3 {
                return Err(Error::MalformedOffset);
            }
            match parse_u64(fields[2].as_slice()) {
                Some(offset) => {
                    self.run_id = copy_bytes(fields[1].as_slice());
                    self.repl_offset = offset;
                    self.stage = Stage::SnapshotLoad;
                    Ok(true)
                },
                None => Err(Error::MalformedOffset),
            }
        } else if eq_ignore_ascii_case(fields[0].as_slice(), cont.as_slice()) {
            if self.run_id.len() == 0 || self.repl_offset == u64::MAX {
                return Err(Error::UnexpectedHandshakeReply);
            }
            if fields.len() >= 2 && fields[1].len() > 0 {
                self.run_id = copy_bytes(fields[1].as_slice());
            }
            self.stage = Stage::Streaming;
            Ok(false)
        } else {
            Err(Error::UnexpectedHandshakeReply)
        }
    }

    /// The change record of an object of the snapshot: the object, at
    /// the offset that the snapshot was taken at, in the database of the
    /// object.
    pub fn snapshot_record(&self, entry: RedisEntry) -> (item: DtItem)
        ensures
            item.dt_data == (DtData::Redis { entry }),
            item.position@ == (PositionView::Redis {
                run_id: self.run_id@,
                repl_offset: self.repl_offset,
                now_db_id: entry.db_id,
                timestamp: Seq::<u8>::empty(),
            }),
            item.data_origin_node@.len() == 0,
    {
        let position = Position::Redis {
            run_id: copy_bytes(self.run_id.as_slice()),
            repl_offset: self.repl_offset,
            now_db_id: entry.db_id,
            timestamp: Vec::new(),
        };
        DtItem { dt_data: DtData::Redis { entry }, position, data_origin_node: String::new() }
    }

    /// Notes that the snapshot is read to its end: the stream follows.
    /// In any other stage than the loading of the snapshot the replica
    /// stays as it is.
    pub fn snapshot_loaded(&mut self) -> (streaming: bool)
        ensures
            streaming == (old(self).stage == Stage::SnapshotLoad),
            final(self)@ == (PsyncView {
                stage: if old(self).stage == Stage::SnapshotLoad {
                    Stage::Streaming
                } else {
                    old(self).stage
                },
                ..old(self)@
            }),
    {
        if self.stage == Stage::SnapshotLoad {
            self.stage = Stage::Streaming;
            true
        } else {
            false
        }
    }
}

/// The replica reads a snapshot or a stream only after an answer to
/// `PSYNC` that let it, and then it knows the run identifier of its
/// master.
pub proof fn lemma_streaming_needs_run_id(s: PsyncView, reply: ValueView)
    ensures
        ({
            let next = spec_on_reply(s, reply).0;
            next.stage == Stage::SnapshotLoad || next.stage == Stage::Streaming ==> s.stage
                == Stage::Psync && next.run_id.len() > 0
        }),
        spec_on_reply(s, reply).1 is Failed <==> spec_on_reply(s, reply).0.stage == Stage::Failed,
{
}

} // verus!
