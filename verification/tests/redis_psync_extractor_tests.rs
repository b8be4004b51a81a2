use ape_dts::error::Error;
use ape_dts::extractor::redis::redis_psync_extractor::{HandshakeStep, RedisPsyncExtractor, Stage};
use ape_dts::extractor::redis::redis_resp_types::Value;
use ape_dts::meta::dt_data::DtData;
use ape_dts::meta::position::Position;
use ape_dts::meta::redis::redis_entry::RedisEntry;

fn sent(step: HandshakeStep) -> Vec<String> {
    match step {
        HandshakeStep::Send(cmd) => cmd.args.iter().map(|a| String::from_utf8_lossy(a).to_string()).collect(),
        other => panic!("expected a command to send, got {:?}", other),
    }
}

fn status(line: &str) -> Value {
    Value::Status(line.as_bytes().to_vec())
}

/// Goes through the handshake up to the point where `PSYNC` is sent.
fn up_to_psync(run_id: &str, offset: u64) -> (RedisPsyncExtractor, Vec<String>) {
    let mut r = RedisPsyncExtractor::new(run_id.as_bytes().to_vec(), offset, 10008, 0);
    let ping = r.start();
    assert_eq!(ping.args, vec![b"PING".to_vec()]);
    assert_eq!(r.stage, Stage::Ping);
    assert_eq!(sent(r.on_reply(&status("PONG"))), vec!["replconf", "listening-port", "10008"]);
    assert_eq!(r.stage, Stage::ListeningPort);
    assert_eq!(sent(r.on_reply(&Value::Okay)), vec!["replconf", "capa", "psync2"]);
    assert_eq!(r.stage, Stage::Capability);
    let psync = sent(r.on_reply(&Value::Okay));
    assert_eq!(r.stage, Stage::Psync);
    (r, psync)
}

#[test]
fn first_handshake_asks_for_everything() {
    let (mut r, psync) = up_to_psync("", 0);
    assert_eq!(psync, vec!["PSYNC", "?", "-1"]);
    let step = r.on_reply(&status("FULLRESYNC 8de1787ba490483314a4d30f1c628bc5025eb761 2443808505"));
    assert!(matches!(step, HandshakeStep::FullResync));
    assert_eq!(r.stage, Stage::SnapshotLoad);
    assert_eq!(r.run_id, b"8de1787ba490483314a4d30f1c628bc5025eb761".to_vec());
    assert_eq!(r.repl_offset, 2443808505);
    assert!(r.snapshot_loaded());
    assert_eq!(r.stage, Stage::Streaming);
    assert!(!r.snapshot_loaded());
    assert_eq!(r.stage, Stage::Streaming);
}

#[test]
fn later_handshake_asks_for_the_next_byte() {
    let (mut r, psync) = up_to_psync("abc", 41);
    assert_eq!(psync, vec!["PSYNC", "abc", "42"]);
    assert!(matches!(r.on_reply(&status("CONTINUE")), HandshakeStep::Continue));
    assert_eq!(r.stage, Stage::Streaming);
    assert_eq!(r.run_id, b"abc".to_vec());
    assert_eq!(r.repl_offset, 41);
    let (mut r, _) = up_to_psync("abc", 41);
    assert!(matches!(r.on_reply(&status("continue def")), HandshakeStep::Continue));
    assert_eq!(r.run_id, b"def".to_vec());
    let (mut r, _) = up_to_psync("abc", 41);
    assert!(matches!(r.on_reply(&status("FULLRESYNC new 7")), HandshakeStep::FullResync));
    assert_eq!((r.run_id.clone(), r.repl_offset), (b"new".to_vec(), 7));
    let (_, psync) = up_to_psync("abc", u64::MAX);
    assert_eq!(psync, vec!["PSYNC", "?", "-1"]);
    let (_, psync) = up_to_psync("abc", 0);
    assert_eq!(psync, vec!["PSYNC", "abc", "1"]);
}

#[test]
fn reply_without_run_id_fails_the_handshake() {
    for line in ["FULLRESYNC", "FULLRESYNC ", "FULLRESYNC  12345", "fullresync"] {
        let (mut r, _) = up_to_psync("", 0);
        let step = r.on_reply(&status(line));
        assert!(matches!(step, HandshakeStep::Failed(Error::MissingRunId)), "line {:?}", line);
        assert_eq!(r.stage, Stage::Failed);
        assert_eq!(r.run_id, Vec::<u8>::new());
        assert!(!r.snapshot_loaded());
        assert_ne!(r.stage, Stage::Streaming);
        // nothing but a new start gets the replica out of the failure
        assert!(matches!(
            r.on_reply(&status("FULLRESYNC abc 1")),
            HandshakeStep::Failed(Error::UnexpectedHandshakeReply)
        ));
        assert_eq!(r.stage, Stage::Failed);
    }
}

#[test]
fn reply_without_offset_fails_the_handshake() {
    for line in ["FULLRESYNC abc", "FULLRESYNC abc ", "FULLRESYNC abc x", "FULLRESYNC abc -1", "FULLRESYNC 12345"] {
        let (mut r, _) = up_to_psync("", 0);
        let step = r.on_reply(&status(line));
        assert!(matches!(step, HandshakeStep::Failed(Error::MalformedOffset)), "line {:?}", line);
        assert_eq!(r.stage, Stage::Failed);
    }
}

#[test]
fn unexpected_replies_fail_the_handshake() {
    let mut r = RedisPsyncExtractor::new(Vec::new(), 0, 1, 0);
    assert!(matches!(r.on_reply(&Value::Okay), HandshakeStep::Failed(Error::UnexpectedHandshakeReply)));
    assert_eq!(r.stage, Stage::Failed);
    let mut r = RedisPsyncExtractor::new(Vec::new(), 0, 1, 0);
    r.start();
    assert!(matches!(r.on_reply(&Value::Okay), HandshakeStep::Failed(Error::UnexpectedHandshakeReply)));
    let mut r = RedisPsyncExtractor::new(Vec::new(), 0, 1, 0);
    r.start();
    assert!(matches!(
        r.on_reply(&Value::ServerError(b"NOAUTH Authentication required.".to_vec())),
        HandshakeStep::Failed(Error::UnexpectedHandshakeReply)
    ));
    let mut r = RedisPsyncExtractor::new(Vec::new(), 0, 1, 0);
    r.start();
    r.on_reply(&status("pong"));
    assert!(matches!(r.on_reply(&status("OK")), HandshakeStep::Failed(Error::UnexpectedHandshakeReply)));
    let (mut r, _) = up_to_psync("", 0);
    assert!(matches!(r.on_reply(&status("CONTINUE")), HandshakeStep::Failed(Error::UnexpectedHandshakeReply)));
    assert_eq!(r.stage, Stage::Failed);
    let (mut r, _) = up_to_psync("abc", 5);
    assert!(matches!(r.on_reply(&status("NOMASTERLINK")), HandshakeStep::Failed(Error::UnexpectedHandshakeReply)));
    let (mut r, _) = up_to_psync("abc", 5);
    assert!(matches!(r.on_reply(&Value::Int(1)), HandshakeStep::Failed(Error::UnexpectedHandshakeReply)));
    // a failed replica starts over with a new ping
    let cmd = r.start();
    assert_eq!(cmd.args, vec![b"PING".to_vec()]);
    assert_eq!(r.stage, Stage::Ping);
}

#[test]
fn snapshot_objects_carry_the_offset_of_the_snapshot() {
    let (mut r, _) = up_to_psync("", 0);
    r.on_reply(&status("FULLRESYNC abc 500"));
    let mut entry = RedisEntry::new();
    entry.db_id = 4;
    entry.key = b"K".to_vec();
    let item = r.snapshot_record(entry);
    match &item.position {
        Position::Redis { run_id, repl_offset, now_db_id, timestamp } => {
            assert_eq!(run_id, &b"abc".to_vec());
            assert_eq!(*repl_offset, 500);
            assert_eq!(*now_db_id, 4);
            assert!(timestamp.is_empty());
        }
        Position::Unset => panic!("a snapshot record carries a stream position"),
    }
    match &item.dt_data {
        DtData::Redis { entry } => assert_eq!(entry.key, b"K".to_vec()),
        _ => panic!("a snapshot record is a redis entry"),
    }
}
