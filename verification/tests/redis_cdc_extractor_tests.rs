use ape_dts::error::Error;
use ape_dts::extractor::redis::redis_cdc_extractor::{
    parse_heartbeat_key, AofStream, RedisCdcExtractor, RedisDbFilter,
};
use ape_dts::extractor::redis::redis_psync_extractor::{RedisPsyncExtractor, Stage};
use ape_dts::extractor::redis::redis_resp_types::Value;
use ape_dts::meta::dt_data::{DtData, DtItem};
use ape_dts::meta::position::Position;

fn command(args: &[&str]) -> Value {
    Value::Bulk(args.iter().map(|a| Value::Data(a.as_bytes().to_vec())).collect())
}

fn extractor(heartbeat_key: &str) -> RedisCdcExtractor {
    RedisCdcExtractor {
        run_id: b"run-1".to_vec(),
        repl_offset: 100,
        repl_port: 10008,
        now_db_id: 0,
        keepalive_interval_secs: 5,
        heartbeat_interval_secs: 3,
        heartbeat_key: heartbeat_key.to_string(),
        filter: RedisDbFilter::new(),
    }
}

fn args_of(item: &DtItem) -> Vec<String> {
    match &item.dt_data {
        DtData::Redis { entry } => entry.cmd.args.iter().map(|a| String::from_utf8_lossy(a).to_string()).collect(),
        _ => panic!("not a redis entry"),
    }
}

fn db_of(item: &DtItem) -> i64 {
    match &item.dt_data {
        DtData::Redis { entry } => entry.db_id,
        _ => panic!("not a redis entry"),
    }
}

fn position_of(item: &DtItem) -> (Vec<u8>, u64, i64, Vec<u8>) {
    match &item.position {
        Position::Redis { run_id, repl_offset, now_db_id, timestamp } => {
            (run_id.clone(), *repl_offset, *now_db_id, timestamp.clone())
        }
        Position::Unset => panic!("a change record carries a stream position"),
    }
}

#[test]
fn heartbeat_key_is_db_dot_key() {
    let h = parse_heartbeat_key("3.heartbeat").unwrap();
    assert_eq!((h.db_id, h.key), (3, b"heartbeat".to_vec()));
    let h = parse_heartbeat_key("0.a.b").unwrap();
    assert_eq!((h.db_id, h.key), (0, b"a.b".to_vec()));
    let h = parse_heartbeat_key("-1.k").unwrap();
    assert_eq!((h.db_id, h.key), (-1, b"k".to_vec()));
    assert!(parse_heartbeat_key("").is_none());
    assert!(parse_heartbeat_key("heartbeat").is_none());
    assert!(parse_heartbeat_key("3.").is_none());
    assert!(parse_heartbeat_key(".key").is_none());
    assert!(parse_heartbeat_key("x.key").is_none());
    assert!(parse_heartbeat_key("1 .key").is_none());
    assert!(parse_heartbeat_key("99999999999999999999.key").is_none());
}

#[test]
fn a_command_becomes_a_change_record() {
    let mut stream = extractor("").receive_aof();
    assert!(stream.heartbeat.is_none());
    let item = stream.on_value(command(&["SET", "k", "v"]), 31).unwrap().unwrap();
    assert_eq!(args_of(&item), vec!["SET", "k", "v"]);
    assert_eq!(db_of(&item), 0);
    assert_eq!(position_of(&item), (b"run-1".to_vec(), 131, 0, Vec::new()));
    assert_eq!(item.data_origin_node, "");
    assert_eq!(stream.repl_offset, 131);
}

#[test]
fn nil_and_empty_commands_are_passed_over() {
    let mut stream = extractor("").receive_aof();
    assert!(stream.on_value(Value::Nil, 7).unwrap().is_none());
    assert_eq!(stream.repl_offset, 100);
    assert!(stream.on_value(Value::Bulk(vec![]), 4).unwrap().is_none());
    assert_eq!(stream.repl_offset, 104);
    // an array that starts with a value that is no byte string is no empty command: it is an error
    assert_eq!(
        stream.on_value(Value::Bulk(vec![Value::Int(1), Value::Data(b"x".to_vec())]), 4).err(),
        Some(Error::UnexpectedAofValue)
    );
}

#[test]
fn a_value_that_is_no_array_ends_the_stream() {
    for value in [Value::Int(1), Value::Data(b"x".to_vec()), Value::Status(b"PONG".to_vec()), Value::Okay] {
        let mut stream = extractor("").receive_aof();
        assert_eq!(stream.on_value(value, 5).err(), Some(Error::UnexpectedAofValue));
    }
    assert_eq!(AofStream::handle_redis_value(Value::Okay).err(), Some(Error::UnexpectedAofValue));
}

#[test]
fn an_array_with_a_value_that_is_no_byte_string_is_no_command() {
    let value = Value::Bulk(vec![
        Value::Data(b"SET".to_vec()),
        Value::Data(b"k".to_vec()),
        Value::Int(5),
        Value::Data(b"lost".to_vec()),
    ]);
    assert_eq!(AofStream::handle_redis_value(value).err(), Some(Error::UnexpectedAofValue));
    let value = Value::Bulk(vec![Value::Data(b"SET".to_vec()), Value::Int(7), Value::Data(b"v".to_vec())]);
    assert_eq!(AofStream::handle_redis_value(value).err(), Some(Error::UnexpectedAofValue));
    assert_eq!(AofStream::handle_redis_value(Value::Bulk(vec![Value::Int(1)])).err(), Some(Error::UnexpectedAofValue));
    assert_eq!(
        AofStream::handle_redis_value(Value::Bulk(vec![Value::Data(b"GET".to_vec()), Value::Nil])).err(),
        Some(Error::UnexpectedAofValue)
    );
    assert_eq!(
        AofStream::handle_redis_value(Value::Bulk(vec![Value::Bulk(vec![Value::Data(b"GET".to_vec())])])).err(),
        Some(Error::UnexpectedAofValue)
    );
    assert_eq!(AofStream::handle_redis_value(command(&[])).unwrap().len(), 0);
    let cmd = AofStream::handle_redis_value(command(&["SET", "k", "v"])).unwrap();
    assert_eq!(cmd.args, vec![b"SET".to_vec(), b"k".to_vec(), b"v".to_vec()]);

    // the stream fails on such a value, makes no record, and goes on to no other
    let mut stream = extractor("").receive_aof();
    let bad = Value::Bulk(vec![Value::Data(b"SET".to_vec()), Value::Int(7), Value::Data(b"v".to_vec())]);
    assert_eq!(stream.on_value(bad, 10).err(), Some(Error::UnexpectedAofValue));
    let mut stream = extractor("").receive_aof();
    assert_eq!(stream.on_value(Value::Bulk(vec![Value::Int(1)]), 10).err(), Some(Error::UnexpectedAofValue));
}

#[test]
fn a_streamed_record_holds_its_command_and_nothing_else() {
    let mut stream = extractor("").receive_aof();
    let item = stream.on_value(command(&["SET", "k", "v"]), 10).unwrap().unwrap();
    assert_eq!(item.data_origin_node, "");
    match &item.dt_data {
        DtData::Redis { entry } => {
            assert_eq!(entry.cmd.args, vec![b"SET".to_vec(), b"k".to_vec(), b"v".to_vec()]);
            assert_eq!((entry.id, entry.is_base, entry.timestamp_ms, entry.expire_ms), (0, false, 0, 0));
            assert!(entry.raw_bytes.is_empty() && entry.key.is_empty());
            assert_eq!((entry.value_type_byte, entry.data_size), (0, 0));
            assert!(matches!(entry.value, ape_dts::meta::redis::redis_object::RedisObject::Unknown));
        }
        other => panic!("not a Redis entry: {:?}", other),
    }
}

#[test]
fn select_switches_the_database_until_the_next_select() {
    let mut stream = extractor("").receive_aof();
    assert!(stream.on_value(command(&["SELECT", "5"]), 10).unwrap().is_none());
    assert_eq!(stream.now_db_id, 5);
    let a = stream.on_value(command(&["SET", "k", "1"]), 10).unwrap().unwrap();
    let b = stream.on_value(command(&["INCR", "k"]), 10).unwrap().unwrap();
    assert_eq!((db_of(&a), db_of(&b)), (5, 5));
    assert_eq!(position_of(&a).2, 5);
    assert!(stream.on_value(command(&["select", "7"]), 10).unwrap().is_none());
    let c = stream.on_value(command(&["DEL", "k"]), 10).unwrap().unwrap();
    assert_eq!(db_of(&c), 7);
    assert_eq!(position_of(&c), (b"run-1".to_vec(), 150, 7, Vec::new()));
}

#[test]
fn select_without_a_readable_index_ends_the_stream() {
    for args in [vec!["SELECT"], vec!["SELECT", "x"], vec!["SELECT", ""], vec!["SELECT", "1.5"]] {
        let mut stream = extractor("").receive_aof();
        assert_eq!(stream.on_value(command(&args), 10).err(), Some(Error::MalformedSelect));
        assert_eq!(stream.now_db_id, 0);
    }
}

#[test]
fn heartbeat_is_observed_and_not_forwarded() {
    let mut stream = extractor("2.hb").receive_aof();
    assert!(stream.heartbeat.is_some());
    // in another database the key is an ordinary key
    let other = stream.on_value(command(&["SET", "hb", "1"]), 10).unwrap().unwrap();
    assert_eq!(args_of(&other), vec!["SET", "hb", "1"]);
    assert_eq!(position_of(&other).3, Vec::<u8>::new());
    assert!(stream.on_value(command(&["SELECT", "2"]), 10).unwrap().is_none());
    assert!(stream.on_value(command(&["SET", "hb", "00000001698499200000"]), 10).unwrap().is_none());
    assert_eq!(stream.heartbeat_timestamp, b"00000001698499200000".to_vec());
    assert!(stream.on_value(command(&["set", "HB", "00000001698499200001"]), 10).unwrap().is_none());
    assert_eq!(stream.heartbeat_timestamp, b"00000001698499200001".to_vec());
    assert!(stream.on_value(command(&["DEL", "hb"]), 10).unwrap().is_none());
    assert_eq!(stream.heartbeat_timestamp, Vec::<u8>::new());
    let next = stream.on_value(command(&["SET", "k", "v"]), 10).unwrap().unwrap();
    assert_eq!(position_of(&next), (b"run-1".to_vec(), 160, 2, Vec::new()));
    assert!(stream.on_value(command(&["SET", "hb", "t9"]), 10).unwrap().is_none());
    let stamped = stream.on_value(command(&["SET", "hbx", "v"]), 10).unwrap().unwrap();
    assert_eq!(position_of(&stamped).3, b"t9".to_vec());
    assert!(stream.on_value(command(&["SELECT", "3"]), 10).unwrap().is_none());
    let elsewhere = stream.on_value(command(&["SET", "hb", "v"]), 10).unwrap().unwrap();
    assert_eq!(db_of(&elsewhere), 3);
}

#[test]
fn positions_never_go_back() {
    let mut stream = extractor("0.hb").receive_aof();
    let mut last = stream.repl_offset;
    let inputs = vec![
        (command(&["SET", "a", "1"]), 5usize),
        (Value::Nil, 9),
        (command(&["SELECT", "1"]), 0),
        (command(&["SET", "b", "2"]), 0),
        (command(&["SET", "c", "3"]), 17),
        (command(&[]), 3),
        (command(&["SET", "d", "4"]), 1),
    ];
    for (value, n) in inputs {
        if let Some(item) = stream.on_value(value, n).unwrap() {
            let offset = position_of(&item).1;
            assert!(offset >= last);
            assert_eq!(offset, stream.repl_offset);
            last = offset;
        }
    }
    assert_eq!(stream.repl_offset, 126);
}

#[test]
fn offset_that_cannot_be_counted_ends_the_stream() {
    let mut e = extractor("");
    e.repl_offset = u64::MAX - 3;
    let mut stream = e.receive_aof();
    assert!(stream.on_value(command(&["SET", "a", "1"]), 3).unwrap().is_some());
    assert_eq!(stream.on_value(command(&["SET", "a", "1"]), 1).err(), Some(Error::OffsetOverflow));
    assert_eq!(stream.repl_offset, u64::MAX);
    assert!(stream.on_value(command(&["SET", "a", "1"]), 0).unwrap().is_some());
}

#[test]
fn filter_drops_databases() {
    let mut e = extractor("");
    e.filter = RedisDbFilter { do_dbs: vec![], ignore_dbs: vec![1] };
    let mut stream = e.receive_aof();
    assert!(stream.on_value(command(&["SET", "a", "1"]), 1).unwrap().is_some());
    assert!(stream.on_value(command(&["SELECT", "1"]), 1).unwrap().is_none());
    assert!(stream.on_value(command(&["SET", "a", "1"]), 1).unwrap().is_none());
    assert_eq!(stream.repl_offset, 103);
    let only = RedisDbFilter { do_dbs: vec![2, 3], ignore_dbs: vec![3] };
    assert!(only.filter_db(0));
    assert!(!only.filter_db(2));
    assert!(only.filter_db(3));
    assert!(!RedisDbFilter::new().filter_db(42));
}

#[test]
fn acknowledgement_carries_the_greater_offset() {
    let stream = extractor("").receive_aof();
    let texts = |p: &Position| -> Vec<String> {
        stream.keep_alive_ack(p).args.iter().map(|a| String::from_utf8_lossy(a).to_string()).collect()
    };
    assert_eq!(texts(&Position::Unset), vec!["replconf", "ack", "100"]);
    let behind = Position::Redis { run_id: vec![], repl_offset: 50, now_db_id: 0, timestamp: vec![] };
    assert_eq!(texts(&behind), vec!["replconf", "ack", "100"]);
    let same = Position::Redis { run_id: vec![], repl_offset: 100, now_db_id: 0, timestamp: vec![] };
    assert_eq!(texts(&same), vec!["replconf", "ack", "100"]);
    let ahead = Position::Redis { run_id: vec![], repl_offset: 250, now_db_id: 0, timestamp: vec![] };
    assert_eq!(texts(&ahead), vec!["replconf", "ack", "250"]);
}

#[test]
fn heartbeat_task_needs_an_interval_and_a_key() {
    let plan = extractor("4.hb").start_heartbeat().unwrap();
    assert_eq!(plan.select.args, vec![b"SELECT".to_vec(), b"4".to_vec()]);
    assert_eq!(plan.interval_secs, 3);
    assert_eq!(plan.sleep_millis, 3000);
    assert!(extractor("hb").start_heartbeat().is_none());
    assert!(extractor("4.").start_heartbeat().is_none());
    assert!(extractor("").start_heartbeat().is_none());
    let mut off = extractor("4.hb");
    off.heartbeat_interval_secs = 0;
    assert!(off.start_heartbeat().is_none());
    let mut huge = extractor("4.hb");
    huge.heartbeat_interval_secs = u64::MAX / 1000 + 1;
    assert!(huge.start_heartbeat().is_none());
    huge.heartbeat_interval_secs = u64::MAX / 1000;
    assert_eq!(huge.start_heartbeat().unwrap().sleep_millis, (u64::MAX / 1000) * 1000);
}

#[test]
fn heartbeat_writes_the_time_under_the_key() {
    let cmd = RedisCdcExtractor::heartbeat(b"hb", 1698499200000);
    assert_eq!(cmd.args, vec![b"SET".to_vec(), b"hb".to_vec(), b"00000001698499200000".to_vec()]);
    assert!(RedisCdcExtractor::is_due(5, 5));
    assert!(RedisCdcExtractor::is_due(6, 5));
    assert!(!RedisCdcExtractor::is_due(4, 5));
    assert!(RedisCdcExtractor::is_due(0, 0));
}

#[test]
fn a_heartbeat_written_is_a_heartbeat_observed() {
    let e = extractor("1.hb");
    let target = parse_heartbeat_key("1.hb").unwrap();
    let written = RedisCdcExtractor::heartbeat(&target.key, 42);
    let mut stream = e.receive_aof();
    assert!(stream.on_value(command(&["SELECT", "1"]), 1).unwrap().is_none());
    let value = Value::Bulk(written.args.iter().map(|a| Value::Data(a.clone())).collect());
    assert!(stream.on_value(value, 1).unwrap().is_none());
    assert_eq!(stream.heartbeat_timestamp, b"00000000000000000042".to_vec());
}

#[test]
fn streaming_is_entered_only_after_the_handshake() {
    let mut e = extractor("");
    let mut psync = e.extract();
    assert_eq!(psync.stage, Stage::NotStarted);
    assert_eq!(psync.run_id, b"run-1".to_vec());
    assert_eq!((psync.repl_offset, psync.repl_port, psync.now_db_id), (100, 10008, 0));
    assert_eq!(e.enter_streaming(&psync).err(), Some(Error::UnexpectedHandshakeReply));
    psync.stage = Stage::SnapshotLoad;
    assert_eq!(e.enter_streaming(&psync).err(), Some(Error::UnexpectedHandshakeReply));
    psync.stage = Stage::Failed;
    assert_eq!(e.enter_streaming(&psync).err(), Some(Error::UnexpectedHandshakeReply));
    assert_eq!(e.run_id, b"run-1".to_vec());
    let done = RedisPsyncExtractor {
        run_id: b"run-2".to_vec(),
        repl_offset: 777,
        repl_port: 10008,
        now_db_id: 0,
        stage: Stage::Streaming,
    };
    let stream = e.enter_streaming(&done).unwrap();
    assert_eq!(stream.run_id, b"run-2".to_vec());
    assert_eq!(stream.repl_offset, 777);
    assert_eq!(e.run_id, b"run-2".to_vec());
    assert_eq!(e.repl_offset, 777);
}
