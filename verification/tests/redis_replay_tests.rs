use std::collections::BTreeMap;

use ape_dts::extractor::redis::rdb::rdb_loader::{read_payload_header, PayloadResult, RdbLoader};
use ape_dts::extractor::redis::rdb::rdb_parser::{ItemResult, RdbParser};
use ape_dts::extractor::redis::redis_cdc_extractor::{AofStream, RedisCdcExtractor, RedisDbFilter};
use ape_dts::extractor::redis::redis_psync_extractor::{HandshakeStep, RedisPsyncExtractor};
use ape_dts::extractor::redis::redis_resp_reader::{read_value, ParseResult};
use ape_dts::extractor::redis::redis_resp_types::Value;
use ape_dts::meta::dt_data::{DtData, DtItem};
use ape_dts::meta::redis::redis_entry::RedisEntry;
use ape_dts::meta::redis::redis_object::{HashField, HashObject, ListObject, RedisCmd, RedisObject};
use ape_dts::meta::redis::redis_write_method::RedisWriteMethod;
use ape_dts::sinker::redis::cmd_encoder::CmdEncoder;
use ape_dts::sinker::redis::entry_rewriter::RedisVersion;
use ape_dts::sinker::redis::redis_sinker::RedisSinker;

/// A destination that understands the few commands of these scenarios.
struct MiniRedis {
    db: i64,
    hashes: BTreeMap<(i64, String), BTreeMap<String, String>>,
    lists: BTreeMap<(i64, String), Vec<String>>,
    replies: usize,
}

impl MiniRedis {
    fn new() -> MiniRedis {
        MiniRedis { db: 0, hashes: BTreeMap::new(), lists: BTreeMap::new(), replies: 0 }
    }

    fn feed(&mut self, bytes: &[u8]) {
        let mut pos = 0;
        while pos < bytes.len() {
            match read_value(&bytes[pos..]) {
                ParseResult::Done { value, len } => {
                    let cmd = AofStream::handle_redis_value(value).unwrap();
                    self.apply(&cmd);
                    pos += len;
                }
                other => panic!("the destination cannot read its input: {:?}", other),
            }
        }
    }

    fn apply(&mut self, cmd: &RedisCmd) {
        let args: Vec<String> = cmd.args.iter().map(|a| String::from_utf8_lossy(a).to_string()).collect();
        self.replies += 1;
        match args[0].to_lowercase().as_str() {
            "select" => self.db = args[1].parse().unwrap(),
            "hset" => {
                let hash = self.hashes.entry((self.db, args[1].clone())).or_default();
                for pair in args[2..].chunks(2) {
                    hash.insert(pair[0].clone(), pair[1].clone());
                }
            }
            "del" => {
                self.hashes.remove(&(self.db, args[1].clone()));
                self.lists.remove(&(self.db, args[1].clone()));
            }
            "rpush" => {
                let list = self.lists.entry((self.db, args[1].clone())).or_default();
                list.extend(args[2..].iter().cloned());
            }
            other => panic!("command {} is not part of the scenario", other),
        }
    }
}

fn hash_of(pairs: &[(&str, &str)]) -> BTreeMap<String, String> {
    pairs.iter().map(|(k, v)| (k.to_string(), v.to_string())).collect()
}

fn snapshot_hash() -> RedisEntry {
    let mut entry = RedisEntry::new();
    entry.is_base = true;
    entry.db_id = 0;
    entry.key = b"K".to_vec();
    entry.value = RedisObject::Hash(HashObject {
        key: b"K".to_vec(),
        fields: vec![
            HashField { field: b"a".to_vec(), value: b"1".to_vec() },
            HashField { field: b"b".to_vec(), value: b"2".to_vec() },
        ],
    });
    entry
}

/// The source side: handshake, one snapshot object, one streamed command.
fn captured() -> Vec<DtItem> {
    let mut extractor = RedisCdcExtractor {
        run_id: Vec::new(),
        repl_offset: 0,
        repl_port: 10008,
        now_db_id: 0,
        keepalive_interval_secs: 5,
        heartbeat_interval_secs: 0,
        heartbeat_key: String::new(),
        filter: RedisDbFilter::new(),
    };
    let mut psync = extractor.extract();
    psync.start();
    psync.on_reply(&Value::Status(b"PONG".to_vec()));
    psync.on_reply(&Value::Okay);
    psync.on_reply(&Value::Okay);
    let step = psync.on_reply(&Value::Status(b"FULLRESYNC abcdef 1000".to_vec()));
    assert!(matches!(step, HandshakeStep::FullResync));
    let mut items = vec![psync.snapshot_record(snapshot_hash())];
    assert!(psync.snapshot_loaded());
    let mut stream = extractor.enter_streaming(&psync).unwrap();
    let wire = CmdEncoder::encode(&RedisCmd::from_str_args(&["HSET", "K", "c", "3"]));
    match read_value(&wire) {
        ParseResult::Done { value, len } => {
            items.push(stream.on_value(value, len).unwrap().unwrap());
        }
        other => panic!("the stream cannot be read: {:?}", other),
    }
    assert_eq!(stream.repl_offset, 1000 + wire.len() as u64);
    items
}

fn replay(items: &Vec<DtItem>, method: RedisWriteMethod, batch_size: usize, dest: &mut MiniRedis) {
    let mut data: Vec<DtData> = items.iter().map(|i| i.dt_data.clone()).collect();
    let mut sinker = RedisSinker { batch_size, now_db_id: 0, version: RedisVersion { major: 7, minor: 0 }, method };
    if sinker.sends_batches() {
        let mut start = 0;
        while start < data.len() {
            let cmds = sinker.batch_sink_raw(&mut data, start, batch_size).unwrap();
            if let Some(request) = RedisSinker::batch_sink(&cmds) {
                let before = dest.replies;
                dest.feed(&request.bytes);
                assert_eq!(dest.replies - before, request.replies);
            }
            start += batch_size;
        }
    } else {
        for dt_data in data.iter_mut() {
            let cmds = sinker.rewrite_entry(dt_data).unwrap();
            for request in RedisSinker::serial_sink(&cmds) {
                dest.feed(&request);
            }
        }
    }
}

#[test]
fn snapshot_hash_then_streamed_field() {
    let items = captured();
    assert_eq!(items.len(), 2);
    for batch_size in [1usize, 2, 10] {
        let mut dest = MiniRedis::new();
        replay(&items, RedisWriteMethod::Rewrite, batch_size, &mut dest);
        assert_eq!(dest.hashes.len(), 1);
        assert_eq!(
            dest.hashes.get(&(0, "K".to_string())),
            Some(&hash_of(&[("a", "1"), ("b", "2"), ("c", "3")]))
        );
    }
}

#[test]
fn replay_into_another_database_selects_it_first() {
    let mut entry = snapshot_hash();
    entry.db_id = 6;
    let psync = RedisPsyncExtractor::new(b"run".to_vec(), 5, 1, 0);
    let items = vec![psync.snapshot_record(entry)];
    let mut dest = MiniRedis::new();
    replay(&items, RedisWriteMethod::Rewrite, 1, &mut dest);
    assert_eq!(dest.db, 6);
    assert_eq!(dest.hashes.get(&(6, "K".to_string())), Some(&hash_of(&[("a", "1"), ("b", "2")])));
    assert!(dest.hashes.get(&(0, "K".to_string())).is_none());
}

#[test]
fn second_delivery_of_a_snapshot_changes_nothing() {
    let mut list = RedisEntry::new();
    list.key = b"L".to_vec();
    list.value = RedisObject::List(ListObject { key: b"L".to_vec(), elements: vec![b"x".to_vec(), b"y".to_vec()] });
    let psync = RedisPsyncExtractor::new(b"run".to_vec(), 5, 1, 0);
    let items = vec![psync.snapshot_record(snapshot_hash()), psync.snapshot_record(list)];
    let mut dest = MiniRedis::new();
    replay(&items, RedisWriteMethod::Rewrite, 2, &mut dest);
    let hashes = dest.hashes.clone();
    let lists = dest.lists.clone();
    assert_eq!(lists.get(&(0, "L".to_string())), Some(&vec!["x".to_string(), "y".to_string()]));
    replay(&items, RedisWriteMethod::Rewrite, 2, &mut dest);
    assert_eq!(dest.hashes, hashes);
    assert_eq!(dest.lists, lists);
}

/// The payload of a snapshot with the hash `K` = {a: 1, b: 2} in
/// database 0, the hash plain or packed.
fn snapshot_payload(packed: bool) -> Vec<u8> {
    let mut f = b"REDIS0011".to_vec();
    f.extend([0xfe, 0x00]);
    if packed {
        f.extend([16, 1, b'K']);
        // a list pack of four elements: a, 1, b, 2
        f.extend([17, 17, 0, 0, 0, 4, 0, 0x81, b'a', 2, 1, 1, 0x81, b'b', 2, 2, 1, 0xff]);
    } else {
        f.extend([4, 1, b'K', 2, 1, b'a', 1, b'1', 1, b'b', 1, b'2']);
    }
    f.push(0xff);
    f.extend([0u8; 8]);
    let mut payload = format!("\n${}\r\n", f.len()).into_bytes();
    payload.extend(f);
    payload
}

#[test]
fn snapshot_bytes_then_streamed_field() {
    for packed in [false, true] {
        let mut extractor = RedisCdcExtractor {
            run_id: Vec::new(),
            repl_offset: 0,
            repl_port: 10008,
            now_db_id: 0,
            keepalive_interval_secs: 5,
            heartbeat_interval_secs: 0,
            heartbeat_key: String::new(),
            filter: RedisDbFilter::new(),
        };
        let mut psync = extractor.extract();
        psync.start();
        psync.on_reply(&Value::Status(b"PONG".to_vec()));
        psync.on_reply(&Value::Okay);
        psync.on_reply(&Value::Okay);
        psync.on_reply(&Value::Status(b"FULLRESYNC abcdef 1000".to_vec()));

        let payload = snapshot_payload(packed);
        let (size, header) = match read_payload_header(&payload) {
            PayloadResult::Done { payload, header } => (payload as usize, header),
            other => panic!("the snapshot is not announced: {:?}", other),
        };
        let file = &payload[header..header + size];
        assert_eq!(header + size, payload.len());
        assert_eq!(RdbParser::read_header(file), Ok(Some(11)));
        assert!(RdbParser::checksum_ok(file));
        let mut loader = RdbLoader::new();
        let mut items = Vec::new();
        let mut pos = 9;
        while !loader.finished {
            match RdbParser::read_item(file, pos) {
                ItemResult::Done { item, len } => {
                    pos += len;
                    if let Some(entry) = loader.on_item(item).unwrap() {
                        items.push(psync.snapshot_record(entry));
                    }
                }
                other => panic!("record at {} not read: {:?}", pos, other),
            }
        }
        assert_eq!(pos, file.len());
        assert_eq!(items.len(), 1);
        assert!(psync.snapshot_loaded());

        let mut stream = extractor.enter_streaming(&psync).unwrap();
        let wire = CmdEncoder::encode(&RedisCmd::from_str_args(&["HSET", "K", "c", "3"]));
        match read_value(&wire) {
            ParseResult::Done { value, len } => {
                items.push(stream.on_value(value, len).unwrap().unwrap());
            }
            other => panic!("the stream cannot be read: {:?}", other),
        }

        let mut dest = MiniRedis::new();
        replay(&items, RedisWriteMethod::Rewrite, 1, &mut dest);
        assert_eq!(
            dest.hashes.get(&(0, "K".to_string())),
            Some(&hash_of(&[("a", "1"), ("b", "2"), ("c", "3")])),
            "packed: {}",
            packed
        );
    }
}
