use ape_dts::error::Error;
use ape_dts::meta::col_value::{ColMap, ColValue};
use ape_dts::meta::ddl_data::DdlData;
use ape_dts::meta::dt_data::DtData;
use ape_dts::meta::redis::redis_entry::RedisEntry;
use ape_dts::meta::redis::redis_object::{
    HashField, HashObject, ListObject, ModuleObject, RedisCmd, RedisObject, SetObject, StreamObject,
    StringObject, ZSetEntry, ZsetObject,
};
use ape_dts::meta::redis::redis_write_method::RedisWriteMethod;
use ape_dts::meta::row_data::RowData;
use ape_dts::sinker::redis::cmd_encoder::CmdEncoder;
use ape_dts::sinker::redis::entry_rewriter::{EntryRewriter, RedisVersion};
use ape_dts::sinker::redis::redis_sinker::RedisSinker;
use ape_dts::util::crc64::crc64;

fn cmd(args: &[&str]) -> RedisCmd {
    RedisCmd::from_str_args(args)
}

fn texts(cmd: &RedisCmd) -> Vec<String> {
    cmd.args.iter().map(|a| String::from_utf8_lossy(a).to_string()).collect()
}

fn all_texts(cmds: &Vec<RedisCmd>) -> Vec<Vec<String>> {
    cmds.iter().map(texts).collect()
}

fn words(items: &[&[&str]]) -> Vec<Vec<String>> {
    items.iter().map(|c| c.iter().map(|s| s.to_string()).collect()).collect()
}

fn sinker(method: RedisWriteMethod, batch_size: usize) -> RedisSinker {
    RedisSinker { batch_size, now_db_id: 0, version: RedisVersion { major: 7, minor: 0 }, method }
}

fn hash_entry(db_id: i64) -> RedisEntry {
    let mut entry = RedisEntry::new();
    entry.db_id = db_id;
    entry.key = b"K".to_vec();
    entry.value = RedisObject::Hash(HashObject {
        key: b"K".to_vec(),
        fields: vec![
            HashField { field: b"a".to_vec(), value: b"1".to_vec() },
            HashField { field: b"b".to_vec(), value: b"2".to_vec() },
        ],
    });
    entry
}

#[test]
fn commands_are_built_from_arguments() {
    let mut c = RedisCmd::new();
    assert_eq!(c.len(), 0);
    assert_eq!(c.get_name(), Vec::<u8>::new());
    c.add_str_arg("SET");
    c.add_arg(b"k".to_vec());
    c.add_bytes_arg(&[0u8, 255u8]);
    assert_eq!(c.len(), 3);
    assert_eq!(c.get_name(), b"SET".to_vec());
    assert_eq!(c.get_arg(1), b"k".to_vec());
    assert_eq!(c.get_arg(2), vec![0u8, 255u8]);
    assert_eq!(c.get_arg(3), Vec::<u8>::new());
    assert_eq!(c.duplicate().args, c.args);
    assert_eq!(RedisCmd::from_args(vec![b"a".to_vec()]).args, vec![b"a".to_vec()]);
    assert_eq!(cmd(&["GET", "k"]).args, vec![b"GET".to_vec(), b"k".to_vec()]);
    assert_eq!(cmd(&[]).len(), 0);
}

#[test]
fn a_command_is_an_array_of_byte_strings() {
    assert_eq!(CmdEncoder::encode(&cmd(&["SET", "key", "value"])), b"*3\r\n$3\r\nSET\r\n$3\r\nkey\r\n$5\r\nvalue\r\n".to_vec());
    assert_eq!(CmdEncoder::encode(&cmd(&[])), b"*0\r\n".to_vec());
    assert_eq!(CmdEncoder::encode(&cmd(&["PING"])), b"*1\r\n$4\r\nPING\r\n".to_vec());
    assert_eq!(CmdEncoder::encode(&cmd(&["SET", "k", ""])), b"*3\r\n$3\r\nSET\r\n$1\r\nk\r\n$0\r\n\r\n".to_vec());
    let long = "x".repeat(12);
    assert_eq!(
        CmdEncoder::encode(&cmd(&["ECHO", &long])),
        b"*2\r\n$4\r\nECHO\r\n$12\r\nxxxxxxxxxxxx\r\n".to_vec()
    );
    let mut binary = RedisCmd::new();
    binary.add_arg(vec![13u8, 10u8]);
    assert_eq!(CmdEncoder::encode(&binary), b"*1\r\n$2\r\n\r\n\r\n".to_vec());
}

#[test]
fn commands_are_packed_one_after_the_other() {
    let cmds = vec![cmd(&["SELECT", "1"]), cmd(&["DEL", "k"])];
    let packed = CmdEncoder::pack(&cmds);
    assert_eq!(packed.bytes, b"*2\r\n$6\r\nSELECT\r\n$1\r\n1\r\n*2\r\n$3\r\nDEL\r\n$1\r\nk\r\n".to_vec());
    assert_eq!(packed.replies, 2);
    let mut buf = b"+".to_vec();
    CmdEncoder::encode_into(&mut buf, &cmd(&["PING"]));
    assert_eq!(buf, b"+*1\r\n$4\r\nPING\r\n".to_vec());
    let none = CmdEncoder::pack(&Vec::new());
    assert_eq!(none.bytes, Vec::<u8>::new());
    assert_eq!(none.replies, 0);
}

#[test]
fn batch_request_counts_one_reply_for_each_command() {
    assert!(RedisSinker::batch_sink(&Vec::new()).is_none());
    let cmds = vec![cmd(&["SELECT", "1"]), cmd(&["SET", "a", "1"]), cmd(&["SET", "b", "2"])];
    let request = RedisSinker::batch_sink(&cmds).unwrap();
    assert_eq!(request.replies, 3);
    assert_eq!(request.bytes, CmdEncoder::pack(&cmds).bytes);
    let each = RedisSinker::serial_sink(&cmds);
    assert_eq!(each.len(), 3);
    assert_eq!(each[0], b"*2\r\n$6\r\nSELECT\r\n$1\r\n1\r\n".to_vec());
    assert_eq!(each.concat(), request.bytes);
    assert!(sinker(RedisWriteMethod::Rewrite, 2).sends_batches());
    assert!(!sinker(RedisWriteMethod::Rewrite, 1).sends_batches());
    assert!(!sinker(RedisWriteMethod::Rewrite, 0).sends_batches());
}

#[test]
fn objects_are_rewritten_by_type() {
    let s = StringObject { key: b"k".to_vec(), value: b"v".to_vec() };
    assert_eq!(all_texts(&EntryRewriter::rewrite_string(&s)), words(&[&["set", "k", "v"]]));
    let l = ListObject { key: b"l".to_vec(), elements: vec![b"a".to_vec(), b"b".to_vec()] };
    assert_eq!(all_texts(&EntryRewriter::rewrite_list(&l)), words(&[&["del", "l"], &["rpush", "l", "a", "b"]]));
    let e = SetObject { key: b"s".to_vec(), elements: vec![b"x".to_vec(), b"y".to_vec(), b"z".to_vec()] };
    assert_eq!(all_texts(&EntryRewriter::rewrite_set(&e)), words(&[&["sadd", "s", "x", "y", "z"]]));
    let h = HashObject {
        key: b"h".to_vec(),
        fields: vec![
            HashField { field: b"a".to_vec(), value: b"1".to_vec() },
            HashField { field: b"b".to_vec(), value: b"2".to_vec() },
        ],
    };
    assert_eq!(all_texts(&EntryRewriter::rewrite_hash(&h)), words(&[&["hset", "h", "a", "1", "b", "2"]]));
    let z = ZsetObject {
        key: b"z".to_vec(),
        elements: vec![
            ZSetEntry { member: b"m1".to_vec(), score: b"1.5".to_vec() },
            ZSetEntry { member: b"m2".to_vec(), score: b"-2".to_vec() },
        ],
    };
    assert_eq!(all_texts(&EntryRewriter::rewrite_zset(&z)), words(&[&["zadd", "z", "1.5", "m1", "-2", "m2"]]));
}

#[test]
fn empty_collections_give_no_command() {
    assert!(EntryRewriter::rewrite_list(&ListObject { key: b"l".to_vec(), elements: vec![] }).is_empty());
    assert!(EntryRewriter::rewrite_set(&SetObject { key: b"s".to_vec(), elements: vec![] }).is_empty());
    assert!(EntryRewriter::rewrite_hash(&HashObject { key: b"h".to_vec(), fields: vec![] }).is_empty());
    assert!(EntryRewriter::rewrite_zset(&ZsetObject { key: b"z".to_vec(), elements: vec![] }).is_empty());
}

#[test]
fn expiry_becomes_a_command() {
    let mut entry = hash_entry(0);
    assert!(EntryRewriter::rewrite_expire(&entry).is_none());
    entry.expire_ms = -5;
    assert!(EntryRewriter::rewrite_expire(&entry).is_none());
    entry.expire_ms = 1698499200000;
    let c = EntryRewriter::rewrite_expire(&entry).unwrap();
    assert_eq!(texts(&c), vec!["pexpireat", "K", "1698499200000"]);
}

#[test]
fn serialized_value_ends_with_version_and_checksum() {
    let dump = EntryRewriter::create_value_dump(0, b"\x03abc");
    assert_eq!(&dump[..7], &[0u8, 3, b'a', b'b', b'c', 6, 0][..]);
    assert_eq!(dump.len(), 15);
    let sum = crc64(0, &dump[..7]);
    assert_eq!(&dump[7..], &sum.to_le_bytes()[..]);
    // a payload with its own checksum appended sums to zero
    assert_eq!(crc64(0, &dump), 0);
    let empty = EntryRewriter::create_value_dump(9, b"");
    assert_eq!(&empty[..3], &[9u8, 6, 0][..]);
    assert_eq!(empty.len(), 11);
}

#[test]
fn restore_command_follows_the_destination_version() {
    let mut entry = RedisEntry::new();
    entry.key = b"k".to_vec();
    entry.value_type_byte = 0;
    entry.raw_bytes = b"\x01v".to_vec();
    let dump = EntryRewriter::create_value_dump(0, b"\x01v");
    let old = EntryRewriter::rewrite_as_restore(&entry, RedisVersion { major: 2, minor: 8 });
    assert_eq!(old.args, vec![b"restore".to_vec(), b"k".to_vec(), b"0".to_vec(), dump.clone()]);
    let v3 = EntryRewriter::rewrite_as_restore(&entry, RedisVersion { major: 3, minor: 0 });
    assert_eq!(v3.args, vec![b"restore".to_vec(), b"k".to_vec(), b"0".to_vec(), dump.clone(), b"replace".to_vec()]);
    entry.expire_ms = 1700000000000;
    let v4 = EntryRewriter::rewrite_as_restore(&entry, RedisVersion { major: 4, minor: 9 });
    assert_eq!(
        v4.args,
        vec![b"restore".to_vec(), b"k".to_vec(), b"1700000000000".to_vec(), dump.clone(), b"replace".to_vec()]
    );
    let v5 = EntryRewriter::rewrite_as_restore(&entry, RedisVersion { major: 5, minor: 0 });
    assert_eq!(
        v5.args,
        vec![
            b"restore".to_vec(),
            b"k".to_vec(),
            b"1700000000000".to_vec(),
            dump,
            b"replace".to_vec(),
            b"absttl".to_vec()
        ]
    );
    assert!(RedisVersion { major: 5, minor: 0 }.at_least(5, 0));
    assert!(RedisVersion { major: 6, minor: 0 }.at_least(5, 9));
    assert!(!RedisVersion { major: 4, minor: 9 }.at_least(5, 0));
    assert!(!RedisVersion { major: 5, minor: 0 }.at_least(5, 1));
}

#[test]
fn rewrite_selects_the_database_of_the_entry() {
    let mut s = sinker(RedisWriteMethod::Rewrite, 1);
    let cmds = s.rewrite_entry(&mut DtData::Redis { entry: hash_entry(0) }).unwrap();
    assert_eq!(all_texts(&cmds), words(&[&["hset", "K", "a", "1", "b", "2"]]));
    assert_eq!(s.now_db_id, 0);
    let cmds = s.rewrite_entry(&mut DtData::Redis { entry: hash_entry(3) }).unwrap();
    assert_eq!(all_texts(&cmds), words(&[&["SELECT", "3"], &["hset", "K", "a", "1", "b", "2"]]));
    assert_eq!(s.now_db_id, 3);
    let cmds = s.rewrite_entry(&mut DtData::Redis { entry: hash_entry(3) }).unwrap();
    assert_eq!(all_texts(&cmds), words(&[&["hset", "K", "a", "1", "b", "2"]]));
    let mut expiring = hash_entry(3);
    expiring.expire_ms = 99;
    let cmds = s.rewrite_entry(&mut DtData::Redis { entry: expiring }).unwrap();
    assert_eq!(all_texts(&cmds), words(&[&["hset", "K", "a", "1", "b", "2"], &["pexpireat", "K", "99"]]));
}

#[test]
fn rewrite_of_other_records_gives_nothing() {
    let mut s = sinker(RedisWriteMethod::Rewrite, 1);
    assert!(s.rewrite_entry(&mut DtData::Begin {}).unwrap().is_empty());
    assert!(s.rewrite_entry(&mut DtData::Commit { xid: "1".to_string() }).unwrap().is_empty());
    let ddl = DdlData { schema: "s".to_string(), query: "q".to_string(), meta: None };
    assert!(s.rewrite_entry(&mut DtData::Ddl { ddl_data: ddl }).unwrap().is_empty());
    assert_eq!(s.now_db_id, 0);
}

#[test]
fn rewrite_of_an_unknown_object_fails_and_keeps_the_database() {
    let mut s = sinker(RedisWriteMethod::Rewrite, 1);
    let mut entry = RedisEntry::new();
    entry.db_id = 5;
    let r = s.rewrite_entry(&mut DtData::Redis { entry });
    assert_eq!(r.err(), Some(Error::RewriteNotImplemented));
    assert_eq!(s.now_db_id, 0);
}

#[test]
fn rewrite_of_streams_and_modules() {
    let mut s = sinker(RedisWriteMethod::Rewrite, 1);
    let mut stream = RedisEntry::new();
    stream.key = b"st".to_vec();
    stream.value = RedisObject::Stream(StreamObject {
        key: b"st".to_vec(),
        cmds: vec![cmd(&["xadd", "st", "1-1", "f", "v"]), cmd(&["xsetid", "st", "1-1"])],
    });
    let cmds = s.rewrite_entry(&mut DtData::Redis { entry: stream }).unwrap();
    assert_eq!(all_texts(&cmds), words(&[&["xadd", "st", "1-1", "f", "v"], &["xsetid", "st", "1-1"]]));
    let mut module = RedisEntry::new();
    module.key = b"m".to_vec();
    module.value_type_byte = 7;
    module.raw_bytes = vec![1, 2, 3];
    module.value = RedisObject::Module(ModuleObject { key: b"m".to_vec() });
    let cmds = s.rewrite_entry(&mut DtData::Redis { entry: module.clone() }).unwrap();
    assert_eq!(cmds.len(), 1);
    assert_eq!(cmds[0].args, EntryRewriter::rewrite_as_restore(&module, s.version).args);
}

#[test]
fn restore_method_sends_the_serialized_object_or_the_command() {
    let mut s = sinker(RedisWriteMethod::Restore, 1);
    let mut raw = hash_entry(0);
    raw.value_type_byte = 4;
    raw.raw_bytes = vec![9, 9];
    let cmds = s.rewrite_entry(&mut DtData::Redis { entry: raw.clone() }).unwrap();
    assert_eq!(cmds.len(), 1);
    assert_eq!(cmds[0].args, EntryRewriter::rewrite_as_restore(&raw, s.version).args);
    let mut streamed = RedisEntry::new();
    streamed.db_id = 2;
    streamed.cmd = cmd(&["HSET", "K", "c", "3"]);
    let cmds = s.rewrite_entry(&mut DtData::Redis { entry: streamed }).unwrap();
    assert_eq!(all_texts(&cmds), words(&[&["SELECT", "2"], &["HSET", "K", "c", "3"]]));
    assert_eq!(s.now_db_id, 2);
}

#[test]
fn chunk_of_entries_is_rewritten_in_order() {
    let mut data = vec![
        DtData::Redis { entry: hash_entry(1) },
        DtData::Begin {},
        DtData::Redis { entry: hash_entry(1) },
        DtData::Redis { entry: hash_entry(2) },
    ];
    let mut s = sinker(RedisWriteMethod::Rewrite, 2);
    let cmds = s.batch_sink_raw(&mut data, 0, 3).unwrap();
    assert_eq!(
        all_texts(&cmds),
        words(&[&["SELECT", "1"], &["hset", "K", "a", "1", "b", "2"], &["hset", "K", "a", "1", "b", "2"]])
    );
    assert_eq!(s.now_db_id, 1);
    let cmds = s.batch_sink_raw(&mut data, 3, 3).unwrap();
    assert_eq!(all_texts(&cmds), words(&[&["SELECT", "2"], &["hset", "K", "a", "1", "b", "2"]]));
    assert_eq!(s.now_db_id, 2);
    assert!(s.batch_sink_raw(&mut data, 4, 3).unwrap().is_empty());
    assert!(s.batch_sink_raw(&mut data, 9, 3).unwrap().is_empty());
}

#[test]
fn chunk_with_an_unknown_object_fails_whole() {
    let mut data = vec![DtData::Redis { entry: hash_entry(4) }, DtData::Redis { entry: RedisEntry::new() }];
    let mut s = sinker(RedisWriteMethod::Rewrite, 2);
    assert_eq!(s.batch_sink_raw(&mut data, 0, 2).err(), Some(Error::RewriteNotImplemented));
    assert_eq!(s.now_db_id, 0);
    assert_eq!(s.batch_sink_raw(&mut data, 0, 1).unwrap().len(), 2);
    assert_eq!(s.now_db_id, 4);
}

fn row_image() -> ColMap {
    let mut m = ColMap::new();
    m.insert("id".to_string(), ColValue::Long(7));
    m.insert("name".to_string(), ColValue::String("x".to_string()));
    m.insert("note".to_string(), ColValue::Null);
    m
}

#[test]
fn row_changes_become_hash_commands() {
    let ins = RowData::new_insert("db".to_string(), "tb".to_string(), row_image(), 1);
    let c = RedisSinker::dml_to_redis_cmd(&ins, Some("id")).unwrap();
    assert_eq!(texts(&c), vec!["hset", "db.tb.7", "id", "7", "name", "x", "note", ""]);
    let upd = RowData::new_update("db".to_string(), "tb".to_string(), row_image(), row_image(), 1);
    let c = RedisSinker::dml_to_redis_cmd(&upd, Some("id")).unwrap();
    assert_eq!(texts(&c), vec!["hset", "db.tb.7", "id", "7", "name", "x", "note", ""]);
    let del = RowData::new_delete("db".to_string(), "tb".to_string(), row_image(), 1);
    let c = RedisSinker::dml_to_redis_cmd(&del, Some("id")).unwrap();
    assert_eq!(texts(&c), vec!["del", "db.tb.7"]);
}

#[test]
fn row_changes_without_a_key_give_no_command() {
    let ins = RowData::new_insert("db".to_string(), "tb".to_string(), row_image(), 1);
    assert!(RedisSinker::dml_to_redis_cmd(&ins, None).is_none());
    assert!(RedisSinker::dml_to_redis_cmd(&ins, Some("missing")).is_none());
    assert!(RedisSinker::dml_to_redis_cmd(&ins, Some("note")).is_none());
    let mut broken = ins.clone();
    broken.after = None;
    assert!(RedisSinker::dml_to_redis_cmd(&broken, Some("id")).is_none());
}

#[test]
fn chunk_of_rows_passes_over_rows_without_a_command() {
    let mut keyless = ColMap::new();
    keyless.insert("name".to_string(), ColValue::String("y".to_string()));
    let data = vec![
        RowData::new_insert("db".to_string(), "tb".to_string(), row_image(), 1),
        RowData::new_insert("db".to_string(), "tb".to_string(), keyless, 1),
        RowData::new_delete("db".to_string(), "tb".to_string(), row_image(), 1),
    ];
    let cmds = RedisSinker::batch_sink_dml(&data, Some("id"), 0, 10);
    assert_eq!(
        all_texts(&cmds),
        words(&[&["hset", "db.tb.7", "id", "7", "name", "x", "note", ""], &["del", "db.tb.7"]])
    );
    assert_eq!(RedisSinker::batch_sink_dml(&data, Some("id"), 1, 1).len(), 0);
    assert_eq!(RedisSinker::batch_sink_dml(&data, Some("id"), 2, 5).len(), 1);
    assert_eq!(RedisSinker::batch_sink_dml(&data, None, 0, 10).len(), 0);
}

#[test]
fn a_stream_hands_its_commands_over_once() {
    let mut stream = RedisEntry::new();
    stream.key = b"S".to_vec();
    stream.raw_bytes = vec![1, 2, 3];
    stream.value_type_byte = 15;
    stream.expire_ms = 0;
    stream.value = RedisObject::Stream(ape_dts::meta::redis::redis_object::StreamObject {
        key: b"S".to_vec(),
        cmds: vec![RedisCmd::from_str_args(&["xadd", "S", "1-1", "f", "v"]), RedisCmd::from_str_args(&["xsetid", "S", "1-1"])],
    });
    let mut s = sinker(RedisWriteMethod::Rewrite, 1);
    let mut record = DtData::Redis { entry: stream.clone() };
    let cmds = s.rewrite_entry(&mut record).unwrap();
    assert_eq!(all_texts(&cmds), words(&[&["xadd", "S", "1-1", "f", "v"], &["xsetid", "S", "1-1"]]));
    match &record {
        DtData::Redis { entry } => {
            match &entry.value {
                RedisObject::Stream(left) => {
                    assert!(left.cmds.is_empty());
                    assert_eq!(left.key, b"S".to_vec());
                }
                other => panic!("not a stream: {:?}", other),
            }
            assert_eq!(entry.key, stream.key);
            assert_eq!(entry.raw_bytes, stream.raw_bytes);
            assert_eq!((entry.value_type_byte, entry.db_id, entry.id), (15, 0, 0));
        }
        other => panic!("not a Redis entry: {:?}", other),
    }
    // a second call finds no command of the stream
    assert!(s.rewrite_entry(&mut record).unwrap().is_empty());

    // by restore nothing is taken out of the record
    let mut r = sinker(RedisWriteMethod::Restore, 1);
    let mut record = DtData::Redis { entry: stream.clone() };
    assert_eq!(r.rewrite_entry(&mut record).unwrap().len(), 1);
    match &record {
        DtData::Redis { entry } => match &entry.value {
            RedisObject::Stream(left) => assert_eq!(left.cmds.len(), 2),
            other => panic!("not a stream: {:?}", other),
        },
        other => panic!("not a Redis entry: {:?}", other),
    }

    // in a chunk: the streams of the chunk are drained, the others are not; a failure drains none
    let mut data =
        vec![DtData::Redis { entry: stream.clone() }, DtData::Redis { entry: hash_entry(0) }, DtData::Redis { entry: stream.clone() }];
    let mut s = sinker(RedisWriteMethod::Rewrite, 2);
    assert_eq!(s.batch_sink_raw(&mut data, 0, 2).unwrap().len(), 3);
    let left: Vec<usize> = data
        .iter()
        .map(|d| match d {
            DtData::Redis { entry } => match &entry.value {
                RedisObject::Stream(o) => o.cmds.len(),
                _ => 99,
            },
            _ => 98,
        })
        .collect();
    assert_eq!(left, vec![0, 99, 2]);
    let mut data = vec![DtData::Redis { entry: stream.clone() }, DtData::Redis { entry: RedisEntry::new() }];
    let mut s = sinker(RedisWriteMethod::Rewrite, 2);
    assert_eq!(s.batch_sink_raw(&mut data, 0, 2).err(), Some(Error::RewriteNotImplemented));
    match &data[0] {
        DtData::Redis { entry } => match &entry.value {
            RedisObject::Stream(o) => assert_eq!(o.cmds.len(), 2),
            other => panic!("not a stream: {:?}", other),
        },
        other => panic!("not a Redis entry: {:?}", other),
    }
    let mut data = vec![DtData::Redis { entry: stream.clone() }, DtData::Redis { entry: stream.clone() }];
    let mut s = sinker(RedisWriteMethod::Rewrite, 1);
    assert_eq!(s.sink_raw(&mut data).unwrap().len(), 4);
    assert!(s.sink_raw(&mut data).unwrap().is_empty());
}
