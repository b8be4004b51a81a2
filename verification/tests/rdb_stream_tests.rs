use ape_dts::extractor::redis::rdb::rdb_loader::RdbLoader;
use ape_dts::extractor::redis::rdb::rdb_parser::{ItemResult, RdbItem, RdbParser};
use ape_dts::extractor::redis::rdb::rdb_stream::{id_to_text, read_block, read_stream, CmdsResult, StreamId};
use ape_dts::meta::dt_data::DtData;
use ape_dts::meta::redis::redis_object::{RedisCmd, RedisObject};
use ape_dts::meta::redis::redis_write_method::RedisWriteMethod;
use ape_dts::sinker::redis::entry_rewriter::{EntryRewriter, RedisVersion};
use ape_dts::sinker::redis::redis_sinker::RedisSinker;

fn shown(cmds: &[RedisCmd]) -> Vec<String> {
    cmds.iter()
        .map(|c| c.args.iter().map(|a| String::from_utf8_lossy(a).to_string()).collect::<Vec<_>>().join(" "))
        .collect()
}

fn texts(items: &[&str]) -> Vec<Vec<u8>> {
    items.iter().map(|i| i.as_bytes().to_vec()).collect()
}

/// An element of a list pack: a number in the shortest form that holds
/// it here, or a short string; the byte that follows an entry is added.
fn element(text: &str) -> Vec<u8> {
    let mut e = match text.parse::<i64>() {
        Ok(n) if (0..128).contains(&n) => vec![n as u8],
        Ok(n) if (-4096..4096).contains(&n) => {
            let v = (n as i16 as u16) & 0x1fff;
            vec![0xc0 | (v >> 8) as u8, (v & 255) as u8]
        }
        Ok(n) => {
            let mut v = vec![0xf4];
            v.extend(n.to_le_bytes());
            v
        }
        Err(_) => {
            assert!(text.len() < 64);
            let mut v = vec![0x80 | text.len() as u8];
            v.extend(text.as_bytes());
            v
        }
    };
    e.push(e.len() as u8);
    e
}

fn listpack(elements: &[&str]) -> Vec<u8> {
    let mut body = Vec::new();
    for e in elements {
        body.extend(element(e));
    }
    let total = 6 + body.len() + 1;
    let mut out = (total as u32).to_le_bytes().to_vec();
    out.extend((elements.len() as u16).to_le_bytes());
    out.extend(body);
    out.push(0xff);
    out
}

fn rdb_str(bytes: &[u8]) -> Vec<u8> {
    let n = bytes.len();
    let mut out = if n < 64 {
        vec![n as u8]
    } else {
        vec![0x40 | (n >> 8) as u8, (n & 255) as u8]
    };
    out.extend(bytes);
    out
}

/// A count as a snapshot writes it.
fn count(n: u64) -> Vec<u8> {
    if n < 64 {
        vec![n as u8]
    } else if n < 16384 {
        vec![0x40 | (n >> 8) as u8, (n & 255) as u8]
    } else if n <= u32::MAX as u64 {
        let mut v = vec![0x80];
        v.extend((n as u32).to_be_bytes());
        v
    } else {
        let mut v = vec![0x81];
        v.extend(n.to_be_bytes());
        v
    }
}

fn raw_id(ms: u64, seq: u64) -> Vec<u8> {
    let mut v = ms.to_be_bytes().to_vec();
    v.extend(seq.to_be_bytes());
    v
}

/// The elements of a block that starts at 1000-5: a live entry with the
/// fields of the head, a deleted one, and a live one with a field of
/// its own.
fn block_elements() -> Vec<&'static str> {
    vec![
        "2", "1", "2", "f1", "f2", "0", // the head
        "2", "0", "0", "a", "b", "5", // 1000-5
        "3", "1", "-5", "c", "d", "5", // 1001-0, deleted
        "0", "2", "-4", "1", "g", "h", "6", // 1002-1
    ]
}

/// A stream with one block and one group that has one pending entry and
/// two consumers, in the form `type_byte`.
fn stream_value(type_byte: u8) -> Vec<u8> {
    let mut v = count(1);
    v.extend(rdb_str(&raw_id(1000, 5)));
    v.extend(rdb_str(&listpack(&block_elements())));
    v.extend(count(2));
    v.extend(count(1002));
    v.extend(count(1));
    if type_byte != 15 {
        v.extend(count(1000));
        v.extend(count(5));
        v.extend(count(1001));
        v.extend(count(0));
        v.extend(count(3));
    }
    v.extend(count(1));
    v.extend(rdb_str(b"workers"));
    v.extend(count(1000));
    v.extend(count(5));
    if type_byte != 15 {
        v.extend(count(1));
    }
    v.extend(count(1));
    v.extend(raw_id(1000, 5));
    v.extend(1700000000000u64.to_le_bytes());
    v.extend(count(3));
    v.extend(count(2));
    for (name, pending) in [(&b"alice"[..], true), (&b"bob"[..], false)] {
        v.extend(rdb_str(name));
        v.extend(1700000000001u64.to_le_bytes());
        if type_byte == 21 {
            v.extend(1700000000002u64.to_le_bytes());
        }
        if pending {
            v.extend(count(1));
            v.extend(raw_id(1000, 5));
        } else {
            v.extend(count(0));
        }
    }
    v
}

fn expected_cmds() -> Vec<&'static str> {
    vec![
        "del S",
        "xadd S 1000-5 f1 a f2 b",
        "xadd S 1002-1 g h",
        "xsetid S 1002-1",
        "xgroup create S workers 1000-5",
        "xclaim S workers alice 0 1000-5 TIME 1700000000000 RETRYCOUNT 3 JUSTID FORCE",
    ]
}

#[test]
fn identifiers_are_written_with_a_hyphen() {
    assert_eq!(id_to_text(StreamId { ms: 0, seq: 0 }), b"0-0".to_vec());
    assert_eq!(id_to_text(StreamId { ms: 1700000000000, seq: 12 }), b"1700000000000-12".to_vec());
    assert_eq!(
        id_to_text(StreamId { ms: u64::MAX, seq: u64::MAX }),
        b"18446744073709551615-18446744073709551615".to_vec()
    );
}

#[test]
fn entries_of_a_block_become_append_commands() {
    let first = StreamId { ms: 1000, seq: 5 };
    let cmds = read_block(b"S", first, &texts(&block_elements())).unwrap();
    assert_eq!(shown(&cmds), vec!["xadd S 1000-5 f1 a f2 b", "xadd S 1002-1 g h"]);
    // a head without fields and without entries
    assert_eq!(shown(&read_block(b"S", first, &texts(&["0", "0", "0", "0"])).unwrap()), Vec::<String>::new());
    // an entry without fields
    let cmds = read_block(b"S", first, &texts(&["1", "0", "0", "0", "0", "7", "7", "0", "4"])).unwrap();
    assert_eq!(shown(&cmds), vec!["xadd S 1007-12"]);
    // identifiers at the ends of their range
    let top = StreamId { ms: u64::MAX - 1, seq: 0 };
    let cmds = read_block(b"S", top, &texts(&["1", "0", "0", "0", "0", "1", "0", "0", "4"])).unwrap();
    assert_eq!(shown(&cmds), vec!["xadd S 18446744073709551615-0"]);
}

#[test]
fn a_block_that_cannot_be_read_gives_nothing() {
    let first = StreamId { ms: 1000, seq: 5 };
    let bad: Vec<Vec<&str>> = vec![
        vec![],
        vec!["1", "0"],
        // a count of fields that is no number, negative, or more than there is
        vec!["1", "0", "x", "0"],
        vec!["1", "0", "-1", "0"],
        vec!["1", "0", "2", "f", "0"],
        // flags that are none
        vec!["1", "0", "0", "0", "4", "0", "0", "0", "4"],
        vec!["1", "0", "0", "0", "-1", "0", "0", "0", "4"],
        // an entry cut short
        vec!["1", "0", "0", "0", "0", "0"],
        vec!["1", "0", "1", "f", "0", "2", "0", "0", "v"],
        vec!["1", "0", "0", "0", "0", "0", "0", "1", "f", "v"],
        // a distance that is no number
        vec!["1", "0", "0", "0", "0", "x", "0", "0", "4"],
        // an identifier out of range
        vec!["1", "0", "0", "0", "0", "-1001", "0", "0", "4"],
        vec!["1", "0", "0", "0", "0", "0", "-6", "0", "4"],
    ];
    for items in bad {
        assert!(read_block(b"S", first, &texts(&items)).is_none(), "{:?}", items);
    }
    let top = StreamId { ms: u64::MAX, seq: 0 };
    assert!(read_block(b"S", top, &texts(&["1", "0", "0", "0", "0", "1", "0", "0", "4"])).is_none());
    // the same entries, deleted, are passed over but still read
    let cmds = read_block(b"S", first, &texts(&["1", "1", "0", "0", "1", "0", "0", "0", "4"])).unwrap();
    assert!(cmds.is_empty());
    assert!(read_block(b"S", first, &texts(&["1", "1", "0", "0", "1", "x", "0", "0", "4"])).is_none());
}

#[test]
fn a_stream_becomes_the_commands_that_build_it() {
    for type_byte in [15u8, 19, 21] {
        let value = stream_value(type_byte);
        let mut buf = vec![0xaau8; 3];
        buf.extend(&value);
        buf.extend([0xffu8; 9]);
        match read_stream(type_byte, b"S", &buf, 3) {
            CmdsResult::Done { cmds, len } => {
                assert_eq!(len, value.len(), "type {}", type_byte);
                assert_eq!(shown(&cmds), expected_cmds(), "type {}", type_byte);
            }
            other => panic!("type {} not read: {:?}", type_byte, other),
        }
        for cut in 0..value.len() {
            assert!(
                matches!(read_stream(type_byte, b"S", &buf[..3 + cut], 3), CmdsResult::Incomplete),
                "type {} cut at {}",
                type_byte,
                cut
            );
        }
    }
    assert_ne!(stream_value(15).len(), stream_value(19).len());
    assert_ne!(stream_value(19).len(), stream_value(21).len());
}

#[test]
fn a_stream_without_entries_is_made_to_exist() {
    // no block, no entry, last identifier 7-3, no group
    let value = [0u8, 0, 7, 3, 0];
    match read_stream(15, b"S", &value, 0) {
        CmdsResult::Done { cmds, len } => {
            assert_eq!(len, 5);
            assert_eq!(shown(&cmds), vec!["del S", "xadd S MAXLEN 0 0-1 x y", "xsetid S 7-3"]);
        }
        other => panic!("not read: {:?}", other),
    }
    // a block whose only entry was deleted
    let mut value = count(1);
    value.extend(rdb_str(&raw_id(5, 0)));
    value.extend(rdb_str(&listpack(&["0", "1", "0", "0", "1", "0", "0", "0", "4"])));
    value.extend([0u8, 5, 0, 0]);
    match read_stream(15, b"S", &value, 0) {
        CmdsResult::Done { cmds, .. } => {
            assert_eq!(shown(&cmds), vec!["del S", "xadd S MAXLEN 0 0-1 x y", "xsetid S 5-0"]);
        }
        other => panic!("not read: {:?}", other),
    }
    match read_stream(19, b"S", &[0u8, 0, 7, 3, 0, 0, 0, 0, 0, 0], 0) {
        CmdsResult::Done { cmds, len } => {
            assert_eq!(len, 10);
            assert_eq!(shown(&cmds).last().unwrap(), "xsetid S 7-3");
        }
        other => panic!("not read: {:?}", other),
    }
    assert!(matches!(read_stream(19, b"S", &[0u8, 0, 7, 3, 0], 0), CmdsResult::Incomplete));
}

#[test]
fn a_stream_that_cannot_be_read_is_invalid() {
    // a count in a special form
    assert!(matches!(read_stream(15, b"S", &[0xc0, 0, 0, 0, 0], 0), CmdsResult::Invalid));
    assert!(matches!(read_stream(15, b"S", &[0, 0, 0, 0, 0xc1], 0), CmdsResult::Invalid));
    // an identifier of a block that has not sixteen bytes
    let mut value = count(1);
    value.extend(rdb_str(&[0u8; 15]));
    value.extend(rdb_str(&listpack(&["0", "0", "0", "0"])));
    value.extend([0u8, 0, 0, 0]);
    assert!(matches!(read_stream(15, b"S", &value, 0), CmdsResult::Invalid));
    // elements that are no list pack, and a list pack that is no block
    let mut value = count(1);
    value.extend(rdb_str(&raw_id(1, 1)));
    value.extend(rdb_str(b"no list pack"));
    value.extend([0u8, 0, 0, 0]);
    assert!(matches!(read_stream(15, b"S", &value, 0), CmdsResult::Invalid));
    let mut value = count(1);
    value.extend(rdb_str(&raw_id(1, 1)));
    value.extend(rdb_str(&listpack(&["0", "0"])));
    value.extend([0u8, 0, 0, 0]);
    assert!(matches!(read_stream(15, b"S", &value, 0), CmdsResult::Invalid));
    // a consumer with an entry that is not pending with its group
    let mut value = vec![0u8, 0, 1, 1, 1];
    value.extend(rdb_str(b"g"));
    value.extend([1u8, 1]);
    value.push(1);
    value.extend(raw_id(1, 1));
    value.extend([0u8; 8]);
    value.push(1);
    value.push(1);
    value.extend(rdb_str(b"c"));
    value.extend([0u8; 8]);
    value.push(1);
    let mut good = value.clone();
    good.extend(raw_id(1, 1));
    value.extend(raw_id(1, 2));
    assert!(matches!(read_stream(15, b"S", &value, 0), CmdsResult::Invalid));
    match read_stream(15, b"S", &good, 0) {
        CmdsResult::Done { cmds, len } => {
            assert_eq!(len, good.len());
            assert_eq!(
                shown(&cmds),
                vec![
                    "del S",
                    "xadd S MAXLEN 0 0-1 x y",
                    "xsetid S 1-1",
                    "xgroup create S g 1-1",
                    "xclaim S g c 0 1-1 TIME 0 RETRYCOUNT 1 JUSTID FORCE",
                ]
            );
        }
        other => panic!("not read: {:?}", other),
    }
}

#[test]
fn streams_of_a_snapshot_are_rewritten_or_restored() {
    let mut f = Vec::new();
    for type_byte in [15u8, 19, 21] {
        f.push(type_byte);
        f.extend(rdb_str(b"S"));
        f.extend(stream_value(type_byte));
    }
    f.push(0xff);
    f.extend([0u8; 8]);

    let mut loader = RdbLoader::new();
    let mut entries = Vec::new();
    let mut pos = 0;
    while pos < f.len() {
        match RdbParser::read_item(&f, pos) {
            ItemResult::Done { item, len } => {
                pos += len;
                if let RdbItem::Object { type_byte, raw, .. } = &item {
                    assert_eq!(raw, &stream_value(*type_byte));
                }
                if let Some(e) = loader.on_item(item).unwrap() {
                    entries.push(e);
                }
            }
            other => panic!("record at {} not read: {:?}", pos, other),
        }
    }
    assert!(loader.finished);
    assert_eq!(entries.len(), 3);
    let version = RedisVersion { major: 7, minor: 0 };
    for e in &entries {
        match &e.value {
            RedisObject::Stream(s) => {
                assert_eq!(s.key, b"S".to_vec());
                assert_eq!(shown(&s.cmds), expected_cmds());
            }
            other => panic!("not a stream: {:?}", other),
        }
        let mut rewrite = RedisSinker { batch_size: 1, now_db_id: 0, version, method: RedisWriteMethod::Rewrite };
        let cmds = rewrite.rewrite_entry(&mut DtData::Redis { entry: e.clone() }).unwrap();
        assert_eq!(shown(&cmds), expected_cmds());
        let mut restore = RedisSinker { batch_size: 1, now_db_id: 0, version, method: RedisWriteMethod::Restore };
        let cmds = restore.rewrite_entry(&mut DtData::Redis { entry: e.clone() }).unwrap();
        assert_eq!(cmds.len(), 1);
        assert_eq!(cmds[0].args, EntryRewriter::rewrite_as_restore(e, version).args);
        assert_eq!(cmds[0].args[3], EntryRewriter::create_value_dump(e.value_type_byte, &e.raw_bytes));
    }
}
