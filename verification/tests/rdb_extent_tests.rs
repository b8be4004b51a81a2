use ape_dts::extractor::redis::rdb::rdb_extent::{skip_field, skip_fields, skip_module, ExtentResult, Field};
use ape_dts::extractor::redis::rdb::rdb_loader::RdbLoader;
use ape_dts::extractor::redis::rdb::rdb_parser::{ItemResult, RdbParser};
use ape_dts::meta::dt_data::DtData;
use ape_dts::meta::redis::redis_object::RedisObject;
use ape_dts::meta::redis::redis_write_method::RedisWriteMethod;
use ape_dts::sinker::redis::entry_rewriter::{EntryRewriter, RedisVersion};
use ape_dts::sinker::redis::redis_sinker::RedisSinker;

fn module_value() -> Vec<u8> {
    let mut v = vec![0x81u8];
    v.extend(0x1122334455667788u64.to_be_bytes());
    v.extend([2, 0x2a]);
    v.extend([5, 4, b't', b'e', b'x', b't']);
    v.push(3);
    v.extend([0u8; 4]);
    v.push(4);
    v.extend([0u8; 8]);
    v.extend([1, 0x80, 0, 0, 1, 0]);
    v.push(0);
    v
}

#[test]
fn pieces_reach_as_far_as_they_are_written() {
    let buf = [0xaa, 0x40, 0x02, 3, b'a', b'b', b'c', 9, 9, 9, 9];
    assert_eq!(skip_field(&buf, 1, Field::Count), ExtentResult::Done { len: 2 });
    assert_eq!(skip_field(&buf, 3, Field::Str), ExtentResult::Done { len: 4 });
    assert_eq!(skip_field(&buf, 7, Field::Bytes(4)), ExtentResult::Done { len: 4 });
    assert_eq!(skip_field(&buf, 7, Field::Bytes(5)), ExtentResult::Incomplete);
    assert_eq!(skip_field(&buf, 11, Field::Bytes(0)), ExtentResult::Done { len: 0 });
    assert_eq!(skip_field(&[0xc0, 1], 0, Field::Count), ExtentResult::Invalid);
    assert_eq!(skip_field(&[0xc0, 1], 0, Field::Str), ExtentResult::Done { len: 2 });
    let fields = vec![Field::Count, Field::Str, Field::Bytes(4)];
    assert_eq!(skip_fields(&buf, 1, &fields), ExtentResult::Done { len: 10 });
    assert_eq!(skip_fields(&buf[..10], 1, &fields), ExtentResult::Incomplete);
    assert_eq!(skip_fields(&buf, 1, &vec![]), ExtentResult::Done { len: 0 });
    assert_eq!(skip_fields(&buf, 1, &vec![Field::Count, Field::Count, Field::Str]), ExtentResult::Incomplete);
}

#[test]
fn a_module_value_reaches_to_its_end_mark() {
    let value = module_value();
    assert_eq!(value.len(), 38);
    let mut buf = vec![0u8; 2];
    buf.extend(&value);
    buf.extend([1u8, 2, 3]);
    assert_eq!(skip_module(&buf, 2), ExtentResult::Done { len: 38 });
    for cut in 0..value.len() {
        assert_eq!(skip_module(&buf[..2 + cut], 2), ExtentResult::Incomplete, "cut at {}", cut);
    }
    assert_eq!(skip_module(&[1, 0], 0), ExtentResult::Done { len: 2 });
    assert_eq!(skip_module(&[1, 6, 0], 0), ExtentResult::Invalid);
    assert_eq!(skip_module(&[1, 0xc0, 0], 0), ExtentResult::Invalid);
}

#[test]
fn a_module_value_is_kept_as_written() {
    let mut f = vec![7u8, 1, b'm'];
    f.extend(module_value());
    f.push(0xff);
    f.extend([0u8; 8]);
    let mut loader = RdbLoader::new();
    let (item, len) = match RdbParser::read_item(&f, 0) {
        ItemResult::Done { item, len } => (item, len),
        other => panic!("not read: {:?}", other),
    };
    assert_eq!(len, 3 + 38);
    let entry = loader.on_item(item).unwrap().unwrap();
    assert_eq!(entry.raw_bytes, module_value());
    match &entry.value {
        RedisObject::Module(m) => assert_eq!(m.key, b"m".to_vec()),
        other => panic!("not a module value: {:?}", other),
    }
    let version = RedisVersion { major: 7, minor: 0 };
    for method in [RedisWriteMethod::Rewrite, RedisWriteMethod::Restore] {
        let mut sinker = RedisSinker { batch_size: 1, now_db_id: 0, version, method };
        let cmds = sinker.rewrite_entry(&mut DtData::Redis { entry: entry.clone() }).unwrap();
        assert_eq!(cmds.len(), 1);
        assert_eq!(cmds[0].args, EntryRewriter::rewrite_as_restore(&entry, version).args);
        assert_eq!(cmds[0].args[0], b"restore".to_vec());
        assert_eq!(cmds[0].args[3], EntryRewriter::create_value_dump(7, &entry.raw_bytes));
    }
}
