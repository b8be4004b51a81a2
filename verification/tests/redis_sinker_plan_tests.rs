use ape_dts::error::Error;
use ape_dts::meta::col_value::{ColMap, ColValue};
use ape_dts::meta::dt_data::DtData;
use ape_dts::meta::rdb_meta_manager::RdbMetaManager;
use ape_dts::meta::rdb_tb_meta::RdbTbMeta;
use ape_dts::meta::redis::redis_entry::RedisEntry;
use ape_dts::meta::redis::redis_object::{RedisCmd, RedisObject, StringObject};
use ape_dts::meta::redis::redis_write_method::RedisWriteMethod;
use ape_dts::meta::row_data::RowData;
use ape_dts::sinker::redis::cmd_encoder::CmdEncoder;
use ape_dts::sinker::redis::entry_rewriter::RedisVersion;
use ape_dts::sinker::redis::redis_sinker::RedisSinker;

fn sinker(batch_size: usize) -> RedisSinker {
    RedisSinker {
        batch_size,
        now_db_id: 0,
        version: RedisVersion { major: 7, minor: 0 },
        method: RedisWriteMethod::Rewrite,
    }
}

fn string_entry(db_id: i64, key: &str, value: &str) -> DtData {
    let mut entry = RedisEntry::new();
    entry.db_id = db_id;
    entry.key = key.as_bytes().to_vec();
    entry.value = RedisObject::String(StringObject { key: key.as_bytes().to_vec(), value: value.as_bytes().to_vec() });
    DtData::Redis { entry }
}

fn wire(cmds: &[&[&str]]) -> Vec<u8> {
    let mut out = Vec::new();
    for c in cmds {
        out.extend(CmdEncoder::encode(&RedisCmd::from_str_args(c)));
    }
    out
}

#[test]
fn raw_records_go_out_chunk_by_chunk() {
    let mut data = vec![
        string_entry(0, "a", "1"),
        string_entry(1, "b", "2"),
        DtData::Begin {},
        string_entry(1, "c", "3"),
        string_entry(2, "d", "4"),
    ];
    let mut s = sinker(2);
    let requests = s.sink_raw(&mut data).unwrap();
    assert_eq!(s.now_db_id, 2);
    let shown: Vec<(Vec<u8>, usize)> = requests.iter().map(|r| (r.bytes.clone(), r.replies)).collect();
    assert_eq!(
        shown,
        vec![
            (wire(&[&["set", "a", "1"], &["SELECT", "1"], &["set", "b", "2"]]), 3),
            (wire(&[&["set", "c", "3"]]), 1),
            (wire(&[&["SELECT", "2"], &["set", "d", "4"]]), 2),
        ]
    );
}

#[test]
fn raw_records_go_out_command_by_command() {
    let mut data = vec![string_entry(0, "a", "1"), string_entry(1, "b", "2")];
    for batch_size in [0usize, 1] {
        let mut s = sinker(batch_size);
        let requests = s.sink_raw(&mut data).unwrap();
        let shown: Vec<(Vec<u8>, usize)> = requests.iter().map(|r| (r.bytes.clone(), r.replies)).collect();
        assert_eq!(
            shown,
            vec![
                (wire(&[&["set", "a", "1"]]), 1),
                (wire(&[&["SELECT", "1"]]), 1),
                (wire(&[&["set", "b", "2"]]), 1),
            ]
        );
        assert_eq!(s.now_db_id, 1);
    }
}

#[test]
fn a_record_that_cannot_be_written_gives_no_request() {
    let mut data = vec![string_entry(3, "a", "1"), string_entry(4, "b", "2"), DtData::Redis { entry: RedisEntry::new() }];
    for batch_size in [1usize, 2, 5] {
        let mut s = sinker(batch_size);
        assert_eq!(s.sink_raw(&mut data).err(), Some(Error::RewriteNotImplemented));
        assert_eq!(s.now_db_id, 0);
    }
    let mut s = sinker(2);
    assert!(s.sink_raw(&mut Vec::new()).unwrap().is_empty());
    assert!(s.sink_raw(&mut vec![DtData::Begin {}, DtData::Begin {}, DtData::Begin {}]).unwrap().is_empty());
}

fn row(tb: &str, id: i32) -> RowData {
    let mut m = ColMap::new();
    m.insert("id".to_string(), ColValue::Long(id));
    RowData::new_insert("db".to_string(), tb.to_string(), m, 1)
}

fn metas() -> RdbMetaManager {
    let mut m = RdbMetaManager::new();
    m.put(RdbTbMeta {
        schema: "db".to_string(),
        tb: "keyed".to_string(),
        cols: vec!["id".to_string()],
        id_cols: vec!["id".to_string()],
        order_col: Some("id".to_string()),
    });
    m.put(RdbTbMeta {
        schema: "db".to_string(),
        tb: "keyless".to_string(),
        cols: vec!["id".to_string()],
        id_cols: vec![],
        order_col: None,
    });
    m
}

#[test]
fn rows_go_out_by_the_key_column_of_their_table() {
    let data = vec![row("keyed", 1), row("keyless", 2), row("keyed", 3), row("keyed", 4), row("keyed", 5)];
    let requests = sinker(2).sink_dml(&data, &metas()).unwrap();
    let shown: Vec<(Vec<u8>, usize)> = requests.iter().map(|r| (r.bytes.clone(), r.replies)).collect();
    assert_eq!(
        shown,
        vec![
            (wire(&[&["hset", "db.keyed.1", "id", "1"]]), 1),
            (wire(&[&["hset", "db.keyed.3", "id", "3"], &["hset", "db.keyed.4", "id", "4"]]), 2),
            (wire(&[&["hset", "db.keyed.5", "id", "5"]]), 1),
        ]
    );
    let requests = sinker(1).sink_dml(&data, &metas()).unwrap();
    assert_eq!(requests.len(), 4);
    assert!(requests.iter().all(|r| r.replies == 1));
    let requests = sinker(100).sink_dml(&data, &metas()).unwrap();
    assert_eq!(requests.len(), 1);
    assert_eq!(requests[0].replies, 4);
    assert!(sinker(2).sink_dml(&Vec::new(), &metas()).unwrap().is_empty());
    assert!(sinker(2).sink_dml(&vec![row("keyless", 1), row("keyless", 2)], &metas()).unwrap().is_empty());
}

#[test]
fn rows_of_a_table_without_metadata_give_no_request() {
    let data = vec![row("keyed", 1), row("unknown", 2), row("keyed", 3)];
    assert_eq!(sinker(2).sink_dml(&data, &metas()).err(), Some(Error::TableMetaMissing));
    assert_eq!(sinker(1).sink_dml(&data, &RdbMetaManager::new()).err(), Some(Error::TableMetaMissing));
}
