use ape_dts::meta::col_value::{ColMap, ColValue};
use ape_dts::meta::ddl_data::DdlData;
use ape_dts::meta::dt_data::{DtData, DtItem};
use ape_dts::meta::position::Position;
use ape_dts::meta::redis::redis_entry::RedisEntry;
use ape_dts::meta::row_data::RowData;

fn sample_row(data_size: usize) -> RowData {
    let mut after = ColMap::new();
    after.insert("id".to_string(), ColValue::Long(1));
    RowData::new_insert("db".to_string(), "tb".to_string(), after, data_size)
}

#[test]
fn kinds_are_told_apart() {
    let begin = DtData::Begin {};
    let commit = DtData::Commit { xid: "42".to_string() };
    let ddl = DtData::Ddl {
        ddl_data: DdlData { schema: "db".to_string(), query: "create table t(id int)".to_string(), meta: None },
    };
    let dml = DtData::Dml { row_data: sample_row(10) };
    assert!(begin.is_begin() && !begin.is_commit() && !begin.is_ddl());
    assert!(commit.is_commit() && !commit.is_begin() && !commit.is_ddl());
    assert!(ddl.is_ddl() && !ddl.is_begin() && !ddl.is_commit());
    assert!(!dml.is_ddl() && !dml.is_begin() && !dml.is_commit());
}

#[test]
fn data_size_of_each_kind() {
    let mut entry = RedisEntry::new();
    entry.data_size = 77;
    assert_eq!(DtData::Dml { row_data: sample_row(10) }.get_data_size(), 10);
    assert_eq!(DtData::Redis { entry }.get_data_size(), 77);
    assert_eq!(DtData::Begin {}.get_data_size(), 0);
    assert_eq!(DtData::Commit { xid: "1".to_string() }.get_data_size(), 0);
}

#[test]
fn item_is_ddl_follows_its_data() {
    let item = DtItem {
        dt_data: DtData::Ddl {
            ddl_data: DdlData { schema: "db".to_string(), query: "drop table t".to_string(), meta: None },
        },
        position: Position::Unset,
        data_origin_node: "node1".to_string(),
    };
    assert!(item.is_ddl());
    let item = DtItem { dt_data: DtData::Begin {}, position: Position::Unset, data_origin_node: String::new() };
    assert!(!item.is_ddl());
}
