use ape_dts::error::Error;
use ape_dts::meta::col_value::{ColMap, ColValue, MongoDoc};
use ape_dts::meta::rdb_meta_manager::RdbMetaManager;
use ape_dts::meta::rdb_tb_meta::RdbTbMeta;
use ape_dts::meta::row_data::RowData;
use ape_dts::meta::row_type::RowType;
use ape_dts::rdb_router::{RdbRouter, TbRoute};
use ape_dts::sinker::base_checker::{BaseChecker, CheckResult};
use ape_dts::sinker::base_sinker::{ChunkRange, SinkAction};
use ape_dts::sinker::mongo::mongo_sinker::{MongoSinker, MongoWrite};
use ape_dts::sinker::mysql::mysql_checker::MysqlChecker;
use ape_dts::sinker::pg::pg_checker::PgChecker;
use ape_dts::sinker::pg::pg_sinker::PgSinker;
use ape_dts::sinker::sql_sinker::SqlSinker;

fn image(id: i32, v: &str) -> ColMap {
    let mut m = ColMap::new();
    m.insert("id".to_string(), ColValue::Long(id));
    m.insert("v".to_string(), ColValue::String(v.to_string()));
    m
}

fn insert(id: i32, v: &str) -> RowData {
    RowData::new_insert("s".to_string(), "t".to_string(), image(id, v), 1)
}

fn tb_meta() -> RdbTbMeta {
    RdbTbMeta {
        schema: "s".to_string(),
        tb: "t".to_string(),
        cols: vec!["id".to_string(), "v".to_string()],
        id_cols: vec!["id".to_string()],
        order_col: Some("id".to_string()),
    }
}

fn doc_image(name: &str, id: u8, raw: &[u8]) -> ColMap {
    let mut m = ColMap::new();
    m.insert(name.to_string(), ColValue::MongoDoc(MongoDoc { id: vec![id], raw: raw.to_vec() }));
    m
}

#[test]
fn pg_sinker_starts_the_policy() {
    let sinker = PgSinker { meta_manager: RdbMetaManager::new(), router: RdbRouter::new(), batch_size: 2 };
    let rows = vec![insert(1, "a"), insert(2, "b"), insert(3, "c")];
    let (machine, first) = sinker.batch_sink(&rows);
    assert_eq!(first, SinkAction::BulkUpsert { start: 0, len: 2 });
    assert_eq!(machine.batch_size, 2);
    let (machine, first) = sinker.sink(&rows);
    assert_eq!(first, SinkAction::Upsert { index: 0 });
    assert!(machine.serial);
    let (_, first) = sinker.batch_sink(&Vec::new());
    assert_eq!(first, SinkAction::Finished);
    let (_, first) = sinker.sink(&Vec::new());
    assert_eq!(first, SinkAction::Finished);
}

#[test]
fn pg_sinker_finds_metadata_of_the_routed_table() {
    let mut meta_manager = RdbMetaManager::new();
    let mut dst = tb_meta();
    dst.schema = "s2".to_string();
    meta_manager.put(dst);
    let router = RdbRouter {
        db_map: vec![],
        tb_map: vec![TbRoute {
            src_db: "s".to_string(),
            src_tb: "t".to_string(),
            dst_db: "s2".to_string(),
            dst_tb: "t".to_string(),
        }],
    };
    let sinker = PgSinker { meta_manager, router, batch_size: 1 };
    assert_eq!(sinker.get_tb_meta(&insert(1, "a")).unwrap().schema, "s2");
    let other = RowData::new_insert("s".to_string(), "other".to_string(), image(1, "a"), 1);
    assert!(sinker.get_tb_meta(&other).is_none());
}

#[test]
fn insert_becomes_an_upsert() {
    let row = insert(7, "x");
    let after = row.after.as_ref().unwrap();
    let sql = "INSERT INTO s.t(id,v) VALUES($1,$2)".to_string();
    let cols = vec!["id".to_string(), "v".to_string()];
    let binds = vec![after.get("id"), after.get("v")];
    let (sql, cols, binds) = PgSinker::get_insert_query(sql, cols, binds, &tb_meta(), &row).unwrap();
    assert_eq!(sql, "INSERT INTO s.t(id,v) VALUES($1,$2) ON CONFLICT (id) DO UPDATE SET id=$3,v=$4");
    assert_eq!(cols, vec!["id", "v", "id", "v"]);
    assert_eq!(binds.len(), 4);
    assert!(binds[2].unwrap().equals(&ColValue::Long(7)));
    assert!(binds[3].unwrap().equals(&ColValue::String("x".to_string())));
}

#[test]
fn upsert_with_several_identity_columns_and_missing_values() {
    let mut meta = tb_meta();
    meta.cols = vec!["id".to_string(), "v".to_string(), "w".to_string()];
    meta.id_cols = vec!["id".to_string(), "v".to_string()];
    let row = insert(7, "x");
    let (sql, cols, binds) =
        PgSinker::get_insert_query("INSERT".to_string(), Vec::new(), Vec::new(), &meta, &row).unwrap();
    assert_eq!(sql, "INSERT ON CONFLICT (id,v) DO UPDATE SET id=$1,v=$2,w=$3");
    assert_eq!(cols, vec!["id", "v", "w"]);
    assert!(binds[0].is_some() && binds[1].is_some() && binds[2].is_none());
    let twelve: Vec<String> = (0..12).map(|i| format!("c{}", i)).collect();
    meta.cols = vec!["z".to_string()];
    meta.id_cols = vec![];
    let (sql, _, _) = PgSinker::get_insert_query("I".to_string(), twelve, Vec::new(), &meta, &row).unwrap();
    assert_eq!(sql, "I ON CONFLICT () DO UPDATE SET z=$13");
}

#[test]
fn upsert_of_a_row_without_image_is_an_error() {
    let mut row = insert(7, "x");
    row.after = None;
    let r = PgSinker::get_insert_query("I".to_string(), Vec::new(), Vec::new(), &tb_meta(), &row);
    assert_eq!(r.err(), Some(Error::MissingRowImage));
}

#[test]
fn mongo_sinker_starts_the_policy() {
    let sinker = MongoSinker { router: RdbRouter::new(), batch_size: 2 };
    let rows = vec![insert(1, "a"), insert(2, "b"), insert(3, "c")];
    let (_, first) = sinker.sink_dml(&rows, true);
    assert_eq!(first, SinkAction::BulkUpsert { start: 0, len: 2 });
    let (_, first) = sinker.sink_dml(&rows, false);
    assert_eq!(first, SinkAction::Upsert { index: 0 });
    let (_, first) = sinker.sink_dml(&Vec::new(), true);
    assert_eq!(first, SinkAction::Finished);
}

#[test]
fn mongo_writes_follow_the_kind_of_change() {
    let ins = RowData::new_insert("db".to_string(), "c".to_string(), doc_image("doc", 1, b"new"), 1);
    match MongoSinker::serial_sink(&ins) {
        MongoWrite::Upsert { id, update, as_set } => {
            assert_eq!((id, update, as_set), (vec![1u8], b"new".to_vec(), true));
        }
        other => panic!("unexpected {:?}", other),
    }
    let del = RowData::new_delete("db".to_string(), "c".to_string(), doc_image("doc", 2, b"old"), 1);
    match MongoSinker::serial_sink(&del) {
        MongoWrite::DeleteOne { id } => assert_eq!(id, vec![2u8]),
        other => panic!("unexpected {:?}", other),
    }
    let upd = RowData::new_update(
        "db".to_string(),
        "c".to_string(),
        doc_image("doc", 3, b"old"),
        doc_image("doc", 4, b"new"),
        1,
    );
    match MongoSinker::serial_sink(&upd) {
        MongoWrite::Upsert { id, update, as_set } => {
            assert_eq!((id, update, as_set), (vec![3u8], b"new".to_vec(), false));
        }
        other => panic!("unexpected {:?}", other),
    }
    let diff = RowData::new_update(
        "db".to_string(),
        "c".to_string(),
        doc_image("doc", 3, b"old"),
        doc_image("diff_doc", 0, b"changes"),
        1,
    );
    match MongoSinker::serial_sink(&diff) {
        MongoWrite::Upsert { id, update, as_set } => {
            assert_eq!((id, update, as_set), (vec![3u8], b"changes".to_vec(), false));
        }
        other => panic!("unexpected {:?}", other),
    }
}

#[test]
fn mongo_rows_without_documents_ask_nothing() {
    assert!(matches!(MongoSinker::serial_sink(&insert(1, "a")), MongoWrite::Skip));
    let del = RowData::new_delete("db".to_string(), "c".to_string(), image(1, "a"), 1);
    assert!(matches!(MongoSinker::serial_sink(&del), MongoWrite::Skip));
    let upd = RowData::new_update("db".to_string(), "c".to_string(), image(1, "a"), doc_image("doc", 1, b"n"), 1);
    assert!(matches!(MongoSinker::serial_sink(&upd), MongoWrite::Skip));
    let upd = RowData::new_update("db".to_string(), "c".to_string(), doc_image("doc", 1, b"o"), image(1, "a"), 1);
    assert!(matches!(MongoSinker::serial_sink(&upd), MongoWrite::Skip));
    let mut wrong = ColMap::new();
    wrong.insert("doc".to_string(), ColValue::String("text".to_string()));
    let ins = RowData::new_insert("db".to_string(), "c".to_string(), wrong, 1);
    assert!(matches!(MongoSinker::serial_sink(&ins), MongoWrite::Skip));
    let broken = RowData {
        schema: "db".to_string(),
        tb: "c".to_string(),
        row_type: RowType::Insert,
        before: None,
        after: None,
        data_size: 0,
    };
    assert!(matches!(MongoSinker::serial_sink(&broken), MongoWrite::Skip));
}

#[test]
fn mongo_bulk_operations_collect_documents() {
    let inserts = vec![
        RowData::new_insert("db".to_string(), "c".to_string(), doc_image("doc", 1, b"one"), 1),
        insert(9, "no document"),
        RowData::new_insert("db".to_string(), "c".to_string(), doc_image("doc", 2, b"two"), 1),
        RowData::new_insert("db".to_string(), "c".to_string(), doc_image("doc", 3, b"three"), 1),
    ];
    assert_eq!(MongoSinker::batch_insert(&inserts, 0, 3), vec![b"one".to_vec(), b"two".to_vec()]);
    assert_eq!(MongoSinker::batch_insert(&inserts, 3, 3), vec![b"three".to_vec()]);
    assert_eq!(MongoSinker::batch_insert(&inserts, 4, 3), Vec::<Vec<u8>>::new());
    assert_eq!(MongoSinker::batch_insert(&inserts, 1, 1), Vec::<Vec<u8>>::new());
    let deletes = vec![
        RowData::new_delete("db".to_string(), "c".to_string(), doc_image("doc", 1, b"one"), 1),
        RowData::new_delete("db".to_string(), "c".to_string(), doc_image("doc", 2, b"two"), 1),
    ];
    assert_eq!(MongoSinker::batch_delete(&deletes, 0, 5), vec![vec![1u8], vec![2u8]]);
    assert_eq!(MongoSinker::batch_delete(&deletes, 1, 5), vec![vec![2u8]]);
    assert_eq!(MongoSinker::batch_delete(&inserts, 0, 5), Vec::<Vec<u8>>::new());
}

fn names(r: &CheckResult) -> Vec<String> {
    match r {
        CheckResult::Diff(cols) => cols.clone(),
        CheckResult::Same => vec!["<same>".to_string()],
        CheckResult::Miss => vec!["<miss>".to_string()],
    }
}

#[test]
fn rows_are_compared_column_by_column() {
    assert!(BaseChecker::compare_row_data(&insert(1, "a"), &insert(1, "a")).is_empty());
    assert_eq!(BaseChecker::compare_row_data(&insert(1, "a"), &insert(1, "b")), vec!["v"]);
    assert_eq!(BaseChecker::compare_row_data(&insert(1, "a"), &insert(2, "b")), vec!["id", "v"]);
    let mut fewer = ColMap::new();
    fewer.insert("id".to_string(), ColValue::Long(1));
    let dst = RowData::new_insert("s".to_string(), "t".to_string(), fewer.clone(), 1);
    assert_eq!(BaseChecker::compare_row_data(&insert(1, "a"), &dst), vec!["v"]);
    // columns that only the destination has are not looked at
    assert!(BaseChecker::compare_row_data(&dst, &insert(1, "a")).is_empty());
    let mut other_type = ColMap::new();
    other_type.insert("id".to_string(), ColValue::LongLong(1));
    other_type.insert("v".to_string(), ColValue::String("a".to_string()));
    let dst = RowData::new_insert("s".to_string(), "t".to_string(), other_type, 1);
    assert_eq!(BaseChecker::compare_row_data(&insert(1, "a"), &dst), vec!["id"]);
    let gone = RowData::new_delete("s".to_string(), "t".to_string(), image(1, "a"), 1);
    assert_eq!(BaseChecker::compare_row_data(&insert(1, "a"), &gone), vec!["id", "v"]);
    assert!(BaseChecker::compare_row_data(&gone, &insert(1, "a")).is_empty());
}

#[test]
fn a_row_is_same_different_or_missing() {
    assert_eq!(names(&BaseChecker::check_row(&insert(1, "a"), None)), vec!["<miss>"]);
    assert_eq!(names(&BaseChecker::check_row(&insert(1, "a"), Some(&insert(1, "a")))), vec!["<same>"]);
    assert_eq!(names(&BaseChecker::check_row(&insert(1, "a"), Some(&insert(1, "b")))), vec!["v"]);
    assert_eq!(names(&MysqlChecker::serial_check(&insert(1, "a"), None)), vec!["<miss>"]);
    assert_eq!(names(&PgChecker::serial_check(&insert(1, "a"), Some(&insert(1, "z")))), vec!["v"]);
}

#[test]
fn rows_are_found_by_their_identity() {
    let ids = vec!["id".to_string()];
    assert!(BaseChecker::is_same_row(&insert(1, "a"), &insert(1, "b"), &ids));
    assert!(!BaseChecker::is_same_row(&insert(1, "a"), &insert(2, "a"), &ids));
    assert!(BaseChecker::is_same_row(&insert(1, "a"), &insert(2, "a"), &Vec::new()));
    let both = vec!["id".to_string(), "v".to_string()];
    assert!(!BaseChecker::is_same_row(&insert(1, "a"), &insert(1, "b"), &both));
    let missing = vec!["nope".to_string()];
    assert!(BaseChecker::is_same_row(&insert(1, "a"), &insert(2, "b"), &missing));
    let gone = RowData::new_delete("s".to_string(), "t".to_string(), image(1, "a"), 1);
    assert!(!BaseChecker::is_same_row(&insert(1, "a"), &gone, &ids));
}

#[test]
fn a_chunk_is_checked_against_what_the_destination_gave() {
    let data = vec![insert(1, "a"), insert(2, "b"), insert(3, "c"), insert(4, "d")];
    let dst = vec![insert(3, "c"), insert(1, "changed"), insert(9, "other")];
    let results = BaseChecker::batch_compare_row_datas(&data, &dst, &vec!["id".to_string()], 0, 3);
    let shown: Vec<Vec<String>> = results.iter().map(names).collect();
    assert_eq!(shown, vec![vec!["v".to_string()], vec!["<miss>".to_string()], vec!["<same>".to_string()]]);
    let results = MysqlChecker::batch_check(&data, 3, 3, &dst, &tb_meta());
    assert_eq!(results.iter().map(names).collect::<Vec<_>>(), vec![vec!["<miss>".to_string()]]);
    let results = PgChecker::batch_check(&data, 2, 1, &dst, &tb_meta());
    assert_eq!(results.iter().map(names).collect::<Vec<_>>(), vec![vec!["<same>".to_string()]]);
    assert!(PgChecker::batch_check(&data, 7, 1, &dst, &tb_meta()).is_empty());
}

#[test]
fn checkers_ask_row_by_row_or_chunk_by_chunk() {
    let data = vec![insert(1, "a"), insert(2, "b"), insert(3, "c")];
    let mysql = MysqlChecker { meta_manager: RdbMetaManager::new(), router: RdbRouter::new(), batch_size: 2 };
    assert_eq!(mysql.sink_dml(&data, true), vec![ChunkRange { start: 0, len: 2 }, ChunkRange { start: 2, len: 1 }]);
    assert_eq!(
        mysql.sink_dml(&data, false),
        vec![ChunkRange { start: 0, len: 1 }, ChunkRange { start: 1, len: 1 }, ChunkRange { start: 2, len: 1 }]
    );
    assert!(mysql.sink_dml(&Vec::new(), true).is_empty());
    assert!(mysql.get_tb_meta(&data[0]).is_none());
    let pg = PgChecker {
        meta_manager: RdbMetaManager::new(),
        extractor_meta_manager: RdbMetaManager::new(),
        reverse_router: RdbRouter {
            db_map: vec![],
            tb_map: vec![TbRoute {
                src_db: "s".to_string(),
                src_tb: "t".to_string(),
                dst_db: "source".to_string(),
                dst_tb: "table".to_string(),
            }],
        },
        batch_size: 0,
    };
    assert_eq!(pg.sink_dml(&data, true).len(), 3);
    assert_eq!(pg.report_table(&data[0]), ("source".to_string(), "table".to_string()));
}

#[test]
fn sql_sinker_gives_the_rows_to_log() {
    let data = vec![insert(1, "a"), RowData::new_delete("s".to_string(), "t".to_string(), image(2, "b"), 1)];
    let plain = SqlSinker { meta_manager: RdbMetaManager::new(), router: RdbRouter::new(), reverse: false };
    let rows = plain.sink_dml(data.clone(), false);
    assert_eq!(rows.iter().map(|r| r.row_type).collect::<Vec<_>>(), vec![RowType::Insert, RowType::Delete]);
    let undo = SqlSinker { meta_manager: RdbMetaManager::new(), router: RdbRouter::new(), reverse: true };
    let rows = undo.sink_dml(data, true);
    assert_eq!(rows.iter().map(|r| r.row_type).collect::<Vec<_>>(), vec![RowType::Delete, RowType::Insert]);
    assert!(rows[0].before.as_ref().unwrap().get("id").unwrap().equals(&ColValue::Long(1)));
    assert!(rows[1].after.as_ref().unwrap().get("id").unwrap().equals(&ColValue::Long(2)));
    assert!(undo.sink_dml(Vec::new(), true).is_empty());
}
