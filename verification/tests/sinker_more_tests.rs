use ape_dts::meta::col_value::{ColMap, ColValue};
use ape_dts::meta::rdb_meta_manager::RdbMetaManager;
use ape_dts::meta::rdb_tb_meta::RdbTbMeta;
use ape_dts::meta::row_data::RowData;
use ape_dts::rdb_router::RdbRouter;
use ape_dts::sinker::base_sinker::{chunk_load, ChunkLoad};
use ape_dts::sinker::pg::pg_sinker::PgSinker;
use ape_dts::sinker::rdb_query_builder::Dialect;
use ape_dts::sinker::sql_sinker::SqlSinker;

#[test]
fn a_bulk_insert_is_made_a_bulk_upsert() {
    let meta = RdbTbMeta::of_catalog(
        "s".to_string(),
        "t".to_string(),
        vec!["id".to_string(), "name".to_string()],
        vec!["id".to_string()],
    );
    let sql = PgSinker::get_batch_insert_query(
        "INSERT INTO s.t(id,name) VALUES($1,$2),($3,$4)".to_string(),
        &meta,
    );
    assert_eq!(
        sql,
        "INSERT INTO s.t(id,name) VALUES($1,$2),($3,$4) ON CONFLICT (id) DO UPDATE SET id=EXCLUDED.id,name=EXCLUDED.name"
    );
}

#[test]
fn metadata_of_the_catalog_names_identity_and_order_columns() {
    let cols = vec!["a".to_string(), "b".to_string()];
    let one = RdbTbMeta::of_catalog("s".into(), "t".into(), cols.clone(), vec!["b".to_string()]);
    assert_eq!((one.schema.as_str(), one.tb.as_str()), ("s", "t"));
    assert_eq!(one.cols, cols);
    assert_eq!(one.id_cols, vec!["b".to_string()]);
    assert_eq!(one.order_col, Some("b".to_string()));
    let two = RdbTbMeta::of_catalog("s".into(), "t".into(), cols.clone(), cols.clone());
    assert_eq!(two.id_cols, cols);
    assert_eq!(two.order_col, None);
    let none = RdbTbMeta::of_catalog("s".into(), "t".into(), cols.clone(), vec![]);
    assert_eq!(none.id_cols, cols);
    assert_eq!(none.order_col, None);
    let single = RdbTbMeta::of_catalog("s".into(), "t".into(), vec!["x".to_string()], vec![]);
    assert_eq!(single.id_cols, vec!["x".to_string()]);
    assert_eq!(single.order_col, Some("x".to_string()));
}

#[test]
fn a_chunk_adds_its_rows_and_their_sizes_to_the_throughput() {
    let row = |size: usize| RowData::new_insert("s".to_string(), "t".to_string(), ColMap::new(), size);
    let data = vec![row(10), row(20), row(30), row(40), row(5)];
    assert_eq!(chunk_load(&data, 0, 2), ChunkLoad { rows: 2, bytes: 30 });
    assert_eq!(chunk_load(&data, 2, 2), ChunkLoad { rows: 2, bytes: 70 });
    assert_eq!(chunk_load(&data, 4, 2), ChunkLoad { rows: 1, bytes: 5 });
    assert_eq!(chunk_load(&data, 0, 100), ChunkLoad { rows: 5, bytes: 105 });
    assert_eq!(chunk_load(&data, 5, 2), ChunkLoad { rows: 0, bytes: 0 });
    assert_eq!(chunk_load(&data, 9, 2), ChunkLoad { rows: 0, bytes: 0 });
    assert_eq!(chunk_load(&data, 1, 0), ChunkLoad { rows: 0, bytes: 0 });
    let big = vec![row(usize::MAX), row(1), row(7)];
    assert_eq!(chunk_load(&big, 0, 3), ChunkLoad { rows: 3, bytes: usize::MAX });
    assert_eq!(chunk_load(&big, 1, 3), ChunkLoad { rows: 2, bytes: 8 });
}

#[test]
fn the_statement_of_a_row_takes_the_dialect_and_the_routed_table() {
    let mut metas = RdbMetaManager::new();
    metas.put(RdbTbMeta::of_catalog("s".into(), "t".into(), vec!["id".to_string()], vec!["id".to_string()]));
    let sinker = SqlSinker { meta_manager: metas, router: RdbRouter::new(), reverse: false };
    let mut after = ColMap::new();
    after.insert("id".to_string(), ColValue::Long(1));
    let known = RowData::new_insert("s".to_string(), "t".to_string(), after, 0);
    let unknown = RowData::new_insert("s".to_string(), "other".to_string(), ColMap::new(), 0);
    let pg = sinker.get_query_builder(&known, false).unwrap();
    assert_eq!(pg.dialect, Dialect::Pg);
    assert_eq!(pg.tb_meta.tb, "t");
    assert_eq!(pg.get_query_info(&known).sql, "INSERT INTO s.t(id) VALUES($1)");
    let my = sinker.get_query_builder(&known, true).unwrap();
    assert_eq!(my.dialect, Dialect::Mysql);
    assert_eq!(my.get_query_info(&known).sql, "INSERT INTO s.t(id) VALUES(?)");
    assert!(sinker.get_query_builder(&unknown, false).is_none());
}
