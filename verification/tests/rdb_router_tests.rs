use ape_dts::meta::col_value::ColMap;
use ape_dts::meta::rdb_meta_manager::RdbMetaManager;
use ape_dts::meta::rdb_tb_meta::RdbTbMeta;
use ape_dts::meta::row_data::RowData;
use ape_dts::rdb_router::{DbRoute, RdbRouter, TbRoute};

fn router() -> RdbRouter {
    RdbRouter {
        db_map: vec![
            DbRoute { src_db: "a".to_string(), dst_db: "b".to_string() },
            DbRoute { src_db: "a".to_string(), dst_db: "shadowed".to_string() },
        ],
        tb_map: vec![
            TbRoute {
                src_db: "a".to_string(),
                src_tb: "t1".to_string(),
                dst_db: "x".to_string(),
                dst_tb: "y".to_string(),
            },
            TbRoute {
                src_db: "c".to_string(),
                src_tb: "t2".to_string(),
                dst_db: "c".to_string(),
                dst_tb: "t3".to_string(),
            },
        ],
    }
}

fn pair(db: &str, tb: &str) -> (String, String) {
    (db.to_string(), tb.to_string())
}

#[test]
fn a_router_without_entries_maps_nothing() {
    let r = RdbRouter::new();
    assert_eq!(r.get_route("db", "tb"), pair("db", "tb"));
    assert_eq!(r.get_route("", ""), pair("", ""));
    assert_eq!(r.reverse().get_route("db", "tb"), pair("db", "tb"));
}

#[test]
fn table_entries_come_before_database_entries() {
    let r = router();
    assert_eq!(r.get_route("a", "t1"), pair("x", "y"));
    assert_eq!(r.get_route("a", "other"), pair("b", "other"));
    assert_eq!(r.get_route("c", "t2"), pair("c", "t3"));
    assert_eq!(r.get_route("c", "other"), pair("c", "other"));
    assert_eq!(r.get_route("A", "t1"), pair("A", "t1"));
    assert_eq!(r.get_route("z", "t1"), pair("z", "t1"));
}

#[test]
fn reverse_maps_destinations_back() {
    let r = router();
    let back = r.reverse();
    assert_eq!(back.get_route("x", "y"), pair("a", "t1"));
    assert_eq!(back.get_route("c", "t3"), pair("c", "t2"));
    assert_eq!(back.get_route("b", "other"), pair("a", "other"));
    for (db, tb) in [("a", "t1"), ("c", "t2"), ("a", "other")] {
        let there = r.get_route(db, tb);
        assert_eq!(back.get_route(&there.0, &there.1), pair(db, tb));
    }
    let again = back.reverse();
    assert_eq!(again.get_route("a", "t1"), pair("x", "y"));
}

#[test]
fn rows_are_routed_by_their_table() {
    let row = RowData::new_insert("a".to_string(), "t1".to_string(), ColMap::new(), 0);
    assert_eq!(router().route_row(&row), pair("x", "y"));
}

fn meta(schema: &str, tb: &str, order_col: Option<&str>) -> RdbTbMeta {
    RdbTbMeta {
        schema: schema.to_string(),
        tb: tb.to_string(),
        cols: vec!["id".to_string(), "v".to_string()],
        id_cols: vec!["id".to_string()],
        order_col: order_col.map(|c| c.to_string()),
    }
}

#[test]
fn metadata_is_kept_until_the_cache_is_cleared() {
    let mut m = RdbMetaManager::new();
    assert!(m.get_tb_meta("s", "t").is_none());
    m.put(meta("s", "t", Some("id")));
    m.put(meta("s", "u", None));
    assert_eq!(m.cache.len(), 2);
    assert_eq!(m.get_tb_meta("s", "t").unwrap().order_col, Some("id".to_string()));
    assert_eq!(m.get_tb_meta("s", "u").unwrap().order_col, None);
    assert!(m.get_tb_meta("t", "s").is_none());
    m.put(meta("s", "t", Some("v")));
    assert_eq!(m.cache.len(), 2);
    assert_eq!(m.get_tb_meta("s", "t").unwrap().order_col, Some("v".to_string()));
    assert_eq!(m.get_tb_meta("s", "u").unwrap().order_col, None);
    m.invalidate_cache();
    assert!(m.get_tb_meta("s", "t").is_none());
    assert!(m.get_tb_meta("s", "u").is_none());
    assert_eq!(m.cache.len(), 0);
}

#[test]
fn metadata_is_looked_up_for_the_destination_table() {
    let mut m = RdbMetaManager::new();
    m.put(meta("x", "y", Some("id")));
    let row = RowData::new_insert("a".to_string(), "t1".to_string(), ColMap::new(), 0);
    let found = m.get_tb_meta_by_row_data(&router(), &row).unwrap();
    assert_eq!((found.schema.as_str(), found.tb.as_str()), ("x", "y"));
    let unrouted = RowData::new_insert("x".to_string(), "y".to_string(), ColMap::new(), 0);
    assert!(m.get_tb_meta_by_row_data(&router(), &unrouted).is_some());
    let other = RowData::new_insert("a".to_string(), "t9".to_string(), ColMap::new(), 0);
    assert!(m.get_tb_meta_by_row_data(&router(), &other).is_none());
}
