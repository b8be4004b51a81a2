use ape_dts::meta::col_value::{ColMap, ColValue};
use ape_dts::meta::rdb_tb_meta::RdbTbMeta;
use ape_dts::meta::row_data::RowData;
use ape_dts::sinker::pg::pg_sinker::PgSinker;
use ape_dts::sinker::rdb_query_builder::{Dialect, QueryInfo, RdbQueryBuilder};

fn meta() -> RdbTbMeta {
    RdbTbMeta {
        schema: "s".to_string(),
        tb: "t".to_string(),
        cols: vec!["id".to_string(), "part".to_string(), "v".to_string()],
        id_cols: vec!["id".to_string(), "part".to_string()],
        order_col: None,
    }
}

fn image(id: i32, part: &str, v: Option<&str>) -> ColMap {
    let mut m = ColMap::new();
    m.insert("id".to_string(), ColValue::Long(id));
    m.insert("part".to_string(), ColValue::String(part.to_string()));
    if let Some(v) = v {
        m.insert("v".to_string(), ColValue::String(v.to_string()));
    }
    m
}

fn shown(q: &QueryInfo) -> Vec<String> {
    q.binds
        .iter()
        .map(|b| match b {
            Some(v) => String::from_utf8_lossy(&v.to_option_bytes().unwrap_or(b"null".to_vec())).to_string(),
            None => "-".to_string(),
        })
        .collect()
}

#[test]
fn single_row_statements_for_postgres() {
    let m = meta();
    let b = RdbQueryBuilder::new_for_pg(&m);
    assert_eq!(b.dialect, Dialect::Pg);
    let ins = RowData::new_insert("s".to_string(), "t".to_string(), image(1, "a", Some("x")), 1);
    let q = b.get_insert_query(&ins);
    assert_eq!(q.sql, "INSERT INTO s.t(id,part,v) VALUES($1,$2,$3)");
    assert_eq!(q.cols, vec!["id", "part", "v"]);
    assert_eq!(shown(&q), vec!["1", "a", "x"]);
    let upd = RowData::new_update("s".to_string(), "t".to_string(), image(1, "a", Some("x")), image(2, "b", None), 1);
    let q = b.get_update_query(&upd);
    assert_eq!(q.sql, "UPDATE s.t SET id=$1,part=$2,v=$3 WHERE id=$4 AND part=$5");
    assert_eq!(q.cols, vec!["id", "part", "v", "id", "part"]);
    assert_eq!(shown(&q), vec!["2", "b", "-", "1", "a"]);
    let del = RowData::new_delete("s".to_string(), "t".to_string(), image(1, "a", Some("x")), 1);
    let q = b.get_delete_query(&del);
    assert_eq!(q.sql, "DELETE FROM s.t WHERE id=$1 AND part=$2");
    assert_eq!(shown(&q), vec!["1", "a"]);
    let q = b.get_select_query(&ins);
    assert_eq!(q.sql, "SELECT * FROM s.t WHERE id=$1 AND part=$2");
    assert_eq!(q.cols, vec!["id", "part"]);
    assert_eq!(shown(&q), vec!["1", "a"]);
    assert_eq!(b.get_query_info(&ins).sql, "INSERT INTO s.t(id,part,v) VALUES($1,$2,$3)");
    assert_eq!(b.get_query_info(&upd).sql, "UPDATE s.t SET id=$1,part=$2,v=$3 WHERE id=$4 AND part=$5");
    assert_eq!(b.get_query_info(&del).sql, "DELETE FROM s.t WHERE id=$1 AND part=$2");
    // a row without the image that the statement needs binds nothing
    assert_eq!(shown(&b.get_delete_query(&ins)), vec!["-", "-"]);
}

#[test]
fn single_row_statements_for_mysql() {
    let m = meta();
    let b = RdbQueryBuilder::new_for_mysql(&m);
    let upd = RowData::new_update("s".to_string(), "t".to_string(), image(1, "a", Some("x")), image(2, "b", Some("y")), 1);
    assert_eq!(b.get_insert_query(&upd).sql, "INSERT INTO s.t(id,part,v) VALUES(?,?,?)");
    assert_eq!(b.get_update_query(&upd).sql, "UPDATE s.t SET id=?,part=?,v=? WHERE id=? AND part=?");
    assert_eq!(b.get_delete_query(&upd).sql, "DELETE FROM s.t WHERE id=? AND part=?");
    assert_eq!(b.get_select_query(&upd).sql, "SELECT * FROM s.t WHERE id=? AND part=?");
    let mut s = String::from("x");
    b.get_placeholder(&mut s, 12);
    assert_eq!(s, "x?");
    let mut s = String::from("x");
    RdbQueryBuilder::new_for_pg(&m).get_placeholder(&mut s, 12);
    assert_eq!(s, "x$12");
}

#[test]
fn statements_for_several_rows() {
    let m = meta();
    let b = RdbQueryBuilder::new_for_pg(&m);
    let data = vec![
        RowData::new_insert("s".to_string(), "t".to_string(), image(1, "a", Some("x")), 1),
        RowData::new_insert("s".to_string(), "t".to_string(), image(2, "b", None), 1),
        RowData::new_insert("s".to_string(), "t".to_string(), image(3, "c", Some("z")), 1),
    ];
    let q = b.get_batch_insert_query(&data, 0, 2);
    assert_eq!(q.sql, "INSERT INTO s.t(id,part,v) VALUES($1,$2,$3),($4,$5,$6)");
    assert_eq!(q.cols, vec!["id", "part", "v", "id", "part", "v"]);
    assert_eq!(shown(&q), vec!["1", "a", "x", "2", "b", "-"]);
    let q = b.get_batch_insert_query(&data, 2, 2);
    assert_eq!(q.sql, "INSERT INTO s.t(id,part,v) VALUES($1,$2,$3)");
    assert_eq!(shown(&q), vec!["3", "c", "z"]);
    let q = b.get_batch_select_query(&data, 0, 3);
    assert_eq!(q.sql, "SELECT * FROM s.t WHERE (id,part) IN (($1,$2),($3,$4),($5,$6))");
    assert_eq!(shown(&q), vec!["1", "a", "2", "b", "3", "c"]);
    let q = b.get_batch_select_query(&data, 5, 3);
    assert_eq!(q.sql, "SELECT * FROM s.t WHERE (id,part) IN ()");
    assert!(q.binds.is_empty());
    let deletes = vec![
        RowData::new_delete("s".to_string(), "t".to_string(), image(1, "a", Some("x")), 1),
        RowData::new_delete("s".to_string(), "t".to_string(), image(2, "b", None), 1),
    ];
    let q = b.get_batch_delete_query(&deletes, 0, 10);
    assert_eq!(q.sql, "DELETE FROM s.t WHERE (id,part) IN (($1,$2),($3,$4))");
    assert_eq!(q.cols, vec!["id", "part", "id", "part"]);
    assert_eq!(shown(&q), vec!["1", "a", "2", "b"]);
    let my = RdbQueryBuilder::new_for_mysql(&m);
    assert_eq!(my.get_batch_insert_query(&data, 1, 2).sql, "INSERT INTO s.t(id,part,v) VALUES(?,?,?),(?,?,?)");
    assert_eq!(my.get_batch_delete_query(&deletes, 1, 2).sql, "DELETE FROM s.t WHERE (id,part) IN ((?,?))");
}

#[test]
fn an_insert_is_made_an_upsert() {
    let m = meta();
    let b = RdbQueryBuilder::new_for_pg(&m);
    let row = RowData::new_insert("s".to_string(), "t".to_string(), image(1, "a", Some("x")), 1);
    let q = b.get_insert_query(&row);
    let (sql, cols, binds) = PgSinker::get_insert_query(q.sql, q.cols, q.binds, &m, &row).unwrap();
    assert_eq!(
        sql,
        "INSERT INTO s.t(id,part,v) VALUES($1,$2,$3) ON CONFLICT (id,part) DO UPDATE SET id=$4,part=$5,v=$6"
    );
    assert_eq!(cols, vec!["id", "part", "v", "id", "part", "v"]);
    assert_eq!(binds.len(), 6);
}
