use concurrent_queue::ConcurrentQueue;

use ape_dts::extractor::pg::pg_struct_extractor::{
    ColumnRow, CommentRow, ConstraintRow, IndexRow, PgStructExtractor, StructFilter,
};
use ape_dts::meta::struct_meta::struct_model::{IndexKind, StructModel};

fn s(text: &str) -> Option<String> {
    Some(text.to_string())
}

fn extractor() -> PgStructExtractor {
    PgStructExtractor {
        filter: StructFilter {
            schemas: vec!["whole".to_string()],
            tb_schemas: vec!["part".to_string()],
            tbs: vec!["part.t1".to_string()],
        },
    }
}

fn column(schema: &str, table: &str, name: &str, position: i32) -> ColumnRow {
    ColumnRow {
        table_schema: s(schema),
        table_name: s(table),
        column_name: s(name),
        data_type: s("integer"),
        udt_name: s("int4"),
        character_maximum_length: None,
        is_nullable: s("NO"),
        column_default: None,
        numeric_precision: Some(32),
        numeric_scale: Some(0),
        is_identity: s("NO"),
        identity_generation: None,
        ordinal_position: position,
    }
}

#[test]
fn type_names() {
    let t = |udt: &str, data_type: &str, len: Option<i32>, p: Option<i32>, sc: Option<i32>| {
        PgStructExtractor::get_col_data_type(udt.to_string(), data_type.to_string(), "sch".to_string(), len, p, sc)
            .unwrap()
    };
    assert_eq!(t("int4", "integer", None, Some(32), Some(0)), "integer");
    assert_eq!(t("varchar", "character varying", Some(255), None, None), "character varying(255)");
    assert_eq!(t("numeric", "numeric", None, Some(10), Some(2)), "numeric(10,2)");
    assert_eq!(t("numeric", "numeric", None, Some(10), None), "numeric");
    assert_eq!(t("numeric", "numeric", None, Some(0), Some(2)), "numeric");
    assert_eq!(t("numeric", "numeric", Some(5), Some(10), Some(2)), "numeric(5)");
    assert_eq!(t("geometry", "USER-DEFINED", None, None, None), "geometry");
    assert_eq!(t("_text", "ARRAY", None, None, None), "_text");
    assert_eq!(t("mood", "USER-DEFINED", None, None, None), "sch.mood");
    assert_eq!(t("box2df", "whatever", Some(-3), None, None), "box2df(-3)");
    assert_eq!(t("Geometry", "text", None, None, None), "text");
}

#[test]
fn generated_rules() {
    let g = |identity: Option<&str>, generation: Option<&str>| {
        PgStructExtractor::get_col_generated_rule(
            identity.map(|x| x.to_string()),
            generation.map(|x| x.to_string()),
        )
    };
    assert_eq!(g(Some("YES"), Some("ALWAYS")), s("ALWAYS"));
    assert_eq!(g(Some("yes"), Some("BY DEFAULT")), s("BY DEFAULT"));
    assert_eq!(g(Some("yEs"), Some("x")), s("x"));
    assert_eq!(g(Some("YES"), None), None);
    assert_eq!(g(Some("NO"), Some("ALWAYS")), None);
    assert_eq!(g(Some("yes "), Some("ALWAYS")), None);
    assert_eq!(g(None, Some("ALWAYS")), None);
}

#[test]
fn single_characters_are_reported_by_number() {
    assert_eq!(PgStructExtractor::get_with_null(112), "112");
    assert_eq!(PgStructExtractor::get_with_null(-1), "-1");
    assert_eq!(PgStructExtractor::get_with_null(0), "0");
}

#[test]
fn catalog_queries_name_the_schemas() {
    let e = extractor();
    assert_eq!(e.all_schemas(), vec!["whole", "part"]);
    assert_eq!(PgStructExtractor::schema_list(&e.all_schemas()), "'whole','part'");
    assert_eq!(PgStructExtractor::schema_list(&vec!["one".to_string()]), "'one'");
    assert_eq!(PgStructExtractor::schema_list(&Vec::new()), "");
    let sql = e.table_query().unwrap();
    assert!(sql.starts_with("SELECT c.table_schema,c.table_name,c.column_name"));
    assert!(sql.ends_with("where table_schema in ('whole','part') ORDER BY table_schema,table_name"));
    assert!(e.constraint_query().unwrap().ends_with("WHERE nsp.nspname in ('whole','part') order by nsp.nspname,rel.relname"));
    assert!(e.index_query().unwrap().ends_with("FROM pg_indexes WHERE schemaname in ('whole','part')"));
    assert!(e.table_comment_query().unwrap().ends_with("where nspname in ('whole','part') and d.description is not null"));
    assert!(e.column_comment_query().unwrap().contains("where n.nspname in ('whole','part') and a.attnum >0"));
    let nothing = PgStructExtractor { filter: StructFilter { schemas: vec![], tb_schemas: vec![], tbs: vec![] } };
    assert!(nothing.table_query().is_none());
    assert!(nothing.constraint_query().is_none());
    assert!(nothing.index_query().is_none());
    assert!(nothing.table_comment_query().is_none());
    assert!(nothing.column_comment_query().is_none());
}

#[test]
fn tables_are_taken_by_name_or_by_schema() {
    let e = extractor();
    assert!(e.wants("whole", "anything"));
    assert!(e.wants("part", "t1"));
    assert!(!e.wants("part", "t2"));
    assert!(!e.wants("other", "t1"));
    assert!(e.wants("whole", ""));
    assert!(e.takes("whole", ""));
    assert!(!e.takes("", ""));
    assert!(!e.takes("part", "t2"));
    let odd = PgStructExtractor {
        filter: StructFilter { schemas: vec!["".to_string()], tb_schemas: vec![], tbs: vec![] },
    };
    assert!(odd.wants("", ""));
    assert!(!odd.takes("", ""));
}

#[test]
fn columns_are_grouped_by_table() {
    let rows = vec![
        column("whole", "a", "id", 1),
        column("part", "t2", "skipped", 1),
        column("part", "t1", "id", 1),
        column("whole", "a", "name", 2),
        column("other", "a", "skipped", 1),
        column("whole", "b", "id", 1),
        column("part", "t1", "v", 2),
        column("whole", "a", "last", -1),
    ];
    let tables = extractor().get_table(&rows);
    let shape: Vec<(String, String, Vec<String>)> = tables
        .iter()
        .map(|t| {
            (t.schema_name.clone(), t.table_name.clone(), t.columns.iter().map(|c| c.column_name.clone()).collect())
        })
        .collect();
    assert_eq!(
        shape,
        vec![
            ("whole".to_string(), "a".to_string(), vec!["id".to_string(), "name".to_string(), "last".to_string()]),
            ("part".to_string(), "t1".to_string(), vec!["id".to_string(), "v".to_string()]),
            ("whole".to_string(), "b".to_string(), vec!["id".to_string()]),
        ]
    );
    let first = &tables[0].columns[0];
    assert_eq!(first.order_position, 1);
    assert_eq!(first.column_type, "integer");
    assert_eq!(first.is_nullable, "NO");
    assert_eq!(first.default_value, None);
    assert_eq!(first.generated, None);
    assert_eq!(first.column_key, "");
    assert_eq!(tables[0].columns[2].order_position, u32::MAX);
    assert_eq!(tables[0].database_name, "");
    assert!(extractor().get_table(&Vec::new()).is_empty());
}

#[test]
fn a_column_is_built_from_its_row() {
    let mut row = column("whole", "a", "total", 3);
    row.data_type = s("numeric");
    row.udt_name = s("numeric");
    row.numeric_precision = Some(12);
    row.numeric_scale = Some(4);
    row.column_default = s("0");
    row.is_identity = s("YES");
    row.identity_generation = s("ALWAYS");
    row.is_nullable = None;
    let col = PgStructExtractor::column_of(&row);
    assert_eq!(col.column_name, "total");
    assert_eq!(col.order_position, 3);
    assert_eq!(col.column_type, "numeric(12,4)");
    assert_eq!(col.default_value, s("0"));
    assert_eq!(col.generated, s("ALWAYS"));
    assert_eq!(col.is_nullable, "");
}

#[test]
fn constraints_indexes_and_comments_follow_their_rows() {
    let e = extractor();
    let constraints = e.get_constraint(&vec![
        ConstraintRow {
            nspname: s("whole"),
            relname: s("a"),
            constraint_name: s("a_pkey"),
            constraint_type: 112,
            constraint_definition: s("PRIMARY KEY (id)"),
        },
        ConstraintRow {
            nspname: s("part"),
            relname: s("t2"),
            constraint_name: s("skipped"),
            constraint_type: 117,
            constraint_definition: None,
        },
    ]);
    assert_eq!(constraints.len(), 1);
    assert_eq!(constraints[0].constraint_name, "a_pkey");
    assert_eq!(constraints[0].constraint_type, "112");
    assert_eq!(constraints[0].definition, "PRIMARY KEY (id)");
    assert_eq!((constraints[0].schema_name.as_str(), constraints[0].table_name.as_str()), ("whole", "a"));

    let indexes = e.get_index(&vec![
        IndexRow { schemaname: None, tablename: None, indexdef: s("x"), tablespace: None, indexname: s("x") },
        IndexRow {
            schemaname: s("part"),
            tablename: s("t1"),
            indexdef: s("CREATE INDEX i ON part.t1 (v)"),
            tablespace: s("pg_default"),
            indexname: s("i"),
        },
    ]);
    assert_eq!(indexes.len(), 1);
    assert_eq!(indexes[0].index_name, "i");
    assert_eq!(indexes[0].index_kind, IndexKind::Index);
    assert_eq!(indexes[0].tablespace, "pg_default");
    assert_eq!(indexes[0].definition, "CREATE INDEX i ON part.t1 (v)");
    assert!(indexes[0].columns.is_empty());

    let table_rows = vec![
        CommentRow { nspname: s("whole"), relname: s("a"), name: None, comment: s("the a table") },
        CommentRow { nspname: s("other"), relname: s("a"), name: None, comment: s("skipped") },
    ];
    let column_rows = vec![
        CommentRow { nspname: s("part"), relname: s("t2"), name: s("v"), comment: s("skipped") },
        CommentRow { nspname: s("part"), relname: s("t1"), name: s("v"), comment: s("the v column") },
    ];
    let comments = e.get_comment(&table_rows, &column_rows);
    assert_eq!(comments.len(), 2);
    assert_eq!((comments[0].table_name.as_str(), comments[0].column_name.as_str()), ("a", ""));
    assert_eq!(comments[0].comment, "the a table");
    assert_eq!((comments[1].table_name.as_str(), comments[1].column_name.as_str()), ("t1", "v"));
    assert_eq!(comments[1].comment, "the v column");
}

#[test]
fn models_that_the_queue_does_not_take_come_back() {
    let e = extractor();
    let tables = e.get_table(&vec![column("whole", "a", "id", 1), column("whole", "b", "id", 1), column("whole", "c", "id", 1)]);
    let models: Vec<StructModel> = tables.into_iter().map(StructModel::TableModel).collect();
    let name = |m: &StructModel| match m {
        StructModel::TableModel(t) => t.table_name.clone(),
        _ => panic!("not a table"),
    };
    let queue = ConcurrentQueue::bounded(2);
    let offered = PgStructExtractor::push_to_queue(&queue, models);
    assert!(!offered.closed);
    assert_eq!(offered.left.iter().map(name).collect::<Vec<_>>(), vec!["c"]);
    assert_eq!(name(&queue.pop().unwrap()), "a");
    let offered = PgStructExtractor::push_to_queue(&queue, offered.left);
    assert!(offered.left.is_empty());
    assert_eq!(name(&queue.pop().unwrap()), "b");
    assert_eq!(name(&queue.pop().unwrap()), "c");
    assert!(queue.pop().is_err());
}
