//! What is made of the rows of the PostgreSQL catalog: the tables with
//! their columns, the constraints, the indexes and the comments of the
//! schemas that are to be migrated.
//!
//! The extractor holds no connection. Its caller runs each query and
//! hands over the rows.

use vstd::prelude::*;
use concurrent_queue::ConcurrentQueue;
use crate::meta::col_value::str_same;
use crate::meta::struct_meta::column::Column;
use crate::meta::struct_meta::struct_model::{Comment, Constraint, Index, IndexKind, StructModel};
use crate::meta::struct_meta::table::Table;
use crate::util::queue::{push_all, Offered};
use crate::util::text::{
    join,
    lemma_string_views_push,
    push_signed_decimal,
    signed_digit_chars,
    string_views,
};

verus! {

/// What is to be migrated.
#[derive(Debug, Clone)]
pub struct StructFilter {
    /// The schemas that are migrated whole.
    pub schemas: Vec<String>,
    /// The schemas of the tables that are migrated one by one.
    pub tb_schemas: Vec<String>,
    /// The tables that are migrated one by one, each as `schema.table`.
    pub tbs: Vec<String>,
}

/// A row of the query for columns.
#[derive(Debug, Clone)]
pub struct ColumnRow {
    pub table_schema: Option<String>,
    pub table_name: Option<String>,
    pub column_name: Option<String>,
    pub data_type: Option<String>,
    pub udt_name: Option<String>,
    pub character_maximum_length: Option<i32>,
    pub is_nullable: Option<String>,
    pub column_default: Option<String>,
    pub numeric_precision: Option<i32>,
    pub numeric_scale: Option<i32>,
    pub is_identity: Option<String>,
    pub identity_generation: Option<String>,
    pub ordinal_position: i32,
}

/// A row of the query for constraints.
#[derive(Debug, Clone)]
pub struct ConstraintRow {
    pub nspname: Option<String>,
    pub relname: Option<String>,
    pub constraint_name: Option<String>,
    pub constraint_type: i8,
    pub constraint_definition: Option<String>,
}

/// A row of the query for indexes.
#[derive(Debug, Clone)]
pub struct IndexRow {
    pub schemaname: Option<String>,
    pub tablename: Option<String>,
    pub indexdef: Option<String>,
    pub tablespace: Option<String>,
    pub indexname: Option<String>,
}

/// A row of the queries for comments. The column name is `None` in a
/// row of the query for table comments.
#[derive(Debug, Clone)]
pub struct CommentRow {
    pub nspname: Option<String>,
    pub relname: Option<String>,
    pub name: Option<String>,
    pub comment: Option<String>,
}

/// The query for the columns of the tables of some schemas, up to the
/// list of the schemas.
pub const COLUMNS_HEAD: &'static str =
    "SELECT c.table_schema,c.table_name,c.column_name, c.data_type, c.udt_name, c.character_maximum_length, c.is_nullable, c.column_default, c.numeric_precision, c.numeric_scale, c.is_identity, c.identity_generation,c.ordinal_position FROM information_schema.columns c where table_schema in (";

pub const COLUMNS_TAIL: &'static str = ") ORDER BY table_schema,table_name";

/// The query for the constraints of the tables of some schemas, up to
/// the list of the schemas.
pub const CONSTRAINTS_HEAD: &'static str =
    "SELECT nsp.nspname, rel.relname, con.conname as constraint_name, con.contype as constraint_type,pg_get_constraintdef(con.oid) as constraint_definition FROM pg_catalog.pg_constraint con JOIN pg_catalog.pg_class rel ON rel.oid = con.conrelid JOIN pg_catalog.pg_namespace nsp ON nsp.oid = connamespace WHERE nsp.nspname in (";

pub const CONSTRAINTS_TAIL: &'static str = ") order by nsp.nspname,rel.relname";

/// The query for the indexes of the tables of some schemas, up to the
/// list of the schemas.
pub const INDEXES_HEAD: &'static str =
    "SELECT schemaname,tablename,indexdef, COALESCE(tablespace, 'pg_default') as tablespace, indexname FROM pg_indexes WHERE schemaname in (";

pub const INDEXES_TAIL: &'static str = ")";

/// The query for the comments on the tables of some schemas, up to the
/// list of the schemas.
pub const TABLE_COMMENTS_HEAD: &'static str =
    "SELECT n.nspname, c.relname, d.description as comment FROM pg_class c LEFT JOIN pg_namespace n on n.oid = c.relnamespace LEFT JOIN pg_description d ON c.oid = d.objoid AND d.objsubid = 0 where nspname in (";

pub const TABLE_COMMENTS_TAIL: &'static str = ") and d.description is not null";

/// The query for the comments on the columns of the tables of some
/// schemas, up to the list of the schemas.
pub const COLUMN_COMMENTS_HEAD: &'static str =
    "SELECT n.nspname,c.relname, col_description(a.attrelid, a.attnum)as comment,format_type(a.atttypid, a.atttypmod)as type,a.attname as name,a.attnotnull as notnull FROM pg_class c LEFT JOIN pg_attribute a on a.attrelid =c.oid LEFT JOIN pg_namespace n on n.oid = c.relnamespace where n.nspname in (";

pub const COLUMN_COMMENTS_TAIL: &'static str =
    ") and a.attnum >0 and col_description(a.attrelid, a.attnum) is not null";

/// The catalog query that starts with `head` and ends with `tail`, for
/// the schemas `schemas`; none where there is no schema to ask about.
pub open spec fn query_text(head: Seq<char>, schemas: Seq<Seq<char>>, tail: Seq<char>) -> Option<
    Seq<char>,
> {
    if schemas.len() == 0 {
        None
    } else {
        Some(head + in_list(schemas) + tail)
    }
}

/// The state of a struct extractor.
#[derive(Debug, Clone)]
pub struct PgStructExtractor {
    pub filter: StructFilter,
}

/// The text of a column that may be null: empty for a null.
pub open spec fn text_of(v: Option<String>) -> Seq<char> {
    match v {
        Some(s) => s@,
        None => Seq::empty(),
    }
}

/// The text of a column that may be null, or none.
pub open spec fn opt_text(v: Option<String>) -> Option<Seq<char>> {
    match v {
        Some(s) => Some(s@),
        None => None,
    }
}

/// Whether `names` holds the name `name`.
pub open spec fn has_name(names: Seq<String>, name: Seq<char>) -> bool {
    exists|i: int| 0 <= i < names.len() && (#[trigger] names[i])@ == name
}

/// Whether the table `schema`.`table` is to be migrated: it is named by
/// itself, or its schema is migrated whole.
pub open spec fn wanted(f: StructFilter, schema: Seq<char>, table: Seq<char>) -> bool {
    has_name(f.tbs@, schema + seq!['.'] + table) || has_name(f.schemas@, schema)
}

/// Whether a row of the catalog is taken: it names a schema or a table,
/// and that table is to be migrated.
pub open spec fn taken(f: StructFilter, schema: Seq<char>, table: Seq<char>) -> bool {
    !(schema.len() == 0 && table.len() == 0) && wanted(f, schema, table)
}

/// The names of `names`, each in single quotes.
pub open spec fn quoted(names: Seq<Seq<char>>) -> Seq<Seq<char>> {
    Seq::new(names.len(), |i: int| seq!['\''] + names[i] + seq!['\''])
}

/// The names of `names` as the list of an `IN` clause.
pub open spec fn in_list(names: Seq<Seq<char>>) -> Seq<char> {
    join(quoted(names), ","@)
}

/// Whether the type `udt` keeps its own name, whatever the catalog
/// calls its data type.
pub open spec fn keeps_name(udt: Seq<char>) -> bool {
    udt == "geometry"@ || udt == "box2d"@ || udt == "box2df"@ || udt == "box3d"@ || udt
        == "geography"@ || udt == "geometry_dump"@ || udt == "gidx"@ || udt == "spheroid"@ || udt
        == "valid_detail"@ || udt == "_text"@
}

/// The type of a column as it is written in a table definition: the
/// name of the type, then its length, or its precision and scale, in
/// brackets where the catalog gives them.
pub open spec fn col_data_type(
    udt_name: Seq<char>,
    data_type: Seq<char>,
    schema_name: Seq<char>,
    char_max_length: Option<i32>,
    num_precision: Option<i32>,
    num_scale: Option<i32>,
) -> Seq<char> {
    (if keeps_name(udt_name) {
        udt_name
    } else if data_type == "USER-DEFINED"@ {
        schema_name + "."@ + udt_name
    } else {
        data_type
    }) + (match char_max_length {
        Some(n) => "("@ + signed_digit_chars(n as int) + ")"@,
        None => match (num_precision, num_scale) {
            (Some(p), Some(s)) => if p > 0 && s > 0 {
                "("@ + signed_digit_chars(p as int) + ","@ + signed_digit_chars(s as int) + ")"@
            } else {
                Seq::empty()
            },
            _ => Seq::empty(),
        },
    })
}

/// Whether `s` says yes, in any case of letters.
pub open spec fn is_yes(s: Seq<char>) -> bool {
    s == "yes"@ || s == "Yes"@ || s == "yEs"@ || s == "yeS"@ || s == "YEs"@ || s == "YeS"@ || s
        == "yES"@ || s == "YES"@
}

/// How an identity column is generated: what the catalog says of it,
/// where it says that the column is an identity.
pub open spec fn col_generated_rule(
    is_identity: Option<String>,
    identity_generation: Option<String>,
) -> Option<Seq<char>> {
    match is_identity {
        Some(i) => if is_yes(i@) {
            opt_text(identity_generation)
        } else {
            None
        },
        None => None,
    }
}

/// The place of a column in its table, as the catalog counts it.
pub open spec fn order_of(ordinal_position: i32) -> u32 {
    if ordinal_position >= 0 {
        ordinal_position as u32
    } else {
        (ordinal_position + 0x1_0000_0000) as u32
    }
}

/// Whether `col` is the column that `row` describes.
pub open spec fn is_column_of(col: Column, row: ColumnRow) -> bool {
    &&& col.column_name@ == text_of(row.column_name)
    &&& col.order_position == order_of(row.ordinal_position)
    &&& opt_text(col.default_value) == opt_text(row.column_default)
    &&& col.is_nullable@ == text_of(row.is_nullable)
    &&& col.column_type@ == col_data_type(
        text_of(row.udt_name),
        text_of(row.data_type),
        text_of(row.table_schema),
        row.character_maximum_length,
        row.numeric_precision,
        row.numeric_scale,
    )
    &&& opt_text(col.generated) == col_generated_rule(row.is_identity, row.identity_generation)
    &&& col.column_key@.len() == 0
    &&& col.extra@.len() == 0
    &&& col.column_comment@.len() == 0
    &&& col.character_set@.len() == 0
    &&& col.collation@.len() == 0
}

/// Whether the row `row` is taken and describes a column of the table
/// `schema`.`table`.
pub open spec fn is_row_of(f: StructFilter, row: ColumnRow, schema: Seq<char>, table: Seq<char>) -> bool {
    &&& taken(f, text_of(row.table_schema), text_of(row.table_name))
    &&& text_of(row.table_schema) == schema
    &&& text_of(row.table_name) == table
}

/// The rows of `rows` that are taken and describe columns of the table
/// `schema`.`table`, in order.
pub open spec fn rows_of_table(
    f: StructFilter,
    rows: Seq<ColumnRow>,
    schema: Seq<char>,
    table: Seq<char>,
) -> Seq<ColumnRow>
    decreases rows.len(),
{
    if rows.len() == 0 {
        Seq::empty()
    } else if is_row_of(f, rows.last(), schema, table) {
        rows_of_table(f, rows.drop_last(), schema, table).push(rows.last())
    } else {
        rows_of_table(f, rows.drop_last(), schema, table)
    }
}

/// Whether `table` is the table `schema`.`name` with the columns that
/// `rows` describe, in order.
pub open spec fn is_table_of(table: Table, schema: Seq<char>, name: Seq<char>, rows: Seq<ColumnRow>) -> bool {
    &&& table.database_name@.len() == 0
    &&& table.schema_name@ == schema
    &&& table.table_name@ == name
    &&& table.engine_name@.len() == 0
    &&& table.table_comment@.len() == 0
    &&& table.columns@.len() == rows.len()
    &&& forall|k: int|
        0 <= k < rows.len() ==> is_column_of(#[trigger] table.columns@[k], rows[k])
}

/// Whether some taken row of `rows` describes a column of the table
/// `schema`.`table`.
pub open spec fn table_seen(f: StructFilter, rows: Seq<ColumnRow>, schema: Seq<char>, table: Seq<char>) -> bool {
    exists|i: int| 0 <= i < rows.len() && is_row_of(f, #[trigger] rows[i], schema, table)
}

/// Whether `tables` are the tables that the rows `rows` describe: one
/// table for each table that a taken row names, with the columns of its
/// rows in order, and no two for one table.
pub open spec fn are_tables_of(f: StructFilter, tables: Seq<Table>, rows: Seq<ColumnRow>) -> bool {
    &&& forall|j: int|
        0 <= j < tables.len() ==> {
            &&& table_seen(f, rows, (#[trigger] tables[j]).schema_name@, tables[j].table_name@)
            &&& is_table_of(
                tables[j],
                tables[j].schema_name@,
                tables[j].table_name@,
                rows_of_table(f, rows, tables[j].schema_name@, tables[j].table_name@),
            )
        }
    &&& forall|i: int, j: int|
        0 <= i < j < tables.len() ==> !((#[trigger] tables[i]).schema_name@ == (
        #[trigger] tables[j]).schema_name@ && tables[i].table_name@ == tables[j].table_name@)
    &&& forall|i: int|
        0 <= i < rows.len() && taken(
            f,
            text_of((#[trigger] rows[i]).table_schema),
            text_of(rows[i].table_name),
        ) ==> exists|j: int|
            0 <= j < tables.len() && (#[trigger] tables[j]).schema_name@ == text_of(
                rows[i].table_schema,
            ) && tables[j].table_name@ == text_of(rows[i].table_name)
}

/// Whether some taken row of `rows` names the table `schema`.`table`
/// before any names the table `later_schema`.`later_table`.
pub open spec fn named_before(
    f: StructFilter,
    rows: Seq<ColumnRow>,
    schema: Seq<char>,
    table: Seq<char>,
    later_schema: Seq<char>,
    later_table: Seq<char>,
) -> bool {
    exists|r: int|
        0 <= r < rows.len() && is_row_of(f, #[trigger] rows[r], schema, table) && forall|q: int|
            0 <= q <= r ==> !is_row_of(f, #[trigger] rows[q], later_schema, later_table)
}

/// Whether the tables `tables` stand in the order in which the rows
/// `rows` first name them.
pub open spec fn in_naming_order(f: StructFilter, tables: Seq<Table>, rows: Seq<ColumnRow>) -> bool {
    forall|i: int, j: int|
        0 <= i < j < tables.len() ==> #[trigger] named_before(
            f,
            rows,
            tables[i].schema_name@,
            tables[i].table_name@,
            tables[j].schema_name@,
            tables[j].table_name@,
        )
}

/// Whether `c` is the constraint that `row` describes.
pub open spec fn is_constraint_of(c: Constraint, row: ConstraintRow) -> bool {
    &&& c.database_name@.len() == 0
    &&& c.schema_name@ == text_of(row.nspname)
    &&& c.table_name@ == text_of(row.relname)
    &&& c.constraint_name@ == text_of(row.constraint_name)
    &&& c.constraint_type@ == signed_digit_chars(row.constraint_type as int)
    &&& c.definition@ == text_of(row.constraint_definition)
}

/// Whether `x` is the index that `row` describes.
pub open spec fn is_index_of(x: Index, row: IndexRow) -> bool {
    &&& x.database_name@.len() == 0
    &&& x.schema_name@ == text_of(row.schemaname)
    &&& x.table_name@ == text_of(row.tablename)
    &&& x.index_name@ == text_of(row.indexname)
    &&& x.index_kind == IndexKind::Index
    &&& x.index_type@.len() == 0
    &&& x.comment@.len() == 0
    &&& x.tablespace@ == text_of(row.tablespace)
    &&& x.definition@ == text_of(row.indexdef)
    &&& x.columns@.len() == 0
}

/// Whether `c` is the comment that `row` describes.
pub open spec fn is_comment_of(c: Comment, row: CommentRow) -> bool {
    &&& c.database_name@.len() == 0
    &&& c.schema_name@ == text_of(row.nspname)
    &&& c.table_name@ == text_of(row.relname)
    &&& c.column_name@ == text_of(row.name)
    &&& c.comment@ == text_of(row.comment)
}

/// A copy of a text that may be null: empty for a null.
fn text_or_empty(v: &Option<String>) -> (s: String)
    ensures
        s@ == text_of(*v),
{
    match v {
        Some(s) => s.clone(),
        None => String::new(),
    }
}

/// A copy of a text that may be null.
fn copy_opt(v: &Option<String>) -> (s: Option<String>)
    ensures
        opt_text(s) == opt_text(*v),
{
    match v {
        Some(s) => Some(s.clone()),
        None => None,
    }
}

fn contains_name(names: &Vec<String>, name: &str) -> (r: bool)
    ensures
        r == has_name(names@, name@),
{
    let mut i: usize = 0;
    while i < names.len()
        invariant
            i <= names@.len(),
            forall|j: int| 0 <= j < i ==> (#[trigger] names@[j])@ != name@,
        decreases names@.len() - i,
    {
        if str_same(names[i].as_str(), name) {
            return true;
        }
        i = i + 1;
    }
    false
}

impl PgStructExtractor {
    /// The schemas that the catalog is asked about: those that are
    /// migrated whole, then those of the tables that are migrated one
    /// by one.
    pub fn all_schemas(&self) -> (all: Vec<String>)
        ensures
            string_views(all@) == string_views(self.filter.schemas@) + string_views(
                self.filter.tb_schemas@,
            ),
    {
        let mut all: Vec<String> = Vec::new();
        let mut i: usize = 0;
        while i < self.filter.schemas.len()
            invariant
                i <= self.filter.schemas@.len(),
                string_views(all@) == string_views(self.filter.schemas@).take(i as int),
            decreases self.filter.schemas@.len() - i,
        {
            let ghost before = all@;
            let name = self.filter.schemas[i].clone();
            all.push(name);
            i = i + 1;
            proof {
                lemma_string_views_push(before, name);
                assert(string_views(all@) =~= string_views(self.filter.schemas@).take(i as int));
            }
        }
        proof {
            assert(string_views(self.filter.schemas@).take(i as int) =~= string_views(
                self.filter.schemas@,
            ));
            assert(string_views(all@) =~= string_views(self.filter.schemas@) + string_views(
                self.filter.tb_schemas@,
            ).take(0));
        }
        let mut k: usize = 0;
        while k < self.filter.tb_schemas.len()
            invariant
                k <= self.filter.tb_schemas@.len(),
                string_views(all@) == string_views(self.filter.schemas@) + string_views(
                    self.filter.tb_schemas@,
                ).take(k as int),
            decreases self.filter.tb_schemas@.len() - k,
        {
            let ghost before = all@;
            let name = self.filter.tb_schemas[k].clone();
            all.push(name);
            k = k + 1;
            proof {
                lemma_string_views_push(before, name);
                assert(string_views(all@) =~= string_views(self.filter.schemas@) + string_views(
                    self.filter.tb_schemas@,
                ).take(k as int));
            }
        }
        proof {
            assert(string_views(self.filter.tb_schemas@).take(k as int) =~= string_views(
                self.filter.tb_schemas@,
            ));
        }
        all
    }

    /// The schemas of `schemas` as the list of an `IN` clause: each name
    /// in single quotes, commas between.
    pub fn schema_list(schemas: &Vec<String>) -> (list: String)
        ensures
            list@ == in_list(string_views(schemas@)),
    {
        let ghost names = string_views(schemas@);
        let mut list = String::new();
        let mut i: usize = 0;
        proof {
            reveal_strlit("'");
            reveal_strlit(",");
            assert(quoted(names).take(0) =~= Seq::<Seq<char>>::empty());
            assert(list@ =~= join(quoted(names).take(0), ","@));
        }
        while i < schemas.len()
            invariant
                i <= schemas@.len(),
                names == string_views(schemas@),
                list@ == join(quoted(names).take(i as int), ","@),
            decreases schemas@.len() - i,
        {
            let ghost before = list@;
            if i > 0 {
                list.append(",");
            }
            list.append("'");
            list.append(schemas[i].as_str());
            list.append("'");
            i = i + 1;
            proof {
                reveal_strlit("'");
                let t = quoted(names).take(i as int);
                assert(t.drop_last() =~= quoted(names).take(i - 1));
                assert(t.last() =~= seq!['\''] + schemas@[i - 1]@ + seq!['\'']);
                if i == 1 {
                    assert(list@ =~= t[0]);
                } else {
                    assert(list@ =~= before + ","@ + t.last());
                }
            }
        }
        proof {
            assert(quoted(names).take(i as int) =~= quoted(names));
        }
        list
    }

    /// The catalog query that starts with `head` and ends with `tail`,
    /// for the schemas that the extractor asks about; `None` where
    /// there is no schema to migrate.
    fn query(&self, head: &str, tail: &str) -> (sql: Option<String>)
        ensures
            opt_text(sql) == query_text(
                head@,
                string_views(self.filter.schemas@) + string_views(self.filter.tb_schemas@),
                tail@,
            ),
    {
        let all = self.all_schemas();
        if all.len() == 0 {
            return None;
        }
        let list = PgStructExtractor::schema_list(&all);
        let mut sql = String::from_str(head);
        sql.append(list.as_str());
        sql.append(tail);
        Some(sql)
    }

    /// The query whose rows `get_table` takes.
    pub fn table_query(&self) -> (sql: Option<String>)
        ensures
            opt_text(sql) == query_text(
                COLUMNS_HEAD@,
                string_views(self.filter.schemas@) + string_views(self.filter.tb_schemas@),
                COLUMNS_TAIL@,
            ),
    {
        self.query(COLUMNS_HEAD, COLUMNS_TAIL)
    }

    /// The query whose rows `get_constraint` takes.
    pub fn constraint_query(&self) -> (sql: Option<String>)
        ensures
            opt_text(sql) == query_text(
                CONSTRAINTS_HEAD@,
                string_views(self.filter.schemas@) + string_views(self.filter.tb_schemas@),
                CONSTRAINTS_TAIL@,
            ),
    {
        self.query(CONSTRAINTS_HEAD, CONSTRAINTS_TAIL)
    }

    /// The query whose rows `get_index` takes.
    pub fn index_query(&self) -> (sql: Option<String>)
        ensures
            opt_text(sql) == query_text(
                INDEXES_HEAD@,
                string_views(self.filter.schemas@) + string_views(self.filter.tb_schemas@),
                INDEXES_TAIL@,
            ),
    {
        self.query(INDEXES_HEAD, INDEXES_TAIL)
    }

    /// The query whose rows `get_comment` takes as comments on tables.
    pub fn table_comment_query(&self) -> (sql: Option<String>)
        ensures
            opt_text(sql) == query_text(
                TABLE_COMMENTS_HEAD@,
                string_views(self.filter.schemas@) + string_views(self.filter.tb_schemas@),
                TABLE_COMMENTS_TAIL@,
            ),
    {
        self.query(TABLE_COMMENTS_HEAD, TABLE_COMMENTS_TAIL)
    }

    /// The query whose rows `get_comment` takes as comments on columns.
    pub fn column_comment_query(&self) -> (sql: Option<String>)
        ensures
            opt_text(sql) == query_text(
                COLUMN_COMMENTS_HEAD@,
                string_views(self.filter.schemas@) + string_views(self.filter.tb_schemas@),
                COLUMN_COMMENTS_TAIL@,
            ),
    {
        self.query(COLUMN_COMMENTS_HEAD, COLUMN_COMMENTS_TAIL)
    }

    /// Whether the table `schema`.`table` is to be migrated.
    pub fn wants(&self, schema: &str, table: &str) -> (r: bool)
        ensures
            r == wanted(self.filter, schema@, table@),
    {
        let mut full = String::from_str(schema);
        full.append(".");
        full.append(table);
        proof {
            reveal_strlit(".");
            assert(full@ =~= schema@ + seq!['.'] + table@);
        }
        contains_name(&self.filter.tbs, full.as_str()) || contains_name(
            &self.filter.schemas,
            schema,
        )
    }

    /// Whether a row of the catalog that names the table
    /// `schema`.`table` is taken.
    pub fn takes(&self, schema: &str, table: &str) -> (r: bool)
        ensures
            r == taken(self.filter, schema@, table@),
    {
        if schema.unicode_len() == 0 && table.unicode_len() == 0 {
            return false;
        }
        self.wants(schema, table)
    }

    /// The type of a column as it is written in a table definition.
    pub fn get_col_data_type(
        udt_name: String,
        data_type: String,
        schema_name: String,
        char_max_length: Option<i32>,
        num_percision: Option<i32>,
        num_scale: Option<i32>,
    ) -> (r: Option<String>)
        ensures
            r matches Some(t) && t@ == col_data_type(
                udt_name@,
                data_type@,
                schema_name@,
                char_max_length,
                num_percision,
                num_scale,
            ),
    {
        let udt = udt_name.as_str();
        let keeps: bool = str_same(udt, "geometry") || str_same(udt, "box2d") || str_same(
            udt,
            "box2df",
        ) || str_same(udt, "box3d") || str_same(udt, "geography") || str_same(
            udt,
            "geometry_dump",
        ) || str_same(udt, "gidx") || str_same(udt, "spheroid") || str_same(udt, "valid_detail")
            || str_same(udt, "_text");
        let mut result_type = String::new();
        if keeps {
            result_type.append(udt);
        } else if str_same(data_type.as_str(), "USER-DEFINED") {
            result_type.append(schema_name.as_str());
            result_type.append(".");
            result_type.append(udt);
        } else {
            result_type.append(data_type.as_str());
        }
        match char_max_length {
            Some(n) => {
                result_type.append("(");
                push_signed_decimal(&mut result_type, n as i64);
                result_type.append(")");
            },
            None => {
                match (num_percision, num_scale) {
                    (Some(p), Some(s)) => {
                        if p > 0 && s > 0 {
                            result_type.append("(");
                            push_signed_decimal(&mut result_type, p as i64);
                            result_type.append(",");
                            push_signed_decimal(&mut result_type, s as i64);
                            result_type.append(")");
                        }
                    },
                    _ => {},
                }
            },
        }
        proof {
            assert(result_type@ =~= col_data_type(
                udt_name@,
                data_type@,
                schema_name@,
                char_max_length,
                num_percision,
                num_scale,
            ));
        }
        Some(result_type)
    }

    /// How an identity column is generated, `None` for a column that is
    /// no identity.
    pub fn get_col_generated_rule(
        is_identity: Option<String>,
        identity_generation: Option<String>,
    ) -> (r: Option<String>)
        ensures
            opt_text(r) == col_generated_rule(is_identity, identity_generation),
    {
        match &is_identity {
            Some(i) => {
                let s = i.as_str();
                let yes: bool = str_same(s, "yes") || str_same(s, "Yes") || str_same(s, "yEs")
                    || str_same(s, "yeS") || str_same(s, "YEs") || str_same(s, "YeS") || str_same(
                    s,
                    "yES",
                ) || str_same(s, "YES");
                if yes && identity_generation.is_some() {
                    return identity_generation;
                }
            },
            None => {},
        }
        None
    }

    /// The text of a column of the catalog that holds one character: the
    /// number of the character, in decimal.
    pub fn get_with_null(char_val: i8) -> (r: String)
        ensures
            r@ == signed_digit_chars(char_val as int),
    {
        let mut s = String::new();
        push_signed_decimal(&mut s, char_val as i64);
        proof {
            assert(s@ =~= signed_digit_chars(char_val as int));
        }
        s
    }

    /// The column that a row of the catalog describes.
    pub fn column_of(row: &ColumnRow) -> (col: Column)
        ensures
            is_column_of(col, *row),
    {
        let column_type = PgStructExtractor::get_col_data_type(
            text_or_empty(&row.udt_name),
            text_or_empty(&row.data_type),
            text_or_empty(&row.table_schema),
            row.character_maximum_length,
            row.numeric_precision,
            row.numeric_scale,
        ).unwrap();
        let generated = PgStructExtractor::get_col_generated_rule(
            copy_opt_exact(&row.is_identity),
            copy_opt_exact(&row.identity_generation),
        );
        Column {
            column_name: text_or_empty(&row.column_name),
            order_position: if row.ordinal_position >= 0 {
                row.ordinal_position as u32
            } else {
                (row.ordinal_position as i64 + 0x1_0000_0000) as u32
            },
            default_value: copy_opt(&row.column_default),
            is_nullable: text_or_empty(&row.is_nullable),
            column_type,
            generated,
            column_key: String::new(),
            extra: String::new(),
            column_comment: String::new(),
            character_set: String::new(),
            collation: String::new(),
        }
    }

    /// The tables that the rows of the catalog describe, each with its
    /// columns in the order of the rows, the tables in the order in
    /// which the rows first name them.
    pub fn get_table(&self, rows: &Vec<ColumnRow>) -> (tables: Vec<Table>)
        ensures
            are_tables_of(self.filter, tables@, rows@),
            in_naming_order(self.filter, tables@, rows@),
    {
        let mut tables: Vec<Table> = Vec::new();
        let mut i: usize = 0;
        while i < rows.len()
            invariant
                i <= rows@.len(),
                are_tables_of(self.filter, tables@, rows@.take(i as int)),
                in_naming_order(self.filter, tables@, rows@.take(i as int)),
            decreases rows@.len() - i,
        {
            let ghost before = tables@;
            let ghost seen = rows@.take(i as int);
            let ghost now = rows@.take(i + 1);
            let row = &rows[i];
            let schema = text_or_empty(&row.table_schema);
            let name = text_or_empty(&row.table_name);
            proof {
                assert(now.drop_last() =~= seen);
                assert(now.last() == *row);
                assert forall|j: int| 0 <= j < seen.len() implies seen[j] == now[j] by {}
            }
            if self.takes(schema.as_str(), name.as_str()) {
                let col = PgStructExtractor::column_of(row);
                let mut found: Option<usize> = None;
                let mut j: usize = 0;
                while j < tables.len()
                    invariant_except_break
                        found is None,
                        forall|k: int|
                            0 <= k < j ==> !((#[trigger] tables@[k]).schema_name@ == schema@
                                && tables@[k].table_name@ == name@),
                    invariant
                        j <= tables@.len(),
                    ensures
                        match found {
                            Some(at) => at < tables@.len() && tables@[at as int].schema_name@
                                == schema@ && tables@[at as int].table_name@ == name@,
                            None => forall|k: int|
                                0 <= k < tables@.len() ==> !((#[trigger] tables@[k]).schema_name@
                                    == schema@ && tables@[k].table_name@ == name@),
                        },
                    decreases tables@.len() - j,
                {
                    if str_same(tables[j].schema_name.as_str(), schema.as_str()) && str_same(
                        tables[j].table_name.as_str(),
                        name.as_str(),
                    ) {
                        found = Some(j);
                        break;
                    }
                    j = j + 1;
                }
                match found {
                    Some(at) => {
                        let mut table = tables.remove(at);
                        let ghost old_columns = table.columns@;
                        table.columns.push(col);
                        proof {
                            assert(table.columns@.drop_last() =~= old_columns);
                        }
                        tables.insert(at, table);
                        proof {
                            lemma_tables_grow(self.filter, before, tables@, seen, now, at as int);
                            lemma_order_stays(self.filter, before, tables@, seen, now);
                        }
                    },
                    None => {
                        let mut columns: Vec<Column> = Vec::new();
                        columns.push(col);
                        let table = Table {
                            database_name: String::new(),
                            schema_name: schema,
                            table_name: name,
                            engine_name: String::new(),
                            table_comment: String::new(),
                            columns,
                        };
                        tables.push(table);
                        proof {
                            assert(tables@.drop_last() =~= before);
                            lemma_order_extends(self.filter, before, tables@, seen, now);
                            lemma_tables_extend(self.filter, before, tables@, seen, now);
                        }
                    },
                }
            } else {
                proof {
                    lemma_tables_stay(self.filter, before, seen, now);
                    lemma_order_stays(self.filter, before, before, seen, now);
                }
            }
            i = i + 1;
        }
        proof {
            assert(rows@.take(i as int) =~= rows@);
        }
        tables
    }

    /// The constraints that the taken rows of the catalog describe, in
    /// the order of the rows.
    pub fn get_constraint(&self, rows: &Vec<ConstraintRow>) -> (out: Vec<Constraint>)
        ensures
            out@.len() == taken_constraints(self.filter, rows@).len(),
            forall|k: int|
                0 <= k < out@.len() ==> is_constraint_of(
                    #[trigger] out@[k],
                    taken_constraints(self.filter, rows@)[k],
                ),
    {
        let mut out: Vec<Constraint> = Vec::new();
        let mut i: usize = 0;
        while i < rows.len()
            invariant
                i <= rows@.len(),
                out@.len() == taken_constraints(self.filter, rows@.take(i as int)).len(),
                forall|k: int|
                    0 <= k < out@.len() ==> is_constraint_of(
                        #[trigger] out@[k],
                        taken_constraints(self.filter, rows@.take(i as int))[k],
                    ),
            decreases rows@.len() - i,
        {
            let row = &rows[i];
            let schema = text_or_empty(&row.nspname);
            let table = text_or_empty(&row.relname);
            proof {
                let now = rows@.take(i + 1);
                assert(now.drop_last() =~= rows@.take(i as int));
                assert(now.last() == *row);
            }
            if self.takes(schema.as_str(), table.as_str()) {
                out.push(
                    Constraint {
                        database_name: String::new(),
                        schema_name: schema,
                        table_name: table,
                        constraint_name: text_or_empty(&row.constraint_name),
                        constraint_type: PgStructExtractor::get_with_null(row.constraint_type),
                        definition: text_or_empty(&row.constraint_definition),
                    },
                );
            }
            i = i + 1;
        }
        proof {
            assert(rows@.take(i as int) =~= rows@);
        }
        out
    }

    /// The indexes that the taken rows of the catalog describe, in the
    /// order of the rows.
    pub fn get_index(&self, rows: &Vec<IndexRow>) -> (out: Vec<Index>)
        ensures
            out@.len() == taken_indexes(self.filter, rows@).len(),
            forall|k: int|
                0 <= k < out@.len() ==> is_index_of(
                    #[trigger] out@[k],
                    taken_indexes(self.filter, rows@)[k],
                ),
    {
        let mut out: Vec<Index> = Vec::new();
        let mut i: usize = 0;
        while i < rows.len()
            invariant
                i <= rows@.len(),
                out@.len() == taken_indexes(self.filter, rows@.take(i as int)).len(),
                forall|k: int|
                    0 <= k < out@.len() ==> is_index_of(
                        #[trigger] out@[k],
                        taken_indexes(self.filter, rows@.take(i as int))[k],
                    ),
            decreases rows@.len() - i,
        {
            let row = &rows[i];
            let schema = text_or_empty(&row.schemaname);
            let table = text_or_empty(&row.tablename);
            proof {
                let now = rows@.take(i + 1);
                assert(now.drop_last() =~= rows@.take(i as int));
                assert(now.last() == *row);
            }
            if self.takes(schema.as_str(), table.as_str()) {
                out.push(
                    Index {
                        database_name: String::new(),
                        schema_name: schema,
                        table_name: table,
                        index_name: text_or_empty(&row.indexname),
                        index_kind: IndexKind::Index,
                        index_type: String::new(),
                        comment: String::new(),
                        tablespace: text_or_empty(&row.tablespace),
                        definition: text_or_empty(&row.indexdef),
                        columns: Vec::new(),
                    },
                );
            }
            i = i + 1;
        }
        proof {
            assert(rows@.take(i as int) =~= rows@);
        }
        out
    }

    /// The comments that the rows of the catalog describe: those on
    /// tables, from the rows `table_rows` that are taken, then those on
    /// columns, from the rows `column_rows` whose table is to be
    /// migrated; each in the order of its rows.
    pub fn get_comment(&self, table_rows: &Vec<CommentRow>, column_rows: &Vec<CommentRow>) -> (out:
        Vec<Comment>)
        ensures
            ({
                let wanted_rows = taken_comments(self.filter, table_rows@, true) + taken_comments(
                    self.filter,
                    column_rows@,
                    false,
                );
                &&& out@.len() == wanted_rows.len()
                &&& forall|k: int|
                    0 <= k < out@.len() ==> is_comment_of(#[trigger] out@[k], wanted_rows[k])
            }),
    {
        let mut out: Vec<Comment> = Vec::new();
        self.add_comments(&mut out, table_rows, true);
        let ghost first = taken_comments(self.filter, table_rows@, true);
        let ghost second = taken_comments(self.filter, column_rows@, false);
        let ghost mid = out@;
        proof {
            assert forall|k: int| 0 <= k < first.len() implies is_comment_of(
                #[trigger] mid[k],
                first[k],
            ) by {
                assert(mid[0 + k] == mid[k]);
            }
        }
        self.add_comments(&mut out, column_rows, false);
        proof {
            let all = first + second;
            assert forall|k: int| 0 <= k < out@.len() implies is_comment_of(
                #[trigger] out@[k],
                all[k],
            ) by {
                if k < first.len() {
                    assert(out@[k] == mid[k]);
                } else {
                    assert(out@[mid.len() + (k - first.len())] == out@[k]);
                    assert(all[k] == second[k - first.len()]);
                }
            }
        }
        out
    }

    /// Appends to `out` the comments that the rows `rows` describe. A
    /// row is passed over where its table is not to be migrated, and,
    /// where `named` holds, where it names neither schema nor table.
    fn add_comments(&self, out: &mut Vec<Comment>, rows: &Vec<CommentRow>, named: bool)
        ensures
            final(out)@.len() == old(out)@.len() + taken_comments(self.filter, rows@, named).len(),
            forall|k: int| 0 <= k < old(out)@.len() ==> #[trigger] final(out)@[k] == old(out)@[k],
            forall|k: int|
                0 <= k < taken_comments(self.filter, rows@, named).len() ==> is_comment_of(
                    #[trigger] final(out)@[old(out)@.len() + k],
                    taken_comments(self.filter, rows@, named)[k],
                ),
    {
        let ghost start = out@;
        let mut i: usize = 0;
        while i < rows.len()
            invariant
                i <= rows@.len(),
                out@.len() == start.len() + taken_comments(
                    self.filter,
                    rows@.take(i as int),
                    named,
                ).len(),
                forall|k: int| 0 <= k < start.len() ==> #[trigger] out@[k] == start[k],
                forall|k: int|
                    0 <= k < taken_comments(self.filter, rows@.take(i as int), named).len()
                        ==> is_comment_of(
                        #[trigger] out@[start.len() + k],
                        taken_comments(self.filter, rows@.take(i as int), named)[k],
                    ),
            decreases rows@.len() - i,
        {
            let row = &rows[i];
            let schema = text_or_empty(&row.nspname);
            let table = text_or_empty(&row.relname);
            proof {
                let now = rows@.take(i + 1);
                assert(now.drop_last() =~= rows@.take(i as int));
                assert(now.last() == *row);
            }
            let take: bool = if named {
                self.takes(schema.as_str(), table.as_str())
            } else {
                self.wants(schema.as_str(), table.as_str())
            };
            if take {
                out.push(
                    Comment {
                        database_name: String::new(),
                        schema_name: schema,
                        table_name: table,
                        column_name: text_or_empty(&row.name),
                        comment: text_or_empty(&row.comment),
                    },
                );
            }
            i = i + 1;
        }
        proof {
            assert(rows@.take(i as int) =~= rows@);
        }
    }

    /// Offers the models to the queue in order, up to the first that
    /// the queue refuses; the models from that one on come back, in
    /// order.
    pub fn push_to_queue(queue: &ConcurrentQueue<StructModel>, models: Vec<StructModel>) -> (r:
        Offered<StructModel>)
        ensures
            r.left@.len() <= models@.len(),
            r.left@ == models@.skip(models@.len() - r.left@.len()),
            r.closed ==> r.left@.len() > 0,
    {
        push_all(queue, models)
    }
}

/// A copy of a text that may be null.
fn copy_opt_exact(v: &Option<String>) -> (s: Option<String>)
    ensures
        s == *v,
{
    match v {
        Some(s) => Some(s.clone()),
        None => None,
    }
}

/// The rows of `rows` that are taken, in order.
pub open spec fn taken_constraints(f: StructFilter, rows: Seq<ConstraintRow>) -> Seq<ConstraintRow>
    decreases rows.len(),
{
    if rows.len() == 0 {
        Seq::empty()
    } else if taken(f, text_of(rows.last().nspname), text_of(rows.last().relname)) {
        taken_constraints(f, rows.drop_last()).push(rows.last())
    } else {
        taken_constraints(f, rows.drop_last())
    }
}

/// The rows of `rows` that are taken, in order.
pub open spec fn taken_indexes(f: StructFilter, rows: Seq<IndexRow>) -> Seq<IndexRow>
    decreases rows.len(),
{
    if rows.len() == 0 {
        Seq::empty()
    } else if taken(f, text_of(rows.last().schemaname), text_of(rows.last().tablename)) {
        taken_indexes(f, rows.drop_last()).push(rows.last())
    } else {
        taken_indexes(f, rows.drop_last())
    }
}

/// The rows of `rows` whose table is to be migrated, in order; where
/// `named` holds, without the rows that name neither schema nor table.
pub open spec fn taken_comments(f: StructFilter, rows: Seq<CommentRow>, named: bool) -> Seq<
    CommentRow,
>
    decreases rows.len(),
{
    if rows.len() == 0 {
        Seq::empty()
    } else if (if named {
        taken(f, text_of(rows.last().nspname), text_of(rows.last().relname))
    } else {
        wanted(f, text_of(rows.last().nspname), text_of(rows.last().relname))
    }) {
        taken_comments(f, rows.drop_last(), named).push(rows.last())
    } else {
        taken_comments(f, rows.drop_last(), named)
    }
}

/// Where no taken row of `rows` describes a column of a table, the
/// table has no rows.
pub proof fn lemma_unseen_table_has_no_rows(
    f: StructFilter,
    rows: Seq<ColumnRow>,
    schema: Seq<char>,
    table: Seq<char>,
)
    requires
        !table_seen(f, rows, schema, table),
    ensures
        rows_of_table(f, rows, schema, table).len() == 0,
    decreases rows.len(),
{
    if rows.len() > 0 {
        let rest = rows.drop_last();
        assert(!is_row_of(f, rows[rows.len() - 1], schema, table));
        assert(!table_seen(f, rest, schema, table)) by {
            if table_seen(f, rest, schema, table) {
                let i = choose|i: int|
                    0 <= i < rest.len() && is_row_of(f, #[trigger] rest[i], schema, table);
                assert(is_row_of(f, rows[i], schema, table));
            }
        }
        lemma_unseen_table_has_no_rows(f, rest, schema, table);
    }
}

/// A table that was seen stays seen when a row follows.
pub proof fn lemma_seen_stays(
    f: StructFilter,
    seen: Seq<ColumnRow>,
    now: Seq<ColumnRow>,
    schema: Seq<char>,
    table: Seq<char>,
)
    requires
        now.len() == seen.len() + 1,
        now.drop_last() == seen,
        table_seen(f, seen, schema, table),
    ensures
        table_seen(f, now, schema, table),
{
    let i = choose|i: int| 0 <= i < seen.len() && is_row_of(f, #[trigger] seen[i], schema, table);
    assert(now[i] == seen[i]);
    assert(is_row_of(f, now[i], schema, table));
}

/// A row that is not taken changes nothing.
pub proof fn lemma_tables_stay(
    f: StructFilter,
    tables: Seq<Table>,
    seen: Seq<ColumnRow>,
    now: Seq<ColumnRow>,
)
    requires
        now.len() == seen.len() + 1,
        now.drop_last() == seen,
        are_tables_of(f, tables, seen),
        !taken(f, text_of(now.last().table_schema), text_of(now.last().table_name)),
    ensures
        are_tables_of(f, tables, now),
{
    assert forall|j: int| 0 <= j < tables.len() implies {
        &&& table_seen(f, now, (#[trigger] tables[j]).schema_name@, tables[j].table_name@)
        &&& is_table_of(
            tables[j],
            tables[j].schema_name@,
            tables[j].table_name@,
            rows_of_table(f, now, tables[j].schema_name@, tables[j].table_name@),
        )
    } by {
        lemma_seen_stays(f, seen, now, tables[j].schema_name@, tables[j].table_name@);
    }
    assert forall|i: int|
        0 <= i < now.len() && taken(
            f,
            text_of((#[trigger] now[i]).table_schema),
            text_of(now[i].table_name),
        ) implies exists|j: int|
        0 <= j < tables.len() && (#[trigger] tables[j]).schema_name@ == text_of(
            now[i].table_schema,
        ) && tables[j].table_name@ == text_of(now[i].table_name) by {
        assert(i < seen.len());
        assert(now[i] == seen[i]);
    }
}

/// One more row leaves tables of the same names in the order in which
/// they were first named.
pub proof fn lemma_order_stays(
    f: StructFilter,
    before: Seq<Table>,
    after: Seq<Table>,
    seen: Seq<ColumnRow>,
    now: Seq<ColumnRow>,
)
    requires
        now.len() == seen.len() + 1,
        now.drop_last() == seen,
        in_naming_order(f, before, seen),
        after.len() == before.len(),
        forall|k: int|
            0 <= k < before.len() ==> (#[trigger] after[k]).schema_name@ == before[k].schema_name@
                && after[k].table_name@ == before[k].table_name@,
    ensures
        in_naming_order(f, after, now),
{
    assert forall|i: int, j: int| 0 <= i < j < after.len() implies #[trigger] named_before(
        f,
        now,
        after[i].schema_name@,
        after[i].table_name@,
        after[j].schema_name@,
        after[j].table_name@,
    ) by {
        let a = before[i];
        let b = before[j];
        assert(after[i].schema_name@ == a.schema_name@ && after[i].table_name@ == a.table_name@);
        assert(after[j].schema_name@ == b.schema_name@ && after[j].table_name@ == b.table_name@);
        assert(named_before(
            f,
            seen,
            a.schema_name@,
            a.table_name@,
            b.schema_name@,
            b.table_name@,
        ));
        let r = choose|r: int|
            0 <= r < seen.len() && is_row_of(f, #[trigger] seen[r], a.schema_name@, a.table_name@)
                && forall|q: int|
                0 <= q <= r ==> !is_row_of(f, #[trigger] seen[q], b.schema_name@, b.table_name@);
        assert(now[r] == seen[r]);
        assert forall|q: int| 0 <= q <= r implies !is_row_of(
            f,
            #[trigger] now[q],
            b.schema_name@,
            b.table_name@,
        ) by {
            assert(now[q] == seen[q]);
        }
    }
}

/// A table that no row has named yet comes after all that were named.
pub proof fn lemma_order_extends(
    f: StructFilter,
    before: Seq<Table>,
    after: Seq<Table>,
    seen: Seq<ColumnRow>,
    now: Seq<ColumnRow>,
)
    requires
        now.len() == seen.len() + 1,
        now.drop_last() == seen,
        are_tables_of(f, before, seen),
        in_naming_order(f, before, seen),
        after.len() == before.len() + 1,
        after.drop_last() == before,
        forall|k: int|
            0 <= k < before.len() ==> !((#[trigger] before[k]).schema_name@
                == after.last().schema_name@ && before[k].table_name@ == after.last().table_name@),
    ensures
        in_naming_order(f, after, now),
{
    let new_schema = after.last().schema_name@;
    let new_table = after.last().table_name@;
    assert forall|i: int, j: int| 0 <= i < j < after.len() implies #[trigger] named_before(
        f,
        now,
        after[i].schema_name@,
        after[i].table_name@,
        after[j].schema_name@,
        after[j].table_name@,
    ) by {
        let a = before[i];
        assert(after[i] == a);
        if j < before.len() {
            let b = before[j];
            assert(after[j] == b);
            assert(named_before(
                f,
                seen,
                a.schema_name@,
                a.table_name@,
                b.schema_name@,
                b.table_name@,
            ));
            let r = choose|r: int|
                0 <= r < seen.len() && is_row_of(
                    f,
                    #[trigger] seen[r],
                    a.schema_name@,
                    a.table_name@,
                ) && forall|q: int|
                    0 <= q <= r ==> !is_row_of(
                        f,
                        #[trigger] seen[q],
                        b.schema_name@,
                        b.table_name@,
                    );
            assert(now[r] == seen[r]);
            assert forall|q: int| 0 <= q <= r implies !is_row_of(
                f,
                #[trigger] now[q],
                b.schema_name@,
                b.table_name@,
            ) by {
                assert(now[q] == seen[q]);
            }
        } else {
            assert(table_seen(f, seen, a.schema_name@, a.table_name@));
            let r = choose|r: int|
                0 <= r < seen.len() && is_row_of(
                    f,
                    #[trigger] seen[r],
                    a.schema_name@,
                    a.table_name@,
                );
            assert(now[r] == seen[r]);
            assert forall|q: int| 0 <= q <= r implies !is_row_of(
                f,
                #[trigger] now[q],
                new_schema,
                new_table,
            ) by {
                assert(now[q] == seen[q]);
                if is_row_of(f, seen[q], new_schema, new_table) {
                    let k = choose|k: int|
                        0 <= k < before.len() && (#[trigger] before[k]).schema_name@ == text_of(
                            seen[q].table_schema,
                        ) && before[k].table_name@ == text_of(seen[q].table_name);
                    assert(false);
                }
            }
        }
    }
}

/// A taken row of a table that has no model yet gives a new model, with
/// the column of the row.
pub proof fn lemma_tables_extend(
    f: StructFilter,
    before: Seq<Table>,
    after: Seq<Table>,
    seen: Seq<ColumnRow>,
    now: Seq<ColumnRow>,
)
    requires
        now.len() == seen.len() + 1,
        now.drop_last() == seen,
        are_tables_of(f, before, seen),
        taken(f, text_of(now.last().table_schema), text_of(now.last().table_name)),
        forall|k: int|
            0 <= k < before.len() ==> !((#[trigger] before[k]).schema_name@ == text_of(
                now.last().table_schema,
            ) && before[k].table_name@ == text_of(now.last().table_name)),
        after.len() == before.len() + 1,
        after.drop_last() == before,
        is_table_of(
            after.last(),
            text_of(now.last().table_schema),
            text_of(now.last().table_name),
            seq![now.last()],
        ),
    ensures
        are_tables_of(f, after, now),
{
    let row = now.last();
    let schema = text_of(row.table_schema);
    let name = text_of(row.table_name);
    assert(!table_seen(f, seen, schema, name)) by {
        if table_seen(f, seen, schema, name) {
            let i = choose|i: int|
                0 <= i < seen.len() && is_row_of(f, #[trigger] seen[i], schema, name);
            let j = choose|j: int|
                0 <= j < before.len() && (#[trigger] before[j]).schema_name@ == text_of(
                    seen[i].table_schema,
                ) && before[j].table_name@ == text_of(seen[i].table_name);
            assert(!(before[j].schema_name@ == schema && before[j].table_name@ == name));
        }
    }
    lemma_unseen_table_has_no_rows(f, seen, schema, name);
    assert(rows_of_table(f, now, schema, name) =~= seq![row]);
    assert(is_row_of(f, now[now.len() - 1], schema, name));
    assert forall|j: int| 0 <= j < after.len() implies {
        &&& table_seen(f, now, (#[trigger] after[j]).schema_name@, after[j].table_name@)
        &&& is_table_of(
            after[j],
            after[j].schema_name@,
            after[j].table_name@,
            rows_of_table(f, now, after[j].schema_name@, after[j].table_name@),
        )
    } by {
        if j < before.len() {
            assert(after[j] == before[j]);
            lemma_seen_stays(f, seen, now, before[j].schema_name@, before[j].table_name@);
        }
    }
    assert forall|i: int, j: int| 0 <= i < j < after.len() implies !((
    #[trigger] after[i]).schema_name@ == (#[trigger] after[j]).schema_name@ && after[i].table_name@
        == after[j].table_name@) by {
        assert(after[i] == before[i]);
        if j < before.len() {
            assert(after[j] == before[j]);
        }
    }
    assert forall|i: int|
        0 <= i < now.len() && taken(
            f,
            text_of((#[trigger] now[i]).table_schema),
            text_of(now[i].table_name),
        ) implies exists|j: int|
        0 <= j < after.len() && (#[trigger] after[j]).schema_name@ == text_of(
            now[i].table_schema,
        ) && after[j].table_name@ == text_of(now[i].table_name) by {
        if i < seen.len() {
            assert(now[i] == seen[i]);
            let j = choose|j: int|
                0 <= j < before.len() && (#[trigger] before[j]).schema_name@ == text_of(
                    seen[i].table_schema,
                ) && before[j].table_name@ == text_of(seen[i].table_name);
            assert(after[j] == before[j]);
        } else {
            assert(after[after.len() - 1].schema_name@ == schema);
        }
    }
}

/// A taken row of a table that has a model adds its column to the
/// model.
pub proof fn lemma_tables_grow(
    f: StructFilter,
    before: Seq<Table>,
    after: Seq<Table>,
    seen: Seq<ColumnRow>,
    now: Seq<ColumnRow>,
    at: int,
)
    requires
        now.len() == seen.len() + 1,
        now.drop_last() == seen,
        are_tables_of(f, before, seen),
        taken(f, text_of(now.last().table_schema), text_of(now.last().table_name)),
        0 <= at < before.len(),
        before[at].schema_name@ == text_of(now.last().table_schema),
        before[at].table_name@ == text_of(now.last().table_name),
        after.len() == before.len(),
        forall|k: int| 0 <= k < before.len() && k != at ==> #[trigger] after[k] == before[k],
        after[at].database_name == before[at].database_name,
        after[at].schema_name == before[at].schema_name,
        after[at].table_name == before[at].table_name,
        after[at].engine_name == before[at].engine_name,
        after[at].table_comment == before[at].table_comment,
        after[at].columns@.len() == before[at].columns@.len() + 1,
        after[at].columns@.drop_last() == before[at].columns@,
        is_column_of(after[at].columns@.last(), now.last()),
    ensures
        are_tables_of(f, after, now),
{
    let row = now.last();
    let schema = text_of(row.table_schema);
    let name = text_of(row.table_name);
    assert(is_row_of(f, now[now.len() - 1], schema, name));
    assert forall|j: int| 0 <= j < after.len() implies {
        &&& table_seen(f, now, (#[trigger] after[j]).schema_name@, after[j].table_name@)
        &&& is_table_of(
            after[j],
            after[j].schema_name@,
            after[j].table_name@,
            rows_of_table(f, now, after[j].schema_name@, after[j].table_name@),
        )
    } by {
        lemma_seen_stays(f, seen, now, before[j].schema_name@, before[j].table_name@);
        if j == at {
            let old_rows = rows_of_table(f, seen, schema, name);
            let new_rows = rows_of_table(f, now, schema, name);
            assert(new_rows =~= old_rows.push(row));
            assert forall|k: int| 0 <= k < new_rows.len() implies is_column_of(
                #[trigger] after[at].columns@[k],
                new_rows[k],
            ) by {
                if k < old_rows.len() {
                    assert(after[at].columns@[k] == before[at].columns@[k]);
                }
            }
        } else {
            assert(after[j] == before[j]);
            assert(!(before[j].schema_name@ == schema && before[j].table_name@ == name)) by {
                if j < at {
                    assert(!(before[j].schema_name@ == before[at].schema_name@
                        && before[j].table_name@ == before[at].table_name@));
                } else {
                    assert(!(before[at].schema_name@ == before[j].schema_name@
                        && before[at].table_name@ == before[j].table_name@));
                }
            }
        }
    }
    assert forall|i: int, j: int| 0 <= i < j < after.len() implies !((
    #[trigger] after[i]).schema_name@ == (#[trigger] after[j]).schema_name@ && after[i].table_name@
        == after[j].table_name@) by {
        assert(!(before[i].schema_name@ == before[j].schema_name@ && before[i].table_name@
            == before[j].table_name@));
    }
    assert forall|i: int|
        0 <= i < now.len() && taken(
            f,
            text_of((#[trigger] now[i]).table_schema),
            text_of(now[i].table_name),
        ) implies exists|j: int|
        0 <= j < after.len() && (#[trigger] after[j]).schema_name@ == text_of(
            now[i].table_schema,
        ) && after[j].table_name@ == text_of(now[i].table_name) by {
        if i < seen.len() {
            assert(now[i] == seen[i]);
            let j = choose|j: int|
                0 <= j < before.len() && (#[trigger] before[j]).schema_name@ == text_of(
                    seen[i].table_schema,
                ) && before[j].table_name@ == text_of(seen[i].table_name);
            assert(after[j].schema_name@ == before[j].schema_name@);
        } else {
            assert(after[at].schema_name@ == schema);
        }
    }
}

} // verus!
