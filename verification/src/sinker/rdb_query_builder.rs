//! The statements that a relational destination is sent.
//!
//! A statement is its text, the columns that its placeholders stand for,
//! and the values that are bound to them, in the order of the
//! placeholders. PostgreSQL numbers its placeholders, MySQL writes a
//! question mark for each.

use vstd::prelude::*;
use crate::meta::col_value::{ColMap, ColValue};
use crate::meta::rdb_tb_meta::RdbTbMeta;
use crate::meta::row_data::RowData;
use crate::meta::row_type::RowType;
use crate::sinker::base_sinker::chunk_len;
use crate::util::text::{
    digit_chars,
    join,
    lemma_string_views_push,
    push_decimal,
    push_joined,
    string_views,
};

verus! {

/// How placeholders are written.
#[derive(Debug, Clone, Copy, PartialEq, Eq, Structural)]
pub enum Dialect {
    Pg,
    Mysql,
}

/// A statement with what it binds.
#[derive(Debug)]
pub struct QueryInfo<'a> {
    pub sql: String,
    pub cols: Vec<String>,
    pub binds: Vec<Option<&'a ColValue>>,
}

/// A builder of statements for one table.
#[derive(Debug, Clone, Copy)]
pub struct RdbQueryBuilder<'a> {
    pub tb_meta: &'a RdbTbMeta,
    pub dialect: Dialect,
}

/// The placeholder number `index`.
pub open spec fn placeholder(dialect: Dialect, index: nat) -> Seq<char> {
    match dialect {
        Dialect::Pg => seq!['$'] + digit_chars(index),
        Dialect::Mysql => seq!['?'],
    }
}

/// The `n` placeholders from number `first` on.
pub open spec fn placeholders(dialect: Dialect, first: nat, n: nat) -> Seq<Seq<char>> {
    Seq::new(n, |i: int| placeholder(dialect, (first + i) as nat))
}

/// The columns of `cols`, each set equal to a placeholder, from number
/// `first` on.
pub open spec fn assignments(dialect: Dialect, cols: Seq<Seq<char>>, first: nat) -> Seq<Seq<char>> {
    Seq::new(cols.len(), |i: int| cols[i] + seq!['='] + placeholder(dialect, (first + i) as nat))
}

/// A row of `width` placeholders in brackets, from number `first` on.
pub open spec fn tuple(dialect: Dialect, first: nat, width: nat) -> Seq<char> {
    seq!['('] + join(placeholders(dialect, first, width), ","@) + seq![')']
}

/// `count` rows of `width` placeholders each, from number `first` on.
pub open spec fn tuples(dialect: Dialect, first: nat, width: nat, count: nat) -> Seq<Seq<char>> {
    Seq::new(count, |i: int| tuple(dialect, (first + i * width) as nat, width))
}

/// The name of the table of `m`.
pub open spec fn table_name(m: RdbTbMeta) -> Seq<char> {
    m.schema@ + seq!['.'] + m.tb@
}

/// The insert of `count` rows into the table of `m`.
pub open spec fn insert_sql(dialect: Dialect, m: RdbTbMeta, count: nat) -> Seq<char> {
    "INSERT INTO "@ + table_name(m) + seq!['('] + join(string_views(m.cols@), ","@) + ") VALUES"@
        + join(tuples(dialect, 1, m.cols@.len(), count), ","@)
}

/// The delete of the row with given values in the identity columns of
/// the table of `m`.
pub open spec fn delete_sql(dialect: Dialect, m: RdbTbMeta) -> Seq<char> {
    "DELETE FROM "@ + table_name(m) + " WHERE "@ + join(
        assignments(dialect, string_views(m.id_cols@), 1),
        " AND "@,
    )
}

/// The delete of `count` rows, each with given values in the identity
/// columns of the table of `m`.
pub open spec fn batch_delete_sql(dialect: Dialect, m: RdbTbMeta, count: nat) -> Seq<char> {
    "DELETE FROM "@ + table_name(m) + " WHERE ("@ + join(string_views(m.id_cols@), ","@) + ") IN ("@
        + join(tuples(dialect, 1, m.id_cols@.len(), count), ","@) + seq![')']
}

/// The update of every column of the row with given values in the
/// identity columns of the table of `m`.
pub open spec fn update_sql(dialect: Dialect, m: RdbTbMeta) -> Seq<char> {
    "UPDATE "@ + table_name(m) + " SET "@ + join(
        assignments(dialect, string_views(m.cols@), 1),
        ","@,
    ) + " WHERE "@ + join(
        assignments(dialect, string_views(m.id_cols@), (m.cols@.len() + 1) as nat),
        " AND "@,
    )
}

/// The select of the row with given values in the identity columns of
/// the table of `m`.
pub open spec fn select_sql(dialect: Dialect, m: RdbTbMeta) -> Seq<char> {
    "SELECT * FROM "@ + table_name(m) + " WHERE "@ + join(
        assignments(dialect, string_views(m.id_cols@), 1),
        " AND "@,
    )
}

/// The select of `count` rows, each with given values in the identity
/// columns of the table of `m`.
pub open spec fn batch_select_sql(dialect: Dialect, m: RdbTbMeta, count: nat) -> Seq<char> {
    "SELECT * FROM "@ + table_name(m) + " WHERE ("@ + join(string_views(m.id_cols@), ","@)
        + ") IN ("@ + join(tuples(dialect, 1, m.id_cols@.len(), count), ","@) + seq![')']
}

/// The values of the columns `cols` in the row image `image`, `None`
/// for a column that the image lacks, and for every column where there
/// is no image.
pub open spec fn image_values(image: Option<ColMap>, cols: Seq<Seq<char>>) -> Seq<Option<ColValue>> {
    Seq::new(
        cols.len(),
        |i: int|
            match image {
                Some(m) => m.spec_get(cols[i]),
                None => None,
            },
    )
}

/// The values of the columns `cols` in the images of the rows of `rows`,
/// row after row; of each row the image after the change where `after`
/// holds, the image before it where not.
pub open spec fn rows_values(rows: Seq<RowData>, cols: Seq<Seq<char>>, after: bool) -> Seq<
    Option<ColValue>,
>
    decreases rows.len(),
{
    if rows.len() == 0 {
        Seq::empty()
    } else {
        rows_values(rows.drop_last(), cols, after) + image_values(
            if after {
                rows.last().after
            } else {
                rows.last().before
            },
            cols,
        )
    }
}

/// The columns `cols`, `count` times over.
pub open spec fn repeated(cols: Seq<Seq<char>>, count: nat) -> Seq<Seq<char>>
    decreases count,
{
    if count == 0 {
        Seq::empty()
    } else {
        repeated(cols, (count - 1) as nat) + cols
    }
}

/// The values that `binds` refer to.
pub open spec fn values_of(binds: Seq<Option<&ColValue>>) -> Seq<Option<ColValue>> {
    Seq::new(
        binds.len(),
        |i: int|
            match binds[i] {
                Some(v) => Some(*v),
                None => None,
            },
    )
}

/// The values of a run of binds with one more are the values of the run
/// with the value of the one more.
pub proof fn lemma_values_of_push(binds: Seq<Option<&ColValue>>, last: Option<&ColValue>)
    ensures
        values_of(binds.push(last)) == values_of(binds).push(
            match last {
                Some(v) => Some(*v),
                None => None,
            },
        ),
{
    assert(values_of(binds.push(last)) =~= values_of(binds).push(
        match last {
            Some(v) => Some(*v),
            None => None,
        },
    ));
}

impl<'a> RdbQueryBuilder<'a> {
    /// A builder of statements for PostgreSQL.
    pub fn new_for_pg(tb_meta: &'a RdbTbMeta) -> (b: RdbQueryBuilder<'a>)
        ensures
            b.tb_meta == tb_meta,
            b.dialect == Dialect::Pg,
    {
        RdbQueryBuilder { tb_meta, dialect: Dialect::Pg }
    }

    /// A builder of statements for MySQL.
    pub fn new_for_mysql(tb_meta: &'a RdbTbMeta) -> (b: RdbQueryBuilder<'a>)
        ensures
            b.tb_meta == tb_meta,
            b.dialect == Dialect::Mysql,
    {
        RdbQueryBuilder { tb_meta, dialect: Dialect::Mysql }
    }

    /// Appends the placeholder number `index` to `out`.
    pub fn get_placeholder(&self, out: &mut String, index: u128)
        ensures
            final(out)@ == old(out)@ + placeholder(self.dialect, index as nat),
    {
        match self.dialect {
            Dialect::Pg => {
                out.append("$");
                proof {
                    reveal_strlit("$");
                }
                push_decimal(out, index);
                proof {
                    assert(out@ =~= old(out)@ + placeholder(self.dialect, index as nat));
                }
            },
            Dialect::Mysql => {
                out.append("?");
                proof {
                    reveal_strlit("?");
                    assert(out@ =~= old(out)@ + placeholder(self.dialect, index as nat));
                }
            },
        }
    }

    /// Appends a row of `width` placeholders in brackets, from number
    /// `first` on, to `out`.
    fn push_tuple(&self, out: &mut String, first: u128, width: usize)
        requires
            first + width <= u128::MAX,
        ensures
            final(out)@ == old(out)@ + tuple(self.dialect, first as nat, width as nat),
    {
        let ghost all = placeholders(self.dialect, first as nat, width as nat);
        out.append("(");
        proof {
            reveal_strlit("(");
            reveal_strlit(")");
            reveal_strlit(",");
        }
        let ghost head = out@;
        let mut i: usize = 0;
        proof {
            assert(all.take(0) =~= Seq::<Seq<char>>::empty());
            assert(out@ =~= head + join(all.take(0), ","@));
        }
        while i < width
            invariant
                i <= width,
                first + width <= u128::MAX,
                all == placeholders(self.dialect, first as nat, width as nat),
                out@ == head + join(all.take(i as int), ","@),
            decreases width - i,
        {
            let ghost before = out@;
            if i > 0 {
                out.append(",");
            }
            self.get_placeholder(out, first + i as u128);
            i = i + 1;
            proof {
                reveal_strlit(",");
                let t = all.take(i as int);
                assert(t.drop_last() =~= all.take(i - 1));
                assert(t.last() == placeholder(self.dialect, (first + i - 1) as nat));
                if i == 1 {
                    assert(out@ =~= head + t[0]);
                } else {
                    assert(out@ =~= head + (join(t.drop_last(), ","@) + ","@ + t.last()));
                }
            }
        }
        out.append(")");
        proof {
            assert(all.take(i as int) =~= all);
            assert(out@ =~= old(out)@ + tuple(self.dialect, first as nat, width as nat));
        }
    }

    /// Appends `count` rows of `width` placeholders each, with commas
    /// between, to `out`.
    fn push_tuples(&self, out: &mut String, width: usize, count: usize)
        ensures
            final(out)@ == old(out)@ + join(tuples(self.dialect, 1, width as nat, count as nat), ","@),
    {
        let ghost all = tuples(self.dialect, 1, width as nat, count as nat);
        let ghost head = out@;
        let mut i: usize = 0;
        proof {
            reveal_strlit(",");
            assert(all.take(0) =~= Seq::<Seq<char>>::empty());
            assert(out@ =~= head + join(all.take(0), ","@));
        }
        while i < count
            invariant
                i <= count,
                all == tuples(self.dialect, 1, width as nat, count as nat),
                out@ == head + join(all.take(i as int), ","@),
            decreases count - i,
        {
            if i > 0 {
                out.append(",");
            }
            proof {
                assert(i * width <= 0xffff_ffff_ffff_ffff * 0xffff_ffff_ffff_ffff)
                    by (nonlinear_arith)
                    requires
                        0 <= i <= 0xffff_ffff_ffff_ffff,
                        0 <= width <= 0xffff_ffff_ffff_ffff,
                ;
            }
            let first: u128 = 1 + (i as u128) * (width as u128);
            self.push_tuple(out, first, width);
            i = i + 1;
            proof {
                reveal_strlit(",");
                let t = all.take(i as int);
                assert(t.drop_last() =~= all.take(i - 1));
                assert(t.last() == tuple(self.dialect, (1 + (i - 1) * width) as nat, width as nat));
                if i == 1 {
                    assert(out@ =~= head + t[0]);
                } else {
                    assert(out@ =~= head + (join(t.drop_last(), ","@) + ","@ + t.last()));
                }
            }
        }
        proof {
            assert(all.take(i as int) =~= all);
        }
    }

    /// Appends the columns `cols`, each set equal to a placeholder from
    /// number `first` on, with `sep` between, to `out`.
    fn push_assignments(&self, out: &mut String, cols: &Vec<String>, first: u128, sep: &str)
        requires
            first <= 0x1_0000_0000_0000_0000,
        ensures
            final(out)@ == old(out)@ + join(
                assignments(self.dialect, string_views(cols@), first as nat),
                sep@,
            ),
    {
        let ghost all = assignments(self.dialect, string_views(cols@), first as nat);
        let ghost head = out@;
        let n: usize = cols.len();
        let mut i: usize = 0;
        proof {
            assert(all.take(0) =~= Seq::<Seq<char>>::empty());
            assert(out@ =~= head + join(all.take(0), sep@));
        }
        while i < n
            invariant
                i <= n,
                n == cols@.len(),
                first <= 0x1_0000_0000_0000_0000,
                all == assignments(self.dialect, string_views(cols@), first as nat),
                out@ == head + join(all.take(i as int), sep@),
            decreases n - i,
        {
            if i > 0 {
                out.append(sep);
            }
            out.append(cols[i].as_str());
            out.append("=");
            proof {
                reveal_strlit("=");
            }
            self.get_placeholder(out, first + i as u128);
            i = i + 1;
            proof {
                let t = all.take(i as int);
                assert(t.drop_last() =~= all.take(i - 1));
                assert(t.last() == cols@[i - 1]@ + seq!['='] + placeholder(
                    self.dialect,
                    (first + i - 1) as nat,
                ));
                if i == 1 {
                    assert(out@ =~= head + t[0]);
                } else {
                    assert(out@ =~= head + (join(t.drop_last(), sep@) + sep@ + t.last()));
                }
            }
        }
        proof {
            assert(all.take(i as int) =~= all);
        }
    }

    /// Appends the name of the table to `out`.
    fn push_table(&self, out: &mut String)
        ensures
            final(out)@ == old(out)@ + table_name(*self.tb_meta),
    {
        out.append(self.tb_meta.schema.as_str());
        out.append(".");
        out.append(self.tb_meta.tb.as_str());
        proof {
            reveal_strlit(".");
            assert(out@ =~= old(out)@ + table_name(*self.tb_meta));
        }
    }

    /// Appends to `cols` the columns `names`, and to `binds` their
    /// values in `image`.
    fn bind_image(
        cols: &mut Vec<String>,
        binds: &mut Vec<Option<&'a ColValue>>,
        names: &Vec<String>,
        image: &'a Option<ColMap>,
    )
        ensures
            string_views(final(cols)@) == string_views(old(cols)@) + string_views(names@),
            values_of(final(binds)@) == values_of(old(binds)@) + image_values(
                *image,
                string_views(names@),
            ),
    {
        let ghost cols0 = string_views(cols@);
        let ghost binds0 = values_of(binds@);
        let ghost all = string_views(names@);
        let ghost values = image_values(*image, all);
        let mut i: usize = 0;
        proof {
            assert(string_views(cols@) =~= cols0 + all.take(0));
            assert(values_of(binds@) =~= binds0 + values.take(0));
        }
        while i < names.len()
            invariant
                i <= names@.len(),
                all == string_views(names@),
                values == image_values(*image, all),
                string_views(cols@) == cols0 + all.take(i as int),
                values_of(binds@) == binds0 + values.take(i as int),
            decreases names@.len() - i,
        {
            let name = &names[i];
            let bind: Option<&'a ColValue> = match image {
                Some(m) => m.get(name.as_str()),
                None => None,
            };
            let ghost cols_before = cols@;
            let ghost binds_before = binds@;
            let copy = name.clone();
            cols.push(copy);
            binds.push(bind);
            i = i + 1;
            proof {
                lemma_string_views_push(cols_before, copy);
                lemma_values_of_push(binds_before, bind);
                assert(all[i - 1] == name@);
                assert(string_views(cols@) =~= cols0 + all.take(i as int));
                assert(values_of(binds@) =~= binds0 + values.take(i as int));
            }
        }
        proof {
            assert(all.take(i as int) =~= all);
            assert(values.take(i as int) =~= values);
        }
    }

    /// Appends to `cols` and `binds` the columns `names` and their
    /// values for each of the rows `from .. from + len` of `data`.
    fn bind_rows(
        cols: &mut Vec<String>,
        binds: &mut Vec<Option<&'a ColValue>>,
        names: &Vec<String>,
        data: &'a Vec<RowData>,
        from: usize,
        len: usize,
        after: bool,
    )
        requires
            from + len <= data@.len(),
        ensures
            string_views(final(cols)@) == string_views(old(cols)@) + repeated(
                string_views(names@),
                len as nat,
            ),
            values_of(final(binds)@) == values_of(old(binds)@) + rows_values(
                data@.subrange(from as int, from + len),
                string_views(names@),
                after,
            ),
    {
        let ghost cols0 = string_views(cols@);
        let ghost binds0 = values_of(binds@);
        let ghost all = string_views(names@);
        let ghost chunk = data@.subrange(from as int, from + len);
        let n: usize = data.len();
        let mut i: usize = 0;
        proof {
            assert(chunk.take(0) =~= Seq::<RowData>::empty());
            assert(string_views(cols@) =~= cols0 + repeated(all, 0));
            assert(values_of(binds@) =~= binds0 + rows_values(chunk.take(0), all, after));
        }
        while i < len
            invariant
                i <= len,
                from + len <= n,
                n == data@.len(),
                all == string_views(names@),
                chunk == data@.subrange(from as int, from + len),
                string_views(cols@) == cols0 + repeated(all, i as nat),
                values_of(binds@) == binds0 + rows_values(chunk.take(i as int), all, after),
            decreases len - i,
        {
            let row = &data[from + i];
            proof {
                let t = chunk.take(i + 1);
                assert(t.drop_last() =~= chunk.take(i as int));
                assert(t.last() == *row);
            }
            if after {
                RdbQueryBuilder::bind_image(cols, binds, names, &row.after);
            } else {
                RdbQueryBuilder::bind_image(cols, binds, names, &row.before);
            }
            i = i + 1;
            proof {
                assert(string_views(cols@) =~= cols0 + repeated(all, i as nat));
                assert(values_of(binds@) =~= binds0 + rows_values(chunk.take(i as int), all, after));
            }
        }
        proof {
            assert(chunk.take(len as int) =~= chunk);
        }
    }

    /// The insert of the row image after the change `row_data`.
    pub fn get_insert_query(&self, row_data: &'a RowData) -> (q: QueryInfo<'a>)
        ensures
            q.sql@ == insert_sql(self.dialect, *self.tb_meta, 1),
            string_views(q.cols@) == string_views(self.tb_meta.cols@),
            values_of(q.binds@) == image_values(row_data.after, string_views(self.tb_meta.cols@)),
    {
        let mut sql = String::from_str("INSERT INTO ");
        self.push_table(&mut sql);
        sql.append("(");
        proof {
            reveal_strlit("(");
        }
        push_joined(&mut sql, &self.tb_meta.cols, ",");
        sql.append(") VALUES");
        self.push_tuples(&mut sql, self.tb_meta.cols.len(), 1);
        let mut cols: Vec<String> = Vec::new();
        let mut binds: Vec<Option<&'a ColValue>> = Vec::new();
        proof {
            assert(string_views(cols@) =~= Seq::<Seq<char>>::empty());
            assert(values_of(binds@) =~= Seq::<Option<ColValue>>::empty());
        }
        RdbQueryBuilder::bind_image(&mut cols, &mut binds, &self.tb_meta.cols, &row_data.after);
        proof {
            assert(sql@ =~= insert_sql(self.dialect, *self.tb_meta, 1));
            assert(string_views(cols@) =~= string_views(self.tb_meta.cols@));
            assert(values_of(binds@) =~= image_values(
                row_data.after,
                string_views(self.tb_meta.cols@),
            ));
        }
        QueryInfo { sql, cols, binds }
    }

    /// The insert of the row images after the changes `start_index ..
    /// start_index + batch_size` of `data`, as far as `data` has them,
    /// in one statement.
    pub fn get_batch_insert_query(&self, data: &'a Vec<RowData>, start_index: usize, batch_size: usize) -> (q:
        QueryInfo<'a>)
        ensures
            ({
                let from = if start_index <= data@.len() {
                    start_index as int
                } else {
                    data@.len() as int
                };
                let len = chunk_len(data@.len() as int, from, batch_size as int);
                &&& q.sql@ == insert_sql(self.dialect, *self.tb_meta, len as nat)
                &&& string_views(q.cols@) == repeated(string_views(self.tb_meta.cols@), len as nat)
                &&& values_of(q.binds@) == rows_values(
                    data@.subrange(from, from + len),
                    string_views(self.tb_meta.cols@),
                    true,
                )
            }),
    {
        let n: usize = data.len();
        let from: usize = if start_index <= n {
            start_index
        } else {
            n
        };
        let len: usize = if n - from < batch_size {
            n - from
        } else {
            batch_size
        };
        let mut sql = String::from_str("INSERT INTO ");
        self.push_table(&mut sql);
        sql.append("(");
        proof {
            reveal_strlit("(");
        }
        push_joined(&mut sql, &self.tb_meta.cols, ",");
        sql.append(") VALUES");
        self.push_tuples(&mut sql, self.tb_meta.cols.len(), len);
        let mut cols: Vec<String> = Vec::new();
        let mut binds: Vec<Option<&'a ColValue>> = Vec::new();
        proof {
            assert(string_views(cols@) =~= Seq::<Seq<char>>::empty());
            assert(values_of(binds@) =~= Seq::<Option<ColValue>>::empty());
        }
        RdbQueryBuilder::bind_rows(&mut cols, &mut binds, &self.tb_meta.cols, data, from, len, true);
        proof {
            let all = string_views(self.tb_meta.cols@);
            assert(sql@ =~= insert_sql(self.dialect, *self.tb_meta, len as nat));
            assert(string_views(cols@) =~= repeated(all, len as nat));
            assert(values_of(binds@) =~= rows_values(
                data@.subrange(from as int, from + len),
                all,
                true,
            ));
        }
        QueryInfo { sql, cols, binds }
    }

    /// The delete of the row whose identity is that of the row image
    /// before the change `row_data`.
    pub fn get_delete_query(&self, row_data: &'a RowData) -> (q: QueryInfo<'a>)
        ensures
            q.sql@ == delete_sql(self.dialect, *self.tb_meta),
            string_views(q.cols@) == string_views(self.tb_meta.id_cols@),
            values_of(q.binds@) == image_values(
                row_data.before,
                string_views(self.tb_meta.id_cols@),
            ),
    {
        let mut sql = String::from_str("DELETE FROM ");
        self.push_table(&mut sql);
        sql.append(" WHERE ");
        self.push_assignments(&mut sql, &self.tb_meta.id_cols, 1, " AND ");
        let mut cols: Vec<String> = Vec::new();
        let mut binds: Vec<Option<&'a ColValue>> = Vec::new();
        proof {
            assert(string_views(cols@) =~= Seq::<Seq<char>>::empty());
            assert(values_of(binds@) =~= Seq::<Option<ColValue>>::empty());
        }
        RdbQueryBuilder::bind_image(&mut cols, &mut binds, &self.tb_meta.id_cols, &row_data.before);
        proof {
            assert(sql@ =~= delete_sql(self.dialect, *self.tb_meta));
            assert(string_views(cols@) =~= string_views(self.tb_meta.id_cols@));
            assert(values_of(binds@) =~= image_values(
                row_data.before,
                string_views(self.tb_meta.id_cols@),
            ));
        }
        QueryInfo { sql, cols, binds }
    }

    /// The statement that selects or deletes, as `head` says, the rows
    /// whose identities are those of the rows `start_index ..
    /// start_index + batch_size` of `data`; the identity of a row is
    /// taken from its image after the change where `after` holds, from
    /// the image before it where not.
    fn keyed_batch(
        &self,
        head: &str,
        data: &'a Vec<RowData>,
        start_index: usize,
        batch_size: usize,
        after: bool,
    ) -> (q: QueryInfo<'a>)
        ensures
            ({
                let from = if start_index <= data@.len() {
                    start_index as int
                } else {
                    data@.len() as int
                };
                let len = chunk_len(data@.len() as int, from, batch_size as int);
                let ids = string_views(self.tb_meta.id_cols@);
                &&& q.sql@ == head@ + table_name(*self.tb_meta) + " WHERE ("@ + join(ids, ","@)
                    + ") IN ("@ + join(
                    tuples(self.dialect, 1, self.tb_meta.id_cols@.len(), len as nat),
                    ","@,
                ) + seq![')']
                &&& string_views(q.cols@) == repeated(ids, len as nat)
                &&& values_of(q.binds@) == rows_values(data@.subrange(from, from + len), ids, after)
            }),
    {
        let n: usize = data.len();
        let from: usize = if start_index <= n {
            start_index
        } else {
            n
        };
        let len: usize = if n - from < batch_size {
            n - from
        } else {
            batch_size
        };
        let mut sql = String::from_str(head);
        self.push_table(&mut sql);
        sql.append(" WHERE (");
        push_joined(&mut sql, &self.tb_meta.id_cols, ",");
        sql.append(") IN (");
        self.push_tuples(&mut sql, self.tb_meta.id_cols.len(), len);
        sql.append(")");
        proof {
            reveal_strlit(")");
        }
        let mut cols: Vec<String> = Vec::new();
        let mut binds: Vec<Option<&'a ColValue>> = Vec::new();
        proof {
            assert(string_views(cols@) =~= Seq::<Seq<char>>::empty());
            assert(values_of(binds@) =~= Seq::<Option<ColValue>>::empty());
        }
        RdbQueryBuilder::bind_rows(
            &mut cols,
            &mut binds,
            &self.tb_meta.id_cols,
            data,
            from,
            len,
            after,
        );
        proof {
            let ids = string_views(self.tb_meta.id_cols@);
            assert(string_views(cols@) =~= repeated(ids, len as nat));
            assert(values_of(binds@) =~= rows_values(
                data@.subrange(from as int, from + len),
                ids,
                after,
            ));
        }
        QueryInfo { sql, cols, binds }
    }

    /// The delete of the rows whose identities are those of the row
    /// images before the changes `start_index .. start_index +
    /// batch_size` of `data`, as far as `data` has them, in one
    /// statement.
    pub fn get_batch_delete_query(&self, data: &'a Vec<RowData>, start_index: usize, batch_size: usize) -> (q:
        QueryInfo<'a>)
        ensures
            ({
                let from = if start_index <= data@.len() {
                    start_index as int
                } else {
                    data@.len() as int
                };
                let len = chunk_len(data@.len() as int, from, batch_size as int);
                let ids = string_views(self.tb_meta.id_cols@);
                &&& q.sql@ == batch_delete_sql(self.dialect, *self.tb_meta, len as nat)
                &&& string_views(q.cols@) == repeated(ids, len as nat)
                &&& values_of(q.binds@) == rows_values(data@.subrange(from, from + len), ids, false)
            }),
    {
        self.keyed_batch("DELETE FROM ", data, start_index, batch_size, false)
    }

    /// The select of the rows whose identities are those of the row
    /// images after the changes `start_index .. start_index +
    /// batch_size` of `data`, as far as `data` has them, in one
    /// statement.
    pub fn get_batch_select_query(&self, data: &'a Vec<RowData>, start_index: usize, batch_size: usize) -> (q:
        QueryInfo<'a>)
        ensures
            ({
                let from = if start_index <= data@.len() {
                    start_index as int
                } else {
                    data@.len() as int
                };
                let len = chunk_len(data@.len() as int, from, batch_size as int);
                let ids = string_views(self.tb_meta.id_cols@);
                &&& q.sql@ == batch_select_sql(self.dialect, *self.tb_meta, len as nat)
                &&& string_views(q.cols@) == repeated(ids, len as nat)
                &&& values_of(q.binds@) == rows_values(data@.subrange(from, from + len), ids, true)
            }),
    {
        self.keyed_batch("SELECT * FROM ", data, start_index, batch_size, true)
    }

    /// The update of the row whose identity is that of the row image
    /// before the change `row_data`, to the image after it.
    pub fn get_update_query(&self, row_data: &'a RowData) -> (q: QueryInfo<'a>)
        ensures
            q.sql@ == update_sql(self.dialect, *self.tb_meta),
            string_views(q.cols@) == string_views(self.tb_meta.cols@) + string_views(
                self.tb_meta.id_cols@,
            ),
            values_of(q.binds@) == image_values(row_data.after, string_views(self.tb_meta.cols@))
                + image_values(row_data.before, string_views(self.tb_meta.id_cols@)),
    {
        let mut sql = String::from_str("UPDATE ");
        self.push_table(&mut sql);
        sql.append(" SET ");
        self.push_assignments(&mut sql, &self.tb_meta.cols, 1, ",");
        sql.append(" WHERE ");
        self.push_assignments(
            &mut sql,
            &self.tb_meta.id_cols,
            self.tb_meta.cols.len() as u128 + 1,
            " AND ",
        );
        let mut cols: Vec<String> = Vec::new();
        let mut binds: Vec<Option<&'a ColValue>> = Vec::new();
        proof {
            assert(string_views(cols@) =~= Seq::<Seq<char>>::empty());
            assert(values_of(binds@) =~= Seq::<Option<ColValue>>::empty());
        }
        RdbQueryBuilder::bind_image(&mut cols, &mut binds, &self.tb_meta.cols, &row_data.after);
        RdbQueryBuilder::bind_image(&mut cols, &mut binds, &self.tb_meta.id_cols, &row_data.before);
        proof {
            assert(sql@ =~= update_sql(self.dialect, *self.tb_meta));
            assert(string_views(cols@) =~= string_views(self.tb_meta.cols@) + string_views(
                self.tb_meta.id_cols@,
            ));
            assert(values_of(binds@) =~= image_values(
                row_data.after,
                string_views(self.tb_meta.cols@),
            ) + image_values(row_data.before, string_views(self.tb_meta.id_cols@)));
        }
        QueryInfo { sql, cols, binds }
    }

    /// The select of the row whose identity is that of the row image
    /// after the change `row_data`.
    pub fn get_select_query(&self, row_data: &'a RowData) -> (q: QueryInfo<'a>)
        ensures
            q.sql@ == select_sql(self.dialect, *self.tb_meta),
            string_views(q.cols@) == string_views(self.tb_meta.id_cols@),
            values_of(q.binds@) == image_values(row_data.after, string_views(self.tb_meta.id_cols@)),
    {
        let mut sql = String::from_str("SELECT * FROM ");
        self.push_table(&mut sql);
        sql.append(" WHERE ");
        self.push_assignments(&mut sql, &self.tb_meta.id_cols, 1, " AND ");
        let mut cols: Vec<String> = Vec::new();
        let mut binds: Vec<Option<&'a ColValue>> = Vec::new();
        proof {
            assert(string_views(cols@) =~= Seq::<Seq<char>>::empty());
            assert(values_of(binds@) =~= Seq::<Option<ColValue>>::empty());
        }
        RdbQueryBuilder::bind_image(&mut cols, &mut binds, &self.tb_meta.id_cols, &row_data.after);
        proof {
            assert(sql@ =~= select_sql(self.dialect, *self.tb_meta));
            assert(string_views(cols@) =~= string_views(self.tb_meta.id_cols@));
            assert(values_of(binds@) =~= image_values(
                row_data.after,
                string_views(self.tb_meta.id_cols@),
            ));
        }
        QueryInfo { sql, cols, binds }
    }

    /// The statement that applies the change `row_data` by itself: an
    /// insert, an update or a delete, by the kind of the change.
    pub fn get_query_info(&self, row_data: &'a RowData) -> (q: QueryInfo<'a>)
        ensures
            q.sql@ == (match row_data.row_type {
                RowType::Insert => insert_sql(self.dialect, *self.tb_meta, 1),
                RowType::Update => update_sql(self.dialect, *self.tb_meta),
                RowType::Delete => delete_sql(self.dialect, *self.tb_meta),
            }),
            string_views(q.cols@) == (match row_data.row_type {
                RowType::Insert => string_views(self.tb_meta.cols@),
                RowType::Update => string_views(self.tb_meta.cols@) + string_views(
                    self.tb_meta.id_cols@,
                ),
                RowType::Delete => string_views(self.tb_meta.id_cols@),
            }),
            values_of(q.binds@) == (match row_data.row_type {
                RowType::Insert => image_values(row_data.after, string_views(self.tb_meta.cols@)),
                RowType::Update => image_values(row_data.after, string_views(self.tb_meta.cols@))
                    + image_values(row_data.before, string_views(self.tb_meta.id_cols@)),
                RowType::Delete => image_values(
                    row_data.before,
                    string_views(self.tb_meta.id_cols@),
                ),
            }),
    {
        match row_data.row_type {
            RowType::Insert => self.get_insert_query(row_data),
            RowType::Update => self.get_update_query(row_data),
            RowType::Delete => self.get_delete_query(row_data),
        }
    }
}

} // verus!
