//! What a PostgreSQL destination is asked to do for a batch of row
//! changes.

use vstd::prelude::*;
use crate::error::Error;
use crate::meta::col_value::{ColMap, ColValue};
use crate::meta::rdb_meta_manager::RdbMetaManager;
use crate::meta::rdb_tb_meta::RdbTbMeta;
use crate::meta::row_data::RowData;
use crate::rdb_router::RdbRouter;
use crate::sinker::base_sinker::{BatchSinker, SinkAction};
use crate::util::text::{digit_chars, join, push_decimal, push_joined, string_views};

verus! {

/// The state of a sinker that writes to PostgreSQL. The connection pool
/// is its caller's.
#[derive(Debug, Clone)]
pub struct PgSinker {
    pub meta_manager: RdbMetaManager,
    pub router: RdbRouter,
    pub batch_size: usize,
}

/// The assignment of the placeholder `index` to the column `col`.
pub open spec fn set_pair(col: Seq<char>, index: nat) -> Seq<char> {
    col + seq!['=', '$'] + digit_chars(index)
}

/// The assignments of the placeholders from `first` on to the columns
/// of `cols`.
pub open spec fn set_pairs(cols: Seq<Seq<char>>, first: nat) -> Seq<Seq<char>> {
    Seq::new(cols.len(), |i: int| set_pair(cols[i], (first + i) as nat))
}

/// An insert made an upsert: on a conflict in the identity columns the
/// row that is there takes the new value of every column.
pub open spec fn upsert_sql(
    insert: Seq<char>,
    id_cols: Seq<Seq<char>>,
    cols: Seq<Seq<char>>,
    first: nat,
) -> Seq<char> {
    insert + " ON CONFLICT ("@ + join(id_cols, ","@) + ") DO UPDATE SET "@ + join(
        set_pairs(cols, first),
        ","@,
    )
}

/// The column `col` set to the value that the row brought which met
/// the conflict.
pub open spec fn excluded_pair(col: Seq<char>) -> Seq<char> {
    col + "=EXCLUDED."@ + col
}

/// Every column of `cols` set to the value that the row brought which
/// met the conflict.
pub open spec fn excluded_pairs(cols: Seq<Seq<char>>) -> Seq<Seq<char>> {
    Seq::new(cols.len(), |i: int| excluded_pair(cols[i]))
}

/// An insert of several rows made a bulk upsert: on a conflict in the
/// identity columns the row that is there takes every column of the row
/// that was to be inserted.
pub open spec fn bulk_upsert_sql(insert: Seq<char>, id_cols: Seq<Seq<char>>, cols: Seq<Seq<char>>)
    -> Seq<char> {
    insert + " ON CONFLICT ("@ + join(id_cols, ","@) + ") DO UPDATE SET "@ + join(
        excluded_pairs(cols),
        ","@,
    )
}

/// The values of the columns `cols` in the row image `image`, `None`
/// for a column that the image lacks.
pub open spec fn binds_of(image: ColMap, cols: Seq<Seq<char>>) -> Seq<Option<ColValue>> {
    Seq::new(cols.len(), |i: int| image.spec_get(cols[i]))
}

/// The values that `binds` refer to.
pub open spec fn bind_values(binds: Seq<Option<&ColValue>>) -> Seq<Option<ColValue>> {
    Seq::new(
        binds.len(),
        |i: int|
            match binds[i] {
                Some(v) => Some(*v),
                None => None,
            },
    )
}

impl PgSinker {
    /// Starts the batch `data` with every record applied by itself, and
    /// says what to do first.
    pub fn sink(&self, data: &Vec<RowData>) -> (r: (BatchSinker, SinkAction))
        ensures
            r.0.serial,
            r.0.batch_size == 1,
            r.0 == r.0.started(data@).decided(data@),
            r.1 == r.0.started(data@).decision(data@),
            r.0.inv(data@),
    {
        let mut machine = BatchSinker::serial();
        let first = machine.begin(data);
        (machine, first)
    }

    /// Starts the batch `data` in chunks of the sinker's batch size, and
    /// says what to do first.
    pub fn batch_sink(&self, data: &Vec<RowData>) -> (r: (BatchSinker, SinkAction))
        ensures
            !r.0.serial,
            r.0.batch_size == (if self.batch_size == 0 {
                1usize
            } else {
                self.batch_size
            }),
            r.0 == r.0.started(data@).decided(data@),
            r.1 == r.0.started(data@).decision(data@),
            r.0.inv(data@),
    {
        let mut machine = BatchSinker::batched(self.batch_size);
        let first = machine.begin(data);
        (machine, first)
    }

    /// The metadata of the destination table of `row_data`, `None`
    /// where it is not fetched yet.
    pub fn get_tb_meta(&self, row_data: &RowData) -> (r: Option<&RdbTbMeta>)
        ensures
            ({
                let dst = self.router.spec_route(row_data.schema@, row_data.tb@);
                match r {
                    Some(m) => self.meta_manager.spec_get(dst.0, dst.1) == Some(*m),
                    None => self.meta_manager.spec_get(dst.0, dst.1) is None,
                }
            }),
    {
        self.meta_manager.get_tb_meta_by_row_data(&self.router, row_data)
    }

    /// Makes the insert of one row an upsert.
    ///
    /// `sql` is the insert, `cols` and `binds` the columns and values of
    /// its placeholders. The upsert has, after those, one placeholder for
    /// each column of the table, bound to the value of that column in
    /// the row image after the change. A row without that image has no
    /// upsert.
    pub fn get_insert_query<'a>(
        sql: String,
        cols: Vec<String>,
        binds: Vec<Option<&'a ColValue>>,
        tb_meta: &RdbTbMeta,
        row_data: &'a RowData,
    ) -> (r: Result<(String, Vec<String>, Vec<Option<&'a ColValue>>), Error>)
        ensures
            match r {
                Ok(q) => {
                    &&& row_data.after matches Some(after)
                    &&& q.0@ == upsert_sql(
                        sql@,
                        string_views(tb_meta.id_cols@),
                        string_views(tb_meta.cols@),
                        cols@.len() + 1,
                    )
                    &&& string_views(q.1@) == string_views(cols@) + string_views(tb_meta.cols@)
                    &&& bind_values(q.2@) == bind_values(binds@) + binds_of(
                        after,
                        string_views(tb_meta.cols@),
                    )
                },
                Err(e) => row_data.after is None && e == Error::MissingRowImage,
            },
    {
        let after = match &row_data.after {
            Some(a) => a,
            None => {
                return Err(Error::MissingRowImage);
            },
        };
        let first: usize = cols.len();
        let mut cols = cols;
        let mut binds = binds;
        let ghost cols0 = string_views(cols@);
        let ghost binds0 = bind_values(binds@);
        let ghost table_cols = string_views(tb_meta.cols@);
        let mut pairs: Vec<String> = Vec::new();
        let mut i: usize = 0;
        proof {
            assert(string_views(cols@) =~= cols0 + table_cols.take(0));
            assert(bind_values(binds@) =~= binds0 + binds_of(*after, table_cols).take(0));
            assert(string_views(pairs@) =~= set_pairs(table_cols, (first + 1) as nat).take(0));
        }
        while i < tb_meta.cols.len()
            invariant
                i <= tb_meta.cols@.len(),
                table_cols == string_views(tb_meta.cols@),
                string_views(cols@) == cols0 + table_cols.take(i as int),
                bind_values(binds@) == binds0 + binds_of(*after, table_cols).take(i as int),
                string_views(pairs@) == set_pairs(table_cols, (first + 1) as nat).take(i as int),
            decreases tb_meta.cols@.len() - i,
        {
            let col = &tb_meta.cols[i];
            let mut pair = col.clone();
            pair.append("=$");
            proof {
                reveal_strlit("=$");
                assert(pair@ =~= col@ + seq!['=', '$']);
            }
            push_decimal(&mut pair, first as u128 + 1 + i as u128);
            let bind = after.get(col.as_str());
            let ghost cols_before = cols@;
            let ghost binds_before = binds@;
            let ghost pairs_before = pairs@;
            pairs.push(pair);
            cols.push(col.clone());
            binds.push(bind);
            i = i + 1;
            proof {
                assert(string_views(cols@) =~= string_views(cols_before).push(col@));
                assert(string_views(cols@) =~= cols0 + table_cols.take(i as int));
                assert(bind_values(binds@) =~= bind_values(binds_before).push(
                    after.spec_get(col@),
                ));
                assert(bind_values(binds@) =~= binds0 + binds_of(*after, table_cols).take(
                    i as int,
                ));
                assert(string_views(pairs@) =~= string_views(pairs_before).push(pair@));
                assert(string_views(pairs@) =~= set_pairs(table_cols, (first + 1) as nat).take(
                    i as int,
                ));
            }
        }
        proof {
            assert(table_cols.take(i as int) =~= table_cols);
            assert(binds_of(*after, table_cols).take(i as int) =~= binds_of(*after, table_cols));
            assert(set_pairs(table_cols, (first + 1) as nat).take(i as int) =~= set_pairs(
                table_cols,
                (first + 1) as nat,
            ));
        }
        let mut out = sql;
        out.append(" ON CONFLICT (");
        push_joined(&mut out, &tb_meta.id_cols, ",");
        out.append(") DO UPDATE SET ");
        push_joined(&mut out, &pairs, ",");
        Ok((out, cols, binds))
    }

    /// Makes the insert of several rows a bulk upsert, so that a row
    /// that is delivered again overwrites the row that is there.
    ///
    /// `sql` is the insert; its placeholders, columns and values stay as
    /// they are.
    pub fn get_batch_insert_query(sql: String, tb_meta: &RdbTbMeta) -> (q: String)
        ensures
            q@ == bulk_upsert_sql(
                sql@,
                string_views(tb_meta.id_cols@),
                string_views(tb_meta.cols@),
            ),
    {
        let ghost table_cols = string_views(tb_meta.cols@);
        let mut pairs: Vec<String> = Vec::new();
        let mut i: usize = 0;
        proof {
            assert(string_views(pairs@) =~= excluded_pairs(table_cols).take(0));
        }
        while i < tb_meta.cols.len()
            invariant
                i <= tb_meta.cols@.len(),
                table_cols == string_views(tb_meta.cols@),
                string_views(pairs@) == excluded_pairs(table_cols).take(i as int),
            decreases tb_meta.cols@.len() - i,
        {
            let col = &tb_meta.cols[i];
            let mut pair = col.clone();
            pair.append("=EXCLUDED.");
            pair.append(col.as_str());
            let ghost pairs_before = pairs@;
            pairs.push(pair);
            i = i + 1;
            proof {
                assert(pair@ =~= excluded_pair(col@));
                assert(string_views(pairs@) =~= string_views(pairs_before).push(pair@));
                assert(string_views(pairs@) =~= excluded_pairs(table_cols).take(i as int));
            }
        }
        proof {
            assert(excluded_pairs(table_cols).take(i as int) =~= excluded_pairs(table_cols));
        }
        let mut out = sql;
        out.append(" ON CONFLICT (");
        push_joined(&mut out, &tb_meta.id_cols, ",");
        out.append(") DO UPDATE SET ");
        push_joined(&mut out, &pairs, ",");
        out
    }
}

} // verus!
