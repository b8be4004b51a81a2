//! What a PostgreSQL destination is asked, and what is made of its
//! answers, when a batch of source rows is checked against it.

use vstd::prelude::*;
use crate::meta::rdb_meta_manager::RdbMetaManager;
use crate::meta::rdb_tb_meta::RdbTbMeta;
use crate::meta::row_data::RowData;
use crate::rdb_router::RdbRouter;
use crate::sinker::base_checker::{
    check_of,
    check_views,
    checks_of,
    BaseChecker,
    CheckResult,
};
use crate::sinker::base_sinker::{chunk_len, chunks_from, plan_chunks, ChunkRange};
use crate::util::text::string_views;

verus! {

/// The state of a checker of a PostgreSQL destination. The connection
/// pool is its caller's.
#[derive(Debug, Clone)]
pub struct PgChecker {
    /// The metadata of the destination tables.
    pub meta_manager: RdbMetaManager,
    /// The metadata of the source tables, for the report.
    pub extractor_meta_manager: RdbMetaManager,
    /// The mapping from a destination table back to its source table.
    pub reverse_router: RdbRouter,
    pub batch_size: usize,
}

impl PgChecker {
    /// The runs of rows of `data` that the destination is asked for, one
    /// query each: every row by itself where `batch` does not hold,
    /// chunks of the checker's batch size where it does.
    pub fn sink_dml(&self, data: &Vec<RowData>, batch: bool) -> (queries: Vec<ChunkRange>)
        ensures
            queries@ == chunks_from(
                data@.len() as int,
                if batch && self.batch_size > 0 {
                    self.batch_size as int
                } else {
                    1
                },
                0,
            ),
    {
        if batch {
            plan_chunks(data.len(), self.batch_size)
        } else {
            plan_chunks(data.len(), 1)
        }
    }

    /// What the destination has of the source row `src`, where `dst` is
    /// the row that it gave for it.
    pub fn serial_check(src: &RowData, dst: Option<&RowData>) -> (r: CheckResult)
        ensures
            r@ == check_of(
                *src,
                match dst {
                    Some(d) => Some(*d),
                    None => None,
                },
            ),
    {
        BaseChecker::check_row(src, dst)
    }

    /// What the rows `dst`, which the destination gave for the rows
    /// `start_index .. start_index + batch_size` of `data`, have of each
    /// of those.
    pub fn batch_check(
        data: &Vec<RowData>,
        start_index: usize,
        batch_size: usize,
        dst: &Vec<RowData>,
        tb_meta: &RdbTbMeta,
    ) -> (results: Vec<CheckResult>)
        ensures
            ({
                let from = if start_index <= data@.len() {
                    start_index as int
                } else {
                    data@.len() as int
                };
                let len = chunk_len(data@.len() as int, from, batch_size as int);
                check_views(results@) == checks_of(
                    data@.subrange(from, from + len),
                    dst@,
                    string_views(tb_meta.id_cols@),
                )
            }),
    {
        BaseChecker::batch_compare_row_datas(data, dst, &tb_meta.id_cols, start_index, batch_size)
    }

    /// The source table that a difference found for `row` is reported under:
    /// the table that the reverse router sends the row's table to.
    pub fn report_table(&self, row: &RowData) -> (r: (String, String))
        ensures
            (r.0@, r.1@) == self.reverse_router.spec_route(row.schema@, row.tb@),
    {
        self.reverse_router.route_row(row)
    }
}

} // verus!
