//! What a MySQL destination is asked, and what is made of its answers,
//! when a batch of source rows is checked against it.

use vstd::prelude::*;
use crate::meta::rdb_meta_manager::RdbMetaManager;
use crate::meta::rdb_tb_meta::RdbTbMeta;
use crate::meta::row_data::RowData;
use crate::rdb_router::RdbRouter;
use crate::sinker::base_checker::{
    check_of,
    check_views,
    checks_of,
    BaseChecker,
    CheckResult,
};
use crate::sinker::base_sinker::{chunk_len, chunks_from, plan_chunks, ChunkRange};
use crate::util::text::string_views;

verus! {

/// The state of a checker of a MySQL destination. The connection pool
/// is its caller's.
#[derive(Debug, Clone)]
pub struct MysqlChecker {
    pub meta_manager: RdbMetaManager,
    pub router: RdbRouter,
    pub batch_size: usize,
}

impl MysqlChecker {
    /// The runs of rows of `data` that the destination is asked for, one
    /// query each: every row by itself where `batch` does not hold,
    /// chunks of the checker's batch size where it does.
    pub fn sink_dml(&self, data: &Vec<RowData>, batch: bool) -> (queries: Vec<ChunkRange>)
        ensures
            queries@ == chunks_from(
                data@.len() as int,
                if batch && self.batch_size > 0 {
                    self.batch_size as int
                } else {
                    1
                },
                0,
            ),
    {
        if batch {
            plan_chunks(data.len(), self.batch_size)
        } else {
            plan_chunks(data.len(), 1)
        }
    }

    /// The metadata of the destination table of `row_data`, `None`
    /// where it is not fetched yet.
    pub fn get_tb_meta(&self, row_data: &RowData) -> (r: Option<&RdbTbMeta>)
        ensures
            ({
                let dst = self.router.spec_route(row_data.schema@, row_data.tb@);
                match r {
                    Some(m) => self.meta_manager.spec_get(dst.0, dst.1) == Some(*m),
                    None => self.meta_manager.spec_get(dst.0, dst.1) is None,
                }
            }),
    {
        self.meta_manager.get_tb_meta_by_row_data(&self.router, row_data)
    }

    /// What the destination has of the source row `src`, where `dst` is
    /// the row that it gave for it.
    pub fn serial_check(src: &RowData, dst: Option<&RowData>) -> (r: CheckResult)
        ensures
            r@ == check_of(
                *src,
                match dst {
                    Some(d) => Some(*d),
                    None => None,
                },
            ),
    {
        BaseChecker::check_row(src, dst)
    }

    /// What the rows `dst`, which the destination gave for the rows
    /// `start_index .. start_index + batch_size` of `data`, have of each
    /// of those.
    pub fn batch_check(
        data: &Vec<RowData>,
        start_index: usize,
        batch_size: usize,
        dst: &Vec<RowData>,
        tb_meta: &RdbTbMeta,
    ) -> (results: Vec<CheckResult>)
        ensures
            ({
                let from = if start_index <= data@.len() {
                    start_index as int
                } else {
                    data@.len() as int
                };
                let len = chunk_len(data@.len() as int, from, batch_size as int);
                check_views(results@) == checks_of(
                    data@.subrange(from, from + len),
                    dst@,
                    string_views(tb_meta.id_cols@),
                )
            }),
    {
        BaseChecker::batch_compare_row_datas(data, dst, &tb_meta.id_cols, start_index, batch_size)
    }
}

} // verus!
