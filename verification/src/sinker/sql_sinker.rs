//! A sinker that writes nothing: it gives the rows whose statements are
//! to be logged.

use vstd::prelude::*;
use crate::meta::rdb_meta_manager::RdbMetaManager;
use crate::meta::row_data::RowData;
use crate::rdb_router::RdbRouter;
use crate::sinker::rdb_query_builder::{Dialect, RdbQueryBuilder};

verus! {

#[derive(Debug, Clone)]
pub struct SqlSinker {
    pub meta_manager: RdbMetaManager,
    pub router: RdbRouter,
    /// Whether the statements undo the changes rather than apply them.
    pub reverse: bool,
}

/// The rows of `data` as the statements are written for them: each
/// undone where `reverse` holds.
pub open spec fn rows_to_log(data: Seq<RowData>, reverse: bool) -> Seq<RowData> {
    Seq::new(
        data.len(),
        |i: int|
            if reverse {
                data[i].spec_reverse()
            } else {
                data[i]
            },
    )
}

impl SqlSinker {
    /// The builder of the statement of `row_data`: for the table that
    /// the router sends the row's table to, in the dialect of MySQL
    /// where `mysql` holds and of PostgreSQL where not. A row whose
    /// table has no metadata has no statement.
    pub fn get_query_builder<'a>(&'a self, row_data: &RowData, mysql: bool) -> (r: Option<
        RdbQueryBuilder<'a>,
    >)
        ensures
            ({
                let dst = self.router.spec_route(row_data.schema@, row_data.tb@);
                match r {
                    Some(b) => self.meta_manager.spec_get(dst.0, dst.1) == Some(*b.tb_meta)
                        && b.dialect == (if mysql {
                        Dialect::Mysql
                    } else {
                        Dialect::Pg
                    }),
                    None => self.meta_manager.spec_get(dst.0, dst.1) is None,
                }
            }),
    {
        match self.meta_manager.get_tb_meta_by_row_data(&self.router, row_data) {
            Some(tb_meta) => if mysql {
                Some(RdbQueryBuilder::new_for_mysql(tb_meta))
            } else {
                Some(RdbQueryBuilder::new_for_pg(tb_meta))
            },
            None => None,
        }
    }

    /// The rows whose statements are to be logged, in order.
    pub fn sink_dml(&self, data: Vec<RowData>, _batch: bool) -> (rows: Vec<RowData>)
        ensures
            rows@ == rows_to_log(data@, self.reverse),
    {
        if !self.reverse {
            proof {
                assert(data@ =~= rows_to_log(data@, self.reverse));
            }
            return data;
        }
        let ghost all = data@;
        let mut data = data;
        let mut rows: Vec<RowData> = Vec::new();
        let mut rev: Vec<RowData> = Vec::new();
        while data.len() > 0
            invariant
                data@.len() + rev@.len() == all.len(),
                data@ == all.take(data@.len() as int),
                forall|k: int|
                    0 <= k < rev@.len() ==> #[trigger] rev@[k] == all[all.len() - 1
                        - k].spec_reverse(),
            decreases data@.len(),
        {
            let row = data.pop().unwrap();
            rev.push(row.reverse());
            proof {
                assert(data@ =~= all.take(data@.len() as int));
            }
        }
        while rev.len() > 0
            invariant
                rows@.len() + rev@.len() == all.len(),
                forall|k: int|
                    0 <= k < rev@.len() ==> #[trigger] rev@[k] == all[all.len() - 1
                        - k].spec_reverse(),
                forall|k: int| 0 <= k < rows@.len() ==> #[trigger] rows@[k] == all[k].spec_reverse(),
            decreases rev@.len(),
        {
            let ghost at = rev@.len() - 1;
            let row = rev.pop().unwrap();
            proof {
                assert(row == all[all.len() - 1 - at].spec_reverse());
            }
            rows.push(row);
        }
        proof {
            assert(rows@ =~= rows_to_log(all, self.reverse));
        }
        rows
    }
}

} // verus!
