//! Where a change goes: the mapping from a source database and table to
//! a destination database and table.
//!
//! A table that is mapped by itself goes where its own entry says. Any
//! other table of a mapped database goes to the database that the entry
//! of its database says, under its own name. Everything else goes to
//! where it came from.

use vstd::prelude::*;
use crate::meta::col_value::str_same;
use crate::meta::row_data::RowData;

verus! {

/// A database and where it maps to.
#[derive(Debug, Clone)]
pub struct DbRoute {
    pub src_db: String,
    pub dst_db: String,
}

/// A table and where it maps to.
#[derive(Debug, Clone)]
pub struct TbRoute {
    pub src_db: String,
    pub src_tb: String,
    pub dst_db: String,
    pub dst_tb: String,
}

/// The mapping table. It is not changed once it is built.
#[derive(Debug, Clone)]
pub struct RdbRouter {
    pub db_map: Vec<DbRoute>,
    pub tb_map: Vec<TbRoute>,
}

/// Whether `i` is the place of the first entry of `tb_map` for the table
/// `db`.`tb`.
pub open spec fn is_first_tb_route(tb_map: Seq<TbRoute>, db: Seq<char>, tb: Seq<char>, i: int) -> bool {
    &&& 0 <= i < tb_map.len()
    &&& tb_map[i].src_db@ == db
    &&& tb_map[i].src_tb@ == tb
    &&& forall|j: int|
        0 <= j < i ==> !((#[trigger] tb_map[j]).src_db@ == db && tb_map[j].src_tb@ == tb)
}

/// Whether `i` is the place of the first entry of `db_map` for the
/// database `db`.
pub open spec fn is_first_db_route(db_map: Seq<DbRoute>, db: Seq<char>, i: int) -> bool {
    &&& 0 <= i < db_map.len()
    &&& db_map[i].src_db@ == db
    &&& forall|j: int| 0 <= j < i ==> (#[trigger] db_map[j]).src_db@ != db
}

/// Where the table `db`.`tb` goes.
pub open spec fn route(db_map: Seq<DbRoute>, tb_map: Seq<TbRoute>, db: Seq<char>, tb: Seq<char>) -> (
    Seq<char>,
    Seq<char>,
) {
    if exists|i: int| is_first_tb_route(tb_map, db, tb, i) {
        let i = choose|i: int| is_first_tb_route(tb_map, db, tb, i);
        (tb_map[i].dst_db@, tb_map[i].dst_tb@)
    } else if exists|i: int| is_first_db_route(db_map, db, i) {
        let i = choose|i: int| is_first_db_route(db_map, db, i);
        (db_map[i].dst_db@, tb)
    } else {
        (db, tb)
    }
}

impl RdbRouter {
    /// Where the table `db`.`tb` goes.
    pub open spec fn spec_route(&self, db: Seq<char>, tb: Seq<char>) -> (Seq<char>, Seq<char>) {
        route(self.db_map@, self.tb_map@, db, tb)
    }

    /// Whether `other` maps every destination of `self` back to its
    /// source, entry by entry.
    pub open spec fn is_reverse_of(&self, other: RdbRouter) -> bool {
        &&& self.db_map@.len() == other.db_map@.len()
        &&& self.tb_map@.len() == other.tb_map@.len()
        &&& forall|i: int|
            0 <= i < self.db_map@.len() ==> (#[trigger] self.db_map@[i]).src_db@
                == other.db_map@[i].dst_db@ && self.db_map@[i].dst_db@ == other.db_map@[i].src_db@
        &&& forall|i: int|
            0 <= i < self.tb_map@.len() ==> {
                &&& (#[trigger] self.tb_map@[i]).src_db@ == other.tb_map@[i].dst_db@
                &&& self.tb_map@[i].src_tb@ == other.tb_map@[i].dst_tb@
                &&& self.tb_map@[i].dst_db@ == other.tb_map@[i].src_db@
                &&& self.tb_map@[i].dst_tb@ == other.tb_map@[i].src_tb@
            }
    }

    /// A router that sends everything to where it came from.
    pub fn new() -> (r: RdbRouter)
        ensures
            r.db_map@.len() == 0,
            r.tb_map@.len() == 0,
    {
        RdbRouter { db_map: Vec::new(), tb_map: Vec::new() }
    }

    /// Where the table `db`.`tb` goes: the destination database and
    /// table.
    pub fn get_route(&self, db: &str, tb: &str) -> (r: (String, String))
        ensures
            (r.0@, r.1@) == self.spec_route(db@, tb@),
    {
        let mut i: usize = 0;
        while i < self.tb_map.len()
            invariant
                i <= self.tb_map@.len(),
                forall|j: int|
                    0 <= j < i ==> !((#[trigger] self.tb_map@[j]).src_db@ == db@
                        && self.tb_map@[j].src_tb@ == tb@),
            decreases self.tb_map@.len() - i,
        {
            let entry = &self.tb_map[i];
            if str_same(entry.src_db.as_str(), db) && str_same(entry.src_tb.as_str(), tb) {
                proof {
                    lemma_first_tb_route_is(self.tb_map@, db@, tb@, i as int);
                }
                return (entry.dst_db.clone(), entry.dst_tb.clone());
            }
            i = i + 1;
        }
        proof {
            assert forall|k: int| !is_first_tb_route(self.tb_map@, db@, tb@, k) by {}
        }
        let mut k: usize = 0;
        while k < self.db_map.len()
            invariant
                k <= self.db_map@.len(),
                forall|j: int| !is_first_tb_route(self.tb_map@, db@, tb@, j),
                forall|j: int| 0 <= j < k ==> (#[trigger] self.db_map@[j]).src_db@ != db@,
            decreases self.db_map@.len() - k,
        {
            let entry = &self.db_map[k];
            if str_same(entry.src_db.as_str(), db) {
                proof {
                    lemma_first_db_route_is(self.db_map@, db@, k as int);
                }
                return (entry.dst_db.clone(), String::from_str(tb));
            }
            k = k + 1;
        }
        proof {
            assert forall|j: int| !is_first_db_route(self.db_map@, db@, j) by {}
        }
        (String::from_str(db), String::from_str(tb))
    }

    /// The router that maps every destination back to its source.
    pub fn reverse(&self) -> (r: RdbRouter)
        ensures
            r.is_reverse_of(*self),
    {
        let mut db_map: Vec<DbRoute> = Vec::new();
        let mut i: usize = 0;
        while i < self.db_map.len()
            invariant
                i <= self.db_map@.len(),
                db_map@.len() == i,
                forall|j: int|
                    0 <= j < i ==> (#[trigger] db_map@[j]).src_db@ == self.db_map@[j].dst_db@
                        && db_map@[j].dst_db@ == self.db_map@[j].src_db@,
            decreases self.db_map@.len() - i,
        {
            let e = &self.db_map[i];
            db_map.push(DbRoute { src_db: e.dst_db.clone(), dst_db: e.src_db.clone() });
            i = i + 1;
        }
        let mut tb_map: Vec<TbRoute> = Vec::new();
        let mut k: usize = 0;
        while k < self.tb_map.len()
            invariant
                k <= self.tb_map@.len(),
                tb_map@.len() == k,
                forall|j: int|
                    0 <= j < k ==> {
                        &&& (#[trigger] tb_map@[j]).src_db@ == self.tb_map@[j].dst_db@
                        &&& tb_map@[j].src_tb@ == self.tb_map@[j].dst_tb@
                        &&& tb_map@[j].dst_db@ == self.tb_map@[j].src_db@
                        &&& tb_map@[j].dst_tb@ == self.tb_map@[j].src_tb@
                    },
            decreases self.tb_map@.len() - k,
        {
            let e = &self.tb_map[k];
            tb_map.push(
                TbRoute {
                    src_db: e.dst_db.clone(),
                    src_tb: e.dst_tb.clone(),
                    dst_db: e.src_db.clone(),
                    dst_tb: e.src_tb.clone(),
                },
            );
            k = k + 1;
        }
        RdbRouter { db_map, tb_map }
    }

    /// The destination of the table that `row` belongs to.
    pub fn route_row(&self, row: &RowData) -> (r: (String, String))
        ensures
            (r.0@, r.1@) == self.spec_route(row.schema@, row.tb@),
    {
        self.get_route(row.schema.as_str(), row.tb.as_str())
    }
}

/// A place that is the first entry for a table is the place that the choice
/// of such a place gives.
pub proof fn lemma_first_tb_route_is(tb_map: Seq<TbRoute>, db: Seq<char>, tb: Seq<char>, i: int)
    requires
        is_first_tb_route(tb_map, db, tb, i),
    ensures
        exists|k: int| is_first_tb_route(tb_map, db, tb, k),
        (choose|k: int| is_first_tb_route(tb_map, db, tb, k)) == i,
{
    let k = choose|k: int| is_first_tb_route(tb_map, db, tb, k);
    if k < i {
        assert(!(tb_map[k].src_db@ == db && tb_map[k].src_tb@ == tb));
    } else if i < k {
        assert(!(tb_map[i].src_db@ == db && tb_map[i].src_tb@ == tb));
    }
}

/// A place that is the first entry for a database is the place that the
/// choice of such a place gives.
pub proof fn lemma_first_db_route_is(db_map: Seq<DbRoute>, db: Seq<char>, i: int)
    requires
        is_first_db_route(db_map, db, i),
    ensures
        exists|k: int| is_first_db_route(db_map, db, k),
        (choose|k: int| is_first_db_route(db_map, db, k)) == i,
{
    let k = choose|k: int| is_first_db_route(db_map, db, k);
    if k < i {
        assert(db_map[k].src_db@ != db);
    } else if i < k {
        assert(db_map[i].src_db@ != db);
    }
}

/// A table that no entry names, in a database that no entry names, goes
/// to where it came from. So a router without entries maps nothing.
pub proof fn lemma_unmapped_is_identity(router: RdbRouter, db: Seq<char>, tb: Seq<char>)
    requires
        forall|i: int|
            0 <= i < router.tb_map@.len() ==> !((#[trigger] router.tb_map@[i]).src_db@ == db
                && router.tb_map@[i].src_tb@ == tb),
        forall|i: int| 0 <= i < router.db_map@.len() ==> (#[trigger] router.db_map@[i]).src_db@ != db,
    ensures
        router.spec_route(db, tb) == (db, tb),
{
    assert forall|k: int| !is_first_tb_route(router.tb_map@, db, tb, k) by {
        if 0 <= k < router.tb_map@.len() {
            assert(!(router.tb_map@[k].src_db@ == db && router.tb_map@[k].src_tb@ == tb));
        }
    }
    assert forall|k: int| !is_first_db_route(router.db_map@, db, k) by {
        if 0 <= k < router.db_map@.len() {
            assert(router.db_map@[k].src_db@ != db);
        }
    }
}

/// The reverse router undoes the mapping of a table that is mapped by
/// itself, where no other entry maps a table to the same destination.
pub proof fn lemma_reverse_undoes_table_route(
    router: RdbRouter,
    back: RdbRouter,
    db: Seq<char>,
    tb: Seq<char>,
    i: int,
)
    requires
        back.is_reverse_of(router),
        is_first_tb_route(router.tb_map@, db, tb, i),
        forall|j: int|
            0 <= j < router.tb_map@.len() && j != i ==> !((#[trigger] router.tb_map@[j]).dst_db@
                == router.tb_map@[i].dst_db@ && router.tb_map@[j].dst_tb@
                == router.tb_map@[i].dst_tb@),
    ensures
        back.spec_route(router.spec_route(db, tb).0, router.spec_route(db, tb).1) == (db, tb),
{
    lemma_first_tb_route_is(router.tb_map@, db, tb, i);
    let there = router.spec_route(db, tb);
    assert(there == (router.tb_map@[i].dst_db@, router.tb_map@[i].dst_tb@));
    assert(is_first_tb_route(back.tb_map@, there.0, there.1, i)) by {
        assert(back.tb_map@[i].src_db@ == router.tb_map@[i].dst_db@);
        assert forall|j: int| 0 <= j < i implies !((#[trigger] back.tb_map@[j]).src_db@ == there.0
            && back.tb_map@[j].src_tb@ == there.1) by {
            assert(back.tb_map@[j].src_db@ == router.tb_map@[j].dst_db@);
            assert(back.tb_map@[j].src_tb@ == router.tb_map@[j].dst_tb@);
        }
    }
    lemma_first_tb_route_is(back.tb_map@, there.0, there.1, i);
}

} // verus!
