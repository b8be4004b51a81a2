//! The table metadata that a sinker has fetched so far.
//!
//! Metadata is fetched when a table is met for the first time and kept
//! until the cache is cleared. Fetching is the caller's part: on a miss
//! it asks the backend and stores what it gets.

use vstd::prelude::*;
use crate::meta::col_value::str_same;
use crate::meta::rdb_tb_meta::RdbTbMeta;
use crate::meta::row_data::RowData;
use crate::rdb_router::RdbRouter;

verus! {

/// A cache of table metadata, with at most one entry for a table.
#[derive(Debug, Clone)]
pub struct RdbMetaManager {
    pub cache: Vec<RdbTbMeta>,
}

/// Whether `i` is the place of the first entry of `cache` for the table
/// `schema`.`tb`.
pub open spec fn is_first_meta(cache: Seq<RdbTbMeta>, schema: Seq<char>, tb: Seq<char>, i: int) -> bool {
    &&& 0 <= i < cache.len()
    &&& cache[i].schema@ == schema
    &&& cache[i].tb@ == tb
    &&& forall|j: int| 0 <= j < i ==> !((#[trigger] cache[j]).schema@ == schema && cache[j].tb@ == tb)
}

/// The cached metadata of the table `schema`.`tb`.
pub open spec fn cached(cache: Seq<RdbTbMeta>, schema: Seq<char>, tb: Seq<char>) -> Option<RdbTbMeta> {
    if exists|i: int| is_first_meta(cache, schema, tb, i) {
        Some(cache[choose|i: int| is_first_meta(cache, schema, tb, i)])
    } else {
        None
    }
}

/// Whether no two entries of `cache` are for one table.
pub open spec fn one_entry_per_table(cache: Seq<RdbTbMeta>) -> bool {
    forall|i: int, j: int|
        0 <= i < j < cache.len() ==> !((#[trigger] cache[i]).schema@ == (#[trigger] cache[j]).schema@
            && cache[i].tb@ == cache[j].tb@)
}

/// A place that is the first entry for a table holds what the cache gives
/// for that table.
pub proof fn lemma_first_meta_is(cache: Seq<RdbTbMeta>, schema: Seq<char>, tb: Seq<char>, i: int)
    requires
        is_first_meta(cache, schema, tb, i),
    ensures
        cached(cache, schema, tb) == Some(cache[i]),
{
    let k = choose|k: int| is_first_meta(cache, schema, tb, k);
    if k < i {
        assert(!(cache[k].schema@ == schema && cache[k].tb@ == tb));
    } else if i < k {
        assert(!(cache[i].schema@ == schema && cache[i].tb@ == tb));
    }
}

impl RdbMetaManager {
    /// Whether the cache holds at most one entry for a table.
    pub open spec fn wf(&self) -> bool {
        one_entry_per_table(self.cache@)
    }

    /// The cached metadata of the table `schema`.`tb`.
    pub open spec fn spec_get(&self, schema: Seq<char>, tb: Seq<char>) -> Option<RdbTbMeta> {
        cached(self.cache@, schema, tb)
    }

    /// An empty cache.
    pub fn new() -> (m: RdbMetaManager)
        ensures
            m.cache@.len() == 0,
            m.wf(),
    {
        RdbMetaManager { cache: Vec::new() }
    }

    fn position(&self, schema: &str, tb: &str) -> (r: Option<usize>)
        ensures
            match r {
                Some(i) => is_first_meta(self.cache@, schema@, tb@, i as int),
                None => forall|j: int|
                    0 <= j < self.cache@.len() ==> !((#[trigger] self.cache@[j]).schema@ == schema@
                        && self.cache@[j].tb@ == tb@),
            },
    {
        let mut i: usize = 0;
        while i < self.cache.len()
            invariant
                i <= self.cache@.len(),
                forall|j: int|
                    0 <= j < i ==> !((#[trigger] self.cache@[j]).schema@ == schema@
                        && self.cache@[j].tb@ == tb@),
            decreases self.cache@.len() - i,
        {
            if str_same(self.cache[i].schema.as_str(), schema) && str_same(
                self.cache[i].tb.as_str(),
                tb,
            ) {
                return Some(i);
            }
            i = i + 1;
        }
        None
    }

    /// The metadata of the table `schema`.`tb`, `None` where it is not
    /// fetched yet.
    pub fn get_tb_meta(&self, schema: &str, tb: &str) -> (r: Option<&RdbTbMeta>)
        ensures
            match r {
                Some(m) => self.spec_get(schema@, tb@) == Some(*m),
                None => self.spec_get(schema@, tb@) is None,
            },
    {
        match self.position(schema, tb) {
            Some(i) => {
                proof {
                    lemma_first_meta_is(self.cache@, schema@, tb@, i as int);
                }
                Some(&self.cache[i])
            },
            None => {
                proof {
                    assert forall|k: int| !is_first_meta(self.cache@, schema@, tb@, k) by {}
                }
                None
            },
        }
    }

    /// The metadata of the destination table of `row_data`: the table
    /// that `router` sends the row's table to.
    pub fn get_tb_meta_by_row_data(&self, router: &RdbRouter, row_data: &RowData) -> (r: Option<
        &RdbTbMeta,
    >)
        ensures
            ({
                let dst = router.spec_route(row_data.schema@, row_data.tb@);
                match r {
                    Some(m) => self.spec_get(dst.0, dst.1) == Some(*m),
                    None => self.spec_get(dst.0, dst.1) is None,
                }
            }),
    {
        let dst = router.route_row(row_data);
        self.get_tb_meta(dst.0.as_str(), dst.1.as_str())
    }

    /// Stores the metadata of a table, in place of what the cache held of
    /// that table.
    pub fn put(&mut self, meta: RdbTbMeta)
        ensures
            final(self).spec_get(meta.schema@, meta.tb@) == Some(meta),
            forall|schema: Seq<char>, tb: Seq<char>|
                !(schema == meta.schema@ && tb == meta.tb@) ==> #[trigger] final(self).spec_get(
                    schema,
                    tb,
                ) == old(self).spec_get(schema, tb),
            old(self).wf() ==> final(self).wf(),
    {
        let ghost before = self.cache@;
        match self.position(meta.schema.as_str(), meta.tb.as_str()) {
            Some(i) => {
                self.cache[i] = meta;
                proof {
                    let after = self.cache@;
                    assert(after =~= before.update(i as int, meta));
                    assert(is_first_meta(after, meta.schema@, meta.tb@, i as int)) by {
                        assert forall|j: int| 0 <= j < i implies !((#[trigger] after[j]).schema@
                            == meta.schema@ && after[j].tb@ == meta.tb@) by {
                            assert(after[j] == before[j]);
                        }
                    }
                    lemma_first_meta_is(after, meta.schema@, meta.tb@, i as int);
                    assert forall|schema: Seq<char>, tb: Seq<char>|
                        !(schema == meta.schema@ && tb == meta.tb@) implies #[trigger] cached(
                        after,
                        schema,
                        tb,
                    ) == cached(before, schema, tb) by {
                        lemma_cached_elsewhere(before, after, schema, tb);
                    }
                }
            },
            None => {
                self.cache.push(meta);
                proof {
                    let after = self.cache@;
                    let last = before.len() as int;
                    assert(after =~= before.push(meta));
                    assert(is_first_meta(after, meta.schema@, meta.tb@, last)) by {
                        assert forall|j: int| 0 <= j < last implies !((#[trigger] after[j]).schema@
                            == meta.schema@ && after[j].tb@ == meta.tb@) by {
                            assert(after[j] == before[j]);
                        }
                    }
                    lemma_first_meta_is(after, meta.schema@, meta.tb@, last);
                    assert forall|schema: Seq<char>, tb: Seq<char>|
                        !(schema == meta.schema@ && tb == meta.tb@) implies #[trigger] cached(
                        after,
                        schema,
                        tb,
                    ) == cached(before, schema, tb) by {
                        lemma_cached_elsewhere(before, after, schema, tb);
                    }
                    if old(self).wf() {
                        assert forall|a: int, b: int| 0 <= a < b < after.len() implies !((
                        #[trigger] after[a]).schema@ == (#[trigger] after[b]).schema@ && after[a].tb@
                            == after[b].tb@) by {
                            assert(after[a] == before[a]);
                            if b < last {
                                assert(after[b] == before[b]);
                            }
                        }
                    }
                }
            },
        }
    }

    /// Forgets everything that was fetched.
    pub fn invalidate_cache(&mut self)
        ensures
            final(self).cache@.len() == 0,
            final(self).wf(),
            forall|schema: Seq<char>, tb: Seq<char>| #[trigger]
                final(self).spec_get(schema, tb) is None,
    {
        self.cache = Vec::new();
        proof {
            assert forall|schema: Seq<char>, tb: Seq<char>| #[trigger]
                cached(self.cache@, schema, tb) is None by {
                assert forall|k: int| !is_first_meta(self.cache@, schema, tb, k) by {}
            }
        }
    }
}

/// Two caches that differ only in entries for other tables, at the same
/// places, hold the same of the table `schema`.`tb`.
pub proof fn lemma_cached_elsewhere(
    before: Seq<RdbTbMeta>,
    after: Seq<RdbTbMeta>,
    schema: Seq<char>,
    tb: Seq<char>,
)
    requires
        before.len() <= after.len(),
        forall|j: int|
            0 <= j < before.len() ==> (#[trigger] after[j]) == before[j] || (!(after[j].schema@
                == schema && after[j].tb@ == tb) && !(before[j].schema@ == schema && before[j].tb@
                == tb)),
        forall|j: int|
            before.len() <= j < after.len() ==> !((#[trigger] after[j]).schema@ == schema
                && after[j].tb@ == tb),
    ensures
        cached(after, schema, tb) == cached(before, schema, tb),
{
    if exists|i: int| is_first_meta(before, schema, tb, i) {
        let i = choose|i: int| is_first_meta(before, schema, tb, i);
        assert(after[i] == before[i]);
        assert(is_first_meta(after, schema, tb, i)) by {
            assert forall|j: int| 0 <= j < i implies !((#[trigger] after[j]).schema@ == schema
                && after[j].tb@ == tb) by {
                assert(!(before[j].schema@ == schema && before[j].tb@ == tb));
            }
        }
        lemma_first_meta_is(after, schema, tb, i);
        lemma_first_meta_is(before, schema, tb, i);
    } else {
        assert forall|k: int| !is_first_meta(after, schema, tb, k) by {
            if is_first_meta(after, schema, tb, k) {
                assert(k < before.len());
                assert(after[k] == before[k]);
                assert(is_first_meta(before, schema, tb, k)) by {
                    assert forall|j: int| 0 <= j < k implies !((#[trigger] before[j]).schema@
                        == schema && before[j].tb@ == tb) by {
                        assert(!(after[j].schema@ == schema && after[j].tb@ == tb));
                    }
                }
            }
        }
    }
}

} // verus!
