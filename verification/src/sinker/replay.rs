//! What the batch policy does to a destination, stated over a model of
//! the destination: a map from the identity of a row to its image.
//!
//! The identity of a row is whatever the destination finds it by; the
//! model takes it as a function `key_of` from a row image to a key. An
//! upsert puts the image after the change under its key, whatever was
//! there; a delete takes the key of the image before the change out of
//! the map. A bulk operation does to the map what its records do one
//! after the other. Where the destination rejects it, it has done so for
//! the records up to the one that it stopped at, which may be none.

use vstd::prelude::*;
use crate::meta::col_value::ColMap;
use crate::meta::row_data::RowData;
use crate::meta::row_type::RowType;
use crate::sinker::base_sinker::{Awaiting, BatchSinker, Outcome, spec_decide};

verus! {

/// The key that applying `row` writes or removes, if any.
pub open spec fn row_key<K>(key_of: spec_fn(ColMap) -> K, row: RowData) -> Option<K> {
    match row.row_type {
        RowType::Delete => match row.before {
            Some(image) => Some(key_of(image)),
            None => None,
        },
        _ => match row.after {
            Some(image) => Some(key_of(image)),
            None => None,
        },
    }
}

/// The destination after `row` is applied by itself.
pub open spec fn apply_row<K>(
    dest: Map<K, ColMap>,
    key_of: spec_fn(ColMap) -> K,
    row: RowData,
) -> Map<K, ColMap> {
    match row.row_type {
        RowType::Delete => match row.before {
            Some(image) => dest.remove(key_of(image)),
            None => dest,
        },
        _ => match row.after {
            Some(image) => dest.insert(key_of(image), image),
            None => dest,
        },
    }
}

/// The destination after the records of `rows` are applied one at a
/// time, in order.
pub open spec fn apply_rows<K>(
    dest: Map<K, ColMap>,
    key_of: spec_fn(ColMap) -> K,
    rows: Seq<RowData>,
) -> Map<K, ColMap>
    decreases rows.len(),
{
    if rows.len() == 0 {
        dest
    } else {
        apply_rows(apply_row(dest, key_of, rows[0]), key_of, rows.skip(1))
    }
}

/// Whether some record of `rows` writes or removes the key `k`.
pub open spec fn touches<K>(key_of: spec_fn(ColMap) -> K, rows: Seq<RowData>, k: K) -> bool {
    exists|i: int| 0 <= i < rows.len() && #[trigger] row_key(key_of, rows[i]) == Some(k)
}

/// Whether two destinations hold the same under the key `k`.
pub open spec fn agree_at<K>(a: Map<K, ColMap>, b: Map<K, ColMap>, k: K) -> bool {
    &&& a.contains_key(k) == b.contains_key(k)
    &&& a.contains_key(k) ==> a[k] == b[k]
}

/// The destination after a caller has followed the machine `s` to the
/// end of the batch `rows`, where `s` waits for the outcome of an action.
/// Each single operation is applied. Of the bulk operation on the chunk
/// that starts at `i` the destination applies the first `bulk_done(i)`
/// records: all of them, and the operation is applied; or fewer, and it
/// is rejected.
pub open spec fn run<K>(
    rows: Seq<RowData>,
    s: BatchSinker,
    dest: Map<K, ColMap>,
    key_of: spec_fn(ColMap) -> K,
    bulk_done: spec_fn(int) -> int,
) -> Map<K, ColMap>
    decreases run_measure(rows, s),
{
    if !s.inv(rows) {
        dest
    } else {
        match s.awaiting {
            Awaiting::Nothing => dest,
            Awaiting::Single => run(
                rows,
                s.absorbed(Outcome::Applied)->Ok_0.decided(rows),
                apply_row(dest, key_of, rows[s.next as int]),
                key_of,
                bulk_done,
            ),
            Awaiting::Bulk { len } => if bulk_done(s.next as int) >= len {
                run(
                    rows,
                    s.absorbed(Outcome::Applied)->Ok_0.decided(rows),
                    apply_rows(dest, key_of, rows.subrange(s.next as int, s.next + len)),
                    key_of,
                    bulk_done,
                )
            } else {
                run(
                    rows,
                    s.absorbed(Outcome::Rejected)->Ok_0.decided(rows),
                    apply_rows(
                        dest,
                        key_of,
                        rows.subrange(s.next as int, s.next + applied_of(bulk_done(s.next as int))),
                    ),
                    key_of,
                    bulk_done,
                )
            },
        }
    }
}

/// The number of records that a rejected bulk operation has applied,
/// where the destination gives it as `done`.
pub open spec fn applied_of(done: int) -> int {
    if done < 0 {
        0
    } else {
        done
    }
}

/// What is left for the machine `s` to do on `rows`.
pub open spec fn run_measure(rows: Seq<RowData>, s: BatchSinker) -> int {
    if !s.inv(rows) {
        0
    } else {
        2 * (rows.len() - s.next) + (if s.awaiting is Bulk {
            2int
        } else {
            1int
        })
    }
}

/// Whether `s` is a state in which the machine has just said what to do.
pub open spec fn has_decided(rows: Seq<RowData>, s: BatchSinker) -> bool {
    &&& s.inv(rows)
    &&& s == (BatchSinker { awaiting: Awaiting::Nothing, ..s }).decided(rows)
}

/// Applying one run of records after another is applying the two runs
/// joined.
pub proof fn lemma_apply_rows_concat<K>(
    dest: Map<K, ColMap>,
    key_of: spec_fn(ColMap) -> K,
    a: Seq<RowData>,
    b: Seq<RowData>,
)
    ensures
        apply_rows(dest, key_of, a + b) == apply_rows(apply_rows(dest, key_of, a), key_of, b),
    decreases a.len(),
{
    if a.len() == 0 {
        assert(a + b =~= b);
    } else {
        assert((a + b)[0] == a[0]);
        assert((a + b).skip(1) =~= a.skip(1) + b);
        lemma_apply_rows_concat(apply_row(dest, key_of, a[0]), key_of, a.skip(1), b);
    }
}

/// A state that the machine decides from is a state in which it has
/// decided.
pub proof fn lemma_decided_has_decided(rows: Seq<RowData>, t: BatchSinker)
    requires
        t.batch_size >= 1,
        rows.len() <= usize::MAX,
        t.next <= rows.len(),
        t.serial_until <= rows.len(),
    ensures
        has_decided(rows, t.decided(rows)),
{
    let s = t.decided(rows);
    let d = spec_decide(rows, t.batch_size as int, t.next as int, t.serial_until as int);
    let u = BatchSinker { awaiting: Awaiting::Nothing, ..s };
    let e = spec_decide(rows, u.batch_size as int, u.next as int, u.serial_until as int);
    assert(e == (d.0, d.1, d.2));
}

/// Whatever bulk operations the destination rejects, following the
/// machine from a state in which it has decided leaves the destination as
/// applying the remaining records one at a time does.
pub proof fn lemma_run_from<K>(
    rows: Seq<RowData>,
    s: BatchSinker,
    dest: Map<K, ColMap>,
    key_of: spec_fn(ColMap) -> K,
    bulk_done: spec_fn(int) -> int,
)
    requires
        has_decided(rows, s),
    ensures
        run(rows, s, dest, key_of, bulk_done) == apply_rows(dest, key_of, rows.skip(s.next as int)),
    decreases run_measure(rows, s),
{
    let rest = rows.skip(s.next as int);
    match s.awaiting {
        Awaiting::Nothing => {
            assert(s.next >= rows.len());
            assert(rest.len() == 0);
        },
        Awaiting::Single => {
            let t = s.absorbed(Outcome::Applied)->Ok_0;
            lemma_decided_has_decided(rows, t);
            let s2 = t.decided(rows);
            let d2 = apply_row(dest, key_of, rows[s.next as int]);
            lemma_run_from(rows, s2, d2, key_of, bulk_done);
            assert(rest[0] == rows[s.next as int]);
            assert(rest.skip(1) =~= rows.skip(s.next + 1));
        },
        Awaiting::Bulk { len } => {
            let chunk = rows.subrange(s.next as int, s.next + len);
            if bulk_done(s.next as int) >= len {
                let t = s.absorbed(Outcome::Applied)->Ok_0;
                lemma_decided_has_decided(rows, t);
                let s2 = t.decided(rows);
                lemma_run_from(rows, s2, apply_rows(dest, key_of, chunk), key_of, bulk_done);
                assert(rest =~= chunk + rows.skip(s.next + len));
                lemma_apply_rows_concat(dest, key_of, chunk, rows.skip(s.next + len));
            } else {
                let t = s.absorbed(Outcome::Rejected)->Ok_0;
                lemma_decided_has_decided(rows, t);
                let s2 = t.decided(rows);
                assert(s2.awaiting is Single);
                let k = applied_of(bulk_done(s.next as int));
                let partly = apply_rows(dest, key_of, rows.subrange(s.next as int, s.next + k));
                lemma_run_from(rows, s2, partly, key_of, bulk_done);
                assert(rows.subrange(s.next as int, s.next + k) =~= rest.take(k));
                lemma_prefix_is_absorbed(dest, key_of, rest, k);
            }
        },
    }
}

/// Fallback correctness. Whichever bulk operations the destination
/// rejects, and however far it came with each before it stopped, a batch
/// that goes through the policy, from `begin` to the end, leaves the
/// destination in the state that applying the whole batch one record at
/// a time, from the start, leaves it in. No record is lost.
pub proof fn lemma_fallback_equals_serial<K>(
    rows: Seq<RowData>,
    sinker: BatchSinker,
    dest: Map<K, ColMap>,
    key_of: spec_fn(ColMap) -> K,
    bulk_done: spec_fn(int) -> int,
)
    requires
        rows.len() <= usize::MAX,
    ensures
        run(rows, sinker.sized().started(rows).decided(rows), dest, key_of, bulk_done)
            == apply_rows(dest, key_of, rows),
{
    let t = sinker.sized().started(rows);
    lemma_decided_has_decided(rows, t);
    lemma_run_from(rows, t.decided(rows), dest, key_of, bulk_done);
    assert(rows.skip(0) =~= rows);
}

/// A key that no record of `rows` writes or removes holds after `rows`
/// what it held before.
pub proof fn lemma_untouched_key_stays<K>(
    dest: Map<K, ColMap>,
    key_of: spec_fn(ColMap) -> K,
    rows: Seq<RowData>,
    k: K,
)
    requires
        !touches(key_of, rows, k),
    ensures
        agree_at(apply_rows(dest, key_of, rows), dest, k),
    decreases rows.len(),
{
    if rows.len() > 0 {
        let rest = rows.skip(1);
        assert(row_key(key_of, rows[0]) != Some(k));
        assert(!touches(key_of, rest, k)) by {
            if touches(key_of, rest, k) {
                let i = choose|i: int|
                    0 <= i < rest.len() && #[trigger] row_key(key_of, rest[i]) == Some(k);
                assert(row_key(key_of, rows[i + 1]) == Some(k));
            }
        }
        lemma_untouched_key_stays(apply_row(dest, key_of, rows[0]), key_of, rest, k);
    }
}

/// What a run of records leaves under the keys that it writes or removes
/// does not depend on what was there.
pub proof fn lemma_touched_keys_are_overwritten<K>(
    a: Map<K, ColMap>,
    b: Map<K, ColMap>,
    key_of: spec_fn(ColMap) -> K,
    rows: Seq<RowData>,
)
    requires
        forall|k: K| !touches(key_of, rows, k) ==> agree_at(a, b, k),
    ensures
        apply_rows(a, key_of, rows) == apply_rows(b, key_of, rows),
    decreases rows.len(),
{
    if rows.len() == 0 {
        assert forall|k: K| #[trigger] a.dom().contains(k) == b.dom().contains(k) by {
            assert(!touches(key_of, rows, k));
            assert(agree_at(a, b, k));
        }
        assert(a.dom() =~= b.dom());
        assert forall|k: K| #[trigger] a.dom().contains(k) implies a[k] == b[k] by {
            assert(!touches(key_of, rows, k));
            assert(agree_at(a, b, k));
        }
        assert(a =~= b);
    } else {
        let rest = rows.skip(1);
        let a2 = apply_row(a, key_of, rows[0]);
        let b2 = apply_row(b, key_of, rows[0]);
        assert forall|k: K| !touches(key_of, rest, k) implies agree_at(a2, b2, k) by {
            if row_key(key_of, rows[0]) != Some(k) {
                assert(!touches(key_of, rows, k)) by {
                    if touches(key_of, rows, k) {
                        let i = choose|i: int|
                            0 <= i < rows.len() && #[trigger] row_key(key_of, rows[i]) == Some(k);
                        assert(i > 0);
                        assert(row_key(key_of, rest[i - 1]) == Some(k));
                    }
                }
                assert(agree_at(a, b, k));
            }
        }
        lemma_touched_keys_are_overwritten(a2, b2, key_of, rest);
    }
}

/// Records that were applied already change nothing when the run that
/// they start is applied: the run writes over all that they wrote.
pub proof fn lemma_prefix_is_absorbed<K>(
    dest: Map<K, ColMap>,
    key_of: spec_fn(ColMap) -> K,
    rows: Seq<RowData>,
    k: int,
)
    requires
        0 <= k <= rows.len(),
    ensures
        apply_rows(apply_rows(dest, key_of, rows.take(k)), key_of, rows) == apply_rows(
            dest,
            key_of,
            rows,
        ),
{
    let prefix = rows.take(k);
    let partly = apply_rows(dest, key_of, prefix);
    assert forall|key: K| !touches(key_of, rows, key) implies agree_at(partly, dest, key) by {
        assert(!touches(key_of, prefix, key)) by {
            if touches(key_of, prefix, key) {
                let i = choose|i: int|
                    0 <= i < prefix.len() && #[trigger] row_key(key_of, prefix[i]) == Some(key);
                assert(row_key(key_of, rows[i]) == Some(key));
            }
        }
        lemma_untouched_key_stays(dest, key_of, prefix, key);
    }
    lemma_touched_keys_are_overwritten(partly, dest, key_of, rows);
}

/// Applying a run of records a second time changes nothing.
pub proof fn lemma_apply_rows_idempotent<K>(
    dest: Map<K, ColMap>,
    key_of: spec_fn(ColMap) -> K,
    rows: Seq<RowData>,
)
    ensures
        apply_rows(apply_rows(dest, key_of, rows), key_of, rows) == apply_rows(dest, key_of, rows),
{
    let once = apply_rows(dest, key_of, rows);
    assert forall|k: K| !touches(key_of, rows, k) implies agree_at(once, dest, k) by {
        lemma_untouched_key_stays(dest, key_of, rows, k);
    }
    lemma_touched_keys_are_overwritten(once, dest, key_of, rows);
}

/// Idempotent redelivery. A batch that goes through the policy a second
/// time, whichever bulk operations the destination rejects in either
/// pass, leaves the destination as the first pass left it. This holds of
/// a batch of inserts as of any other.
pub proof fn lemma_redelivery_is_idempotent<K>(
    rows: Seq<RowData>,
    sinker: BatchSinker,
    dest: Map<K, ColMap>,
    key_of: spec_fn(ColMap) -> K,
    first_done: spec_fn(int) -> int,
    second_done: spec_fn(int) -> int,
)
    requires
        rows.len() <= usize::MAX,
    ensures
        ({
            let start = sinker.sized().started(rows).decided(rows);
            let once = run(rows, start, dest, key_of, first_done);
            run(rows, start, once, key_of, second_done) == once
        }),
{
    let start = sinker.sized().started(rows).decided(rows);
    lemma_fallback_equals_serial(rows, sinker, dest, key_of, first_done);
    let once = run(rows, start, dest, key_of, first_done);
    lemma_fallback_equals_serial(rows, sinker, once, key_of, second_done);
    lemma_apply_rows_idempotent(dest, key_of, rows);
}

} // verus!
