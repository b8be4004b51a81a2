//! The batch and fallback policy, as a machine that says what to do next.
//!
//! A batch is cut into chunks of at most `batch_size` records. A chunk of
//! inserts goes to the destination as one bulk upsert, a chunk of deletes
//! as one bulk delete, any other chunk record by record. Where the
//! destination rejects a bulk operation, the records of that chunk are
//! applied one at a time. Only a lost connection, or a record that the
//! destination rejects on its own, ends the batch early.
//!
//! The machine holds no connection. Its caller performs each action and
//! reports how it went.

use vstd::prelude::*;
use crate::error::Error;
use crate::meta::row_data::RowData;
use crate::meta::row_type::RowType;

verus! {

/// What the records of a chunk have in common.
#[derive(Debug, Clone, Copy, PartialEq, Eq, Structural)]
pub enum ChunkKind {
    InsertOnly,
    DeleteOnly,
    Mixed,
}

/// What the caller is to do next.
#[derive(Debug, Clone, Copy, PartialEq, Eq, Structural)]
pub enum SinkAction {
    /// Upsert the records `start .. start + len` in one operation.
    BulkUpsert { start: usize, len: usize },
    /// Delete the records `start .. start + len` in one operation.
    BulkDelete { start: usize, len: usize },
    /// Upsert the record at `index`.
    Upsert { index: usize },
    /// Delete the record at `index`.
    Delete { index: usize },
    /// Every record is applied.
    Finished,
    /// The batch cannot go on.
    Failed(Error),
}

/// How the destination took the last action.
#[derive(Debug, Clone, Copy, PartialEq, Eq, Structural)]
pub enum Outcome {
    /// The operation was applied.
    Applied,
    /// The destination refused the operation and applied nothing of it.
    Rejected,
    /// The connection is gone.
    Lost,
}

/// The action whose outcome the machine waits for.
#[derive(Debug, Clone, Copy, PartialEq, Eq, Structural)]
pub enum Awaiting {
    Nothing,
    Bulk { len: usize },
    Single,
}

/// Whether every record of `rows` is of kind `t`.
pub open spec fn all_of_type(rows: Seq<RowData>, t: RowType) -> bool {
    forall|i: int| 0 <= i < rows.len() ==> (#[trigger] rows[i]).row_type == t
}

/// What the records of `rows` have in common.
pub open spec fn chunk_kind(rows: Seq<RowData>) -> ChunkKind {
    if all_of_type(rows, RowType::Insert) {
        ChunkKind::InsertOnly
    } else if all_of_type(rows, RowType::Delete) {
        ChunkKind::DeleteOnly
    } else {
        ChunkKind::Mixed
    }
}

/// The size of the chunk that starts at `next` in a batch of `n` records:
/// `batch_size`, or what is left where that is less.
pub open spec fn chunk_len(n: int, next: int, batch_size: int) -> int {
    if n - next < batch_size {
        n - next
    } else {
        batch_size
    }
}

/// The action that applies the record at `i` by itself: a delete for a
/// deleted row, an upsert for an inserted or updated one.
pub open spec fn single_action(rows: Seq<RowData>, i: int) -> SinkAction {
    if rows[i].row_type == RowType::Delete {
        SinkAction::Delete { index: i as usize }
    } else {
        SinkAction::Upsert { index: i as usize }
    }
}

/// What to do when the records before `next` are applied and those from
/// `next` up to `serial_until` are to be applied one at a time: the
/// action, the new value of `serial_until`, and what the machine then
/// waits for.
pub open spec fn spec_decide(rows: Seq<RowData>, batch_size: int, next: int, serial_until: int) -> (
    SinkAction,
    int,
    Awaiting,
) {
    if next >= rows.len() {
        (SinkAction::Finished, serial_until, Awaiting::Nothing)
    } else if next < serial_until {
        (single_action(rows, next), serial_until, Awaiting::Single)
    } else {
        let len = chunk_len(rows.len() as int, next, batch_size);
        match chunk_kind(rows.subrange(next, next + len)) {
            ChunkKind::InsertOnly => (
                SinkAction::BulkUpsert { start: next as usize, len: len as usize },
                serial_until,
                Awaiting::Bulk { len: len as usize },
            ),
            ChunkKind::DeleteOnly => (
                SinkAction::BulkDelete { start: next as usize, len: len as usize },
                serial_until,
                Awaiting::Bulk { len: len as usize },
            ),
            ChunkKind::Mixed => (single_action(rows, next), next + len, Awaiting::Single),
        }
    }
}

/// What the records `start .. start + len` of `rows` have in common, as
/// far as `rows` has them.
pub fn classify(rows: &Vec<RowData>, start: usize, len: usize) -> (kind: ChunkKind)
    ensures
        ({
            let from = if start <= rows@.len() {
                start as int
            } else {
                rows@.len() as int
            };
            kind == chunk_kind(
                rows@.subrange(from, from + chunk_len(rows@.len() as int, from, len as int)),
            )
        }),
{
    let n: usize = rows.len();
    let from: usize = if start <= n {
        start
    } else {
        n
    };
    let size: usize = if n - from < len {
        n - from
    } else {
        len
    };
    classify_within(rows, from, size)
}

/// What the records `start .. start + len` of `rows` have in common.
fn classify_within(rows: &Vec<RowData>, start: usize, len: usize) -> (kind: ChunkKind)
    requires
        start + len <= rows.len(),
    ensures
        kind == chunk_kind(rows@.subrange(start as int, start + len)),
{
    let ghost chunk = rows@.subrange(start as int, start + len);
    let mut inserts: bool = true;
    let mut deletes: bool = true;
    let mut i: usize = 0;
    while i < len
        invariant
            i <= len,
            start + len <= rows.len(),
            chunk == rows@.subrange(start as int, start + len),
            inserts == all_of_type(chunk.take(i as int), RowType::Insert),
            deletes == all_of_type(chunk.take(i as int), RowType::Delete),
        decreases len - i,
    {
        let t = rows[start + i].row_type;
        proof {
            let a = chunk.take(i as int);
            let b = chunk.take(i + 1);
            assert(b[i as int] == rows@[start + i]);
            assert forall|k: int| 0 <= k < a.len() implies a[k] == b[k] by {}
            if all_of_type(b, RowType::Insert) {
                assert forall|k: int| 0 <= k < a.len() implies (#[trigger] a[k]).row_type
                    == RowType::Insert by {
                    assert(b[k].row_type == RowType::Insert);
                }
            }
            if all_of_type(b, RowType::Delete) {
                assert forall|k: int| 0 <= k < a.len() implies (#[trigger] a[k]).row_type
                    == RowType::Delete by {
                    assert(b[k].row_type == RowType::Delete);
                }
            }
            if all_of_type(a, RowType::Insert) && t == RowType::Insert {
                assert forall|k: int| 0 <= k < b.len() implies (#[trigger] b[k]).row_type
                    == RowType::Insert by {
                    if k < i {
                        assert(a[k].row_type == RowType::Insert);
                    }
                }
            }
            if all_of_type(a, RowType::Delete) && t == RowType::Delete {
                assert forall|k: int| 0 <= k < b.len() implies (#[trigger] b[k]).row_type
                    == RowType::Delete by {
                    if k < i {
                        assert(a[k].row_type == RowType::Delete);
                    }
                }
            }
        }
        inserts = inserts && t == RowType::Insert;
        deletes = deletes && t == RowType::Delete;
        i = i + 1;
    }
    proof {
        assert(chunk.take(len as int) =~= chunk);
    }
    if inserts {
        ChunkKind::InsertOnly
    } else if deletes {
        ChunkKind::DeleteOnly
    } else {
        ChunkKind::Mixed
    }
}

/// The progress of one batch through the policy.
#[derive(Debug, Clone, Copy)]
pub struct BatchSinker {
    /// The size of a chunk, at least one.
    pub batch_size: usize,
    /// Whether every record is applied by itself, whatever its chunk.
    pub serial: bool,
    /// The number of records applied so far.
    pub next: usize,
    /// The records from `next` up to here are applied one at a time.
    pub serial_until: usize,
    /// The action whose outcome is awaited.
    pub awaiting: Awaiting,
}

impl BatchSinker {
    /// Whether the machine is in a state that it can reach on `rows`.
    pub open spec fn inv(&self, rows: Seq<RowData>) -> bool {
        &&& self.batch_size >= 1
        &&& rows.len() <= usize::MAX
        &&& self.next <= rows.len()
        &&& self.serial_until <= rows.len()
        &&& match self.awaiting {
            Awaiting::Nothing => true,
            Awaiting::Bulk { len } => 1 <= len && self.next + len <= rows.len()
                && self.serial_until <= self.next,
            Awaiting::Single => self.next < self.serial_until,
        }
    }

    /// The machine after `decide` chose what comes after `self`.
    pub open spec fn decided(self, rows: Seq<RowData>) -> BatchSinker {
        let d = spec_decide(
            rows,
            self.batch_size as int,
            self.next as int,
            self.serial_until as int,
        );
        BatchSinker { serial_until: d.1 as usize, awaiting: d.2, ..self }
    }

    /// The action that `decide` chooses after `self`.
    pub open spec fn decision(self, rows: Seq<RowData>) -> SinkAction {
        spec_decide(rows, self.batch_size as int, self.next as int, self.serial_until as int).0
    }

    /// The machine at the start of the batch `rows`.
    pub open spec fn started(self, rows: Seq<RowData>) -> BatchSinker {
        BatchSinker {
            next: 0,
            serial_until: if self.serial {
                rows.len() as usize
            } else {
                0
            },
            awaiting: Awaiting::Nothing,
            ..self
        }
    }

    /// The machine once it has learnt the outcome of the action that it
    /// waits for, before it decides what comes next; `None` where the
    /// outcome ends the batch.
    pub open spec fn absorbed(self, outcome: Outcome) -> Result<BatchSinker, Error> {
        match (self.awaiting, outcome) {
            (Awaiting::Nothing, _) => Ok(self),
            (_, Outcome::Lost) => Err(Error::ConnectionClosed),
            (Awaiting::Bulk { len }, Outcome::Applied) => Ok(
                BatchSinker { next: (self.next + len) as usize, awaiting: Awaiting::Nothing, ..self },
            ),
            (Awaiting::Bulk { len }, Outcome::Rejected) => Ok(
                BatchSinker {
                    serial_until: (self.next + len) as usize,
                    awaiting: Awaiting::Nothing,
                    ..self
                },
            ),
            (Awaiting::Single, Outcome::Applied) => Ok(
                BatchSinker { next: (self.next + 1) as usize, awaiting: Awaiting::Nothing, ..self },
            ),
            (Awaiting::Single, Outcome::Rejected) => Err(Error::DestinationRejected),
        }
    }

    /// A machine that cuts its batch into chunks of `batch_size` records;
    /// a `batch_size` of zero counts as one.
    pub fn batched(batch_size: usize) -> (s: BatchSinker)
        ensures
            s.batch_size == (if batch_size == 0 {
                1usize
            } else {
                batch_size
            }),
            !s.serial,
            s.next == 0,
            s.serial_until == 0,
            s.awaiting == Awaiting::Nothing,
    {
        BatchSinker {
            batch_size: if batch_size == 0 {
                1
            } else {
                batch_size
            },
            serial: false,
            next: 0,
            serial_until: 0,
            awaiting: Awaiting::Nothing,
        }
    }

    /// A machine that applies every record by itself, in order.
    pub fn serial() -> (s: BatchSinker)
        ensures
            s.batch_size == 1,
            s.serial,
            s.next == 0,
            s.serial_until == 0,
            s.awaiting == Awaiting::Nothing,
    {
        BatchSinker {
            batch_size: 1,
            serial: true,
            next: 0,
            serial_until: 0,
            awaiting: Awaiting::Nothing,
        }
    }

    /// Whether the machine is in a state that it can reach on `rows`:
    /// what `resume` asks of its caller.
    pub fn fits(&self, rows: &Vec<RowData>) -> (r: bool)
        ensures
            r == self.inv(rows@),
    {
        let n: usize = rows.len();
        if self.batch_size < 1 || self.next > n || self.serial_until > n {
            return false;
        }
        match self.awaiting {
            Awaiting::Nothing => true,
            Awaiting::Bulk { len } => 1 <= len && len <= n - self.next && self.serial_until
                <= self.next,
            Awaiting::Single => self.next < self.serial_until,
        }
    }

    fn decide(&mut self, rows: &Vec<RowData>) -> (action: SinkAction)
        requires
            old(self).batch_size >= 1,
            old(self).next <= rows.len(),
            old(self).serial_until <= rows.len(),
        ensures
            *final(self) == old(self).decided(rows@),
            action == old(self).decision(rows@),
            final(self).inv(rows@),
    {
        if self.next >= rows.len() {
            self.awaiting = Awaiting::Nothing;
            return SinkAction::Finished;
        }
        if self.next < self.serial_until {
            self.awaiting = Awaiting::Single;
            return single(rows, self.next);
        }
        let left: usize = rows.len() - self.next;
        let len: usize = if left < self.batch_size {
            left
        } else {
            self.batch_size
        };
        match classify_within(rows, self.next, len) {
            ChunkKind::InsertOnly => {
                self.awaiting = Awaiting::Bulk { len };
                SinkAction::BulkUpsert { start: self.next, len }
            },
            ChunkKind::DeleteOnly => {
                self.awaiting = Awaiting::Bulk { len };
                SinkAction::BulkDelete { start: self.next, len }
            },
            ChunkKind::Mixed => {
                self.serial_until = self.next + len;
                self.awaiting = Awaiting::Single;
                single(rows, self.next)
            },
        }
    }

    /// The machine with a chunk size of at least one: a size of zero
    /// counts as one.
    pub open spec fn sized(self) -> BatchSinker {
        BatchSinker {
            batch_size: if self.batch_size == 0 {
                1
            } else {
                self.batch_size
            },
            ..self
        }
    }

    /// Starts the batch `rows`, from whatever state the machine was in,
    /// and says what to do first.
    pub fn begin(&mut self, rows: &Vec<RowData>) -> (action: SinkAction)
        ensures
            *final(self) == old(self).sized().started(rows@).decided(rows@),
            action == old(self).sized().started(rows@).decision(rows@),
            final(self).inv(rows@),
            rows@.len() == 0 ==> action == SinkAction::Finished,
    {
        if self.batch_size == 0 {
            self.batch_size = 1;
        }
        self.next = 0;
        self.serial_until = if self.serial {
            rows.len()
        } else {
            0
        };
        self.awaiting = Awaiting::Nothing;
        self.decide(rows)
    }

    /// Takes the outcome of the last action and says what to do next.
    ///
    /// After an applied action the machine moves on. After a rejected
    /// bulk operation it goes through the records of that chunk one at a
    /// time. A lost connection, or a single record that the destination
    /// rejects, fails the batch, and the machine stays where it was.
    pub fn resume(&mut self, rows: &Vec<RowData>, outcome: Outcome) -> (action: SinkAction)
        requires
            old(self).inv(rows@),
        ensures
            match old(self).absorbed(outcome) {
                Ok(s) => {
                    &&& *final(self) == s.decided(rows@)
                    &&& action == s.decision(rows@)
                },
                Err(e) => *final(self) == *old(self) && action == SinkAction::Failed(e),
            },
            final(self).inv(rows@),
    {
        let n: usize = rows.len();
        match self.awaiting {
            Awaiting::Nothing => {},
            Awaiting::Bulk { len } => {
                assert(self.next + len <= n);
                match outcome {
                    Outcome::Applied => {
                        self.next = self.next + len;
                    },
                    Outcome::Rejected => {
                        self.serial_until = self.next + len;
                    },
                    Outcome::Lost => {
                        return SinkAction::Failed(Error::ConnectionClosed);
                    },
                }
            },
            Awaiting::Single => {
                match outcome {
                    Outcome::Applied => {
                        self.next = self.next + 1;
                    },
                    Outcome::Rejected => {
                        return SinkAction::Failed(Error::DestinationRejected);
                    },
                    Outcome::Lost => {
                        return SinkAction::Failed(Error::ConnectionClosed);
                    },
                }
            },
        }
        self.awaiting = Awaiting::Nothing;
        self.decide(rows)
    }
}

fn single(rows: &Vec<RowData>, i: usize) -> (action: SinkAction)
    requires
        i < rows.len(),
    ensures
        action == single_action(rows@, i as int),
{
    if rows[i].row_type == RowType::Delete {
        SinkAction::Delete { index: i }
    } else {
        SinkAction::Upsert { index: i }
    }
}

/// A run of records of a batch.
#[derive(Debug, Clone, Copy, PartialEq, Eq, Structural)]
pub struct ChunkRange {
    pub start: usize,
    pub len: usize,
}

/// The chunks that a batch of `n` records is cut into from `from` on:
/// each of `batch_size` records, but for the last, which has what is
/// left.
pub open spec fn chunks_from(n: int, batch_size: int, from: int) -> Seq<ChunkRange>
    decreases n - from,
{
    if from >= n || from < 0 || batch_size < 1 {
        Seq::empty()
    } else {
        let len = chunk_len(n, from, batch_size);
        seq![ChunkRange { start: from as usize, len: len as usize }] + chunks_from(
            n,
            batch_size,
            from + len,
        )
    }
}

/// The chunks that a batch of `all_count` records is cut into; a
/// `batch_size` of zero counts as one.
pub fn plan_chunks(all_count: usize, batch_size: usize) -> (chunks: Vec<ChunkRange>)
    ensures
        chunks@ == chunks_from(
            all_count as int,
            if batch_size == 0 {
                1
            } else {
                batch_size as int
            },
            0,
        ),
{
    let size: usize = if batch_size == 0 {
        1
    } else {
        batch_size
    };
    let mut chunks: Vec<ChunkRange> = Vec::new();
    let mut from: usize = 0;
    proof {
        assert(chunks@ + chunks_from(all_count as int, size as int, 0) =~= chunks_from(
            all_count as int,
            size as int,
            0,
        ));
    }
    while from < all_count
        invariant
            from <= all_count,
            size >= 1,
            chunks_from(all_count as int, size as int, 0) == chunks@ + chunks_from(
                all_count as int,
                size as int,
                from as int,
            ),
        decreases all_count - from,
    {
        let len: usize = if all_count - from < size {
            all_count - from
        } else {
            size
        };
        let ghost before = chunks@;
        chunks.push(ChunkRange { start: from, len });
        proof {
            assert(before + (seq![ChunkRange { start: from, len }] + chunks_from(
                all_count as int,
                size as int,
                from + len,
            )) =~= chunks@ + chunks_from(all_count as int, size as int, from + len));
        }
        from = from + len;
    }
    proof {
        assert(chunks@ + chunks_from(all_count as int, size as int, from as int) =~= chunks@);
    }
    chunks
}

/// The chunks cover the batch: each starts where the one before it
/// ends, none is empty or longer than `batch_size`, and together they
/// hold `n - from` records.
pub proof fn lemma_chunks_cover(n: int, batch_size: int, from: int)
    requires
        0 <= from <= n,
        batch_size >= 1,
        n <= usize::MAX,
    ensures
        forall|k: int|
            0 <= k < chunks_from(n, batch_size, from).len() ==> 1 <= (#[trigger] chunks_from(
                n,
                batch_size,
                from,
            )[k]).len <= batch_size,
        chunks_from(n, batch_size, from).len() > 0 ==> chunks_from(n, batch_size, from)[0].start
            == from,
        forall|k: int|
            0 <= k < chunks_from(n, batch_size, from).len() - 1 ==> (#[trigger] chunks_from(
                n,
                batch_size,
                from,
            )[k]).start + chunks_from(n, batch_size, from)[k].len == chunks_from(
                n,
                batch_size,
                from,
            )[k + 1].start,
        chunks_from(n, batch_size, from).len() > 0 ==> chunks_from(n, batch_size, from).last().start
            + chunks_from(n, batch_size, from).last().len == n,
        from < n ==> chunks_from(n, batch_size, from).len() > 0,
    decreases n - from,
{
    if from < n {
        let len = chunk_len(n, from, batch_size);
        let rest = chunks_from(n, batch_size, from + len);
        let all = chunks_from(n, batch_size, from);
        lemma_chunks_cover(n, batch_size, from + len);
        assert(all[0] == ChunkRange { start: from as usize, len: len as usize });
        assert forall|k: int| 0 <= k < all.len() implies 1 <= (#[trigger] all[k]).len
            <= batch_size by {
            if k > 0 {
                assert(all[k] == rest[k - 1]);
            }
        }
        assert forall|k: int| 0 <= k < all.len() - 1 implies (#[trigger] all[k]).start + all[k].len
            == all[k + 1].start by {
            assert(all[k + 1] == rest[k]);
            if k > 0 {
                assert(all[k] == rest[k - 1]);
            }
        }
        if rest.len() > 0 {
            assert(all.last() == rest.last());
        }
    }
}

/// What a chunk adds to the throughput that a monitor reports: the
/// number of its records and the sum of their size estimates.
#[derive(Debug, Clone, Copy, PartialEq, Eq, Structural)]
pub struct ChunkLoad {
    pub rows: usize,
    /// The sum of the size estimates; the greatest number that can be
    /// held where the sum is greater.
    pub bytes: usize,
}

/// The sum of the size estimates of `rows`.
pub open spec fn rows_size(rows: Seq<RowData>) -> int
    decreases rows.len(),
{
    if rows.len() == 0 {
        0
    } else {
        rows_size(rows.drop_last()) + rows.last().data_size
    }
}

/// `sum`, or the greatest number that can be held where `sum` is
/// greater.
pub open spec fn held(sum: int) -> usize {
    if sum > usize::MAX {
        usize::MAX
    } else {
        sum as usize
    }
}

/// What the chunk `start_index .. start_index + batch_size` of `data`,
/// as far as `data` has it, adds to the throughput: the count of its
/// records and the sum of their size estimates. A monitor is told so
/// after the chunk is applied; it has no part in what is applied.
pub fn chunk_load(data: &Vec<RowData>, start_index: usize, batch_size: usize) -> (load: ChunkLoad)
    ensures
        ({
            let from = if start_index <= data@.len() {
                start_index as int
            } else {
                data@.len() as int
            };
            let len = chunk_len(data@.len() as int, from, batch_size as int);
            &&& load.rows == len
            &&& load.bytes == held(rows_size(data@.subrange(from, from + len)))
        }),
{
    let n: usize = data.len();
    let from: usize = if start_index <= n {
        start_index
    } else {
        n
    };
    let len: usize = if n - from < batch_size {
        n - from
    } else {
        batch_size
    };
    let ghost chunk = data@.subrange(from as int, from + len);
    let mut bytes: usize = 0;
    let mut i: usize = 0;
    proof {
        assert(chunk.take(0) =~= Seq::<RowData>::empty());
    }
    while i < len
        invariant
            i <= len,
            from + len <= n,
            n == data@.len(),
            chunk == data@.subrange(from as int, from + len),
            rows_size(chunk.take(i as int)) >= 0,
            bytes == held(rows_size(chunk.take(i as int))),
        decreases len - i,
    {
        proof {
            let t = chunk.take(i + 1);
            assert(t.drop_last() =~= chunk.take(i as int));
            assert(t.last() == data@[from + i]);
        }
        bytes = match bytes.checked_add(data[from + i].data_size) {
            Some(sum) => sum,
            None => usize::MAX,
        };
        i = i + 1;
    }
    proof {
        assert(chunk.take(len as int) =~= chunk);
    }
    ChunkLoad { rows: len, bytes }
}

} // verus!
