//! What stands between the buffer and the sinker: taking a batch from
//! the buffer, checking its transaction boundaries, and noting how far
//! the sinker has come once the batch is applied.

use vstd::prelude::*;
use concurrent_queue::ConcurrentQueue;
use crate::error::Error;
use crate::meta::dt_data::{DtData, DtItem};
use crate::meta::position::Position;
use crate::meta::syncer::Syncer;
use crate::util::queue::pop_up_to;

verus! {

/// Whether a transaction is open after the records of `items`, where
/// `open` says whether one was open before them; an error where a
/// transaction ends that never began.
pub open spec fn after_items(items: Seq<DtItem>, open: bool) -> Result<bool, Error>
    decreases items.len(),
{
    if items.len() == 0 {
        Ok(open)
    } else {
        match after_items(items.drop_last(), open) {
            Err(e) => Err(e),
            Ok(was_open) => match items.last().dt_data {
                DtData::Begin {  } => Ok(true),
                DtData::Commit { .. } => if was_open {
                    Ok(false)
                } else {
                    Err(Error::CommitWithoutBegin)
                },
                _ => Ok(was_open),
            },
        }
    }
}

/// Whether the positions of `items` never go back.
pub open spec fn in_capture_order(items: Seq<DtItem>) -> bool {
    forall|i: int, j: int|
        0 <= i <= j < items.len() ==> (#[trigger] items[j]).position.not_earlier_than(
            (#[trigger] items[i]).position,
        )
}

/// How far the closing of a pipeline has come.
#[derive(Debug, Clone, Copy, PartialEq, Eq, Structural)]
pub enum CloseStage {
    /// The pipeline runs.
    Running,
    /// The extractor takes no new records; the buffer may still hold
    /// some.
    Draining,
    /// The destination connections are closed.
    Closed,
}

/// What the caller is to do next to close the pipeline.
#[derive(Debug, Clone, Copy, PartialEq, Eq, Structural)]
pub enum CloseAction {
    /// Close the transport of the extractor.
    CloseExtractor,
    /// Hand what the buffer holds to the sinker.
    Drain,
    /// Close the destination connections.
    CloseDestination,
    /// Nothing: the pipeline is closed.
    Nothing,
}

/// The stage after one step of closing from `stage`, and what the step
/// asks of the caller: the extractor is closed first, then the buffer is
/// drained, and the destination is closed once the buffer is empty.
pub open spec fn close_step(stage: CloseStage, buffer_empty: bool) -> (CloseStage, CloseAction) {
    match stage {
        CloseStage::Running => (CloseStage::Draining, CloseAction::CloseExtractor),
        CloseStage::Draining => if buffer_empty {
            (CloseStage::Closed, CloseAction::CloseDestination)
        } else {
            (CloseStage::Draining, CloseAction::Drain)
        },
        CloseStage::Closed => (CloseStage::Closed, CloseAction::Nothing),
    }
}

pub struct BasePipeline {}

impl BasePipeline {
    /// Takes the next batch from the buffer: the records at its head, at
    /// most `batch_size` of them.
    pub fn fetch(buffer: &ConcurrentQueue<DtItem>, batch_size: usize) -> (items: Vec<DtItem>)
        ensures
            items@.len() <= batch_size,
    {
        pop_up_to(buffer, batch_size)
    }

    /// Checks the transaction boundaries of a batch: whether a
    /// transaction is open after it, where `open` says whether one was
    /// open before it. A commit without a begin before it is an error.
    pub fn check_transactions(items: &Vec<DtItem>, open: bool) -> (r: Result<bool, Error>)
        ensures
            r == after_items(items@, open),
    {
        let mut now_open: bool = open;
        let mut i: usize = 0;
        proof {
            assert(items@.take(0) =~= Seq::<DtItem>::empty());
        }
        while i < items.len()
            invariant
                i <= items@.len(),
                after_items(items@.take(i as int), open) == Ok::<bool, Error>(now_open),
            decreases items@.len() - i,
        {
            proof {
                let t = items@.take(i + 1);
                assert(t.drop_last() =~= items@.take(i as int));
                assert(t.last() == items@[i as int]);
            }
            if items[i].dt_data.is_begin() {
                now_open = true;
            } else if items[i].dt_data.is_commit() {
                if !now_open {
                    proof {
                        lemma_failure_stays(items@, open, i + 1);
                    }
                    return Err(Error::CommitWithoutBegin);
                }
                now_open = false;
            }
            i = i + 1;
        }
        proof {
            assert(items@.take(i as int) =~= items@);
        }
        Ok(now_open)
    }

    /// Takes one step of closing the pipeline and says what the caller
    /// is to do. Closing a closed pipeline asks nothing.
    pub fn close(stage: &mut CloseStage, buffer_empty: bool) -> (action: CloseAction)
        ensures
            (*final(stage), action) == close_step(*old(stage), buffer_empty),
    {
        match *stage {
            CloseStage::Running => {
                *stage = CloseStage::Draining;
                CloseAction::CloseExtractor
            },
            CloseStage::Draining => {
                if buffer_empty {
                    *stage = CloseStage::Closed;
                    CloseAction::CloseDestination
                } else {
                    CloseAction::Drain
                }
            },
            CloseStage::Closed => CloseAction::Nothing,
        }
    }

    /// Notes that the batch `items` is durably applied: the committed
    /// position becomes the position of its last record. An empty batch
    /// changes nothing.
    pub fn commit(syncer: &mut Syncer, items: &Vec<DtItem>)
        ensures
            final(syncer).received_position == old(syncer).received_position,
            items@.len() == 0 ==> final(syncer).committed_position == old(
                syncer,
            ).committed_position,
            items@.len() > 0 ==> final(syncer).committed_position@ == items@.last().position@
                && final(syncer).committed_position.progress() == items@.last().position.progress(),
    {
        if items.len() > 0 {
            let last = &items[items.len() - 1];
            syncer.commit(last.position.duplicate());
        }
    }
}

/// Where the records up to `k` end a transaction that never began, so do
/// all the records.
pub proof fn lemma_failure_stays(items: Seq<DtItem>, open: bool, k: int)
    requires
        0 <= k <= items.len(),
        after_items(items.take(k), open) is Err,
    ensures
        after_items(items, open) == after_items(items.take(k), open),
    decreases items.len() - k,
{
    if k == items.len() {
        assert(items.take(k) =~= items);
    } else {
        let t = items.take(k + 1);
        assert(t.drop_last() =~= items.take(k));
        lemma_failure_stays(items, open, k + 1);
    }
}

/// The destination is closed only once the extractor is closed and the
/// buffer is empty, and a closed pipeline stays closed.
pub proof fn lemma_close_order(stage: CloseStage, buffer_empty: bool)
    ensures
        close_step(stage, buffer_empty).1 == CloseAction::CloseDestination ==> stage
            == CloseStage::Draining && buffer_empty,
        close_step(stage, buffer_empty).1 == CloseAction::CloseExtractor <==> stage
            == CloseStage::Running,
        stage == CloseStage::Closed ==> close_step(stage, buffer_empty) == (
            CloseStage::Closed,
            CloseAction::Nothing,
        ),
        close_step(stage, buffer_empty).0 == CloseStage::Running ==> false,
{
}

/// Committing batch after batch never moves the committed position
/// back, as long as the records come in capture order and the first is
/// no earlier than what was committed before.
pub proof fn lemma_commit_never_goes_back(committed: Position, items: Seq<DtItem>)
    requires
        items.len() > 0,
        in_capture_order(items),
        items[0].position.not_earlier_than(committed),
    ensures
        items.last().position.not_earlier_than(committed),
{
    assert(items[items.len() - 1].position.not_earlier_than(items[0].position));
}

} // verus!
