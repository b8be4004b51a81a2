//! How far replication has progressed: the cursor that every change
//! record carries.

use vstd::prelude::*;
use crate::util::bytes::copy_bytes;
use crate::util::decimal::{fixed_digits, u64_to_fixed_decimal};

verus! {

/// The number of digits of a heartbeat timestamp: enough for every `u64`.
pub const TIMESTAMP_WIDTH: usize = 20;

/// A progress cursor, tagged by the kind of backend that it belongs to.
#[derive(Debug, Clone)]
pub enum Position {
    /// Nothing has been captured yet.
    Unset,
    /// A place in the replication stream of a Redis master.
    Redis {
        /// The run identifier that the master gave in the handshake.
        run_id: Vec<u8>,
        /// The bytes of the stream consumed so far.
        repl_offset: u64,
        /// The database that the change belongs to.
        now_db_id: i64,
        /// The latest heartbeat timestamp seen in the stream; empty
        /// before the first.
        timestamp: Vec<u8>,
    },
}

/// A position, as the contracts speak of it.
pub enum PositionView {
    Unset,
    Redis { run_id: Seq<u8>, repl_offset: u64, now_db_id: i64, timestamp: Seq<u8> },
}

impl View for Position {
    type V = PositionView;

    open spec fn view(&self) -> PositionView {
        match self {
            Position::Unset => PositionView::Unset,
            Position::Redis { run_id, repl_offset, now_db_id, timestamp } => PositionView::Redis {
                run_id: run_id@,
                repl_offset: *repl_offset,
                now_db_id: *now_db_id,
                timestamp: timestamp@,
            },
        }
    }
}

impl Position {
    /// A copy of the position.
    pub fn duplicate(&self) -> (p: Position)
        ensures
            p@ == self@,
            p.progress() == self.progress(),
    {
        match self {
            Position::Unset => Position::Unset,
            Position::Redis { run_id, repl_offset, now_db_id, timestamp } => Position::Redis {
                run_id: copy_bytes(run_id.as_slice()),
                repl_offset: *repl_offset,
                now_db_id: *now_db_id,
                timestamp: copy_bytes(timestamp.as_slice()),
            },
        }
    }

    /// The place of a position in capture order: `Unset` comes before
    /// every captured change, stream positions go by their offset.
    pub open spec fn progress(self) -> int {
        match self {
            Position::Unset => -1,
            Position::Redis { repl_offset, .. } => repl_offset as int,
        }
    }

    /// Whether `self` was captured no earlier than `other`.
    pub open spec fn not_earlier_than(self, other: Position) -> bool {
        self.progress() >= other.progress()
    }

    /// The stream offset of a Redis position.
    pub open spec fn spec_repl_offset(self) -> Option<u64> {
        match self {
            Position::Unset => None,
            Position::Redis { repl_offset, .. } => Some(repl_offset),
        }
    }

    /// Whether `self` was captured no earlier than `other`.
    pub fn is_not_earlier_than(&self, other: &Position) -> (r: bool)
        ensures
            r == self.not_earlier_than(*other),
    {
        match self {
            Position::Unset => match other {
                Position::Unset => true,
                Position::Redis { .. } => false,
            },
            Position::Redis { repl_offset, .. } => match other {
                Position::Unset => true,
                Position::Redis { repl_offset: other_offset, .. } => *repl_offset
                    >= *other_offset,
            },
        }
    }

    /// The stream offset of a Redis position, `None` for any other.
    pub fn repl_offset(&self) -> (r: Option<u64>)
        ensures
            r == self.spec_repl_offset(),
    {
        match self {
            Position::Unset => None,
            Position::Redis { repl_offset, .. } => Some(*repl_offset),
        }
    }

    /// A timestamp in milliseconds since the epoch as the text that a
    /// heartbeat writes: twenty decimal digits, zeros in front.
    pub fn format_timestamp_millis(millis: u64) -> (text: Vec<u8>)
        ensures
            text@ == fixed_digits(millis as nat, TIMESTAMP_WIDTH as nat),
    {
        u64_to_fixed_decimal(millis, TIMESTAMP_WIDTH)
    }
}

/// Capture order is a total preorder: any two positions compare, each
/// compares to itself, and the comparison chains.
pub proof fn lemma_position_order(a: Position, b: Position, c: Position)
    ensures
        a.not_earlier_than(a),
        a.not_earlier_than(b) || b.not_earlier_than(a),
        a.not_earlier_than(b) && b.not_earlier_than(c) ==> a.not_earlier_than(c),
{
}

} // verus!
