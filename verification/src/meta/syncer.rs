//! The two positions that the tasks of one pipeline run share.

use vstd::prelude::*;
use crate::meta::position::Position;

verus! {

/// The position that the extractor has reached and the position that the
/// sinker has durably applied. The two are independent; the tasks that
/// share a syncer keep it behind one lock.
#[derive(Debug, Clone)]
pub struct Syncer {
    pub received_position: Position,
    pub committed_position: Position,
}

impl Syncer {
    /// A syncer of a run that has captured and applied nothing.
    pub fn new() -> (s: Syncer)
        ensures
            s.received_position == Position::Unset,
            s.committed_position == Position::Unset,
    {
        Syncer { received_position: Position::Unset, committed_position: Position::Unset }
    }

    /// Replaces the position that the extractor has reached.
    pub fn advance(&mut self, position: Position)
        ensures
            final(self).received_position == position,
            final(self).committed_position == old(self).committed_position,
    {
        self.received_position = position;
    }

    /// Records that everything up to `position` is durably applied.
    pub fn commit(&mut self, position: Position)
        ensures
            final(self).committed_position == position,
            final(self).received_position == old(self).received_position,
    {
        self.committed_position = position;
    }

    /// The last position that the sinker confirmed.
    pub fn committed(&self) -> (p: &Position)
        ensures
            *p == self.committed_position,
    {
        &self.committed_position
    }

    /// The last position that the extractor reached.
    pub fn received(&self) -> (p: &Position)
        ensures
            *p == self.received_position,
    {
        &self.received_position
    }
}

} // verus!
