//! Handing change records to the buffer between extractor and sinker.
//!
//! The extractor offers its records in the order in which the source
//! emitted them. A record that the buffer does not take comes back to
//! the extractor, which waits and offers it again: no record is dropped
//! for want of room.

use vstd::prelude::*;
use concurrent_queue::ConcurrentQueue;
use crate::meta::dt_data::DtItem;
use crate::util::queue::{push_all, push_one, Offered, Refused};

verus! {

pub struct BaseExtractor {}

impl BaseExtractor {
    /// Offers one record to the buffer. A record that the buffer does
    /// not take comes back as it was.
    pub fn push_dt_data(buffer: &ConcurrentQueue<DtItem>, item: DtItem) -> (r: Result<
        (),
        Refused<DtItem>,
    >)
        ensures
            r matches Err(refused) ==> refused.item == item,
    {
        push_one(buffer, item)
    }

    /// Offers the records to the buffer in order, up to the first that
    /// the buffer refuses. The records from that one on come back, in
    /// order.
    pub fn push_dt_datas(buffer: &ConcurrentQueue<DtItem>, items: Vec<DtItem>) -> (r: Offered<
        DtItem,
    >)
        ensures
            r.left@.len() <= items@.len(),
            r.left@ == items@.skip(items@.len() - r.left@.len()),
            r.closed ==> r.left@.len() > 0,
    {
        push_all(buffer, items)
    }
}

} // verus!
