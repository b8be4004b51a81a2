//! A captured change of one row.

use vstd::prelude::*;
use crate::meta::col_value::ColMap;
use crate::meta::row_type::RowType;

verus! {

/// A change of one row: where it happened, what kind it is, and the row
/// image before and after it.
#[derive(Debug, Clone)]
pub struct RowData {
    pub schema: String,
    pub tb: String,
    pub row_type: RowType,
    pub before: Option<ColMap>,
    pub after: Option<ColMap>,
    /// An estimate of the size of the change in bytes, for batching and
    /// monitoring.
    pub data_size: usize,
}

impl RowData {
    /// Whether the row images fit the kind of change: an insert has the
    /// image after it only, a delete the image before it only, an update
    /// has both.
    pub open spec fn images_fit(&self) -> bool {
        match self.row_type {
            RowType::Insert => self.before is None && self.after is Some,
            RowType::Delete => self.before is Some && self.after is None,
            RowType::Update => self.before is Some && self.after is Some,
        }
    }

    /// Whether the change is valid: its images fit its kind, and in each
    /// image a column name occurs once.
    pub open spec fn wf(&self) -> bool {
        &&& self.images_fit()
        &&& self.before matches Some(b) ==> b.wf()
        &&& self.after matches Some(a) ==> a.wf()
    }

    /// The change undone: what was inserted is deleted, what was deleted
    /// is inserted, and an update goes back from the new image to the old.
    pub open spec fn spec_reverse(self) -> RowData {
        RowData {
            schema: self.schema,
            tb: self.tb,
            row_type: match self.row_type {
                RowType::Insert => RowType::Delete,
                RowType::Delete => RowType::Insert,
                RowType::Update => RowType::Update,
            },
            before: self.after,
            after: self.before,
            data_size: self.data_size,
        }
    }

    /// An insert of the row `after`.
    pub fn new_insert(schema: String, tb: String, after: ColMap, data_size: usize) -> (r: RowData)
        ensures
            r == (RowData {
                schema,
                tb,
                row_type: RowType::Insert,
                before: None,
                after: Some(after),
                data_size,
            }),
            r.images_fit(),
            after.wf() ==> r.wf(),
    {
        RowData { schema, tb, row_type: RowType::Insert, before: None, after: Some(after), data_size }
    }

    /// An update of the row `before` to the row `after`.
    pub fn new_update(
        schema: String,
        tb: String,
        before: ColMap,
        after: ColMap,
        data_size: usize,
    ) -> (r: RowData)
        ensures
            r == (RowData {
                schema,
                tb,
                row_type: RowType::Update,
                before: Some(before),
                after: Some(after),
                data_size,
            }),
            r.images_fit(),
            before.wf() && after.wf() ==> r.wf(),
    {
        RowData {
            schema,
            tb,
            row_type: RowType::Update,
            before: Some(before),
            after: Some(after),
            data_size,
        }
    }

    /// A delete of the row `before`.
    pub fn new_delete(schema: String, tb: String, before: ColMap, data_size: usize) -> (r: RowData)
        ensures
            r == (RowData {
                schema,
                tb,
                row_type: RowType::Delete,
                before: Some(before),
                after: None,
                data_size,
            }),
            r.images_fit(),
            before.wf() ==> r.wf(),
    {
        RowData { schema, tb, row_type: RowType::Delete, before: Some(before), after: None, data_size }
    }

    /// Whether the row images fit the kind of change.
    pub fn has_fitting_images(&self) -> (r: bool)
        ensures
            r == self.images_fit(),
    {
        match self.row_type {
            RowType::Insert => self.before.is_none() && self.after.is_some(),
            RowType::Delete => self.before.is_some() && self.after.is_none(),
            RowType::Update => self.before.is_some() && self.after.is_some(),
        }
    }

    /// The change undone.
    pub fn reverse(self) -> (r: RowData)
        ensures
            r == self.spec_reverse(),
    {
        let row_type = match self.row_type {
            RowType::Insert => RowType::Delete,
            RowType::Delete => RowType::Insert,
            RowType::Update => RowType::Update,
        };
        RowData {
            schema: self.schema,
            tb: self.tb,
            row_type,
            before: self.after,
            after: self.before,
            data_size: self.data_size,
        }
    }
}

/// Undoing a change keeps it valid, and undoing it twice gives it back.
pub proof fn lemma_reverse_involution(row: RowData)
    ensures
        row.spec_reverse().spec_reverse() == row,
        row.wf() ==> row.spec_reverse().wf(),
        row.images_fit() ==> row.spec_reverse().images_fit(),
{
}

} // verus!
