//! What a MongoDB destination is asked to do for a batch of row changes.
//!
//! A row change of a document store carries the document in the column
//! `doc` of its row images; an update read from the operation log
//! carries the changes in the column `diff_doc` instead.

use vstd::prelude::*;
use crate::meta::col_value::{ColMap, ColValue, MongoDoc};
use crate::meta::mongo::mongo_constant::MongoConstants;
use crate::meta::row_data::RowData;
use crate::meta::row_type::RowType;
use crate::rdb_router::RdbRouter;
use crate::sinker::base_sinker::{chunk_len, BatchSinker, SinkAction};
use crate::util::bytes::copy_bytes;

verus! {

/// The state of a sinker that writes to MongoDB. The client is its
/// caller's.
#[derive(Debug, Clone)]
pub struct MongoSinker {
    pub router: RdbRouter,
    pub batch_size: usize,
}

/// What one row change asks of the collection of its table.
#[derive(Debug, Clone)]
pub enum MongoWrite {
    /// Update the document with the identity `id`, or insert it where
    /// there is none. Where `as_set` holds, `update` is the document and
    /// each of its fields is set; else `update` says what to change.
    Upsert { id: Vec<u8>, update: Vec<u8>, as_set: bool },
    /// Delete the document with the identity `id`.
    DeleteOne { id: Vec<u8> },
    /// Nothing: the row change carries no document.
    Skip,
}

/// A write, by what the contracts need of it.
pub enum WriteView {
    Upsert { id: Seq<u8>, update: Seq<u8>, as_set: bool },
    DeleteOne { id: Seq<u8> },
    Skip,
}

impl View for MongoWrite {
    type V = WriteView;

    open spec fn view(&self) -> WriteView {
        match self {
            MongoWrite::Upsert { id, update, as_set } => WriteView::Upsert {
                id: id@,
                update: update@,
                as_set: *as_set,
            },
            MongoWrite::DeleteOne { id } => WriteView::DeleteOne { id: id@ },
            MongoWrite::Skip => WriteView::Skip,
        }
    }
}

/// The document in the column `name` of a row image.
pub open spec fn doc_of(image: Option<ColMap>, name: Seq<char>) -> Option<MongoDoc> {
    match image {
        Some(m) => match m.spec_get(name) {
            Some(ColValue::MongoDoc(d)) => Some(d),
            _ => None,
        },
        None => None,
    }
}

/// What the row change `row` asks of its collection.
///
/// An insert upserts the document after the change, found by its own
/// identity. A delete deletes the document before the change. An update
/// upserts the document found by the identity of the document before
/// the change, with the document after the change or, where there is
/// none, with the changes of the operation log. A row change that lacks
/// a document that it needs asks nothing.
pub open spec fn serial_write(row: RowData) -> WriteView {
    match row.row_type {
        RowType::Insert => match doc_of(row.after, MongoConstants::DOC@) {
            Some(d) => WriteView::Upsert { id: d.id@, update: d.raw@, as_set: true },
            None => WriteView::Skip,
        },
        RowType::Delete => match doc_of(row.before, MongoConstants::DOC@) {
            Some(d) => WriteView::DeleteOne { id: d.id@ },
            None => WriteView::Skip,
        },
        RowType::Update => match doc_of(row.before, MongoConstants::DOC@) {
            Some(q) => match doc_of(row.after, MongoConstants::DOC@) {
                Some(u) => WriteView::Upsert { id: q.id@, update: u.raw@, as_set: false },
                None => match doc_of(row.after, MongoConstants::DIFF_DOC@) {
                    Some(u) => WriteView::Upsert { id: q.id@, update: u.raw@, as_set: false },
                    None => WriteView::Skip,
                },
            },
            None => WriteView::Skip,
        },
    }
}

/// The identities of the documents that the rows of `rows` delete, in
/// order; a row without a document before the change gives none.
pub open spec fn delete_ids(rows: Seq<RowData>) -> Seq<Seq<u8>>
    decreases rows.len(),
{
    if rows.len() == 0 {
        Seq::empty()
    } else {
        match doc_of(rows.last().before, MongoConstants::DOC@) {
            Some(d) => delete_ids(rows.drop_last()).push(d.id@),
            None => delete_ids(rows.drop_last()),
        }
    }
}

/// The documents that the rows of `rows` insert, in order; a row
/// without a document after the change gives none.
pub open spec fn insert_docs(rows: Seq<RowData>) -> Seq<Seq<u8>>
    decreases rows.len(),
{
    if rows.len() == 0 {
        Seq::empty()
    } else {
        match doc_of(rows.last().after, MongoConstants::DOC@) {
            Some(d) => insert_docs(rows.drop_last()).push(d.raw@),
            None => insert_docs(rows.drop_last()),
        }
    }
}

/// The byte strings of `items`.
pub open spec fn bytes_views(items: Seq<Vec<u8>>) -> Seq<Seq<u8>> {
    Seq::new(items.len(), |i: int| items[i]@)
}

/// The document in the column `name` of a row image.
fn find_doc<'a>(image: &'a Option<ColMap>, name: &str) -> (r: Option<&'a MongoDoc>)
    ensures
        match r {
            Some(d) => doc_of(*image, name@) == Some(*d),
            None => doc_of(*image, name@) is None,
        },
{
    match image {
        Some(m) => match m.get(name) {
            Some(ColValue::MongoDoc(d)) => Some(d),
            _ => None,
        },
        None => None,
    }
}

impl MongoSinker {
    /// Starts the batch `data` and says what to do first: every record
    /// by itself where `batch` does not hold, in chunks of the sinker's
    /// batch size where it does.
    pub fn sink_dml(&self, data: &Vec<RowData>, batch: bool) -> (r: (BatchSinker, SinkAction))
        ensures
            r.0.serial == !batch,
            batch ==> r.0.batch_size == (if self.batch_size == 0 {
                1usize
            } else {
                self.batch_size
            }),
            r.0 == r.0.started(data@).decided(data@),
            r.1 == r.0.started(data@).decision(data@),
            r.0.inv(data@),
            data@.len() == 0 ==> r.1 == SinkAction::Finished,
    {
        let mut machine = if batch {
            BatchSinker::batched(self.batch_size)
        } else {
            BatchSinker::serial()
        };
        let first = machine.begin(data);
        (machine, first)
    }

    /// What the row change `row_data` asks of its collection.
    pub fn serial_sink(row_data: &RowData) -> (w: MongoWrite)
        ensures
            w@ == serial_write(*row_data),
    {
        match row_data.row_type {
            RowType::Insert => match find_doc(&row_data.after, MongoConstants::DOC) {
                Some(d) => MongoWrite::Upsert {
                    id: copy_bytes(d.id.as_slice()),
                    update: copy_bytes(d.raw.as_slice()),
                    as_set: true,
                },
                None => MongoWrite::Skip,
            },
            RowType::Delete => match find_doc(&row_data.before, MongoConstants::DOC) {
                Some(d) => MongoWrite::DeleteOne { id: copy_bytes(d.id.as_slice()) },
                None => MongoWrite::Skip,
            },
            RowType::Update => {
                let query = match find_doc(&row_data.before, MongoConstants::DOC) {
                    Some(q) => q,
                    None => {
                        return MongoWrite::Skip;
                    },
                };
                let update = match find_doc(&row_data.after, MongoConstants::DOC) {
                    Some(u) => u,
                    None => match find_doc(&row_data.after, MongoConstants::DIFF_DOC) {
                        Some(u) => u,
                        None => {
                            return MongoWrite::Skip;
                        },
                    },
                };
                MongoWrite::Upsert {
                    id: copy_bytes(query.id.as_slice()),
                    update: copy_bytes(update.raw.as_slice()),
                    as_set: false,
                }
            },
        }
    }

    /// The identities of the documents that the rows `start_index ..
    /// start_index + batch_size` of `data` delete, as far as `data` has
    /// them.
    pub fn batch_delete(data: &Vec<RowData>, start_index: usize, batch_size: usize) -> (ids: Vec<
        Vec<u8>,
    >)
        ensures
            ({
                let from = if start_index <= data@.len() {
                    start_index as int
                } else {
                    data@.len() as int
                };
                let len = chunk_len(data@.len() as int, from, batch_size as int);
                bytes_views(ids@) == delete_ids(data@.subrange(from, from + len))
            }),
    {
        let n: usize = data.len();
        let from: usize = if start_index <= n {
            start_index
        } else {
            n
        };
        let len: usize = if n - from < batch_size {
            n - from
        } else {
            batch_size
        };
        let ghost chunk = data@.subrange(from as int, from + len);
        let mut ids: Vec<Vec<u8>> = Vec::new();
        let mut i: usize = 0;
        proof {
            assert(bytes_views(ids@) =~= delete_ids(chunk.take(0)));
        }
        while i < len
            invariant
                i <= len,
                from + len <= n,
                n == data@.len(),
                chunk == data@.subrange(from as int, from + len),
                bytes_views(ids@) == delete_ids(chunk.take(i as int)),
            decreases len - i,
        {
            proof {
                let t = chunk.take(i + 1);
                assert(t.drop_last() =~= chunk.take(i as int));
                assert(t.last() == data@[from + i]);
            }
            match find_doc(&data[from + i].before, MongoConstants::DOC) {
                Some(d) => {
                    let ghost before = ids@;
                    ids.push(copy_bytes(d.id.as_slice()));
                    proof {
                        assert(bytes_views(ids@) =~= bytes_views(before).push(d.id@));
                    }
                },
                None => {},
            }
            i = i + 1;
        }
        proof {
            assert(chunk.take(len as int) =~= chunk);
        }
        ids
    }

    /// The documents that the rows `start_index .. start_index +
    /// batch_size` of `data` insert, as far as `data` has them.
    pub fn batch_insert(data: &Vec<RowData>, start_index: usize, batch_size: usize) -> (docs: Vec<
        Vec<u8>,
    >)
        ensures
            ({
                let from = if start_index <= data@.len() {
                    start_index as int
                } else {
                    data@.len() as int
                };
                let len = chunk_len(data@.len() as int, from, batch_size as int);
                bytes_views(docs@) == insert_docs(data@.subrange(from, from + len))
            }),
    {
        let n: usize = data.len();
        let from: usize = if start_index <= n {
            start_index
        } else {
            n
        };
        let len: usize = if n - from < batch_size {
            n - from
        } else {
            batch_size
        };
        let ghost chunk = data@.subrange(from as int, from + len);
        let mut docs: Vec<Vec<u8>> = Vec::new();
        let mut i: usize = 0;
        proof {
            assert(bytes_views(docs@) =~= insert_docs(chunk.take(0)));
        }
        while i < len
            invariant
                i <= len,
                from + len <= n,
                n == data@.len(),
                chunk == data@.subrange(from as int, from + len),
                bytes_views(docs@) == insert_docs(chunk.take(i as int)),
            decreases len - i,
        {
            proof {
                let t = chunk.take(i + 1);
                assert(t.drop_last() =~= chunk.take(i as int));
                assert(t.last() == data@[from + i]);
            }
            match find_doc(&data[from + i].after, MongoConstants::DOC) {
                Some(d) => {
                    let ghost before = docs@;
                    docs.push(copy_bytes(d.raw.as_slice()));
                    proof {
                        assert(bytes_views(docs@) =~= bytes_views(before).push(d.raw@));
                    }
                },
                None => {},
            }
            i = i + 1;
        }
        proof {
            assert(chunk.take(len as int) =~= chunk);
        }
        docs
    }
}

} // verus!
