//! The values of the wire protocol.

use vstd::prelude::*;

verus! {

/// A value read from the wire.
#[derive(Debug)]
pub enum Value {
    /// No value: a byte string or an array of length -1.
    Nil,
    /// An integer.
    Int(i64),
    /// A byte string.
    Data(Vec<u8>),
    /// An array of values.
    Bulk(Vec<Value>),
    /// A status line.
    Status(Vec<u8>),
    /// The status line `OK`.
    Okay,
    /// An error line.
    ServerError(Vec<u8>),
}

/// A value of the wire protocol, as the contracts speak of it.
pub enum ValueView {
    Nil,
    Int(i64),
    Data(Seq<u8>),
    Bulk(Seq<ValueView>),
    Status(Seq<u8>),
    Okay,
    ServerError(Seq<u8>),
}

/// The values of `items`, as the contracts speak of them.
pub open spec fn value_views(items: Seq<Value>) -> Seq<ValueView> {
    Seq::new(items.len(), |i: int| items[i]@)
}

/// The value `v`, as the contracts speak of it.
pub open spec fn view_of(v: Value) -> ValueView
    decreases v,
{
    match v {
        Value::Nil => ValueView::Nil,
        Value::Int(i) => ValueView::Int(i),
        Value::Data(d) => ValueView::Data(d@),
        Value::Bulk(items) => ValueView::Bulk(
            Seq::new(
                items@.len(),
                |i: int|
                    if 0 <= i < items@.len() {
                        view_of(items@[i])
                    } else {
                        ValueView::Nil
                    },
            ),
        ),
        Value::Status(s) => ValueView::Status(s@),
        Value::Okay => ValueView::Okay,
        Value::ServerError(s) => ValueView::ServerError(s@),
    }
}

impl View for Value {
    type V = ValueView;

    open spec fn view(&self) -> ValueView {
        view_of(*self)
    }
}

/// The view of an array is the array of the views of its values.
pub proof fn lemma_bulk_view(items: Vec<Value>)
    ensures
        Value::Bulk(items)@ == ValueView::Bulk(value_views(items@)),
{
    let v = Value::Bulk(items);
    assert(v.view() is Bulk);
    let a = v.view()->Bulk_0;
    assert(a.len() == items@.len());
    assert forall|i: int| 0 <= i < a.len() implies a[i] == value_views(items@)[i] by {}
    assert(a =~= value_views(items@));
}

} // verus!
