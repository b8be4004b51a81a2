//! The value of one column, and the columns of one row image.

use vstd::prelude::*;
use crate::util::bytes::{bytes_eq, copy_bytes, str_bytes, text_bytes};
use crate::util::decimal::{digits_of, i64_to_decimal, signed_digits_of, u64_to_decimal};

verus! {

/// A document of a document store, held by what the pipeline reads of it:
/// the identity that it is found by and its serialized form.
#[derive(Debug, Clone)]
pub struct MongoDoc {
    /// The serialized value of the document's identity field.
    pub id: Vec<u8>,
    /// The serialized document.
    pub raw: Vec<u8>,
}

/// A column value: the primitive SQL types, and a document for document
/// stores.
#[derive(Debug, Clone)]
pub enum ColValue {
    Null,
    Bool(bool),
    Tiny(i8),
    UnsignedTiny(u8),
    Short(i16),
    UnsignedShort(u16),
    Long(i32),
    UnsignedLong(u32),
    LongLong(i64),
    UnsignedLongLong(u64),
    Decimal(String),
    DateTime(String),
    String(String),
    Blob(Vec<u8>),
    MongoDoc(MongoDoc),
}

/// The text `true`.
pub open spec fn true_text() -> Seq<u8> {
    seq![116u8, 114u8, 117u8, 101u8]
}

/// The text `false`.
pub open spec fn false_text() -> Seq<u8> {
    seq![102u8, 97u8, 108u8, 115u8, 101u8]
}

impl ColValue {
    /// The value as text: nothing for a null, `true` or `false` for a
    /// boolean, decimal digits for a number, the bytes themselves for
    /// text, binary data and documents.
    pub open spec fn spec_text(self) -> Option<Seq<u8>> {
        match self {
            ColValue::Null => None,
            ColValue::Bool(b) => Some(
                if b {
                    true_text()
                } else {
                    false_text()
                },
            ),
            ColValue::Tiny(v) => Some(signed_digits_of(v as int)),
            ColValue::UnsignedTiny(v) => Some(digits_of(v as nat)),
            ColValue::Short(v) => Some(signed_digits_of(v as int)),
            ColValue::UnsignedShort(v) => Some(digits_of(v as nat)),
            ColValue::Long(v) => Some(signed_digits_of(v as int)),
            ColValue::UnsignedLong(v) => Some(digits_of(v as nat)),
            ColValue::LongLong(v) => Some(signed_digits_of(v as int)),
            ColValue::UnsignedLongLong(v) => Some(digits_of(v as nat)),
            ColValue::Decimal(s) => Some(text_bytes(s@)),
            ColValue::DateTime(s) => Some(text_bytes(s@)),
            ColValue::String(s) => Some(text_bytes(s@)),
            ColValue::Blob(b) => Some(b@),
            ColValue::MongoDoc(d) => Some(d.raw@),
        }
    }

    /// Whether two values are of one variant and hold the same thing.
    pub open spec fn same_value(self, other: ColValue) -> bool {
        match (self, other) {
            (ColValue::Null, ColValue::Null) => true,
            (ColValue::Bool(a), ColValue::Bool(b)) => a == b,
            (ColValue::Tiny(a), ColValue::Tiny(b)) => a == b,
            (ColValue::UnsignedTiny(a), ColValue::UnsignedTiny(b)) => a == b,
            (ColValue::Short(a), ColValue::Short(b)) => a == b,
            (ColValue::UnsignedShort(a), ColValue::UnsignedShort(b)) => a == b,
            (ColValue::Long(a), ColValue::Long(b)) => a == b,
            (ColValue::UnsignedLong(a), ColValue::UnsignedLong(b)) => a == b,
            (ColValue::LongLong(a), ColValue::LongLong(b)) => a == b,
            (ColValue::UnsignedLongLong(a), ColValue::UnsignedLongLong(b)) => a == b,
            (ColValue::Decimal(a), ColValue::Decimal(b)) => a@ == b@,
            (ColValue::DateTime(a), ColValue::DateTime(b)) => a@ == b@,
            (ColValue::String(a), ColValue::String(b)) => a@ == b@,
            (ColValue::Blob(a), ColValue::Blob(b)) => a@ == b@,
            (ColValue::MongoDoc(a), ColValue::MongoDoc(b)) => a.id@ == b.id@ && a.raw@ == b.raw@,
            _ => false,
        }
    }

    /// The value as text, `None` for a null.
    pub fn to_option_bytes(&self) -> (text: Option<Vec<u8>>)
        ensures
            match text {
                Some(t) => self.spec_text() == Some(t@),
                None => self.spec_text() is None,
            },
    {
        match self {
            ColValue::Null => None,
            ColValue::Bool(b) => {
                if *b {
                    Some(vec![116u8, 114u8, 117u8, 101u8])
                } else {
                    Some(vec![102u8, 97u8, 108u8, 115u8, 101u8])
                }
            },
            ColValue::Tiny(v) => Some(i64_to_decimal(*v as i64)),
            ColValue::UnsignedTiny(v) => Some(u64_to_decimal(*v as u64)),
            ColValue::Short(v) => Some(i64_to_decimal(*v as i64)),
            ColValue::UnsignedShort(v) => Some(u64_to_decimal(*v as u64)),
            ColValue::Long(v) => Some(i64_to_decimal(*v as i64)),
            ColValue::UnsignedLong(v) => Some(u64_to_decimal(*v as u64)),
            ColValue::LongLong(v) => Some(i64_to_decimal(*v)),
            ColValue::UnsignedLongLong(v) => Some(u64_to_decimal(*v)),
            ColValue::Decimal(s) => Some(str_bytes(s.as_str())),
            ColValue::DateTime(s) => Some(str_bytes(s.as_str())),
            ColValue::String(s) => Some(str_bytes(s.as_str())),
            ColValue::Blob(b) => Some(copy_bytes(b.as_slice())),
            ColValue::MongoDoc(d) => Some(copy_bytes(d.raw.as_slice())),
        }
    }

    /// Whether two values are of one variant and hold the same thing.
    pub fn equals(&self, other: &ColValue) -> (r: bool)
        ensures
            r == self.same_value(*other),
    {
        match (self, other) {
            (ColValue::Null, ColValue::Null) => true,
            (ColValue::Bool(a), ColValue::Bool(b)) => *a == *b,
            (ColValue::Tiny(a), ColValue::Tiny(b)) => *a == *b,
            (ColValue::UnsignedTiny(a), ColValue::UnsignedTiny(b)) => *a == *b,
            (ColValue::Short(a), ColValue::Short(b)) => *a == *b,
            (ColValue::UnsignedShort(a), ColValue::UnsignedShort(b)) => *a == *b,
            (ColValue::Long(a), ColValue::Long(b)) => *a == *b,
            (ColValue::UnsignedLong(a), ColValue::UnsignedLong(b)) => *a == *b,
            (ColValue::LongLong(a), ColValue::LongLong(b)) => *a == *b,
            (ColValue::UnsignedLongLong(a), ColValue::UnsignedLongLong(b)) => *a == *b,
            (ColValue::Decimal(a), ColValue::Decimal(b)) => *a == *b,
            (ColValue::DateTime(a), ColValue::DateTime(b)) => *a == *b,
            (ColValue::String(a), ColValue::String(b)) => *a == *b,
            (ColValue::Blob(a), ColValue::Blob(b)) => bytes_eq(a.as_slice(), b.as_slice()),
            (ColValue::MongoDoc(a), ColValue::MongoDoc(b)) => bytes_eq(
                a.id.as_slice(),
                b.id.as_slice(),
            ) && bytes_eq(a.raw.as_slice(), b.raw.as_slice()),
            _ => false,
        }
    }
}

/// A column of a row image: its name and its value.
#[derive(Debug, Clone)]
pub struct ColEntry {
    pub name: String,
    pub value: ColValue,
}

/// The columns of one row image, in the order of the table. A column
/// name occurs once.
#[derive(Debug, Clone)]
pub struct ColMap {
    pub entries: Vec<ColEntry>,
}

/// Whether `i` is the place of the first column of `entries` called
/// `name`.
pub open spec fn is_first_match(entries: Seq<ColEntry>, name: Seq<char>, i: int) -> bool {
    &&& 0 <= i < entries.len()
    &&& entries[i].name@ == name
    &&& forall|j: int| 0 <= j < i ==> (#[trigger] entries[j]).name@ != name
}

/// The place of the first column of `entries` called `name`.
pub open spec fn first_match(entries: Seq<ColEntry>, name: Seq<char>) -> Option<int> {
    if exists|i: int| is_first_match(entries, name, i) {
        Some(choose|i: int| is_first_match(entries, name, i))
    } else {
        None
    }
}

/// Whether no two columns of `entries` have one name.
pub open spec fn distinct_names(entries: Seq<ColEntry>) -> bool {
    forall|i: int, j: int|
        0 <= i < j < entries.len() ==> (#[trigger] entries[i]).name@ != (#[trigger] entries[j]).name@
}

impl ColMap {
    /// Whether every column name occurs once.
    pub open spec fn wf(&self) -> bool {
        distinct_names(self.entries@)
    }

    /// The value of the column called `name`.
    pub open spec fn spec_get(&self, name: Seq<char>) -> Option<ColValue> {
        match first_match(self.entries@, name) {
            Some(i) => Some(self.entries@[i].value),
            None => None,
        }
    }

    /// Whether a column is called `name`.
    pub open spec fn spec_contains(&self, name: Seq<char>) -> bool {
        exists|i: int| 0 <= i < self.entries@.len() && (#[trigger] self.entries@[i]).name@ == name
    }

    /// No columns.
    pub fn new() -> (m: ColMap)
        ensures
            m.entries@.len() == 0,
            m.wf(),
    {
        ColMap { entries: Vec::new() }
    }

    /// The number of columns.
    pub fn len(&self) -> (n: usize)
        ensures
            n == self.entries@.len(),
    {
        self.entries.len()
    }

    /// The place of the column called `name`.
    pub fn position(&self, name: &str) -> (r: Option<usize>)
        ensures
            match r {
                Some(i) => first_match(self.entries@, name@) == Some(i as int),
                None => first_match(self.entries@, name@) is None,
            },
            r is Some <==> self.spec_contains(name@),
    {
        let mut i: usize = 0;
        while i < self.entries.len()
            invariant
                i <= self.entries@.len(),
                forall|j: int| 0 <= j < i ==> (#[trigger] self.entries@[j]).name@ != name@,
            decreases self.entries@.len() - i,
        {
            if str_same(self.entries[i].name.as_str(), name) {
                proof {
                    lemma_first_match_is(self.entries@, name@, i as int);
                }
                return Some(i);
            }
            i = i + 1;
        }
        proof {
            assert forall|k: int| !is_first_match(self.entries@, name@, k) by {}
        }
        None
    }

    /// The value of the column called `name`.
    pub fn get(&self, name: &str) -> (r: Option<&ColValue>)
        ensures
            match r {
                Some(v) => self.spec_get(name@) == Some(*v),
                None => self.spec_get(name@) is None,
            },
            r is Some <==> self.spec_contains(name@),
    {
        match self.position(name) {
            Some(i) => Some(&self.entries[i].value),
            None => None,
        }
    }

    /// Sets the column called `name` to `value`: in place where the row
    /// image has such a column, as a new last column where it has none.
    pub fn insert(&mut self, name: String, value: ColValue)
        ensures
            match first_match(old(self).entries@, name@) {
                Some(i) => final(self).entries@ == old(self).entries@.update(
                    i,
                    ColEntry { name, value },
                ),
                None => final(self).entries@ == old(self).entries@.push(ColEntry { name, value }),
            },
            final(self).spec_get(name@) == Some(value),
            old(self).wf() ==> final(self).wf(),
    {
        let ghost before = self.entries@;
        let found = self.position(name.as_str());
        let ghost entry = ColEntry { name, value };
        match found {
            Some(i) => {
                self.entries[i] = ColEntry { name, value };
                proof {
                    let after = self.entries@;
                    assert(after =~= before.update(i as int, entry));
                    assert(is_first_match(after, name@, i as int)) by {
                        assert forall|j: int| 0 <= j < i implies (#[trigger] after[j]).name@
                            != name@ by {
                            assert(after[j] == before[j]);
                        }
                    }
                    lemma_first_match_is(after, name@, i as int);
                }
            },
            None => {
                self.entries.push(ColEntry { name, value });
                proof {
                    let after = self.entries@;
                    let last = before.len() as int;
                    assert(after =~= before.push(entry));
                    assert(is_first_match(after, name@, last)) by {
                        assert forall|j: int| 0 <= j < last implies (#[trigger] after[j]).name@
                            != name@ by {
                            assert(after[j] == before[j]);
                            if before[j].name@ == name@ {
                                lemma_some_match_has_first(before, name@, j);
                            }
                        }
                    }
                    lemma_first_match_is(after, name@, last);
                    if old(self).wf() {
                        assert forall|a: int, b: int| 0 <= a < b < after.len() implies (
                        #[trigger] after[a]).name@ != (#[trigger] after[b]).name@ by {
                            if b < last {
                                assert(after[a] == before[a] && after[b] == before[b]);
                            } else {
                                assert(after[a] == before[a]);
                                if before[a].name@ == name@ {
                                    lemma_some_match_has_first(before, name@, a);
                                }
                            }
                        }
                    }
                }
            },
        }
    }

    /// Takes the column called `name` out of the row image.
    pub fn remove(&mut self, name: &str) -> (r: Option<ColValue>)
        ensures
            match first_match(old(self).entries@, name@) {
                Some(i) => r == Some(old(self).entries@[i].value) && final(self).entries@ == old(
                    self,
                ).entries@.remove(i),
                None => r is None && final(self).entries@ == old(self).entries@,
            },
            old(self).wf() ==> final(self).wf() && !final(self).spec_contains(name@),
    {
        let ghost before = self.entries@;
        match self.position(name) {
            Some(i) => {
                let entry = self.entries.remove(i);
                proof {
                    let after = self.entries@;
                    assert(after =~= before.remove(i as int));
                    if old(self).wf() {
                        assert forall|a: int, b: int| 0 <= a < b < after.len() implies (
                        #[trigger] after[a]).name@ != (#[trigger] after[b]).name@ by {
                            let a0 = if a < i { a } else { a + 1 };
                            let b0 = if b < i { b } else { b + 1 };
                            assert(after[a] == before[a0] && after[b] == before[b0]);
                        }
                        assert forall|k: int| 0 <= k < after.len() implies (#[trigger] after[k]).name@
                            != name@ by {
                            let k0 = if k < i { k } else { k + 1 };
                            assert(after[k] == before[k0]);
                            assert(before[i as int].name@ == name@);
                        }
                    }
                }
                Some(entry.value)
            },
            None => {
                proof {
                    if old(self).wf() {
                        assert forall|k: int| 0 <= k < before.len() implies (
                        #[trigger] before[k]).name@ != name@ by {
                            if before[k].name@ == name@ {
                                lemma_some_match_has_first(before, name@, k);
                            }
                        }
                    }
                }
                None
            },
        }
    }
}

/// Whether two texts are the same.
pub fn str_same(a: &str, b: &str) -> (r: bool)
    ensures
        r == (a@ == b@),
{
    let x = String::from_str(a);
    let y = String::from_str(b);
    x == y
}

/// A place that `is_first_match` holds of is the place that `first_match`
/// gives.
pub proof fn lemma_first_match_is(entries: Seq<ColEntry>, name: Seq<char>, i: int)
    requires
        is_first_match(entries, name, i),
    ensures
        first_match(entries, name) == Some(i),
{
    let k = choose|k: int| is_first_match(entries, name, k);
    assert(is_first_match(entries, name, k));
    if k < i {
        assert(entries[k].name@ != name);
    } else if i < k {
        assert(entries[i].name@ != name);
    }
}

/// Where some column is called `name`, a first such column exists.
pub proof fn lemma_some_match_has_first(entries: Seq<ColEntry>, name: Seq<char>, i: int)
    requires
        0 <= i < entries.len(),
        entries[i].name@ == name,
    ensures
        first_match(entries, name) is Some,
        first_match(entries, name)->0 <= i,
    decreases i,
{
    if forall|j: int| 0 <= j < i ==> (#[trigger] entries[j]).name@ != name {
        assert(is_first_match(entries, name, i));
        lemma_first_match_is(entries, name, i);
    } else {
        let j = choose|j: int| 0 <= j < i && (#[trigger] entries[j]).name@ == name;
        lemma_some_match_has_first(entries, name, j);
    }
}

} // verus!
