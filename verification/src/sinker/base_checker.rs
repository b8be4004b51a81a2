//! Comparing the rows of the source with the rows of the destination.
//!
//! The checker takes the same batches as a sinker and writes nothing. For
//! each source row it says whether the destination has the row, and
//! where it has, which columns differ.

use vstd::prelude::*;
use crate::meta::col_value::{ColEntry, ColMap};
use crate::meta::row_data::RowData;
use crate::sinker::base_sinker::chunk_len;
use crate::util::text::string_views;

verus! {

/// What the destination has of a source row.
#[derive(Debug, Clone)]
pub enum CheckResult {
    /// The row, with the same value in every column.
    Same,
    /// The row, with another value, or none, in the columns named.
    Diff(Vec<String>),
    /// No such row.
    Miss,
}

/// A check result, by what the contracts need of it.
pub enum CheckView {
    Same,
    Diff(Seq<Seq<char>>),
    Miss,
}

impl View for CheckResult {
    type V = CheckView;

    open spec fn view(&self) -> CheckView {
        match self {
            CheckResult::Same => CheckView::Same,
            CheckResult::Diff(cols) => CheckView::Diff(string_views(cols@)),
            CheckResult::Miss => CheckView::Miss,
        }
    }
}

/// Whether the column `entry` of a source row is the same in the
/// destination row image `dst`.
pub open spec fn col_matches(entry: ColEntry, dst: Option<ColMap>) -> bool {
    match dst {
        Some(d) => match d.spec_get(entry.name@) {
            Some(v) => entry.value.same_value(v),
            None => false,
        },
        None => false,
    }
}

/// The names of the columns of `src` that are not the same in `dst`, in
/// the order of `src`.
pub open spec fn diff_cols(src: Seq<ColEntry>, dst: Option<ColMap>) -> Seq<Seq<char>>
    decreases src.len(),
{
    if src.len() == 0 {
        Seq::empty()
    } else if col_matches(src.last(), dst) {
        diff_cols(src.drop_last(), dst)
    } else {
        diff_cols(src.drop_last(), dst).push(src.last().name@)
    }
}

/// The columns of the image after the change, none where there is no
/// such image.
pub open spec fn after_cols(row: RowData) -> Seq<ColEntry> {
    match row.after {
        Some(a) => a.entries@,
        None => Seq::empty(),
    }
}

/// The names of the columns in which the destination row `dst` differs
/// from the source row `src`.
pub open spec fn row_diff(src: RowData, dst: RowData) -> Seq<Seq<char>> {
    diff_cols(after_cols(src), dst.after)
}

/// What the destination has of `src`, where `dst` is the row that it
/// gave for it.
pub open spec fn check_of(src: RowData, dst: Option<RowData>) -> CheckView {
    match dst {
        None => CheckView::Miss,
        Some(d) => if row_diff(src, d).len() == 0 {
            CheckView::Same
        } else {
            CheckView::Diff(row_diff(src, d))
        },
    }
}

/// Whether two row images have the same value, or both none, in the
/// column `col`.
pub open spec fn same_in(a: ColMap, b: ColMap, col: Seq<char>) -> bool {
    match (a.spec_get(col), b.spec_get(col)) {
        (Some(x), Some(y)) => x.same_value(y),
        (None, None) => true,
        _ => false,
    }
}

/// Whether two rows are the same row: their images after the change
/// have the same value in every identity column.
pub open spec fn same_identity(a: RowData, b: RowData, id_cols: Seq<Seq<char>>) -> bool {
    match (a.after, b.after) {
        (Some(x), Some(y)) => forall|k: int|
            0 <= k < id_cols.len() ==> same_in(x, y, #[trigger] id_cols[k]),
        _ => false,
    }
}

/// Whether `j` is the place of the first row of `dst` that is the row
/// `src`.
pub open spec fn is_first_same(dst: Seq<RowData>, src: RowData, id_cols: Seq<Seq<char>>, j: int) -> bool {
    &&& 0 <= j < dst.len()
    &&& same_identity(src, dst[j], id_cols)
    &&& forall|k: int| 0 <= k < j ==> !same_identity(src, #[trigger] dst[k], id_cols)
}

/// The first row of `dst` that is the row `src`.
pub open spec fn find_same(dst: Seq<RowData>, src: RowData, id_cols: Seq<Seq<char>>) -> Option<
    RowData,
> {
    if exists|j: int| is_first_same(dst, src, id_cols, j) {
        Some(dst[choose|j: int| is_first_same(dst, src, id_cols, j)])
    } else {
        None
    }
}

/// The check results of `results`.
pub open spec fn check_views(results: Seq<CheckResult>) -> Seq<CheckView> {
    Seq::new(results.len(), |i: int| results[i]@)
}

/// What the destination rows `dst` have of each row of `rows`.
pub open spec fn checks_of(rows: Seq<RowData>, dst: Seq<RowData>, id_cols: Seq<Seq<char>>) -> Seq<
    CheckView,
> {
    Seq::new(rows.len(), |i: int| check_of(rows[i], find_same(dst, rows[i], id_cols)))
}

/// A place that is the first row of the same identity is the row that
/// `find_same` gives.
pub proof fn lemma_first_same_is(dst: Seq<RowData>, src: RowData, id_cols: Seq<Seq<char>>, j: int)
    requires
        is_first_same(dst, src, id_cols, j),
    ensures
        find_same(dst, src, id_cols) == Some(dst[j]),
{
    let k = choose|k: int| is_first_same(dst, src, id_cols, k);
    if k < j {
        assert(!same_identity(src, dst[k], id_cols));
    } else if j < k {
        assert(!same_identity(src, dst[j], id_cols));
    }
}

pub struct BaseChecker {}

impl BaseChecker {
    /// The names of the columns in which the destination row differs
    /// from the source row: the columns of the source row that the
    /// destination row lacks or has with another value.
    pub fn compare_row_data(src: &RowData, dst: &RowData) -> (diff: Vec<String>)
        ensures
            string_views(diff@) == row_diff(*src, *dst),
    {
        let mut diff: Vec<String> = Vec::new();
        let after = match &src.after {
            Some(a) => a,
            None => {
                proof {
                    assert(string_views(diff@) =~= row_diff(*src, *dst));
                }
                return diff;
            },
        };
        let mut i: usize = 0;
        proof {
            assert(string_views(diff@) =~= diff_cols(after.entries@.take(0), dst.after));
        }
        while i < after.entries.len()
            invariant
                i <= after.entries@.len(),
                string_views(diff@) == diff_cols(after.entries@.take(i as int), dst.after),
            decreases after.entries@.len() - i,
        {
            let entry = &after.entries[i];
            let same: bool = match &dst.after {
                Some(d) => match d.get(entry.name.as_str()) {
                    Some(v) => entry.value.equals(v),
                    None => false,
                },
                None => false,
            };
            proof {
                let t = after.entries@.take(i + 1);
                assert(t.drop_last() =~= after.entries@.take(i as int));
                assert(t.last() == *entry);
            }
            if !same {
                let ghost before = diff@;
                diff.push(entry.name.clone());
                proof {
                    assert(string_views(diff@) =~= string_views(before).push(entry.name@));
                }
            }
            i = i + 1;
        }
        proof {
            assert(after.entries@.take(i as int) =~= after.entries@);
        }
        diff
    }

    /// What the destination has of `src`, where `dst` is the row that it
    /// gave for it.
    pub fn check_row(src: &RowData, dst: Option<&RowData>) -> (r: CheckResult)
        ensures
            r@ == check_of(
                *src,
                match dst {
                    Some(d) => Some(*d),
                    None => None,
                },
            ),
    {
        match dst {
            None => CheckResult::Miss,
            Some(d) => {
                let diff = BaseChecker::compare_row_data(src, d);
                if diff.len() == 0 {
                    CheckResult::Same
                } else {
                    CheckResult::Diff(diff)
                }
            },
        }
    }

    /// Whether two rows are the same row by their identity columns.
    pub fn is_same_row(a: &RowData, b: &RowData, id_cols: &Vec<String>) -> (r: bool)
        ensures
            r == same_identity(*a, *b, string_views(id_cols@)),
    {
        let x = match &a.after {
            Some(x) => x,
            None => {
                return false;
            },
        };
        let y = match &b.after {
            Some(y) => y,
            None => {
                return false;
            },
        };
        let ghost cols = string_views(id_cols@);
        let mut k: usize = 0;
        while k < id_cols.len()
            invariant
                k <= id_cols@.len(),
                cols == string_views(id_cols@),
                a.after == Some(*x),
                b.after == Some(*y),
                forall|j: int| 0 <= j < k ==> same_in(*x, *y, #[trigger] cols[j]),
            decreases id_cols@.len() - k,
        {
            let col = id_cols[k].as_str();
            let same: bool = match (x.get(col), y.get(col)) {
                (Some(p), Some(q)) => p.equals(q),
                (None, None) => true,
                _ => false,
            };
            proof {
                assert(cols[k as int] == col@);
            }
            if !same {
                return false;
            }
            k = k + 1;
        }
        true
    }

    /// What the destination rows `dst` have of each of the rows
    /// `start_index .. start_index + batch_size` of `data`, as far as
    /// `data` has them. A source row is looked up by its identity
    /// columns `id_cols`.
    pub fn batch_compare_row_datas(
        data: &Vec<RowData>,
        dst: &Vec<RowData>,
        id_cols: &Vec<String>,
        start_index: usize,
        batch_size: usize,
    ) -> (results: Vec<CheckResult>)
        ensures
            ({
                let from = if start_index <= data@.len() {
                    start_index as int
                } else {
                    data@.len() as int
                };
                let len = chunk_len(data@.len() as int, from, batch_size as int);
                check_views(results@) == checks_of(
                    data@.subrange(from, from + len),
                    dst@,
                    string_views(id_cols@),
                )
            }),
    {
        let n: usize = data.len();
        let from: usize = if start_index <= n {
            start_index
        } else {
            n
        };
        let len: usize = if n - from < batch_size {
            n - from
        } else {
            batch_size
        };
        let ghost chunk = data@.subrange(from as int, from + len);
        let ghost cols = string_views(id_cols@);
        let mut results: Vec<CheckResult> = Vec::new();
        let mut i: usize = 0;
        proof {
            assert(check_views(results@) =~= checks_of(chunk, dst@, cols).take(0));
        }
        while i < len
            invariant
                i <= len,
                from + len <= n,
                n == data@.len(),
                chunk == data@.subrange(from as int, from + len),
                cols == string_views(id_cols@),
                check_views(results@) == checks_of(chunk, dst@, cols).take(i as int),
            decreases len - i,
        {
            let src = &data[from + i];
            let mut found: Option<&RowData> = None;
            let mut j: usize = 0;
            while j < dst.len()
                invariant_except_break
                    found is None,
                    forall|k: int| 0 <= k < j ==> !same_identity(*src, #[trigger] dst@[k], cols),
                invariant
                    j <= dst@.len(),
                    cols == string_views(id_cols@),
                ensures
                    match found {
                        Some(d) => find_same(dst@, *src, cols) == Some(*d),
                        None => find_same(dst@, *src, cols) is None,
                    },
                decreases dst@.len() - j,
            {
                if BaseChecker::is_same_row(src, &dst[j], id_cols) {
                    found = Some(&dst[j]);
                    proof {
                        lemma_first_same_is(dst@, *src, cols, j as int);
                    }
                    break;
                }
                j = j + 1;
            }
            proof {
                if found is None {
                    assert forall|k: int| !is_first_same(dst@, *src, cols, k) by {}
                }
            }
            let ghost before = results@;
            let result = BaseChecker::check_row(src, found);
            results.push(result);
            i = i + 1;
            proof {
                assert(chunk[i - 1] == *src);
                assert(check_views(results@) =~= check_views(before).push(result@));
                assert(check_views(results@) =~= checks_of(chunk, dst@, cols).take(i as int));
            }
        }
        proof {
            assert(checks_of(chunk, dst@, cols).take(len as int) =~= checks_of(chunk, dst@, cols));
        }
        results
    }
}

} // verus!
