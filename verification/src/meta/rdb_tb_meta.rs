//! What a sinker knows of a destination table.

use vstd::prelude::*;
use crate::util::text::string_views;

verus! {

/// The metadata of one table.
#[derive(Debug, Clone)]
pub struct RdbTbMeta {
    pub schema: String,
    pub tb: String,
    /// The columns, in the order of the table.
    pub cols: Vec<String>,
    /// The columns that identify a row.
    pub id_cols: Vec<String>,
    /// The single column that rows are ordered and found by, where the
    /// table has one.
    pub order_col: Option<String>,
}

/// The columns that identify a row of a table with the columns `cols`
/// and the primary key `primary`: the primary key, or every column where
/// the table has no primary key.
pub open spec fn identity_of(cols: Seq<Seq<char>>, primary: Seq<Seq<char>>) -> Seq<Seq<char>> {
    if primary.len() == 0 {
        cols
    } else {
        primary
    }
}

/// The single column that rows are found by, where exactly one column
/// identifies a row.
pub open spec fn order_col_of(id_cols: Seq<Seq<char>>) -> Option<Seq<char>> {
    if id_cols.len() == 1 {
        Some(id_cols[0])
    } else {
        None
    }
}

/// A copy of the names `names`.
fn copy_names(names: &Vec<String>) -> (out: Vec<String>)
    ensures
        string_views(out@) == string_views(names@),
{
    let mut out: Vec<String> = Vec::new();
    let mut i: usize = 0;
    while i < names.len()
        invariant
            i <= names@.len(),
            string_views(out@) == string_views(names@).take(i as int),
        decreases names@.len() - i,
    {
        let ghost before = out@;
        out.push(names[i].clone());
        i = i + 1;
        proof {
            assert(string_views(out@) =~= string_views(before).push(names@[i - 1]@));
            assert(string_views(out@) =~= string_views(names@).take(i as int));
        }
    }
    proof {
        assert(string_views(names@).take(i as int) =~= string_views(names@));
    }
    out
}

impl RdbTbMeta {
    /// The metadata of the table `schema`.`tb` with the columns `cols`
    /// and the primary key `primary`, as the catalog gives them. A
    /// table without a primary key is identified by all its columns; a
    /// table that one column identifies is ordered by that column.
    pub fn of_catalog(schema: String, tb: String, cols: Vec<String>, primary: Vec<String>) -> (m:
        RdbTbMeta)
        ensures
            m.schema == schema,
            m.tb == tb,
            m.cols == cols,
            string_views(m.id_cols@) == identity_of(string_views(cols@), string_views(primary@)),
            match m.order_col {
                Some(c) => order_col_of(string_views(m.id_cols@)) == Some(c@),
                None => order_col_of(string_views(m.id_cols@)) is None,
            },
    {
        let id_cols = if primary.len() == 0 {
            copy_names(&cols)
        } else {
            primary
        };
        let order_col = if id_cols.len() == 1 {
            Some(id_cols[0].clone())
        } else {
            None
        };
        RdbTbMeta { schema, tb, cols, id_cols, order_col }
    }
}

} // verus!
