//! Comparing the structure of the source with the structure of the
//! destination.

use vstd::prelude::*;
use crate::meta::col_value::str_same;
use crate::meta::ddl_data::DdlData;
use crate::meta::struct_meta::column::Column;
use crate::meta::struct_meta::struct_model::{Comment, Constraint, Index, StructModel};
use crate::meta::struct_meta::table::Table;

verus! {

/// What the destination has of an object of the source schema.
#[derive(Debug, Clone, Copy, PartialEq, Eq, Structural)]
pub enum StructCheck {
    /// The same object.
    Same,
    /// An object of that name that differs.
    Diff,
    /// No such object.
    Miss,
    /// The source gave no structure to check.
    Nothing,
}

/// The text of a column that may be null, or none.
pub open spec fn opt_view(v: Option<String>) -> Option<Seq<char>> {
    match v {
        Some(s) => Some(s@),
        None => None,
    }
}

/// Whether two columns are defined alike.
pub open spec fn same_column(a: Column, b: Column) -> bool {
    &&& a.column_name@ == b.column_name@
    &&& a.order_position == b.order_position
    &&& opt_view(a.default_value) == opt_view(b.default_value)
    &&& a.is_nullable@ == b.is_nullable@
    &&& a.column_type@ == b.column_type@
    &&& opt_view(a.generated) == opt_view(b.generated)
}

/// Whether two tables have the same name and the same columns, in the
/// same order.
pub open spec fn same_table(a: Table, b: Table) -> bool {
    &&& a.schema_name@ == b.schema_name@
    &&& a.table_name@ == b.table_name@
    &&& a.columns@.len() == b.columns@.len()
    &&& forall|i: int| 0 <= i < a.columns@.len() ==> same_column(#[trigger] a.columns@[i], b.columns@[i])
}

/// Whether two constraints have the same table, name, type and definition.
pub open spec fn same_constraint(a: Constraint, b: Constraint) -> bool {
    &&& a.schema_name@ == b.schema_name@
    &&& a.table_name@ == b.table_name@
    &&& a.constraint_name@ == b.constraint_name@
    &&& a.constraint_type@ == b.constraint_type@
    &&& a.definition@ == b.definition@
}

/// Whether two indexes have the same table, name, kind and definition.
pub open spec fn same_index(a: Index, b: Index) -> bool {
    &&& a.schema_name@ == b.schema_name@
    &&& a.table_name@ == b.table_name@
    &&& a.index_name@ == b.index_name@
    &&& a.index_kind == b.index_kind
    &&& a.definition@ == b.definition@
}

/// Whether two comments are on the same table and column and say the same.
pub open spec fn same_comment(a: Comment, b: Comment) -> bool {
    &&& a.schema_name@ == b.schema_name@
    &&& a.table_name@ == b.table_name@
    &&& a.column_name@ == b.column_name@
    &&& a.comment@ == b.comment@
}

/// Whether two objects are of one kind and defined alike.
pub open spec fn same_model(a: StructModel, b: StructModel) -> bool {
    match (a, b) {
        (StructModel::TableModel(x), StructModel::TableModel(y)) => same_table(x, y),
        (StructModel::ConstraintModel(x), StructModel::ConstraintModel(y)) => same_constraint(x, y),
        (StructModel::IndexModel(x), StructModel::IndexModel(y)) => same_index(x, y),
        (StructModel::CommentModel(x), StructModel::CommentModel(y)) => same_comment(x, y),
        _ => false,
    }
}

/// What the destination has of `src`, where `dst` is the object that it
/// gave for it.
pub open spec fn struct_check_of(src: StructModel, dst: Option<StructModel>) -> StructCheck {
    match dst {
        None => StructCheck::Miss,
        Some(d) => if same_model(src, d) {
            StructCheck::Same
        } else {
            StructCheck::Diff
        },
    }
}

/// The schema that an object belongs to.
pub open spec fn schema_of(model: StructModel) -> Seq<char> {
    match model {
        StructModel::TableModel(t) => t.schema_name@,
        StructModel::ConstraintModel(c) => c.schema_name@,
        StructModel::IndexModel(x) => x.schema_name@,
        StructModel::CommentModel(c) => c.schema_name@,
    }
}

fn opt_same(a: &Option<String>, b: &Option<String>) -> (r: bool)
    ensures
        r == (opt_view(*a) == opt_view(*b)),
{
    match (a, b) {
        (Some(x), Some(y)) => str_same(x.as_str(), y.as_str()),
        (None, None) => true,
        _ => false,
    }
}

fn columns_same(a: &Column, b: &Column) -> (r: bool)
    ensures
        r == same_column(*a, *b),
{
    str_same(a.column_name.as_str(), b.column_name.as_str()) && a.order_position
        == b.order_position && opt_same(&a.default_value, &b.default_value) && str_same(
        a.is_nullable.as_str(),
        b.is_nullable.as_str(),
    ) && str_same(a.column_type.as_str(), b.column_type.as_str()) && opt_same(
        &a.generated,
        &b.generated,
    )
}

fn tables_same(a: &Table, b: &Table) -> (r: bool)
    ensures
        r == same_table(*a, *b),
{
    if !str_same(a.schema_name.as_str(), b.schema_name.as_str()) || !str_same(
        a.table_name.as_str(),
        b.table_name.as_str(),
    ) || a.columns.len() != b.columns.len() {
        return false;
    }
    let mut i: usize = 0;
    while i < a.columns.len()
        invariant
            i <= a.columns@.len(),
            a.columns@.len() == b.columns@.len(),
            a.schema_name@ == b.schema_name@,
            a.table_name@ == b.table_name@,
            forall|k: int| 0 <= k < i ==> same_column(#[trigger] a.columns@[k], b.columns@[k]),
        decreases a.columns@.len() - i,
    {
        if !columns_same(&a.columns[i], &b.columns[i]) {
            return false;
        }
        i = i + 1;
    }
    true
}

pub struct StructChecker {}

impl StructChecker {
    /// Whether two objects are of one kind and defined alike.
    pub fn compare_struct(a: &StructModel, b: &StructModel) -> (r: bool)
        ensures
            r == same_model(*a, *b),
    {
        match (a, b) {
            (StructModel::TableModel(x), StructModel::TableModel(y)) => tables_same(x, y),
            (StructModel::ConstraintModel(x), StructModel::ConstraintModel(y)) => str_same(
                x.schema_name.as_str(),
                y.schema_name.as_str(),
            ) && str_same(x.table_name.as_str(), y.table_name.as_str()) && str_same(
                x.constraint_name.as_str(),
                y.constraint_name.as_str(),
            ) && str_same(x.constraint_type.as_str(), y.constraint_type.as_str()) && str_same(
                x.definition.as_str(),
                y.definition.as_str(),
            ),
            (StructModel::IndexModel(x), StructModel::IndexModel(y)) => str_same(
                x.schema_name.as_str(),
                y.schema_name.as_str(),
            ) && str_same(x.table_name.as_str(), y.table_name.as_str()) && str_same(
                x.index_name.as_str(),
                y.index_name.as_str(),
            ) && x.index_kind == y.index_kind && str_same(
                x.definition.as_str(),
                y.definition.as_str(),
            ),
            (StructModel::CommentModel(x), StructModel::CommentModel(y)) => str_same(
                x.schema_name.as_str(),
                y.schema_name.as_str(),
            ) && str_same(x.table_name.as_str(), y.table_name.as_str()) && str_same(
                x.column_name.as_str(),
                y.column_name.as_str(),
            ) && str_same(x.comment.as_str(), y.comment.as_str()),
            _ => false,
        }
    }

    /// What the destination has of the object `src`, where `dst` is the
    /// object that it gave for it.
    pub fn check_struct(src: &StructModel, dst: Option<&StructModel>) -> (r: StructCheck)
        ensures
            r == struct_check_of(
                *src,
                match dst {
                    Some(d) => Some(*d),
                    None => None,
                },
            ),
    {
        match dst {
            None => StructCheck::Miss,
            Some(d) => if StructChecker::compare_struct(src, d) {
                StructCheck::Same
            } else {
                StructCheck::Diff
            },
        }
    }

    /// What the destination has of the structure that a schema change
    /// left, where `dst` is the object that it gave for it. A schema
    /// change that carries no structure has nothing to check.
    pub fn serial_ddl_check(src: &DdlData, dst: Option<&StructModel>) -> (r: StructCheck)
        ensures
            r == (match src.meta {
                Some(m) => struct_check_of(
                    m,
                    match dst {
                        Some(d) => Some(*d),
                        None => None,
                    },
                ),
                None => StructCheck::Nothing,
            }),
    {
        match &src.meta {
            Some(m) => StructChecker::check_struct(m, dst),
            None => StructCheck::Nothing,
        }
    }

    /// What the destination has of the object `src`, where `fetched`
    /// are the objects that it gave for it: the first of them counts.
    pub fn serial_check_struct(src: &StructModel, fetched: &Vec<StructModel>) -> (r: StructCheck)
        ensures
            r == struct_check_of(
                *src,
                if fetched@.len() > 0 {
                    Some(fetched@[0])
                } else {
                    None
                },
            ),
    {
        if fetched.len() == 0 {
            StructChecker::check_struct(src, None)
        } else {
            StructChecker::check_struct(src, Some(&fetched[0]))
        }
    }

    /// The schema that the destination is asked about for the object
    /// `src`.
    pub fn struct_schema(src: &StructModel) -> (schema: String)
        ensures
            schema@ == schema_of(*src),
    {
        match src {
            StructModel::TableModel(t) => t.schema_name.clone(),
            StructModel::ConstraintModel(c) => c.schema_name.clone(),
            StructModel::IndexModel(x) => x.schema_name.clone(),
            StructModel::CommentModel(c) => c.schema_name.clone(),
        }
    }
}

} // verus!
