//! Filters on rows: the conditions of a `WHERE` clause.

use vstd::prelude::*;
use vstd::utf8::encode_utf8;
use crate::bytes::same_bytes;
use crate::row::{Row, RowView};
use crate::sql::{Condition, ConditionView, SelectStatement};
use crate::value::as_text;

verus! {

/// Whether `row` has, under the name `column`, a value whose text is
/// `literal`, byte for byte. A row without such a column, and a null, meet
/// no condition.
pub open spec fn condition_holds(column: Seq<char>, literal: Seq<char>, row: RowView) -> bool {
    match row.get(encode_utf8(column)) {
        Some(value) => as_text(value) == Some(encode_utf8(literal)),
        None => false,
    }
}

/// Whether `row` meets every one of `conditions`.
pub open spec fn conditions_hold(conditions: Seq<ConditionView>, row: RowView) -> bool {
    forall|i: int|
        0 <= i < conditions.len() ==> condition_holds(
            (#[trigger] conditions[i]).column,
            conditions[i].value,
            row,
        )
}

/// The test that lets the rows through that meet every one of
/// `conditions`.
pub open spec fn conditions_filter(conditions: Seq<ConditionView>) -> spec_fn(RowView) -> bool {
    |row: RowView| conditions_hold(conditions, row)
}

/// Whether `row` meets `condition`.
pub fn evaluate_condition(condition: &Condition, row: &Row) -> (result: bool)
    ensures
        result == condition_holds(condition.column@, condition.value@, row@),
{
    match row.get(condition.column.as_str().as_bytes()) {
        Some(value) => match value.to_text() {
            Some(text) => same_bytes(text.as_slice(), condition.value.as_str().as_bytes()),
            None => false,
        },
        None => false,
    }
}

/// A test that a row passes or fails.
pub trait Filter {
    /// Whether `row` passes.
    spec fn accepts(&self, row: RowView) -> bool;

    /// Tells whether `row` passes.
    fn evaluate(&self, row: &Row) -> (result: bool)
        ensures
            result == self.accepts(row@),
    ;
}

/// The test that lets every row through.
pub open spec fn every_row() -> spec_fn(RowView) -> bool {
    |row: RowView| true
}

/// The test that `filter` makes.
pub open spec fn acceptance<F: Filter>(filter: &F) -> spec_fn(RowView) -> bool {
    |row: RowView| filter.accepts(row)
}

/// A statement lets the rows through that meet all of its conditions.
impl Filter for SelectStatement {
    open spec fn accepts(&self, row: RowView) -> bool {
        conditions_hold(self@.conditions, row)
    }

    fn evaluate(&self, row: &Row) -> (result: bool) {
        let mut i: usize = 0;
        while i < self.conditions.len()
            invariant
                i <= self.conditions.len(),
                forall|j: int|
                    0 <= j < i ==> condition_holds(
                        (#[trigger] self@.conditions[j]).column,
                        self@.conditions[j].value,
                        row@,
                    ),
            decreases self.conditions.len() - i,
        {
            let holds = evaluate_condition(&self.conditions[i], row);
            proof {
                assert(self@.conditions[i as int] == self.conditions@[i as int]@);
            }
            if !holds {
                return false;
            }
            i = i + 1;
        }
        true
    }
}

/// `true` lets every row through, `false` none.
impl Filter for bool {
    open spec fn accepts(&self, row: RowView) -> bool {
        *self
    }

    fn evaluate(&self, row: &Row) -> (result: bool) {
        *self
    }
}

} // verus!
