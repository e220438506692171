//! Parsed SQL statements.

use vstd::prelude::*;

verus! {

/// A parsed SQL statement.
#[derive(Debug, Clone, PartialEq, Eq)]
pub enum Statement {
    SelectStatement(SelectStatement),
    CreateTableStatement(CreateTableStatement),
}

/// A `CREATE TABLE` statement: the name of the table and of its columns.
#[derive(Debug, Clone, PartialEq, Eq)]
pub struct CreateTableStatement {
    pub table_name: String,
    pub columns: Vec<String>,
}

/// A `SELECT` statement.
///
/// `SELECT name, color FROM apples WHERE color = 'blue'` has the selectables
/// `Column("name")` and `Column("color")`, the target `TableOrView("apples")`
/// and the one condition that `color` equals `blue`.
#[derive(Debug, Clone, PartialEq, Eq)]
pub struct SelectStatement {
    pub selectables: Vec<Selectable>,
    pub from_target: Targetable,
    pub conditions: Vec<Condition>,
}

/// What a `SELECT` asks for: a column, or `COUNT(*)`.
#[derive(Debug, Clone, PartialEq, Eq)]
pub enum Selectable {
    Column(String),
    CountStar,
}

/// What a `FROM` clause names.
#[derive(Debug, Clone, PartialEq, Eq)]
pub enum Targetable {
    TableOrView(String),
    Other(String),
}

/// An equality test of a `WHERE` clause: the column `column` equals the
/// string literal `value`.
#[derive(Debug, Clone, PartialEq, Eq)]
pub struct Condition {
    pub column: String,
    pub value: String,
}

/// What a `Selectable` holds.
pub enum SelectableView {
    Column(Seq<char>),
    CountStar,
}

impl View for Selectable {
    type V = SelectableView;

    open spec fn view(&self) -> SelectableView {
        match self {
            Selectable::Column(name) => SelectableView::Column(name@),
            Selectable::CountStar => SelectableView::CountStar,
        }
    }
}

/// What a `Targetable` holds.
pub enum TargetableView {
    TableOrView(Seq<char>),
    Other(Seq<char>),
}

impl View for Targetable {
    type V = TargetableView;

    open spec fn view(&self) -> TargetableView {
        match self {
            Targetable::TableOrView(name) => TargetableView::TableOrView(name@),
            Targetable::Other(text) => TargetableView::Other(text@),
        }
    }
}

/// What a `Condition` holds.
pub struct ConditionView {
    pub column: Seq<char>,
    pub value: Seq<char>,
}

impl View for Condition {
    type V = ConditionView;

    open spec fn view(&self) -> ConditionView {
        ConditionView { column: self.column@, value: self.value@ }
    }
}

/// What each of `selectables` holds.
pub open spec fn selectable_views(selectables: Seq<Selectable>) -> Seq<SelectableView> {
    Seq::new(selectables.len(), |i: int| selectables[i]@)
}

/// What each of `conditions` holds.
pub open spec fn condition_views(conditions: Seq<Condition>) -> Seq<ConditionView> {
    Seq::new(conditions.len(), |i: int| conditions[i]@)
}

/// What a `SelectStatement` holds.
pub struct SelectStatementView {
    pub selectables: Seq<SelectableView>,
    pub from_target: TargetableView,
    pub conditions: Seq<ConditionView>,
}

impl View for SelectStatement {
    type V = SelectStatementView;

    open spec fn view(&self) -> SelectStatementView {
        SelectStatementView {
            selectables: selectable_views(self.selectables@),
            from_target: self.from_target@,
            conditions: condition_views(self.conditions@),
        }
    }
}

} // verus!
