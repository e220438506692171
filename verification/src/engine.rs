//! Commands and queries: the schema, the checks on a statement and its result.

use vstd::prelude::*;
use vstd::slice::slice_to_vec;
use vstd::utf8::encode_utf8;
use crate::bytes::{be_u16, be_u32, same_bytes};
use crate::cli::{Command, CommandView};
use crate::header::{effective_page_size, header_fault};
use crate::sql_query::{select_statement, statement_of};
use crate::database::{walk, Database};
use crate::ddl::byte_views;
use crate::error::{after, Error};
use crate::record::value_views;
use crate::row::{row_views, Row, RowView};
use crate::schema::{
    object_of, schema_table_information, schema_table_view, table_of, ObjectInformation,
    ObjectInformationView, ObjectType, TableInformation, TableInformationView,
    TABLE_SCHEMA_ROOT_PAGE_NUMBER,
};
use crate::value::{Value, ValueView};
use crate::predicate::{acceptance, conditions_filter, every_row};
use crate::sql::{
    condition_views, selectable_views, Condition, CreateTableStatement, SelectStatement,
    SelectStatementView, Selectable, SelectableView, Statement, Targetable, TargetableView,
};

verus! {

/// What a query gives: the number of rows that met its conditions, and for
/// each of them the values of the columns that it selects. A query that
/// counts gives no values.
#[derive(Debug, Clone, PartialEq, Eq)]
pub struct QueryResult {
    pub count: usize,
    pub results: Vec<Vec<Value>>,
}

/// What a `QueryResult` holds.
pub struct QueryResultView {
    pub count: nat,
    pub results: Seq<Seq<ValueView>>,
}

/// What each of `results` holds.
pub open spec fn result_views(results: Seq<Vec<Value>>) -> Seq<Seq<ValueView>> {
    Seq::new(results.len(), |i: int| value_views(results[i]@))
}

impl View for QueryResult {
    type V = QueryResultView;

    open spec fn view(&self) -> QueryResultView {
        QueryResultView { count: self.count as nat, results: result_views(self.results@) }
    }
}

/// What each of `objects` holds.
pub open spec fn object_views(objects: Seq<ObjectInformation>) -> Seq<ObjectInformationView> {
    Seq::new(objects.len(), |i: int| objects[i]@)
}

/// What each of `tables` holds.
pub open spec fn table_views(tables: Seq<TableInformation>) -> Seq<TableInformationView> {
    Seq::new(tables.len(), |i: int| tables[i]@)
}

/// The objects that the rows `rows` of the schema table describe, in the
/// order of the rows. The first row that describes none decides the error.
pub open spec fn objects_of(rows: Seq<RowView>) -> Result<Seq<ObjectInformationView>, Error>
    decreases rows.len(),
{
    if rows.len() == 0 {
        Ok(Seq::empty())
    } else {
        match object_of(rows[0]) {
            Err(e) => Err(e),
            Ok(object) => after(seq![object], objects_of(rows.subrange(1, rows.len() as int))),
        }
    }
}

/// The tables among `objects`, in their order. The first table of which
/// nothing can be known decides the error.
pub open spec fn tables_among(objects: Seq<ObjectInformationView>) -> Result<
    Seq<TableInformationView>,
    Error,
>
    decreases objects.len(),
{
    if objects.len() == 0 {
        Ok(Seq::empty())
    } else if objects[0].object_type != ObjectType::Table {
        tables_among(objects.subrange(1, objects.len() as int))
    } else {
        match table_of(objects[0]) {
            Err(e) => Err(e),
            Ok(table) => after(seq![table], tables_among(objects.subrange(1, objects.len() as int))),
        }
    }
}

/// The objects of the database whose file holds `file`: what the rows of
/// the schema table describe, which starts at page 1.
pub open spec fn schema_objects_of(file: Seq<u8>, page_size: u32, limit: nat) -> Result<
    Seq<ObjectInformationView>,
    Error,
> {
    match walk(file, page_size, limit, seq![1u32], 0, schema_table_view(), every_row()) {
        Err(e) => Err(e),
        Ok(rows) => objects_of(rows),
    }
}

/// The tables of the database whose file holds `file`.
pub open spec fn schema_tables_of(file: Seq<u8>, page_size: u32, limit: nat) -> Result<
    Seq<TableInformationView>,
    Error,
> {
    match schema_objects_of(file, page_size, limit) {
        Err(e) => Err(e),
        Ok(objects) => tables_among(objects),
    }
}

/// The position of the first of `tables`, from position `i` on, that has
/// the name `name`.
pub open spec fn find_table_from(tables: Seq<TableInformationView>, name: Seq<u8>, i: int) -> Option<
    int,
>
    decreases tables.len() - i,
{
    if i < 0 || i >= tables.len() {
        None
    } else if tables[i].table_name == name {
        Some(i)
    } else {
        find_table_from(tables, name, i + 1)
    }
}

/// Whether `selectable` is a column that `table` does not have.
pub open spec fn unknown_selectable(selectable: SelectableView, table: TableInformationView) -> bool {
    match selectable {
        SelectableView::Column(name) => !table.column_names.contains(encode_utf8(name)),
        SelectableView::CountStar => false,
    }
}

/// Whether `COUNT(*)` is among `selectables`.
pub open spec fn contains_count(selectables: Seq<SelectableView>) -> bool {
    selectables.contains(SelectableView::CountStar)
}

/// Why `statement` cannot be run against the tables `tables`, if it
/// cannot.
///
/// `SqlParse` where it selects nothing; `Unsupported` where its target is
/// no table or view; `Unresolved` where no table has the target's name;
/// `Unsupported` where `COUNT(*)` stands beside another selectable;
/// `Unresolved` where the table lacks a column that the statement selects
/// or tests. The rules are tried in this order.
pub open spec fn select_error(statement: SelectStatementView, tables: Seq<TableInformationView>) -> Option<
    Error,
> {
    if statement.selectables.len() == 0 {
        Some(Error::SqlParse)
    } else {
        match statement.from_target {
            TargetableView::Other(_) => Some(Error::Unsupported),
            TargetableView::TableOrView(name) => match find_table_from(tables, encode_utf8(name), 0) {
                None => Some(Error::Unresolved),
                Some(position) => if contains_count(statement.selectables)
                    && statement.selectables.len() != 1 {
                    Some(Error::Unsupported)
                } else if exists|i: int|
                    0 <= i < statement.selectables.len() && unknown_selectable(
                        #[trigger] statement.selectables[i],
                        tables[position],
                    ) {
                    Some(Error::Unresolved)
                } else if exists|i: int|
                    0 <= i < statement.conditions.len() && !tables[position].column_names.contains(
                        encode_utf8((#[trigger] statement.conditions[i]).column),
                    ) {
                    Some(Error::Unresolved)
                } else {
                    None
                },
            },
        }
    }
}

/// The table that `statement` reads, where it names one of `tables`.
pub open spec fn target_of(statement: SelectStatementView, tables: Seq<TableInformationView>) -> Option<
    int,
> {
    match statement.from_target {
        TargetableView::Other(_) => None,
        TargetableView::TableOrView(name) => find_table_from(tables, encode_utf8(name), 0),
    }
}

/// Why a `CREATE TABLE` statement cannot be run, if it cannot: `SqlParse`
/// where it names no table or no column.
pub open spec fn create_error(statement: CreateTableStatement) -> Option<Error> {
    if statement.table_name@.len() == 0 || statement.columns@.len() == 0 {
        Some(Error::SqlParse)
    } else {
        None
    }
}

/// The value that `row` gives for `selectable`: that of the column of that
/// name, or a null where the row's record is too short to have one.
pub open spec fn projected(row: RowView, selectable: SelectableView) -> ValueView {
    match selectable {
        SelectableView::Column(name) => match row.get(encode_utf8(name)) {
            Some(value) => value,
            None => ValueView::Null,
        },
        SelectableView::CountStar => ValueView::Null,
    }
}

/// The values that `row` gives for `selectables`, in their order.
pub open spec fn projection(row: RowView, selectables: Seq<SelectableView>) -> Seq<ValueView> {
    Seq::new(selectables.len(), |i: int| projected(row, selectables[i]))
}

/// What a statement with the selectables `selectables` gives for the rows
/// `rows` that met its conditions: their number, and the values that it
/// selects from each, or no values where it counts.
pub open spec fn result_of(rows: Seq<RowView>, selectables: Seq<SelectableView>) -> QueryResultView {
    QueryResultView {
        count: rows.len(),
        results: if contains_count(selectables) {
            Seq::empty()
        } else {
            Seq::new(rows.len(), |i: int| projection(rows[i], selectables))
        },
    }
}

/// What `statement` gives on the database whose file holds `file`.
///
/// The statement is checked against the tables of the schema, the tree of
/// its table is walked with its conditions for a filter, and the rows that
/// pass are counted or projected.
pub open spec fn query_of(
    file: Seq<u8>,
    page_size: u32,
    limit: nat,
    statement: SelectStatementView,
) -> Result<QueryResultView, Error> {
    match schema_tables_of(file, page_size, limit) {
        Err(e) => Err(e),
        Ok(tables) => match select_error(statement, tables) {
            Some(e) => Err(e),
            None => {
                let table = tables[target_of(statement, tables).unwrap()];
                match walk(
                    file,
                    page_size,
                    limit,
                    seq![table.root_page],
                    0,
                    table,
                    conditions_filter(statement.conditions),
                ) {
                    Err(e) => Err(e),
                    Ok(rows) => Ok(result_of(rows, statement.selectables)),
                }
            },
        },
    }
}

/// Lists the objects of the database: the rows of its schema table.
pub fn list_schema_objects(database: &Database) -> (result: Result<Vec<ObjectInformation>, Error>)
    ensures
        match schema_objects_of(
            database.file@,
            database.header.page_size,
            database.header.db_size_in_pages as nat,
        ) {
            Ok(objects) => result matches Ok(o) && object_views(o@) == objects,
            Err(e) => result == Err::<Vec<ObjectInformation>, Error>(e),
        },
{
    let schema = schema_table_information();
    proof {
        assert(acceptance(&true) =~= every_row());
    }
    let rows = database.traverse_btree_table(TABLE_SCHEMA_ROOT_PAGE_NUMBER, &true, &schema)?;
    let ghost all = row_views(rows@);
    let mut objects: Vec<ObjectInformation> = Vec::new();
    let mut i: usize = 0;
    proof {
        assert(all.subrange(0, all.len() as int) =~= all);
        assert(object_views(objects@) =~= Seq::<ObjectInformationView>::empty());
        if let Ok(found) = objects_of(all) {
            assert(Seq::<ObjectInformationView>::empty() + found =~= found);
        }
    }
    while i < rows.len()
        invariant
            i <= rows.len(),
            all == row_views(rows@),
            schema_objects_of(
                database.file@,
                database.header.page_size,
                database.header.db_size_in_pages as nat,
            ) == objects_of(all),
            objects_of(all) == after(
                object_views(objects@),
                objects_of(all.subrange(i as int, all.len() as int)),
            ),
        decreases rows.len() - i,
    {
        let ghost left = all.subrange(i as int, all.len() as int);
        let ghost before = object_views(objects@);
        proof {
            assert(left[0] == rows@[i as int]@);
            assert(left.subrange(1, left.len() as int) =~= all.subrange(i + 1, all.len() as int));
        }
        let object = ObjectInformation::from_row(&rows[i])?;
        proof {
            let tail = objects_of(all.subrange(i + 1, all.len() as int));
            assert(object_views(objects@.push(object)) =~= before.push(object@));
            if let Ok(more) = tail {
                assert(before + (seq![object@] + more) =~= before.push(object@) + more);
            }
        }
        objects.push(object);
        i = i + 1;
    }
    proof {
        assert(object_views(objects@) + Seq::<ObjectInformationView>::empty() =~= object_views(
            objects@,
        ));
    }
    Ok(objects)
}

/// Picks the tables among `objects` and derives what is known of each.
pub fn tables_from_objects(objects: &Vec<ObjectInformation>) -> (result: Result<
    Vec<TableInformation>,
    Error,
>)
    ensures
        match tables_among(object_views(objects@)) {
            Ok(tables) => result matches Ok(t) && table_views(t@) == tables,
            Err(e) => result == Err::<Vec<TableInformation>, Error>(e),
        },
        result matches Ok(t) ==> forall|i: int|
            0 <= i < t@.len() ==> (#[trigger] t@[i])@.well_formed(),
{
    let ghost all = object_views(objects@);
    let mut tables: Vec<TableInformation> = Vec::new();
    let mut i: usize = 0;
    proof {
        assert(all.subrange(0, all.len() as int) =~= all);
        assert(table_views(tables@) =~= Seq::<TableInformationView>::empty());
        if let Ok(found) = tables_among(all) {
            assert(Seq::<TableInformationView>::empty() + found =~= found);
        }
    }
    while i < objects.len()
        invariant
            i <= objects.len(),
            all == object_views(objects@),
            forall|j: int| 0 <= j < tables@.len() ==> (#[trigger] tables@[j])@.well_formed(),
            tables_among(all) == after(
                table_views(tables@),
                tables_among(all.subrange(i as int, all.len() as int)),
            ),
        decreases objects.len() - i,
    {
        let ghost left = all.subrange(i as int, all.len() as int);
        let ghost before = table_views(tables@);
        proof {
            assert(left[0] == objects@[i as int]@);
            assert(left.subrange(1, left.len() as int) =~= all.subrange(i + 1, all.len() as int));
        }
        let is_table: bool = match objects[i].object_type {
            ObjectType::Table => true,
            _ => false,
        };
        if is_table {
            let table = TableInformation::from_object(&objects[i])?;
            proof {
                let tail = tables_among(all.subrange(i + 1, all.len() as int));
                assert(table_views(tables@.push(table)) =~= before.push(table@));
                if let Ok(more) = tail {
                    assert(before + (seq![table@] + more) =~= before.push(table@) + more);
                }
            }
            tables.push(table);
        }
        i = i + 1;
    }
    proof {
        assert(table_views(tables@) + Seq::<TableInformationView>::empty() =~= table_views(
            tables@,
        ));
    }
    Ok(tables)
}

/// Lists the tables of the database.
pub fn list_tables(database: &Database) -> (result: Result<Vec<TableInformation>, Error>)
    ensures
        match schema_tables_of(
            database.file@,
            database.header.page_size,
            database.header.db_size_in_pages as nat,
        ) {
            Ok(tables) => result matches Ok(t) && table_views(t@) == tables,
            Err(e) => result == Err::<Vec<TableInformation>, Error>(e),
        },
        result matches Ok(t) ==> forall|i: int|
            0 <= i < t@.len() ==> (#[trigger] t@[i])@.well_formed(),
{
    let objects = list_schema_objects(database)?;
    tables_from_objects(&objects)
}

/// Finds the first of `tables` that has the name `name`.
pub fn find_table(tables: &Vec<TableInformation>, name: &[u8]) -> (result: Option<usize>)
    ensures
        match result {
            Some(position) => position < tables@.len() && find_table_from(
                table_views(tables@),
                name@,
                0,
            ) == Some(position as int),
            None => find_table_from(table_views(tables@), name@, 0).is_none(),
        },
{
    let mut i: usize = 0;
    while i < tables.len()
        invariant
            i <= tables.len(),
            find_table_from(table_views(tables@), name@, 0) == find_table_from(
                table_views(tables@),
                name@,
                i as int,
            ),
        decreases tables.len() - i,
    {
        if same_bytes(tables[i].table_name.as_slice(), name) {
            return Some(i);
        }
        i = i + 1;
    }
    None
}

/// Whether `name` is among `names`.
pub fn contains_name(names: &Vec<Vec<u8>>, name: &[u8]) -> (result: bool)
    ensures
        result == byte_views(names@).contains(name@),
{
    let mut i: usize = 0;
    while i < names.len()
        invariant
            i <= names.len(),
            forall|j: int| 0 <= j < i ==> byte_views(names@)[j] != name@,
        decreases names.len() - i,
    {
        if same_bytes(names[i].as_slice(), name) {
            proof {
                assert(byte_views(names@)[i as int] == name@);
            }
            return true;
        }
        i = i + 1;
    }
    false
}

/// Whether `COUNT(*)` is among `expressions`.
pub fn expressions_contain_count(expressions: &Vec<Selectable>) -> (result: bool)
    ensures
        result == contains_count(selectable_views(expressions@)),
{
    let mut i: usize = 0;
    while i < expressions.len()
        invariant
            i <= expressions.len(),
            forall|j: int|
                0 <= j < i ==> selectable_views(expressions@)[j] != SelectableView::CountStar,
        decreases expressions.len() - i,
    {
        match &expressions[i] {
            Selectable::CountStar => {
                proof {
                    assert(selectable_views(expressions@)[i as int] == SelectableView::CountStar);
                }
                return true;
            },
            Selectable::Column(_) => {},
        }
        i = i + 1;
    }
    false
}

/// Whether `table` has every column among `selectables`.
pub fn selects_known_columns(selectables: &Vec<Selectable>, table: &TableInformation) -> (result:
    bool)
    ensures
        result == !(exists|i: int|
            0 <= i < selectables@.len() && unknown_selectable(
                #[trigger] selectable_views(selectables@)[i],
                table@,
            )),
{
    let mut i: usize = 0;
    while i < selectables.len()
        invariant
            i <= selectables.len(),
            forall|j: int|
                0 <= j < i ==> !unknown_selectable(
                    #[trigger] selectable_views(selectables@)[j],
                    table@,
                ),
        decreases selectables.len() - i,
    {
        match &selectables[i] {
            Selectable::Column(column) => {
                if !contains_name(&table.column_names, column.as_str().as_bytes()) {
                    assert(unknown_selectable(selectable_views(selectables@)[i as int], table@));
                    return false;
                }
            },
            Selectable::CountStar => {},
        }
        i = i + 1;
    }
    true
}

/// Whether `table` has every column that `conditions` test.
pub fn tests_known_columns(conditions: &Vec<Condition>, table: &TableInformation) -> (result: bool)
    ensures
        result == !(exists|i: int|
            0 <= i < conditions@.len() && !table@.column_names.contains(
                encode_utf8((#[trigger] condition_views(conditions@)[i]).column),
            )),
{
    let mut k: usize = 0;
    while k < conditions.len()
        invariant
            k <= conditions.len(),
            forall|j: int|
                0 <= j < k ==> table@.column_names.contains(
                    encode_utf8((#[trigger] condition_views(conditions@)[j]).column),
                ),
        decreases conditions.len() - k,
    {
        if !contains_name(&table.column_names, conditions[k].column.as_str().as_bytes()) {
            assert(!table@.column_names.contains(
                encode_utf8(condition_views(conditions@)[k as int].column),
            ));
            return false;
        }
        k = k + 1;
    }
    true
}

/// Checks that `statement` can be run against the tables `tables`.
pub fn validate_statement(statement: &Statement, tables: &Vec<TableInformation>) -> (result: Result<
    bool,
    Error,
>)
    ensures
        match statement {
            Statement::SelectStatement(select) => match select_error(select@, table_views(tables@)) {
                Some(e) => result == Err::<bool, Error>(e),
                None => result == Ok::<bool, Error>(true),
            },
            Statement::CreateTableStatement(create) => match create_error(*create) {
                Some(e) => result == Err::<bool, Error>(e),
                None => result == Ok::<bool, Error>(true),
            },
        },
{
    match statement {
        Statement::SelectStatement(select) => validate_select_statement(select, tables),
        Statement::CreateTableStatement(create) => validate_create_statement(create, tables),
    }
}

/// Checks that `statement` selects something, that its target is one of
/// `tables`, that `COUNT(*)` stands alone where it stands, and that the
/// table has every column that the statement selects or tests.
pub fn validate_select_statement(statement: &SelectStatement, tables: &Vec<TableInformation>) -> (result:
    Result<bool, Error>)
    ensures
        match select_error(statement@, table_views(tables@)) {
            Some(e) => result == Err::<bool, Error>(e),
            None => result == Ok::<bool, Error>(true),
        },
{
    if statement.selectables.len() == 0 {
        return Err(Error::SqlParse);
    }
    let name: &String = match &statement.from_target {
        Targetable::Other(_) => {
            return Err(Error::Unsupported);
        },
        Targetable::TableOrView(name) => name,
    };
    let position: usize = match find_table(tables, name.as_str().as_bytes()) {
        None => {
            return Err(Error::Unresolved);
        },
        Some(position) => position,
    };
    let table = &tables[position];
    assert(table@ == table_views(tables@)[position as int]);
    if expressions_contain_count(&statement.selectables) && statement.selectables.len() != 1 {
        return Err(Error::Unsupported);
    }
    let ghost views = table_views(tables@);
    if !selects_known_columns(&statement.selectables, table) {
        proof {
            let i = choose|i: int|
                0 <= i < statement.selectables@.len() && unknown_selectable(
                    #[trigger] selectable_views(statement.selectables@)[i],
                    table@,
                );
            assert(unknown_selectable(statement@.selectables[i], views[position as int]));
        }
        return Err(Error::Unresolved);
    }
    if !tests_known_columns(&statement.conditions, table) {
        proof {
            let i = choose|i: int|
                0 <= i < statement.conditions@.len() && !table@.column_names.contains(
                    encode_utf8((#[trigger] condition_views(statement.conditions@)[i]).column),
                );
            assert(!views[position as int].column_names.contains(
                encode_utf8(statement@.conditions[i].column),
            ));
        }
        return Err(Error::Unresolved);
    }
    Ok(true)
}

/// Checks that `statement` names a table and at least one column.
pub fn validate_create_statement(statement: &CreateTableStatement, tables: &Vec<TableInformation>) -> (result:
    Result<bool, Error>)
    ensures
        match create_error(*statement) {
            Some(e) => result == Err::<bool, Error>(e),
            None => result == Ok::<bool, Error>(true),
        },
{
    if statement.table_name.as_str().is_empty() {
        return Err(Error::SqlParse);
    }
    if statement.columns.len() == 0 {
        return Err(Error::SqlParse);
    }
    Ok(true)
}

/// The values that `row` gives for `selectables`, in their order.
pub fn project_row(row: &Row, selectables: &Vec<Selectable>) -> (values: Vec<Value>)
    ensures
        value_views(values@) == projection(row@, selectable_views(selectables@)),
{
    let mut values: Vec<Value> = Vec::new();
    let mut i: usize = 0;
    while i < selectables.len()
        invariant
            i <= selectables.len(),
            values.len() == i,
            forall|j: int|
                0 <= j < i ==> (#[trigger] values@[j])@ == projected(
                    row@,
                    selectable_views(selectables@)[j],
                ),
        decreases selectables.len() - i,
    {
        let value = match &selectables[i] {
            Selectable::Column(name) => match row.get(name.as_str().as_bytes()) {
                Some(value) => value,
                None => Value::Null,
            },
            Selectable::CountStar => Value::Null,
        };
        values.push(value);
        i = i + 1;
    }
    proof {
        assert(value_views(values@) =~= projection(row@, selectable_views(selectables@)));
    }
    values
}

/// Runs `statement` on `database`.
///
/// Fails with the error of `select_error` where the statement does not fit
/// the schema, and with the error of the walk where the file does not
/// decode.
pub fn process_query(database: &Database, statement: &SelectStatement) -> (result: Result<
    QueryResult,
    Error,
>)
    ensures
        match query_of(
            database.file@,
            database.header.page_size,
            database.header.db_size_in_pages as nat,
            statement@,
        ) {
            Ok(expected) => result matches Ok(r) && r@ == expected,
            Err(e) => result == Err::<QueryResult, Error>(e),
        },
{
    let tables = list_tables(database)?;
    validate_select_statement(statement, &tables)?;
    let name: &String = match &statement.from_target {
        Targetable::TableOrView(name) => name,
        Targetable::Other(_) => {
            return Err(Error::Unsupported);
        },
    };
    let position: usize = match find_table(&tables, name.as_str().as_bytes()) {
        Some(position) => position,
        None => {
            return Err(Error::Unresolved);
        },
    };
    let table = &tables[position];
    assert(table@ == table_views(tables@)[position as int]);
    proof {
        assert(acceptance(statement) =~= conditions_filter(statement@.conditions));
    }
    let rows = database.traverse_btree_table(table.root_page, statement, table)?;
    let mut results: Vec<Vec<Value>> = Vec::new();
    if !expressions_contain_count(&statement.selectables) {
        let mut i: usize = 0;
        while i < rows.len()
            invariant
                i <= rows.len(),
                results.len() == i,
                forall|j: int|
                    0 <= j < i ==> value_views((#[trigger] results@[j])@) == projection(
                        rows@[j]@,
                        statement@.selectables,
                    ),
            decreases rows.len() - i,
        {
            let values = project_row(&rows[i], &statement.selectables);
            results.push(values);
            i = i + 1;
        }
    }
    proof {
        assert(result_views(results@) =~= result_of(
            row_views(rows@),
            statement@.selectables,
        ).results);
    }
    Ok(QueryResult { count: rows.len(), results })
}

/// What a command gives.
#[derive(Debug, Clone, PartialEq, Eq)]
pub enum CommandOutput {
    /// The page size of the database, and the number of its tables.
    DatabaseInformation { page_size: u32, number_of_tables: usize },
    /// The names of the tables, in the order of the schema.
    Tables(Vec<Vec<u8>>),
    /// The number of rows that a counting query found.
    Count(usize),
    /// The values that a query selected, row by row.
    Rows(Vec<Vec<Value>>),
}

/// What a `CommandOutput` holds.
pub enum CommandOutputView {
    DatabaseInformation { page_size: u32, number_of_tables: nat },
    Tables(Seq<Seq<u8>>),
    Count(nat),
    Rows(Seq<Seq<ValueView>>),
}

impl View for CommandOutput {
    type V = CommandOutputView;

    open spec fn view(&self) -> CommandOutputView {
        match self {
            CommandOutput::DatabaseInformation {
                page_size,
                number_of_tables,
            } => CommandOutputView::DatabaseInformation {
                page_size: *page_size,
                number_of_tables: *number_of_tables as nat,
            },
            CommandOutput::Tables(names) => CommandOutputView::Tables(byte_views(names@)),
            CommandOutput::Count(count) => CommandOutputView::Count(*count as nat),
            CommandOutput::Rows(rows) => CommandOutputView::Rows(result_views(rows@)),
        }
    }
}

/// The names of `tables`.
pub open spec fn names_of_tables(tables: Seq<TableInformationView>) -> Seq<Seq<u8>> {
    Seq::new(tables.len(), |i: int| tables[i].table_name)
}

/// What `statement` gives as a command's output on the database whose
/// file holds `file`: the count where it counts, the rows where it does
/// not.
pub open spec fn query_output_of(
    file: Seq<u8>,
    page_size: u32,
    limit: nat,
    statement: SelectStatementView,
) -> Result<CommandOutputView, Error> {
    match query_of(file, page_size, limit, statement) {
        Err(e) => Err(e),
        Ok(result) => if contains_count(statement.selectables) {
            Ok(CommandOutputView::Count(result.count))
        } else {
            Ok(CommandOutputView::Rows(result.results))
        },
    }
}

/// What `command` gives on the database whose file holds `file`.
///
/// A query is parsed before the file is looked at: a text that is no
/// statement gives `SqlParse` whatever the file holds. Then the header is
/// checked, and the command is answered from the schema and, for a query,
/// from the tree of its table.
pub open spec fn output_of(command: CommandView, file: Seq<u8>) -> Result<CommandOutputView, Error> {
    let header_error = if file.len() < 100 {
        Some(Error::ShortRead)
    } else {
        match header_fault(file) {
            Some(fault) => Some(Error::BadHeader(fault)),
            None => None,
        }
    };
    let page_size = effective_page_size(be_u16(file, 16)) as u32;
    let limit = be_u32(file, 28);
    match command {
        CommandView::Query { filename, query } => match statement_of(query) {
            None => Err(Error::SqlParse),
            Some(statement) => match header_error {
                Some(e) => Err(e),
                None => query_output_of(file, page_size, limit, statement),
            },
        },
        CommandView::DatabaseInformation { filename } => match header_error {
            Some(e) => Err(e),
            None => match schema_tables_of(file, page_size, limit) {
                Err(e) => Err(e),
                Ok(tables) => Ok(
                    CommandOutputView::DatabaseInformation {
                        page_size,
                        number_of_tables: tables.len(),
                    },
                ),
            },
        },
        CommandView::ListTables { filename } => match header_error {
            Some(e) => Err(e),
            None => match schema_tables_of(file, page_size, limit) {
                Err(e) => Err(e),
                Ok(tables) => Ok(CommandOutputView::Tables(names_of_tables(tables))),
            },
        },
    }
}

/// The page size of the database, and the number of its tables.
pub fn database_information(database: &Database) -> (result: Result<CommandOutput, Error>)
    ensures
        match schema_tables_of(
            database.file@,
            database.header.page_size,
            database.header.db_size_in_pages as nat,
        ) {
            Err(e) => result == Err::<CommandOutput, Error>(e),
            Ok(tables) => result matches Ok(output) && output@
                == (CommandOutputView::DatabaseInformation {
                page_size: database.header.page_size,
                number_of_tables: tables.len(),
            }),
        },
{
    let tables = list_tables(database)?;
    Ok(
        CommandOutput::DatabaseInformation {
            page_size: database.header.page_size,
            number_of_tables: tables.len(),
        },
    )
}

/// The names of the tables of the database.
pub fn table_names(database: &Database) -> (result: Result<CommandOutput, Error>)
    ensures
        match schema_tables_of(
            database.file@,
            database.header.page_size,
            database.header.db_size_in_pages as nat,
        ) {
            Err(e) => result == Err::<CommandOutput, Error>(e),
            Ok(tables) => result matches Ok(output) && output@ == CommandOutputView::Tables(
                names_of_tables(tables),
            ),
        },
{
    let tables = list_tables(database)?;
    let mut names: Vec<Vec<u8>> = Vec::new();
    let mut i: usize = 0;
    while i < tables.len()
        invariant
            i <= tables.len(),
            names.len() == i,
            forall|j: int| 0 <= j < i ==> (#[trigger] names@[j])@ == tables@[j]@.table_name,
        decreases tables.len() - i,
    {
        names.push(slice_to_vec(tables[i].table_name.as_slice()));
        i = i + 1;
    }
    proof {
        assert(byte_views(names@) =~= names_of_tables(table_views(tables@)));
    }
    Ok(CommandOutput::Tables(names))
}

/// Answers `command` from the database whose file holds the bytes `file`.
pub fn process_command(command: &Command, file: Vec<u8>) -> (result: Result<CommandOutput, Error>)
    ensures
        match output_of(command@, file@) {
            Ok(output) => result matches Ok(o) && o@ == output,
            Err(e) => result == Err::<CommandOutput, Error>(e),
        },
{
    match command {
        Command::DatabaseInformation { filename } => {
            let database = Database::init_from_file(file)?;
            database_information(&database)
        },
        Command::ListTables { filename } => {
            let database = Database::init_from_file(file)?;
            table_names(&database)
        },
        Command::Query { filename, query } => {
            let statement = select_statement(query.as_str())?;
            let database = Database::init_from_file(file)?;
            let counts: bool = expressions_contain_count(&statement.selectables);
            let result = process_query(&database, &statement)?;
            if counts {
                Ok(CommandOutput::Count(result.count))
            } else {
                Ok(CommandOutput::Rows(result.results))
            }
        },
    }
}

} // verus!
