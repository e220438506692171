//! Rows: the values of a record under the names of a table's columns.

use vstd::prelude::*;
use vstd::slice::slice_to_vec;
use vstd::utf8::encode_utf8;
use crate::bytes::same_bytes;
use crate::cell::{CellType, CellView};
use crate::ddl::byte_views;
use crate::error::{Error, TreeFault};
use crate::record::{parse_record, record_of};
use crate::value::{Value, ValueView};

verus! {

/// A column of a row: its name and its value.
#[derive(Debug, Clone, PartialEq, Eq)]
pub struct Column {
    pub name: Vec<u8>,
    pub value: Value,
}

/// What a `Column` holds.
pub struct ColumnView {
    pub name: Seq<u8>,
    pub value: ValueView,
}

impl View for Column {
    type V = ColumnView;

    open spec fn view(&self) -> ColumnView {
        ColumnView { name: self.name@, value: self.value@ }
    }
}

/// A row of a table: the key of its cell, and its columns in the order in
/// which the table declares them.
#[derive(Debug, Clone, PartialEq, Eq)]
pub struct Row {
    pub rowid: u64,
    pub columns: Vec<Column>,
}

/// What a `Row` holds.
pub struct RowView {
    pub rowid: u64,
    pub columns: Seq<ColumnView>,
}

/// What each of `columns` holds.
pub open spec fn column_views(columns: Seq<Column>) -> Seq<ColumnView> {
    Seq::new(columns.len(), |i: int| columns[i]@)
}

/// What each of `rows` holds.
pub open spec fn row_views(rows: Seq<Row>) -> Seq<RowView> {
    Seq::new(rows.len(), |i: int| rows[i]@)
}

impl View for Row {
    type V = RowView;

    open spec fn view(&self) -> RowView {
        RowView { rowid: self.rowid, columns: column_views(self.columns@) }
    }
}

/// The bytes of the name `rowid`, under which every row gives its key.
pub open spec fn rowid_name() -> Seq<u8> {
    encode_utf8("rowid"@)
}

/// The key `rowid` as the signed number that its 64 bits spell in two's
/// complement.
pub open spec fn signed_key(rowid: u64) -> i64 {
    if rowid < 0x8000_0000_0000_0000 {
        rowid as i64
    } else {
        (rowid - 0x1_0000_0000_0000_0000) as i64
    }
}

/// The value of the last of the first `upto` of `columns` that has the
/// name `name`.
pub open spec fn lookup(columns: Seq<ColumnView>, name: Seq<u8>, upto: int) -> Option<ValueView>
    decreases upto,
{
    if upto <= 0 {
        None
    } else if columns[upto - 1].name == name {
        Some(columns[upto - 1].value)
    } else {
        lookup(columns, name, upto - 1)
    }
}

impl RowView {
    /// The value that the row has under `name`: that of its last column of
    /// that name; the key of the row for `rowid`, where no column has that
    /// name; `None` for any other name.
    pub open spec fn get(self, name: Seq<u8>) -> Option<ValueView> {
        match lookup(self.columns, name, self.columns.len() as int) {
            Some(value) => Some(value),
            None => if name == rowid_name() {
                Some(ValueView::Int64(signed_key(self.rowid)))
            } else {
                None
            },
        }
    }
}

/// The columns of a row with the key `rowid` whose record holds `values`,
/// in a table that declares the columns `names`: one for each name. The
/// column at `alias` has the key for its value, whatever the record holds
/// there; a column for which the record has no value is null; a value
/// without a name is left out.
pub open spec fn columns_of(
    names: Seq<Seq<u8>>,
    values: Seq<ValueView>,
    rowid: u64,
    alias: Option<usize>,
) -> Seq<ColumnView> {
    Seq::new(
        names.len(),
        |i: int|
            ColumnView {
                name: names[i],
                value: if alias == Some(i as usize) {
                    ValueView::Int64(signed_key(rowid))
                } else if i < values.len() {
                    values[i]
                } else {
                    ValueView::Null
                },
            },
    )
}

/// The row that a table leaf cell holds, in a table that declares the
/// columns `names` with the rowid alias `alias`. `CorruptTree` for a cell
/// of another kind.
pub open spec fn row_of(cell: CellView, names: Seq<Seq<u8>>, alias: Option<usize>) -> Result<
    RowView,
    Error,
> {
    match cell {
        CellView::TableLeaf { key, payload, .. } => match record_of(payload) {
            Err(e) => Err(e),
            Ok(record) => Ok(
                RowView { rowid: key, columns: columns_of(names, record.values, key, alias) },
            ),
        },
        _ => Err(Error::CorruptTree(TreeFault::PageKind)),
    }
}

/// In every row, the column that the table declares `INTEGER PRIMARY KEY`
/// has the key of the row's cell for its value.
pub proof fn lemma_rowid_projection(
    cell: CellView,
    names: Seq<Seq<u8>>,
    alias: usize,
)
    requires
        alias < names.len(),
        row_of(cell, names, Some(alias)).is_ok(),
    ensures
        cell matches CellView::TableLeaf { key, .. } && row_of(
            cell,
            names,
            Some(alias),
        ).unwrap().columns[alias as int] == (ColumnView {
            name: names[alias as int],
            value: ValueView::Int64(signed_key(key)),
        }),
{
}

impl Row {
    /// Makes a row of its key and its columns.
    pub fn new(rowid: u64, columns: Vec<Column>) -> (row: Row)
        ensures
            row.rowid == rowid,
            row.columns == columns,
    {
        Row { rowid, columns }
    }

    /// The value that the row has under `name`: see `RowView::get`.
    pub fn get(&self, name: &[u8]) -> (result: Option<Value>)
        ensures
            match self@.get(name@) {
                Some(value) => result matches Some(v) && v@ == value,
                None => result.is_none(),
            },
    {
        let mut i: usize = self.columns.len();
        while i > 0
            invariant
                i <= self.columns.len(),
                lookup(self@.columns, name@, self@.columns.len() as int) == lookup(
                    self@.columns,
                    name@,
                    i as int,
                ),
            decreases i,
        {
            if same_bytes(self.columns[i - 1].name.as_slice(), name) {
                return Some(self.columns[i - 1].value.copy());
            }
            i = i - 1;
        }
        if same_bytes(name, "rowid".as_bytes()) {
            Some(Value::Int64(key_value(self.rowid)))
        } else {
            None
        }
    }
}

/// The key `rowid` as the signed number that its 64 bits spell.
pub fn key_value(rowid: u64) -> (value: i64)
    ensures
        value == signed_key(rowid),
{
    if rowid <= 0x7fff_ffff_ffff_ffff {
        rowid as i64
    } else {
        let low: u64 = rowid - 0x8000_0000_0000_0000;
        (low as i64) + i64::MIN
    }
}

/// Assembles the row of a table leaf cell, pairing the names of
/// `column_names` with the values of the cell's record and giving the
/// column at `rowid_alias` the key of the cell.
pub fn cell_to_row(
    cell: &CellType,
    column_names: &Vec<Vec<u8>>,
    rowid_alias: Option<usize>,
) -> (result: Result<Row, Error>)
    ensures
        match row_of(cell@, byte_views(column_names@), rowid_alias) {
            Ok(row) => result matches Ok(r) && r@ == row,
            Err(e) => result == Err::<Row, Error>(e),
        },
{
    match cell {
        CellType::TableLeaf(leaf) => {
            let record = parse_record(leaf.payload.content.as_slice())?;
            let ghost names = byte_views(column_names@);
            let ghost values = record@.values;
            let ghost expected = columns_of(names, values, leaf.key, rowid_alias);
            let count: usize = column_names.len();
            let mut columns: Vec<Column> = Vec::new();
            let mut i: usize = 0;
            while i < count
                invariant
                    i <= count,
                    count == column_names.len(),
                    columns.len() == i,
                    names == byte_views(column_names@),
                    values == record@.values,
                    expected == columns_of(names, values, leaf.key, rowid_alias),
                    expected.len() == count,
                    forall|j: int| 0 <= j < i ==> (#[trigger] columns@[j])@ == expected[j],
                decreases count - i,
            {
                let value = if rowid_alias == Some(i) {
                    Value::Int64(key_value(leaf.key))
                } else if i < record.values.len() {
                    record.values[i].copy()
                } else {
                    Value::Null
                };
                let name = slice_to_vec(column_names[i].as_slice());
                columns.push(Column { name, value });
                i = i + 1;
            }
            proof {
                assert(column_views(columns@) =~= expected);
            }
            Ok(Row::new(leaf.key, columns))
        },
        _ => Err(Error::CorruptTree(TreeFault::PageKind)),
    }
}

} // verus!
