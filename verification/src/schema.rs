//! The schema table and what it tells of the objects of the database.

use vstd::prelude::*;
use vstd::slice::slice_to_vec;
use vstd::utf8::encode_utf8;
use crate::ddl::{
    byte_views, column_names_of, parse_column_names_from_ddl, parse_rowid_alias_from_ddl,
    rowid_alias_of,
};
use crate::error::Error;
use crate::bytes::same_bytes;
use crate::row::{Row, RowView};
use crate::value::{integer_of, Value, ValueView};

verus! {

/// The kinds of object that the schema table lists.
#[derive(Debug, Clone, Copy, PartialEq, Eq, Structural)]
pub enum ObjectType {
    Table,
    Index,
    View,
    Trigger,
}

/// A row of the schema table: one object of the database.
#[derive(Debug, Clone, PartialEq, Eq)]
pub struct ObjectInformation {
    pub object_type: ObjectType,
    pub object_name: Vec<u8>,
    /// The table that the object belongs to; for a table, its own name.
    pub table_name: Vec<u8>,
    /// The root page of the object's B-tree; zero for an object without one.
    pub root_page: u32,
    /// The statement that created the object, where the schema holds one.
    pub object_ddl: Option<Vec<u8>>,
}

/// What an `ObjectInformation` holds.
pub struct ObjectInformationView {
    pub object_type: ObjectType,
    pub object_name: Seq<u8>,
    pub table_name: Seq<u8>,
    pub root_page: u32,
    pub object_ddl: Option<Seq<u8>>,
}

/// What `bytes` holds, where there are any.
pub open spec fn optional_bytes(bytes: Option<Vec<u8>>) -> Option<Seq<u8>> {
    match bytes {
        Some(b) => Some(b@),
        None => None,
    }
}

impl View for ObjectInformation {
    type V = ObjectInformationView;

    open spec fn view(&self) -> ObjectInformationView {
        ObjectInformationView {
            object_type: self.object_type,
            object_name: self.object_name@,
            table_name: self.table_name@,
            root_page: self.root_page,
            object_ddl: optional_bytes(self.object_ddl),
        }
    }
}

/// What the engine knows of a table: where its B-tree starts and how its
/// columns are called.
#[derive(Debug, Clone, PartialEq, Eq)]
pub struct TableInformation {
    pub table_name: Vec<u8>,
    pub root_page: u32,
    pub ddl: Option<Vec<u8>>,
    /// The names of the columns, in the order of their declaration.
    pub column_names: Vec<Vec<u8>>,
    /// The position of the column declared `INTEGER PRIMARY KEY`, which
    /// stands for the rowid.
    pub rowid_alias: Option<usize>,
}

/// What a `TableInformation` holds.
pub struct TableInformationView {
    pub table_name: Seq<u8>,
    pub root_page: u32,
    pub ddl: Option<Seq<u8>>,
    pub column_names: Seq<Seq<u8>>,
    pub rowid_alias: Option<usize>,
}

impl TableInformationView {
    /// Whether the rowid alias, where there is one, is one of the columns.
    pub open spec fn well_formed(self) -> bool {
        self.rowid_alias matches Some(position) ==> position < self.column_names.len()
    }
}

impl View for TableInformation {
    type V = TableInformationView;

    open spec fn view(&self) -> TableInformationView {
        TableInformationView {
            table_name: self.table_name@,
            root_page: self.root_page,
            ddl: optional_bytes(self.ddl),
            column_names: byte_views(self.column_names@),
            rowid_alias: self.rowid_alias,
        }
    }
}

/// The page at which the schema table starts.
pub const TABLE_SCHEMA_ROOT_PAGE_NUMBER: u32 = 1;

/// The columns of the schema table: `type`, `name`, `tbl_name`, `rootpage`
/// and `sql`.
pub open spec fn schema_column_names() -> Seq<Seq<u8>> {
    seq![
        encode_utf8("type"@),
        encode_utf8("name"@),
        encode_utf8("tbl_name"@),
        encode_utf8("rootpage"@),
        encode_utf8("sql"@),
    ]
}

/// What is known of the schema table itself.
pub open spec fn schema_table_view() -> TableInformationView {
    TableInformationView {
        table_name: encode_utf8("sqlite_schema"@),
        root_page: 1,
        ddl: None,
        column_names: schema_column_names(),
        rowid_alias: None,
    }
}

/// Describes the schema table: it starts at page 1 and has the columns
/// `type`, `name`, `tbl_name`, `rootpage` and `sql`.
pub fn schema_table_information() -> (information: TableInformation)
    ensures
        information@ == schema_table_view(),
        information@.well_formed(),
{
    let mut column_names: Vec<Vec<u8>> = Vec::new();
    column_names.push(slice_to_vec("type".as_bytes()));
    column_names.push(slice_to_vec("name".as_bytes()));
    column_names.push(slice_to_vec("tbl_name".as_bytes()));
    column_names.push(slice_to_vec("rootpage".as_bytes()));
    column_names.push(slice_to_vec("sql".as_bytes()));
    proof {
        assert(byte_views(column_names@) =~= schema_column_names());
    }
    TableInformation {
        table_name: slice_to_vec("sqlite_schema".as_bytes()),
        root_page: TABLE_SCHEMA_ROOT_PAGE_NUMBER,
        ddl: None,
        column_names,
        rowid_alias: None,
    }
}

/// The kind of object that the text `text` of the schema's `type` column
/// names.
pub open spec fn object_type_of(text: Seq<u8>) -> Option<ObjectType> {
    if text == encode_utf8("table"@) {
        Some(ObjectType::Table)
    } else if text == encode_utf8("index"@) {
        Some(ObjectType::Index)
    } else if text == encode_utf8("view"@) {
        Some(ObjectType::View)
    } else if text == encode_utf8("trigger"@) {
        Some(ObjectType::Trigger)
    } else {
        None
    }
}

/// The text that `value` holds, where it is a text.
pub open spec fn text_of(value: Option<ValueView>) -> Option<Seq<u8>> {
    match value {
        Some(ValueView::Text(bytes)) => Some(bytes),
        _ => None,
    }
}

/// The object that a row of the schema table describes.
///
/// `MalformedRecord` unless the row has a `type` that names a kind of
/// object, texts for `name` and `tbl_name`, an integer that is a page
/// number or zero for `rootpage`, and a text or a null for `sql`.
pub open spec fn object_of(row: RowView) -> Result<ObjectInformationView, Error> {
    let kind = text_of(row.get(encode_utf8("type"@)));
    let name = text_of(row.get(encode_utf8("name"@)));
    let table = text_of(row.get(encode_utf8("tbl_name"@)));
    let root = row.get(encode_utf8("rootpage"@));
    let sql = row.get(encode_utf8("sql"@));
    if kind.is_none() || object_type_of(kind.unwrap()).is_none() || name.is_none()
        || table.is_none() || root.is_none() || integer_of(root.unwrap()).is_none() || !(0
        <= integer_of(root.unwrap()).unwrap() <= u32::MAX) || !(sql == Some(ValueView::Null)
        || text_of(sql).is_some()) {
        Err(Error::MalformedRecord)
    } else {
        Ok(
            ObjectInformationView {
                object_type: object_type_of(kind.unwrap()).unwrap(),
                object_name: name.unwrap(),
                table_name: table.unwrap(),
                root_page: integer_of(root.unwrap()).unwrap() as u32,
                object_ddl: text_of(sql),
            },
        )
    }
}

/// What is known of the table that `object` describes: its name and root
/// page, and the names of its columns and its rowid alias as the statement
/// that created it declares them.
///
/// `Unresolved` where the object is no table; `UnparseableDDL` where the
/// schema holds no statement for it, or one without a block of column
/// definitions.
pub open spec fn table_of(object: ObjectInformationView) -> Result<TableInformationView, Error> {
    if object.object_type != ObjectType::Table {
        Err(Error::Unresolved)
    } else {
        match object.object_ddl {
            None => Err(Error::UnparseableDDL),
            Some(ddl) => match column_names_of(ddl) {
                Err(e) => Err(e),
                Ok(column_names) => Ok(
                    TableInformationView {
                        table_name: object.table_name,
                        root_page: object.root_page,
                        ddl: Some(ddl),
                        column_names,
                        rowid_alias: rowid_alias_of(ddl),
                    },
                ),
            },
        }
    }
}

/// The bytes of the text that `value` holds.
fn take_text(value: Option<Value>) -> (result: Option<Vec<u8>>)
    ensures
        match text_of(
            match value {
                Some(v) => Some(v@),
                None => None,
            },
        ) {
            Some(bytes) => result matches Some(b) && b@ == bytes,
            None => result.is_none(),
        },
{
    match value {
        Some(Value::Text(bytes)) => Some(bytes),
        _ => None,
    }
}

impl ObjectType {
    /// The kind of object that the text of the schema's `type` column
    /// names.
    pub fn from_text(text: &[u8]) -> (result: Option<ObjectType>)
        ensures
            result == object_type_of(text@),
    {
        if same_bytes(text, "table".as_bytes()) {
            Some(ObjectType::Table)
        } else if same_bytes(text, "index".as_bytes()) {
            Some(ObjectType::Index)
        } else if same_bytes(text, "view".as_bytes()) {
            Some(ObjectType::View)
        } else if same_bytes(text, "trigger".as_bytes()) {
            Some(ObjectType::Trigger)
        } else {
            None
        }
    }
}

impl ObjectInformation {
    /// Reads the object that a row of the schema table describes.
    pub fn from_row(row: &Row) -> (result: Result<ObjectInformation, Error>)
        ensures
            match object_of(row@) {
                Ok(object) => result matches Ok(o) && o@ == object,
                Err(e) => result == Err::<ObjectInformation, Error>(e),
            },
    {
        let kind = match take_text(row.get("type".as_bytes())) {
            Some(kind) => kind,
            None => {
                return Err(Error::MalformedRecord);
            },
        };
        let object_type = match ObjectType::from_text(kind.as_slice()) {
            Some(object_type) => object_type,
            None => {
                return Err(Error::MalformedRecord);
            },
        };
        let object_name = match take_text(row.get("name".as_bytes())) {
            Some(name) => name,
            None => {
                return Err(Error::MalformedRecord);
            },
        };
        let table_name = match take_text(row.get("tbl_name".as_bytes())) {
            Some(name) => name,
            None => {
                return Err(Error::MalformedRecord);
            },
        };
        let root: i64 = match row.get("rootpage".as_bytes()) {
            Some(value) => match value.as_integer() {
                Some(root) => root,
                None => {
                    return Err(Error::MalformedRecord);
                },
            },
            None => {
                return Err(Error::MalformedRecord);
            },
        };
        if root < 0 || root > 0xffff_ffff {
            return Err(Error::MalformedRecord);
        }
        let object_ddl = match row.get("sql".as_bytes()) {
            Some(Value::Null) => None,
            Some(Value::Text(bytes)) => Some(bytes),
            _ => {
                return Err(Error::MalformedRecord);
            },
        };
        Ok(
            ObjectInformation {
                object_type,
                object_name,
                table_name,
                root_page: root as u32,
                object_ddl,
            },
        )
    }
}

impl TableInformation {
    /// The offset in the file at which the root page of the table starts,
    /// where pages hold `page_size` bytes.
    pub fn root_page_offset(&self, page_size: u32) -> (offset: u64)
        requires
            self.root_page >= 1,
        ensures
            offset == (self.root_page - 1) * page_size,
    {
        let page_size: u64 = page_size as u64;
        assert((self.root_page - 1) * page_size <= 0xffff_ffff * 0xffff_ffff) by (nonlinear_arith)
            requires
                1 <= self.root_page <= 0xffff_ffff,
                0 <= page_size <= 0xffff_ffff,
        ;
        (self.root_page as u64 - 1) * page_size
    }

    /// Derives what is known of a table from its row of the schema table:
    /// its name, its root page, and the names of its columns, which the
    /// statement that created it gives.
    pub fn from_object(object: &ObjectInformation) -> (result: Result<TableInformation, Error>)
        ensures
            match table_of(object@) {
                Ok(table) => result matches Ok(t) && t@ == table && table.well_formed(),
                Err(e) => result == Err::<TableInformation, Error>(e),
            },
    {
        match object.object_type {
            ObjectType::Table => {},
            _ => {
                return Err(Error::Unresolved);
            },
        }
        let ddl: &Vec<u8> = match &object.object_ddl {
            Some(ddl) => ddl,
            None => {
                return Err(Error::UnparseableDDL);
            },
        };
        let column_names = parse_column_names_from_ddl(ddl.as_slice())?;
        let rowid_alias = parse_rowid_alias_from_ddl(ddl.as_slice());
        Ok(
            TableInformation {
                table_name: slice_to_vec(object.table_name.as_slice()),
                root_page: object.root_page,
                ddl: Some(slice_to_vec(ddl.as_slice())),
                column_names,
                rowid_alias,
            },
        )
    }
}

} // verus!
