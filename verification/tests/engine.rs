use sqlite_reader::cli::Command;
use sqlite_reader::database::Database;
use sqlite_reader::engine::{
    expressions_contain_count, list_schema_objects, list_tables, process_command, process_query,
    validate_statement, CommandOutput, QueryResult,
};
use sqlite_reader::error::{Error, HeaderFault, TreeFault};
use sqlite_reader::predicate::Filter;
use sqlite_reader::schema::{schema_table_information, ObjectType, TableInformation};
use sqlite_reader::value::Value;
use sqlite_reader::sql::{
    Condition, CreateTableStatement, SelectStatement, Selectable, Statement, Targetable,
};
use sqlite_reader::varint::encode_varint;

const PAGE_SIZE: usize = 4096;

enum Field {
    Null,
    Int(i64),
    Text(&'static str),
    Blob(&'static [u8]),
}

fn record(fields: &[Field]) -> Vec<u8> {
    let mut types: Vec<u8> = Vec::new();
    let mut body: Vec<u8> = Vec::new();
    for field in fields {
        match field {
            Field::Null => types.extend(encode_varint(0)),
            Field::Int(value) => {
                if *value == 0 {
                    types.extend(encode_varint(8));
                } else if *value == 1 {
                    types.extend(encode_varint(9));
                } else if -128 <= *value && *value <= 127 {
                    types.extend(encode_varint(1));
                    body.extend_from_slice(&(*value as i8).to_be_bytes());
                } else if -32768 <= *value && *value <= 32767 {
                    types.extend(encode_varint(2));
                    body.extend_from_slice(&(*value as i16).to_be_bytes());
                } else {
                    types.extend(encode_varint(6));
                    body.extend_from_slice(&value.to_be_bytes());
                }
            }
            Field::Text(text) => {
                types.extend(encode_varint(13 + 2 * text.len() as u64));
                body.extend_from_slice(text.as_bytes());
            }
            Field::Blob(bytes) => {
                types.extend(encode_varint(12 + 2 * bytes.len() as u64));
                body.extend_from_slice(bytes);
            }
        }
    }
    let mut payload = encode_varint(types.len() as u64 + 1);
    assert_eq!(payload.len(), 1);
    payload.extend(types);
    payload.extend(body);
    payload
}

fn leaf_cell(rowid: u64, fields: &[Field]) -> Vec<u8> {
    let payload = record(fields);
    let mut cell = encode_varint(payload.len() as u64);
    cell.extend(encode_varint(rowid));
    cell.extend(payload);
    cell
}

fn interior_cell(left_child: u32, key: u64) -> Vec<u8> {
    let mut cell = left_child.to_be_bytes().to_vec();
    cell.extend(encode_varint(key));
    cell
}

/// Lays out a B-tree page: the header at `start`, the pointers behind it,
/// and the cells from the end of the page down, the first cell last.
fn btree_page(tag: u8, right_most: Option<u32>, cells: &[Vec<u8>], start: usize) -> Vec<u8> {
    let mut page = vec![0u8; PAGE_SIZE];
    let mut content = PAGE_SIZE;
    let mut pointers: Vec<u16> = Vec::new();
    for cell in cells {
        content -= cell.len();
        page[content..content + cell.len()].copy_from_slice(cell);
        pointers.push(content as u16);
    }
    page[start] = tag;
    page[start + 3..start + 5].copy_from_slice(&(cells.len() as u16).to_be_bytes());
    page[start + 5..start + 7].copy_from_slice(&(content as u16).to_be_bytes());
    let mut at = start + 8;
    if let Some(pointer) = right_most {
        page[start + 8..start + 12].copy_from_slice(&pointer.to_be_bytes());
        at = start + 12;
    }
    for pointer in pointers {
        page[at..at + 2].copy_from_slice(&pointer.to_be_bytes());
        at += 2;
    }
    assert!(at <= content);
    page
}

fn leaf_page(cells: &[Vec<u8>]) -> Vec<u8> {
    btree_page(0x0d, None, cells, 0)
}

fn interior_page(cells: &[Vec<u8>], right_most: u32) -> Vec<u8> {
    btree_page(0x05, Some(right_most), cells, 0)
}

fn file_header(pages: u32) -> Vec<u8> {
    let mut bytes = vec![0u8; 100];
    bytes[..16].copy_from_slice(b"SQLite format 3\0");
    bytes[16..18].copy_from_slice(&(PAGE_SIZE as u16).to_be_bytes());
    bytes[18] = 1;
    bytes[19] = 1;
    bytes[21] = 64;
    bytes[22] = 32;
    bytes[23] = 32;
    bytes[28..32].copy_from_slice(&pages.to_be_bytes());
    bytes[44..48].copy_from_slice(&4u32.to_be_bytes());
    bytes[56..60].copy_from_slice(&1u32.to_be_bytes());
    bytes
}

fn schema_row(rowid: u64, kind: &'static str, name: &'static str, root: i64, sql: &'static str) -> Vec<u8> {
    leaf_cell(
        rowid,
        &[Field::Text(kind), Field::Text(name), Field::Text(name), Field::Int(root), Field::Text(sql)],
    )
}

/// Puts the pages behind one another, the schema page first, with the
/// file header at its start.
fn database_file(schema_cells: &[Vec<u8>], pages: Vec<Vec<u8>>) -> Vec<u8> {
    let mut first = btree_page(0x0d, None, schema_cells, 100);
    first[..100].copy_from_slice(&file_header(pages.len() as u32 + 1));
    let mut file = first;
    for page in pages {
        assert_eq!(page.len(), PAGE_SIZE);
        file.extend(page);
    }
    file
}

const APPLES_DDL: &str =
    "CREATE TABLE apples\n(\n\tid integer primary key autoincrement,\n\tname text,\n\tcolor text\n)";
const ORANGES_DDL: &str =
    "CREATE TABLE oranges\n(\n\tid integer primary key autoincrement,\n\tname text,\n\tdescription text\n)";
const PEARS_DDL: &str = "CREATE TABLE pears (name text, weight integer)";

fn apple(rowid: u64, name: &'static str, color: Field) -> Vec<u8> {
    leaf_cell(rowid, &[Field::Null, Field::Text(name), color])
}

/// Three tables: `apples` with four rows on page 2, `oranges` spread over
/// the pages 3 to 6, and `pears` without rows on page 7.
fn sample_database() -> Vec<u8> {
    let schema = vec![
        schema_row(1, "table", "apples", 2, APPLES_DDL),
        schema_row(2, "table", "oranges", 3, ORANGES_DDL),
        schema_row(3, "table", "pears", 7, PEARS_DDL),
    ];
    let apples = leaf_page(&[
        apple(1, "Granny Smith", Field::Text("Light Green")),
        apple(2, "Fuji", Field::Text("Red")),
        apple(3, "Honeycrisp", Field::Text("Blush Red")),
        apple(4, "Golden Delicious", Field::Text("Yellow")),
    ]);
    let oranges_root = interior_page(&[interior_cell(4, 2), interior_cell(5, 4)], 6);
    let oranges_left = leaf_page(&[
        leaf_cell(1, &[Field::Null, Field::Text("Mandarin"), Field::Text("great for snacking")]),
        leaf_cell(2, &[Field::Null, Field::Text("Tangelo"), Field::Text("sweet and tart")]),
    ]);
    let oranges_middle = leaf_page(&[
        leaf_cell(3, &[Field::Null, Field::Text("Tangerine"), Field::Text("sweet")]),
        leaf_cell(4, &[Field::Null, Field::Text("Clementine"), Field::Null]),
    ]);
    let oranges_right = leaf_page(&[
        leaf_cell(5, &[Field::Null, Field::Text("Valencia"), Field::Text("sweet")]),
    ]);
    let pears = leaf_page(&[]);
    database_file(
        &schema,
        vec![apples, oranges_root, oranges_left, oranges_middle, oranges_right, pears],
    )
}

fn text(value: &str) -> Value {
    Value::Text(value.as_bytes().to_vec())
}

fn select(columns: &[&str], table: &str, conditions: &[(&str, &str)]) -> SelectStatement {
    SelectStatement {
        selectables: columns
            .iter()
            .map(|c| {
                if *c == "COUNT(*)" {
                    Selectable::CountStar
                } else {
                    Selectable::Column(c.to_string())
                }
            })
            .collect(),
        from_target: Targetable::TableOrView(table.to_string()),
        conditions: conditions
            .iter()
            .map(|(column, value)| Condition { column: column.to_string(), value: value.to_string() })
            .collect(),
    }
}

fn command(text: &str) -> Command {
    match text {
        ".dbinfo" => Command::DatabaseInformation { filename: String::from("sample.db") },
        ".tables" => Command::ListTables { filename: String::from("sample.db") },
        query => Command::Query { filename: String::from("sample.db"), query: query.to_string() },
    }
}

#[test]
fn dbinfo_gives_page_size_and_number_of_tables() {
    assert_eq!(
        process_command(&command(".dbinfo"), sample_database()),
        Ok(CommandOutput::DatabaseInformation { page_size: 4096, number_of_tables: 3 })
    );
}

#[test]
fn tables_gives_the_table_names() {
    assert_eq!(
        process_command(&command(".tables"), sample_database()),
        Ok(CommandOutput::Tables(vec![
            b"apples".to_vec(),
            b"oranges".to_vec(),
            b"pears".to_vec()
        ]))
    );
}

#[test]
fn count_star_counts_the_rows() {
    assert_eq!(
        process_command(&command("SELECT COUNT(*) FROM apples"), sample_database()),
        Ok(CommandOutput::Count(4))
    );
    assert_eq!(
        process_command(&command("SELECT COUNT(*) FROM oranges"), sample_database()),
        Ok(CommandOutput::Count(5))
    );
    assert_eq!(
        process_command(&command("SELECT COUNT(*) FROM pears"), sample_database()),
        Ok(CommandOutput::Count(0))
    );
    assert_eq!(
        process_command(&command("select count(*) from apples where color = 'Red'"), sample_database()),
        Ok(CommandOutput::Count(1))
    );
}

#[test]
fn select_gives_rows_in_insertion_order() {
    let schema = vec![schema_row(1, "table", "apples", 2, APPLES_DDL)];
    let apples = leaf_page(&[
        apple(1, "Granny Smith", Field::Text("Light Green")),
        apple(2, "Fuji", Field::Text("Red")),
        apple(3, "Honeycrisp", Field::Text("Blush Red")),
    ]);
    let file = database_file(&schema, vec![apples]);
    assert_eq!(
        process_command(&command("SELECT name FROM apples"), file),
        Ok(CommandOutput::Rows(vec![
            vec![text("Granny Smith")],
            vec![text("Fuji")],
            vec![text("Honeycrisp")]
        ]))
    );
}

#[test]
fn where_filters_byte_for_byte() {
    let schema = vec![schema_row(1, "table", "apples", 2, APPLES_DDL)];
    let apples = leaf_page(&[
        apple(1, "Granny Smith", Field::Text("Light Green")),
        apple(2, "Golden Delicious", Field::Text("Yellow")),
        apple(3, "Unknown", Field::Null),
        apple(4, "Lemon Apple", Field::Text("yellow")),
        apple(5, "Opal", Field::Text("Yellow")),
        apple(6, "Shizuka", Field::Text("Yellow ")),
    ]);
    let file = database_file(&schema, vec![apples]);
    assert_eq!(
        process_command(&command("SELECT name, color FROM apples WHERE color = 'Yellow'"), file),
        Ok(CommandOutput::Rows(vec![
            vec![text("Golden Delicious"), text("Yellow")],
            vec![text("Opal"), text("Yellow")]
        ]))
    );
}

#[test]
fn cell_that_points_to_its_own_page_is_a_corrupt_tree() {
    let schema = vec![schema_row(1, "table", "apples", 2, APPLES_DDL)];
    let looping = interior_page(&[interior_cell(2, 1)], 3);
    let leaf = leaf_page(&[apple(1, "Fuji", Field::Text("Red"))]);
    let file = database_file(&schema, vec![looping, leaf]);
    assert_eq!(
        process_command(&command("SELECT name FROM apples"), file.clone()),
        Err(Error::CorruptTree(TreeFault::Cycle))
    );
    let database = Database::init_from_file(file).unwrap();
    let tables = list_tables(&database).unwrap();
    assert_eq!(
        database.traverse_btree_table(2, &true, &tables[0]),
        Err(Error::CorruptTree(TreeFault::Cycle))
    );
}

#[test]
fn walk_visits_every_row_once_from_left_to_right() {
    let database = Database::init_from_file(sample_database()).unwrap();
    let tables = list_tables(&database).unwrap();
    let oranges = &tables[1];
    let rows = database.traverse_btree_table(oranges.root_page, &true, oranges).unwrap();
    let rowids: Vec<u64> = rows.iter().map(|row| row.rowid).collect();
    assert_eq!(rowids, vec![1, 2, 3, 4, 5]);
    let names: Vec<Value> = rows.iter().map(|row| row.columns[1].value.clone()).collect();
    assert_eq!(
        names,
        vec![text("Mandarin"), text("Tangelo"), text("Tangerine"), text("Clementine"), text("Valencia")]
    );
    assert_eq!(database.traverse_btree_table(oranges.root_page, &false, oranges), Ok(vec![]));
}

#[test]
fn walk_does_not_rely_on_the_order_of_the_cell_offsets() {
    let schema = vec![schema_row(1, "table", "apples", 2, APPLES_DDL)];
    let mut apples = leaf_page(&[
        apple(1, "Granny Smith", Field::Text("Light Green")),
        apple(2, "Fuji", Field::Text("Red")),
        apple(3, "Honeycrisp", Field::Text("Blush Red")),
    ]);
    // swap the first and the last pointer: the cells now come in the order 3, 2, 1
    let first = [apples[8], apples[9]];
    let last = [apples[12], apples[13]];
    apples[8..10].copy_from_slice(&last);
    apples[12..14].copy_from_slice(&first);
    let file = database_file(&schema, vec![apples]);
    assert_eq!(
        process_command(&command("SELECT id, name FROM apples"), file),
        Ok(CommandOutput::Rows(vec![
            vec![Value::Int64(3), text("Honeycrisp")],
            vec![Value::Int64(2), text("Fuji")],
            vec![Value::Int64(1), text("Granny Smith")]
        ]))
    );
}

#[test]
fn integer_primary_key_is_the_rowid() {
    let database = Database::init_from_file(sample_database()).unwrap();
    let tables = list_tables(&database).unwrap();
    assert_eq!(tables[0].rowid_alias, Some(0));
    assert_eq!(tables[2].rowid_alias, None);
    let rows = database.traverse_btree_table(tables[0].root_page, &true, &tables[0]).unwrap();
    assert_eq!(rows.len(), 4);
    for row in rows.iter() {
        assert_eq!(row.columns[0].name, b"id".to_vec());
        assert_eq!(row.columns[0].value, Value::Int64(row.rowid as i64));
        assert_eq!(row.get(b"id"), Some(Value::Int64(row.rowid as i64)));
        assert_eq!(row.get(b"rowid"), Some(Value::Int64(row.rowid as i64)));
        assert_eq!(row.get(b"missing"), None);
    }
    assert_eq!(
        process_query(&database, &select(&["id", "name"], "apples", &[("id", "3")])),
        Ok(QueryResult { count: 1, results: vec![vec![Value::Int64(3), text("Honeycrisp")]] })
    );
}

#[test]
fn schema_objects_are_listed() {
    let schema = vec![
        schema_row(1, "table", "apples", 2, APPLES_DDL),
        leaf_cell(
            2,
            &[
                Field::Text("index"),
                Field::Text("idx_apples_name"),
                Field::Text("apples"),
                Field::Int(3),
                Field::Text("CREATE INDEX idx_apples_name ON apples (name)"),
            ],
        ),
        leaf_cell(
            3,
            &[
                Field::Text("index"),
                Field::Text("sqlite_autoindex_apples_1"),
                Field::Text("apples"),
                Field::Int(300),
                Field::Null,
            ],
        ),
        leaf_cell(
            4,
            &[
                Field::Text("view"),
                Field::Text("red_apples"),
                Field::Text("red_apples"),
                Field::Int(0),
                Field::Text("CREATE VIEW red_apples AS SELECT name FROM apples"),
            ],
        ),
        leaf_cell(
            5,
            &[
                Field::Text("trigger"),
                Field::Text("on_apple"),
                Field::Text("apples"),
                Field::Int(0),
                Field::Text("CREATE TRIGGER on_apple AFTER INSERT ON apples BEGIN SELECT 1; END"),
            ],
        ),
    ];
    let file = database_file(&schema, vec![leaf_page(&[]), leaf_page(&[])]);
    let database = Database::init_from_file(file).unwrap();
    let objects = list_schema_objects(&database).unwrap();
    let kinds: Vec<ObjectType> = objects.iter().map(|o| o.object_type).collect();
    assert_eq!(
        kinds,
        vec![ObjectType::Table, ObjectType::Index, ObjectType::Index, ObjectType::View, ObjectType::Trigger]
    );
    assert_eq!(objects[1].object_name, b"idx_apples_name".to_vec());
    assert_eq!(objects[1].table_name, b"apples".to_vec());
    assert_eq!(objects[1].root_page, 3);
    assert_eq!(objects[2].root_page, 300);
    assert_eq!(objects[2].object_ddl, None);
    assert_eq!(objects[3].root_page, 0);
    assert_eq!(objects[0].object_ddl, Some(APPLES_DDL.as_bytes().to_vec()));
    let tables = list_tables(&database).unwrap();
    assert_eq!(
        tables,
        vec![TableInformation {
            table_name: b"apples".to_vec(),
            root_page: 2,
            ddl: Some(APPLES_DDL.as_bytes().to_vec()),
            column_names: vec![b"id".to_vec(), b"name".to_vec(), b"color".to_vec()],
            rowid_alias: Some(0),
        }]
    );
}

#[test]
fn schema_table_is_described() {
    let schema = schema_table_information();
    assert_eq!(schema.table_name, b"sqlite_schema".to_vec());
    assert_eq!(schema.root_page, 1);
    assert_eq!(schema.ddl, None);
    assert_eq!(
        schema.column_names,
        vec![
            b"type".to_vec(),
            b"name".to_vec(),
            b"tbl_name".to_vec(),
            b"rootpage".to_vec(),
            b"sql".to_vec()
        ]
    );
    assert_eq!(schema.rowid_alias, None);
}

#[test]
fn schema_row_of_a_wrong_shape_is_malformed() {
    let rows: Vec<Vec<u8>> = vec![
        leaf_cell(1, &[Field::Text("sequence"), Field::Text("a"), Field::Text("a"), Field::Int(2), Field::Null]),
        leaf_cell(1, &[Field::Null, Field::Text("a"), Field::Text("a"), Field::Int(2), Field::Null]),
        leaf_cell(1, &[Field::Text("table"), Field::Int(5), Field::Text("a"), Field::Int(2), Field::Null]),
        leaf_cell(1, &[Field::Text("table"), Field::Text("a"), Field::Null, Field::Int(2), Field::Null]),
        leaf_cell(1, &[Field::Text("table"), Field::Text("a"), Field::Text("a"), Field::Text("2"), Field::Null]),
        leaf_cell(1, &[Field::Text("table"), Field::Text("a"), Field::Text("a"), Field::Int(-1), Field::Null]),
        leaf_cell(1, &[Field::Text("table"), Field::Text("a"), Field::Text("a"), Field::Int(1 << 32), Field::Null]),
        leaf_cell(1, &[Field::Text("table"), Field::Text("a"), Field::Text("a"), Field::Int(2), Field::Int(7)]),
        leaf_cell(1, &[Field::Text("table"), Field::Text("a"), Field::Text("a")]),
    ];
    for row in rows {
        let file = database_file(&[row], vec![leaf_page(&[])]);
        let database = Database::init_from_file(file).unwrap();
        assert_eq!(list_schema_objects(&database), Err(Error::MalformedRecord));
    }
}

#[test]
fn table_without_column_block_is_unparseable() {
    let no_block = database_file(
        &[schema_row(1, "table", "apples", 2, "CREATE TABLE apples")],
        vec![leaf_page(&[])],
    );
    let database = Database::init_from_file(no_block).unwrap();
    assert_eq!(list_tables(&database), Err(Error::UnparseableDDL));
    let no_sql = database_file(
        &[leaf_cell(
            1,
            &[Field::Text("table"), Field::Text("a"), Field::Text("a"), Field::Int(2), Field::Null],
        )],
        vec![leaf_page(&[])],
    );
    assert_eq!(process_command(&command(".tables"), no_sql), Err(Error::UnparseableDDL));
}

#[test]
fn statements_are_validated() {
    let database = Database::init_from_file(sample_database()).unwrap();
    let tables = list_tables(&database).unwrap();
    let check = |statement: SelectStatement| {
        validate_statement(&Statement::SelectStatement(statement), &tables)
    };
    assert_eq!(check(select(&["name", "color"], "apples", &[("color", "Red")])), Ok(true));
    assert_eq!(check(select(&["COUNT(*)"], "pears", &[])), Ok(true));
    assert_eq!(check(select(&[], "apples", &[])), Err(Error::SqlParse));
    assert_eq!(check(select(&["name"], "bananas", &[])), Err(Error::Unresolved));
    assert_eq!(check(select(&["name"], "Apples", &[])), Err(Error::Unresolved));
    assert_eq!(check(select(&["weight"], "apples", &[])), Err(Error::Unresolved));
    assert_eq!(check(select(&["rowid"], "apples", &[])), Err(Error::Unresolved));
    assert_eq!(check(select(&["name"], "apples", &[("weight", "1")])), Err(Error::Unresolved));
    assert_eq!(check(select(&["COUNT(*)", "name"], "apples", &[])), Err(Error::Unsupported));
    assert_eq!(check(select(&["COUNT(*)", "COUNT(*)"], "apples", &[])), Err(Error::Unsupported));
    let mut other = select(&["name"], "apples", &[]);
    other.from_target = Targetable::Other(String::from("apples"));
    assert_eq!(check(other), Err(Error::Unsupported));
    let create = |name: &str, columns: &[&str]| {
        validate_statement(
            &Statement::CreateTableStatement(CreateTableStatement {
                table_name: name.to_string(),
                columns: columns.iter().map(|c| c.to_string()).collect(),
            }),
            &tables,
        )
    };
    assert_eq!(create("plums", &["id"]), Ok(true));
    assert_eq!(create("", &["id"]), Err(Error::SqlParse));
    assert_eq!(create("plums", &[]), Err(Error::SqlParse));
}

#[test]
fn count_is_recognized_among_selectables() {
    assert!(expressions_contain_count(&vec![Selectable::CountStar]));
    assert!(expressions_contain_count(&vec![
        Selectable::Column(String::from("count")),
        Selectable::CountStar
    ]));
    assert!(!expressions_contain_count(&vec![Selectable::Column(String::from("count"))]));
    assert!(!expressions_contain_count(&vec![]));
}

#[test]
fn query_results() {
    let database = Database::init_from_file(sample_database()).unwrap();
    assert_eq!(
        process_query(&database, &select(&["COUNT(*)"], "oranges", &[("description", "sweet")])),
        Ok(QueryResult { count: 2, results: vec![] })
    );
    assert_eq!(
        process_query(&database, &select(&["description", "id", "name"], "oranges", &[("description", "sweet")])),
        Ok(QueryResult {
            count: 2,
            results: vec![
                vec![text("sweet"), Value::Int64(3), text("Tangerine")],
                vec![text("sweet"), Value::Int64(5), text("Valencia")]
            ]
        })
    );
    assert_eq!(
        process_query(
            &database,
            &select(&["name"], "oranges", &[("description", "sweet"), ("name", "Valencia")])
        ),
        Ok(QueryResult { count: 1, results: vec![vec![text("Valencia")]] })
    );
    assert_eq!(
        process_query(&database, &select(&["name", "description"], "oranges", &[("name", "Clementine")])),
        Ok(QueryResult { count: 1, results: vec![vec![text("Clementine"), Value::Null]] })
    );
    assert_eq!(
        process_query(&database, &select(&["name"], "bananas", &[])),
        Err(Error::Unresolved)
    );
}

#[test]
fn statement_filters_rows() {
    let database = Database::init_from_file(sample_database()).unwrap();
    let tables = list_tables(&database).unwrap();
    let rows = database.traverse_btree_table(2, &true, &tables[0]).unwrap();
    let red = select(&["name"], "apples", &[("color", "Red")]);
    let accepted: Vec<bool> = rows.iter().map(|row| red.evaluate(row)).collect();
    assert_eq!(accepted, vec![false, true, false, false]);
    let none = select(&["name"], "apples", &[]);
    assert!(rows.iter().all(|row| none.evaluate(row)));
    let missing = select(&["name"], "apples", &[("weight", "1")]);
    assert!(rows.iter().all(|row| !missing.evaluate(row)));
    assert!(rows.iter().all(|row| true.evaluate(row)));
    assert!(rows.iter().all(|row| !false.evaluate(row)));
}

#[test]
fn query_that_is_no_statement_fails_before_the_file_is_read() {
    assert_eq!(process_command(&command("SELECT * FROM apples"), vec![]), Err(Error::SqlParse));
    assert_eq!(process_command(&command("SELECT name FROM apples"), vec![]), Err(Error::ShortRead));
    assert_eq!(process_command(&command(".dbinfo"), vec![0u8; 99]), Err(Error::ShortRead));
    assert_eq!(
        process_command(&command(".tables"), vec![0u8; 4096]),
        Err(Error::BadHeader(HeaderFault::Magic))
    );
}

#[test]
fn file_that_ends_within_a_page_is_a_short_read() {
    let mut file = sample_database();
    file.truncate(2 * PAGE_SIZE - 1);
    assert_eq!(
        process_command(&command("SELECT name FROM apples"), file.clone()),
        Err(Error::ShortRead)
    );
    file.truncate(PAGE_SIZE - 1);
    assert_eq!(process_command(&command(".tables"), file), Err(Error::ShortRead));
}

#[test]
fn tree_with_a_page_of_no_btree_kind_is_corrupt() {
    let schema = vec![schema_row(1, "table", "apples", 2, APPLES_DDL)];
    let broken = vec![0u8; PAGE_SIZE];
    let file = database_file(&schema, vec![broken]);
    assert_eq!(
        process_command(&command("SELECT name FROM apples"), file),
        Err(Error::CorruptTree(TreeFault::PageKind))
    );
    let zero_child = interior_page(&[interior_cell(0, 1)], 3);
    let file = database_file(&schema, vec![zero_child, leaf_page(&[])]);
    assert_eq!(
        process_command(&command("SELECT name FROM apples"), file),
        Err(Error::CorruptTree(TreeFault::PageNumber))
    );
}

#[test]
fn walk_stops_when_more_pages_are_visited_than_the_database_holds() {
    let mut file = sample_database();
    // the database claims to hold three pages: the schema walk needs one,
    // the walk of `oranges` four
    file[28..32].copy_from_slice(&3u32.to_be_bytes());
    assert_eq!(
        process_command(&command("SELECT COUNT(*) FROM apples"), file.clone()),
        Ok(CommandOutput::Count(4))
    );
    assert_eq!(
        process_command(&command("SELECT COUNT(*) FROM oranges"), file.clone()),
        Err(Error::CorruptTree(TreeFault::Cycle))
    );
    file[28..32].copy_from_slice(&4u32.to_be_bytes());
    assert_eq!(
        process_command(&command("SELECT COUNT(*) FROM oranges"), file.clone()),
        Ok(CommandOutput::Count(5))
    );
    file[28..32].copy_from_slice(&0u32.to_be_bytes());
    assert_eq!(
        process_command(&command(".tables"), file),
        Err(Error::CorruptTree(TreeFault::Cycle))
    );
}

#[test]
fn index_pages_give_no_rows() {
    let schema = vec![schema_row(1, "table", "apples", 2, APPLES_DDL)];
    let index_leaf = btree_page(0x0a, None, &[], 0);
    let file = database_file(&schema, vec![index_leaf]);
    assert_eq!(
        process_command(&command("SELECT name FROM apples"), file),
        Ok(CommandOutput::Rows(vec![]))
    );
}

#[test]
fn values_are_compared_as_text() {
    let schema = vec![schema_row(
        1,
        "table",
        "things",
        2,
        "CREATE TABLE things (label text, amount integer, data blob)",
    )];
    let things = leaf_page(&[
        leaf_cell(1, &[Field::Text("a"), Field::Int(-12), Field::Blob(b"xyz")]),
        leaf_cell(2, &[Field::Text("b"), Field::Int(0), Field::Blob(b"")]),
        leaf_cell(3, &[Field::Text("c"), Field::Int(1), Field::Null]),
        leaf_cell(4, &[Field::Text("d"), Field::Int(70000), Field::Blob(b"xyz")]),
        leaf_cell(5, &[Field::Text("e"), Field::Int(i64::MIN), Field::Text("xyz")]),
    ]);
    let file = database_file(&schema, vec![things]);
    let database = Database::init_from_file(file).unwrap();
    let labels = |column: &str, literal: &str| -> Vec<Vec<Value>> {
        process_query(&database, &select(&["label"], "things", &[(column, literal)])).unwrap().results
    };
    assert_eq!(labels("amount", "-12"), vec![vec![text("a")]]);
    assert_eq!(labels("amount", "0"), vec![vec![text("b")]]);
    assert_eq!(labels("amount", "1"), vec![vec![text("c")]]);
    assert_eq!(labels("amount", "70000"), vec![vec![text("d")]]);
    assert_eq!(labels("amount", "-9223372036854775808"), vec![vec![text("e")]]);
    assert_eq!(labels("amount", "070000"), Vec::<Vec<Value>>::new());
    assert_eq!(labels("data", "xyz"), vec![vec![text("a")], vec![text("d")], vec![text("e")]]);
    assert_eq!(labels("data", ""), vec![vec![text("b")]]);
}

#[test]
fn column_without_a_value_is_null() {
    let schema = vec![schema_row(1, "table", "apples", 2, APPLES_DDL)];
    let apples = leaf_page(&[
        leaf_cell(7, &[]),
        leaf_cell(8, &[Field::Null, Field::Text("Fuji")]),
        leaf_cell(
            9,
            &[Field::Int(50), Field::Text("Opal"), Field::Text("Yellow"), Field::Text("dropped")],
        ),
    ]);
    let file = database_file(&schema, vec![apples]);
    assert_eq!(
        process_command(&command("SELECT id, name, color FROM apples"), file.clone()),
        Ok(CommandOutput::Rows(vec![
            vec![Value::Int64(7), Value::Null, Value::Null],
            vec![Value::Int64(8), text("Fuji"), Value::Null],
            vec![Value::Int64(9), text("Opal"), text("Yellow")]
        ]))
    );
    let database = Database::init_from_file(file).unwrap();
    let tables = list_tables(&database).unwrap();
    let rows = database.traverse_btree_table(2, &true, &tables[0]).unwrap();
    assert!(rows.iter().all(|row| row.columns.len() == 3));
}
