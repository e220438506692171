use sqlite_reader::cli::{parse_command, Command, UsageError};
use sqlite_reader::error::Error;
use sqlite_reader::sql::{Condition, SelectStatement, Selectable, Targetable};
use sqlite_reader::sql_query;

#[test]
fn parse_count_star_select_query() {
    let result = sql_query::select_statement("SELECT COUNT(*) FROM apples WHERE color='blue'");
    assert_eq!(
        result,
        Ok(SelectStatement {
            selectables: vec![Selectable::CountStar],
            from_target: Targetable::TableOrView(String::from("apples")),
            conditions: vec![Condition {
                column: String::from("color"),
                value: String::from("blue")
            }]
        })
    )
}

#[test]
fn parse_simple_select_query() {
    let result = sql_query::select_statement("SELECT name, color FROM apples WHERE color='blue'");
    assert_eq!(
        result,
        Ok(SelectStatement {
            selectables: vec![
                Selectable::Column(String::from("name")),
                Selectable::Column(String::from("color"))
            ],
            from_target: Targetable::TableOrView(String::from("apples")),
            conditions: vec![Condition {
                column: String::from("color"),
                value: String::from("blue")
            }]
        })
    )
}

#[test]
fn parse_select_without_where() {
    let result = sql_query::select_statement("select name from apples");
    assert_eq!(
        result,
        Ok(SelectStatement {
            selectables: vec![Selectable::Column(String::from("name"))],
            from_target: Targetable::TableOrView(String::from("apples")),
            conditions: vec![]
        })
    )
}

#[test]
fn parse_select_with_two_conditions() {
    let result = sql_query::select_statement(
        "SELECT id,name\tFROM apples\nWHERE color = 'Light Green' AND name='Granny Smith'",
    );
    assert_eq!(
        result,
        Ok(SelectStatement {
            selectables: vec![
                Selectable::Column(String::from("id")),
                Selectable::Column(String::from("name"))
            ],
            from_target: Targetable::TableOrView(String::from("apples")),
            conditions: vec![
                Condition {
                    column: String::from("color"),
                    value: String::from("Light Green")
                },
                Condition {
                    column: String::from("name"),
                    value: String::from("Granny Smith")
                }
            ]
        })
    )
}

#[test]
fn parse_keywords_in_any_case() {
    let result = sql_query::select_statement("SeLeCt CoUnT ( * ) fRoM t wHeRe a='' aNd b='x'");
    assert_eq!(
        result,
        Ok(SelectStatement {
            selectables: vec![Selectable::CountStar],
            from_target: Targetable::TableOrView(String::from("t")),
            conditions: vec![
                Condition { column: String::from("a"), value: String::from("") },
                Condition { column: String::from("b"), value: String::from("x") }
            ]
        })
    )
}

#[test]
fn parse_literal_keeps_non_ascii_text() {
    let result = sql_query::select_statement("SELECT a FROM t WHERE a = 'gr\u{fc}n \u{1f34f}'");
    assert_eq!(
        result,
        Ok(SelectStatement {
            selectables: vec![Selectable::Column(String::from("a"))],
            from_target: Targetable::TableOrView(String::from("t")),
            conditions: vec![Condition {
                column: String::from("a"),
                value: String::from("gr\u{fc}n \u{1f34f}")
            }]
        })
    )
}

#[test]
fn parse_rejects_everything_else() {
    let rejected = [
        "",
        "SELECT",
        "SELECT FROM apples",
        "SELECT name apples",
        "SELECT name FROM",
        "SELECT name, FROM apples",
        "SELECT name FROM apples WHERE",
        "SELECT name FROM apples WHERE color",
        "SELECT name FROM apples WHERE color = blue",
        "SELECT name FROM apples WHERE color = 'blue",
        "SELECT name FROM apples WHERE color = 'blue' AND",
        "SELECT name FROM apples WHERE color = 'blue' OR color = 'red'",
        "SELECT name FROM apples extra",
        "SELECT name FROM apples;",
        "SELECT MAX(id) FROM apples",
        "SELECT COUNT(id) FROM apples",
        "SELECT * FROM apples",
        "INSERT name FROM apples",
        "CREATE TABLE apples (id integer)",
        "SELECT name FROM apples WHERE color <> 'blue'",
        "SELECT na-me FROM apples",
    ];
    for query in rejected {
        assert_eq!(sql_query::select_statement(query), Err(Error::SqlParse), "{}", query);
    }
}

fn arguments(args: &[&str]) -> Vec<String> {
    args.iter().map(|a| a.to_string()).collect()
}

#[test]
fn command_line_is_dispatched() {
    assert_eq!(
        parse_command(&arguments(&["prog", "sample.db", ".dbinfo"])),
        Ok(Command::DatabaseInformation { filename: String::from("sample.db") })
    );
    assert_eq!(
        parse_command(&arguments(&["prog", "sample.db", ".tables"])),
        Ok(Command::ListTables { filename: String::from("sample.db") })
    );
    assert_eq!(
        parse_command(&arguments(&["prog", "sample.db", "SELECT a FROM t", "ignored"])),
        Ok(Command::Query {
            filename: String::from("sample.db"),
            query: String::from("SELECT a FROM t")
        })
    );
    assert_eq!(
        parse_command(&arguments(&["prog", "sample.db", ".DBINFO"])),
        Ok(Command::Query { filename: String::from("sample.db"), query: String::from(".DBINFO") })
    );
}

#[test]
fn command_line_with_missing_arguments() {
    assert_eq!(parse_command(&arguments(&[])), Err(UsageError::MissingPathAndCommand));
    assert_eq!(parse_command(&arguments(&["prog"])), Err(UsageError::MissingPathAndCommand));
    assert_eq!(parse_command(&arguments(&["prog", "sample.db"])), Err(UsageError::MissingCommand));
}
