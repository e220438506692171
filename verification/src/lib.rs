//! A read-only query engine over the SQLite 3 file format.
//!
//! The library works on an in-memory image of a database file: it decodes the
//! file header, B-tree pages, cells and records, walks table B-trees and
//! evaluates simple `SELECT` statements against them.

pub mod btree_page;
pub mod bytes;
pub mod cell;
pub mod cli;
pub mod database;
pub mod ddl;
pub mod engine;
pub mod error;
pub mod header;
pub mod page;
pub mod page_header;
pub mod predicate;
pub mod record;
pub mod row;
pub mod schema;
pub mod serial_types;
pub mod sql;
pub mod sql_query;
pub mod tree;
pub mod value;
pub mod value_order;
pub mod varint;
