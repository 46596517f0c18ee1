//! Loads CSV files into SQLite tables with automatic column type inference, inserts all rows
//! of a file inside a single transaction, creates indexes, and renders the results of SQL
//! queries as CSV or as an ASCII table.
//!
//! The library decides; it opens no files and no databases. A program around it hands in the
//! bytes of a CSV file ([`read_csv_table`]), and carries out the requests that loading
//! ([`load_table_into_db`]), indexing ([`create_index`]) and querying ([`run_query`]) make of
//! a database, one after the other, handing back each answer.
//!
//! - [`text`], [`number`]: strings and numbers as sequences of characters.
//! - [`infer`], [`value`]: the types of columns and the values of fields.
//! - [`records`], [`table`]: CSV text, and the tables that it makes.
//! - [`ident`], [`sql`]: identifiers and the statements that are sent.
//! - [`db`], [`load`], [`index`], [`query`]: the exchanges with a database.
//! - [`render`]: results as an aligned table.
//! - [`cli`]: what the options of a run ask for.

pub mod cli;
pub mod db;
pub mod ident;
pub mod index;
pub mod infer;
pub mod load;
pub mod number;
pub mod query;
pub mod records;
pub mod render;
pub mod sql;
pub mod table;
pub mod text;
pub mod value;

pub use crate::db::{harden_connection, read_table_exists, table_exists};
pub use crate::db::{Cell, DbReply, DbRequest, DbSetting, FailedAt};
pub use crate::ident::table_name_from_path;
pub use crate::index::{create_index, IndexError, IndexOutcome, IndexRun};
pub use crate::infer::{infer_column_type, ColType};
pub use crate::load::{load_table_into_db, IfExists, LoadError, LoadRun};
pub use crate::query::{run_query, OutputFormat, QueryError, QueryRun};
pub use crate::sql::create_table_ddl;
pub use crate::table::{read_csv_table, LoadedTable, ReadError};
pub use crate::value::SqlValue;
