//! Dialect-aware placeholder generation and chunked bulk insertion for
//! relational databases.
//!
//! A record type says which table it goes to, which columns it fills and in
//! which order it binds its fields ([`Insertable`]). From that the library
//! writes the INSERT statement with the markers of the record's dialect
//! ([`PlaceHolders`]), binds the field values in marker order
//! ([`QueryBindExt`]), and cuts a batch into chunks that each fit one
//! statement ([`BulkInsert`]).

pub mod bind;
pub mod bulk;
pub mod chunk;
pub mod dialect;
pub mod error;
pub mod insert;
pub mod placeholders;
pub mod statement;
pub mod text;

pub use crate::bind::{BindFieldsExt, Bindings, Insertable, QueryBindExt};
pub use crate::bulk::{BulkInsert, Chunk};
pub use crate::chunk::{count_chunks, default_chunk_size, PARAMETER_LIMIT};
pub use crate::dialect::{MarkerStyle, PlaceHolders};
pub use crate::error::{ConfigError, InsertError};
pub use crate::insert::{
    bulk_insert, bulk_insert_statements, bulk_insert_with_chunk_size,
    bulk_insert_with_table_name, bulk_insert_with_table_name_and_chunk_size, check_bulk_config,
    insert,
};
pub use crate::placeholders::{
    placeholders, placeholders_for_bulk_insert_values,
    placeholders_for_bulk_insert_values_postgres, placeholders_for_rows,
    placeholders_for_rows_postgres, placeholders_postgres,
};
pub use crate::statement::{
    bulk_insert_statement, insert_sql, insert_statement, join_columns, Statement,
};
