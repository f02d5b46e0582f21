//! The text of an INSERT statement and the values bound to it.

use crate::bind::{row_major, BindFieldsExt, Bindings, Insertable, QueryBindExt};
use crate::dialect::{
    lemma_row_text, lemma_rows_text, marker_char, markers_fit, row_text, rows_text, PlaceHolders,
};
use crate::error::ConfigError;
use crate::placeholders::{comma, group, parenthesized};
use crate::text::{joined, lemma_joined_push, occurrences, str_views};
use vstd::prelude::*;

verus! {

/// One statement, ready for an executor: its text, and the values for its
/// markers in marker order.
#[derive(Debug, Clone, PartialEq, Eq)]
pub struct Statement<V> {
    pub sql: String,
    pub values: Vec<V>,
}

/// `INSERT INTO {table} ({columns}) VALUES {markers}`, the columns joined by
/// commas.
pub open spec fn insert_text(
    table: Seq<char>,
    columns: Seq<Seq<char>>,
    markers: Seq<char>,
) -> Seq<char> {
    "INSERT INTO "@ + table + " ("@ + joined(columns, comma()) + ") VALUES "@ + markers
}

/// The error, if any, that keeps a statement of `rows` rows for `T` from
/// being built: no columns, or numbered markers beyond `usize::MAX`.
pub open spec fn statement_error<T: Insertable>(rows: nat) -> Option<ConfigError> {
    if T::columns().len() == 0 {
        Some(ConfigError::NoColumns)
    } else if !markers_fit(T::Database::style(), rows * T::columns().len(), None) {
        Some(ConfigError::IndexOverflow)
    } else {
        None
    }
}

/// Whether `st` inserts exactly `value` into the table of `T`: one group of
/// markers, one for each column, and the field values in column order, one
/// for each column.
pub open spec fn is_insert_of<T: Insertable>(st: Statement<T::Value>, value: T) -> bool {
    &&& st.sql@ == insert_text(
        T::table(),
        T::columns(),
        group(row_text(T::Database::style(), T::columns().len(), None)),
    )
    &&& st.values@ == value.field_values()
    &&& st.values@.len() == T::columns().len()
}

/// Whether `st` inserts exactly `rows` into `table`: one group of markers for
/// each row, and the field values in row-major order, one for each column of
/// each row.
pub open spec fn is_bulk_insert_of<T: Insertable>(
    st: Statement<T::Value>,
    table: Seq<char>,
    rows: Seq<T>,
) -> bool {
    &&& st.sql@ == insert_text(
        table,
        T::columns(),
        rows_text(T::Database::style(), rows.len(), T::columns().len(), None),
    )
    &&& st.values@ == row_major(rows)
    &&& st.values@.len() == rows.len() * T::columns().len()
}

/// A statement has as many markers as it has bound values: the markers of a
/// single insert are one group with a marker for each value, and those of a
/// bulk insert one group for each row.
pub proof fn lemma_markers_match_values<T: Insertable>(
    st: Statement<T::Value>,
    table: Seq<char>,
    value: T,
    rows: Seq<T>,
)
    ensures
        is_insert_of(st, value) ==> {
            &&& occurrences(
                group(row_text(T::Database::style(), T::columns().len(), None)),
                marker_char(T::Database::style()),
            ) == st.values@.len()
            &&& occurrences(
                group(row_text(T::Database::style(), T::columns().len(), None)),
                '(',
            ) == 1
        },
        is_bulk_insert_of(st, table, rows) ==> {
            &&& occurrences(
                rows_text(T::Database::style(), rows.len(), T::columns().len(), None),
                marker_char(T::Database::style()),
            ) == st.values@.len()
            &&& occurrences(
                rows_text(T::Database::style(), rows.len(), T::columns().len(), None),
                '(',
            ) == rows.len()
        },
{
    lemma_row_text(T::Database::style(), T::columns().len(), None);
    lemma_rows_text(T::Database::style(), rows.len(), T::columns().len(), None);
}

/// The column names joined by commas.
pub fn join_columns(columns: &Vec<&'static str>) -> (r: String)
    ensures
        r@ == joined(str_views(columns@), comma()),
{
    proof {
        reveal_strlit(",");
    }
    let mut out = String::new();
    let mut i: usize = 0;
    while i < columns.len()
        invariant
            i <= columns@.len(),
            ","@ == comma(),
            out@ == joined(str_views(columns@).take(i as int), comma()),
        decreases columns@.len() - i,
    {
        if i > 0 {
            out.append(",");
        }
        out.append(columns[i]);
        proof {
            let names = str_views(columns@);
            let before = names.take(i as int);
            assert(names.take(i + 1) =~= before.push(names[i as int]));
            lemma_joined_push(before, comma(), names[i as int]);
            assert(out@ =~= joined(names.take(i + 1), comma()));
        }
        i += 1;
    }
    assert(str_views(columns@).take(i as int) =~= str_views(columns@));
    out
}

/// Builds `INSERT INTO {table_name} ({columns}) VALUES {markers}`.
pub fn insert_sql(table_name: &str, columns: &Vec<&'static str>, markers: &str) -> (r: String)
    ensures
        r@ == insert_text(table_name@, str_views(columns@), markers@),
{
    let names = join_columns(columns);
    let mut out = String::from_str("INSERT INTO ");
    out.append(table_name);
    out.append(" (");
    out.append(names.as_str());
    out.append(") VALUES ");
    out.append(markers);
    out
}

/// The statement that inserts `value` into the table of its type: one marker
/// for each column in the dialect of the type, and the field values bound in
/// column order.
///
/// Fails with `NoColumns` when the type has no columns, and otherwise with
/// `IndexOverflow` when the markers do not fit.
pub fn insert_statement<T: Insertable>(value: &T) -> (r: Result<Statement<T::Value>, ConfigError>)
    ensures
        match r {
            Ok(st) => statement_error::<T>(1) is None && is_insert_of(st, *value),
            Err(e) => statement_error::<T>(1) == Some(e),
        },
{
    let columns = T::insert_columns();
    assert(columns@.len() == T::columns().len());
    if columns.len() == 0 {
        return Err(ConfigError::NoColumns);
    }
    assert(1 * T::columns().len() == T::columns().len()) by (nonlinear_arith);
    let row = match T::Database::placeholders(columns.len(), None) {
        Ok(row) => row,
        Err(e) => {
            return Err(e);
        },
    };
    let markers = parenthesized(&row);
    let sql = insert_sql(T::table_name(), &columns, markers.as_str());
    let bound = Bindings::new().bind_fields(value);
    assert(bound.values@ =~= value.field_values());
    Ok(Statement { sql, values: bound.values })
}

/// The statement that inserts the records of `chunk` into `table_name`: one
/// group of markers for each record, and the field values bound in row-major
/// order.
///
/// Fails with `NoColumns` when the type has no columns, and otherwise with
/// `IndexOverflow` when the markers do not fit.
pub fn bulk_insert_statement<T: Insertable>(table_name: &str, chunk: &[T]) -> (r: Result<
    Statement<T::Value>,
    ConfigError,
>)
    ensures
        match r {
            Ok(st) => statement_error::<T>(chunk@.len()) is None && is_bulk_insert_of(
                st,
                table_name@,
                chunk@,
            ),
            Err(e) => statement_error::<T>(chunk@.len()) == Some(e),
        },
{
    let columns = T::insert_columns();
    assert(columns@.len() == T::columns().len());
    if columns.len() == 0 {
        return Err(ConfigError::NoColumns);
    }
    let markers = match T::Database::placeholders_for_bulk_insert_values(
        chunk.len(),
        columns.len(),
        None,
    ) {
        Ok(markers) => markers,
        Err(e) => {
            return Err(e);
        },
    };
    let sql = insert_sql(table_name, &columns, markers.as_str());
    let bound = Bindings::new().bind_multi_fields(chunk);
    assert(bound.values@ =~= row_major(chunk@));
    Ok(Statement { sql, values: bound.values })
}

} // verus!
