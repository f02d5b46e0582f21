//! Single and bulk insertion through an executor.
//!
//! The executor is a function from a statement to its outcome. The
//! insertions here call it once for a single record and once for each chunk
//! of a batch, one chunk after the other, and stop at the first failure.

use crate::bind::{row_major, Insertable};
use crate::bulk::BulkInsert;
use crate::chunk::{
    chunk_count, chunk_len, chunk_start, default_chunk_size, default_size, default_size_error,
    lemma_chunk_in_batch, lemma_chunks_partition, lemma_count_by_division,
};
use crate::dialect::{lemma_rows_text, MarkerStyle, PlaceHolders};
use crate::error::{ConfigError, InsertError};
use crate::statement::{
    bulk_insert_statement, insert_statement, is_bulk_insert_of, is_insert_of, statement_error,
    Statement,
};
use vstd::pervasive::unreached;
use vstd::prelude::*;
use vstd::slice::slice_subrange;

verus! {

/// Whether `outcome` can come of executing the statement that inserts
/// `value`.
pub open spec fn executed_insert<T: Insertable, R, E, F: Fn(Statement<T::Value>) -> Result<R, E>>(
    execute: F,
    value: T,
    outcome: Result<R, E>,
) -> bool {
    exists|st: Statement<T::Value>|
        is_insert_of(st, value) && #[trigger] call_ensures(execute, (st,), outcome)
}

/// Whether `outcome` can come of executing the statement that inserts `rows`
/// into `table`.
pub open spec fn executed_chunk<T: Insertable, R, E, F: Fn(Statement<T::Value>) -> Result<R, E>>(
    execute: F,
    table: Seq<char>,
    rows: Seq<T>,
    outcome: Result<R, E>,
) -> bool {
    exists|st: Statement<T::Value>|
        is_bulk_insert_of(st, table, rows) && #[trigger] call_ensures(execute, (st,), outcome)
}

/// Whether executing the statement that inserts `rows` into `table` can
/// succeed.
pub open spec fn chunk_succeeded<
    T: Insertable,
    R,
    E,
    F: Fn(Statement<T::Value>) -> Result<R, E>,
>(execute: F, table: Seq<char>, rows: Seq<T>) -> bool {
    exists|result: R| #[trigger] executed_chunk(execute, table, rows, Ok::<R, E>(result))
}

/// The rows of chunk `index` of `values`.
pub open spec fn chunk_rows<T>(values: Seq<T>, chunk_size: nat, index: nat) -> Seq<T> {
    values.subrange(
        chunk_start(chunk_size, index) as int,
        (chunk_start(chunk_size, index) + chunk_len(values.len(), chunk_size, index)) as int,
    )
}

/// The number of rows of the largest chunk of a batch.
pub open spec fn largest_chunk(chunk_size: nat, batch: nat) -> nat {
    if batch < chunk_size {
        batch
    } else {
        chunk_size
    }
}

/// The error, if any, that refuses a bulk insertion before any statement is
/// built: a zero chunk size, a type without columns, or a chunk whose
/// numbered markers would not fit.
pub open spec fn bulk_config_error<T: Insertable>(chunk_size: nat, batch: nat) -> Option<
    ConfigError,
> {
    if chunk_size == 0 {
        Some(ConfigError::ZeroChunkSize)
    } else {
        statement_error::<T>(largest_chunk(chunk_size, batch))
    }
}

/// What a bulk insertion of `values` into `table` in chunks of `chunk_size`
/// returns.
///
/// A refused configuration gives its error. Otherwise the chunks are
/// executed in order. When all succeed, there is one result for each chunk,
/// in chunk order, each the outcome of executing the statement for the rows
/// of that chunk. When one fails, the error names its index and carries the
/// executor's error; every chunk before it was executed with success.
pub open spec fn is_bulk_outcome<
    T: Insertable,
    R,
    E,
    F: Fn(Statement<T::Value>) -> Result<R, E>,
>(
    execute: F,
    table: Seq<char>,
    chunk_size: nat,
    values: Seq<T>,
    r: Result<Vec<R>, InsertError<E>>,
) -> bool {
    match r {
        Ok(results) => {
            &&& bulk_config_error::<T>(chunk_size, values.len()) is None
            &&& results@.len() == chunk_count(values.len(), chunk_size)
            &&& forall|i: int|
                0 <= i < results@.len() ==> executed_chunk(
                    execute,
                    table,
                    chunk_rows(values, chunk_size, i as nat),
                    Ok::<R, E>(#[trigger] results@[i]),
                )
        },
        Err(InsertError::Config(e)) => bulk_config_error::<T>(chunk_size, values.len()) == Some(
            e,
        ),
        Err(InsertError::Chunk { index, source }) => {
            &&& bulk_config_error::<T>(chunk_size, values.len()) is None
            &&& index < chunk_count(values.len(), chunk_size)
            &&& forall|i: int|
                0 <= i < index ==> #[trigger] chunk_succeeded(
                    execute,
                    table,
                    chunk_rows(values, chunk_size, i as nat),
                )
            &&& executed_chunk(
                execute,
                table,
                chunk_rows(values, chunk_size, index as nat),
                Err::<R, E>(source),
            )
        },
        Err(InsertError::Statement(_)) => false,
    }
}

/// What a bulk insertion of `values` into `table` returns when the chunk
/// size is left to the record type: the error that leaves the type without a
/// chunk size, or else the outcome with the default chunk size.
pub open spec fn is_default_bulk_outcome<
    T: Insertable,
    R,
    E,
    F: Fn(Statement<T::Value>) -> Result<R, E>,
>(execute: F, table: Seq<char>, values: Seq<T>, r: Result<Vec<R>, InsertError<E>>) -> bool {
    match default_size_error(T::columns().len()) {
        Some(e) => r matches Err(InsertError::Config(c)) && c == e,
        None => is_bulk_outcome(execute, table, default_size(T::columns().len()), values, r),
    }
}

/// The statement of a single insert is the statement of a bulk insert of
/// that one record into the table of its type.
pub proof fn lemma_insert_is_bulk_of_one<T: Insertable>(st: Statement<T::Value>, value: T)
    ensures
        is_insert_of(st, value) <==> is_bulk_insert_of(st, T::table(), seq![value]),
{
    lemma_rows_text(T::Database::style(), 1, T::columns().len(), None);
    let rows = seq![value];
    assert(rows.drop_last() =~= Seq::<T>::empty());
    assert(rows.last() == value);
    assert(row_major(rows.drop_last()) =~= Seq::<T::Value>::empty());
    assert(row_major(rows) =~= value.field_values());
    assert(1 * T::columns().len() == T::columns().len()) by (nonlinear_arith);
}

/// With a configuration that is not refused, a bulk insertion of an empty
/// batch returns no result, and no executor outcome is part of it.
pub proof fn lemma_empty_batch<T: Insertable, R, E, F: Fn(Statement<T::Value>) -> Result<R, E>>(
    execute: F,
    table: Seq<char>,
    chunk_size: nat,
    r: Result<Vec<R>, InsertError<E>>,
)
    requires
        chunk_size > 0,
        T::columns().len() > 0,
        is_bulk_outcome(execute, table, chunk_size, Seq::<T>::empty(), r),
    ensures
        r matches Ok(results) && results@ == Seq::<R>::empty(),
        chunk_count(0, chunk_size) == 0,
{
    lemma_chunks_partition(0, chunk_size);
    assert(0 * T::columns().len() == 0) by (nonlinear_arith);
    match r {
        Ok(results) => {
            assert(results@ =~= Seq::<R>::empty());
        },
        Err(_) => {},
    }
}

/// A bulk insertion that succeeds returns one result for each chunk: the
/// batch size divided by the chunk size, rounded up. Every chunk but the last
/// holds `chunk_size` records, and the last the remainder.
pub proof fn lemma_bulk_result_count<
    T: Insertable,
    R,
    E,
    F: Fn(Statement<T::Value>) -> Result<R, E>,
>(execute: F, table: Seq<char>, chunk_size: nat, values: Seq<T>, r: Result<Vec<R>, InsertError<E>>)
    requires
        is_bulk_outcome(execute, table, chunk_size, values, r),
        r is Ok,
    ensures
        chunk_size > 0,
        r->Ok_0@.len() == if values.len() % chunk_size == 0 {
            values.len() / chunk_size
        } else {
            values.len() / chunk_size + 1
        },
        forall|i: int|
            0 <= i < r->Ok_0@.len() ==> (#[trigger] chunk_rows(values, chunk_size, i as nat)).len()
                == if i + 1 < r->Ok_0@.len() {
                chunk_size
            } else if values.len() % chunk_size == 0 {
                chunk_size
            } else {
                values.len() % chunk_size
            },
{
    lemma_count_by_division(values.len(), chunk_size);
    lemma_chunks_partition(values.len(), chunk_size);
    let count = chunk_count(values.len(), chunk_size);
    assert forall|i: int| 0 <= i < count implies (#[trigger] chunk_rows(
        values,
        chunk_size,
        i as nat,
    )).len() == chunk_len(values.len(), chunk_size, i as nat) by {
        lemma_chunk_in_batch(values.len(), chunk_size, i as nat);
        assert(chunk_start(chunk_size, i as nat) + chunk_len(values.len(), chunk_size, i as nat)
            <= values.len());
    }
}

/// Inserts one record: builds its statement, executes it once, and returns
/// the executor's result.
///
/// A refused configuration gives `Config` and nothing is executed; a failure
/// of the executor is returned in `Statement`.
pub fn insert<T: Insertable, R, E, F: Fn(Statement<T::Value>) -> Result<R, E>>(
    execute: F,
    value: &T,
) -> (r: Result<R, InsertError<E>>)
    requires
        forall|st: Statement<T::Value>| call_requires(execute, (st,)),
    ensures
        match r {
            Ok(result) => statement_error::<T>(1) is None && executed_insert(
                execute,
                *value,
                Ok::<R, E>(result),
            ),
            Err(InsertError::Config(e)) => statement_error::<T>(1) == Some(e),
            Err(InsertError::Statement(source)) => statement_error::<T>(1) is None
                && executed_insert(execute, *value, Err::<R, E>(source)),
            Err(InsertError::Chunk { .. }) => false,
        },
{
    let st = match insert_statement(value) {
        Ok(st) => st,
        Err(e) => {
            return Err(InsertError::Config(e));
        },
    };
    match execute(st) {
        Ok(result) => Ok(result),
        Err(source) => Err(InsertError::Statement(source)),
    }
}

/// Checks the configuration of a bulk insertion of `batch` rows of `T` in
/// chunks of `chunk_size`, before any statement is built.
pub fn check_bulk_config<T: Insertable>(chunk_size: usize, batch: usize) -> (r: Result<
    (),
    ConfigError,
>)
    ensures
        match r {
            Ok(_) => bulk_config_error::<T>(chunk_size as nat, batch as nat) is None,
            Err(e) => bulk_config_error::<T>(chunk_size as nat, batch as nat) == Some(e),
        },
{
    if chunk_size == 0 {
        return Err(ConfigError::ZeroChunkSize);
    }
    let columns = T::insert_columns();
    assert(columns@.len() == T::columns().len());
    if columns.len() == 0 {
        return Err(ConfigError::NoColumns);
    }
    let rows: usize = if batch < chunk_size {
        batch
    } else {
        chunk_size
    };
    assert(rows * columns.len() >= 0) by (nonlinear_arith);
    match T::Database::marker_style() {
        MarkerStyle::Positional => Ok(()),
        MarkerStyle::Numbered => match rows.checked_mul(columns.len()) {
            Some(count) => if count == usize::MAX {
                Err(ConfigError::IndexOverflow)
            } else {
                Ok(())
            },
            None => Err(ConfigError::IndexOverflow),
        },
    }
}

/// The statements that a bulk insertion of `values` into `table_name` in
/// chunks of at most `chunk_size` records issues, in the order in which it
/// issues them: one for each chunk, each with the markers and the values of
/// the rows of its own chunk only.
///
/// A refused configuration gives its error and no statement.
pub fn bulk_insert_statements<T: Insertable>(
    table_name: &str,
    chunk_size: usize,
    values: &[T],
) -> (r: Result<Vec<Statement<T::Value>>, ConfigError>)
    ensures
        match r {
            Ok(statements) => {
                &&& bulk_config_error::<T>(chunk_size as nat, values@.len()) is None
                &&& statements@.len() == chunk_count(values@.len(), chunk_size as nat)
                &&& forall|i: int|
                    0 <= i < statements@.len() ==> is_bulk_insert_of(
                        #[trigger] statements@[i],
                        table_name@,
                        chunk_rows(values@, chunk_size as nat, i as nat),
                    )
            },
            Err(e) => bulk_config_error::<T>(chunk_size as nat, values@.len()) == Some(e),
        },
{
    match check_bulk_config::<T>(chunk_size, values.len()) {
        Ok(_) => {},
        Err(e) => {
            return Err(e);
        },
    }
    let mut state: BulkInsert<(), ()> = match BulkInsert::new(chunk_size, values.len()) {
        Ok(state) => state,
        Err(e) => {
            return Err(e);
        },
    };
    let mut statements: Vec<Statement<T::Value>> = Vec::new();
    let mut pending = state.next_chunk();
    while pending.is_some()
        invariant
            bulk_config_error::<T>(chunk_size as nat, values@.len()) is None,
            state.chunk_size() == chunk_size,
            state.total() == values@.len(),
            state.failure() is None,
            values@.len() <= usize::MAX,
            pending == state.pending(),
            pending matches Some(chunk) ==> {
                &&& chunk.index == state.results().len()
                &&& chunk.first_row == chunk_start(chunk_size as nat, chunk.index as nat)
                &&& chunk.row_count == chunk_len(
                    values@.len(),
                    chunk_size as nat,
                    chunk.index as nat,
                )
                &&& 1 <= chunk.row_count <= chunk_size
                &&& chunk.first_row + chunk.row_count <= values@.len()
            },
            statements@.len() == state.results().len(),
            state.results().len() <= state.chunks(),
            forall|i: int|
                0 <= i < statements@.len() ==> is_bulk_insert_of(
                    #[trigger] statements@[i],
                    table_name@,
                    chunk_rows(values@, chunk_size as nat, i as nat),
                ),
        decreases state.chunks() - state.results().len(),
    {
        let chunk = pending.unwrap();
        let rows = slice_subrange(values, chunk.first_row, chunk.first_row + chunk.row_count);
        proof {
            lemma_smaller_chunk_fits::<T>(
                chunk.row_count as nat,
                largest_chunk(chunk_size as nat, values@.len()),
            );
            assert(rows@ == chunk_rows(values@, chunk_size as nat, chunk.index as nat));
        }
        let st = match bulk_insert_statement(table_name, rows) {
            Ok(st) => st,
            Err(_) => unreached(),
        };
        statements.push(st);
        state = state.record(Ok(()));
        pending = state.next_chunk();
    }
    Ok(statements)
}

/// A chunk that is no larger than the largest one can be built whenever the
/// largest one can.
proof fn lemma_smaller_chunk_fits<T: Insertable>(rows: nat, largest: nat)
    requires
        rows <= largest,
        statement_error::<T>(largest) is None,
    ensures
        statement_error::<T>(rows) is None,
{
    let columns = T::columns().len();
    assert(rows * columns <= largest * columns) by (nonlinear_arith)
        requires
            rows <= largest,
            columns >= 0,
    ;
}

/// Inserts the records of `values` into `table_name` in chunks of at most
/// `chunk_size` records, one statement for each chunk, one chunk after the
/// other, and returns the executor's results in chunk order.
///
/// A refused configuration gives `Config` and nothing is executed. The first
/// failure of the executor ends the insertion and is returned in `Chunk`
/// with the index of its chunk; the chunks before it stay executed.
pub fn bulk_insert_with_table_name_and_chunk_size<
    T: Insertable,
    R,
    E,
    F: Fn(Statement<T::Value>) -> Result<R, E>,
>(execute: F, table_name: &str, chunk_size: usize, values: &[T]) -> (r: Result<
    Vec<R>,
    InsertError<E>,
>)
    requires
        forall|st: Statement<T::Value>| call_requires(execute, (st,)),
    ensures
        is_bulk_outcome(execute, table_name@, chunk_size as nat, values@, r),
{
    match check_bulk_config::<T>(chunk_size, values.len()) {
        Ok(_) => {},
        Err(e) => {
            return Err(InsertError::Config(e));
        },
    }
    let mut state: BulkInsert<R, E> = match BulkInsert::new(chunk_size, values.len()) {
        Ok(state) => state,
        Err(e) => {
            return Err(InsertError::Config(e));
        },
    };
    let mut pending = state.next_chunk();
    while pending.is_some()
        invariant
            forall|st: Statement<T::Value>| call_requires(execute, (st,)),
            bulk_config_error::<T>(chunk_size as nat, values@.len()) is None,
            state.chunk_size() == chunk_size,
            state.total() == values@.len(),
            values@.len() <= usize::MAX,
            pending == state.pending(),
            pending matches Some(chunk) ==> {
                &&& chunk.index == state.results().len()
                &&& chunk.first_row == chunk_start(chunk_size as nat, chunk.index as nat)
                &&& chunk.row_count == chunk_len(
                    values@.len(),
                    chunk_size as nat,
                    chunk.index as nat,
                )
                &&& 1 <= chunk.row_count <= chunk_size
                &&& chunk.first_row + chunk.row_count <= values@.len()
            },
            state.results().len() <= state.chunks(),
            forall|i: int|
                0 <= i < state.results().len() ==> executed_chunk(
                    execute,
                    table_name@,
                    chunk_rows(values@, chunk_size as nat, i as nat),
                    Ok::<R, E>(#[trigger] state.results()[i]),
                ),
            state.failure() matches Some(source) ==> state.results().len() < state.chunks()
                && executed_chunk(
                execute,
                table_name@,
                chunk_rows(values@, chunk_size as nat, state.results().len()),
                Err::<R, E>(source),
            ),
        decreases
                2 * (state.chunks() - state.results().len()) + if pending is Some {
                    1int
                } else {
                    0int
                },
    {
        let chunk = pending.unwrap();
        let rows = slice_subrange(values, chunk.first_row, chunk.first_row + chunk.row_count);
        proof {
            lemma_smaller_chunk_fits::<T>(
                chunk.row_count as nat,
                largest_chunk(chunk_size as nat, values@.len()),
            );
            assert(rows@ == chunk_rows(values@, chunk_size as nat, chunk.index as nat));
        }
        let st = match bulk_insert_statement(table_name, rows) {
            Ok(st) => st,
            Err(_) => unreached(),
        };
        let outcome = execute(st);
        let ghost seen = outcome;
        let ghost before = state;
        state = state.record(outcome);
        proof {
            assert(executed_chunk(
                execute,
                table_name@,
                chunk_rows(values@, chunk_size as nat, chunk.index as nat),
                seen,
            ));
            match seen {
                Ok(result) => {
                    assert forall|i: int| 0 <= i < state.results().len() implies executed_chunk(
                        execute,
                        table_name@,
                        chunk_rows(values@, chunk_size as nat, i as nat),
                        Ok::<R, E>(#[trigger] state.results()[i]),
                    ) by {
                        if i < before.results().len() {
                            assert(state.results()[i] == before.results()[i]);
                        }
                    }
                },
                Err(source) => {},
            }
        }
        pending = state.next_chunk();
    }
    let ghost last = state;
    let r = state.finish();
    let ghost returned = r;
    proof {
        match returned {
            Ok(results) => {},
            Err(InsertError::Chunk { index, source }) => {
                assert forall|i: int| 0 <= i < index implies #[trigger] chunk_succeeded(
                    execute,
                    table_name@,
                    chunk_rows(values@, chunk_size as nat, i as nat),
                ) by {
                    assert(executed_chunk(
                        execute,
                        table_name@,
                        chunk_rows(values@, chunk_size as nat, i as nat),
                        Ok::<R, E>(last.results()[i]),
                    ));
                }
            },
            Err(_) => {},
        }
    }
    r
}

/// Inserts the records of `values` into `table_name`, in chunks of the
/// default size of the record type.
pub fn bulk_insert_with_table_name<
    T: Insertable,
    R,
    E,
    F: Fn(Statement<T::Value>) -> Result<R, E>,
>(execute: F, table_name: &str, values: &[T]) -> (r: Result<Vec<R>, InsertError<E>>)
    requires
        forall|st: Statement<T::Value>| call_requires(execute, (st,)),
    ensures
        is_default_bulk_outcome(execute, table_name@, values@, r),
{
    let columns = T::insert_columns();
    assert(columns@.len() == T::columns().len());
    match default_chunk_size(columns.len()) {
        Ok(chunk_size) => bulk_insert_with_table_name_and_chunk_size(
            execute,
            table_name,
            chunk_size,
            values,
        ),
        Err(e) => Err(InsertError::Config(e)),
    }
}

/// Inserts the records of `values` into the table of their type, in chunks
/// of at most `chunk_size` records.
pub fn bulk_insert_with_chunk_size<
    T: Insertable,
    R,
    E,
    F: Fn(Statement<T::Value>) -> Result<R, E>,
>(execute: F, chunk_size: usize, values: &[T]) -> (r: Result<Vec<R>, InsertError<E>>)
    requires
        forall|st: Statement<T::Value>| call_requires(execute, (st,)),
    ensures
        is_bulk_outcome(execute, T::table(), chunk_size as nat, values@, r),
{
    bulk_insert_with_table_name_and_chunk_size(execute, T::table_name(), chunk_size, values)
}

/// Inserts the records of `values` into the table of their type, in chunks
/// of the default size of the record type.
pub fn bulk_insert<T: Insertable, R, E, F: Fn(Statement<T::Value>) -> Result<R, E>>(
    execute: F,
    values: &[T],
) -> (r: Result<Vec<R>, InsertError<E>>)
    requires
        forall|st: Statement<T::Value>| call_requires(execute, (st,)),
    ensures
        is_default_bulk_outcome(execute, T::table(), values@, r),
{
    bulk_insert_with_table_name(execute, T::table_name(), values)
}

} // verus!
