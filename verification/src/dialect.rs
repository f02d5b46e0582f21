//! The marker style of each database dialect.

use crate::error::ConfigError;
use crate::placeholders::{
    group, lemma_group_occurrences, lemma_numbered_row, lemma_numbered_rows,
    lemma_positional_row, lemma_positional_rows, numbered_groups, numbered_row, numbered_rows,
    placeholders, placeholders_for_rows, placeholders_for_rows_postgres, placeholders_postgres,
    positional_groups, positional_row, positional_rows, start_index,
};
use crate::text::occurrences;
use vstd::prelude::*;

verus! {

/// How a dialect writes its parameter markers.
#[derive(Debug, Clone, Copy, PartialEq, Eq, Structural)]
pub enum MarkerStyle {
    /// Every marker is `?`.
    Positional,
    /// Markers are `$1`, `$2`, ...
    Numbered,
}

/// Whether `count` markers from the given start can be written in `style`:
/// always in the positional style; in the numbered style when the indices
/// stay within `usize::MAX`.
pub open spec fn markers_fit(style: MarkerStyle, count: nat, start_num: Option<usize>) -> bool {
    style == MarkerStyle::Positional || start_index(start_num) + count <= usize::MAX
}

/// One row of `n` markers in `style`.
pub open spec fn row_text(style: MarkerStyle, n: nat, start_num: Option<usize>) -> Seq<char> {
    match style {
        MarkerStyle::Positional => positional_row(n),
        MarkerStyle::Numbered => numbered_row(n, start_index(start_num)),
    }
}

/// `rows` parenthesized groups of `columns` markers in `style`.
pub open spec fn rows_text(
    style: MarkerStyle,
    rows: nat,
    columns: nat,
    start_num: Option<usize>,
) -> Seq<char> {
    match style {
        MarkerStyle::Positional => positional_rows(rows, columns),
        MarkerStyle::Numbered => numbered_rows(rows, columns, start_index(start_num)),
    }
}

/// The character that begins every marker of `style`.
pub open spec fn marker_char(style: MarkerStyle) -> char {
    match style {
        MarkerStyle::Positional => '?',
        MarkerStyle::Numbered => '$',
    }
}

/// In either style, a row of `n` markers holds exactly `n` markers, and its
/// group one pair of parentheses around them.
pub proof fn lemma_row_text(style: MarkerStyle, n: nat, start_num: Option<usize>)
    ensures
        occurrences(row_text(style, n, start_num), marker_char(style)) == n,
        occurrences(group(row_text(style, n, start_num)), marker_char(style)) == n,
        occurrences(group(row_text(style, n, start_num)), '(') == 1,
        occurrences(group(row_text(style, n, start_num)), ')') == 1,
        n == 0 ==> row_text(style, n, start_num) == Seq::<char>::empty(),
{
    lemma_positional_row(n);
    lemma_numbered_row(n, start_index(start_num));
    let row = row_text(style, n, start_num);
    assert(occurrences(row, '(') == 0 && occurrences(row, ')') == 0);
    lemma_group_occurrences(row, marker_char(style));
    lemma_group_occurrences(row, '(');
    lemma_group_occurrences(row, ')');
}

/// In either style, `rows` groups of `columns` markers hold exactly `rows`
/// pairs of parentheses and `rows * columns` markers; one group is the
/// parenthesized row.
pub proof fn lemma_rows_text(
    style: MarkerStyle,
    rows: nat,
    columns: nat,
    start_num: Option<usize>,
)
    ensures
        occurrences(rows_text(style, rows, columns, start_num), marker_char(style)) == rows
            * columns,
        occurrences(rows_text(style, rows, columns, start_num), '(') == rows,
        occurrences(rows_text(style, rows, columns, start_num), ')') == rows,
        rows == 0 ==> rows_text(style, rows, columns, start_num) == Seq::<char>::empty(),
        rows == 1 ==> rows_text(style, rows, columns, start_num) == group(
            row_text(style, columns, start_num),
        ),
{
    lemma_positional_rows(rows, columns);
    lemma_numbered_rows(rows, columns, start_index(start_num));
    if rows == 1 {
        assert(0 * columns == 0) by (nonlinear_arith);
        assert(positional_groups(1, columns)[0] == group(positional_row(columns)));
        assert(numbered_groups(1, columns, start_index(start_num))[0] == group(
            numbered_row(columns, start_index(start_num)),
        ));
    }
}

/// Whether `r` is `text` when the markers fit, and `IndexOverflow` when they
/// do not.
pub open spec fn is_marker_result(
    r: Result<String, ConfigError>,
    fit: bool,
    text: Seq<char>,
) -> bool {
    match r {
        Ok(s) => fit && s@ == text,
        Err(e) => !fit && e == ConfigError::IndexOverflow,
    }
}

/// SQLite, as `sqlx` names it: a marker type without contents.
#[verifier::external_type_specification]
#[verifier::external_body]
pub struct ExSqlite(sqlx::Sqlite);

/// MySQL, as `sqlx` names it: a marker type without contents.
#[verifier::external_type_specification]
#[verifier::external_body]
pub struct ExMySql(sqlx::MySql);

/// Microsoft SQL Server, as `sqlx` names it: a marker type without contents.
#[verifier::external_type_specification]
#[verifier::external_body]
pub struct ExMssql(sqlx::Mssql);

/// PostgreSQL, as `sqlx` names it: a marker type without contents.
#[verifier::external_type_specification]
#[verifier::external_body]
pub struct ExPostgres(sqlx::Postgres);

/// The markers that a dialect writes.
///
/// A dialect says which style it has; the two generators follow from it.
pub trait PlaceHolders {
    /// The style of this dialect.
    open spec fn style() -> MarkerStyle {
        MarkerStyle::Positional
    }

    /// The style of this dialect.
    fn marker_style() -> (r: MarkerStyle)
        ensures
            r == Self::style(),
    ;

    /// One row of `num` markers. `start_num` matters to the numbered style
    /// only, where `None` stands for 1.
    fn placeholders(num: usize, start_num: Option<usize>) -> (r: Result<String, ConfigError>)
        ensures
            is_marker_result(
                r,
                markers_fit(Self::style(), num as nat, start_num),
                row_text(Self::style(), num as nat, start_num),
            ),
    {
        match Self::marker_style() {
            MarkerStyle::Positional => Ok(placeholders(num)),
            MarkerStyle::Numbered => placeholders_postgres(num, start_num),
        }
    }

    /// `row_count` parenthesized groups of `columns_per_row` markers.
    /// `start_num` matters to the numbered style only, where `None` stands
    /// for 1.
    fn placeholders_for_bulk_insert_values(
        row_count: usize,
        columns_per_row: usize,
        start_num: Option<usize>,
    ) -> (r: Result<String, ConfigError>)
        ensures
            is_marker_result(
                r,
                markers_fit(Self::style(), (row_count * columns_per_row) as nat, start_num),
                rows_text(Self::style(), row_count as nat, columns_per_row as nat, start_num),
            ),
    {
        assert(row_count * columns_per_row >= 0) by (nonlinear_arith);
        match Self::marker_style() {
            MarkerStyle::Positional => Ok(placeholders_for_rows(row_count, columns_per_row)),
            MarkerStyle::Numbered => placeholders_for_rows_postgres(
                row_count,
                columns_per_row,
                start_num,
            ),
        }
    }
}

impl PlaceHolders for sqlx::Sqlite {
    open spec fn style() -> MarkerStyle {
        MarkerStyle::Positional
    }

    fn marker_style() -> (r: MarkerStyle) {
        MarkerStyle::Positional
    }
}

impl PlaceHolders for sqlx::MySql {
    open spec fn style() -> MarkerStyle {
        MarkerStyle::Positional
    }

    fn marker_style() -> (r: MarkerStyle) {
        MarkerStyle::Positional
    }
}

impl PlaceHolders for sqlx::Mssql {
    open spec fn style() -> MarkerStyle {
        MarkerStyle::Positional
    }

    fn marker_style() -> (r: MarkerStyle) {
        MarkerStyle::Positional
    }
}

impl PlaceHolders for sqlx::Postgres {
    open spec fn style() -> MarkerStyle {
        MarkerStyle::Numbered
    }

    fn marker_style() -> (r: MarkerStyle) {
        MarkerStyle::Numbered
    }
}

} // verus!
