//! Parameter markers for one row and for many rows, in the positional style
//! (`?`) and in the numbered style (`$1`, `$2`, ...).

use crate::bind::Insertable;
use crate::error::ConfigError;
use crate::text::{
    decimal, decimal_value, join, joined, lemma_decimal_digits_only, lemma_decimal_value,
    lemma_occurrences_concat, lemma_occurrences_joined, lemma_occurrences_single, occurrences,
    push_decimal, views,
};
use vstd::prelude::*;

verus! {

/// The separator between markers and between row groups.
pub open spec fn comma() -> Seq<char> {
    seq![',']
}

/// `n` positional markers.
pub open spec fn positional_markers(n: nat) -> Seq<Seq<char>> {
    Seq::new(n, |i: int| seq!['?'])
}

/// `n` positional markers joined by commas: `?,?,?`.
pub open spec fn positional_row(n: nat) -> Seq<char> {
    joined(positional_markers(n), comma())
}

/// A row of markers in parentheses.
pub open spec fn group(row: Seq<char>) -> Seq<char> {
    seq!['('] + row + seq![')']
}

/// `rows` identical groups of `columns` positional markers.
pub open spec fn positional_groups(rows: nat, columns: nat) -> Seq<Seq<char>> {
    Seq::new(rows, |i: int| group(positional_row(columns)))
}

/// The groups joined by commas: `(?,?),(?,?)`.
pub open spec fn positional_rows(rows: nat, columns: nat) -> Seq<char> {
    joined(positional_groups(rows, columns), comma())
}

/// The numbered marker with index `k`: `$k`.
pub open spec fn numbered_marker(k: nat) -> Seq<char> {
    seq!['$'] + decimal(k)
}

/// The markers `$start`, `$start+1`, ..., `$start+n-1`.
pub open spec fn numbered_markers(n: nat, start: nat) -> Seq<Seq<char>> {
    Seq::new(n, |i: int| numbered_marker((start + i) as nat))
}

/// `n` numbered markers from `start`, joined by commas: `$1,$2,$3`.
pub open spec fn numbered_row(n: nat, start: nat) -> Seq<char> {
    joined(numbered_markers(n, start), comma())
}

/// The index of the first marker of group `i`: `start + i * columns`.
pub open spec fn group_start(start: nat, columns: nat, i: nat) -> nat {
    start + i * columns
}

/// `rows` groups of `columns` numbered markers; group `i` starts at
/// `start + i * columns`.
pub open spec fn numbered_groups(rows: nat, columns: nat, start: nat) -> Seq<Seq<char>> {
    Seq::new(rows, |i: int| group(numbered_row(columns, group_start(start, columns, i as nat))))
}

/// The groups joined by commas: `($1,$2),($3,$4)`.
pub open spec fn numbered_rows(rows: nat, columns: nat, start: nat) -> Seq<char> {
    joined(numbered_groups(rows, columns, start), comma())
}

/// The first marker index: the given one, or 1.
pub open spec fn start_index(start_num: Option<usize>) -> nat {
    match start_num {
        Some(s) => s as nat,
        None => 1,
    }
}

/// The index that a numbered marker carries: the number behind its `$`.
pub open spec fn marker_number(marker: Seq<char>) -> nat {
    decimal_value(marker.subrange(1, marker.len() as int))
}

/// A group holds what its row holds, and one parenthesis on each side.
pub proof fn lemma_group_occurrences(row: Seq<char>, c: char)
    ensures
        occurrences(group(row), c) == occurrences(row, c) + if c == '(' || c == ')' {
            1nat
        } else {
            0nat
        },
{
    lemma_occurrences_single('(', c);
    lemma_occurrences_single(')', c);
    lemma_occurrences_concat(seq!['('], row, c);
    lemma_occurrences_concat(seq!['('] + row, seq![')'], c);
}

/// A row of `n` positional markers holds exactly `n` markers and one comma
/// between each two of them, and nothing else; without markers it is empty.
pub proof fn lemma_positional_row(n: nat)
    ensures
        occurrences(positional_row(n), '?') == n,
        occurrences(positional_row(n), ',') == if n == 0 {
            0
        } else {
            n - 1
        },
        forall|c: char| c != '?' && c != ',' ==> occurrences(positional_row(n), c) == 0,
        n == 0 ==> positional_row(n) == Seq::<char>::empty(),
{
    let marks = positional_markers(n);
    lemma_occurrences_single('?', '?');
    lemma_occurrences_single('?', ',');
    lemma_occurrences_single(',', '?');
    lemma_occurrences_single(',', ',');
    lemma_occurrences_joined(marks, comma(), '?', 1);
    lemma_occurrences_joined(marks, comma(), ',', 0);
    assert(n * 1 == n) by (nonlinear_arith);
    assert(n * 0 == 0) by (nonlinear_arith);
    if n > 0 {
        assert((n - 1) * 0 == 0) by (nonlinear_arith);
        assert((n - 1) * 1 == n - 1) by (nonlinear_arith);
    }
    assert forall|c: char| c != '?' && c != ',' implies occurrences(positional_row(n), c)
        == 0 by {
        lemma_occurrences_single('?', c);
        lemma_occurrences_single(',', c);
        lemma_occurrences_joined(marks, comma(), c, 0);
        if n > 0 {
            assert((n - 1) * 0 == 0) by (nonlinear_arith);
        }
    }
}

/// `rows` groups of `columns` positional markers are exactly `rows`
/// parenthesized groups, each of `columns` markers: `rows * columns` markers
/// in all.
pub proof fn lemma_positional_rows(rows: nat, columns: nat)
    ensures
        positional_groups(rows, columns).len() == rows,
        forall|i: int|
            0 <= i < rows ==> #[trigger] positional_groups(rows, columns)[i] == group(
                positional_row(columns),
            ),
        occurrences(group(positional_row(columns)), '?') == columns,
        occurrences(positional_rows(rows, columns), '(') == rows,
        occurrences(positional_rows(rows, columns), ')') == rows,
        occurrences(positional_rows(rows, columns), '?') == rows * columns,
        rows == 0 ==> positional_rows(rows, columns) == Seq::<char>::empty(),
{
    let groups = positional_groups(rows, columns);
    let one = group(positional_row(columns));
    lemma_positional_row(columns);
    lemma_group_occurrences(positional_row(columns), '?');
    lemma_group_occurrences(positional_row(columns), '(');
    lemma_group_occurrences(positional_row(columns), ')');
    lemma_occurrences_single(',', '?');
    lemma_occurrences_single(',', '(');
    lemma_occurrences_single(',', ')');
    lemma_occurrences_joined(groups, comma(), '?', columns);
    lemma_occurrences_joined(groups, comma(), '(', 1);
    lemma_occurrences_joined(groups, comma(), ')', 1);
    assert(rows * 1 == rows) by (nonlinear_arith);
    if rows > 0 {
        assert((rows - 1) * 0 == 0) by (nonlinear_arith);
    } else {
        assert(0 * columns == 0) by (nonlinear_arith);
    }
}

/// Numbered markers count up by one from `start`: marker `i` is a `$`
/// followed by the numeral of `start + i`, and no other number has that
/// numeral.
pub proof fn lemma_numbered_markers(n: nat, start: nat, i: nat)
    requires
        i < n,
    ensures
        numbered_markers(n, start)[i as int] == numbered_marker(start + i),
        numbered_markers(n, start)[i as int][0] == '$',
        marker_number(numbered_markers(n, start)[i as int]) == start + i,
        i + 1 < n ==> marker_number(numbered_markers(n, start)[i as int + 1]) == marker_number(
            numbered_markers(n, start)[i as int],
        ) + 1,
{
    lemma_marker_number(start + i);
    if i + 1 < n {
        lemma_marker_number(start + i + 1);
    }
}

/// The number behind the `$` of the marker with index `k` is `k`.
pub proof fn lemma_marker_number(k: nat)
    ensures
        marker_number(numbered_marker(k)) == k,
        numbered_marker(k)[0] == '$',
        occurrences(numbered_marker(k), '$') == 1,
        forall|c: char|
            c == ',' || c == '(' || c == ')' ==> occurrences(numbered_marker(k), c) == 0,
{
    let m = numbered_marker(k);
    lemma_decimal_value(k);
    assert(m.subrange(1, m.len() as int) =~= decimal(k));
    lemma_occurrences_concat(seq!['$'], decimal(k), '$');
    lemma_occurrences_single('$', '$');
    lemma_decimal_digits_only(k, '$');
    assert forall|c: char| c == ',' || c == '(' || c == ')' implies occurrences(m, c) == 0 by {
        lemma_occurrences_concat(seq!['$'], decimal(k), c);
        lemma_occurrences_single('$', c);
        lemma_decimal_digits_only(k, c);
    }
}

/// A row of `n` numbered markers holds exactly `n` markers and no
/// parenthesis; without markers it is empty.
pub proof fn lemma_numbered_row(n: nat, start: nat)
    ensures
        occurrences(numbered_row(n, start), '$') == n,
        occurrences(numbered_row(n, start), '(') == 0,
        occurrences(numbered_row(n, start), ')') == 0,
        n == 0 ==> numbered_row(n, start) == Seq::<char>::empty(),
{
    let marks = numbered_markers(n, start);
    assert forall|i: int| 0 <= i < marks.len() implies occurrences(#[trigger] marks[i], '$')
        == 1 && occurrences(marks[i], '(') == 0 && occurrences(marks[i], ')') == 0 by {
        lemma_marker_number((start + i) as nat);
    }
    lemma_occurrences_single(',', '$');
    lemma_occurrences_single(',', '(');
    lemma_occurrences_single(',', ')');
    lemma_occurrences_joined(marks, comma(), '$', 1);
    lemma_occurrences_joined(marks, comma(), '(', 0);
    lemma_occurrences_joined(marks, comma(), ')', 0);
    assert(n * 1 == n) by (nonlinear_arith);
    assert(n * 0 == 0) by (nonlinear_arith);
    if n > 0 {
        assert((n - 1) * 0 == 0) by (nonlinear_arith);
    }
}

/// `rows` groups of `columns` numbered markers are exactly `rows`
/// parenthesized groups of `columns` markers each; group `i` starts at index
/// `start + i * columns`, its marker `j` has index `start + i * columns + j`,
/// and the indices run on from each group to the next.
pub proof fn lemma_numbered_rows(rows: nat, columns: nat, start: nat)
    ensures
        numbered_groups(rows, columns, start).len() == rows,
        forall|i: int|
            0 <= i < rows ==> #[trigger] numbered_groups(rows, columns, start)[i] == group(
                numbered_row(columns, group_start(start, columns, i as nat)),
            ),
        forall|i: nat, j: int|
            i < rows && 0 <= j < columns ==> marker_number(
                #[trigger] numbered_markers(columns, group_start(start, columns, i))[j],
            ) == start + i * columns + j,
        forall|i: nat|
            i + 1 < rows ==> #[trigger] group_start(start, columns, i + 1) == group_start(
                start,
                columns,
                i,
            ) + columns,
        occurrences(numbered_rows(rows, columns, start), '(') == rows,
        occurrences(numbered_rows(rows, columns, start), ')') == rows,
        occurrences(numbered_rows(rows, columns, start), '$') == rows * columns,
        rows == 0 ==> numbered_rows(rows, columns, start) == Seq::<char>::empty(),
{
    let groups = numbered_groups(rows, columns, start);
    assert forall|i: nat, j: int| i < rows && 0 <= j < columns implies marker_number(
        #[trigger] numbered_markers(columns, group_start(start, columns, i))[j],
    ) == start + i * columns + j by {
        lemma_numbered_markers(columns, group_start(start, columns, i), j as nat);
    }
    assert forall|i: nat| i + 1 < rows implies #[trigger] group_start(start, columns, i + 1)
        == group_start(start, columns, i) + columns by {
        assert(i * columns + columns == (i + 1) * columns) by (nonlinear_arith);
    }
    assert forall|i: int| 0 <= i < groups.len() implies occurrences(#[trigger] groups[i], '$')
        == columns && occurrences(groups[i], '(') == 1 && occurrences(groups[i], ')') == 1 by {
        let first = group_start(start, columns, i as nat);
        lemma_numbered_row(columns, first);
        lemma_group_occurrences(numbered_row(columns, first), '$');
        lemma_group_occurrences(numbered_row(columns, first), '(');
        lemma_group_occurrences(numbered_row(columns, first), ')');
    }
    lemma_occurrences_single(',', '$');
    lemma_occurrences_single(',', '(');
    lemma_occurrences_single(',', ')');
    lemma_occurrences_joined(groups, comma(), '$', columns);
    lemma_occurrences_joined(groups, comma(), '(', 1);
    lemma_occurrences_joined(groups, comma(), ')', 1);
    assert(rows * 1 == rows) by (nonlinear_arith);
    if rows > 0 {
        assert((rows - 1) * 0 == 0) by (nonlinear_arith);
    } else {
        assert(0 * columns == 0) by (nonlinear_arith);
    }
}

/// Wraps a row of markers in parentheses.
pub(crate) fn parenthesized(row: &String) -> (r: String)
    ensures
        r@ == group(row@),
{
    proof {
        reveal_strlit("(");
        reveal_strlit(")");
    }
    let mut out = String::from_str("(");
    out.append(row.as_str());
    out.append(")");
    assert(out@ =~= group(row@));
    out
}

/// Generates `num` positional markers joined by commas, like `?,?,?`.
/// Zero markers give the empty string.
pub fn placeholders(num: usize) -> (r: String)
    ensures
        r@ == positional_row(num as nat),
{
    proof {
        reveal_strlit("?");
        reveal_strlit(",");
    }
    let mut marks: Vec<String> = Vec::new();
    let mut i: usize = 0;
    while i < num
        invariant
            i <= num,
            "?"@ == seq!['?'],
            marks.len() == i,
            forall|j: int| 0 <= j < i ==> (#[trigger] marks[j])@ == seq!['?'],
        decreases num - i,
    {
        marks.push(String::from_str("?"));
        i += 1;
    }
    assert(views(marks@) =~= positional_markers(num as nat));
    assert(","@ =~= comma());
    join(&marks, ",")
}

/// Generates `row_count` parenthesized groups of `columns_per_row`
/// positional markers, joined by commas, like `(?,?),(?,?)`.
/// Zero rows give the empty string.
pub fn placeholders_for_rows(row_count: usize, columns_per_row: usize) -> (r: String)
    ensures
        r@ == positional_rows(row_count as nat, columns_per_row as nat),
{
    proof {
        reveal_strlit(",");
    }
    let row = placeholders(columns_per_row);
    let one = parenthesized(&row);
    let mut groups: Vec<String> = Vec::new();
    let mut i: usize = 0;
    while i < row_count
        invariant
            i <= row_count,
            one@ == group(positional_row(columns_per_row as nat)),
            groups.len() == i,
            forall|j: int| 0 <= j < i ==> (#[trigger] groups[j])@ == one@,
        decreases row_count - i,
    {
        groups.push(one.clone());
        i += 1;
    }
    assert(views(groups@) =~= positional_groups(row_count as nat, columns_per_row as nat));
    assert(","@ =~= comma());
    join(&groups, ",")
}

/// Generates one parenthesized group of positional markers for each record
/// of `values`, each with as many markers as the record type has columns.
pub fn placeholders_for_bulk_insert_values<T: Insertable>(values: &[T]) -> (r: String)
    ensures
        r@ == positional_rows(values@.len(), T::columns().len()),
{
    let columns = T::insert_columns();
    assert(columns@.len() == T::columns().len());
    placeholders_for_rows(values.len(), columns.len())
}

/// The markers `$start`, ..., `$start+num-1` joined by commas.
fn numbered_row_text(num: usize, start: usize) -> (r: String)
    requires
        start + num <= usize::MAX,
    ensures
        r@ == numbered_row(num as nat, start as nat),
{
    proof {
        reveal_strlit("$");
        reveal_strlit(",");
    }
    let mut marks: Vec<String> = Vec::new();
    let mut i: usize = 0;
    while i < num
        invariant
            i <= num,
            start + num <= usize::MAX,
            "$"@ == seq!['$'],
            marks.len() == i,
            forall|j: int|
                0 <= j < i ==> (#[trigger] marks[j])@ == numbered_marker((start + j) as nat),
        decreases num - i,
    {
        let mut mark = String::from_str("$");
        push_decimal(&mut mark, start + i);
        assert(mark@ =~= numbered_marker((start + i) as nat));
        marks.push(mark);
        i += 1;
    }
    assert(views(marks@) =~= numbered_markers(num as nat, start as nat));
    assert(","@ =~= comma());
    join(&marks, ",")
}

/// Generates `num` numbered markers joined by commas, like `$1,$2,$3`,
/// counting from `start_num` (from 1 when it is `None`).
///
/// Fails with `IndexOverflow` exactly when `start + num` exceeds `usize::MAX`.
pub fn placeholders_postgres(num: usize, start_num: Option<usize>) -> (r: Result<
    String,
    ConfigError,
>)
    ensures
        match r {
            Ok(s) => start_index(start_num) + num <= usize::MAX && s@ == numbered_row(
                num as nat,
                start_index(start_num),
            ),
            Err(e) => start_index(start_num) + num > usize::MAX && e
                == ConfigError::IndexOverflow,
        },
{
    let start: usize = match start_num {
        Some(s) => s,
        None => 1,
    };
    if usize::MAX - start < num {
        return Err(ConfigError::IndexOverflow);
    }
    Ok(numbered_row_text(num, start))
}

/// Generates `row_count` parenthesized groups of `columns_per_row` numbered
/// markers, like `($1,$2),($3,$4)`; the indices run on from one group to the
/// next, counting from `start_num` (from 1 when it is `None`).
///
/// Fails with `IndexOverflow` exactly when `start + row_count *
/// columns_per_row` exceeds `usize::MAX`.
pub fn placeholders_for_rows_postgres(
    row_count: usize,
    columns_per_row: usize,
    start_num: Option<usize>,
) -> (r: Result<String, ConfigError>)
    ensures
        match r {
            Ok(s) => start_index(start_num) + row_count * columns_per_row <= usize::MAX && s@
                == numbered_rows(
                row_count as nat,
                columns_per_row as nat,
                start_index(start_num),
            ),
            Err(e) => start_index(start_num) + row_count * columns_per_row > usize::MAX && e
                == ConfigError::IndexOverflow,
        },
{
    proof {
        reveal_strlit(",");
    }
    let start: usize = match start_num {
        Some(s) => s,
        None => 1,
    };
    let total: usize = match row_count.checked_mul(columns_per_row) {
        Some(t) => t,
        None => {
            return Err(ConfigError::IndexOverflow);
        },
    };
    if usize::MAX - start < total {
        return Err(ConfigError::IndexOverflow);
    }
    let mut groups: Vec<String> = Vec::new();
    let mut i: usize = 0;
    while i < row_count
        invariant
            i <= row_count,
            total == row_count * columns_per_row,
            start + total <= usize::MAX,
            groups.len() == i,
            forall|j: int|
                0 <= j < i ==> (#[trigger] groups[j])@ == group(
                    numbered_row(
                        columns_per_row as nat,
                        group_start(start as nat, columns_per_row as nat, j as nat),
                    ),
                ),
        decreases row_count - i,
    {
        proof {
            lemma_row_fits(i as nat, row_count as nat, columns_per_row as nat);
        }
        let first: usize = start + i * columns_per_row;
        let row = numbered_row_text(columns_per_row, first);
        groups.push(parenthesized(&row));
        i += 1;
    }
    assert(views(groups@) =~= numbered_groups(
        row_count as nat,
        columns_per_row as nat,
        start as nat,
    ));
    assert(","@ =~= comma());
    Ok(join(&groups, ","))
}

/// Generates one parenthesized group of numbered markers for each record of
/// `values`, each with as many markers as the record type has columns; the
/// indices run on from one group to the next.
///
/// Fails with `IndexOverflow` exactly when the last index would exceed
/// `usize::MAX`.
pub fn placeholders_for_bulk_insert_values_postgres<T: Insertable>(
    values: &[T],
    start_num: Option<usize>,
) -> (r: Result<String, ConfigError>)
    ensures
        match r {
            Ok(s) => start_index(start_num) + values@.len() * T::columns().len() <= usize::MAX
                && s@ == numbered_rows(
                values@.len(),
                T::columns().len(),
                start_index(start_num),
            ),
            Err(e) => start_index(start_num) + values@.len() * T::columns().len() > usize::MAX
                && e == ConfigError::IndexOverflow,
        },
{
    let columns = T::insert_columns();
    assert(columns@.len() == T::columns().len());
    placeholders_for_rows_postgres(values.len(), columns.len(), start_num)
}

/// Row `i` of `rows` ends within the span of all rows.
proof fn lemma_row_fits(i: nat, rows: nat, columns: nat)
    requires
        i < rows,
    ensures
        i * columns + columns <= rows * columns,
        i * columns >= 0,
{
    assert(i * columns + columns == (i + 1) * columns) by (nonlinear_arith);
    assert((i + 1) * columns <= rows * columns) by (nonlinear_arith)
        requires
            i + 1 <= rows,
    ;
}

} // verus!
