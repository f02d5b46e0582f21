use sqlx_plus::{
    bulk_insert, bulk_insert_statement, bulk_insert_statements, bulk_insert_with_chunk_size,
    bulk_insert_with_table_name,
    bulk_insert_with_table_name_and_chunk_size, check_bulk_config, count_chunks,
    default_chunk_size, insert, insert_statement, BulkInsert, Chunk, ConfigError, InsertError,
    Insertable, QueryBindExt, Statement, PARAMETER_LIMIT,
};
use std::cell::RefCell;

struct User {
    name: String,
    password: String,
    created_at: String,
}

impl Insertable for User {
    type Database = sqlx::Sqlite;
    type Value = String;

    fn table_name() -> &'static str {
        "user"
    }

    fn insert_columns() -> Vec<&'static str> {
        vec!["name", "password", "created_at"]
    }

    fn bind_fields<Q: QueryBindExt<String>>(&self, q: Q) -> Q {
        q.bind(self.name.clone())
            .bind(self.password.clone())
            .bind(self.created_at.clone())
    }
}

struct PgUser(User);

impl Insertable for PgUser {
    type Database = sqlx::Postgres;
    type Value = String;

    fn table_name() -> &'static str {
        "user"
    }

    fn insert_columns() -> Vec<&'static str> {
        vec!["name", "password", "created_at"]
    }

    fn bind_fields<Q: QueryBindExt<String>>(&self, q: Q) -> Q {
        self.0.bind_fields(q)
    }
}

struct Point {
    x: i64,
    y: i64,
}

impl Insertable for Point {
    type Database = sqlx::MySql;
    type Value = i64;

    fn table_name() -> &'static str {
        "point"
    }

    fn insert_columns() -> Vec<&'static str> {
        vec!["x", "y"]
    }

    fn bind_fields<Q: QueryBindExt<i64>>(&self, q: Q) -> Q {
        q.bind(self.x).bind(self.y)
    }
}

struct PgPoint {
    x: i64,
    y: i64,
}

impl Insertable for PgPoint {
    type Database = sqlx::Postgres;
    type Value = i64;

    fn table_name() -> &'static str {
        "point"
    }

    fn insert_columns() -> Vec<&'static str> {
        vec!["x", "y"]
    }

    fn bind_fields<Q: QueryBindExt<i64>>(&self, q: Q) -> Q {
        q.bind(self.x).bind(self.y)
    }
}

struct Nothing;

impl Insertable for Nothing {
    type Database = sqlx::Sqlite;
    type Value = i64;

    fn table_name() -> &'static str {
        "nothing"
    }

    fn insert_columns() -> Vec<&'static str> {
        Vec::new()
    }

    fn bind_fields<Q: QueryBindExt<i64>>(&self, q: Q) -> Q {
        q
    }
}

fn user() -> User {
    User {
        name: "hoge".to_string(),
        password: "password4".to_string(),
        created_at: "2022-06-20 01:02:03".to_string(),
    }
}

fn points(n: i64) -> Vec<Point> {
    (0..n).map(|i| Point { x: 10 * i, y: 10 * i + 1 }).collect()
}

fn fragment(sql: &str) -> &str {
    sql.split(" VALUES ").nth(1).unwrap()
}

#[test]
fn single_insert_positional_statement() {
    let st = insert_statement(&user()).unwrap();
    assert_eq!(
        st.sql,
        "INSERT INTO user (name,password,created_at) VALUES (?,?,?)"
    );
    assert_eq!(fragment(&st.sql), "(?,?,?)");
    assert_eq!(st.values, vec!["hoge", "password4", "2022-06-20 01:02:03"]);
}

#[test]
fn single_insert_numbered_statement() {
    let st = insert_statement(&PgUser(user())).unwrap();
    assert_eq!(
        st.sql,
        "INSERT INTO user (name,password,created_at) VALUES ($1,$2,$3)"
    );
    assert_eq!(fragment(&st.sql), "($1,$2,$3)");
    assert_eq!(st.values, vec!["hoge", "password4", "2022-06-20 01:02:03"]);
}

#[test]
fn single_insert_marker_count_is_column_count() {
    let st = insert_statement(&user()).unwrap();
    assert_eq!(fragment(&st.sql).matches('?').count(), User::insert_columns().len());
    assert_eq!(st.values.len(), User::insert_columns().len());
    let st = insert_statement(&PgPoint { x: 1, y: 2 }).unwrap();
    assert_eq!(fragment(&st.sql).matches('$').count(), PgPoint::insert_columns().len());
}

#[test]
fn single_insert_without_columns_is_refused() {
    assert_eq!(insert_statement(&Nothing), Err(ConfigError::NoColumns));
    let calls = RefCell::new(0);
    let r: Result<u64, InsertError<String>> = insert(
        |_st: Statement<i64>| {
            *calls.borrow_mut() += 1;
            Ok(1)
        },
        &Nothing,
    );
    assert_eq!(r, Err(InsertError::Config(ConfigError::NoColumns)));
    assert_eq!(*calls.borrow(), 0);
}

#[test]
fn single_insert_executes_exactly_one_statement() {
    let log: RefCell<Vec<Statement<String>>> = RefCell::new(Vec::new());
    let r: Result<u64, InsertError<String>> = insert(
        |st: Statement<String>| {
            log.borrow_mut().push(st);
            Ok(42)
        },
        &user(),
    );
    assert_eq!(r, Ok(42));
    let log = log.into_inner();
    assert_eq!(log.len(), 1);
    assert_eq!(log[0], insert_statement(&user()).unwrap());
}

#[test]
fn single_insert_passes_the_executor_error_on() {
    let r: Result<u64, InsertError<String>> =
        insert(|_st: Statement<String>| Err("unique violation".to_string()), &user());
    assert_eq!(r, Err(InsertError::Statement("unique violation".to_string())));
}

#[test]
fn chunk_statement_is_row_major() {
    let rows = points(3);
    let st = bulk_insert_statement("other", &rows).unwrap();
    assert_eq!(st.sql, "INSERT INTO other (x,y) VALUES (?,?),(?,?),(?,?)");
    assert_eq!(st.values, vec![0, 1, 10, 11, 20, 21]);

    let rows = [PgPoint { x: 1, y: 2 }, PgPoint { x: 3, y: 4 }];
    let st = bulk_insert_statement("point", &rows).unwrap();
    assert_eq!(st.sql, "INSERT INTO point (x,y) VALUES ($1,$2),($3,$4)");
    assert_eq!(st.values, vec![1, 2, 3, 4]);
}

#[test]
fn chunk_statement_without_columns_is_refused() {
    assert_eq!(bulk_insert_statement("nothing", &[Nothing]), Err(ConfigError::NoColumns));
}

#[test]
fn bulk_insert_five_rows_in_chunks_of_two() {
    let rows = points(5);
    let log: RefCell<Vec<Statement<i64>>> = RefCell::new(Vec::new());
    let r: Result<Vec<usize>, InsertError<String>> = bulk_insert_with_chunk_size(
        |st: Statement<i64>| {
            let n = st.values.len();
            log.borrow_mut().push(st);
            Ok(n)
        },
        2,
        &rows,
    );
    assert_eq!(r, Ok(vec![4, 4, 2]));
    let log = log.into_inner();
    assert_eq!(log.len(), 3);
    assert_eq!(fragment(&log[0].sql), "(?,?),(?,?)");
    assert_eq!(fragment(&log[1].sql), "(?,?),(?,?)");
    assert_eq!(fragment(&log[2].sql), "(?,?)");
    assert_eq!(log[0].sql, "INSERT INTO point (x,y) VALUES (?,?),(?,?)");
    assert_eq!(log[0].values, vec![0, 1, 10, 11]);
    assert_eq!(log[1].values, vec![20, 21, 30, 31]);
    assert_eq!(log[2].values, vec![40, 41]);
}

#[test]
fn bulk_insert_numbered_restarts_in_each_chunk() {
    let rows: Vec<PgPoint> = (0..3).map(|i| PgPoint { x: i, y: -i }).collect();
    let log: RefCell<Vec<Statement<i64>>> = RefCell::new(Vec::new());
    let r: Result<Vec<()>, InsertError<String>> = bulk_insert_with_chunk_size(
        |st: Statement<i64>| {
            log.borrow_mut().push(st);
            Ok(())
        },
        2,
        &rows,
    );
    assert_eq!(r, Ok(vec![(), ()]));
    let log = log.into_inner();
    assert_eq!(fragment(&log[0].sql), "($1,$2),($3,$4)");
    assert_eq!(fragment(&log[1].sql), "($1,$2)");
    assert_eq!(log[1].values, vec![2, -2]);
}

#[test]
fn bulk_insert_statement_count_is_rounded_up() {
    for batch in 0..13i64 {
        for chunk_size in 1..6usize {
            let rows = points(batch);
            let sizes: RefCell<Vec<usize>> = RefCell::new(Vec::new());
            let r: Result<Vec<usize>, InsertError<String>> = bulk_insert_with_chunk_size(
                |st: Statement<i64>| {
                    sizes.borrow_mut().push(st.values.len() / 2);
                    Ok(sizes.borrow().len() - 1)
                },
                chunk_size,
                &rows,
            );
            let b = batch as usize;
            let expected = (b + chunk_size - 1) / chunk_size;
            let results = r.unwrap();
            assert_eq!(results, (0..expected).collect::<Vec<usize>>());
            assert_eq!(count_chunks(b, chunk_size), expected);
            let sizes = sizes.into_inner();
            assert_eq!(sizes.len(), expected);
            assert_eq!(sizes.iter().sum::<usize>(), b);
            for (i, size) in sizes.iter().enumerate() {
                if i + 1 < expected {
                    assert_eq!(*size, chunk_size);
                } else if b % chunk_size == 0 {
                    assert_eq!(*size, chunk_size);
                } else {
                    assert_eq!(*size, b % chunk_size);
                }
            }
        }
    }
}

#[test]
fn bulk_insert_of_nothing_executes_nothing() {
    let calls = RefCell::new(0);
    let none: Vec<Point> = Vec::new();
    let r: Result<Vec<u64>, InsertError<String>> = bulk_insert(
        |_st: Statement<i64>| {
            *calls.borrow_mut() += 1;
            Ok(1)
        },
        &none,
    );
    assert_eq!(r, Ok(Vec::new()));
    assert_eq!(*calls.borrow(), 0);
    let r: Result<Vec<u64>, InsertError<String>> =
        bulk_insert_with_table_name_and_chunk_size(|_st: Statement<i64>| Ok(1), "t", 3, &none);
    assert_eq!(r, Ok(Vec::new()));
}

#[test]
fn bulk_insert_uses_the_default_chunk_size() {
    let rows = points(15001);
    let sizes: RefCell<Vec<usize>> = RefCell::new(Vec::new());
    let r: Result<Vec<()>, InsertError<String>> = bulk_insert(
        |st: Statement<i64>| {
            sizes.borrow_mut().push(st.values.len());
            Ok(())
        },
        &rows,
    );
    assert_eq!(r.unwrap().len(), 2);
    assert_eq!(sizes.into_inner(), vec![30000, 2]);
}

#[test]
fn bulk_insert_uses_the_given_table_name() {
    let rows = points(1);
    let log: RefCell<Vec<String>> = RefCell::new(Vec::new());
    let r: Result<Vec<()>, InsertError<String>> = bulk_insert_with_table_name(
        |st: Statement<i64>| {
            log.borrow_mut().push(st.sql);
            Ok(())
        },
        "archive",
        &rows,
    );
    assert_eq!(r, Ok(vec![()]));
    assert_eq!(log.into_inner(), vec!["INSERT INTO archive (x,y) VALUES (?,?)"]);
}

#[test]
fn bulk_insert_stops_at_the_first_failure() {
    let rows = points(7);
    let log: RefCell<Vec<Vec<i64>>> = RefCell::new(Vec::new());
    let r: Result<Vec<usize>, InsertError<String>> = bulk_insert_with_table_name_and_chunk_size(
        |st: Statement<i64>| {
            log.borrow_mut().push(st.values);
            if log.borrow().len() == 2 {
                Err("connection lost".to_string())
            } else {
                Ok(log.borrow().len())
            }
        },
        "point",
        2,
        &rows,
    );
    assert_eq!(
        r,
        Err(InsertError::Chunk { index: 1, source: "connection lost".to_string() })
    );
    assert_eq!(log.into_inner(), vec![vec![0, 1, 10, 11], vec![20, 21, 30, 31]]);
}

#[test]
fn bulk_insert_refuses_a_zero_chunk_size() {
    let calls = RefCell::new(0);
    let r: Result<Vec<u64>, InsertError<String>> = bulk_insert_with_chunk_size(
        |_st: Statement<i64>| {
            *calls.borrow_mut() += 1;
            Ok(1)
        },
        0,
        &points(3),
    );
    assert_eq!(r, Err(InsertError::Config(ConfigError::ZeroChunkSize)));
    assert_eq!(*calls.borrow(), 0);
    let none: Vec<Point> = Vec::new();
    let r: Result<Vec<u64>, InsertError<String>> =
        bulk_insert_with_chunk_size(|_st: Statement<i64>| Ok(1), 0, &none);
    assert_eq!(r, Err(InsertError::Config(ConfigError::ZeroChunkSize)));
}

#[test]
fn bulk_insert_refuses_a_type_without_columns() {
    let calls = RefCell::new(0);
    let r: Result<Vec<u64>, InsertError<String>> = bulk_insert(
        |_st: Statement<i64>| {
            *calls.borrow_mut() += 1;
            Ok(1)
        },
        &[Nothing, Nothing],
    );
    assert_eq!(r, Err(InsertError::Config(ConfigError::NoColumns)));
    let r: Result<Vec<u64>, InsertError<String>> =
        bulk_insert_with_chunk_size(|_st: Statement<i64>| Ok(1), 4, &[Nothing]);
    assert_eq!(r, Err(InsertError::Config(ConfigError::NoColumns)));
    assert_eq!(*calls.borrow(), 0);
}

#[test]
fn bulk_configuration_checks() {
    assert_eq!(check_bulk_config::<Point>(2, 5), Ok(()));
    assert_eq!(check_bulk_config::<Point>(0, 5), Err(ConfigError::ZeroChunkSize));
    assert_eq!(check_bulk_config::<Point>(0, 0), Err(ConfigError::ZeroChunkSize));
    assert_eq!(check_bulk_config::<Nothing>(2, 0), Err(ConfigError::NoColumns));
    assert_eq!(check_bulk_config::<Nothing>(0, 0), Err(ConfigError::ZeroChunkSize));
    assert_eq!(check_bulk_config::<Point>(usize::MAX, usize::MAX), Ok(()));
    assert_eq!(
        check_bulk_config::<PgPoint>(usize::MAX, usize::MAX),
        Err(ConfigError::IndexOverflow)
    );
    assert_eq!(check_bulk_config::<PgPoint>(usize::MAX, 5), Ok(()));
    assert_eq!(check_bulk_config::<PgPoint>(usize::MAX / 2, usize::MAX), Ok(()));
    assert_eq!(
        check_bulk_config::<PgPoint>(usize::MAX / 2 + 1, usize::MAX),
        Err(ConfigError::IndexOverflow)
    );
}

#[test]
fn default_chunk_size_is_the_limit_divided_by_the_columns() {
    assert_eq!(PARAMETER_LIMIT, 30000);
    assert_eq!(default_chunk_size(1), Ok(30000));
    assert_eq!(default_chunk_size(2), Ok(15000));
    assert_eq!(default_chunk_size(3), Ok(10000));
    assert_eq!(default_chunk_size(7), Ok(4285));
    assert_eq!(default_chunk_size(29999), Ok(1));
    assert_eq!(default_chunk_size(30000), Ok(1));
}

#[test]
fn default_chunk_size_refuses_what_gives_no_chunk() {
    assert_eq!(default_chunk_size(0), Err(ConfigError::NoColumns));
    assert_eq!(default_chunk_size(30001), Err(ConfigError::ZeroChunkSize));
    assert_eq!(default_chunk_size(usize::MAX), Err(ConfigError::ZeroChunkSize));
}

#[test]
fn chunk_counts() {
    assert_eq!(count_chunks(0, 3), 0);
    assert_eq!(count_chunks(1, 3), 1);
    assert_eq!(count_chunks(3, 3), 1);
    assert_eq!(count_chunks(4, 3), 2);
    assert_eq!(count_chunks(5, 2), 3);
    assert_eq!(count_chunks(usize::MAX, 1), usize::MAX);
    assert_eq!(count_chunks(usize::MAX, 2), usize::MAX / 2 + 1);
    assert_eq!(count_chunks(usize::MAX, usize::MAX), 1);
}

#[test]
fn state_machine_hands_out_chunks_in_order() {
    let mut state: BulkInsert<char, String> = BulkInsert::new(2, 5).ok().unwrap();
    assert_eq!(state.next_chunk(), Some(Chunk { index: 0, first_row: 0, row_count: 2 }));
    assert_eq!(state.next_chunk(), Some(Chunk { index: 0, first_row: 0, row_count: 2 }));
    state = state.record(Ok('a'));
    assert_eq!(state.next_chunk(), Some(Chunk { index: 1, first_row: 2, row_count: 2 }));
    state = state.record(Ok('b'));
    assert_eq!(state.next_chunk(), Some(Chunk { index: 2, first_row: 4, row_count: 1 }));
    state = state.record(Ok('c'));
    assert_eq!(state.next_chunk(), None);
    state = state.record(Ok('d'));
    assert_eq!(state.next_chunk(), None);
    assert_eq!(state.finish(), Ok(vec!['a', 'b', 'c']));
}

#[test]
fn state_machine_ends_at_a_failure() {
    let mut state: BulkInsert<char, String> = BulkInsert::new(3, 9).ok().unwrap();
    state = state.record(Ok('a'));
    state = state.record(Err("boom".to_string()));
    assert_eq!(state.next_chunk(), None);
    state = state.record(Ok('z'));
    assert_eq!(
        state.finish(),
        Err(InsertError::Chunk { index: 1, source: "boom".to_string() })
    );
}

#[test]
fn state_machine_edges() {
    assert!(matches!(BulkInsert::<u8, u8>::new(0, 4), Err(ConfigError::ZeroChunkSize)));
    assert!(matches!(BulkInsert::<u8, u8>::new(0, 0), Err(ConfigError::ZeroChunkSize)));
    let empty: BulkInsert<u8, u8> = BulkInsert::new(4, 0).ok().unwrap();
    assert_eq!(empty.next_chunk(), None);
    assert_eq!(empty.finish(), Ok(Vec::new()));
    let whole: BulkInsert<u8, u8> = BulkInsert::new(4, 4).ok().unwrap();
    assert_eq!(whole.next_chunk(), Some(Chunk { index: 0, first_row: 0, row_count: 4 }));
    let early: BulkInsert<u8, u8> = BulkInsert::new(4, 9).ok().unwrap();
    assert_eq!(early.record(Ok(1)).finish(), Ok(vec![1]));
    let huge: BulkInsert<u8, u8> = BulkInsert::new(usize::MAX, usize::MAX).ok().unwrap();
    assert_eq!(
        huge.next_chunk(),
        Some(Chunk { index: 0, first_row: 0, row_count: usize::MAX })
    );
    let mut last: BulkInsert<u8, u8> = BulkInsert::new(usize::MAX - 1, usize::MAX).ok().unwrap();
    last = last.record(Ok(0));
    assert_eq!(
        last.next_chunk(),
        Some(Chunk { index: 1, first_row: usize::MAX - 1, row_count: 1 })
    );
}

#[test]
fn planned_statements_for_five_rows_in_chunks_of_two() {
    let rows = points(5);
    let statements = bulk_insert_statements("point", 2, &rows).unwrap();
    assert_eq!(statements.len(), 3);
    let fragments: Vec<&str> = statements.iter().map(|st| fragment(&st.sql)).collect();
    assert_eq!(fragments, vec!["(?,?),(?,?)", "(?,?),(?,?)", "(?,?)"]);
    let values: Vec<Vec<i64>> = statements.iter().map(|st| st.values.clone()).collect();
    assert_eq!(values, vec![vec![0, 1, 10, 11], vec![20, 21, 30, 31], vec![40, 41]]);
    for st in &statements {
        assert_eq!(st.sql.matches('?').count(), st.values.len());
    }
}

#[test]
fn planned_statements_are_what_the_insertion_executes() {
    let rows = points(7);
    let log: RefCell<Vec<Statement<i64>>> = RefCell::new(Vec::new());
    let r: Result<Vec<()>, InsertError<String>> = bulk_insert_with_table_name_and_chunk_size(
        |st: Statement<i64>| {
            log.borrow_mut().push(st);
            Ok(())
        },
        "point",
        3,
        &rows,
    );
    assert_eq!(r.unwrap().len(), 3);
    assert_eq!(log.into_inner(), bulk_insert_statements("point", 3, &rows).unwrap());
}

#[test]
fn planned_statements_edges() {
    let none: Vec<Point> = Vec::new();
    assert_eq!(bulk_insert_statements("point", 2, &none), Ok(Vec::new()));
    assert_eq!(
        bulk_insert_statements("point", 0, &points(2)),
        Err(ConfigError::ZeroChunkSize)
    );
    assert_eq!(
        bulk_insert_statements("nothing", 2, &[Nothing]),
        Err(ConfigError::NoColumns)
    );
    let one = bulk_insert_statements("point", usize::MAX, &points(4)).unwrap();
    assert_eq!(one.len(), 1);
    assert_eq!(one[0].values.len(), 8);
    let each = bulk_insert_statements("point", 1, &points(4)).unwrap();
    assert_eq!(each.len(), 4);
    for (i, st) in each.iter().enumerate() {
        assert_eq!(st.sql, "INSERT INTO point (x,y) VALUES (?,?)");
        assert_eq!(st.values, vec![10 * i as i64, 10 * i as i64 + 1]);
    }
}
