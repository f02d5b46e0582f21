//! The record contract and the append-only binder that records write to.

use crate::dialect::PlaceHolders;
use crate::text::str_views;
use vstd::prelude::*;

verus! {

/// An ordered, append-only sequence of bound values.
///
/// Every operation appends: none reorders or removes what was bound before.
///
/// The spec function has a default so that an implementation written in
/// ordinary Rust need not name it; the contracts below then state what such
/// an implementation is trusted to do.
pub trait QueryBindExt<V>: Sized {
    /// The values bound so far, oldest first.
    open spec fn bound(&self) -> Seq<V> {
        arbitrary()
    }

    /// Appends one value.
    fn bind(self, value: V) -> (r: Self)
        ensures
            r.bound() == self.bound().push(value),
    ;

    /// Binds one value through `bind_fn`.
    fn bind_with<F: Fn(Self, V) -> Self>(self, value: V, bind_fn: F) -> (r: Self)
        requires
            call_requires(bind_fn, (self, value)),
        ensures
            call_ensures(bind_fn, (self, value), r),
    {
        bind_fn(self, value)
    }

    /// Appends every value of `values`, in order.
    fn bind_multi(self, values: Vec<V>) -> (r: Self)
        ensures
            r.bound() == self.bound() + values@,
    {
        let ghost start = self.bound();
        let mut q = self;
        for v in it: values
            invariant
                q.bound() == start + it.seq().take(it.index()),
                it.seq() == values@,
        {
            q = q.bind(v);
        }
        q
    }

    /// Binds every item of `values`, in order, each through `bind_fn`.
    fn bind_multi_with<T, F: Fn(Self, &T) -> Self>(self, values: &[T], bind_fn: F) -> (r: Self)
        requires
            forall|q: Self, i: int|
                0 <= i < values@.len() ==> call_requires(bind_fn, (q, &#[trigger] values@[i])),
        ensures
            folds_to(bind_fn, self, values@, r),
    {
        let ghost start = self;
        let mut q = self;
        let mut i: usize = 0;
        while i < values.len()
            invariant
                i <= values@.len(),
                folds_to(bind_fn, start, values@.take(i as int), q),
                forall|q: Self, i: int|
                    0 <= i < values@.len() ==> call_requires(
                        bind_fn,
                        (q, &#[trigger] values@[i]),
                    ),
            decreases values@.len() - i,
        {
            let ghost before = q;
            q = bind_fn(q, &values[i]);
            proof {
                let next = values@.take(i + 1);
                assert(next.drop_last() =~= values@.take(i as int));
                assert(next.last() == values@[i as int]);
                assert(folds_to(bind_fn, start, next.drop_last(), before));
                assert(call_ensures(bind_fn, (before, &next.last()), q));
                assert(folds_to(bind_fn, start, next, q));
            }
            i += 1;
        }
        assert(values@.take(i as int) =~= values@);
        q
    }
}

/// Whether `end` can come of `start` by calling `bind_fn` once for each item
/// of `values`, in order, each call starting from what the one before gave.
pub open spec fn folds_to<Q, T, F: Fn(Q, &T) -> Q>(
    bind_fn: F,
    start: Q,
    values: Seq<T>,
    end: Q,
) -> bool
    decreases values.len(),
{
    if values.len() == 0 {
        end == start
    } else {
        exists|mid: Q|
            folds_to(bind_fn, start, values.drop_last(), mid) && #[trigger] call_ensures(
                bind_fn,
                (mid, &values.last()),
                end,
            )
    }
}

/// A record that can be inserted: a table, its columns, and its field
/// values in column order.
///
/// The spec functions have defaults so that an implementation written in
/// ordinary Rust need not name them; the contracts below then state what such
/// an implementation is trusted to do.
pub trait Insertable: Sized {
    /// The dialect of the database that holds the table.
    type Database: PlaceHolders;

    /// The type of a bound value.
    type Value;

    /// The destination table.
    open spec fn table() -> Seq<char> {
        arbitrary()
    }

    /// The column names, in the order in which the fields are bound.
    open spec fn columns() -> Seq<Seq<char>> {
        arbitrary()
    }

    /// The field values of this record, in column order.
    open spec fn field_values(&self) -> Seq<Self::Value> {
        arbitrary()
    }

    /// The name of the destination table.
    fn table_name() -> (r: &'static str)
        ensures
            r@ == Self::table(),
    ;

    /// The column names, the same list at every call.
    fn insert_columns() -> (r: Vec<&'static str>)
        ensures
            str_views(r@) == Self::columns(),
    ;

    /// Binds each field once, in column order: as many values as there are
    /// columns.
    fn bind_fields<Q: QueryBindExt<Self::Value>>(&self, q: Q) -> (r: Q)
        ensures
            r.bound() == q.bound() + self.field_values(),
            self.field_values().len() == Self::columns().len(),
    ;
}

/// A borrowed record is the record: same table, same columns, same values.
impl<T: Insertable + Sync> Insertable for &T {
    type Database = T::Database;

    type Value = T::Value;

    open spec fn table() -> Seq<char> {
        T::table()
    }

    open spec fn columns() -> Seq<Seq<char>> {
        T::columns()
    }

    open spec fn field_values(&self) -> Seq<Self::Value> {
        (**self).field_values()
    }

    fn table_name() -> (r: &'static str) {
        T::table_name()
    }

    fn insert_columns() -> (r: Vec<&'static str>) {
        T::insert_columns()
    }

    fn bind_fields<Q: QueryBindExt<Self::Value>>(&self, q: Q) -> (r: Q) {
        (*self).bind_fields(q)
    }
}

/// The field values of `rows` in row-major order: all of row 0, then all of
/// row 1, and so on.
pub open spec fn row_major<T: Insertable>(rows: Seq<T>) -> Seq<T::Value>
    decreases rows.len(),
{
    if rows.len() == 0 {
        Seq::empty()
    } else {
        row_major(rows.drop_last()) + rows.last().field_values()
    }
}

/// Binding whole records.
pub trait BindFieldsExt<V>: QueryBindExt<V> {
    /// Appends the fields of one record, in column order.
    fn bind_fields<T: Insertable<Value = V>>(self, value: &T) -> (r: Self)
        ensures
            r.bound() == self.bound() + value.field_values(),
            value.field_values().len() == T::columns().len(),
    {
        value.bind_fields(self)
    }

    /// Appends the fields of every record of `values`, in row-major order.
    fn bind_multi_fields<T: Insertable<Value = V>>(self, values: &[T]) -> (r: Self)
        ensures
            r.bound() == self.bound() + row_major(values@),
            row_major(values@).len() == values@.len() * T::columns().len(),
    {
        let ghost start = self.bound();
        let mut q = self;
        let mut i: usize = 0;
        while i < values.len()
            invariant
                i <= values@.len(),
                q.bound() == start + row_major(values@.take(i as int)),
                row_major(values@.take(i as int)).len() == i * T::columns().len(),
            decreases values@.len() - i,
        {
            let ghost before = q.bound();
            q = values[i].bind_fields(q);
            proof {
                let next = values@.take(i + 1);
                assert(next.drop_last() =~= values@.take(i as int));
                assert(next.last() == values@[i as int]);
                assert(q.bound() =~= start + row_major(next));
                assert((i + 1) * T::columns().len() == i * T::columns().len()
                    + T::columns().len()) by (nonlinear_arith);
            }
            i += 1;
        }
        assert(values@.take(i as int) =~= values@);
        q
    }
}

impl<V, Q: QueryBindExt<V>> BindFieldsExt<V> for Q {

}

/// A binder that keeps the bound values themselves.
#[derive(Debug, Clone, PartialEq, Eq)]
pub struct Bindings<V> {
    pub values: Vec<V>,
}

impl<V> Bindings<V> {
    /// A binder with nothing bound.
    pub fn new() -> (r: Self)
        ensures
            r.bound() == Seq::<V>::empty(),
    {
        Bindings { values: Vec::new() }
    }
}

impl<V> QueryBindExt<V> for Bindings<V> {
    open spec fn bound(&self) -> Seq<V> {
        self.values@
    }

    fn bind(self, value: V) -> (r: Self) {
        let mut values = self.values;
        values.push(value);
        Bindings { values }
    }
}

} // verus!
