//! How a batch is cut into chunks that fit one statement.

use crate::error::ConfigError;
use vstd::prelude::*;

verus! {

/// The most values that one statement binds.
pub const PARAMETER_LIMIT: usize = 30000;

/// The number of chunks of at most `chunk_size` rows that `total` rows make:
/// `total / chunk_size`, rounded up.
pub open spec fn chunk_count(total: nat, chunk_size: nat) -> nat {
    if chunk_size == 0 {
        0
    } else {
        ((total + chunk_size - 1) / chunk_size as int) as nat
    }
}

/// The index of the first row of chunk `index`.
pub open spec fn chunk_start(chunk_size: nat, index: nat) -> nat {
    index * chunk_size
}

/// The number of rows of chunk `index`: `chunk_size`, or what is left of the
/// batch where that is less.
pub open spec fn chunk_len(total: nat, chunk_size: nat, index: nat) -> nat {
    if chunk_start(chunk_size, index) >= total {
        0
    } else if total - chunk_start(chunk_size, index) < chunk_size {
        (total - chunk_start(chunk_size, index)) as nat
    } else {
        chunk_size
    }
}

/// The chunk size for a record type with `columns` columns when none is
/// given: as many rows as keep one statement within `PARAMETER_LIMIT` values.
pub open spec fn default_size(columns: nat) -> nat {
    if columns == 0 {
        0
    } else {
        PARAMETER_LIMIT as nat / columns
    }
}

/// The error, if any, that leaves a record type with `columns` columns
/// without a default chunk size: no columns, or more than one statement
/// binds.
pub open spec fn default_size_error(columns: nat) -> Option<ConfigError> {
    if columns == 0 {
        Some(ConfigError::NoColumns)
    } else if columns > PARAMETER_LIMIT {
        Some(ConfigError::ZeroChunkSize)
    } else {
        None
    }
}

/// The chunk size for a record type with `columns` columns:
/// `PARAMETER_LIMIT / columns`, rounded down.
///
/// Fails with `NoColumns` when there are no columns, and with
/// `ZeroChunkSize` when there are more columns than one statement binds.
pub fn default_chunk_size(columns: usize) -> (r: Result<usize, ConfigError>)
    ensures
        match r {
            Ok(size) => {
                &&& default_size_error(columns as nat) is None
                &&& size == default_size(columns as nat)
                &&& size == PARAMETER_LIMIT / columns
                &&& size >= 1
            },
            Err(e) => default_size_error(columns as nat) == Some(e),
        },
{
    if columns == 0 {
        return Err(ConfigError::NoColumns);
    }
    if columns > PARAMETER_LIMIT {
        return Err(ConfigError::ZeroChunkSize);
    }
    let size: usize = PARAMETER_LIMIT / columns;
    assert(size >= 1) by (nonlinear_arith)
        requires
            0 < columns <= 30000usize,
            size == 30000usize / columns,
    ;
    Ok(size)
}

/// The number of chunks of at most `chunk_size` rows that `total` rows make:
/// `total / chunk_size`, rounded up, and none where `chunk_size` is zero.
pub fn count_chunks(total: usize, chunk_size: usize) -> (r: usize)
    ensures
        r == chunk_count(total as nat, chunk_size as nat),
{
    if chunk_size == 0 {
        return 0;
    }
    let whole: usize = total / chunk_size;
    let rest: usize = total % chunk_size;
    proof {
        lemma_count_by_division(total as nat, chunk_size as nat);
    }
    if rest == 0 {
        whole
    } else {
        whole + 1
    }
}

/// Rounding up is the quotient, plus one where there is a remainder.
pub proof fn lemma_count_by_division(total: nat, chunk_size: nat)
    requires
        chunk_size > 0,
    ensures
        chunk_count(total, chunk_size) == if total % chunk_size == 0 {
            total / chunk_size
        } else {
            total / chunk_size + 1
        },
        total / chunk_size <= total,
        total % chunk_size != 0 ==> total / chunk_size < total,
{
    let q = total / chunk_size;
    let m = total % chunk_size;
    assert(total == chunk_size * q + m) by (nonlinear_arith)
        requires
            q == total / chunk_size,
            m == total % chunk_size,
            chunk_size > 0,
    ;
    assert(q <= total) by (nonlinear_arith)
        requires
            total == chunk_size * q + m,
            chunk_size > 0,
            q >= 0,
            m >= 0,
    ;
    if m != 0 {
        assert(q < total) by (nonlinear_arith)
            requires
                total == chunk_size * q + m,
                chunk_size > 0,
                q >= 0,
                m > 0,
        ;
    }
    if m == 0 {
        assert((chunk_size * q + chunk_size - 1) / chunk_size as int == q) by (nonlinear_arith)
            requires
                chunk_size > 0,
                q >= 0,
        ;
    } else {
        assert((chunk_size * q + m + chunk_size - 1) / chunk_size as int == q + 1)
            by (nonlinear_arith)
            requires
                chunk_size > 0,
                q >= 0,
                0 < m < chunk_size,
        ;
    }
}

/// Chunk `index` is within the batch exactly when its first row is.
pub proof fn lemma_chunk_in_batch(total: nat, chunk_size: nat, index: nat)
    requires
        chunk_size > 0,
    ensures
        index < chunk_count(total, chunk_size) <==> chunk_start(chunk_size, index) < total,
{
    lemma_count_by_division(total, chunk_size);
    let q = total / chunk_size;
    let m = total % chunk_size;
    assert(total == chunk_size * q + m) by (nonlinear_arith)
        requires
            q == total / chunk_size,
            m == total % chunk_size,
            chunk_size > 0,
    ;
    if index < q {
        assert(index * chunk_size < chunk_size * q + m) by (nonlinear_arith)
            requires
                index + 1 <= q,
                chunk_size > 0,
                m >= 0,
        ;
    } else if index == q {
        assert(index * chunk_size == chunk_size * q) by (nonlinear_arith)
            requires
                index == q,
        ;
    } else {
        assert(index * chunk_size >= chunk_size * q + m) by (nonlinear_arith)
            requires
                index >= q + 1,
                chunk_size > 0,
                m < chunk_size,
        ;
    }
}

/// The chunks cut the batch into consecutive pieces: every chunk but the
/// last has `chunk_size` rows, the last has the remainder of the division (or
/// `chunk_size` where there is none), each chunk starts where the one before
/// it ends, and the last ends with the batch. An empty batch has no chunk.
pub proof fn lemma_chunks_partition(total: nat, chunk_size: nat)
    requires
        chunk_size > 0,
    ensures
        total == 0 <==> chunk_count(total, chunk_size) == 0,
        chunk_start(chunk_size, 0) == 0,
        forall|i: nat|
            i + 1 < chunk_count(total, chunk_size) ==> #[trigger] chunk_len(total, chunk_size, i)
                == chunk_size,
        chunk_count(total, chunk_size) > 0 ==> chunk_len(
            total,
            chunk_size,
            (chunk_count(total, chunk_size) - 1) as nat,
        ) == if total % chunk_size == 0 {
            chunk_size
        } else {
            total % chunk_size
        },
        forall|i: nat|
            i < chunk_count(total, chunk_size) ==> chunk_start(chunk_size, i) + #[trigger] chunk_len(
                total,
                chunk_size,
                i,
            ) == if i + 1 < chunk_count(total, chunk_size) {
                chunk_start(chunk_size, i + 1)
            } else {
                total
            },
{
    let count = chunk_count(total, chunk_size);
    lemma_count_by_division(total, chunk_size);
    let q = total / chunk_size;
    let m = total % chunk_size;
    assert(total == chunk_size * q + m) by (nonlinear_arith)
        requires
            q == total / chunk_size,
            m == total % chunk_size,
            chunk_size > 0,
    ;
    lemma_chunk_in_batch(total, chunk_size, 0);
    assert(0 * chunk_size == 0) by (nonlinear_arith);
    assert forall|i: nat| i + 1 < count implies #[trigger] chunk_len(total, chunk_size, i)
        == chunk_size by {
        lemma_chunk_in_batch(total, chunk_size, i + 1);
        assert((i + 1) * chunk_size == i * chunk_size + chunk_size) by (nonlinear_arith);
    }
    if count > 0 {
        let last = (count - 1) as nat;
        lemma_chunk_in_batch(total, chunk_size, last);
        if m == 0 {
            assert(last * chunk_size + chunk_size == chunk_size * q) by (nonlinear_arith)
                requires
                    last + 1 == q,
            ;
        } else {
            assert(last * chunk_size == chunk_size * q) by (nonlinear_arith)
                requires
                    last == q,
            ;
        }
    }
    assert forall|i: nat| i < count implies chunk_start(chunk_size, i) + #[trigger] chunk_len(
        total,
        chunk_size,
        i,
    ) == if i + 1 < count {
        chunk_start(chunk_size, i + 1)
    } else {
        total
    } by {
        lemma_chunk_in_batch(total, chunk_size, i);
        assert((i + 1) * chunk_size == i * chunk_size + chunk_size) by (nonlinear_arith);
        if i + 1 < count {
            lemma_chunk_in_batch(total, chunk_size, i + 1);
        }
    }
}

} // verus!
