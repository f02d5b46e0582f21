//! Bulk insertion as a state machine: which chunk to execute next, and what
//! becomes of each outcome.

use crate::chunk::{chunk_count, chunk_len, chunk_start, lemma_chunk_in_batch};
use crate::error::{ConfigError, InsertError};
use vstd::prelude::*;

verus! {

/// One chunk of a batch: the rows `first_row .. first_row + row_count`.
#[derive(Debug, Clone, Copy, PartialEq, Eq, Structural)]
pub struct Chunk {
    /// The position of this chunk among the chunks of the batch, from 0.
    pub index: usize,
    /// The index of its first row in the batch.
    pub first_row: usize,
    /// The number of its rows: at least 1.
    pub row_count: usize,
}

/// The progress of one bulk insertion.
///
/// Chunks are handed out one at a time, in batch order; the next one is
/// handed out only after the outcome of the one before was recorded, and none
/// after a failure.
pub struct BulkInsert<R, E> {
    chunk_size: usize,
    total: usize,
    position: usize,
    results: Vec<R>,
    failure: Option<E>,
}

impl<R, E> BulkInsert<R, E> {
    #[verifier::type_invariant]
    spec fn inv(&self) -> bool {
        &&& self.chunk_size > 0
        &&& self.results@.len() <= chunk_count(self.total as nat, self.chunk_size as nat)
        &&& self.position <= self.total
        &&& self.failure is Some ==> self.results@.len() < chunk_count(
            self.total as nat,
            self.chunk_size as nat,
        )
        &&& if self.results@.len() < chunk_count(self.total as nat, self.chunk_size as nat) {
            self.position == chunk_start(self.chunk_size as nat, self.results@.len())
        } else {
            self.position == self.total
        }
    }

    /// The largest number of rows in one chunk.
    pub closed spec fn chunk_size(&self) -> nat {
        self.chunk_size as nat
    }

    /// The number of rows in the batch.
    pub closed spec fn total(&self) -> nat {
        self.total as nat
    }

    /// The results recorded so far, one for each executed chunk, in chunk
    /// order.
    pub closed spec fn results(&self) -> Seq<R> {
        self.results@
    }

    /// The failure that ended the insertion, if any.
    pub closed spec fn failure(&self) -> Option<E> {
        self.failure
    }

    /// The number of chunks that the whole batch makes.
    pub open spec fn chunks(&self) -> nat {
        chunk_count(self.total(), self.chunk_size())
    }

    /// The chunk to execute next: the first one without a recorded result,
    /// unless a failure was recorded or every chunk has its result.
    pub open spec fn pending(&self) -> Option<Chunk> {
        let done = self.results().len();
        if self.failure() is Some || done >= self.chunks() {
            None
        } else {
            Some(
                Chunk {
                    index: done as usize,
                    first_row: chunk_start(self.chunk_size(), done) as usize,
                    row_count: chunk_len(self.total(), self.chunk_size(), done) as usize,
                },
            )
        }
    }

    /// Starts a bulk insertion of `total` rows in chunks of `chunk_size`.
    ///
    /// Fails with `ZeroChunkSize` exactly when `chunk_size` is zero.
    pub fn new(chunk_size: usize, total: usize) -> (r: Result<Self, ConfigError>)
        ensures
            match r {
                Ok(state) => {
                    &&& chunk_size > 0
                    &&& state.chunk_size() == chunk_size
                    &&& state.total() == total
                    &&& state.results() == Seq::<R>::empty()
                    &&& state.failure() is None
                },
                Err(e) => chunk_size == 0 && e == ConfigError::ZeroChunkSize,
            },
    {
        if chunk_size == 0 {
            return Err(ConfigError::ZeroChunkSize);
        }
        proof {
            lemma_chunk_in_batch(total as nat, chunk_size as nat, 0);
            assert(0 * chunk_size == 0) by (nonlinear_arith);
        }
        Ok(BulkInsert { chunk_size, total, position: 0, results: Vec::new(), failure: None })
    }

    /// The chunk to execute next, or `None` when the insertion is over.
    ///
    /// A chunk that is handed out lies within the batch and is not empty.
    pub fn next_chunk(&self) -> (r: Option<Chunk>)
        ensures
            r == self.pending(),
            self.results().len() <= self.chunks(),
            match r {
                Some(chunk) => {
                    &&& chunk.index == self.results().len()
                    &&& chunk.first_row == chunk_start(self.chunk_size(), self.results().len())
                    &&& chunk.row_count == chunk_len(
                        self.total(),
                        self.chunk_size(),
                        self.results().len(),
                    )
                    &&& 1 <= chunk.row_count <= self.chunk_size()
                    &&& chunk.first_row + chunk.row_count <= self.total()
                },
                None => true,
            },
    {
        proof {
            use_type_invariant(self);
            lemma_chunk_in_batch(
                self.total as nat,
                self.chunk_size as nat,
                self.results@.len(),
            );
        }
        if self.failure.is_some() || self.position >= self.total {
            return None;
        }
        let left: usize = self.total - self.position;
        let row_count: usize = if left < self.chunk_size {
            left
        } else {
            self.chunk_size
        };
        Some(Chunk { index: self.results.len(), first_row: self.position, row_count })
    }

    /// Records the outcome of the pending chunk: a result is appended to the
    /// results, a failure ends the insertion. With no chunk pending the
    /// outcome is dropped and nothing changes.
    pub fn record(self, outcome: Result<R, E>) -> (r: Self)
        ensures
            r.chunk_size() == self.chunk_size(),
            r.total() == self.total(),
            match (self.pending(), outcome) {
                (None, _) => r.results() == self.results() && r.failure() == self.failure(),
                (Some(_), Ok(result)) => r.results() == self.results().push(result)
                    && r.failure() is None,
                (Some(_), Err(error)) => r.results() == self.results() && r.failure() == Some(
                    error,
                ),
            },
    {
        let pending = self.next_chunk();
        proof {
            use_type_invariant(&self);
        }
        let chunk = match pending {
            Some(chunk) => chunk,
            None => {
                return self;
            },
        };
        let BulkInsert { chunk_size, total, position, results, failure } = self;
        match outcome {
            Ok(result) => {
                let mut results = results;
                results.push(result);
                proof {
                    let done = results@.len();
                    lemma_chunk_in_batch(total as nat, chunk_size as nat, done);
                    lemma_chunk_in_batch(total as nat, chunk_size as nat, (done - 1) as nat);
                    assert(done * chunk_size == (done - 1) * chunk_size + chunk_size)
                        by (nonlinear_arith);
                }
                BulkInsert {
                    chunk_size,
                    total,
                    position: position + chunk.row_count,
                    results,
                    failure: None,
                }
            },
            Err(error) => BulkInsert { chunk_size, total, position, results, failure: Some(error) },
        }
    }

    /// Ends the insertion: the failure with the index of the chunk that
    /// failed, or else the results in chunk order, one for each chunk once
    /// nothing is pending.
    pub fn finish(self) -> (r: Result<Vec<R>, InsertError<E>>)
        ensures
            match r {
                Ok(results) => {
                    &&& self.failure() is None
                    &&& results@ == self.results()
                    &&& self.pending() is None ==> results@.len() == self.chunks()
                },
                Err(InsertError::Chunk { index, source }) => {
                    &&& self.failure() == Some(source)
                    &&& index == self.results().len()
                    &&& index < self.chunks()
                },
                Err(_) => false,
            },
    {
        proof {
            use_type_invariant(&self);
        }
        let BulkInsert { chunk_size, total, position, results, failure } = self;
        match failure {
            Some(source) => Err(InsertError::Chunk { index: results.len(), source }),
            None => Ok(results),
        }
    }
}

} // verus!
