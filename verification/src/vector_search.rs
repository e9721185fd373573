//! Vector search: the part of checking a solution that needs no distances.

use vstd::prelude::*;

verus! {

/// A solution of a vector search instance: for each query, the index of a
/// vector of the database.
#[derive(Clone, Debug, PartialEq, Eq)]
pub struct Solution {
    pub indexes: Vec<usize>,
}

/// Why the indexes of a solution cannot be looked up.
#[derive(Clone, Copy, Debug, PartialEq, Eq, Structural)]
pub enum IndexError {
    /// The solution does not have one index for each query.
    InvalidNumberOfIndexes { expected: u32, actual: usize },
    /// An index names no vector of the database.
    InvalidIndex { limit: usize, actual: usize },
}

/// How many indexes are looked up: one for each query vector, as far as
/// there are indexes.
pub open spec fn looked_up(indexes: Seq<usize>, query_vectors: int) -> int {
    if query_vectors < indexes.len() {
        query_vectors
    } else {
        indexes.len() as int
    }
}

/// Whether place `k` holds the first index that names no vector of a
/// database of `database_len` vectors.
pub open spec fn first_invalid(indexes: Seq<usize>, database_len: usize, k: int) -> bool {
    &&& 0 <= k < indexes.len()
    &&& indexes[k] >= database_len
    &&& forall|j: int| 0 <= j < k ==> (#[trigger] indexes[j]) < database_len
}

/// What checking `indexes` answers for an instance of `num_queries` queries
/// that holds `query_vectors` query vectors and `database_len` vectors to
/// search.
pub open spec fn indexes_answer(
    indexes: Seq<usize>,
    num_queries: u32,
    query_vectors: int,
    database_len: usize,
    answer: Result<(), IndexError>,
) -> bool {
    match answer {
        Err(IndexError::InvalidNumberOfIndexes { expected, actual }) => {
            &&& indexes.len() != num_queries
            &&& expected == num_queries
            &&& actual == indexes.len()
        },
        Err(IndexError::InvalidIndex { limit, actual }) => {
            &&& indexes.len() == num_queries
            &&& limit == database_len
            &&& exists|k: int|
                k < looked_up(indexes, query_vectors) && first_invalid(indexes, database_len, k)
                    && actual == indexes[k]
        },
        Ok(_) => {
            &&& indexes.len() == num_queries
            &&& forall|k: int|
                0 <= k < looked_up(indexes, query_vectors) ==> (#[trigger] indexes[k])
                    < database_len
        },
    }
}

impl Solution {
    /// Checks that the solution has one index for each query and that each
    /// index that is looked up names a vector of the database. The first
    /// index that does not is reported.
    pub fn check_indexes(&self, num_queries: u32, query_vectors: usize, database_len: usize) -> (answer:
        Result<(), IndexError>)
        ensures
            indexes_answer(self.indexes@, num_queries, query_vectors as int, database_len, answer),
    {
        if self.indexes.len() != num_queries as usize {
            return Err(
                IndexError::InvalidNumberOfIndexes {
                    expected: num_queries,
                    actual: self.indexes.len(),
                },
            );
        }
        let count = if query_vectors < self.indexes.len() {
            query_vectors
        } else {
            self.indexes.len()
        };
        let mut k: usize = 0;
        while k < count
            invariant
                k <= count,
                self.indexes@.len() == num_queries,
                count == looked_up(self.indexes@, query_vectors as int),
                forall|j: int| 0 <= j < k ==> (#[trigger] self.indexes@[j]) < database_len,
            decreases count - k,
        {
            if self.indexes[k] >= database_len {
                assert(first_invalid(self.indexes@, database_len, k as int));
                return Err(IndexError::InvalidIndex { limit: database_len, actual: self.indexes[k] });
            }
            k = k + 1;
        }
        Ok(())
    }
}

} // verus!
