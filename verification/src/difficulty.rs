//! Difficulty parameters of the vector search class, as the engine passes
//! them to an instance generator.

use vstd::prelude::*;

verus! {

/// Difficulty of a vector search instance.
#[derive(Clone, Copy, Debug, PartialEq, Eq)]
pub struct Difficulty {
    pub num_queries: u32,
    pub better_than_baseline: u32,
}

impl Difficulty {
    /// Reads the two parameters from their place in a job's settings; a
    /// negative parameter keeps its bits.
    pub fn from_arr(arr: &[i32; 2]) -> (difficulty: Difficulty)
        ensures
            difficulty.num_queries == arr@[0] as u32,
            difficulty.better_than_baseline == arr@[1] as u32,
    {
        Difficulty {
            num_queries: #[verifier::truncate]
            (arr[0] as u32),
            better_than_baseline: #[verifier::truncate]
            (arr[1] as u32),
        }
    }

    /// The two parameters, as a job's settings hold them.
    pub fn to_arr(&self) -> (arr: [i32; 2])
        ensures
            arr@ == seq![self.num_queries as i32, self.better_than_baseline as i32],
    {
        let arr = [
            #[verifier::truncate]
            (self.num_queries as i32),
            #[verifier::truncate]
            (self.better_than_baseline as i32),
        ];
        assert(arr@ =~= seq![self.num_queries as i32, self.better_than_baseline as i32]);
        arr
    }
}

/// Difficulty of a vector search instance, as a native solver takes it.
#[derive(Clone, Copy, Debug, PartialEq, Eq)]
pub struct VSODifficulty {
    pub num_queries: u32,
    pub better_than_baseline: u32,
}

impl VSODifficulty {
    /// Reads the two parameters from the front of a job's difficulty;
    /// `None` if it holds fewer than two.
    pub fn from_parameters(parameters: &Vec<i32>) -> (difficulty: Option<VSODifficulty>)
        ensures
            match difficulty {
                Some(d) => {
                    &&& parameters@.len() >= 2
                    &&& d.num_queries == parameters@[0] as u32
                    &&& d.better_than_baseline == parameters@[1] as u32
                },
                None => parameters@.len() < 2,
            },
    {
        if parameters.len() < 2 {
            None
        } else {
            Some(
                VSODifficulty {
                    num_queries: #[verifier::truncate]
                    (parameters[0] as u32),
                    better_than_baseline: #[verifier::truncate]
                    (parameters[1] as u32),
                },
            )
        }
    }
}

} // verus!
