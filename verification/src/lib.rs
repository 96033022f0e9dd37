//! LLMLang: a token-dense prefix-arity language. This crate holds the
//! compiler front end (lexer, parser, pretty printer), the affine ownership
//! analysis and the module-level analyses, each with a machine-checked contract.

use vstd::prelude::*;

pub mod compiler;
pub mod index;
pub mod testing;
pub mod text;

verus! {

/// Tuning knobs for automatic parallelism and the runtime thread pool.
#[derive(Debug, Clone)]
pub struct Config {
    pub parallel_threshold: usize,
    pub max_threads: usize,
    pub queue_size: usize,
}

impl Default for Config {
    fn default() -> (c: Self)
        ensures
            c.parallel_threshold == 50,
            c.max_threads == 8,
            c.queue_size == 64,
    {
        Self { parallel_threshold: 50, max_threads: 8, queue_size: 64 }
    }
}

} // verus!
