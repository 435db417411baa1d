//! Sizing of the worker pool: one worker per detected logical core, with a
//! fixed fallback where detection fails. Detection itself is the front end's
//! job; the resolution rule is decided here.

use vstd::prelude::*;

verus! {

/// How many worker threads to use where the host's parallelism could not be
/// detected.
pub const DEFAULT_NB_THREADS: usize = 4;

/// Resolve the worker count from the detected parallelism: the detected
/// count where there is one (and it is nonzero), the fixed default
/// otherwise.
pub fn resolve_thread_count(detected: Option<usize>) -> (r: usize)
    ensures
        r >= 1,
        match detected {
            Some(n) => r == if n >= 1 { n as int } else { DEFAULT_NB_THREADS as int },
            None => r == DEFAULT_NB_THREADS,
        },
{
    match detected {
        Some(n) => {
            if n >= 1 {
                n
            } else {
                DEFAULT_NB_THREADS
            }
        },
        None => DEFAULT_NB_THREADS,
    }
}

} // verus!
