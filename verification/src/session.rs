//! Decisions about how models run: how many CPU threads a session gets, and
//! whether the graphics card may be used.
use vstd::prelude::*;
use crate::text::{chars_of, chars_eq_str};

verus! {

/// Half the logical cores, but never fewer than two; two when the core count is
/// unknown. Half leaves the interface responsive while a backfill grinds through
/// a library in the background.
pub open spec fn threads_for(cores: Option<usize>) -> int {
    match cores {
        Some(count) => if count / 2 < 2 {
            2
        } else {
            (count / 2) as int
        },
        None => 2,
    }
}

/// Threads for the CPU path, given the machine's core count where it is known.
pub fn intra_threads_for(cores: Option<usize>) -> (r: usize)
    ensures
        r == threads_for(cores),
{
    match cores {
        Some(count) => if count / 2 < 2 {
            2
        } else {
            count / 2
        },
        None => 2,
    }
}

/// The thread count always leaves room to work, and never asks for more threads
/// than a machine with at least two cores has.
pub proof fn lemma_threads_fit_the_machine(cores: usize)
    requires
        cores >= 2,
    ensures
        2 <= threads_for(Some(cores)) <= cores,
{
}

/// The values of `HIVE_GPU` that force the graphics card on.
pub open spec fn forces_gpu(value: Seq<char>) -> bool {
    value == "1"@ || value == "true"@
}

/// Whether models may use the graphics card: the stored switch is on, or
/// `HIVE_GPU` is set to `1` or `true` for this run.
pub fn gpu_allowed_from(enabled: bool, hive_gpu: Option<&str>) -> (r: bool)
    ensures
        r == (enabled || match hive_gpu {
            Some(value) => forces_gpu(value@),
            None => false,
        }),
{
    if enabled {
        return true;
    }
    match hive_gpu {
        Some(value) => {
            let chars = chars_of(value);
            chars_eq_str(&chars, "1") || chars_eq_str(&chars, "true")
        },
        None => false,
    }
}

} // verus!
