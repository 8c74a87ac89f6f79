//! How a run is set up.
use vstd::prelude::*;

verus! {

/// The number of generators a run starts when it has codes to emit.
pub const WORKERS: usize = 4;

/// How many generators to start for a run that is to emit `total_codes`
/// codes with `workers` generators: none at all when there is nothing to
/// emit, so that a run with a target of zero renders no code.
pub fn workers_to_start(total_codes: usize, workers: usize) -> (n: usize)
    ensures
        n == if total_codes == 0 {
            0
        } else {
            workers
        },
{
    if total_codes == 0 {
        0
    } else {
        workers
    }
}

} // verus!
