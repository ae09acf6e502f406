use vstd::prelude::*;

verus! {

/// How many CPU cores the transcription stage may use.
#[derive(Debug, Clone, Copy, PartialEq, Eq, Structural)]
pub enum PerformanceMode {
    Balanced,
    MaxSpeed,
}

/// Thread count for each performance mode.
pub open spec fn spec_recommended_threads(mode: PerformanceMode) -> usize {
    match mode {
        PerformanceMode::Balanced => 4,
        PerformanceMode::MaxSpeed => 8,
    }
}

/// Number of worker threads recommended for `mode`: 4 when balanced, 8 at
/// full speed.
pub fn recommended_threads(mode: PerformanceMode) -> (n: usize)
    ensures
        n == spec_recommended_threads(mode),
{
    match mode {
        PerformanceMode::Balanced => 4,
        PerformanceMode::MaxSpeed => 8,
    }
}

} // verus!
