//! The per-CPU result value: one frequency sample.

use vstd::prelude::*;

verus! {

/// One logical CPU's frequency readings, in kilohertz.
///
/// A kilohertz count is a megahertz figure with three fixed decimal places,
/// so `2_400_000` kHz stands for 2400.0 MHz. A field is `None` when the
/// measurement could not be obtained: the scaling directory was unresolved,
/// the file was unreadable, or its content did not parse.
#[derive(Clone, Copy, Debug, PartialEq, Eq)]
pub struct CpuFreqs {
    /// Lowest frequency the CPU may scale to, in kHz.
    pub min: Option<u64>,
    /// Highest frequency the CPU may scale to, in kHz.
    pub max: Option<u64>,
    /// Frequency the CPU currently runs at, in kHz.
    pub cur: Option<u64>,
}

/// Every present field of a sample is a non-negative frequency reading:
/// a sample never carries a negative value, only a value or an absence.
pub proof fn lemma_sample_nonnegative(s: CpuFreqs)
    ensures
        s.min matches Some(v) ==> v >= 0,
        s.max matches Some(v) ==> v >= 0,
        s.cur matches Some(v) ==> v >= 0,
{
}

} // verus!
