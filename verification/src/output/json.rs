use vstd::prelude::*;

verus! {

/// The fix part of a JSON position report.
#[derive(Debug, Clone)]
pub struct FixQuality {
    pub fix_type: String,
    pub num_satellites: usize,
    pub converged: bool,
}

} // verus!
