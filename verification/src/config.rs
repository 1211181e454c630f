use vstd::prelude::*;

verus! {

/// SBAS settings: whether SBAS is processed and which PRNs are tracked.
#[derive(Debug, Clone)]
pub struct SbasConfig {
    /// Enable SBAS processing
    pub enabled: bool,
    /// SBAS PRNs to track
    pub prns: Vec<u8>,
}

} // verus!
