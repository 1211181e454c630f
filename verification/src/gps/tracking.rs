use vstd::prelude::*;

use crate::{Error, Result};

verus! {

/// Lock state of a tracking channel.
#[derive(Debug, Clone, Copy, PartialEq, Eq, Structural)]
pub enum ChannelState {
    Idle,
    /// Initial acquisition to tracking transition
    PullIn,
    /// Normal tracking
    Tracking,
    /// Lost lock
    Lost,
}

/// Integrations per 20 ms navigation bit for an integration time in ms,
/// rounded down; a zero integration time gives `u32::MAX` (the float
/// quotient is infinite and saturates).
pub open spec fn integrations_per_bit(integration_ms: usize) -> u32 {
    if integration_ms == 0 {
        u32::MAX
    } else {
        (20usize / integration_ms) as u32
    }
}

/// The lock bookkeeping of a tracking channel: its state, how long it has
/// held lock and how many integrations it has processed.
pub struct TrackingLock {
    pub prn: u8,
    pub state: ChannelState,
    pub lock_time_ms: u64,
    pub integration_count: u64,
}

impl TrackingLock {
    pub fn new(prn: u8) -> (r: Self)
        ensures
            r.prn == prn,
            r.state == ChannelState::Idle,
            r.lock_time_ms == 0,
            r.integration_count == 0,
    {
        Self { prn, state: ChannelState::Idle, lock_time_ms: 0, integration_count: 0 }
    }

    /// Starts pull-in after acquisition.
    pub fn initialize(&mut self)
        ensures
            final(self).prn == old(self).prn,
            final(self).state == ChannelState::PullIn,
            final(self).lock_time_ms == 0,
            final(self).integration_count == 0,
    {
        self.state = ChannelState::PullIn;
        self.lock_time_ms = 0;
        self.integration_count = 0;
    }

    /// A channel that is idle or has lost lock refuses to process samples.
    pub fn check_active(&self) -> (r: Result<()>)
        ensures
            r is Ok <==> (self.state == ChannelState::PullIn || self.state
                == ChannelState::Tracking),
            r matches Err(e) ==> e matches Error::TrackingLost(p) && p == self.prn,
    {
        if self.state == ChannelState::Idle || self.state == ChannelState::Lost {
            return Err(Error::TrackingLost(self.prn));
        }
        Ok(())
    }

    /// Updates the lock after one integration: a C/N0 below the minimum loses
    /// lock; otherwise pull-in turns into tracking once more than 100 ms of
    /// lock have passed, and the lock time and integration count advance.
    pub fn end_integration(&mut self, cn0_below_min: bool, integration_ms: u64) -> (r: Result<()>)
        requires
            !cn0_below_min ==> old(self).lock_time_ms + integration_ms <= u64::MAX,
            !cn0_below_min ==> old(self).integration_count < u64::MAX,
        ensures
            final(self).prn == old(self).prn,
            cn0_below_min ==> {
                &&& r matches Err(e) && e matches Error::TrackingLost(p) && p == old(self).prn
                &&& final(self).state == ChannelState::Lost
                &&& final(self).lock_time_ms == old(self).lock_time_ms
                &&& final(self).integration_count == old(self).integration_count
            },
            !cn0_below_min ==> {
                &&& r is Ok
                &&& final(self).state == if old(self).state == ChannelState::PullIn
                    && old(self).lock_time_ms > 100 {
                    ChannelState::Tracking
                } else {
                    old(self).state
                }
                &&& final(self).lock_time_ms == old(self).lock_time_ms + integration_ms
                &&& final(self).integration_count == old(self).integration_count + 1
            },
    {
        // Check lock status
        if cn0_below_min {
            self.state = ChannelState::Lost;
            return Err(Error::TrackingLost(self.prn));
        }
        // Transition from pull-in to tracking

        if self.state == ChannelState::PullIn && self.lock_time_ms > 100 {
            self.state = ChannelState::Tracking;
        }
        self.lock_time_ms = self.lock_time_ms + integration_ms;
        self.integration_count = self.integration_count + 1;
        Ok(())
    }
}

/// One integration of bit synchronisation, from (synced, last sign, count)
/// to the next (synced, last sign, count) and the bit reported. The count
/// grows by one; when it reaches `per_bit` a bit period ends: the count
/// restarts, a sign change from a known sign gives sync, the prompt sign is
/// remembered, and once synced that sign is reported.
pub open spec fn nav_bit_step(
    synced: bool,
    last_sign: i8,
    count: u32,
    prompt_positive: bool,
    per_bit: u32,
) -> (bool, i8, u32, Option<i8>) {
    let sign: i8 = if prompt_positive {
        1i8
    } else {
        -1i8
    };
    if count + 1 >= per_bit {
        let now_synced = synced || (last_sign != 0 && last_sign != sign);
        (now_synced, sign, 0u32, if now_synced {
            Some(sign)
        } else {
            None
        })
    } else {
        (synced, last_sign, (count + 1) as u32, None)
    }
}

/// Bit sync, once reached, is kept; a bit is reported only when synced, at
/// the end of a bit period, and it is the sign of the prompt.
pub proof fn law_bit_sync_persists(
    synced: bool,
    last_sign: i8,
    count: u32,
    prompt_positive: bool,
    per_bit: u32,
)
    ensures
        ({
            let (s2, l2, c2, out) = nav_bit_step(synced, last_sign, count, prompt_positive, per_bit);
            &&& synced ==> s2
            &&& out is Some ==> s2 && c2 == 0 && out == Some(
                if prompt_positive {
                    1i8
                } else {
                    -1i8
                },
            )
        }),
{
}

/// Navigation bit synchronisation: counts integrations per data bit, finds
/// the first sign change between bit periods and from then on reports the
/// sign of each bit period.
pub struct NavBitSync {
    synced: bool,
    last_prompt_sign: i8,
    bit_integrations: u32,
}

impl NavBitSync {
    pub closed spec fn spec_synced(&self) -> bool {
        self.synced
    }

    /// Sign of the prompt at the end of the last bit period (0 before any).
    pub closed spec fn spec_last_sign(&self) -> i8 {
        self.last_prompt_sign
    }

    /// Integrations counted in the current bit period.
    pub closed spec fn spec_count(&self) -> u32 {
        self.bit_integrations
    }

    /// The counter stays below its ceiling and the stored sign is 0, 1 or -1.
    #[verifier::type_invariant]
    spec fn inv(&self) -> bool {
        &&& self.bit_integrations < u32::MAX
        &&& (self.last_prompt_sign == 0 || self.last_prompt_sign == 1 || self.last_prompt_sign
            == -1)
    }

    pub fn new() -> (r: Self)
        ensures
            !r.spec_synced(),
            r.spec_last_sign() == 0,
            r.spec_count() == 0,
    {
        Self { synced: false, last_prompt_sign: 0, bit_integrations: 0 }
    }

    /// Integrations per navigation bit for the given integration time.
    pub fn integrations_per_bit(integration_ms: usize) -> (r: u32)
        ensures
            r == integrations_per_bit(integration_ms),
    {
        if integration_ms == 0 {
            u32::MAX
        } else {
            (20 / integration_ms) as u32
        }
    }

    /// Processes the prompt sign of one integration; at the end of a bit
    /// period returns the bit (+1 or -1) once bit sync has been reached.
    pub fn decode_nav_bit(&mut self, prompt_positive: bool, integration_ms: usize) -> (r: Option<
        i8,
    >)
        ensures
            (final(self).spec_synced(), final(self).spec_last_sign(), final(self).spec_count(), r)
                == nav_bit_step(
                old(self).spec_synced(),
                old(self).spec_last_sign(),
                old(self).spec_count(),
                prompt_positive,
                integrations_per_bit(integration_ms),
            ),
    {
        // Sign of prompt indicates data bit (accounting for 180° phase ambiguity)
        let current_sign: i8 = if prompt_positive {
            1
        } else {
            -1
        };

        proof {
            use_type_invariant(&*self);
        }
        // Count integrations per bit (20ms = 20 * 1ms integrations typically)
        let count = self.bit_integrations + 1;

        if count >= Self::integrations_per_bit(integration_ms) {
            self.bit_integrations = 0;

            // Detect bit transition for bit sync
            if !self.synced {
                if self.last_prompt_sign != 0 && self.last_prompt_sign != current_sign {
                    self.synced = true;
                }
            }
            self.last_prompt_sign = current_sign;

            if self.synced {
                return Some(current_sign);
            }
        } else {
            self.bit_integrations = count;
        }
        None
    }
}

} // verus!
