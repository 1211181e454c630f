use vstd::prelude::*;

verus! {

/// Pulses closer together than this many nanoseconds are suppressed.
pub const PPS_DEBOUNCE_NS: u64 = 900_000_000;

/// GPS epoch (1980-01-06 00:00:00 UTC) in Unix seconds.
pub const GPS_EPOCH_UNIX_SECS: u64 = 315_964_800;

/// Whether a pulse is emitted: the output is enabled, the GPS time is at a
/// second boundary, and no pulse was emitted in the last 900 ms (a clock
/// reading earlier than the last pulse counts as no time elapsed).
pub open spec fn pulse_due(enabled: bool, last_ns: Option<u64>, at_boundary: bool, now_ns: u64) -> bool {
    &&& enabled
    &&& at_boundary
    &&& match last_ns {
        Some(last) => now_ns >= last && now_ns - last >= PPS_DEBOUNCE_NS,
        None => true,
    }
}

/// GPS seconds for a Unix time in seconds, leap seconds ignored (zero up to
/// the GPS epoch).
pub open spec fn gps_seconds(unix_secs: u64) -> int {
    if unix_secs > GPS_EPOCH_UNIX_SECS {
        unix_secs - GPS_EPOCH_UNIX_SECS
    } else {
        0
    }
}

/// PPS (Pulse Per Second) Generator: the decision of when to pulse, given
/// whether the GPS time sits at a second boundary and a monotonic clock
/// reading in nanoseconds.
pub struct PpsGenerator {
    enabled: bool,
    last_pps_ns: Option<u64>,
}

impl PpsGenerator {
    pub closed spec fn spec_enabled(&self) -> bool {
        self.enabled
    }

    /// Clock reading of the last pulse, if any.
    pub closed spec fn spec_last_pulse(&self) -> Option<u64> {
        self.last_pps_ns
    }

    pub fn new() -> (r: Self)
        ensures
            !r.spec_enabled(),
            r.spec_last_pulse() is None,
    {
        Self { enabled: false, last_pps_ns: None }
    }

    pub fn enable(&mut self)
        ensures
            final(self).spec_enabled(),
            final(self).spec_last_pulse() == old(self).spec_last_pulse(),
    {
        self.enabled = true;
    }

    pub fn disable(&mut self)
        ensures
            !final(self).spec_enabled(),
            final(self).spec_last_pulse() == old(self).spec_last_pulse(),
    {
        self.enabled = false;
    }

    pub fn is_enabled(&self) -> (r: bool)
        ensures
            r == self.spec_enabled(),
    {
        self.enabled
    }

    /// Decides whether to emit a pulse now and records it when it does.
    pub fn generate_pulse(&mut self, at_second_boundary: bool, now_ns: u64) -> (r: bool)
        ensures
            r == pulse_due(
                old(self).spec_enabled(),
                old(self).spec_last_pulse(),
                at_second_boundary,
                now_ns,
            ),
            final(self).spec_last_pulse() == if r {
                Some(now_ns)
            } else {
                old(self).spec_last_pulse()
            },
            final(self).spec_enabled() == old(self).spec_enabled(),
    {
        if !self.enabled {
            return false;
        }
        if at_second_boundary {
            // Check if enough time has passed since last pulse (debounce)
            if let Some(last) = self.last_pps_ns {
                if now_ns.saturating_sub(last) < PPS_DEBOUNCE_NS {
                    return false;
                }
            }
            self.last_pps_ns = Some(now_ns);
            return true;
        }
        false
    }

    /// GPS time in whole seconds from a Unix time in seconds (leap seconds
    /// are not applied).
    pub fn system_time_to_gps(unix_secs: u64) -> (r: u64)
        ensures
            r == gps_seconds(unix_secs),
    {
        if unix_secs > GPS_EPOCH_UNIX_SECS {
            unix_secs - GPS_EPOCH_UNIX_SECS
        } else {
            0
        }
    }
}

impl Default for PpsGenerator {
    fn default() -> (r: Self)
        ensures
            !r.spec_enabled(),
            r.spec_last_pulse() is None,
    {
        Self::new()
    }
}

/// A disabled generator never pulses, and two pulses of a generator whose
/// clock does not run backwards are at least 900 ms apart.
pub proof fn law_pulse_spacing(
    enabled: bool,
    last_ns: Option<u64>,
    at_boundary1: bool,
    t1: u64,
    at_boundary2: bool,
    t2: u64,
)
    ensures
        !enabled ==> !pulse_due(enabled, last_ns, at_boundary1, t1),
        pulse_due(enabled, last_ns, at_boundary1, t1) && pulse_due(
            enabled,
            Some(t1),
            at_boundary2,
            t2,
        ) ==> t2 - t1 >= PPS_DEBOUNCE_NS,
{
}

/// The last pulse after the calls `calls` (each: whether the GPS time is at
/// a second boundary, and the clock reading), starting from `last`.
pub open spec fn last_pulse_after(enabled: bool, last: Option<u64>, calls: Seq<(bool, u64)>) -> Option<
    u64,
>
    decreases calls.len(),
{
    if calls.len() == 0 {
        last
    } else {
        let before = last_pulse_after(enabled, last, calls.drop_last());
        if pulse_due(enabled, before, calls.last().0, calls.last().1) {
            Some(calls.last().1)
        } else {
            before
        }
    }
}

/// Whether call `i` of `calls` pulses, starting from `last`.
pub open spec fn pulsed_at(enabled: bool, last: Option<u64>, calls: Seq<(bool, u64)>, i: int) -> bool {
    pulse_due(enabled, last_pulse_after(enabled, last, calls.take(i)), calls[i].0, calls[i].1)
}

/// Over any run of calls on a generator, whatever its state (enabled or
/// not, last pulse at `last` or none yet), whose clock does not run
/// backwards: every pulse falls on a second boundary of an enabled
/// generator, every pulse is at least 900 ms after the last pulse before
/// the run, and any two pulses of the run are at least 900 ms apart.
pub proof fn law_pulse_run(enabled: bool, last: Option<u64>, calls: Seq<(bool, u64)>)
    requires
        forall|i: int, j: int| 0 <= i < j < calls.len() ==> calls[i].1 <= calls[j].1,
        forall|i: int| 0 <= i < calls.len() ==> (last matches Some(t) ==> t <= #[trigger] calls[i].1),
    ensures
        forall|i: int| 0 <= i < calls.len() && pulsed_at(enabled, last, calls, i) ==> enabled
            && calls[i].0,
        forall|i: int|
            0 <= i < calls.len() && pulsed_at(enabled, last, calls, i) ==> (last matches Some(t)
                ==> calls[i].1 - t >= PPS_DEBOUNCE_NS),
        forall|i: int, j: int|
            0 <= i < j < calls.len() && pulsed_at(enabled, last, calls, i) && pulsed_at(
                enabled,
                last,
                calls,
                j,
            ) ==> calls[j].1 - calls[i].1 >= PPS_DEBOUNCE_NS,
        forall|i: int|
            0 <= i < calls.len() && pulsed_at(enabled, last, calls, i) ==> (last_pulse_after(
                enabled,
                last,
                calls,
            ) matches Some(t) && calls[i].1 <= t),
        last_pulse_after(enabled, last, calls) matches Some(t) ==> (last == Some(t) || exists|
            k: int,
        | 0 <= k < calls.len() && pulsed_at(enabled, last, calls, k) && calls[k].1 == t),
        last is Some ==> last_pulse_after(enabled, last, calls) is Some,
    decreases calls.len(),
{
    let n = calls.len();
    if n > 0 {
        let p = calls.drop_last();
        assert forall|i: int| 0 <= i < p.len() implies (last matches Some(t) ==> t
            <= #[trigger] p[i].1) by {
            assert(p[i] == calls[i]);
        }
        law_pulse_run(enabled, last, p);
        assert forall|i: int| 0 <= i < n - 1 implies #[trigger] calls.take(i) == p.take(i) && calls[i]
            == p[i] by {
            assert(calls.take(i) =~= p.take(i));
        }
        assert(calls.take(n - 1) =~= p);
        let before = last_pulse_after(enabled, last, p);
        if last_pulse_after(enabled, last, calls) != before {
            assert(pulsed_at(enabled, last, calls, n - 1));
        } else if let Some(t) = before {
            if last != Some(t) {
                let k = choose|k: int|
                    0 <= k < p.len() && pulsed_at(enabled, last, p, k) && p[k].1 == t;
                assert(pulsed_at(enabled, last, calls, k));
            }
        }
        assert forall|i: int| 0 <= i < n && pulsed_at(enabled, last, calls, i) implies (
        last_pulse_after(enabled, last, calls) matches Some(t) && calls[i].1 <= t) by {
            if i < n - 1 {
                assert(pulsed_at(enabled, last, p, i));
            }
        }
        assert forall|i: int|
            0 <= i < n && pulsed_at(enabled, last, calls, i) implies (last matches Some(t)
            ==> calls[i].1 - t >= PPS_DEBOUNCE_NS) by {
            if i < n - 1 {
                assert(pulsed_at(enabled, last, p, i));
            } else if let Some(t0) = last {
                assert(calls.take(i) =~= p);
                if let Some(t) = before {
                    if t != t0 {
                        let k = choose|k: int|
                            0 <= k < p.len() && pulsed_at(enabled, last, p, k) && p[k].1 == t;
                        assert(pulsed_at(enabled, last, p, k));
                    }
                }
            }
        }
        assert forall|i: int, j: int|
            0 <= i < j < n && pulsed_at(enabled, last, calls, i) && pulsed_at(
                enabled,
                last,
                calls,
                j,
            ) implies calls[j].1 - calls[i].1 >= PPS_DEBOUNCE_NS by {
            assert(pulsed_at(enabled, last, p, i));
            if j < n - 1 {
                assert(pulsed_at(enabled, last, p, j));
            }
        }
    }
}

} // verus!
