use vstd::prelude::*;

use crate::gps::tracking::ChannelState;
use crate::text::{decimal, push_decimal};

verus! {

/// Whether `prn` occurs in `prns`.
fn contains_prn(prns: &[u8], prn: u8) -> (r: bool)
    ensures
        r == prns@.contains(prn),
{
    let mut i: usize = 0;
    while i < prns.len()
        invariant
            0 <= i <= prns@.len(),
            forall|j: int| 0 <= j < i ==> prns@[j] != prn,
        decreases prns@.len() - i,
    {
        if prns[i] == prn {
            return true;
        }
        i = i + 1;
    }
    false
}

/// The GPS PRNs (1 to 32) that acquisition still searches: those without a
/// channel, in increasing order.
pub fn prns_to_search(active_prns: &[u8]) -> (r: Vec<u8>)
    ensures
        forall|i: int, j: int| 0 <= i < j < r@.len() ==> r@[i] < r@[j],
        forall|p: u8| r@.contains(p) <==> (1 <= p <= 32 && !active_prns@.contains(p)),
{
    let mut r: Vec<u8> = Vec::new();
    let mut prn: u8 = 1;
    while prn <= 32
        invariant
            1 <= prn <= 33,
            forall|i: int, j: int| 0 <= i < j < r@.len() ==> r@[i] < r@[j],
            forall|i: int| 0 <= i < r@.len() ==> r@[i] < prn,
            forall|p: u8| r@.contains(p) <==> (1 <= p < prn && !active_prns@.contains(p)),
        decreases 33 - prn,
    {
        if !contains_prn(active_prns, prn) {
            let ghost before = r@;
            r.push(prn);
            proof {
                assert forall|p: u8| r@.contains(p) <==> (1 <= p < prn + 1
                    && !active_prns@.contains(p)) by {
                    if p == prn {
                        assert(r@[r@.len() - 1] == prn);
                    }
                    if r@.contains(p) && p != prn {
                        let k = choose|k: int| 0 <= k < r@.len() && r@[k] == p;
                        assert(before[k] == p);
                    }
                    if before.contains(p) {
                        let k = choose|k: int| 0 <= k < before.len() && before[k] == p;
                        assert(r@[k] == p);
                    }
                }
            }
        } else {
            proof {
                assert forall|p: u8| r@.contains(p) <==> (1 <= p < prn + 1
                    && !active_prns@.contains(p)) by {
                    if r@.contains(p) {
                        let k = choose|k: int| 0 <= k < r@.len() && r@[k] == p;
                        assert(r@[k] < prn);
                    }
                }
            }
        }
        prn = prn + 1;
    }
    r
}

/// The number of channels in the tracking state.
pub open spec fn tracking_count(states: Seq<ChannelState>) -> nat
    decreases states.len(),
{
    if states.len() == 0 {
        0
    } else {
        tracking_count(states.drop_last()) + if states.last() == ChannelState::Tracking {
            1nat
        } else {
            0nat
        }
    }
}

proof fn lemma_tracking_count_bound(states: Seq<ChannelState>)
    ensures
        tracking_count(states) <= states.len(),
    decreases states.len(),
{
    if states.len() > 0 {
        lemma_tracking_count_bound(states.drop_last());
    }
}

/// How the tracking count adds up, over all inputs: no channels count 0, a
/// single channel counts 1 exactly when it is tracking, and the count of two
/// runs of channels put together is the sum of their counts (so every
/// channel, the last one too, is counted once).
pub proof fn law_tracking_count(a: Seq<ChannelState>, b: Seq<ChannelState>, s: ChannelState)
    ensures
        tracking_count(Seq::empty()) == 0,
        tracking_count(seq![s]) == if s == ChannelState::Tracking {
            1nat
        } else {
            0nat
        },
        tracking_count(a + b) == tracking_count(a) + tracking_count(b),
    decreases b.len(),
{
    let one = seq![s];
    assert(one.drop_last() =~= Seq::<ChannelState>::empty());
    assert(one.last() == s);
    assert(tracking_count(one.drop_last()) == 0);
    assert(tracking_count(one) == tracking_count(one.drop_last()) + if s == ChannelState::Tracking {
        1nat
    } else {
        0nat
    });
    if b.len() > 0 {
        law_tracking_count(a, b.drop_last(), s);
        assert((a + b).drop_last() =~= a + b.drop_last());
        assert((a + b).last() == b.last());
    } else {
        assert(a + b =~= a);
    }
}

/// Channels all tracking count as many as there are; channels none of which
/// is tracking count 0.
pub proof fn law_tracking_count_extremes(states: Seq<ChannelState>)
    ensures
        (forall|i: int| 0 <= i < states.len() ==> states[i] == ChannelState::Tracking)
            ==> tracking_count(states) == states.len(),
        (forall|i: int| 0 <= i < states.len() ==> states[i] != ChannelState::Tracking)
            ==> tracking_count(states) == 0,
    decreases states.len(),
{
    if states.len() > 0 {
        let p = states.drop_last();
        law_tracking_count_extremes(p);
        assert(forall|i: int| 0 <= i < p.len() ==> p[i] == states[i]);
    }
}

/// The receiver status line for channels in the given states:
/// `Tracking <t> satellites | <n> channels active`, with `t` the channels
/// that are tracking and `n` all channels.
pub fn status_line(states: &[ChannelState]) -> (r: String)
    ensures
        r@ == "Tracking "@ + decimal(tracking_count(states@)) + " satellites | "@ + decimal(
            states@.len(),
        ) + " channels active"@,
{
    let mut count: usize = 0;
    let mut i: usize = 0;
    while i < states.len()
        invariant
            0 <= i <= states@.len(),
            count == tracking_count(states@.take(i as int)),
        decreases states@.len() - i,
    {
        assert(states@.take(i + 1).drop_last() =~= states@.take(i as int));
        proof {
            lemma_tracking_count_bound(states@.take(i as int));
        }
        if states[i] == ChannelState::Tracking {
            count = count + 1;
        }
        i = i + 1;
    }
    assert(states@.take(states@.len() as int) =~= states@);
    let mut r = String::from_str("Tracking ");
    push_decimal(&mut r, count);
    r.append(" satellites | ");
    push_decimal(&mut r, states.len());
    r.append(" channels active");
    r
}

} // verus!
