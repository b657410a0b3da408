//! How bursts of messages from the sensor threads are folded into one update.

use vstd::prelude::*;

verus! {

/// The leak state after a burst of leak interrupts: the last one, if any.
pub fn latest_leak(events: &Vec<bool>) -> (leak: Option<bool>)
    ensures
        leak == (if events@.len() == 0 {
            None
        } else {
            Some(events@.last())
        }),
{
    let n = events.len();
    if n == 0 {
        None
    } else {
        Some(events[n - 1])
    }
}

/// What the camera thread is told about the surface station.
#[derive(Clone, Copy, Debug, PartialEq, Eq, Structural)]
pub enum PeerChange {
    /// Nothing changed.
    Unchanged,
    /// The station disconnected.
    Lost,
    /// A station connected; the index is that of its entry among the
    /// connections reported.
    Connected(usize),
}

/// The peer change of one update: the last new connection wins; otherwise a
/// disconnection is reported.
pub fn peer_change(disconnected: bool, connected: usize) -> (c: PeerChange)
    ensures
        c == (if connected > 0 {
            PeerChange::Connected((connected - 1) as usize)
        } else if disconnected {
            PeerChange::Lost
        } else {
            PeerChange::Unchanged
        }),
{
    let mut change = PeerChange::Unchanged;
    if disconnected {
        change = PeerChange::Lost;
    }
    let mut i: usize = 0;
    while i < connected
        invariant
            i <= connected,
            change == (if i > 0 {
                PeerChange::Connected((i - 1) as usize)
            } else if disconnected {
                PeerChange::Lost
            } else {
                PeerChange::Unchanged
            }),
        decreases connected - i,
    {
        change = PeerChange::Connected(i);
        i = i + 1;
    }
    change
}

} // verus!
