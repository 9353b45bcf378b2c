//! The no-loss overflow helper.
//!
//! The plain channel is lossy: a publish may silently displace the oldest
//! unread item.  `pour` is the one way callers observe that loss as it
//! happens — it publishes, then inspects the scratch cell, and hands any
//! displaced payload to a caller-supplied sink instead of dropping it.

use crate::spsc::Sender;
use vstd::prelude::*;

verus! {

/// A sink for payloads the ring would otherwise lose.
pub trait Overflow {
    /// The payload type poured through the channel.
    type Input;

    /// Receives a displaced payload; the sink takes it out of `val`.
    fn overflow(&mut self, val: &mut Option<Self::Input>);
}

/// What `pour` reports of one publication.
pub enum PourResult {
    /// The value went in without displacing an unread item.
    Poured,
    /// An unread item was displaced and handed to the overflow sink.
    Overflowed,
}

/// Settles one publication from what the scratch cell held afterward: a
/// displaced payload goes to the sink and the publication counts as
/// `Overflowed`; an empty scratch cell means nothing was lost and the
/// publication counts as `Poured` — exactly one of the two, decided by
/// `displaced` alone.
pub fn hand_off<T: Send, O: Overflow<Input = T>>(
    displaced: Option<T>,
    overflow: &mut O,
    id: usize,
) -> (r: (PourResult, usize))
    ensures
        (r.0 is Overflowed) <==> displaced is Some,
        r.1 == id,
{
    let mut displaced = displaced;
    if displaced.is_some() {
        overflow.overflow(&mut displaced);
        (PourResult::Overflowed, id)
    } else {
        (PourResult::Poured, id)
    }
}

/// Publishes `*value`, leaving `None` behind in it, and returns how it
/// went together with the new item's id.  If the publish displaced an
/// unread payload, that payload is moved out of the scratch cell and
/// handed to `overflow`; either way the scratch cell is left empty.  A
/// displacement can only happen once the producer has lapped the ring:
/// with fewer publications than the capacity the result is always
/// `Poured`, and an `Overflowed` pour names a real item — the publication
/// a full ring earlier.  Whether a lapped publication displaced anything
/// depends on the consumer's progress, which the producer handle cannot
/// see; `hand_off` settles it exactly from the scratch cell's content.
/// The scratch cell must be empty on entry: a value parked there by `tmp`
/// and not picked up again is outside the pour discipline, and would
/// otherwise be lost without a report.  The arithmetic bound mirrors
/// `put`'s.
pub fn pour<T: Send, O: Overflow<Input = T>>(
    value: &mut Option<T>,
    destination: &mut Sender<T>,
    overflow: &mut O,
) -> (r: (PourResult, usize))
    requires
        old(destination)@.scratch is None,
        (old(destination)@.seq + 1) * 256 + 255 <= usize::MAX,
    ensures
        final(destination)@.cap == old(destination)@.cap,
        final(destination)@.seq == old(destination)@.seq + 1,
        final(destination)@.hist == old(destination)@.hist.push(*old(value)),
        final(destination)@.scratch is None,
        *final(value) is None,
        r.1 == old(destination)@.seq,
        old(destination)@.seq < old(destination)@.cap ==> r.0 is Poured,
        r.0 is Overflowed ==> old(destination)@.seq >= old(destination)@.cap && old(
            destination,
        )@.hist[old(destination)@.seq - old(destination)@.cap] is Some,
{
    let mut v: Option<T> = None;
    core::mem::swap(value, &mut v);
    let id = destination.put(v);
    // pick up whatever the publish displaced into the scratch cell
    let displaced = destination.tmp(None);
    hand_off(displaced, overflow, id)
}

} // verus!
