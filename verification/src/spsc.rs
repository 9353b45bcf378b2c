//! Producer and consumer handles sharing one ring.
//!
//! `channel` builds one `CircularBuffer` and hands out a `Sender` and a
//! `Receiver` that reach it through shared ownership of one cell.  The
//! handles are thin: every operation lifts the ring out of the cell, calls
//! the ring's verified method, and stores the ring back, so the protocol
//! work stays verified; only the cell access itself is trusted.  Each
//! handle carries a ghost mirror of the part of the ring's state that only
//! its own side mutates — the producer's sequence count, history and
//! scratch cell; the consumer's read mark — so that callers of the handles
//! get contracts, with the clauses that depend on the other side's state
//! weakened to what holds of every outcome.

pub mod noloss;

use crate::cb::{adjusted_cap, CircularBuffer, CircularBufferIterator};
use core::cell::RefCell;
use std::rc::Rc;
use vstd::prelude::*;

verus! {

/// `core::cell::RefCell`, declared so the handles can hold the shared
/// ring; its content is opaque here and is reached only through the
/// trusted accessors below, each of which completes its borrow before
/// returning.
#[verifier::external_type_specification]
#[verifier::external_body]
#[verifier::reject_recursive_types(T)]
pub struct ExRefCell<T: ?Sized>(RefCell<T>);

/// What the producer handle knows of the shared ring.
pub struct SenderModel<T> {
    /// Capacity of the ring.
    pub cap: nat,
    /// Count of items published through this handle.
    pub seq: nat,
    /// Every payload published, by id.
    pub hist: Seq<Option<T>>,
    /// Content of the producer's scratch cell.
    pub scratch: Option<T>,
}

/// What the consumer handle knows of the shared ring.
pub struct ReceiverModel {
    /// Capacity of the ring.
    pub cap: nat,
    /// The sequence count observed at the start of the last drain.
    pub read_mark: nat,
}

/// The unique producer handle of one channel.
#[verifier::reject_recursive_types(T)]
pub struct Sender<T> {
    inner: Rc<RefCell<Option<CircularBuffer<T>>>>,
    model: Ghost<SenderModel<T>>,
}

/// The unique consumer handle of one channel.
#[verifier::reject_recursive_types(T)]
pub struct Receiver<T> {
    inner: Rc<RefCell<Option<CircularBuffer<T>>>>,
    model: Ghost<ReceiverModel>,
}

impl<T> View for Sender<T> {
    type V = SenderModel<T>;

    closed spec fn view(&self) -> SenderModel<T> {
        self.model@
    }
}

impl<T> View for Receiver<T> {
    type V = ReceiverModel;

    closed spec fn view(&self) -> ReceiverModel {
        self.model@
    }
}

/// Relies on `RefCell::new`: wraps the freshly built ring for shared
/// ownership by the two handles.
#[verifier::external_body]
fn ring_cell<T>(rb: CircularBuffer<T>) -> RefCell<Option<CircularBuffer<T>>> {
    RefCell::new(Some(rb))
}

/// Relies on `Rc::clone`: the clone is a second handle to the same
/// allocation, so as a value it equals the original.
#[verifier::external_body]
fn rc_clone<T>(
    rc: &Rc<RefCell<Option<CircularBuffer<T>>>>,
) -> (r: Rc<RefCell<Option<CircularBuffer<T>>>>)
    ensures
        r == *rc,
{
    Rc::clone(rc)
}

/// Builds a channel of capacity `size` (coerced as `adjusted_cap` says)
/// and returns its two handles.  The producer side must stay with one
/// owner and the consumer side with another; the handles themselves
/// enforce this by taking `&mut self` on every mutating call.
pub fn channel<T: Send>(size: usize) -> (r: (Sender<T>, Receiver<T>))
    requires
        512 * (size as int + 1) + 255 <= usize::MAX,
    ensures
        r.0@.cap == adjusted_cap(size as int),
        r.0@.seq == 0,
        r.0@.hist == Seq::<Option<T>>::empty(),
        r.0@.scratch is None,
        r.1@.cap == adjusted_cap(size as int),
        r.1@.read_mark == 0,
{
    let rb = CircularBuffer::new(size);
    let ghost rm = rb@;
    let a = Rc::new(ring_cell(rb));
    let b = rc_clone(&a);
    let tx = Sender::new(
        a,
        Ghost(SenderModel { cap: rm.cap, seq: rm.seq, hist: rm.hist, scratch: rm.scratch }),
    );
    let rx = Receiver::new(b, Ghost(ReceiverModel { cap: rm.cap, read_mark: rm.read_mark }));
    (tx, rx)
}

impl<T: Send> Sender<T> {
    fn new(
        inner: Rc<RefCell<Option<CircularBuffer<T>>>>,
        model: Ghost<SenderModel<T>>,
    ) -> (s: Sender<T>)
        ensures
            s@ == model@,
    {
        Sender { inner, model }
    }

    /// Relies on `RefCell::take`: lifts the ring out of the shared cell,
    /// leaving `None` behind.  Between the handles' public calls the cell
    /// always holds the one well-formed ring both handles track — every
    /// method that takes it stores it back before returning, and no
    /// borrow of the cell is ever live across these calls — so what comes
    /// out is that ring, matching this handle's ghost mirror on the
    /// producer-side fields.  The consumer-side read mark is not
    /// mirrored here and stays unconstrained.
    #[verifier::external_body]
    fn take_ring(&self) -> (rb: Option<CircularBuffer<T>>)
        ensures
            (match rb {
                Some(ring) => ring.wf() && ring@.cap == self@.cap && ring@.seq == self@.seq
                    && ring@.hist == self@.hist && ring@.scratch == self@.scratch,
                None => false,
            }),
    {
        self.inner.take()
    }

    /// Relies on `RefCell::replace`: stores the ring back into the shared
    /// cell, displacing the `None` that `take_ring` left, and re-points
    /// this handle's ghost mirror at the ring's producer-side state.
    #[verifier::external_body]
    fn put_ring_back(&mut self, rb: CircularBuffer<T>)
        ensures
            final(self)@.cap == rb@.cap,
            final(self)@.seq == rb@.seq,
            final(self)@.hist == rb@.hist,
            final(self)@.scratch == rb@.scratch,
    {
        self.inner.replace(Some(rb));
    }

    /// Relies on `RefCell::replace`: stores the ring back into the shared
    /// cell, displacing the `None` that `take_ring` left.  For use where
    /// the ring was only read: the ghost mirror is untouched, which is
    /// faithful exactly because the caller hands back the unchanged ring
    /// it took.
    #[verifier::external_body]
    fn restore_ring(&self, rb: CircularBuffer<T>) {
        self.inner.replace(Some(rb));
    }

    /// Publishes one item through the shared ring and returns its id.
    /// The clauses mirror the ring's `put`: the scratch clause is
    /// weakened to a disjunction because whether the displaced payload
    /// was already drained depends on the consumer's read mark, which
    /// this handle cannot see.  The arithmetic bound mirrors `put`'s and
    /// keeps the packed sequence word inside one machine word.
    pub fn put(&mut self, v: Option<T>) -> (r: usize)
        requires
            (old(self)@.seq + 1) * 256 + 255 <= usize::MAX,
        ensures
            final(self)@.cap == old(self)@.cap,
            final(self)@.seq == old(self)@.seq + 1,
            final(self)@.hist == old(self)@.hist.push(v),
            r == old(self)@.seq,
            final(self)@.scratch is None || (old(self)@.seq >= old(self)@.cap
                && final(self)@.scratch == old(self)@.hist[old(self)@.seq - old(self)@.cap]),
            old(self)@.seq < old(self)@.cap ==> final(self)@.scratch is None,
    {
        let mut rb = match self.take_ring() {
            Some(rb) => rb,
            None => unreached(),
        };
        let r = rb.put(v);
        self.put_ring_back(rb);
        r
    }

    /// Swaps `v` with the ring's scratch cell and returns what was there —
    /// the payload the last publish displaced, unless something already
    /// picked it up or parked another.  Only this handle's operations
    /// touch the scratch cell, so its ghost content is exact.
    pub fn tmp(&mut self, v: Option<T>) -> (r: Option<T>)
        ensures
            final(self)@.cap == old(self)@.cap,
            final(self)@.seq == old(self)@.seq,
            final(self)@.hist == old(self)@.hist,
            final(self)@.scratch == v,
            r == old(self)@.scratch,
    {
        let mut rb = match self.take_ring() {
            Some(rb) => rb,
            None => unreached(),
        };
        let r = rb.tmp(v);
        self.put_ring_back(rb);
        r
    }

    /// The count of items published so far; only this handle advances it.
    pub fn seqno(&self) -> (r: usize)
        ensures
            r == self@.seq,
    {
        let rb = match self.take_ring() {
            Some(rb) => rb,
            None => unreached(),
        };
        let r = rb.seqno();
        self.restore_ring(rb);
        r
    }
}

impl<T: Send> Receiver<T> {
    fn new(
        inner: Rc<RefCell<Option<CircularBuffer<T>>>>,
        model: Ghost<ReceiverModel>,
    ) -> (s: Receiver<T>)
        ensures
            s@ == model@,
    {
        Receiver { inner, model }
    }

    /// Relies on `RefCell::take`: lifts the ring out of the shared cell,
    /// leaving `None` behind.  Between the handles' public calls the cell
    /// always holds the one well-formed ring both handles track — every
    /// method that takes it stores it back before returning, and no
    /// borrow of the cell is ever live across these calls — so what comes
    /// out is that ring, matching this handle's ghost mirror on the
    /// consumer-side fields.  The producer-side fields are not mirrored
    /// here and stay unconstrained.
    #[verifier::external_body]
    fn take_ring(&self) -> (rb: Option<CircularBuffer<T>>)
        ensures
            (match rb {
                Some(ring) => ring.wf() && ring@.cap == self@.cap && ring@.read_mark
                    == self@.read_mark,
                None => false,
            }),
    {
        self.inner.take()
    }

    /// Relies on `RefCell::replace`: stores the ring back into the shared
    /// cell, displacing the `None` that `take_ring` left, and re-points
    /// this handle's ghost mirror at the ring's consumer-side state.
    #[verifier::external_body]
    fn put_ring_back(&mut self, rb: CircularBuffer<T>)
        ensures
            final(self)@.cap == rb@.cap,
            final(self)@.read_mark == rb@.read_mark,
    {
        self.inner.replace(Some(rb));
    }

    /// Starts a drain pass over the shared ring.  How much the window
    /// holds depends on the producer's state, which this handle cannot
    /// see; the clauses state what holds of every outcome: the cursor is
    /// intact, spans at most the capacity, its ids lie at or after the
    /// old read mark, and the mark advances to the end of the claimed
    /// range whether or not the cursor is consumed.
    pub fn iter(&mut self) -> (it: CircularBufferIterator<T>)
        ensures
            final(self)@.cap == old(self)@.cap,
            final(self)@.read_mark >= old(self)@.read_mark,
            it.wf(),
            it@.start >= old(self)@.read_mark,
            it@.start + it@.items.len() == final(self)@.read_mark,
            it@.items.len() <= old(self)@.cap,
    {
        let mut rb = match self.take_ring() {
            Some(rb) => rb,
            None => unreached(),
        };
        proof {
            rb.lemma_wf_model();
        }
        let it = rb.iter();
        self.put_ring_back(rb);
        it
    }
}

} // verus!
