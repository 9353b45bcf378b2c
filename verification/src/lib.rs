//! A single-producer / single-consumer lossy ring-buffer channel.
//!
//! The producer writes at its own pace; a slower consumer observes only the
//! most recent window of items and silently loses older ones.  The core is a
//! slot-exchange protocol: payload cells rotate between the producer's
//! scratch cell, the ring's live slots, and the consumer's private buffer,
//! driven by flag words that pack a slot index together with a generation
//! tag.  Payloads are never copied and never reallocated per item.

pub mod cb;
pub mod spsc;
