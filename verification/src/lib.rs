//! An adapter that keeps a sequence producer's side effects in forward
//! order even when the consumer pulls elements from the tail end.
//!
//! Pulling from the tail of a lazy producer would otherwise run the
//! production steps for the unconsumed tail in reverse, which breaks any
//! producer whose step has an order-sensitive side effect. The adapter
//! stays lazy — zero extra buffering — while only front pulls occur, and
//! on the first tail-directed call it drains the producer once, in
//! forward order, into an owned buffer that both ends then consume.

pub mod adapter;
pub mod laws;
pub mod model;
pub mod producer;

pub use adapter::ForwardIter;
pub use adapter::ForwardIterExt;
pub use producer::CountingProducer;
pub use producer::Producer;
