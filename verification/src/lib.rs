//! Core logic of a chat-driven avatar overlay: an emote-metadata cache with a
//! single-resolution guarantee, a bounded FIFO bridge between the chat
//! listener and the per-frame consumer, a session table with time-based
//! eviction, and deferred finalization of visuals whose assets load late.

pub mod bridge;
pub mod consumer;
pub mod emote;
pub mod event;
pub mod listener;
pub mod session;
pub mod visual;

use vstd::prelude::*;

verus! {

/// Fixed pixel height every finalized visual is scaled to.
pub const TARGET_HEIGHT: u32 = 46;

} // verus!
