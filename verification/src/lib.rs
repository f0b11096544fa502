//! Partition one pull-based asynchronous sequence into two.
//!
//! A caller-supplied predicate routes every upstream item to exactly one of
//! two output partitions ("true" and "false"). Each partition is consumed
//! through its own handle; items destined for the side that is not currently
//! polling wait in a bounded buffer, and a poll declines to pull upstream
//! whenever the sibling's buffer is full, so memory stays bounded.

pub mod ring;
pub mod route;
pub mod split;
