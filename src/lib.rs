//! A topic-based publish/subscribe broker core: bounded fan-out channels with
//! per-subscriber cursors, a topic registry, a retained-message store and the
//! two-phase subscription stream.

pub mod channel;
pub mod registry;
pub mod store;
pub mod broker;
