//! Core logic of a StatusNotifierItem-to-tray bridge daemon.
//!
//! The crate models the daemon's decision logic as pure state machines:
//! a pipelined message-bus client with call/reply correlation, the
//! StatusNotifierWatcher service, the host-side item tracker, and the
//! menu-tree reconciler. The unverified edge (transport, rendering)
//! feeds these machines already-parsed bus messages and performs the
//! actions they emit.

pub mod client;
pub mod host;
pub mod icon;
pub mod menu;
pub mod msg;
pub mod names;
pub mod scale;
pub mod strutil;
pub mod watcher;
