//! Keel: the execution layer under AI agents.
//!
//! A [`policy::Policy`] says what an execution space may reach; the other
//! modules decide, from plain values, what every operation inside the space is
//! answered and what is written to its audit trail.
pub mod admission;
pub mod backend;
pub mod baseline;
pub mod bwrap;
pub mod chain;
pub mod child_net;
pub mod compose;
pub mod config;
pub mod credentials;
pub mod deny_glob;
pub mod egress;
pub mod egress_proxy;
pub mod error;
pub mod event;
pub mod ids;
pub mod ip;
pub mod json;
pub mod layout;
pub mod local_process;
pub mod map_caps;
pub mod narrow;
pub mod native;
pub mod net;
pub mod number;
pub mod order;
pub mod path;
pub mod paths;
pub mod policy;
pub mod presets;
pub mod process_guard;
pub mod sandbox_child;
pub mod seatbelt;
pub mod sink;
pub mod space;
pub mod text;
pub mod time;
pub mod windows;
pub mod worktree;
