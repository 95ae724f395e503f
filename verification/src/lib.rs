//! Local-machine notification and request/response core.
//!
//! The crate holds the decisions of two independent components and of the
//! wire formats they share, free of any socket or runtime:
//!
//! * [`frame`] and [`text`]: the length-prefixed binary frames and the
//!   newline-terminated text lines that travel on the wire;
//! * [`channel`]: the subscriber set of a broadcast channel, with its
//!   write-and-prune fan-out; [`cache_update_handler`] and [`tx_handler`]
//!   are the two channels built on it;
//! * [`ipc_client`]: the round-robin pool of client connection slots;
//! * [`allow_list`]: the lines of the identifier list read at startup.
//!
//! The embedding program owns the sockets. It reports what happened on them
//! and carries out what the values returned here ask for.

pub mod error;
pub mod frame;
pub mod text;
pub mod channel;
pub mod cache_update_handler;
pub mod tx_handler;
pub mod ipc_client;
pub mod allow_list;
