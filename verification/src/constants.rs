//! Protocol and server constants.

use vstd::prelude::*;

verus! {

/// Default listening port of the daemon.
pub const EPMD_PORT_NUMBER: u16 = 4369;

/// Seconds of inactivity after which the readiness wait returns so that
/// housekeeping runs even with no traffic.
pub const IDLE_TIMEOUT: u64 = 5;

/// Seconds a connection may stay idle before it is evicted, unless it is
/// marked to be kept.
pub const CLOSE_TIMEOUT: u64 = 60;

/// Upper bound on the number of addresses the daemon will listen on.
pub const MAX_LISTEN_SOCKETS: usize = 16;

/// Upper bound on the number of simultaneously open descriptors.
pub const MAX_FILE_DESCRIPTORS: usize = 1024;

/// Longest node name accepted on the wire, in bytes of its encoding.
pub const MAX_SYM_LEN: usize = 1020;

/// Size of the per-connection read buffer: large enough for the largest
/// request or response frame.
pub const INBUF_SIZE: usize = 3 * MAX_SYM_LEN;

// Operation codes of the wire protocol. Requests:
/// Registration request.
pub const ALIVE2_REQ: u8 = 120;

/// Port lookup request.
pub const PORT2_REQ: u8 = 122;

/// Listing request.
pub const NAMES_REQ: u8 = 110;

/// Full-dump request.
pub const DUMP_REQ: u8 = 100;

/// Registry-clearing request.
pub const KILL_REQ: u8 = 107;

/// Unregistration request.
pub const STOP_REQ: u8 = 115;

// Responses:
/// Reply to a registration request.
pub const ALIVE2_RESP: u8 = 121;

/// Reply to a port lookup request.
pub const PORT2_RESP: u8 = 119;

} // verus!
