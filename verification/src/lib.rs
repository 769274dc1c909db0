//! A name-registration and discovery daemon for distributed peer nodes.
//!
//! Peers register a node name together with a listening port and protocol
//! capabilities; other peers query the registry to find a node's port or to
//! list every registered node. The crate holds the three coupled cores of the
//! daemon: the binary wire-protocol codec, the in-memory node registry, and
//! the connection / event-loop state machine, together with the address
//! resolver that turns a configuration string into the socket addresses to
//! bind.

pub mod constants;
pub mod args;
pub mod codec;
pub mod conn;
pub mod registry;
pub mod resolver;
pub mod server;

pub use constants::EPMD_PORT_NUMBER;
pub use codec::{EpmdReq, EpmdResp, RespKind, parse_request, serialize_response, parse_response};
pub use registry::{Epmd, ErlNode};
pub use server::{EpmdConfig, ServerState, ServerEvent, ServerOutput, run_console, process_request};
pub use args::{parse_args, ParseResponse};
