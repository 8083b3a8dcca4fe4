//! A replica of the Practical Byzantine Fault Tolerance agreement protocol:
//! the message codec, the message log, the consensus behaviour and the
//! per-substream request/response engine, each with its contracts.

use vstd::prelude::*;

pub mod message;
pub mod codec;
pub mod state;
pub mod handler;
pub mod behavior;
pub mod config;
pub mod node_type;
pub mod protocol_config;

verus! {

} // verus!
