//! The layer-4 proxy: upstream selection, routing by TLS server name, and the
//! decisions of the TCP and UDP relays.
//!
//! The modules here decide; sockets, timers and threads belong to the program
//! around the library, which performs the actions and reports what happened.

pub mod balance;
pub mod handoff;
pub mod hash;
pub mod hello;
pub mod ring;
pub mod routing;
pub mod spread;
pub mod tcp;
pub mod tls;
pub mod tls_accept;
pub mod udp;
pub mod udp_service;

use crate::config::ast::Layer4Listener;
use crate::config::compiled::CompiledConfig;
use vstd::prelude::*;

verus! {

/// The layer-4 listeners of a snapshot, in the order of the configuration.
pub fn listeners(compiled: &CompiledConfig) -> (r: &[Layer4Listener])
    ensures
        r@ == compiled.layer4@,
{
    compiled.layer4.as_slice()
}

} // verus!
