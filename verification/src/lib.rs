//! A TFTP (Trivial File Transfer Protocol, RFC 1350) server library.
//!
//! The library holds the protocol logic: the wire codec for the six packet
//! kinds, negotiation of the RFC 2347/2348/2349 options, confinement of
//! request paths to the service root, the lockstep block-by-block transfer
//! engines for read and write requests, and the per-request dispatch rules.
//! Every function carries a machine-checked contract.
//!
//! Sockets, files, privileges and threads are left to the embedding program:
//! it feeds received datagrams and timeouts to the engines and performs the
//! sends, reads and writes that the returned actions call for.

use vstd::prelude::*;

pub mod config;
pub mod dispatch;
pub mod engine;
pub mod options;
pub mod packet;
pub mod paths;

verus! {

/// Largest initial datagram the listener hands to a session.
pub const MAX_REQUEST_BYTES: usize = 2048;

} // verus!
