use vstd::prelude::*;

pub mod channel;
pub mod codec;
pub mod connection;
pub mod engine;
pub mod handler;
pub mod handshake;
pub mod httpparser;

verus! {

} // verus!
