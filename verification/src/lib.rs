//! Core of a hardware-test-harness daemon: the unit library that turns
//! filesystem events into loaded, selected and activated units, and the
//! text protocol spoken to interface child processes.

pub mod codec;
pub mod config;
pub mod description;
pub mod interface;
pub mod protocol;
pub mod storage;
pub mod strutil;
pub mod unit;
pub mod unitbroadcaster;
pub mod unitlibrary;
pub mod unitmanager;

use vstd::prelude::*;

verus! {

} // verus!
