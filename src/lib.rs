//! Core of a firmware over-the-air update client: the update state machine,
//! chunk reassembly, topic handling and digest checking, independent of any
//! radio, broker or flash hardware.

pub mod assembler;
pub mod attributes;
pub mod controller;
pub mod digest;
pub mod schedule;
pub mod text;
pub mod topics;

use vstd::prelude::*;

verus! {

} // verus!
