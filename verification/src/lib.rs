//! Flow selection and locking-script construction for a toy ColliderVM.
//!
//! An input value is routed to one of `2^L` flows by searching for a nonce
//! whose hash prefix falls in the accepted set; for the chosen flow two
//! locking scripts are assembled that re-check the routing on the stack
//! machine.

pub mod params;
pub mod codec;
pub mod search;
pub mod script;
pub mod fragments;
pub mod program;
pub mod machine;
pub mod behaviour;
