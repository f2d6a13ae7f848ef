//! Watchdogs that poll a classifieds search, remember which listings they have
//! already seen, and decide whom to notify about the new ones.
use vstd::prelude::*;

pub mod clock;
pub mod extraction;
pub mod keyed;
pub mod kennel;
pub mod model;
pub mod notification;

verus! {

} // verus!
