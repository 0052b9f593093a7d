//! A game-world server: a world buffer that tracks and reports changes, entity
//! templates that pack attributes into bit fields, and the bookkeeping of
//! connections and client messages.
use vstd::prelude::*;

pub mod constants;
pub mod tables;
pub mod prefabs;
pub mod level;
pub mod server;
pub mod messages;

verus! {

} // verus!
