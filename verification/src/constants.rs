use vstd::prelude::*;

verus! {

/// Number of 16-bit cells that make up one entity in the world buffer.
pub const ENTITY_LENGTH: usize = 8;

/// Number of entities the world buffer has room for.
pub const MAX_WORLD_ENTITIES: usize = 1024;

/// Width, in bits, of one cell of a template's scratch pad.
pub const AGREED_UPON_BITS: usize = 16;

/// Number of cells in the world buffer: `MAX_WORLD_ENTITIES * ENTITY_LENGTH`.
pub const WORLD_LEN: usize = 8192;

/// Number of cells in a template's scratch pad: `ENTITY_LENGTH * 2`.
pub const SCRATCH_PAD_LEN: usize = 16;

} // verus!
