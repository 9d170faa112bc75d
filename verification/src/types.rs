//! The hardware configuration the simulator is built for: systolic array
//! dimensions, vector memory size, and the word types of the datapath.
use vstd::prelude::*;

verus! {

/// Rows of the systolic array.
pub const MMU_ROWS: usize = 2;

/// Columns of the systolic array.
pub const MMU_COLS: usize = 2;

/// Words held by the vector memory.
pub const VMEM_SIZE: usize = 1024;

/// Activation (and weight) word.
pub type PeAct = i8;

/// Partial-sum word.
pub type PePsum = i32;

/// Vector memory address.
pub type VAddr = u32;

} // verus!
