//! The hardware units of the datapath.
pub mod acc;
pub mod bias;
pub mod fifo;
pub mod mmu;
pub mod pe;
pub mod skew_buffer;
pub mod trans;
pub mod vmem;
pub mod weight_fifo;
