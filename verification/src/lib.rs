//! A cycle-aware simulator of a configurable tensor processing unit: the
//! instruction set and its assembler, the program binary, and the hardware
//! units of the datapath.
pub mod assembler;
pub mod config;
pub mod hardware;
pub mod isa;
pub mod program;
pub mod simulator;
pub mod text;
pub mod types;
pub mod word;

pub use config::TpuConfig;
pub use program::Program;
pub use simulator::Tpu;
