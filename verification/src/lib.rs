//! An assembler and a virtual machine for a one-accumulator computer with a
//! hundred memory cells.
//!
//! [`IR::parse_lines`] reads assembly text, [`IR::assemble`] turns it into a
//! memory image, and [`LMC`] executes the image, talking to the outside
//! through an [`InputProvider`].

pub mod assembler;
pub mod error;
pub mod isa;
pub mod lmc;
pub mod statement;
pub mod text;

pub use crate::assembler::IR;
pub use crate::error::{Error, ErrorKind};
pub use crate::isa::{decode, Mnemonic, Operation, MEMORY_SIZE};
pub use crate::lmc::{Cpu, InputProvider, Script, Traffic, LMC};
pub use crate::statement::{Address, Instructions, Statement};
