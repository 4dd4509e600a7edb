//! An assembler for the MicroCVM virtual machine.
//!
//! Source text is tokenized line by line (comments stripped, labels
//! recorded, `ds` data directives split on commas outside quotes), each
//! token is resolved against the instruction, register and runtime-call
//! symbol tables, and the resulting 16-bit words are serialized little
//! endian.
use vstd::prelude::*;

pub mod assemble;
pub mod cpu;
pub mod emit;
pub mod encode;
pub mod labels;
pub mod laws;
pub mod pack;
pub mod scan;
pub mod text;

verus! {

} // verus!
