//! A streaming decoder for word-oriented binary modules in the SPIR-V layout.
//!
//! A module is a five-word header followed by instruction records. Each record
//! is decoded against a caller-supplied grammar table and delivered, one at a
//! time, to a caller-supplied [`Consumer`].
use vstd::prelude::*;

pub mod decoder;
pub mod grammar;
pub mod laws;
pub mod message;
pub mod operand;
pub mod parser;

pub use decoder::{DecodeError, Decoder};
pub use grammar::{Enumerant, GrammarTable, InstructionGrammar, LogicalOperand, OperandKind, Quantifier};
pub use operand::Operand;
pub use parser::{
    parse, Action, Callback, Consumer, Instruction, ModuleHeader, Parser, Session, State, Step,
};
