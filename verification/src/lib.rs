//! Assembler front-end for a tagged bytecode virtual machine.
//!
//! Translates line-oriented assembly text into an ordered sequence of
//! labels and instructions, driven by a caller-supplied instruction table
//! that maps mnemonics to opcodes, operand arities and handler values.
//! The pipeline is: comment stripping, whitespace- and quote-aware
//! tokenization, label/instruction classification, mnemonic resolution
//! and arity-checked operand materialization.

pub mod code;
pub mod operand;
pub mod parse;
pub mod table;
pub mod text;
pub mod tokenize;

use vstd::prelude::*;

verus! {

/// A character counts as whitespace for tokenization purposes.
pub open spec fn is_ws(c: char) -> bool {
    c == ' ' || c == '\t' || c == '\r' || c == '\n' || c == '\u{b}' || c == '\u{c}'
}

} // verus!
