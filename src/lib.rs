//! The debug-protocol engine of a terminal front-end for gdb: a parser for
//! lines of gdb's machine interface, extractors of frames, breakpoints and
//! disassembly from parsed records, the entity cache that loads source files
//! and disassembled functions once each, the breakpoint markers of a visible
//! range, and the decisions of a debugging session.

use vstd::prelude::*;

/// Characters and strings.
pub mod text;
/// The machine-interface value model and the text each value stands for.
pub mod token;
/// Parsing one line of machine-interface output.
pub mod parser;
/// Decimal and hexadecimal numbers.
pub mod number;
/// Looking up results by name.
pub mod fields;
/// Stack frames of stop and thread-selection records.
pub mod frame;
/// Breakpoints reported by the debugger.
pub mod breakpointmi;
/// Disassembly replies.
pub mod disassemble;
/// Breakpoints as the code view keeps them, and their markers.
pub mod breakpoint;
/// Source files of the entity cache.
pub mod srcfiledata;
/// Disassembled functions of the entity cache and their address tables.
pub mod asmfuncdata;
/// The entity cache.
pub mod code;
/// What the view needs of an entity.
pub mod filedata;
/// Keystrokes, line framing, record events and the end of a session.
pub mod session;
/// Small pieces of view state.
pub mod ui;
/// Syntax highlighting of source lines and listings.
pub mod highlight;

verus! {

} // verus!
