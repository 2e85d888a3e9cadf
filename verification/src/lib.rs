//! A verified legalization pass for a retargetable code generator.
//!
//! A legal instruction is one that can be mapped directly to a machine code
//! instruction for the target instruction set. The driver in [`driver`]
//! takes any function and transforms it, in place, into an equivalent
//! function using only legal instructions, while filling out the function's
//! encoding table, which provides an encoding recipe for every instruction.
//!
//! The pass does not deal with register allocation constraints; those are
//! derived from the encoding recipes and solved by a later pass.

pub mod backend;
pub mod boundary;
pub mod cursor;
pub mod driver;
pub mod ir;
pub mod isa;
pub mod reduce;
pub mod rewrite;
pub mod semantics;
pub mod split;
