//! Verified core of the Vinyl toolchain: target ABI policy, type layout,
//! runtime value rendering, the syntax tree and formatter, and the text and
//! file-table helpers of the language server.

pub mod codegen;
pub mod compiler;
pub mod diagnostics;
pub mod chars;
pub mod formatter;
pub mod lsp;
pub mod syntax;

use vstd::prelude::*;

verus! {

} // verus!
