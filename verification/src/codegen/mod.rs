//! Backend-neutral code-generation policy: target ABI, type layout, local
//! storage modes, runtime value rendering and backend errors.

pub mod abi;
pub mod error;
pub mod layout;
pub mod runtime;
pub mod variable;
