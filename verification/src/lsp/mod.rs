//! Language-server logic that does not talk to the client: the in-memory
//! file table, file identities, and text helpers over source positions.

pub mod completion;
pub mod interner;
pub mod position;
pub mod sync;
pub mod text;
pub mod update;
pub mod vfs;
pub mod workspace;
