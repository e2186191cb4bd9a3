//! Read-only access to a compressed game-asset container, a zero-copy typed
//! view model over decompressed records, and a schema compiler that turns
//! declarative field descriptions into view definitions.

pub mod archive;
pub mod bytes;
pub mod compiler;
pub mod defs;
pub mod trusted;
pub mod view;
