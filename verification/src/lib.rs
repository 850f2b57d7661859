//! Multiparty session types: local types of single participants, the
//! rewriting of their recursion variables, and the merging of the local
//! types of all participants into one global type.

pub mod codegen;
pub mod global_type;
pub mod ilt;
pub mod laws;
pub mod macros;
pub mod merging;
pub mod model;
pub mod order;
pub mod parse;
pub mod parties;
pub mod render;
pub mod session;
pub mod session_type;
pub mod syntax;
