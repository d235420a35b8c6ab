//! An interactive foreign-call engine: command lines are tokenised, the
//! function name is resolved in a registry of loaded libraries, argument
//! types are inferred from the literals, and the arguments are marshaled
//! into call-ready storage.
pub mod call;
pub mod decode;
pub mod dlfcn;
pub mod eval;
pub mod lex;
pub mod number;
pub mod parser;
pub mod registry;
pub mod scan;
pub mod session;
pub mod text;
pub mod vars;

