pub mod check;
pub mod context;
pub mod env;
pub mod error;
pub mod eval;
pub mod normalize;
pub mod parse;
pub mod repl_cmd;
pub mod syntax;
pub mod term;
pub mod text;
pub mod typ;
