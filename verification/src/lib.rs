pub mod values;
pub mod ast;
pub mod deps;
pub mod solver;
pub mod parser;
pub mod runtime;
pub mod topics;
pub mod combinators;
pub mod dist;
pub mod var_manager;
pub mod laws;
pub mod display;
pub mod dist_parser;
