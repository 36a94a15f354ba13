pub mod cli;
pub mod env;
pub mod eval;
pub mod exp;
pub mod num;
pub mod utils;
