//! Token checkers: strategies that map incoming tokens to authorization roles.

pub mod string;
