//! A declarative finite-state-machine compiler: a grammar parser for a
//! compact transition DSL, a semantic model builder that validates the
//! rule list and assembles per-state dispatch lists, and an interpreter
//! that advances a running machine in response to events under an exact
//! dispatch contract (explicit rules first, wildcards after, first fully
//! matching rule wins).

pub mod ast;
pub mod diagram;
pub mod machine;
pub mod model;
pub mod parser;
