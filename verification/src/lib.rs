//! Front end of a small compiler: an arena-backed syntax tree, a traversal
//! framework over it, a converter from concrete parse trees, and a lowering
//! pass into a basic-block intermediate representation.

pub mod ast;
pub mod convertor;
pub mod ir;
pub mod parser;
