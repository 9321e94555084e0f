pub mod basic_token;
pub mod diag;
pub mod scan;
pub mod text;
pub mod token;
pub mod xid;
pub mod interner;
pub mod ast;
pub mod lexed;
pub mod parser;
pub mod grammar;
pub mod frontend;
pub mod tape;
pub mod topology;
pub mod lattice;
pub mod utils;
pub mod connectivity;
pub mod instrs;
pub mod extractor;
pub mod layout;
pub mod render;
pub mod lower;
pub mod program;
pub mod interval;
pub mod autodiff;
pub mod octree;
pub mod quant;
pub mod grid;
pub mod pretty;
