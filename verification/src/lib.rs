//! The front end of the tinct language: tokens, surface trees, diagnostics, the session of the
//! interactive prompt, and profiling spans.
//!
//! The executable types have models made of sequences, sets and maps (`DeepView`), and the contracts
//! say over these what is returned and what changes.
pub mod annotate;
pub mod answers;
pub mod ast;
pub mod brackets;
pub mod classes;
pub mod close;
pub mod colon;
pub mod console;
pub mod declarations;
pub mod diagnostic;
pub mod direct;
pub mod frame;
pub mod header;
pub mod history;
pub mod laws;
pub mod layout;
pub mod lexer;
pub mod mistakes;
pub mod model;
pub mod node;
pub mod notes;
pub mod open;
pub mod operator;
pub mod pages;
pub mod parser;
pub mod parser2;
pub mod pieces;
pub mod place;
pub mod profiling;
pub mod quotes;
pub mod reading;
pub mod records;
pub mod remarks;
pub mod repl;
pub mod report;
pub mod scan;
pub mod section;
pub mod sheets;
pub mod sound;
pub mod sources;
pub mod spelling;
pub mod state;
pub mod stream;
pub mod take;
pub mod terms;
pub mod text;
pub mod thunk;
pub mod tree;
pub mod value;
