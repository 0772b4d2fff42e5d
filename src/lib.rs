//! Resolution of command-line inputs: classifying each token as a file or a
//! `key=value` pair, reading input files, and coalescing everything, in order,
//! into one mapping from identifier to value.

pub mod command;
pub mod file;
pub mod grammar;
pub mod input;
pub mod inputs;
pub mod outside;
pub mod progress;


pub use file::InputFile;
pub use input::Input;
pub use inputs::Inputs;
