//! A plot document in, a thumbnail out: the command line that a file manager
//! runs, and the size of the picture it gets.

pub mod options;

pub mod sizing;
