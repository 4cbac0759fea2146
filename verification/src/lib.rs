//! The logic of a small graphical command console: the editable command
//! line, the key table, the search for a program on the search path, and the
//! rules for running a submitted line and recording its output.
//!
//! Nothing here touches the window, the environment, the disk or a process.
//! The program around this library reads those and hands over plain values.
//! Every function is verified against its contract, but for three small
//! wrappers around `String` in `text`, whose contracts are taken on trust.

pub mod console;
pub mod keys;
pub mod resolver;
pub mod runner;
pub mod text;
pub mod words;
