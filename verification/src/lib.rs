//! A tape machine for a small bracket-structured instruction language.
//!
//! The machine owns a fixed-length tape of wrapping 8-bit cells, a cursor into
//! the tape, and a fixed-capacity stack of loop addresses. A program is a
//! string; the characters `+ - > < . [ ]` are its instructions and every other
//! character is skipped.
//!
//! [`model`] defines what a program does, one instruction at a time, on
//! mathematical values. [`interpreter`] holds the executable machine, proved to
//! end every run exactly as the model says. [`theorems`] proves general facts
//! about runs from the model.

pub mod error;
pub mod model;
pub mod interpreter;
pub mod theorems;

pub use error::ErrorKind;
pub use interpreter::Brainfuck;
pub use model::{Config, Machine, Status};
