//! Core of a small interactive command shell.
//!
//! One line of input is tokenized (quote-aware), parsed into a command
//! expression tree with distinct precedence for `;`, `&&`/`||` and `|`,
//! and evaluated: sequencing, short-circuit control flow, alias expansion
//! and pipeline planning are all decided here. Launching processes, wiring
//! OS pipes and changing the working directory are side effects that the
//! caller performs; the evaluator asks for them through callbacks and is
//! specified against an oracle of their outcomes.

pub mod alias;
pub mod command;
pub mod eval;
pub mod parser;
pub mod tokenizer;
