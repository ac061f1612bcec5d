//! Core of a small POSIX-flavored command shell: a lexer for quoted and
//! escaped words and shell operators, a parser that groups tokens into
//! pipelines of simple commands with wired standard streams, the built-in
//! command semantics, and `PATH`-based executable resolution.
//!
//! Everything here is pure computation over plain values; reading input,
//! opening files and spawning processes happen outside this crate.

pub mod builtin_commands;
pub mod commands;
pub mod completion;
pub mod executable_path;
pub mod lexer;
pub mod stream_target;
pub mod text;
pub mod tokens;

use vstd::prelude::*;

verus! {

} // verus!
