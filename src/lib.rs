//! A small interactive shell: a lexer and a parser that turn a command line
//! into a tree of pipelines, the decisions of the engine that runs that tree,
//! and the job and alias tables that the engine keeps.
//!
//! - [`parser`]: the command-line grammar, from characters to lexemes, to
//!   tokens (substitutions run), to a tree.
//! - [`scanner`] and [`reader`]: a lexer that reads one token at a time.
//! - [`subst`]: command substitution.
//! - [`aliases`] and [`job_manager`]: the alias and job tables.
//! - [`shell`]: builtin commands, alias resolution, the walk of a tree and
//!   the status of a pipeline.
//! - [`text`]: text helpers and decimal numbers.
pub mod text;
pub mod job_manager;
pub mod subst;
pub mod parser;
pub mod aliases;
pub mod reader;
pub mod scanner;
pub mod shell;
