//! Rush: the language pipeline of a small command shell.
//!
//! Source text is cut into tokens (`tokens`), tokens are built into a tree
//! of expressions (`grammar`, `tree`, `ast`), and the tree is walked by a
//! machine whose every move is a function from state and event to next
//! state and action (`exec`, `moves`), over a context of scoped variables
//! (`vars`, `context`) and a registry of built-ins (`natives`). Spawning
//! processes, opening files and creating pipes are left to the caller,
//! which performs the actions the machine asks for and hands back what
//! happened.
//!
//! Beside the pipeline stands a second notation with braces, read straight
//! from the characters of a text: `notation` says what each of its phrases
//! is, `parser` reads them, `statements` holds what is read.
//!
//! What holds of all programs is proved beside the code: the text of a
//! token lexes to that token again (`relex`), pipelines group to the right
//! (`pipelines`), a quoted text comes through the lexer and the tree
//! unchanged (`relex`, `sentences`) and reaches the command that names it
//! (`echoes`), every run of the machine ends in good order (`runs`), and
//! while a part of a program is evaluated what lies below it waits
//! unchanged, so that a pipe closes its ends in turn, a substitution gives
//! what was captured, the rounds of a loop take the elements in order and
//! `break` ends just the loops it names (`evaluations`).
use vstd::prelude::*;

pub mod text;
pub mod tokens;
pub mod relex;
pub mod ast;
pub mod grammar;
pub mod tree;
pub mod pipelines;
pub mod sentences;
pub mod numbers;
pub mod vars;
pub mod context;
pub mod natives;
pub mod exec;
pub mod moves;
pub mod runs;
pub mod echoes;
pub mod evaluations;
pub mod statements;
pub mod notation;
pub mod parser;

verus! {

/// Returns the text unchanged: no character of a word needs rewriting
/// before it is handed to a process.
pub fn escape(str: String) -> (res: String)
    ensures
        res@ == str@,
{
    str
}

} // verus!
