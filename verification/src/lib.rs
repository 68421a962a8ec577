//! A tree-walking interpreter for a small dynamically typed scripting
//! language: variables, left-folded binary operators, `if`/`elseif`/`else`
//! chains, `for` loops, user-defined functions with early return, arrays,
//! string interpolation, and inline shell commands.
//!
//! The library holds the parsing layer (token stream to syntax tree) and the
//! evaluation layer (syntax tree to values, over a lexical scope stack and a
//! function registry). Tokenizing raw text, reading files, and running shell
//! commands are the host program's job: the evaluator reports a request when
//! it needs a shell result or a module, and the host supplies the answer and
//! runs the evaluation again.
pub mod lexer;
pub mod parsing;
pub mod runtime;
