//! Front end of a minimal language toolchain: a lexer that classifies raw
//! source text into span-tagged tokens, and a recursive-descent,
//! precedence-climbing parser that builds an abstract syntax tree of
//! expression statements.

use vstd::prelude::*;

pub mod ast;
pub mod lexer;
pub mod parser;

verus! {

/// Run configuration: the path of the source file to read.
pub struct Config {
    pub file_path: String,
}

impl Config {
    /// Builds a configuration from command-line arguments: the first argument
    /// is the program name, the second the source file path. Fewer than two
    /// arguments is an error.
    pub fn build(args: &[String]) -> (result: Result<Config, &'static str>)
        ensures
            args@.len() < 2 ==> (result matches Err(m) && m@ == "No file provided"@),
            args@.len() >= 2 ==> (result matches Ok(c) && c.file_path@ == args@[1]@),
    {
        if args.len() < 2 {
            return Err("No file provided");
        }

        let file_path = &args[1];
        Ok(Config { file_path: file_path.clone() })
    }
}

} // verus!
