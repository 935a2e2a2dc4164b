//! The program text handed to the pipeline, and the argument that names it.
use vstd::prelude::*;

verus! {

/// The text of one program.
pub struct Source {
    pub string: String,
}

/// Why no program text was named.
#[derive(Debug, Clone, Copy, PartialEq, Eq, Structural)]
pub enum SourceError {
    /// No argument follows the program's own name.
    NoSourceFile,
}

impl SourceError {
    /// The text of the message that describes the error.
    pub open spec fn text(&self) -> Seq<char> {
        match self {
            SourceError::NoSourceFile => "No source file"@,
        }
    }

    /// The message that describes the error.
    pub fn message(&self) -> (r: &'static str)
        ensures
            r@ == self.text(),
    {
        match self {
            SourceError::NoSourceFile => "No source file",
        }
    }
}

impl Source {
    /// The path of the program text: the first argument after the program's own name.
    pub fn path_argument(args: &Vec<String>) -> (r: Result<&String, SourceError>)
        ensures
            match r {
                Ok(p) => args@.len() >= 2 && *p == args@[1],
                Err(e) => args@.len() < 2 && e == SourceError::NoSourceFile,
            },
    {
        if args.len() < 2 {
            Err(SourceError::NoSourceFile)
        } else {
            Ok(&args[1])
        }
    }
}

} // verus!
