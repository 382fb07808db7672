//! The compiler's error taxonomy: one kind per pipeline stage plus the
//! collaborator kinds for file access and external tool invocation.
//!
//! Every error carries a human-readable message; the kind tag is the only
//! machine-matchable payload.

use vstd::prelude::*;

verus! {

/// An error from one stage of the compilation pipeline.
///
/// The first error encountered aborts the whole compilation; no stage
/// attempts recovery or multi-error reporting.
#[derive(Debug)]
pub enum CompilerError {
    LexerError(String),
    ParseError(String),
    SemanticError(String),
    CodeGenError(String),
    IoError(String),
    AssemblyError(String),
    LinkError(String),
}

/// The stage-qualified message for an error, as the driver reports it.
pub open spec fn spec_describe(e: CompilerError) -> Seq<char> {
    match e {
        CompilerError::LexerError(m) => "Lexer error: "@ + m@,
        CompilerError::ParseError(m) => "Parse error: "@ + m@,
        CompilerError::SemanticError(m) => "Semantic error: "@ + m@,
        CompilerError::CodeGenError(m) => "Code generation error: "@ + m@,
        CompilerError::IoError(m) => "IO error: "@ + m@,
        CompilerError::AssemblyError(m) => "Assembly error: "@ + m@,
        CompilerError::LinkError(m) => "Link error: "@ + m@,
    }
}

impl CompilerError {
    /// Renders the error as `<stage> error: <message>`.
    pub fn describe(&self) -> (r: String)
        ensures
            r@ == spec_describe(*self),
    {
        let mut out: String;
        match self {
            CompilerError::LexerError(m) => {
                out = String::from_str("Lexer error: ");
                out.append(m.as_str());
            }
            CompilerError::ParseError(m) => {
                out = String::from_str("Parse error: ");
                out.append(m.as_str());
            }
            CompilerError::SemanticError(m) => {
                out = String::from_str("Semantic error: ");
                out.append(m.as_str());
            }
            CompilerError::CodeGenError(m) => {
                out = String::from_str("Code generation error: ");
                out.append(m.as_str());
            }
            CompilerError::IoError(m) => {
                out = String::from_str("IO error: ");
                out.append(m.as_str());
            }
            CompilerError::AssemblyError(m) => {
                out = String::from_str("Assembly error: ");
                out.append(m.as_str());
            }
            CompilerError::LinkError(m) => {
                out = String::from_str("Link error: ");
                out.append(m.as_str());
            }
        }
        out
    }
}

} // verus!
