//! A single-pass ahead-of-time compiler for a small C-like systems language.
//!
//! Source text goes through four stages: lexical analysis ([`lexer`]),
//! recursive-descent parsing ([`parser`]), scope-aware semantic checking
//! ([`semantic`]), and stack-machine code generation ([`codegen`]).  The
//! pipeline produces x86-64 assembly text for an external assembler and
//! linker, plus an optional textual intermediate representation.

pub mod codegen;
pub mod error;
pub mod lexer;
pub mod parser;
pub mod semantic;
pub mod text;

use vstd::prelude::*;

use crate::codegen::CodeGenerator;
use crate::error::CompilerError;
use crate::lexer::Lexer;
use crate::lexer::LexSt;
use crate::parser::AstNode;
use crate::parser::Parser;
use crate::semantic::SemanticAnalyzer;

verus! {

/// Runs the whole pipeline over in-memory source text and returns the
/// pseudo-IR text and the assembly text.
///
/// Each stage is fail-fast and they run in order: when the lexing mirror
/// rejects the source, the result is that lexical error and nothing else
/// runs; when lexing succeeds and the parse mirror rejects the tokens,
/// the result is a parse error; when both succeed, the outcome is tied
/// to the parsed module — a semantic error exactly when
/// [`crate::semantic::spec_analyze`] rejects it, otherwise the two texts
/// are precisely the renderings that [`crate::codegen::ir_text`] and
/// [`crate::codegen::spec_to_assembly`] give for it, with the documented
/// size-limit code-generation error as the only other outcome.
pub fn compile_source(source: &str, opt_level: u8) -> (r: Result<(String, String), CompilerError>)
    requires
        source@.len() < usize::MAX,
    ensures
        r matches Ok(p) ==> exists|ast: AstNode|
            {
                &&& #[trigger] crate::parser::module_wf(ast)
                &&& crate::semantic::spec_analyze(ast)
                &&& p.0@ == crate::codegen::ir_text(ast)
                &&& (crate::codegen::spec_to_assembly(ast) matches Ok(t) && p.1@ == t)
            },
        r matches Err(e) ==> (e matches CompilerError::LexerError(_) || e
            matches CompilerError::ParseError(_) || e matches CompilerError::SemanticError(_) || e
            matches CompilerError::CodeGenError(_)),
        ({
            let start = LexSt { s: source@, pos: 0, line: 1, col: 1 };
            &&& (crate::lexer::spec_tokenize(start) is Err ==> (r matches Err(e) && (e
                matches CompilerError::LexerError(_))))
            &&& (crate::lexer::spec_tokenize(start) matches Ok(tvs) ==> {
                &&& (crate::parser::spec_parse(tvs) is Err ==> (r matches Err(e) && (e
                    matches CompilerError::ParseError(_))))
                &&& (crate::parser::spec_parse(tvs) matches Ok(astv) ==> exists|ast: AstNode|
                    {
                        &&& #[trigger] crate::parser::ast_view(ast) == astv
                        &&& (!crate::semantic::spec_analyze(ast) ==> (r matches Err(e) && (e
                            matches CompilerError::SemanticError(_))))
                        &&& (crate::semantic::spec_analyze(ast) ==> match r {
                            Ok(p) => p.0@ == crate::codegen::ir_text(ast) && (
                            crate::codegen::spec_to_assembly(ast) matches Ok(x) && p.1@ == x),
                            Err(e) => (e matches CompilerError::CodeGenError(_)) && (
                            crate::codegen::ast_size(ast) > crate::codegen::MAX_AST_NODES as int
                                || crate::codegen::spec_to_assembly(ast) is Err),
                        })
                    })
            })
        }),
{
    let mut lexer = Lexer::new(source);
    let ghost lex_start = LexSt { s: source@, pos: 0, line: 1, col: 1 };
    let tokens = match lexer.tokenize() {
        Ok(t) => t,
        Err(e) => {
            return Err(e);
        },
    };
    proof {
        crate::lexer::lemma_tokenize_sorted(lex_start);
        match crate::lexer::spec_tokenize(lex_start) {
            Ok(tvs) => {
                assert(tokens@.map_values(|t: crate::lexer::Token| t@).len() == tvs.len());
                assert(tokens@.map_values(|t: crate::lexer::Token| t@)[tokens@.len() - 1]
                    == tokens@.last()@);
            },
            Err(()) => {},
        }
    }

    let mut parser = Parser::new(tokens);
    let ast = match parser.parse() {
        Ok(a) => a,
        Err(e) => {
            return Err(e);
        },
    };

    let mut semantic = SemanticAnalyzer::new();
    match semantic.analyze(&ast) {
        Ok(()) => {},
        Err(e) => {
            proof {
                assert(crate::parser::ast_view(ast) == crate::parser::ast_view(ast)
                    && !crate::semantic::spec_analyze(ast));
            }
            return Err(e);
        },
    }

    let mut codegen = CodeGenerator::new(opt_level);
    let ir = match codegen.generate(&ast) {
        Ok(s) => s,
        Err(e) => {
            return Err(e);
        },
    };

    let assembly = match codegen.to_assembly(&ast) {
        Ok(s) => s,
        Err(e) => {
            proof {
                assert(crate::parser::ast_view(ast) == crate::parser::ast_view(ast)
                    && crate::semantic::spec_analyze(ast));
            }
            return Err(e);
        },
    };

    proof {
        assert(crate::parser::module_wf(ast) && crate::semantic::spec_analyze(ast) && ir@
            == crate::codegen::ir_text(ast) && (crate::codegen::spec_to_assembly(ast) matches Ok(t)
            && assembly@ == t));
        assert(crate::parser::ast_view(ast) == crate::parser::ast_view(ast));
    }
    Ok((ir, assembly))
}

} // verus!
