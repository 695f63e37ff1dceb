//! The whole pipeline: source text to assembly text.
use vstd::prelude::*;

use crate::builder::{base_end, base_start, default_func_args};
use crate::compiler::{Compiler, GenError, functions_out, program_supported};
use crate::lexer::{LexError, Lexer, Token, lex_failure, lexes_to, plain_source};
use crate::parser::{Node, ParseError, ParseErrorKind, Parser, grammatical, parses_to, unclosed_scopes};

verus! {

/// Why a compilation stopped.
#[derive(Debug)]
pub enum CompileError {
    Lex(LexError),
    Parse(ParseError),
    Generate(GenError),
}

/// `out` is the artifact of the program `n`: the data section (its header,
/// then the string literals), the empty bss section, then the text section:
/// the entry declaration, the frame of each function in order as
/// `functions_out` gives it, and the entry code that calls `main` and exits
/// with its result.
pub open spec fn artifact_of(n: Node, out: Seq<char>) -> bool {
    match n {
        Node::Program { body } => exists|data: Seq<char>|
            "section .data\n"@.is_prefix_of(data) && out == data + "section .bss\n"@ + base_start(
                "_start"@,
            ) + functions_out(
                body@,
                body@.len() as int,
                "section .data\n"@.len() as int,
                default_func_args(),
            ).0 + base_end("_start"@),
        _ => false,
    }
}

/// The source tokenizes, its tokens parse to a program, and `out` is that
/// program's artifact.
pub open spec fn compiles_to(src: Seq<char>, out: Seq<char>) -> bool {
    exists|t: Seq<Token>, n: Node| lexes_to(src, t) && parses_to(t, n) && artifact_of(n, out)
}

/// Emits the artifact of a parsed program.
fn generate(parsed: Node) -> (r: Result<String, GenError>)
    ensures
        r matches Ok(s) ==> artifact_of(parsed, s@),
        program_supported(parsed) ==> r is Ok,
{
    let ghost n = parsed;
    let mut program = Compiler::new(parsed);
    let ghost before = program.builder_view();
    match program.run() {
        Ok(s) => {
            proof {
                let v = program.builder_view();
                let body = match n {
                    Node::Program { body } => body@,
                    _ => Seq::empty(),
                };
                assert(before.data.len() == "section .data\n"@.len());
                assert(s@ == v.data + "section .bss\n"@ + base_start("_start"@) + functions_out(
                    body,
                    body.len() as int,
                    "section .data\n"@.len() as int,
                    default_func_args(),
                ).0 + base_end("_start"@));
            }
            Ok(s)
        },
        Err(e) => Err(e),
    }
}

/// The source tokenizes; if its tokens follow the grammar, the parse failure
/// `e` can only be unclosed scopes.
pub open spec fn parse_failure_of(src: Seq<char>, e: ParseError) -> bool {
    exists|t: Seq<Token>| lexes_to(src, t) && (grammatical(t) ==> e.kind is UnclosedScopes)
}

/// The source tokenizes and parses to a program that the code generator
/// does not support.
pub open spec fn source_unsupported(src: Seq<char>) -> bool {
    exists|t: Seq<Token>, n: Node| lexes_to(src, t) && parses_to(t, n) && !program_supported(n)
}

/// The source tokenizes, and its tokens end with `count` function scopes open.
pub open spec fn source_unclosed(src: Seq<char>, count: u32) -> bool {
    exists|t: Seq<Token>| lexes_to(src, t) && unclosed_scopes(t, count)
}

/// Compiles `source` into assembly text: tokenizes, parses, then emits every
/// declared function. Routines that the program calls but does not declare
/// are left to the linker.
#[verifier::rlimit(100)]
pub fn compile(source: &str) -> (r: Result<String, CompileError>)
    ensures
        r matches Ok(s) ==> compiles_to(source@, s@),
        r matches Err(CompileError::Parse(e)) ==> (e.kind matches ParseErrorKind::UnclosedScopes {
            count,
        } ==> source_unclosed(source@, count)),
        r matches Err(CompileError::Parse(e)) ==> parse_failure_of(source@, e),
        r matches Err(CompileError::Generate(_)) ==> source_unsupported(source@),
        plain_source(source@) ==> !(r is Err && r->Err_0 is Lex),
        r matches Err(CompileError::Lex(e)) ==> lex_failure(source@, e),
{
    let tokens = match Lexer::new().lex_text(source) {
        Ok(t) => t,
        Err(e) => {
            return Err(CompileError::Lex(e));
        },
    };
    let ghost t = tokens@;
    let parsed = match Parser::parse_tokens(tokens) {
        Ok(n) => n,
        Err(e) => {
            assert(lexes_to(source@, t) && (grammatical(t) ==> e.kind is UnclosedScopes));
            assert(parse_failure_of(source@, e));
            return Err(CompileError::Parse(e));
        },
    };
    let ghost n = parsed;
    match generate(parsed) {
        Ok(s) => {
            assert(lexes_to(source@, t) && parses_to(t, n) && artifact_of(n, s@));
            Ok(s)
        },
        Err(e) => {
            assert(lexes_to(source@, t) && parses_to(t, n) && !program_supported(n));
            assert(source_unsupported(source@));
            Err(CompileError::Generate(e))
        },
    }
}

} // verus!
