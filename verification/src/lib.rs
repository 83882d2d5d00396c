//! A small compiler for a data-description language: source text is split
//! into tokens, the tokens are parsed into a tree of declarations, the tree
//! is resolved into named types with every reference checked, and the types
//! are written out as class declarations.
//!
//! Each stage is an executable function whose contract says that it computes
//! one spec function: [`frontend::tokenizer::lex`],
//! [`frontend::parser::grammar_block`], [`frontend::resolve_block`] and
//! [`backend::javascript::emit`]. [`compile`] runs them in sequence.

pub mod backend;
pub mod frontend;
pub mod text;

use vstd::prelude::*;
use backend::javascript::{block_text, emit, from_main_representation};
use frontend::parser::{grammar_block, Parser, SpecSyntaxError, SyntaxError};
use frontend::tokenizer::{lex, LexError, Tokenizer};
use frontend::{
    construct_main_representation, resolve_block, ResolveError, Scope, ScopeRef,
    SpecResolveError,
};
use text::{characters, Text};

verus! {

/// Why a source text could not be compiled: the stage that refused it, and
/// the error of that stage.
#[derive(Debug, PartialEq, Eq)]
pub enum CompileError {
    Lexical(LexError),
    Syntax(SyntaxError),
    Resolve(ResolveError),
}

/// The mathematical value of a [`CompileError`].
pub enum SpecCompileError {
    Lexical(LexError),
    Syntax(SpecSyntaxError),
    Resolve(SpecResolveError),
}

impl View for CompileError {
    type V = SpecCompileError;

    open spec fn view(&self) -> SpecCompileError {
        match self {
            CompileError::Lexical(error) => SpecCompileError::Lexical(*error),
            CompileError::Syntax(error) => SpecCompileError::Syntax(error@),
            CompileError::Resolve(error) => SpecCompileError::Resolve(error@),
        }
    }
}

/// What a source text compiles to. The whole text is split into tokens; the
/// block at the start of the tokens is parsed, and what stands behind it is
/// not looked at; the block is resolved with no scope around it; its types
/// are written out. The first stage that fails gives the error.
pub open spec fn compiled(source: Text) -> Result<Text, SpecCompileError> {
    match lex(source) {
        Err(error) => Err(SpecCompileError::Lexical(error)),
        Ok(tokens) => match grammar_block(tokens, 0) {
            Err(error) => Err(SpecCompileError::Syntax(error)),
            Ok((block, _)) => match resolve_block(block, Set::empty()) {
                Err(error) => Err(SpecCompileError::Resolve(error)),
                Ok(code) => Ok(block_text(emit(code.scope.types))),
            },
        },
    }
}

/// Whether `output` is what compiling `source` gives.
pub open spec fn is_output_of(output: Result<String, CompileError>, source: Text) -> bool {
    match compiled(source) {
        Ok(text) => output matches Ok(written) && written@ == text,
        Err(error) => output matches Err(raised) && raised@ == error,
    }
}

/// Two runs on the same text agree: both succeed with the same output,
/// character for character, or both fail with the same error.
pub proof fn lemma_same_text_same_output(
    source: Text,
    first: Result<String, CompileError>,
    second: Result<String, CompileError>,
)
    requires
        is_output_of(first, source),
        is_output_of(second, source),
    ensures
        match (first, second) {
            (Ok(one), Ok(other)) => one@ == other@,
            (Err(one), Err(other)) => one@ == other@,
            _ => false,
        },
{
}

/// Compiles a source text. The output is a function of the text alone.
pub fn compile(source: &str) -> (output: Result<String, CompileError>)
    ensures
        is_output_of(output, source@),
{
    let mut tokenizer = Tokenizer::new(characters(source));
    let tokens = match tokenizer.tokenize() {
        Ok(tokens) => tokens,
        Err(error) => {
            return Err(CompileError::Lexical(error));
        },
    };
    let mut parser = Parser::new(tokens);
    let block = match parser.parse_block() {
        Ok(block) => block,
        Err(error) => {
            return Err(CompileError::Syntax(error));
        },
    };
    let scope = Scope::new();
    let chain = ScopeRef::new(&scope);
    proof {
        scope.types.lemma_view_names();
        assert(chain.visible() =~= Set::<Text>::empty());
    }
    let code = match construct_main_representation(&block, chain) {
        Ok(code) => code,
        Err(error) => {
            return Err(CompileError::Resolve(error));
        },
    };
    Ok(from_main_representation(&code).to_text())
}

} // verus!
