//! Error kinds of the compilation pipeline, one per stage: lexing, parsing,
//! translation. Runtime violations live with the runtime model.

use vstd::prelude::*;

verus! {

/// Character position of the first input no token rule covers.
#[derive(Clone, Debug)]
pub struct LexerError {
    pub span_start: usize,
    pub span_end: usize,
}

/// Positions of the unexpected tokens the parser stopped on.
#[derive(Clone, Debug)]
pub struct ParserError {
    pub positions: Vec<usize>,
}

/// A single translator diagnostic, carrying the offending name.
#[derive(Clone, Debug)]
pub enum TranslateError {
    /// A call refers to a symbol that is not a declared import.
    UnknownSymbol(String),
    /// A free variable has no kind in the typing environment.
    UntypedIdentifier(String),
    /// A call's argument count differs from the import's parameter count.
    ArityMismatch(String),
    /// A name is declared twice in the same block, or a for-index is also
    /// read by the loop's own bound expressions.
    Redeclaration(String),
}

#[verifier::ext_equal]
pub enum SpecTransError {
    UnknownSymbol(Seq<char>),
    UntypedIdentifier(Seq<char>),
    ArityMismatch(Seq<char>),
    Redeclaration(Seq<char>),
}

impl View for TranslateError {
    type V = SpecTransError;

    open spec fn view(&self) -> SpecTransError {
        match self {
            TranslateError::UnknownSymbol(n) => SpecTransError::UnknownSymbol(n@),
            TranslateError::UntypedIdentifier(n) => SpecTransError::UntypedIdentifier(n@),
            TranslateError::ArityMismatch(n) => SpecTransError::ArityMismatch(n@),
            TranslateError::Redeclaration(n) => SpecTransError::Redeclaration(n@),
        }
    }
}

impl DeepView for TranslateError {
    type V = SpecTransError;

    open spec fn deep_view(&self) -> SpecTransError {
        self@
    }
}

/// All diagnostics of the translation stage, in the order they were found.
#[derive(Debug)]
pub struct TranslatorError {
    pub errors: Vec<TranslateError>,
}

/// Any failure of the front half of the pipeline.
#[derive(Debug)]
pub enum Error {
    Lexer(LexerError),
    Parser(ParserError),
    Translator(TranslatorError),
}

pub type Result<T> = core::result::Result<T, Error>;

} // verus!
