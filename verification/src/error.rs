//! Structured error values. Every scanning or parsing failure carries the
//! position needed to render a caret diagnostic; decoding failures of the
//! persistence codec form a separate taxonomy.

use vstd::prelude::*;
use crate::token::Position;

verus! {

/// The fixed text a parse step expected when it failed; carried by
/// `ErrorKind::ExpectStr`.
#[derive(Debug, Clone, Copy, PartialEq, Eq, Structural)]
pub enum Expected {
    /// `(`
    LeftParen,
    /// `;`
    Semicolon,
    /// `; or {`, after the declarator of an external declaration
    SemicolonOrLeftBrace,
    /// the keyword `while` of a do-statement
    KwWhile,
}

/// What went wrong, for the preprocessor (`UnterminatedComment`), the scanner
/// (`ExpectDigit`) and the parser (the rest).
#[derive(Debug, Clone, Copy, PartialEq, Eq, Structural)]
pub enum ErrorKind {
    UnterminatedComment,
    ExpectDigit,
    ExpectDeclarator,
    ExpectDirectDeclarator,
    ExpectDeclarationSpecifier,
    ExpectStatement,
    ExpectCompoundStatement,
    ExpectExpression,
    ExpectIntegerConstant,
    ExpectForInitialization,
    ExpectStr(Expected),
    /// The position is the one of the unmatched opening delimiter, so the
    /// diagnostic points at the start of the unmatched construct.
    UnmatchedParenthesis(Position),
}

/// A failure of the preprocessor, the scanner or the parser.
#[derive(Debug, Clone, Copy, PartialEq, Eq, Structural)]
pub struct Error {
    pub pos: Position,
    pub error_kind: ErrorKind,
}

/// Why a persisted byte buffer was rejected by the decoder.
#[derive(Debug, Clone, Copy, PartialEq, Eq, Structural)]
pub enum DecodeError {
    /// The buffer is shorter than the header or than a declared section.
    Truncated,
    /// The section offsets in the header do not line up back to back.
    SectionMismatch,
    /// A token or identifier record holds a tag or a field value outside its
    /// range.
    BadRecord,
    /// The text section is not valid UTF-8.
    InvalidUtf8,
}

} // verus!
