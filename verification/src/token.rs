//! Shared value types of the front end: source positions, token kinds,
//! tokens, and interned identifier records.

use vstd::prelude::*;

verus! {

/// A position in the original source text. Lines and columns are 1-based and
/// measured in characters; the parser uses `line == 0, col == 0` as the
/// sentinel for "failed before any token was consumed".
#[derive(Debug, Clone, Copy, PartialEq, Eq, Structural)]
pub struct Position {
    pub line: usize,
    pub col: usize,
}

/// Type qualifier keywords.
#[derive(Debug, Clone, Copy, PartialEq, Eq, Structural)]
pub enum QualifierKind {
    Void,
    Int,
    Double,
}

/// Assignment and relational operators.
#[derive(Debug, Clone, Copy, PartialEq, Eq, Structural)]
pub enum RelopKind {
    Assign,
    Gt,
    Lt,
    Ge,
    Le,
    Neq,
    Eq,
}

/// A floating literal in exact decimal form: the denoted value is
/// `int_part + frac_num / 10^frac_len`. Both accumulators wrap around on
/// overflow, exactly as the integer-constant accumulator does.
#[derive(Debug, Clone, Copy, PartialEq, Eq, Structural)]
pub struct FloatConst {
    pub int_part: u32,
    pub frac_num: u64,
    pub frac_len: u64,
}

/// The closed set of token kinds the scanner produces and the parser consumes.
#[derive(Debug, Clone, Copy, PartialEq, Eq, Structural)]
pub enum TokenKind {
    IntegerConstant(u32),
    FloatingConstant(FloatConst),
    /// Index into the identifier table of a `LexerOutput`.
    Id(usize),
    If,
    Else,
    While,
    For,
    Do,
    Continue,
    Break,
    Return,
    Qualifier(QualifierKind),
    Plus,
    Minus,
    Star,
    Divide,
    Relop(RelopKind),
    LeftBrace,
    RightBrace,
    LeftParen,
    RightParen,
    LeftSqBracket,
    RightSqBracket,
    Semicolon,
    Comma,
    Not,
    /// Logical `&&`.
    And,
    /// Logical `||`.
    Or,
    /// Bitwise `&`.
    BitAnd,
    /// Bitwise `|`.
    BitOr,
    /// Bitwise `~`.
    BitNot,
}

/// One scanned token: its kind and the position of its first character in the
/// original source.
#[derive(Debug, Clone, Copy, PartialEq, Eq, Structural)]
pub struct Token {
    pub kind: TokenKind,
    pub pos: Position,
}

/// An interned identifier: a half-open byte range into the shared text arena.
#[derive(Debug, Clone, Copy, PartialEq, Eq, Structural)]
pub struct Identifier {
    pub text_begin: usize,
    pub text_len: usize,
}

/// The token a keyword spelling maps to, or `None` for every other spelling.
pub open spec fn spec_keyword(s: Seq<char>) -> Option<TokenKind> {
    if s == seq!['i', 'n', 't'] {
        Some(TokenKind::Qualifier(QualifierKind::Int))
    } else if s == seq!['d', 'o', 'u', 'b', 'l', 'e'] {
        Some(TokenKind::Qualifier(QualifierKind::Double))
    } else if s == seq!['v', 'o', 'i', 'd'] {
        Some(TokenKind::Qualifier(QualifierKind::Void))
    } else if s == seq!['i', 'f'] {
        Some(TokenKind::If)
    } else if s == seq!['e', 'l', 's', 'e'] {
        Some(TokenKind::Else)
    } else if s == seq!['w', 'h', 'i', 'l', 'e'] {
        Some(TokenKind::While)
    } else if s == seq!['f', 'o', 'r'] {
        Some(TokenKind::For)
    } else if s == seq!['d', 'o'] {
        Some(TokenKind::Do)
    } else {
        None
    }
}

/// Looks a spelling up in the fixed keyword table.
pub fn keyword_map(spelling: &Vec<char>) -> (t: Option<TokenKind>)
    ensures
        t == spec_keyword(spelling@),
{
    let n = spelling.len();
    if n == 3 && spelling[0] == 'i' && spelling[1] == 'n' && spelling[2] == 't' {
        proof { assert(spelling@ =~= seq!['i', 'n', 't']); }
        Some(TokenKind::Qualifier(QualifierKind::Int))
    } else if n == 6 && spelling[0] == 'd' && spelling[1] == 'o' && spelling[2] == 'u'
        && spelling[3] == 'b' && spelling[4] == 'l' && spelling[5] == 'e' {
        proof { assert(spelling@ =~= seq!['d', 'o', 'u', 'b', 'l', 'e']); }
        Some(TokenKind::Qualifier(QualifierKind::Double))
    } else if n == 4 && spelling[0] == 'v' && spelling[1] == 'o' && spelling[2] == 'i'
        && spelling[3] == 'd' {
        proof { assert(spelling@ =~= seq!['v', 'o', 'i', 'd']); }
        Some(TokenKind::Qualifier(QualifierKind::Void))
    } else if n == 2 && spelling[0] == 'i' && spelling[1] == 'f' {
        proof { assert(spelling@ =~= seq!['i', 'f']); }
        Some(TokenKind::If)
    } else if n == 4 && spelling[0] == 'e' && spelling[1] == 'l' && spelling[2] == 's'
        && spelling[3] == 'e' {
        proof { assert(spelling@ =~= seq!['e', 'l', 's', 'e']); }
        Some(TokenKind::Else)
    } else if n == 5 && spelling[0] == 'w' && spelling[1] == 'h' && spelling[2] == 'i'
        && spelling[3] == 'l' && spelling[4] == 'e' {
        proof { assert(spelling@ =~= seq!['w', 'h', 'i', 'l', 'e']); }
        Some(TokenKind::While)
    } else if n == 3 && spelling[0] == 'f' && spelling[1] == 'o' && spelling[2] == 'r' {
        proof { assert(spelling@ =~= seq!['f', 'o', 'r']); }
        Some(TokenKind::For)
    } else if n == 2 && spelling[0] == 'd' && spelling[1] == 'o' {
        proof { assert(spelling@ =~= seq!['d', 'o']); }
        Some(TokenKind::Do)
    } else {
        proof {
            assert(spelling@ != seq!['i', 'n', 't']);
            assert(spelling@ != seq!['d', 'o', 'u', 'b', 'l', 'e']);
            assert(spelling@ != seq!['v', 'o', 'i', 'd']);
            assert(spelling@ != seq!['i', 'f']);
            assert(spelling@ != seq!['e', 'l', 's', 'e']);
            assert(spelling@ != seq!['w', 'h', 'i', 'l', 'e']);
            assert(spelling@ != seq!['f', 'o', 'r']);
            assert(spelling@ != seq!['d', 'o']);
        }
        None
    }
}

} // verus!
