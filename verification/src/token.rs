//! Tokens of the source language: keywords, identifiers, integer constants,
//! operators and punctuators. The token sequence is the sole output of the
//! lexer and the sole input to the parser.

use vstd::prelude::*;

verus! {

/// One lexical token.
#[derive(Debug, Clone, PartialEq)]
pub enum Token {
    Keyword(Keyword),
    Identifier(String),
    /// A decimal integer literal; the language has a single 32-bit signed
    /// integer type.
    Constant(i32),
    Operator(Operator),
    Punctuator(Punctuator),
}

/// The closed keyword set.
#[derive(Debug, Clone, Copy, PartialEq, Eq, Structural)]
pub enum Keyword {
    Int,
    Break,
    Else,
    Return,
    Continue,
    For,
    Do,
    If,
    While,
}

/// Punctuation tokens.
#[derive(Debug, Clone, Copy, PartialEq, Eq, Structural)]
pub enum Punctuator {
    QuestionMark,
    OpenParen,
    CloseParen,
    OpenBrace,
    CloseBrace,
    Comma,
    Colon,
    Semicolon,
}

/// Arithmetic, bitwise, logical, relational and assignment operators.
#[derive(Debug, Clone, Copy, PartialEq, Eq, Structural)]
pub enum Operator {
    Plus,
    Minus,
    Multiplication,
    Division,
    Modulo,
    BitwiseShiftLeft,
    BitwiseShiftRight,
    BitwiseAnd,
    BitwiseOr,
    BitwiseXor,
    LogicalNegation,
    LogicalAnd,
    LogicalOr,
    Equal,
    NotEqual,
    LessThan,
    LessThanOrEqual,
    GreaterThan,
    GreaterThanOrEqual,
    Assignment,
    AssignPlus,
    AssignMinus,
    AssignMult,
    AssignDiv,
    AssignMod,
}

impl Operator {
    /// True exactly for the operators accepted in unary prefix position.
    pub fn is_unary(self) -> (r: bool)
        ensures
            r == (self is Minus || self is LogicalNegation),
    {
        match self {
            Operator::Minus | Operator::LogicalNegation => true,
            _ => false,
        }
    }

    /// True exactly for the bitwise operators, which the parser groups at one
    /// precedence level.
    pub fn is_bitwise_operators(self) -> (r: bool)
        ensures
            r == (self is BitwiseShiftLeft || self is BitwiseShiftRight || self is BitwiseAnd
                || self is BitwiseOr || self is BitwiseXor),
    {
        match self {
            Operator::BitwiseShiftLeft
            | Operator::BitwiseShiftRight
            | Operator::BitwiseAnd
            | Operator::BitwiseOr
            | Operator::BitwiseXor => true,
            _ => false,
        }
    }

    /// True exactly for the assignment operators.
    pub fn is_assignment_operators(self) -> (r: bool)
        ensures
            r == (self is Assignment || self is AssignPlus || self is AssignMinus
                || self is AssignMult || self is AssignDiv || self is AssignMod),
    {
        match self {
            Operator::Assignment
            | Operator::AssignPlus
            | Operator::AssignMinus
            | Operator::AssignMult
            | Operator::AssignDiv
            | Operator::AssignMod => true,
            _ => false,
        }
    }
}

} // verus!
