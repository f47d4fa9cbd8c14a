//! The reserved words and operator tokens of the source language whose
//! compiled programs this runtime executes. Pure data: the compiler
//! pipeline that consumes them is outside this crate.

use vstd::prelude::*;

verus! {

#[derive(Debug, Clone, Copy, PartialEq, Eq, Structural, PartialOrd, Ord)]
pub enum ReservedId {
    If,
    Else,
    For,
    In,
    While,
    Procedure,
    Fn,
    Int,
    Qbit,
    Measure,
    Print,
    Defgate,
    Pass,
    Return,
    Package,
    Import,
    Ctrl,
    NCtrl,
    Inv,
    Bool,
    True,
    False,
    Let,
    Const,
    Unit,
    Break,
    Continue,
    Double,
    As,
    Extern,
    Gate,
    Deriving,
    Oracle,
    To,
    From,
}

#[derive(Debug, Clone, Copy, PartialEq, Eq, Structural, PartialOrd, Ord)]
pub enum ReservedOp {
    Ket0,
    Eq,
    Assign,
    Plus,
    Minus,
    Mult,
    Div,
    Less,
    Greater,
    LessEq,
    GreaterEq,
    NEq,
    And,
    Or,
    Not,
    Mod,
    BitAnd,
    BitOr,
    BitXor,
    RShift,
    LShift,
    Comma,
    LBrace,
    RBrace,
    LParen,
    RParen,
    LSquare,
    RSquare,
    Dot,
    Colon,
    Semicolon,
    Arrow,
    Pow,
    Range,
    Scope,
    Quote,
    AndWord,
    OrWord,
    NotWord,
}

} // verus!
