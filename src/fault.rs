use vstd::prelude::*;

verus! {

/// Why lexing, parsing or running a program stopped.
#[derive(Debug, Clone, Copy, PartialEq, Eq, Structural)]
pub enum Fault {
    /// A number literal does not fit in 64 signed bits.
    NumberOutOfRange,
    /// `stack <name> : <type> <-` is not followed by a string or number literal.
    ExpectedLiteral,
    /// A declaration names a type other than `text` or `num`.
    UnsupportedType,
    /// A statement starts with `stack` but has neither declaration shape.
    InvalidStackDecl,
    /// `out <-` is not followed by an identifier or a literal.
    InvalidOutputValue,
    /// A `+` is not followed by an identifier or a literal.
    InvalidAdditionOperand,
    /// The tokens end right after a `+`.
    UnexpectedEnd,
    /// `in ->` is not followed by an identifier.
    ExpectedIdentifier,
    /// No statement form starts at this token.
    UnexpectedToken,
    /// A `num` variable is declared with a value that is not a number literal.
    ExpectedNumber,
    /// A variable is read or filled before any declaration of it.
    UndeclaredVariable,
    /// A node that has no value reached the expression evaluator.
    UnsupportedExpression,
    /// A node that is no statement reached the interpreter.
    UnsupportedStatement,
}

} // verus!
