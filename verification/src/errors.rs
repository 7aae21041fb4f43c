//! The fault taxonomy shared by the lexer, the parser and the interpreter:
//! lexical and syntactic faults (`SyntaxError`) and runtime faults
//! (`RuntimeError`), each with a mathematical view over `Seq<char>`.

use vstd::prelude::*;

use crate::lexer::Token;
use crate::lexer::TokenV;
use crate::text::char_to_string;
use crate::text::dec_digits;
use crate::text::usize_to_string;

verus! {

/// A lexical or syntactic fault. Offsets count characters from the start of
/// the submitted source text.
#[derive(Debug, PartialEq)]
pub enum SyntaxError {
    UnexpectedCharacter(char, usize),
    UnterminatedStringLiteral(usize),
    UnexpectedToken(Token),
    UnexpectedIdentifier(String, usize),
    InvalidVariableName(String, usize),
    NumberLiteralOverflow(usize),
}

/// The mathematical view of a `SyntaxError`.
pub enum SynErrV {
    UnexpectedCharacter(char, nat),
    UnterminatedStringLiteral(nat),
    UnexpectedToken(TokenV),
    UnexpectedIdentifier(Seq<char>, nat),
    InvalidVariableName(Seq<char>, nat),
    NumberLiteralOverflow(nat),
}

impl View for SyntaxError {
    type V = SynErrV;

    open spec fn view(&self) -> SynErrV {
        match self {
            SyntaxError::UnexpectedCharacter(c, pos) => SynErrV::UnexpectedCharacter(
                *c,
                *pos as nat,
            ),
            SyntaxError::UnterminatedStringLiteral(pos) => SynErrV::UnterminatedStringLiteral(
                *pos as nat,
            ),
            SyntaxError::UnexpectedToken(token) => SynErrV::UnexpectedToken(token@),
            SyntaxError::UnexpectedIdentifier(name, pos) => SynErrV::UnexpectedIdentifier(
                name@,
                *pos as nat,
            ),
            SyntaxError::InvalidVariableName(name, pos) => SynErrV::InvalidVariableName(
                name@,
                *pos as nat,
            ),
            SyntaxError::NumberLiteralOverflow(pos) => SynErrV::NumberLiteralOverflow(*pos as nat),
        }
    }
}

impl SyntaxError {
    /// A structural copy; the result has the same view as the original.
    pub fn duplicate(&self) -> (r: SyntaxError)
        ensures
            r@ == self@,
    {
        match self {
            SyntaxError::UnexpectedCharacter(c, pos) => SyntaxError::UnexpectedCharacter(*c, *pos),
            SyntaxError::UnterminatedStringLiteral(pos) => SyntaxError::UnterminatedStringLiteral(
                *pos,
            ),
            SyntaxError::UnexpectedToken(token) => SyntaxError::UnexpectedToken(token.duplicate()),
            SyntaxError::UnexpectedIdentifier(name, pos) => SyntaxError::UnexpectedIdentifier(
                name.clone(),
                *pos,
            ),
            SyntaxError::InvalidVariableName(name, pos) => SyntaxError::InvalidVariableName(
                name.clone(),
                *pos,
            ),
            SyntaxError::NumberLiteralOverflow(pos) => SyntaxError::NumberLiteralOverflow(*pos),
        }
    }
}

/// A runtime fault raised while evaluating a statement or an expression.
#[derive(Debug, PartialEq)]
pub enum RuntimeError {
    Generic(String),
    NotImplemented(String),
    InvalidOperation(usize),
    SyntaxError(SyntaxError),
    InvalidState(String),
    IllegalLineNumber(String),
    UndefinedVariable(String, usize),
}

/// The mathematical view of a `RuntimeError`.
pub enum RunErrV {
    Generic(Seq<char>),
    NotImplemented(Seq<char>),
    InvalidOperation(nat),
    Syntax(SynErrV),
    InvalidState(Seq<char>),
    IllegalLineNumber(Seq<char>),
    UndefinedVariable(Seq<char>, nat),
}

impl View for RuntimeError {
    type V = RunErrV;

    open spec fn view(&self) -> RunErrV {
        match self {
            RuntimeError::Generic(message) => RunErrV::Generic(message@),
            RuntimeError::NotImplemented(name) => RunErrV::NotImplemented(name@),
            RuntimeError::InvalidOperation(line) => RunErrV::InvalidOperation(*line as nat),
            RuntimeError::SyntaxError(inner) => RunErrV::Syntax(inner@),
            RuntimeError::InvalidState(name) => RunErrV::InvalidState(name@),
            RuntimeError::IllegalLineNumber(text) => RunErrV::IllegalLineNumber(text@),
            RuntimeError::UndefinedVariable(name, line) => RunErrV::UndefinedVariable(
                name@,
                *line as nat,
            ),
        }
    }
}

impl RuntimeError {
    /// A generic runtime fault carrying the given message.
    pub fn new(message: &str) -> (r: Self)
        ensures
            r@ == RunErrV::Generic(message@),
    {
        RuntimeError::Generic(message.to_owned())
    }
}

/// The user-visible text of a lexical or syntactic fault.
pub open spec fn render_syn(e: SynErrV) -> Seq<char> {
    match e {
        SynErrV::UnexpectedCharacter(c, pos) => "Unexpected character '"@ + seq![c]
            + "' at position "@ + dec_digits(pos),
        SynErrV::UnterminatedStringLiteral(pos) => "Unterminated string literal at position "@
            + dec_digits(pos),
        SynErrV::UnexpectedToken(t) => "Unexpected token at position "@ + dec_digits(t.start),
        SynErrV::UnexpectedIdentifier(name, pos) => "Unexpected identifier '"@ + name
            + "' at position "@ + dec_digits(pos),
        SynErrV::InvalidVariableName(name, pos) => "Invalid variable name '"@ + name
            + "' at position "@ + dec_digits(pos),
        SynErrV::NumberLiteralOverflow(pos) => "Number literal too large at position "@
            + dec_digits(pos),
    }
}

/// The user-visible text of a runtime fault.
pub open spec fn render_run(e: RunErrV) -> Seq<char> {
    match e {
        RunErrV::Generic(message) => message,
        RunErrV::NotImplemented(name) => "Not implemented: "@ + name,
        RunErrV::InvalidOperation(line) => "Invalid operation at line "@ + dec_digits(line),
        RunErrV::Syntax(inner) => "Syntax error: "@ + render_syn(inner),
        RunErrV::InvalidState(name) => "Invalid state: "@ + name,
        RunErrV::IllegalLineNumber(text) => "Illegal line number in GOTO or GOSUB statement: "@
            + text,
        RunErrV::UndefinedVariable(name, line) => "Undefined variable at line "@ + dec_digits(
            line,
        ) + ": "@ + name,
    }
}

impl SyntaxError {
    /// The user-visible text of this fault.
    pub fn render(&self) -> (r: String)
        ensures
            r@ == render_syn(self@),
    {
        match self {
            SyntaxError::UnexpectedCharacter(c, pos) => {
                let mut out = String::from_str("Unexpected character '");
                out.append(char_to_string(*c).as_str());
                out.append("' at position ");
                out.append(usize_to_string(*pos).as_str());
                out
            },
            SyntaxError::UnterminatedStringLiteral(pos) => {
                let mut out = String::from_str("Unterminated string literal at position ");
                out.append(usize_to_string(*pos).as_str());
                out
            },
            SyntaxError::UnexpectedToken(token) => {
                let mut out = String::from_str("Unexpected token at position ");
                out.append(usize_to_string(token.span.start).as_str());
                out
            },
            SyntaxError::UnexpectedIdentifier(name, pos) => {
                let mut out = String::from_str("Unexpected identifier '");
                out.append(name.as_str());
                out.append("' at position ");
                out.append(usize_to_string(*pos).as_str());
                out
            },
            SyntaxError::InvalidVariableName(name, pos) => {
                let mut out = String::from_str("Invalid variable name '");
                out.append(name.as_str());
                out.append("' at position ");
                out.append(usize_to_string(*pos).as_str());
                out
            },
            SyntaxError::NumberLiteralOverflow(pos) => {
                let mut out = String::from_str("Number literal too large at position ");
                out.append(usize_to_string(*pos).as_str());
                out
            },
        }
    }
}

impl RuntimeError {
    /// The user-visible text of this fault.
    pub fn render(&self) -> (r: String)
        ensures
            r@ == render_run(self@),
    {
        match self {
            RuntimeError::Generic(message) => message.clone(),
            RuntimeError::NotImplemented(name) => {
                let mut out = String::from_str("Not implemented: ");
                out.append(name.as_str());
                out
            },
            RuntimeError::InvalidOperation(line) => {
                let mut out = String::from_str("Invalid operation at line ");
                out.append(usize_to_string(*line).as_str());
                out
            },
            RuntimeError::SyntaxError(inner) => {
                let mut out = String::from_str("Syntax error: ");
                out.append(inner.render().as_str());
                out
            },
            RuntimeError::InvalidState(name) => {
                let mut out = String::from_str("Invalid state: ");
                out.append(name.as_str());
                out
            },
            RuntimeError::IllegalLineNumber(text) => {
                let mut out = String::from_str("Illegal line number in GOTO or GOSUB statement: ");
                out.append(text.as_str());
                out
            },
            RuntimeError::UndefinedVariable(name, line) => {
                let mut out = String::from_str("Undefined variable at line ");
                out.append(usize_to_string(*line).as_str());
                out.append(": ");
                out.append(name.as_str());
                out
            },
        }
    }

    /// A structural copy; the result has the same view as the original.
    pub fn duplicate(&self) -> (r: RuntimeError)
        ensures
            r@ == self@,
    {
        match self {
            RuntimeError::Generic(message) => RuntimeError::Generic(message.clone()),
            RuntimeError::NotImplemented(name) => RuntimeError::NotImplemented(name.clone()),
            RuntimeError::InvalidOperation(line) => RuntimeError::InvalidOperation(*line),
            RuntimeError::SyntaxError(inner) => RuntimeError::SyntaxError(inner.duplicate()),
            RuntimeError::InvalidState(name) => RuntimeError::InvalidState(name.clone()),
            RuntimeError::IllegalLineNumber(text) => RuntimeError::IllegalLineNumber(text.clone()),
            RuntimeError::UndefinedVariable(name, line) => RuntimeError::UndefinedVariable(
                name.clone(),
                *line,
            ),
        }
    }
}

} // verus!
