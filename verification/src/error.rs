use vstd::prelude::*;
use vstd::string::StringExecFns;

use crate::source_file::{Located, Location};
use crate::token::TokenKind;

verus! {

/// How bad a diagnostic is: errors make the parse fail, warnings never do.
#[derive(Clone, Copy, PartialEq, Eq, Structural, Debug)]
pub enum Severity {
    Error,
    Warning,
}

impl Severity {
    /// The label a renderer prints in front of the message.
    pub fn label(&self) -> (r: &'static str)
        ensures
            *self == Severity::Error ==> r@ == "error:"@,
            *self == Severity::Warning ==> r@ == "warning:"@,
    {
        match self {
            Severity::Error => "error:",
            Severity::Warning => "warning:",
        }
    }
}

/// Everything that can go wrong while parsing statements.
#[derive(Clone, Debug)]
pub enum ParseError {
    /// A control-flow keyword stands outside the construct it needs: the
    /// keyword, then the required enclosing construct.
    InvalidStmt(String, String),
    /// Something was defined a second time: the location of the first
    /// definition, then what was redefined.
    Redefinition(Location, String),
    /// The current token is not among the expected kinds.
    UnexpectedToken(TokenKind),
    /// An expression statement computes a value and nothing else.
    ExprWithoutSideEffect,
}

/// The outcome of one parsing step: a node, or a diagnostic anchored to the
/// offending token.
pub type ParseResult<T> = Result<T, Located<ParseError>>;

/// A renderable diagnostic: severity, primary message, optional hint, and an
/// ordered list of secondary diagnostics, each itself fully located.
pub struct CompilerError {
    pub severity: Severity,
    pub message: String,
    pub hint: Option<String>,
    pub additional: Vec<Located<CompilerError>>,
}

impl ParseError {
    pub open spec fn spec_severity(&self) -> Severity {
        match self {
            ParseError::ExprWithoutSideEffect => Severity::Warning,
            _ => Severity::Error,
        }
    }

    /// The message text of the diagnostic this error turns into.
    pub open spec fn spec_message(&self) -> Seq<char> {
        match self {
            ParseError::InvalidStmt(stmt, construct) => stmt@ + " used outside of a "@
                + construct@,
            ParseError::Redefinition(_, what) => "redefinition of "@ + what@,
            ParseError::UnexpectedToken(_) => "unexpected token"@,
            ParseError::ExprWithoutSideEffect => "expression statement without side effect"@,
        }
    }

    pub fn severity(&self) -> (r: Severity)
        ensures
            r == self.spec_severity(),
    {
        match self {
            ParseError::ExprWithoutSideEffect => Severity::Warning,
            _ => Severity::Error,
        }
    }

    /// Builds the structured diagnostic for this error.  A redefinition
    /// carries one secondary note pointing at the first definition; the
    /// side-effect warning carries a hint; nothing else has either.
    pub fn to_compiler_error(self) -> (r: CompilerError)
        ensures
            r.severity == self.spec_severity(),
            r.message@ == self.spec_message(),
            match self {
                ParseError::Redefinition(prev, _) => {
                    &&& r.additional@.len() == 1
                    &&& r.additional@[0].spec_location() == prev
                    &&& r.additional@[0].spec_inner().severity == Severity::Error
                    &&& r.additional@[0].spec_inner().message@ == "first defined here"@
                    &&& r.additional@[0].spec_inner().hint is None
                    &&& r.additional@[0].spec_inner().additional@.len() == 0
                    &&& r.hint is None
                },
                ParseError::ExprWithoutSideEffect => {
                    &&& r.additional@.len() == 0
                    &&& r.hint matches Some(h) && h@
                        == "this expression computes a value that is never used"@
                },
                _ => r.additional@.len() == 0 && r.hint is None,
            },
    {
        match self {
            ParseError::InvalidStmt(stmt, construct) => {
                let mut message = stmt;
                message.append(" used outside of a ");
                message.append(construct.as_str());
                CompilerError {
                    severity: Severity::Error,
                    message,
                    hint: None,
                    additional: Vec::new(),
                }
            },
            ParseError::Redefinition(prev, what) => {
                let mut message = String::new();
                message.append("redefinition of ");
                message.append(what.as_str());
                let note = CompilerError {
                    severity: Severity::Error,
                    message: String::from_str("first defined here"),
                    hint: None,
                    additional: Vec::new(),
                };
                let mut additional: Vec<Located<CompilerError>> = Vec::new();
                additional.push(Located::with_location(note, prev));
                CompilerError { severity: Severity::Error, message, hint: None, additional }
            },
            ParseError::UnexpectedToken(_) => {
                let mut message = String::new();
                message.append("unexpected token");
                CompilerError {
                    severity: Severity::Error,
                    message,
                    hint: None,
                    additional: Vec::new(),
                }
            },
            ParseError::ExprWithoutSideEffect => {
                let mut message = String::new();
                message.append("expression statement without side effect");
                CompilerError {
                    severity: Severity::Warning,
                    message,
                    hint: Some(
                        String::from_str("this expression computes a value that is never used"),
                    ),
                    additional: Vec::new(),
                }
            },
        }
    }
}

/// Conversion into the renderable diagnostic form.
pub trait IntoCompilerError: Sized {
    fn into_compiler_error(self) -> CompilerError;
}

impl IntoCompilerError for ParseError {
    fn into_compiler_error(self) -> CompilerError {
        self.to_compiler_error()
    }
}

} // verus!
