//! The error type shared by the builder, the resolver and the interpreter.

use vstd::prelude::*;
use vstd::string::StringExecFns;

verus! {

/// What can go wrong while a description is built or a machine is run.
#[derive(Debug, Clone, PartialEq, Eq)]
pub enum TMDescError {
    /// The description is ill-formed: a symbol that is not one character, a
    /// repeated symbol or state name, a row of the wrong length, or a cell
    /// that is not a transition.
    MalformedDescription,
    /// A transition names a state that the table does not declare.
    UnknownStateReference(String),
    /// The cell under the head holds a character outside the alphabet.
    UnknownSymbol(char),
    /// The named state has no transition for the symbol under the head.
    UndefinedTransition(String, char),
}

/// The mathematical value of an error: state names as character sequences.
pub enum ErrorView {
    MalformedDescription,
    UnknownStateReference(Seq<char>),
    UnknownSymbol(char),
    UndefinedTransition(Seq<char>, char),
}

impl View for TMDescError {
    type V = ErrorView;

    open spec fn view(&self) -> ErrorView {
        match *self {
            TMDescError::MalformedDescription => ErrorView::MalformedDescription,
            TMDescError::UnknownStateReference(name) => ErrorView::UnknownStateReference(name@),
            TMDescError::UnknownSymbol(c) => ErrorView::UnknownSymbol(c),
            TMDescError::UndefinedTransition(name, c) => ErrorView::UndefinedTransition(name@, c),
        }
    }
}

/// The text that reports an error to a person.
pub open spec fn message_of(e: ErrorView) -> Seq<char> {
    match e {
        ErrorView::MalformedDescription => "malformed machine description"@,
        ErrorView::UnknownStateReference(name) => "state '"@ + name + "' not found"@,
        ErrorView::UnknownSymbol(c) => "input character '"@ + seq![c] + "' was not found"@,
        ErrorView::UndefinedTransition(name, c) => "no transition for "@ + name + " on '"@
            + seq![c] + "'"@,
    }
}

impl TMDescError {
    /// The text that reports this error to a person: which error it is and,
    /// where it has them, the state name and the offending symbol.
    pub fn message(&self) -> (s: String)
        ensures
            s@ == message_of(self@),
    {
        match self {
            TMDescError::MalformedDescription => String::from_str("malformed machine description"),
            TMDescError::UnknownStateReference(name) => {
                let mut s = String::from_str("state '");
                s.append(name.as_str());
                s.append("' not found");
                s
            },
            TMDescError::UnknownSymbol(c) => {
                let mut s = String::from_str("input character '");
                s.push(*c);
                assert("input character '"@.push(*c) =~= "input character '"@ + seq![*c]);
                s.append("' was not found");
                s
            },
            TMDescError::UndefinedTransition(name, c) => {
                let mut s = String::from_str("no transition for ");
                s.append(name.as_str());
                s.append(" on '");
                let ghost before = s@;
                s.push(*c);
                assert(before.push(*c) =~= before + seq![*c]);
                s.append("'");
                s
            },
        }
    }
}

} // verus!
