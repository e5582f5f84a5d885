//! User-facing message text for the front end.
//!
//! The interactive and command-line layers reject a run before the pipeline
//! starts when a required path is missing; these enums carry the text they
//! show for each such condition and for a successful run.

use vstd::prelude::*;

verus! {

/// A required front-end field that was left empty.
pub enum ErrorMsgBox {
    EmptyInputField,
    EmptyOutputField,
    EmptyListField,
}

impl ErrorMsgBox {
    /// The message shown for this error.
    pub fn value(&self) -> (s: &str)
        ensures
            self is EmptyInputField ==> s@ == "The input field can not be empty."@,
            self is EmptyOutputField ==> s@ == "The output field can not be empty."@,
            self is EmptyListField ==> s@ == "The list field can not be empty."@,
    {
        match self {
            ErrorMsgBox::EmptyInputField => "The input field can not be empty.",
            ErrorMsgBox::EmptyOutputField => "The output field can not be empty.",
            ErrorMsgBox::EmptyListField => "The list field can not be empty.",
        }
    }
}

/// The state reported after a run that finished.
pub enum StateMsgBox {
    Success,
}

impl StateMsgBox {
    /// The message shown for this state.
    pub fn value(&self) -> (s: &str)
        ensures
            s@ == "Success!"@,
    {
        match self {
            StateMsgBox::Success => "Success!",
        }
    }
}

} // verus!
