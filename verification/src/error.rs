use vstd::prelude::*;
use vstd::string::StringExecFns;

verus! {

/// A failure whose underlying cause has been erased: only the cause's message
/// is kept.
#[derive(Debug)]
pub struct BoxError {
    pub message: String,
}

impl View for BoxError {
    type V = Seq<char>;

    /// The message of the cause.
    open spec fn view(&self) -> Seq<char> {
        self.message@
    }
}

impl BoxError {
    /// A failure with the given message.
    pub fn new(message: &str) -> (err: Self)
        ensures
            err@ == message@,
    {
        BoxError { message: String::from_str(message) }
    }

    /// The message of the cause, as text.
    pub fn to_text(&self) -> (text: String)
        ensures
            text@ == self@,
    {
        self.message.clone()
    }
}

impl Clone for BoxError {
    fn clone(&self) -> (copy: Self)
        ensures
            copy == *self,
    {
        BoxError { message: self.message.clone() }
    }
}

} // verus!
