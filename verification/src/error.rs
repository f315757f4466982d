//! The error that commands and requests end with.
use vstd::prelude::*;
use vstd::string::*;

verus! {

/// The result of everything that can fail with a message to the user.
pub type StayResult<T> = Result<T, StayError>;

/// What an error message can be made from.
pub trait Message: Sized {
    /// The text of the message.
    spec fn text(&self) -> Seq<char>;

    /// The message as an owned string.
    fn into_text(self) -> (text: String)
        ensures
            text@ == self.text(),
    ;
}

impl Message for String {
    open spec fn text(&self) -> Seq<char> {
        self@
    }

    fn into_text(self) -> (text: String) {
        self
    }
}

impl Message for &str {
    open spec fn text(&self) -> Seq<char> {
        self@
    }

    fn into_text(self) -> (text: String) {
        self.to_owned()
    }
}

/// An error that is nothing but a message for the user.
#[derive(Debug)]
pub struct StayError {
    message: String,
}

impl View for StayError {
    type V = Seq<char>;

    closed spec fn view(&self) -> Seq<char> {
        self.message@
    }
}

impl StayError {
    /// An error with the given message.
    pub fn new(message: impl Message) -> (error: Self)
        ensures
            error@ == message.text(),
    {
        StayError { message: message.into_text() }
    }

    /// The message.
    pub fn message(&self) -> (text: &str)
        ensures
            text@ == self@,
    {
        self.message.as_str()
    }

    /// The message, without the error around it.
    pub fn into_message(self) -> (text: String)
        ensures
            text@ == self@,
    {
        self.message
    }
}

} // verus!
