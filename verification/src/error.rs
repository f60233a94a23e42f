//! The error that the parts of the library without an error type of their
//! own report: a message.

use vstd::prelude::*;

verus! {

/// An error that is its message.
#[derive(Debug)]
pub struct AppError {
    message: String,
}

impl View for AppError {
    type V = Seq<char>;

    /// The message.
    closed spec fn view(&self) -> Seq<char> {
        self.message@
    }
}

impl AppError {
    /// An error with the message `str`, boxed.
    pub fn boxed(str: &'static str) -> (error: Box<AppError>)
        ensures
            error@ == str@,
    {
        Box::new(AppError { message: str.to_owned() })
    }

    /// The message.
    pub fn message(&self) -> (text: &str)
        ensures
            text@ == self@,
    {
        self.message.as_str()
    }
}

} // verus!
