//! An error that is nothing but its message.

use vstd::prelude::*;
use vstd::string::to_string_from_display_ensures;

verus! {

/// An error that holds the message to show, and nothing else.
#[derive(Debug)]
pub struct Error {
    msg: String,
}

impl View for Error {
    type V = Seq<char>;

    /// The message.
    closed spec fn view(&self) -> Seq<char> {
        self.msg@
    }
}

impl Error {
    /// An error whose message is `msg` as it displays itself.
    pub fn new<T: std::fmt::Display>(msg: T) -> (r: Error)
        ensures
            exists|shown: String| #[trigger] to_string_from_display_ensures::<T>(&msg, shown) && r@ == shown@,
    {
        let shown = msg.to_string();
        Error { msg: shown }
    }

    /// An error whose message is `msg`.
    pub fn from_message(msg: &str) -> (r: Error)
        ensures
            r@ == msg@,
    {
        Error { msg: msg.to_owned() }
    }

    /// The message.
    pub fn description(&self) -> (r: &str)
        ensures
            r@ == self@,
    {
        self.msg.as_str()
    }
}

} // verus!
