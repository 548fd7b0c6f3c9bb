use vstd::prelude::*;

verus! {

/// What can go wrong while selecting identifiers.
#[derive(Debug)]
pub enum Error {
    /// A token that is no number, no known name and no keyword.
    InvalidToken(String),
    Custom(String),
}

impl Error {
    pub fn custom(msg: &str) -> (r: Error)
        ensures
            r is Custom,
            r->Custom_0@ == msg@,
    {
        Error::Custom(msg.to_owned())
    }

    /// The text that reports this error.
    pub fn message(&self) -> (r: String)
        ensures
            match self {
                Error::InvalidToken(t) => r@ == "Invalid or unknown item: "@ + t@,
                Error::Custom(m) => r@ == m@,
            },
    {
        match self {
            Error::InvalidToken(t) => "Invalid or unknown item: ".to_owned().concat(t.as_str()),
            Error::Custom(m) => m.clone(),
        }
    }
}

} // verus!
