use vstd::prelude::*;

verus! {

/// The single terminal error value describing why a conversion failed.
///
/// Input errors cover malformed bytes, records that are not object-shaped
/// and empty streams at schema-discovery time; output errors cover a sink
/// that cannot render a value; the custom variant carries everything else,
/// including per-record coercion failures.
#[derive(Debug)]
pub enum Error {
    CustomError(String),
    InputError(String),
    OutputError(String),
}

impl Error {
    /// Wrap a message as an input error.
    pub fn input(msg: String) -> (e: Error)
        ensures
            e == Error::InputError(msg),
    {
        Error::InputError(msg)
    }

    /// Wrap a message as an output error.
    pub fn output(msg: String) -> (e: Error)
        ensures
            e == Error::OutputError(msg),
    {
        Error::OutputError(msg)
    }

    /// The message carried by the error, whichever variant holds it.
    pub fn message(&self) -> (m: &String)
        ensures
            *self matches Error::CustomError(s) ==> m == s,
            *self matches Error::InputError(s) ==> m == s,
            *self matches Error::OutputError(s) ==> m == s,
    {
        match self {
            Error::CustomError(s) => s,
            Error::InputError(s) => s,
            Error::OutputError(s) => s,
        }
    }
}

} // verus!
