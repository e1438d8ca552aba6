//! The error of a query that cannot be carried out.
use vstd::prelude::*;

verus! {

/// An error, told by its message.
#[derive(Debug, PartialEq, Eq)]
pub struct Error {
    message: String,
}

impl View for Error {
    type V = Seq<char>;

    closed spec fn view(&self) -> Seq<char> {
        self.message@
    }
}

impl Error {
    pub fn new(message: &str) -> (r: Error)
        ensures
            r@ == message@,
    {
        Error { message: message.to_owned() }
    }

    pub fn from_text(message: String) -> (r: Error)
        ensures
            r@ == message@,
    {
        Error { message }
    }

    /// The message.
    pub fn to_text(&self) -> (r: String)
        ensures
            r@ == self@,
    {
        self.message.clone()
    }
}

impl Clone for Error {
    fn clone(&self) -> (r: Error)
        ensures
            r@ == self@,
    {
        Error { message: self.message.clone() }
    }
}

/// What a result holds: a value, or the message of an error.
pub open spec fn outcome<T: View>(r: Result<T, Error>) -> Result<T::V, Seq<char>> {
    match r {
        Ok(x) => Ok(x@),
        Err(e) => Err(e@),
    }
}

/// Joins two texts.
pub fn join2(a: &str, b: &str) -> (r: String)
    ensures
        r@ == a@ + b@,
{
    let mut r = a.to_owned();
    r.append(b);
    r
}

/// Joins three texts.
pub fn join3(a: &str, b: &str, c: &str) -> (r: String)
    ensures
        r@ == a@ + b@ + c@,
{
    let mut r = a.to_owned();
    r.append(b);
    r.append(c);
    r
}

/// An error whose message is made of two texts.
pub fn fail2(a: &str, b: &str) -> (r: Error)
    ensures
        r@ == a@ + b@,
{
    Error::from_text(join2(a, b))
}

/// An error whose message is made of three texts.
pub fn fail3(a: &str, b: &str, c: &str) -> (r: Error)
    ensures
        r@ == a@ + b@ + c@,
{
    Error::from_text(join3(a, b, c))
}

} // verus!
