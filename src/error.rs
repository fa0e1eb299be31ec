use vstd::prelude::*;

verus! {

/// Mathematical model of an error.
pub struct ErrorModel {
    pub line: nat,
    pub message: Seq<char>,
}

/// A lexical or syntax error: the 1-based source line and a message.
#[derive(Debug)]
pub struct Error {
    line: usize,
    message: String,
}

impl Error {
    pub closed spec fn spec_line(&self) -> nat {
        self.line as nat
    }

    pub closed spec fn spec_message(&self) -> Seq<char> {
        self.message@
    }

    pub open spec fn model(&self) -> ErrorModel {
        ErrorModel { line: self.spec_line(), message: self.spec_message() }
    }

    pub fn new(line: usize, message: String) -> (r: Error)
        ensures
            r.spec_line() == line,
            r.spec_message() == message@,
    {
        Error { line, message }
    }

    pub fn line(&self) -> (r: usize)
        ensures
            r == self.spec_line(),
    {
        self.line
    }

    pub fn message(&self) -> (r: String)
        ensures
            r@ == self.spec_message(),
    {
        self.message.clone()
    }

    /// A field-by-field copy with the same model.
    pub fn copied(&self) -> (r: Error)
        ensures
            r.model() == self.model(),
    {
        Error { line: self.line, message: self.message.clone() }
    }
}

} // verus!
