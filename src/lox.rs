use vstd::prelude::*;

use crate::error::{Error, ErrorModel};
use crate::scanner::{copy_errors, error_models, scan, token_models, Scanner};
use crate::token::Token;

verus! {

/// The session state of the interpreter front end: whether the last source
/// run had lexical errors, and which.
pub struct Lox {
    has_error: bool,
    errors: Vec<Error>,
}

impl Lox {
    pub closed spec fn spec_has_error(&self) -> bool {
        self.has_error
    }

    pub closed spec fn errors_model(&self) -> Seq<ErrorModel> {
        error_models(self.errors@)
    }

    pub fn new() -> (r: Lox)
        ensures
            !r.spec_has_error(),
            r.errors_model().len() == 0,
    {
        let r = Lox { has_error: false, errors: Vec::new() };
        assert(r.errors_model() =~= Seq::empty());
        r
    }

    /// Scans `source` and returns its tokens. `has_error` is set when the source had
    /// lexical errors and stays set until cleared; `errors` lists this source's errors.
    pub fn run(&mut self, source: String) -> (r: Vec<Token>)
        requires
            source@.len() < usize::MAX,
        ensures
            token_models(r@) == scan(source@).tokens,
            final(self).errors_model() == scan(source@).errors,
            final(self).spec_has_error() == (old(self).spec_has_error() || scan(source@).errors.len()
                > 0),
    {
        let mut scanner = Scanner::new(source);
        let tokens = scanner.scan_tokens();
        self.errors = scanner.errors();
        self.has_error = self.has_error || self.errors.len() > 0;
        proof {
            assert(self.errors@.len() == self.errors_model().len());
        }
        tokens
    }

    /// Forgets that an earlier source had errors, as the prompt does after each line.
    pub fn clear_error(&mut self)
        ensures
            !final(self).spec_has_error(),
            final(self).errors_model() == old(self).errors_model(),
    {
        self.has_error = false;
    }

    pub fn has_error(&self) -> (r: bool)
        ensures
            r == self.spec_has_error(),
    {
        self.has_error
    }

    /// The lexical errors of the last source run, in source order.
    pub fn errors(&self) -> (r: Vec<Error>)
        ensures
            error_models(r@) == self.errors_model(),
    {
        copy_errors(&self.errors)
    }
}

} // verus!
