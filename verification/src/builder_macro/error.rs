//! The error the builder generator reports.
use crate::tokens::SpanRef;
use vstd::prelude::*;

verus! {

pub struct BuilderInternalError {
    message: String,
    span: SpanRef,
}

impl View for BuilderInternalError {
    type V = (Seq<char>, SpanRef);

    closed spec fn view(&self) -> (Seq<char>, SpanRef) {
        (self.message@, self.span)
    }
}

impl BuilderInternalError {
    pub fn new(message: String, span: SpanRef) -> (r: Self)
        ensures
            r@ == (message@, span),
    {
        Self { message, span }
    }

    /// An error reporting another error, by the text that error displays.
    pub fn from_foreign_error(error_text: String, span: SpanRef) -> (r: Self)
        ensures
            r@ == (error_text@, span),
    {
        Self::new(error_text, span)
    }

    /// What the error says.
    pub fn message(&self) -> (r: &String)
        ensures
            r@ == self@.0,
    {
        &self.message
    }

    /// Where the error is.
    pub fn span(&self) -> (r: SpanRef)
        ensures
            r == self@.1,
    {
        self.span
    }
}

} // verus!
