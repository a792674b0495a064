//! The error the `From` generator reports.
use crate::tokens::SpanRef;
use vstd::prelude::*;

verus! {

pub struct FromVariantsInternalError {
    message: String,
    span: SpanRef,
}

impl View for FromVariantsInternalError {
    type V = (Seq<char>, SpanRef);

    closed spec fn view(&self) -> (Seq<char>, SpanRef) {
        (self.message@, self.span)
    }
}

impl FromVariantsInternalError {
    pub fn new(message: String, span: SpanRef) -> (r: Self)
        ensures
            r@ == (message@, span),
    {
        Self { message, span }
    }

    /// What the error says.
    pub fn message(&self) -> (r: &String)
        ensures
            r@ == self@.0,
    {
        &self.message
    }

    /// Where the error is.
    pub fn span(&self) -> (r: SpanRef)
        ensures
            r == self@.1,
    {
        self.span
    }
}

} // verus!
