//! The error a generated builder's `build` reports.
use vstd::prelude::*;
use vstd::string::StringExecFns;

verus! {

#[derive(Clone)]
pub enum BuilderError {
    MissingField { field_name: String },
}

impl BuilderError {
    pub fn missing_field<S: Into<String>>(field_name: S) -> (r: Self)
        ensures
            call_ensures(S::into, (field_name,), r->field_name),
    {
        let field_name = field_name.into();
        Self::MissingField { field_name }
    }

    /// The text of the error: "Missing field `name`".
    pub fn message(&self) -> (r: String)
        ensures
            r@ == "Missing field `"@ + self->field_name@ + "`"@,
    {
        match self {
            Self::MissingField { field_name } => {
                let text = String::from_str("Missing field `");
                let text = text.concat(field_name.as_str());
                text.concat("`")
            },
        }
    }
}

pub type BuilderResult<T = ()> = Result<T, BuilderError>;

} // verus!
