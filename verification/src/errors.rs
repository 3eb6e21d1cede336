//! The error taxonomy shared by every component: lookups that miss report
//! `NotFound`, referential-guard and uniqueness violations report
//! `Conflict`, CSRF or input rejections report `ValidationFailed`, a
//! credential check that fails reports `AuthFailed` — kept apart from
//! `ValidationFailed` so the presentation layer can render the two
//! differently — and transport-level failures report `Unavailable`.

use vstd::prelude::*;

verus! {

#[derive(Debug, Clone, Copy, PartialEq, Eq, Structural)]
pub enum AppError {
    NotFound,
    Conflict,
    ValidationFailed,
    AuthFailed,
    Unavailable,
}

impl AppError {
    /// A short human-readable label for the error, for presentation layers
    /// that render a message rather than a status code.
    pub fn message(&self) -> (r: &'static str)
        ensures
            self is NotFound ==> r@ == "not found"@,
            self is Conflict ==> r@ == "conflict"@,
            self is ValidationFailed ==> r@ == "validation failed"@,
            self is AuthFailed ==> r@ == "authentication failed"@,
            self is Unavailable ==> r@ == "unavailable"@,
    {
        match self {
            AppError::NotFound => "not found",
            AppError::Conflict => "conflict",
            AppError::ValidationFailed => "validation failed",
            AppError::AuthFailed => "authentication failed",
            AppError::Unavailable => "unavailable",
        }
    }
}

} // verus!
