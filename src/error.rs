//! Failures of the encoding and decoding rules.
use vstd::prelude::*;

verus! {

/// Why an encode or decode operation failed.
#[derive(Debug, PartialEq, Eq)]
pub enum Error {
    /// The input holds fewer bytes than the rule has to read.
    UnexpectedEof,
    /// The bytes were there, but the 32-bit number they hold is no Unicode scalar value.
    InvalidCodePoint(u32),
    /// A union decoded under a strict mapping met a discriminant that names none of its
    /// variants: the bytes of that discriminant, and the union's name.
    UnknownDiscriminant { discriminant: Vec<u8>, union_name: String },
    /// A failure reported by a caller-supplied rule.
    Custom(String),
}

impl Error {
    /// A line of text that says what went wrong.
    pub fn message(&self) -> (r: String)
        ensures
            self is UnexpectedEof ==> r@ == "unexpected end of input"@,
            self is InvalidCodePoint ==> r@ == "invalid Unicode code point"@,
            self is UnknownDiscriminant ==> r@ == "unknown discriminant"@,
            self is Custom ==> r@ == self->Custom_0@,
    {
        match self {
            Error::UnexpectedEof => "unexpected end of input".to_string(),
            Error::InvalidCodePoint(_) => "invalid Unicode code point".to_string(),
            Error::UnknownDiscriminant { .. } => "unknown discriminant".to_string(),
            Error::Custom(s) => s.clone(),
        }
    }
}

} // verus!
