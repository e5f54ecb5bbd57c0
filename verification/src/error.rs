//! Error definitions for the library.

use vstd::prelude::*;
use vstd::string::StringExecFns;

verus! {

/// An error raised while a raw frame is developed into an image.
#[derive(Debug, Clone, PartialEq, Eq)]
pub struct RawPipelineError(pub String);

impl RawPipelineError {
    /// The text carried by the error.
    pub fn message(&self) -> (text: String)
        ensures
            text@ == self.0@,
    {
        self.0.clone()
    }
}

impl From<String> for RawPipelineError {
    fn from(value: String) -> (error: Self) {
        RawPipelineError(value)
    }
}

impl vstd::std_specs::convert::FromSpecImpl<String> for RawPipelineError {
    open spec fn obeys_from_spec() -> bool {
        true
    }

    open spec fn from_spec(value: String) -> Self {
        RawPipelineError(value)
    }
}

/// An error that fits none of the other categories.
#[derive(Debug, Clone, PartialEq, Eq)]
pub struct UnknownError(pub String);

impl UnknownError {
    /// The text carried by the error.
    pub fn message(&self) -> (text: String)
        ensures
            text@ == self.0@,
    {
        self.0.clone()
    }
}

impl From<String> for UnknownError {
    fn from(value: String) -> (error: Self) {
        UnknownError(value)
    }
}

impl vstd::std_specs::convert::FromSpecImpl<String> for UnknownError {
    open spec fn obeys_from_spec() -> bool {
        true
    }

    open spec fn from_spec(value: String) -> Self {
        UnknownError(value)
    }
}

/// Error that can be returned by any of the functions of the library.
///
/// The variants that report a failed decode, read or image conversion carry
/// the text of the failure; the library itself raises the others.
#[derive(Debug, Clone, PartialEq, Eq)]
pub enum Error {
    /// A raw image could not be decoded.
    DecodeError(String),
    /// A raw image could not be developed.
    RawPipeline(RawPipelineError),
    /// An image file could not be read or written.
    IoError(String),
    /// An image could not be converted or processed.
    ImageError(String),
    /// A value handed to the library is not acceptable.
    InputError {
        /// Name of the offending parameter.
        parameter_name: String,
        /// Why the value is refused.
        message: String,
    },
    /// None of the other categories.
    UnknownError(UnknownError),
    /// The cutoff search ran out of cutoffs before enough stars were detected.
    ConvergenceFailure,
    /// Too few points were supplied to describe any of them by its neighbours.
    DegenerateInput,
    /// The pixel layout is not one the library works on.
    UnsupportedFormat,
}

/// A string as a quoted string literal: between double quotes, with the
/// characters that a literal cannot hold written as escapes.
pub uninterp spec fn quoted(text: Seq<char>) -> Seq<char>;

/// Renders a string with `format!` as `Debug` writes strings. The result is
/// the one named by [`quoted`].
#[verifier::external_body]
fn quote(text: &String) -> (literal: String)
    ensures
        literal@ == quoted(text@),
{
    format!("{:?}", text)
}

/// The text of an input error about the parameter `parameter_name`.
pub open spec fn input_error_text(parameter_name: Seq<char>, message: Seq<char>) -> Seq<char> {
    "Invalid value for "@ + quoted(parameter_name) + ": "@ + quoted(message)
}

impl Error {
    /// What the error says: a fixed sentence for each kind of error, the
    /// carried text for an unknown error, and for an input error the
    /// parameter and the message, each quoted: [`input_error_text`].
    pub open spec fn text(self) -> Seq<char> {
        match self {
            Error::DecodeError(_) => "Unable to decode raw image"@,
            Error::RawPipeline(_) => "Unable to decode raw image"@,
            Error::IoError(_) => "Unable to read file"@,
            Error::ImageError(_) => "Unable to process image"@,
            Error::InputError { parameter_name, message } => input_error_text(parameter_name@, message@),
            Error::UnknownError(inner) => inner.0@,
            Error::ConvergenceFailure => "No cutoff gave enough stars"@,
            Error::DegenerateInput => "Too few stars to describe them by their neighbours"@,
            Error::UnsupportedFormat => "Unsupported pixel format"@,
        }
    }

    /// What the error says, as a string.
    pub fn message(&self) -> (text: String)
        ensures
            text@ == self.text(),
    {
        match self {
            Error::DecodeError(_) => "Unable to decode raw image".to_owned(),
            Error::RawPipeline(_) => "Unable to decode raw image".to_owned(),
            Error::IoError(_) => "Unable to read file".to_owned(),
            Error::ImageError(_) => "Unable to process image".to_owned(),
            Error::InputError { parameter_name, message } => {
                let name = quote(parameter_name);
                let reason = quote(message);
                "Invalid value for ".to_owned().concat(name.as_str()).concat(": ").concat(reason.as_str())
            },
            Error::UnknownError(inner) => inner.message(),
            Error::ConvergenceFailure => "No cutoff gave enough stars".to_owned(),
            Error::DegenerateInput => "Too few stars to describe them by their neighbours".to_owned(),
            Error::UnsupportedFormat => "Unsupported pixel format".to_owned(),
        }
    }

    /// An [`Error::InputError`] about the parameter `parameter_name`.
    pub fn input(parameter_name: &str, message: &str) -> (error: Error)
        ensures
            error matches Error::InputError { parameter_name: name, message: text }
                && name@ == parameter_name@ && text@ == message@,
    {
        Error::InputError { parameter_name: parameter_name.to_owned(), message: message.to_owned() }
    }

    /// True for an [`Error::InputError`] about the parameter called `name`.
    pub open spec fn is_input_error(self, name: Seq<char>) -> bool {
        self matches Error::InputError { parameter_name, .. } && parameter_name@ == name
    }
}

} // verus!
