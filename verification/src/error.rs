use vstd::prelude::*;

verus! {

/// `std::io::Error`, carried through opaquely in `SegyError::Io`.
#[verifier::external_type_specification]
#[verifier::external_body]
pub struct ExIoError(std::io::Error);

/// Errors raised while reading station data or producing SEG-Y output.
#[derive(Debug)]
pub enum SegyError {
    /// An operating-system level input/output failure.
    Io(std::io::Error),
    /// A text record could not be parsed; the message says where and why.
    Parse(String),
    /// The input does not have the shape the converter needs.
    InvalidFormat(String),
    /// Two pieces of data that must agree do not.
    DataMismatch(String),
    /// The work was stopped on request.
    Cancelled,
}

impl From<std::io::Error> for SegyError {
    /// An input/output failure is an `Io` error.
    fn from(e: std::io::Error) -> (r: SegyError) {
        SegyError::Io(e)
    }
}

impl vstd::std_specs::convert::FromSpecImpl<std::io::Error> for SegyError {
    open spec fn obeys_from_spec() -> bool {
        true
    }

    open spec fn from_spec(v: std::io::Error) -> SegyError {
        SegyError::Io(v)
    }
}

} // verus!
