//! Typed failures raised while a value crosses the boundary.
//!
//! Conversion failures abort the current crossing and surface typed to the
//! caller; they are never silently coerced to a nothing value.

use vstd::prelude::*;
use vstd::string::StringExecFns;

verus! {

/// The ways a conversion can refuse a value or a key.
#[derive(Debug)]
pub enum ConversionKind {
    /// A key of the named category cannot be represented on the other side.
    UnsupportedKeyKind(String),
    /// A value of the named category cannot be represented on the other side.
    UnsupportedValueKind(String),
    /// The value cannot cross without losing precision.
    PrecisionViolation,
}

/// Spec-level picture of [`ConversionKind`].
pub enum ConversionKindModel {
    UnsupportedKeyKind(Seq<char>),
    UnsupportedValueKind(Seq<char>),
    PrecisionViolation,
}

impl View for ConversionKind {
    type V = ConversionKindModel;

    open spec fn view(&self) -> ConversionKindModel {
        match self {
            ConversionKind::UnsupportedKeyKind(c) => ConversionKindModel::UnsupportedKeyKind(c@),
            ConversionKind::UnsupportedValueKind(c) => ConversionKindModel::UnsupportedValueKind(
                c@,
            ),
            ConversionKind::PrecisionViolation => ConversionKindModel::PrecisionViolation,
        }
    }
}

/// Every failure the bridge reports.
///
/// `Conversion` says the data did not fit; `EmbeddedRuntime` says the guest
/// script itself misbehaved while it ran; `HostBoundary` covers failures of
/// the host side of a crossing.
#[derive(Debug)]
pub enum Error {
    Conversion(ConversionKind),
    EmbeddedRuntime { message: String, chunk_name: String },
    HostBoundary(String),
}

/// Spec-level picture of [`Error`].
pub enum ErrorModel {
    Conversion(ConversionKindModel),
    EmbeddedRuntime { message: Seq<char>, chunk_name: Seq<char> },
    HostBoundary(Seq<char>),
}

impl View for Error {
    type V = ErrorModel;

    open spec fn view(&self) -> ErrorModel {
        match self {
            Error::Conversion(k) => ErrorModel::Conversion(k@),
            Error::EmbeddedRuntime { message, chunk_name } => ErrorModel::EmbeddedRuntime {
                message: message@,
                chunk_name: chunk_name@,
            },
            Error::HostBoundary(m) => ErrorModel::HostBoundary(m@),
        }
    }
}

/// The text an error reports (see [`Error::message`]).
pub open spec fn spec_message(e: ErrorModel) -> Seq<char> {
    match e {
        ErrorModel::Conversion(k) => match k {
            ConversionKindModel::UnsupportedKeyKind(c) => "unsupported key kind: "@ + c,
            ConversionKindModel::UnsupportedValueKind(c) => "unsupported value kind: "@ + c,
            ConversionKindModel::PrecisionViolation => "precision violation"@,
        },
        ErrorModel::EmbeddedRuntime { message, chunk_name } => chunk_name + ": "@ + message,
        ErrorModel::HostBoundary(m) => m,
    }
}

impl Error {
    /// The text this error reports to a caller.
    pub fn message(&self) -> (r: String)
        ensures
            r@ == spec_message(self@),
    {
        match self {
            Error::Conversion(k) => match k {
                ConversionKind::UnsupportedKeyKind(c) => {
                    let mut m = String::from_str("unsupported key kind: ");
                    m.append(c.as_str());
                    m
                },
                ConversionKind::UnsupportedValueKind(c) => {
                    let mut m = String::from_str("unsupported value kind: ");
                    m.append(c.as_str());
                    m
                },
                ConversionKind::PrecisionViolation => String::from_str("precision violation"),
            },
            Error::EmbeddedRuntime { message, chunk_name } => {
                let mut m = chunk_name.clone();
                m.append(": ");
                m.append(message.as_str());
                m
            },
            Error::HostBoundary(m) => m.clone(),
        }
    }
}

} // verus!
