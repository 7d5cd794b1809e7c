use vstd::prelude::*;

verus! {

/// Mathematical model of a `KvError`.
pub enum KvErrorV {
    NotFound(Seq<char>),
    InvalidCommand(Seq<char>),
    ConvertError(Seq<char>, Seq<char>),
    Internal(Seq<char>),
    CertificateParseError(Seq<char>, Seq<char>),
    FrameError(Seq<char>),
}

/// The error taxonomy of the service.
///
/// `NotFound` covers an absent subscription, `InvalidCommand` a malformed or
/// empty request, `ConvertError` a value-variant mismatch during typed
/// extraction, `Internal` a storage or I/O failure, `CertificateParseError`
/// malformed certificate or key material, and `FrameError` an oversized,
/// truncated or undecodable wire frame.
#[derive(Debug, PartialEq)]
pub enum KvError {
    NotFound(String),
    InvalidCommand(String),
    ConvertError(String, String),
    Internal(String),
    CertificateParseError(String, String),
    FrameError(String),
}

impl View for KvError {
    type V = KvErrorV;

    open spec fn view(&self) -> KvErrorV {
        match self {
            KvError::NotFound(s) => KvErrorV::NotFound(s@),
            KvError::InvalidCommand(s) => KvErrorV::InvalidCommand(s@),
            KvError::ConvertError(v, t) => KvErrorV::ConvertError(v@, t@),
            KvError::Internal(s) => KvErrorV::Internal(s@),
            KvError::CertificateParseError(a, b) => KvErrorV::CertificateParseError(a@, b@),
            KvError::FrameError(s) => KvErrorV::FrameError(s@),
        }
    }
}

/// The HTTP-style status code a response carries for each error kind:
/// an absent entity is 404, a malformed request 400, everything else 500.
pub open spec fn spec_error_status(e: KvErrorV) -> u32 {
    match e {
        KvErrorV::NotFound(_) => 404,
        KvErrorV::InvalidCommand(_) => 400,
        _ => 500,
    }
}

/// The human-readable text of each error kind.
pub open spec fn spec_error_message(e: KvErrorV) -> Seq<char> {
    match e {
        KvErrorV::NotFound(s) => "Not found: "@ + s,
        KvErrorV::InvalidCommand(s) => "Invalid command: "@ + s,
        KvErrorV::ConvertError(v, t) => "Convert error: cannot convert "@ + v + " to "@ + t,
        KvErrorV::Internal(s) => "Internal error: "@ + s,
        KvErrorV::CertificateParseError(a, b) => "Certificate parse error: "@ + a + " "@ + b,
        KvErrorV::FrameError(s) => "Frame error: "@ + s,
    }
}

impl KvError {
    /// The status code carried by a response built from this error.
    pub fn status(&self) -> (r: u32)
        ensures
            r == spec_error_status(self@),
    {
        match self {
            KvError::NotFound(_) => 404,
            KvError::InvalidCommand(_) => 400,
            _ => 500,
        }
    }

    /// The human-readable text of the error.
    pub fn message(&self) -> (r: String)
        ensures
            r@ == spec_error_message(self@),
    {
        match self {
            KvError::NotFound(s) => {
                let mut m = String::from_str("Not found: ");
                m.append(s.as_str());
                m
            },
            KvError::InvalidCommand(s) => {
                let mut m = String::from_str("Invalid command: ");
                m.append(s.as_str());
                m
            },
            KvError::ConvertError(v, t) => {
                let mut m = String::from_str("Convert error: cannot convert ");
                m.append(v.as_str());
                m.append(" to ");
                m.append(t.as_str());
                m
            },
            KvError::Internal(s) => {
                let mut m = String::from_str("Internal error: ");
                m.append(s.as_str());
                m
            },
            KvError::CertificateParseError(a, b) => {
                let mut m = String::from_str("Certificate parse error: ");
                m.append(a.as_str());
                m.append(" ");
                m.append(b.as_str());
                m
            },
            KvError::FrameError(s) => {
                let mut m = String::from_str("Frame error: ");
                m.append(s.as_str());
                m
            },
        }
    }
}

} // verus!
