//! Errors of connection establishment and stream handshake, and their fixed
//! numeric codes as callers across the boundary see them.

use vstd::prelude::*;
use vstd::string::StringExecFns;
use crate::decimal::dec_chars;
use crate::decimal::push_digits;

verus! {

/// Errors that can occur while connecting or during the stream handshake.
#[derive(Debug)]
pub enum HandshakeError {
    /// Socket- or DNS-level failure reaching a peer.
    Connection(String),
    /// TLS handshake or certificate failure.
    Tls(String),
    /// A protocol-level error reported by the remote peer.
    Stream(String),
    /// The connect deadline was exceeded (milliseconds).
    Timeout(u64),
    /// A peer-directed redirect.
    SeeOtherHost(String),
    /// The server certificate was rejected.
    BadCertificate(String),
}

/// Numeric error codes; `Success` is reserved for success.
#[derive(Clone, Copy, Debug, PartialEq, Eq, Structural)]
pub enum HandshakeErrorCode {
    Success,
    Connection,
    Tls,
    Stream,
    Timeout,
    SeeOtherHost,
    BadCertificate,
}

/// The code each error maps to.
pub open spec fn spec_error_code(e: HandshakeError) -> HandshakeErrorCode {
    match e {
        HandshakeError::Connection(_) => HandshakeErrorCode::Connection,
        HandshakeError::Tls(_) => HandshakeErrorCode::Tls,
        HandshakeError::Stream(_) => HandshakeErrorCode::Stream,
        HandshakeError::Timeout(_) => HandshakeErrorCode::Timeout,
        HandshakeError::SeeOtherHost(_) => HandshakeErrorCode::SeeOtherHost,
        HandshakeError::BadCertificate(_) => HandshakeErrorCode::BadCertificate,
    }
}

/// The fixed number of each code.
pub open spec fn spec_code_number(c: HandshakeErrorCode) -> int {
    match c {
        HandshakeErrorCode::Success => 0,
        HandshakeErrorCode::Connection => 1,
        HandshakeErrorCode::Tls => 2,
        HandshakeErrorCode::Stream => 3,
        HandshakeErrorCode::Timeout => 4,
        HandshakeErrorCode::SeeOtherHost => 5,
        HandshakeErrorCode::BadCertificate => 6,
    }
}

impl HandshakeErrorCode {
    /// The numeric value of this code.
    pub fn as_i32(&self) -> (r: i32)
        ensures
            r as int == spec_code_number(*self),
    {
        match self {
            HandshakeErrorCode::Success => 0,
            HandshakeErrorCode::Connection => 1,
            HandshakeErrorCode::Tls => 2,
            HandshakeErrorCode::Stream => 3,
            HandshakeErrorCode::Timeout => 4,
            HandshakeErrorCode::SeeOtherHost => 5,
            HandshakeErrorCode::BadCertificate => 6,
        }
    }
}

impl<'a> From<&'a HandshakeError> for HandshakeErrorCode {
    /// The code of an error, as `From` for callers that convert.
    fn from(e: &'a HandshakeError) -> (r: Self)
        ensures
            r == spec_error_code(*e),
    {
        e.code()
    }
}

impl<'a> vstd::std_specs::convert::FromSpecImpl<&'a HandshakeError> for HandshakeErrorCode {
    open spec fn obeys_from_spec() -> bool {
        true
    }

    open spec fn from_spec(e: &'a HandshakeError) -> Self {
        spec_error_code(*e)
    }
}

impl HandshakeError {
    /// The code of this error.
    pub fn code(&self) -> (r: HandshakeErrorCode)
        ensures
            r == spec_error_code(*self),
    {
        match self {
            HandshakeError::Connection(_) => HandshakeErrorCode::Connection,
            HandshakeError::Tls(_) => HandshakeErrorCode::Tls,
            HandshakeError::Stream(_) => HandshakeErrorCode::Stream,
            HandshakeError::Timeout(_) => HandshakeErrorCode::Timeout,
            HandshakeError::SeeOtherHost(_) => HandshakeErrorCode::SeeOtherHost,
            HandshakeError::BadCertificate(_) => HandshakeErrorCode::BadCertificate,
        }
    }

    /// A human-readable description: a fixed prefix naming the error class,
    /// followed by the detail carried in the error.
    pub fn message(&self) -> (r: String)
        ensures
            match *self {
                HandshakeError::Connection(m) => r@ == "connection failed: "@ + m@,
                HandshakeError::Tls(m) => r@ == "TLS handshake failed: "@ + m@,
                HandshakeError::Stream(m) => r@ == "stream error: "@ + m@,
                HandshakeError::Timeout(ms) => r@ == "timeout after "@ + dec_chars(ms as int)
                    + "ms"@,
                HandshakeError::SeeOtherHost(m) => r@ == "see-other-host: "@ + m@,
                HandshakeError::BadCertificate(m) => r@ == "invalid certificate: "@ + m@,
            },
    {
        match self {
            HandshakeError::Connection(m) => {
                let mut s = String::from_str("connection failed: ");
                s.append(m.as_str());
                s
            },
            HandshakeError::Tls(m) => {
                let mut s = String::from_str("TLS handshake failed: ");
                s.append(m.as_str());
                s
            },
            HandshakeError::Stream(m) => {
                let mut s = String::from_str("stream error: ");
                s.append(m.as_str());
                s
            },
            HandshakeError::Timeout(ms) => {
                let mut s = String::from_str("timeout after ");
                push_digits(&mut s, *ms);
                s.append("ms");
                s
            },
            HandshakeError::SeeOtherHost(m) => {
                let mut s = String::from_str("see-other-host: ");
                s.append(m.as_str());
                s
            },
            HandshakeError::BadCertificate(m) => {
                let mut s = String::from_str("invalid certificate: ");
                s.append(m.as_str());
                s
            },
        }
    }
}

} // verus!
