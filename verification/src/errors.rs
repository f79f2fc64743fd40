use vstd::prelude::*;

verus! {

/// A gRPC status code, one of the seventeen canonical codes.
#[derive(Debug, Clone, Copy, PartialEq, Eq, Structural)]
pub enum StatusCode {
    Okay,
    Cancelled,
    Unknown,
    InvalidArgument,
    DeadlineExceeded,
    NotFound,
    AlreadyExists,
    PermissionDenied,
    ResourceExhausted,
    FailedPrecondition,
    Aborted,
    OutOfRange,
    Unimplemented,
    Internal,
    Unavailable,
    DataLoss,
    Unauthenticated,
}

/// The numeric value of a status code on the wire.
pub open spec fn code_number_spec(code: StatusCode) -> int {
    match code {
        StatusCode::Okay => 0,
        StatusCode::Cancelled => 1,
        StatusCode::Unknown => 2,
        StatusCode::InvalidArgument => 3,
        StatusCode::DeadlineExceeded => 4,
        StatusCode::NotFound => 5,
        StatusCode::AlreadyExists => 6,
        StatusCode::PermissionDenied => 7,
        StatusCode::ResourceExhausted => 8,
        StatusCode::FailedPrecondition => 9,
        StatusCode::Aborted => 10,
        StatusCode::OutOfRange => 11,
        StatusCode::Unimplemented => 12,
        StatusCode::Internal => 13,
        StatusCode::Unavailable => 14,
        StatusCode::DataLoss => 15,
        StatusCode::Unauthenticated => 16,
    }
}

impl StatusCode {
    /// The numeric value of this code on the wire.
    pub fn number(&self) -> (n: i32)
        ensures
            n == code_number_spec(*self),
    {
        match self {
            StatusCode::Okay => 0,
            StatusCode::Cancelled => 1,
            StatusCode::Unknown => 2,
            StatusCode::InvalidArgument => 3,
            StatusCode::DeadlineExceeded => 4,
            StatusCode::NotFound => 5,
            StatusCode::AlreadyExists => 6,
            StatusCode::PermissionDenied => 7,
            StatusCode::ResourceExhausted => 8,
            StatusCode::FailedPrecondition => 9,
            StatusCode::Aborted => 10,
            StatusCode::OutOfRange => 11,
            StatusCode::Unimplemented => 12,
            StatusCode::Internal => 13,
            StatusCode::Unavailable => 14,
            StatusCode::DataLoss => 15,
            StatusCode::Unauthenticated => 16,
        }
    }
}

/// The code a numeric wire value stands for, `Unknown` when out of range,
/// matching how gRPC clients treat unrecognized codes.
pub open spec fn code_from_i32_spec(n: int) -> StatusCode {
    if n == 0 {
        StatusCode::Okay
    } else if n == 1 {
        StatusCode::Cancelled
    } else if n == 3 {
        StatusCode::InvalidArgument
    } else if n == 4 {
        StatusCode::DeadlineExceeded
    } else if n == 5 {
        StatusCode::NotFound
    } else if n == 6 {
        StatusCode::AlreadyExists
    } else if n == 7 {
        StatusCode::PermissionDenied
    } else if n == 8 {
        StatusCode::ResourceExhausted
    } else if n == 9 {
        StatusCode::FailedPrecondition
    } else if n == 10 {
        StatusCode::Aborted
    } else if n == 11 {
        StatusCode::OutOfRange
    } else if n == 12 {
        StatusCode::Unimplemented
    } else if n == 13 {
        StatusCode::Internal
    } else if n == 14 {
        StatusCode::Unavailable
    } else if n == 15 {
        StatusCode::DataLoss
    } else if n == 16 {
        StatusCode::Unauthenticated
    } else {
        StatusCode::Unknown
    }
}

/// Map a numeric wire value to a status code; unrecognized values become
/// `Unknown`.
pub fn code_from_i32(n: i32) -> (code: StatusCode)
    ensures
        code == code_from_i32_spec(n as int),
{
    if n == 0 {
        StatusCode::Okay
    } else if n == 1 {
        StatusCode::Cancelled
    } else if n == 3 {
        StatusCode::InvalidArgument
    } else if n == 4 {
        StatusCode::DeadlineExceeded
    } else if n == 5 {
        StatusCode::NotFound
    } else if n == 6 {
        StatusCode::AlreadyExists
    } else if n == 7 {
        StatusCode::PermissionDenied
    } else if n == 8 {
        StatusCode::ResourceExhausted
    } else if n == 9 {
        StatusCode::FailedPrecondition
    } else if n == 10 {
        StatusCode::Aborted
    } else if n == 11 {
        StatusCode::OutOfRange
    } else if n == 12 {
        StatusCode::Unimplemented
    } else if n == 13 {
        StatusCode::Internal
    } else if n == 14 {
        StatusCode::Unavailable
    } else if n == 15 {
        StatusCode::DataLoss
    } else if n == 16 {
        StatusCode::Unauthenticated
    } else {
        StatusCode::Unknown
    }
}

/// The canonical name of a status code, as printed in the error stanza.
pub open spec fn code_name_spec(code: StatusCode) -> Seq<char> {
    match code {
        StatusCode::Okay => "OK"@,
        StatusCode::Cancelled => "Canceled"@,
        StatusCode::Unknown => "Unknown"@,
        StatusCode::InvalidArgument => "InvalidArgument"@,
        StatusCode::DeadlineExceeded => "DeadlineExceeded"@,
        StatusCode::NotFound => "NotFound"@,
        StatusCode::AlreadyExists => "AlreadyExists"@,
        StatusCode::PermissionDenied => "PermissionDenied"@,
        StatusCode::ResourceExhausted => "ResourceExhausted"@,
        StatusCode::FailedPrecondition => "FailedPrecondition"@,
        StatusCode::Aborted => "Aborted"@,
        StatusCode::OutOfRange => "OutOfRange"@,
        StatusCode::Unimplemented => "Unimplemented"@,
        StatusCode::Internal => "Internal"@,
        StatusCode::Unavailable => "Unavailable"@,
        StatusCode::DataLoss => "DataLoss"@,
        StatusCode::Unauthenticated => "Unauthenticated"@,
    }
}

/// The canonical name of a status code.
pub fn status_code_name(code: StatusCode) -> (name: &'static str)
    ensures
        name@ == code_name_spec(code),
{
    match code {
        StatusCode::Okay => "OK",
        StatusCode::Cancelled => "Canceled",
        StatusCode::Unknown => "Unknown",
        StatusCode::InvalidArgument => "InvalidArgument",
        StatusCode::DeadlineExceeded => "DeadlineExceeded",
        StatusCode::NotFound => "NotFound",
        StatusCode::AlreadyExists => "AlreadyExists",
        StatusCode::PermissionDenied => "PermissionDenied",
        StatusCode::ResourceExhausted => "ResourceExhausted",
        StatusCode::FailedPrecondition => "FailedPrecondition",
        StatusCode::Aborted => "Aborted",
        StatusCode::OutOfRange => "OutOfRange",
        StatusCode::Unimplemented => "Unimplemented",
        StatusCode::Internal => "Internal",
        StatusCode::Unavailable => "Unavailable",
        StatusCode::DataLoss => "DataLoss",
        StatusCode::Unauthenticated => "Unauthenticated",
    }
}

/// The error taxonomy: every component surfaces failures through one of
/// these variants.
#[derive(Debug)]
pub enum GrpcurlError {
    /// The requested symbol (service, method, message, ...) was not found.
    NotFound(String),
    /// The server does not support the gRPC reflection API.
    ReflectionNotSupported,
    /// An invalid argument was provided (malformed method name, bad flag, ...).
    InvalidArgument(String),
    /// An I/O failure, carried as its description.
    Io(String),
    /// A protobuf encoding, decoding or compilation failure.
    Proto(String),
    /// A gRPC status received from the server: code and message.
    GrpcStatus(StatusCode, String),
    /// Any other failure.
    Other(String),
}

/// The human-readable text of an error.
pub open spec fn error_message_spec(e: GrpcurlError) -> Seq<char> {
    match e {
        GrpcurlError::NotFound(name) => "Symbol not found: "@ + name@,
        GrpcurlError::ReflectionNotSupported => "server does not support the reflection API"@,
        GrpcurlError::InvalidArgument(msg) => "invalid argument: "@ + msg@,
        GrpcurlError::Io(msg) => "I/O error: "@ + msg@,
        GrpcurlError::Proto(msg) => "proto error: "@ + msg@,
        GrpcurlError::GrpcStatus(code, msg) => "gRPC error: "@ + code_name_spec(code) + " - "@
            + msg@,
        GrpcurlError::Other(msg) => msg@,
    }
}

/// The process exit code an error drives: 2 for usage errors, `64 + code`
/// for a non-OK gRPC status, 1 for everything else.
pub open spec fn error_exit_code_spec(e: GrpcurlError) -> int {
    match e {
        GrpcurlError::InvalidArgument(_) => 2,
        GrpcurlError::GrpcStatus(code, _) => 64 + code_number_spec(code),
        _ => 1,
    }
}

impl GrpcurlError {
    /// The human-readable text of this error.
    pub fn message(&self) -> (r: String)
        ensures
            r@ == error_message_spec(*self),
    {
        match self {
            GrpcurlError::NotFound(name) => String::from_str("Symbol not found: ").concat(
                name.as_str(),
            ),
            GrpcurlError::ReflectionNotSupported => String::from_str(
                "server does not support the reflection API",
            ),
            GrpcurlError::InvalidArgument(msg) => String::from_str("invalid argument: ").concat(
                msg.as_str(),
            ),
            GrpcurlError::Io(msg) => String::from_str("I/O error: ").concat(msg.as_str()),
            GrpcurlError::Proto(msg) => String::from_str("proto error: ").concat(msg.as_str()),
            GrpcurlError::GrpcStatus(code, msg) => String::from_str("gRPC error: ").concat(
                status_code_name(*code),
            ).concat(" - ").concat(msg.as_str()),
            GrpcurlError::Other(msg) => msg.clone(),
        }
    }

    /// True when this error represents a not-found condition, either the
    /// local variant or a gRPC `NotFound` status.
    pub fn is_not_found(&self) -> (r: bool)
        ensures
            r == (self is NotFound || (self is GrpcStatus && self->GrpcStatus_0
                == StatusCode::NotFound)),
    {
        match self {
            GrpcurlError::NotFound(_) => true,
            GrpcurlError::GrpcStatus(code, _) => *code == StatusCode::NotFound,
            _ => false,
        }
    }

    /// The process exit code this error drives.
    pub fn exit_code(&self) -> (c: i32)
        ensures
            c == error_exit_code_spec(*self),
    {
        match self {
            GrpcurlError::InvalidArgument(_) => 2,
            GrpcurlError::GrpcStatus(code, _) => 64 + code.number(),
            _ => 1,
        }
    }
}

} // verus!
