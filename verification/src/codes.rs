//! Stable error codes, diagnostics and the finite limits of the boundary.
use vstd::prelude::*;
use crate::text::{string_of, push_str};

verus! {

pub const MAX_CONFIG_BYTES: usize = 1048576;
pub const MAX_JSON_DEPTH: usize = 32;
pub const MAX_STRING_BYTES: usize = 262144;
pub const MAX_ARRAY_ITEMS: usize = 1024;
pub const MAX_PATTERN_BYTES: usize = 16384;
pub const MAX_PATTERN_COMPILED_BYTES: usize = 1048576;
pub const MAX_TOOLS: usize = 256;
pub const MAX_DIAGNOSTICS: usize = 32;
/// Schema and binding trees use the same finite structural budget as JSON
/// messages; it is checked while a configuration is adopted.
pub const MAX_SCHEMA_DEPTH: usize = 32;

/// The stable codes that every broker error carries.
#[derive(Clone, Copy, Debug, PartialEq, Eq, Structural)]
pub enum BrokerErrorCode {
    InvalidArguments,
    PolicyDenied,
    TargetUnavailable,
    TargetTimeout,
    TargetFailed,
    OutputLimitExceeded,
    InvalidTargetOutput,
    Cancelled,
    ServerBusy,
}

pub open spec fn code_name(code: BrokerErrorCode) -> Seq<char> {
    match code {
        BrokerErrorCode::InvalidArguments => "INVALID_ARGUMENTS"@,
        BrokerErrorCode::PolicyDenied => "POLICY_DENIED"@,
        BrokerErrorCode::TargetUnavailable => "TARGET_UNAVAILABLE"@,
        BrokerErrorCode::TargetTimeout => "TARGET_TIMEOUT"@,
        BrokerErrorCode::TargetFailed => "TARGET_FAILED"@,
        BrokerErrorCode::OutputLimitExceeded => "OUTPUT_LIMIT_EXCEEDED"@,
        BrokerErrorCode::InvalidTargetOutput => "INVALID_TARGET_OUTPUT"@,
        BrokerErrorCode::Cancelled => "CANCELLED"@,
        BrokerErrorCode::ServerBusy => "SERVER_BUSY"@,
    }
}

impl BrokerErrorCode {
    /// The code's wire name, in screaming snake case.
    pub fn as_str(self) -> (r: &'static str)
        ensures
            r@ == code_name(self),
    {
        match self {
            BrokerErrorCode::InvalidArguments => "INVALID_ARGUMENTS",
            BrokerErrorCode::PolicyDenied => "POLICY_DENIED",
            BrokerErrorCode::TargetUnavailable => "TARGET_UNAVAILABLE",
            BrokerErrorCode::TargetTimeout => "TARGET_TIMEOUT",
            BrokerErrorCode::TargetFailed => "TARGET_FAILED",
            BrokerErrorCode::OutputLimitExceeded => "OUTPUT_LIMIT_EXCEEDED",
            BrokerErrorCode::InvalidTargetOutput => "INVALID_TARGET_OUTPUT",
            BrokerErrorCode::Cancelled => "CANCELLED",
            BrokerErrorCode::ServerBusy => "SERVER_BUSY",
        }
    }
}

/// A broker-generated diagnostic: a code, a JSON Pointer into the
/// configuration or input, and a fixed explanation.
#[derive(Debug)]
pub struct Diagnostic {
    pub code: BrokerErrorCode,
    pub path: String,
    pub message: String,
}

impl Diagnostic {
    /// An `INVALID_ARGUMENTS` diagnostic.
    pub fn invalid(path: &str, message: &str) -> (r: Self)
        ensures
            r.code == BrokerErrorCode::InvalidArguments,
            r.path@ == path@,
            r.message@ == message@,
    {
        Diagnostic { code: BrokerErrorCode::InvalidArguments, path: string_of(path), message: string_of(message) }
    }

    /// A `TARGET_FAILED` diagnostic for a failure of the broker itself.
    pub fn internal(path: &str, message: &str) -> (r: Self)
        ensures
            r.code == BrokerErrorCode::TargetFailed,
            r.path@ == path@,
            r.message@ == message@,
    {
        Diagnostic { code: BrokerErrorCode::TargetFailed, path: string_of(path), message: string_of(message) }
    }

    /// The diagnostic as one line: `CODE at path: message`.
    pub fn render(&self) -> (r: String)
        ensures
            r@ == diagnostic_text(*self),
    {
        let mut out = string_of(self.code.as_str());
        push_str(&mut out, " at ");
        push_str(&mut out, self.path.as_str());
        push_str(&mut out, ": ");
        push_str(&mut out, self.message.as_str());
        out
    }
}

/// The one-line text of a diagnostic: its code's name, ` at `, its path,
/// `: ` and its message.
pub open spec fn diagnostic_text(d: Diagnostic) -> Seq<char> {
    code_name(d.code) + " at "@ + d.path@ + ": "@ + d.message@
}

/// Configuration bytes whose size is within the adoption limit.
#[derive(Debug, PartialEq)]
pub struct ConfigBytes {
    pub source: String,
    pub bytes: Vec<u8>,
}

impl ConfigBytes {
    pub const MAX_BYTES: usize = 1048576;

    /// Accepts at most `MAX_CONFIG_BYTES` bytes.
    pub fn new(source: &str, bytes: Vec<u8>) -> (r: Result<Self, BrokerErrorCode>)
        ensures
            r is Ok <==> bytes@.len() <= MAX_CONFIG_BYTES,
            r matches Ok(c) ==> c.source@ == source@ && c.bytes@ == bytes@,
            r matches Err(e) ==> e == BrokerErrorCode::InvalidArguments,
    {
        if bytes.len() > MAX_CONFIG_BYTES {
            Err(BrokerErrorCode::InvalidArguments)
        } else {
            Ok(ConfigBytes { source: string_of(source), bytes })
        }
    }
}

/// `d` reports `problem`: the field under `path` and the message.
pub open spec fn reported_at(d: Diagnostic, path: Seq<char>, problem: Option<(Seq<char>, Seq<char>)>) -> bool {
    match problem {
        Some((field, message)) => {
            &&& d.code == BrokerErrorCode::InvalidArguments
            &&& d.path@ == path + seq!['/'] + field
            &&& d.message@ == message
        },
        None => false,
    }
}

/// `d` reports `problem`: its path and message.
pub open spec fn reports_problem(d: Diagnostic, problem: Option<(Seq<char>, Seq<char>)>) -> bool {
    &&& d.code == BrokerErrorCode::InvalidArguments
    &&& problem == Some((d.path@, d.message@))
}

} // verus!
