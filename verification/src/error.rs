//! Error hierarchy of the library and the taxonomy that worker failures are
//! counted under.

use vstd::prelude::*;
use crate::time::Duration;

verus! {

/// `std::io::Error`, carried through errors of this library untouched.
#[verifier::external_type_specification]
#[verifier::external_body]
pub struct ExIoError(std::io::Error);

/// `serde_json::Error`, carried through errors of this library untouched.
#[verifier::external_type_specification]
#[verifier::external_body]
pub struct ExJsonError(serde_json::Error);

/// Primary error type: configuration, transport, I/O, serialization and SLO failures.
#[derive(Debug)]
pub enum WsBlastError {
    Config(ConfigError),
    Worker(WorkerError),
    Io(std::io::Error),
    Serialization(serde_json::Error),
    SloBreach(String),
}

/// Configuration validation errors found before any load is generated.
#[derive(Debug)]
pub enum ConfigError {
    InvalidUrl(String, String),
    UnsupportedScheme(String),
    InvalidDuration(String),
    InvalidHeader(String),
    ZeroConcurrency(usize),
    ZeroRate(u64),
    InvalidThreshold(String),
    PayloadFile { path: String, source: std::io::Error },
}

/// Worker-level session errors met while connecting and exchanging frames.
#[derive(Debug)]
pub enum WorkerError {
    DnsResolution(String),
    TcpConnect { address: String, source: std::io::Error },
    TlsHandshake(String),
    HttpUpgradeRejected { status: u16, reason: String },
    Protocol(String),
    Write(String),
    Read(String),
    Timeout(Duration),
    UnexpectedClose { code: Option<u16>, reason: String },
    ChannelClosed,
}

/// Error taxonomy used to aggregate failures in metrics and reports.
#[derive(Debug, Clone, Copy, PartialEq, Eq, Hash, Structural)]
pub enum ErrorCategory {
    DnsResolution,
    TcpConnect,
    TlsHandshake,
    HttpUpgradeRejected,
    ProtocolError,
    WriteError,
    ReadError,
    Timeout,
    UnexpectedClose,
    Other,
}

/// Number of error categories.
pub const CATEGORY_COUNT: usize = 10;

/// Position of a category in declaration order.
pub open spec fn category_index(c: ErrorCategory) -> int {
    match c {
        ErrorCategory::DnsResolution => 0,
        ErrorCategory::TcpConnect => 1,
        ErrorCategory::TlsHandshake => 2,
        ErrorCategory::HttpUpgradeRejected => 3,
        ErrorCategory::ProtocolError => 4,
        ErrorCategory::WriteError => 5,
        ErrorCategory::ReadError => 6,
        ErrorCategory::Timeout => 7,
        ErrorCategory::UnexpectedClose => 8,
        ErrorCategory::Other => 9,
    }
}

/// The category at position `i` in declaration order.
pub open spec fn category_at(i: int) -> ErrorCategory {
    if i == 0 { ErrorCategory::DnsResolution }
    else if i == 1 { ErrorCategory::TcpConnect }
    else if i == 2 { ErrorCategory::TlsHandshake }
    else if i == 3 { ErrorCategory::HttpUpgradeRejected }
    else if i == 4 { ErrorCategory::ProtocolError }
    else if i == 5 { ErrorCategory::WriteError }
    else if i == 6 { ErrorCategory::ReadError }
    else if i == 7 { ErrorCategory::Timeout }
    else if i == 8 { ErrorCategory::UnexpectedClose }
    else { ErrorCategory::Other }
}

/// Human-readable label of a category, as shown in reports.
pub open spec fn category_label(c: ErrorCategory) -> Seq<char> {
    match c {
        ErrorCategory::DnsResolution => "DNS Resolution Failed"@,
        ErrorCategory::TcpConnect => "TCP Connect Failed"@,
        ErrorCategory::TlsHandshake => "TLS Handshake Failed"@,
        ErrorCategory::HttpUpgradeRejected => "HTTP Upgrade Rejected"@,
        ErrorCategory::ProtocolError => "Protocol Error"@,
        ErrorCategory::WriteError => "Frame Write Error"@,
        ErrorCategory::ReadError => "Frame Read Error"@,
        ErrorCategory::Timeout => "Operation Timeout"@,
        ErrorCategory::UnexpectedClose => "Unexpected Close"@,
        ErrorCategory::Other => "Other Error"@,
    }
}

/// The category a worker error is counted under.
pub open spec fn category_of(err: WorkerError) -> ErrorCategory {
    match err {
        WorkerError::DnsResolution(_) => ErrorCategory::DnsResolution,
        WorkerError::TcpConnect { .. } => ErrorCategory::TcpConnect,
        WorkerError::TlsHandshake(_) => ErrorCategory::TlsHandshake,
        WorkerError::HttpUpgradeRejected { .. } => ErrorCategory::HttpUpgradeRejected,
        WorkerError::Protocol(_) => ErrorCategory::ProtocolError,
        WorkerError::Write(_) => ErrorCategory::WriteError,
        WorkerError::Read(_) => ErrorCategory::ReadError,
        WorkerError::Timeout(_) => ErrorCategory::Timeout,
        WorkerError::UnexpectedClose { .. } => ErrorCategory::UnexpectedClose,
        WorkerError::ChannelClosed => ErrorCategory::Other,
    }
}

/// Each category sits at its own position in declaration order.
pub proof fn lemma_category_index_roundtrip(c: ErrorCategory)
    ensures
        0 <= category_index(c) < 10,
        category_at(category_index(c)) == c,
{
}

/// The category at each position has that position.
pub proof fn lemma_category_at_index(i: int)
    requires
        0 <= i < 10,
    ensures
        category_index(category_at(i)) == i,
{
}

impl ErrorCategory {
    /// Position of this category in declaration order.
    pub fn index(&self) -> (i: usize)
        ensures
            i as int == category_index(*self),
            i < CATEGORY_COUNT,
    {
        match self {
            ErrorCategory::DnsResolution => 0,
            ErrorCategory::TcpConnect => 1,
            ErrorCategory::TlsHandshake => 2,
            ErrorCategory::HttpUpgradeRejected => 3,
            ErrorCategory::ProtocolError => 4,
            ErrorCategory::WriteError => 5,
            ErrorCategory::ReadError => 6,
            ErrorCategory::Timeout => 7,
            ErrorCategory::UnexpectedClose => 8,
            ErrorCategory::Other => 9,
        }
    }

    /// The category at position `i` in declaration order.
    pub fn from_index(i: usize) -> (c: ErrorCategory)
        requires
            i < CATEGORY_COUNT,
        ensures
            c == category_at(i as int),
            category_index(c) == i,
    {
        match i {
            0 => ErrorCategory::DnsResolution,
            1 => ErrorCategory::TcpConnect,
            2 => ErrorCategory::TlsHandshake,
            3 => ErrorCategory::HttpUpgradeRejected,
            4 => ErrorCategory::ProtocolError,
            5 => ErrorCategory::WriteError,
            6 => ErrorCategory::ReadError,
            7 => ErrorCategory::Timeout,
            8 => ErrorCategory::UnexpectedClose,
            _ => ErrorCategory::Other,
        }
    }

    /// The label under which reports list this category.
    pub fn label(&self) -> (s: &'static str)
        ensures
            s@ == category_label(*self),
    {
        match self {
            ErrorCategory::DnsResolution => "DNS Resolution Failed",
            ErrorCategory::TcpConnect => "TCP Connect Failed",
            ErrorCategory::TlsHandshake => "TLS Handshake Failed",
            ErrorCategory::HttpUpgradeRejected => "HTTP Upgrade Rejected",
            ErrorCategory::ProtocolError => "Protocol Error",
            ErrorCategory::WriteError => "Frame Write Error",
            ErrorCategory::ReadError => "Frame Read Error",
            ErrorCategory::Timeout => "Operation Timeout",
            ErrorCategory::UnexpectedClose => "Unexpected Close",
            ErrorCategory::Other => "Other Error",
        }
    }

    /// The category that `err` is counted under.
    pub fn of_worker_error(err: &WorkerError) -> (c: ErrorCategory)
        ensures
            c == category_of(*err),
    {
        match err {
            WorkerError::DnsResolution(_) => ErrorCategory::DnsResolution,
            WorkerError::TcpConnect { .. } => ErrorCategory::TcpConnect,
            WorkerError::TlsHandshake(_) => ErrorCategory::TlsHandshake,
            WorkerError::HttpUpgradeRejected { .. } => ErrorCategory::HttpUpgradeRejected,
            WorkerError::Protocol(_) => ErrorCategory::ProtocolError,
            WorkerError::Write(_) => ErrorCategory::WriteError,
            WorkerError::Read(_) => ErrorCategory::ReadError,
            WorkerError::Timeout(_) => ErrorCategory::Timeout,
            WorkerError::UnexpectedClose { .. } => ErrorCategory::UnexpectedClose,
            WorkerError::ChannelClosed => ErrorCategory::Other,
        }
    }
}

impl<'a> From<&'a WorkerError> for ErrorCategory {
    fn from(err: &'a WorkerError) -> (c: ErrorCategory) {
        ErrorCategory::of_worker_error(err)
    }
}

impl<'a> vstd::std_specs::convert::FromSpecImpl<&'a WorkerError> for ErrorCategory {
    open spec fn obeys_from_spec() -> bool {
        true
    }

    open spec fn from_spec(err: &'a WorkerError) -> ErrorCategory {
        category_of(*err)
    }
}

impl From<ConfigError> for WsBlastError {
    fn from(err: ConfigError) -> (e: WsBlastError) {
        WsBlastError::Config(err)
    }
}

impl vstd::std_specs::convert::FromSpecImpl<ConfigError> for WsBlastError {
    open spec fn obeys_from_spec() -> bool {
        true
    }

    open spec fn from_spec(err: ConfigError) -> WsBlastError {
        WsBlastError::Config(err)
    }
}

impl From<WorkerError> for WsBlastError {
    fn from(err: WorkerError) -> (e: WsBlastError) {
        WsBlastError::Worker(err)
    }
}

impl vstd::std_specs::convert::FromSpecImpl<WorkerError> for WsBlastError {
    open spec fn obeys_from_spec() -> bool {
        true
    }

    open spec fn from_spec(err: WorkerError) -> WsBlastError {
        WsBlastError::Worker(err)
    }
}

impl From<std::io::Error> for WsBlastError {
    fn from(err: std::io::Error) -> (e: WsBlastError) {
        WsBlastError::Io(err)
    }
}

impl vstd::std_specs::convert::FromSpecImpl<std::io::Error> for WsBlastError {
    open spec fn obeys_from_spec() -> bool {
        true
    }

    open spec fn from_spec(err: std::io::Error) -> WsBlastError {
        WsBlastError::Io(err)
    }
}

impl From<serde_json::Error> for WsBlastError {
    fn from(err: serde_json::Error) -> (e: WsBlastError) {
        WsBlastError::Serialization(err)
    }
}

impl vstd::std_specs::convert::FromSpecImpl<serde_json::Error> for WsBlastError {
    open spec fn obeys_from_spec() -> bool {
        true
    }

    open spec fn from_spec(err: serde_json::Error) -> WsBlastError {
        WsBlastError::Serialization(err)
    }
}

} // verus!
