use vstd::prelude::*;

verus! {

/// What a write call reports to its caller. The error variants signal a
/// request that could not be taken (bad input, no writer), never a network
/// failure.
#[derive(Clone, Copy, Debug, PartialEq, Eq, Structural)]
pub enum SendResult {
    MaybeSent,
    Sent,
    ExcelErrorNull,
    ExcelErrorDiv0,
    ExcelErrorValue,
    ExcelErrorRef,
    ExcelErrorName,
    ExcelErrorNum,
    ExcelErrorNA,
    ExcelErrorGettingData,
}

impl SendResult {
    /// The numeric code under which the host sees this result.
    pub open spec fn code_spec(self) -> int {
        match self {
            SendResult::MaybeSent => -2,
            SendResult::Sent => -1,
            SendResult::ExcelErrorNull => 0,
            SendResult::ExcelErrorDiv0 => 7,
            SendResult::ExcelErrorValue => 15,
            SendResult::ExcelErrorRef => 23,
            SendResult::ExcelErrorName => 29,
            SendResult::ExcelErrorNum => 36,
            SendResult::ExcelErrorNA => 42,
            SendResult::ExcelErrorGettingData => 43,
        }
    }

    pub fn code(&self) -> (r: i16)
        ensures
            r == self.code_spec(),
    {
        match self {
            SendResult::MaybeSent => -2,
            SendResult::Sent => -1,
            SendResult::ExcelErrorNull => 0,
            SendResult::ExcelErrorDiv0 => 7,
            SendResult::ExcelErrorValue => 15,
            SendResult::ExcelErrorRef => 23,
            SendResult::ExcelErrorName => 29,
            SendResult::ExcelErrorNum => 36,
            SendResult::ExcelErrorNA => 42,
            SendResult::ExcelErrorGettingData => 43,
        }
    }
}

/// The two ways a write is carried out: best effort (one attempt, no retry)
/// or reliable (acknowledged, retried until delivered or superseded).
#[derive(Clone, Copy, Debug, PartialEq, Eq, Structural)]
pub enum RequestType {
    Async,
    Retry,
}

/// How the network session authenticates.
#[derive(Clone, Copy, Debug, PartialEq, Eq, Structural)]
pub enum Auth {
    Anonymous,
    Kerberos,
    Tls,
}

/// The most verbose kind of log record that is kept.
#[derive(Clone, Copy, Debug, PartialEq, Eq, Structural)]
pub enum LogLevel {
    Off,
    Error,
    Warn,
    Info,
    Debug,
    Trace,
}

/// Settings of a writer instance.
#[derive(Clone, Copy, Debug, PartialEq, Eq, Structural)]
pub struct Config {
    pub log_level: LogLevel,
    pub auth_mechanism: Option<Auth>,
}

impl Default for Config {
    /// No logging, and the session's own choice of authentication.
    fn default() -> (r: Config)
        ensures
            r == (Config { log_level: LogLevel::Off, auth_mechanism: None }),
    {
        Config { log_level: LogLevel::Off, auth_mechanism: None }
    }
}

} // verus!
