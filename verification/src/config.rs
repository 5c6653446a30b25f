//! What a server is started with.

use vstd::prelude::*;
use crate::json_tokens::is_text;
use crate::reader::ascii;

verus! {

/// The port a server listens on unless told otherwise.
pub const DEFAULT_PORT: u16 = 8080;

/// How much a server logs.
#[derive(Clone, Copy, Debug, PartialEq, Eq, Structural)]
pub enum LogLevel {
    Trace,
    Debug,
    Info,
    Warn,
    Error,
}

/// The level that a word names, in upper case.
pub open spec fn level_of(word: Seq<u8>) -> Option<LogLevel> {
    if word == ascii("TRACE"@) {
        Some(LogLevel::Trace)
    } else if word == ascii("DEBUG"@) {
        Some(LogLevel::Debug)
    } else if word == ascii("INFO"@) {
        Some(LogLevel::Info)
    } else if word == ascii("WARN"@) {
        Some(LogLevel::Warn)
    } else if word == ascii("ERROR"@) {
        Some(LogLevel::Error)
    } else {
        None
    }
}

impl LogLevel {
    /// The level that a word names: one of `TRACE`, `DEBUG`, `INFO`, `WARN`
    /// and `ERROR`.
    pub fn parse(word: &str) -> (r: Option<LogLevel>)
        ensures
            r == level_of(vstd::utf8::encode_utf8(word@)),
    {
        proof {
            reveal_strlit("TRACE");
            reveal_strlit("DEBUG");
            reveal_strlit("INFO");
            reveal_strlit("WARN");
            reveal_strlit("ERROR");
        }
        let bytes = word.as_bytes();
        if is_text(bytes, "TRACE") {
            Some(LogLevel::Trace)
        } else if is_text(bytes, "DEBUG") {
            Some(LogLevel::Debug)
        } else if is_text(bytes, "INFO") {
            Some(LogLevel::Info)
        } else if is_text(bytes, "WARN") {
            Some(LogLevel::Warn)
        } else if is_text(bytes, "ERROR") {
            Some(LogLevel::Error)
        } else {
            None
        }
    }
}

/// Why a server could not start.
#[derive(Debug)]
pub enum LamarrsServerError {
    /// An argument is not what it should be.
    ServerConfig { err_desc: String },
    /// The address could not be listened on.
    TcpListener,
    /// A text is not UTF-8.
    FromUtf8,
}

/// The arguments of a server.
#[derive(Debug)]
pub struct Args {
    /// How much to log.
    pub log_level: LogLevel,
    /// The host name or address to listen on.
    pub server_ip: String,
    /// The port to listen on.
    pub port: u16,
    /// Where the timeline of the show is.
    pub sequence_path: String,
}

impl Args {
    /// The arguments as given on a command line: refused where the log level
    /// is none of the five.
    pub fn configured(
        log_level: &str,
        server_ip: String,
        port: u16,
        sequence_path: String,
    ) -> (r: Result<Args, LamarrsServerError>)
        ensures
            match level_of(vstd::utf8::encode_utf8(log_level@)) {
                Some(level) => r matches Ok(a) && a.log_level == level && a.server_ip
                    == server_ip && a.port == port && a.sequence_path == sequence_path,
                None => r matches Err(LamarrsServerError::ServerConfig { err_desc })
                    && err_desc@ == log_level@,
            },
    {
        match LogLevel::parse(log_level) {
            Some(level) => Ok(Args { log_level: level, server_ip, port, sequence_path }),
            None => Err(LamarrsServerError::ServerConfig { err_desc: log_level.to_owned() }),
        }
    }

    /// The arguments with their defaults: logging at `INFO`, port 8080.
    pub fn new(server_ip: String, sequence_path: String) -> (a: Args)
        ensures
            a.log_level == LogLevel::Info,
            a.port == 8080,
            a.server_ip == server_ip,
            a.sequence_path == sequence_path,
    {
        Args { log_level: LogLevel::Info, server_ip, port: DEFAULT_PORT, sequence_path }
    }
}

} // verus!
