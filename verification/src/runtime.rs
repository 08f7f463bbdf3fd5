//! Runtime errors and daemon status, with the messages the program prints for them.
use vstd::prelude::*;

use crate::text::{decimal, decimal_string};

verus! {

/// Why a runtime operation failed.
#[derive(Debug, Clone, PartialEq, Eq)]
pub enum RuntimeError {
    ReadLocalPublicKey(String),
    BindHttp(String),
    BindUdp(String),
    ParseListenAddress(String),
    BuildAnnouncement,
    ParseEnvelope,
    HttpRequest,
    VerifyOrParseResponse,
    WriteAuthorizedKeys(String),
    ControlFile(String),
    RuntimeDirectory(String),
    MissingHomeDir,
    KillProcess(u32),
}

pub enum RuntimeErrorView {
    ReadLocalPublicKey(Seq<char>),
    BindHttp(Seq<char>),
    BindUdp(Seq<char>),
    ParseListenAddress(Seq<char>),
    BuildAnnouncement,
    ParseEnvelope,
    HttpRequest,
    VerifyOrParseResponse,
    WriteAuthorizedKeys(Seq<char>),
    ControlFile(Seq<char>),
    RuntimeDirectory(Seq<char>),
    MissingHomeDir,
    KillProcess(u32),
}

impl View for RuntimeError {
    type V = RuntimeErrorView;

    open spec fn view(&self) -> RuntimeErrorView {
        match self {
            RuntimeError::ReadLocalPublicKey(s) => RuntimeErrorView::ReadLocalPublicKey(s@),
            RuntimeError::BindHttp(s) => RuntimeErrorView::BindHttp(s@),
            RuntimeError::BindUdp(s) => RuntimeErrorView::BindUdp(s@),
            RuntimeError::ParseListenAddress(s) => RuntimeErrorView::ParseListenAddress(s@),
            RuntimeError::BuildAnnouncement => RuntimeErrorView::BuildAnnouncement,
            RuntimeError::ParseEnvelope => RuntimeErrorView::ParseEnvelope,
            RuntimeError::HttpRequest => RuntimeErrorView::HttpRequest,
            RuntimeError::VerifyOrParseResponse => RuntimeErrorView::VerifyOrParseResponse,
            RuntimeError::WriteAuthorizedKeys(s) => RuntimeErrorView::WriteAuthorizedKeys(s@),
            RuntimeError::ControlFile(s) => RuntimeErrorView::ControlFile(s@),
            RuntimeError::RuntimeDirectory(s) => RuntimeErrorView::RuntimeDirectory(s@),
            RuntimeError::MissingHomeDir => RuntimeErrorView::MissingHomeDir,
            RuntimeError::KillProcess(p) => RuntimeErrorView::KillProcess(*p),
        }
    }
}

/// The message that each runtime error is reported with.
pub open spec fn runtime_error_message(e: RuntimeErrorView) -> Seq<char> {
    match e {
        RuntimeErrorView::ReadLocalPublicKey(p) => "Failed to read local public key from "@ + p,
        RuntimeErrorView::BindHttp(a) => "Failed to bind HTTP listener at "@ + a,
        RuntimeErrorView::BindUdp(a) => "Failed to bind UDP socket at "@ + a,
        RuntimeErrorView::ParseListenAddress(a) => "Invalid listen address: "@ + a,
        RuntimeErrorView::BuildAnnouncement => "Failed to build startup announcement"@,
        RuntimeErrorView::ParseEnvelope => "Failed to parse signed envelope"@,
        RuntimeErrorView::HttpRequest => "Failed to perform HTTP key request"@,
        RuntimeErrorView::VerifyOrParseResponse => "Failed to verify or parse response"@,
        RuntimeErrorView::WriteAuthorizedKeys(p) => "Failed to write authorized_keys at "@ + p,
        RuntimeErrorView::ControlFile(p) => "Failed to access control file at "@ + p,
        RuntimeErrorView::RuntimeDirectory(p) => "Failed to prepare runtime directory at "@ + p,
        RuntimeErrorView::MissingHomeDir => "Cannot resolve runtime directory: set XDG_RUNTIME_DIR or HOME"@,
        RuntimeErrorView::KillProcess(pid) => "Failed to terminate process with pid "@ + decimal(pid as nat),
    }
}

fn prefixed(prefix: &str, rest: &str) -> (r: String)
    ensures
        r@ == prefix@ + rest@,
{
    let mut r = prefix.to_owned();
    r.append(rest);
    r
}

impl RuntimeError {
    /// The error's message, as the program prints it.
    pub fn to_message(&self) -> (r: String)
        ensures
            r@ == runtime_error_message(self@),
    {
        match self {
            RuntimeError::ReadLocalPublicKey(p) => prefixed("Failed to read local public key from ", p.as_str()),
            RuntimeError::BindHttp(a) => prefixed("Failed to bind HTTP listener at ", a.as_str()),
            RuntimeError::BindUdp(a) => prefixed("Failed to bind UDP socket at ", a.as_str()),
            RuntimeError::ParseListenAddress(a) => prefixed("Invalid listen address: ", a.as_str()),
            RuntimeError::BuildAnnouncement => "Failed to build startup announcement".to_owned(),
            RuntimeError::ParseEnvelope => "Failed to parse signed envelope".to_owned(),
            RuntimeError::HttpRequest => "Failed to perform HTTP key request".to_owned(),
            RuntimeError::VerifyOrParseResponse => "Failed to verify or parse response".to_owned(),
            RuntimeError::WriteAuthorizedKeys(p) => prefixed("Failed to write authorized_keys at ", p.as_str()),
            RuntimeError::ControlFile(p) => prefixed("Failed to access control file at ", p.as_str()),
            RuntimeError::RuntimeDirectory(p) => prefixed("Failed to prepare runtime directory at ", p.as_str()),
            RuntimeError::MissingHomeDir => "Cannot resolve runtime directory: set XDG_RUNTIME_DIR or HOME".to_owned(),
            RuntimeError::KillProcess(pid) => {
                let digits = decimal_string(*pid as u128);
                prefixed("Failed to terminate process with pid ", digits.as_str())
            },
        }
    }
}

/// Whether the daemon of a group runs, judged by its pid file.
#[derive(Debug, Clone, PartialEq, Eq, Structural)]
pub enum DaemonStatus {
    Running { pid: u32 },
    Stopped,
    StalePidFile { pid: u32 },
}

} // verus!
