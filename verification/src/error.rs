//! Central error type: every fallible operation funnels into it so the
//! program can render a single, actionable message.

use vstd::prelude::*;

use crate::text::{push_str, string_of};

verus! {

/// All fallible operations in `pactience` produce one of these.
#[derive(Debug, Clone, PartialEq, Eq)]
pub enum Error {
    Config { path: String, message: String },
    Command { command: String, message: String },
    CommandStatus { command: String, status: String, stderr: String },
    Http { url: String, message: String },
    Parse { what: String, message: String },
    /// An operating-system I/O failure on `path`, described by `message`.
    Io { path: String, message: String },
    Cache(String),
}

pub type Result<T> = std::result::Result<T, Error>;

impl Error {
    /// The message shown to the user (the error's `Display`).
    pub open spec fn text(self) -> Seq<char> {
        match self {
            Error::Config { path, message } => "configuration error in "@ + path@ + ": "@
                + message@,
            Error::Command { command, message } => "failed to run `"@ + command@ + "`: "@
                + message@,
            Error::CommandStatus { command, status, stderr } => "`"@ + command@ + "` exited with "@
                + status@ + ": "@ + stderr@,
            Error::Http { url, message } => "network request to "@ + url@ + " failed: "@
                + message@,
            Error::Parse { what, message } => "failed to parse "@ + what@ + ": "@ + message@,
            Error::Io { path, message } => "I/O error on "@ + path@ + ": "@ + message@,
            Error::Cache(message) => "cache error: "@ + message@,
        }
    }

    pub fn config(path: &str, message: &str) -> (e: Error)
        ensures
            e matches Error::Config { path: p, message: m } && p@ == path@ && m@ == message@,
    {
        Error::Config { path: string_of(path), message: string_of(message) }
    }

    pub fn command(command: &str, message: &str) -> (e: Error)
        ensures
            e matches Error::Command { command: c, message: m } && c@ == command@ && m@
                == message@,
    {
        Error::Command { command: string_of(command), message: string_of(message) }
    }

    pub fn http(url: &str, message: &str) -> (e: Error)
        ensures
            e matches Error::Http { url: u, message: m } && u@ == url@ && m@ == message@,
    {
        Error::Http { url: string_of(url), message: string_of(message) }
    }

    pub fn parse(what: &str, message: &str) -> (e: Error)
        ensures
            e matches Error::Parse { what: w, message: m } && w@ == what@ && m@ == message@,
    {
        Error::Parse { what: string_of(what), message: string_of(message) }
    }

    pub fn io(path: &str, message: &str) -> (e: Error)
        ensures
            e matches Error::Io { path: p, message: m } && p@ == path@ && m@ == message@,
    {
        Error::Io { path: string_of(path), message: string_of(message) }
    }

    /// The message shown to the user.
    pub fn message(&self) -> (r: String)
        ensures
            r@ == self.text(),
    {
        let mut s = String::new();
        match self {
            Error::Config { path, message } => {
                push_str(&mut s, "configuration error in ");
                push_str(&mut s, path.as_str());
                push_str(&mut s, ": ");
                push_str(&mut s, message.as_str());
            },
            Error::Command { command, message } => {
                push_str(&mut s, "failed to run `");
                push_str(&mut s, command.as_str());
                push_str(&mut s, "`: ");
                push_str(&mut s, message.as_str());
            },
            Error::CommandStatus { command, status, stderr } => {
                push_str(&mut s, "`");
                push_str(&mut s, command.as_str());
                push_str(&mut s, "` exited with ");
                push_str(&mut s, status.as_str());
                push_str(&mut s, ": ");
                push_str(&mut s, stderr.as_str());
            },
            Error::Http { url, message } => {
                push_str(&mut s, "network request to ");
                push_str(&mut s, url.as_str());
                push_str(&mut s, " failed: ");
                push_str(&mut s, message.as_str());
            },
            Error::Parse { what, message } => {
                push_str(&mut s, "failed to parse ");
                push_str(&mut s, what.as_str());
                push_str(&mut s, ": ");
                push_str(&mut s, message.as_str());
            },
            Error::Io { path, message } => {
                push_str(&mut s, "I/O error on ");
                push_str(&mut s, path.as_str());
                push_str(&mut s, ": ");
                push_str(&mut s, message.as_str());
            },
            Error::Cache(message) => {
                push_str(&mut s, "cache error: ");
                push_str(&mut s, message.as_str());
            },
        }
        s
    }
}

} // verus!
