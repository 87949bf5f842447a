//! Leveled diagnostics for stderr.
//!
//! Diagnostics (warnings, progress, debug detail) go to stderr so stdout
//! stays reserved for the report itself (table or JSON). The report is never
//! affected by the chosen verbosity. The logger collects the text to write;
//! the program hands it to stderr.

use vstd::prelude::*;

use crate::cli::Cli;
use crate::text::{push_str, string_of};

verus! {

/// Diagnostic severity. Ordered: a lower level is more severe.
#[derive(Debug, Clone, Copy, PartialEq, Eq, Structural)]
pub enum Level {
    /// Always shown, even with `--quiet`.
    Error,
    /// Default level: degraded-operation warnings.
    Warn,
    /// `-v`: one line per action (discovery counts, per-package resolution,
    /// policy summary, ...).
    Info,
    /// `-vv`: internal detail (cache hits, URLs, requirement classification,
    /// per-candidate verdicts).
    Debug,
}

impl Level {
    /// Severity rank: 0 for `Error` up to 3 for `Debug`.
    pub open spec fn rank(self) -> int {
        match self {
            Level::Error => 0,
            Level::Warn => 1,
            Level::Info => 2,
            Level::Debug => 3,
        }
    }

    fn rank_exec(self) -> (r: u8)
        ensures
            r == self.rank(),
    {
        match self {
            Level::Error => 0,
            Level::Warn => 1,
            Level::Info => 2,
            Level::Debug => 3,
        }
    }
}

/// Erases a progress-bar line so a diagnostic prints on a clean line.
pub open spec fn clear_line() -> Seq<char> {
    seq!['\r', '\x1b', '[', '2', 'K']
}

pub struct Logger {
    level: Level,
    /// Set while a progress-bar line is on the terminal; diagnostics erase
    /// it before printing so the bar can be redrawn cleanly afterwards.
    progress_active: bool,
    /// Text not yet handed to stderr.
    pending: String,
}

/// The level a command line selects: `--quiet` shows errors only, each `-v`
/// one level more, from warnings up to debug detail.
pub open spec fn cli_level(quiet: bool, verbose: u8) -> Level {
    if quiet {
        Level::Error
    } else if verbose == 0 {
        Level::Warn
    } else if verbose == 1 {
        Level::Info
    } else {
        Level::Debug
    }
}

impl Logger {
    pub closed spec fn level_spec(&self) -> Level {
        self.level
    }

    /// Whether a progress-bar line is currently on the terminal.
    pub closed spec fn progress_spec(&self) -> bool {
        self.progress_active
    }

    /// The text written since it was last taken.
    pub closed spec fn written(&self) -> Seq<char> {
        self.pending@
    }

    /// Whether diagnostics of `level` are shown.
    pub open spec fn shows(&self, level: Level) -> bool {
        level.rank() <= self.level_spec().rank()
    }

    /// The text a diagnostic with `label` adds when it is shown.
    pub open spec fn line_text(&self, label: Seq<char>, message: Seq<char>) -> Seq<char> {
        (if self.progress_spec() {
            clear_line()
        } else {
            seq![]
        }) + label + ": "@ + message + "\n"@
    }

    pub fn new(level: Level) -> (r: Self)
        ensures
            r.level_spec() == level,
            !r.progress_spec(),
            r.written() == Seq::<char>::empty(),
    {
        Logger { level, progress_active: false, pending: String::new() }
    }

    /// The logger a command line asks for.
    pub fn from_cli(cli: &Cli) -> (r: Self)
        ensures
            r.level_spec() == cli_level(cli.quiet, cli.verbose),
            !r.progress_spec(),
            r.written() == Seq::<char>::empty(),
    {
        let level = if cli.quiet {
            Level::Error
        } else if cli.verbose == 0 {
            Level::Warn
        } else if cli.verbose == 1 {
            Level::Info
        } else {
            Level::Debug
        };
        Logger::new(level)
    }

    /// Is `level` currently enabled?
    pub fn enabled(&self, level: Level) -> (r: bool)
        ensures
            r == self.shows(level),
    {
        level.rank_exec() <= self.level.rank_exec()
    }

    /// Is the default-visible notice level enabled? Only the quiet mapping
    /// (`Level::Error`) disables it.
    pub fn notice_enabled(&self) -> (r: bool)
        ensures
            r == (self.level_spec() != Level::Error),
    {
        self.level != Level::Error
    }

    fn emit(&mut self, shown: bool, label: &str, message: &str)
        ensures
            final(self).level_spec() == old(self).level_spec(),
            final(self).progress_spec() == old(self).progress_spec(),
            final(self).written() == old(self).written() + (if shown {
                old(self).line_text(label@, message@)
            } else {
                seq![]
            }),
    {
        if shown {
            if self.progress_active {
                push_str(&mut self.pending, "\r\x1b[2K");
                assert("\r\x1b[2K"@ == clear_line()) by {
                    reveal_strlit("\r\x1b[2K");
                }
            }
            push_str(&mut self.pending, label);
            push_str(&mut self.pending, ": ");
            push_str(&mut self.pending, message);
            push_str(&mut self.pending, "\n");
        }
    }

    pub fn error(&mut self, message: &str)
        ensures
            final(self).level_spec() == old(self).level_spec(),
            final(self).progress_spec() == old(self).progress_spec(),
            final(self).written() == old(self).written() + old(self).line_text("error"@, message@),
    {
        let shown = self.enabled(Level::Error);
        self.emit(shown, "error", message);
    }

    /// Progress notice shown by default; only `--quiet` suppresses it. Used
    /// for the few lines a user should always see (e.g. the startup "checking
    /// N packages" summary before potentially slow network lookups).
    pub fn notice(&mut self, message: &str)
        ensures
            final(self).level_spec() == old(self).level_spec(),
            final(self).progress_spec() == old(self).progress_spec(),
            final(self).written() == old(self).written() + (if old(self).level_spec()
                != Level::Error {
                old(self).line_text("info"@, message@)
            } else {
                seq![]
            }),
    {
        let shown = self.notice_enabled();
        self.emit(shown, "info", message);
    }

    pub fn warn(&mut self, message: &str)
        ensures
            final(self).level_spec() == old(self).level_spec(),
            final(self).progress_spec() == old(self).progress_spec(),
            final(self).written() == old(self).written() + (if old(self).shows(Level::Warn) {
                old(self).line_text("warning"@, message@)
            } else {
                seq![]
            }),
    {
        let shown = self.enabled(Level::Warn);
        self.emit(shown, "warning", message);
    }

    pub fn info(&mut self, message: &str)
        ensures
            final(self).level_spec() == old(self).level_spec(),
            final(self).progress_spec() == old(self).progress_spec(),
            final(self).written() == old(self).written() + (if old(self).shows(Level::Info) {
                old(self).line_text("info"@, message@)
            } else {
                seq![]
            }),
    {
        let shown = self.enabled(Level::Info);
        self.emit(shown, "info", message);
    }

    pub fn debug(&mut self, message: &str)
        ensures
            final(self).level_spec() == old(self).level_spec(),
            final(self).progress_spec() == old(self).progress_spec(),
            final(self).written() == old(self).written() + (if old(self).shows(Level::Debug) {
                old(self).line_text("debug"@, message@)
            } else {
                seq![]
            }),
    {
        let shown = self.enabled(Level::Debug);
        self.emit(shown, "debug", message);
    }

    /// Write `text` as it is (progress-bar drawing).
    pub fn write_raw(&mut self, text: &str)
        ensures
            final(self).level_spec() == old(self).level_spec(),
            final(self).progress_spec() == old(self).progress_spec(),
            final(self).written() == old(self).written() + text@,
    {
        push_str(&mut self.pending, text);
    }

    /// Mark that a progress-bar line is currently on the terminal (or gone).
    pub fn set_progress_active(&mut self, active: bool)
        ensures
            final(self).level_spec() == old(self).level_spec(),
            final(self).progress_spec() == active,
            final(self).written() == old(self).written(),
    {
        self.progress_active = active;
    }

    /// Hand over the text written so far; the logger starts afresh.
    pub fn take_output(&mut self) -> (r: String)
        ensures
            r@ == old(self).written(),
            final(self).written() == Seq::<char>::empty(),
            final(self).level_spec() == old(self).level_spec(),
            final(self).progress_spec() == old(self).progress_spec(),
    {
        let out = string_of(self.pending.as_str());
        self.pending = String::new();
        out
    }
}

} // verus!
