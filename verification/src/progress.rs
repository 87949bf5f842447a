//! A minimal stderr progress bar for potentially slow passes.
//!
//! The bar is a convenience for interactive runs only: it activates solely
//! on a terminal at the default verbosity. `-v`/`-vv` already log one line
//! per item and `--quiet` suppresses everything but errors, so the bar
//! stays off in both cases. It writes only to stderr, keeping the table
//! and JSON reports on stdout untouched.

use vstd::prelude::*;

use crate::logging::{clear_line, Level, Logger};
use crate::text::{chars_of, decimal, push_char, push_str, push_u64, str_eq};

verus! {

/// Width of the bar itself, in characters.
pub const BAR_WIDTH: usize = 30;

/// Longest item label shown after the counts, to keep the line short.
pub const LABEL_MAX: usize = 40;

/// A redraw-in-place progress bar. All methods are no-ops when inactive.
pub struct Progress {
    total: usize,
    current: usize,
    active: bool,
}

/// The bar is redundant with `-v` per-item lines and forbidden by `--quiet`.
pub open spec fn verbosity_allows(log: Logger) -> bool {
    log.shows(Level::Warn) && !log.shows(Level::Info)
}

/// The bar is redundant with `-v` per-item lines and forbidden by `--quiet`.
pub fn enabled_by_verbosity(log: &Logger) -> (r: bool)
    ensures
        r == verbosity_allows(*log),
{
    log.enabled(Level::Warn) && !log.enabled(Level::Info)
}

/// `n` copies of `c`.
pub open spec fn repeated(c: char, n: nat) -> Seq<char> {
    Seq::new(n, |i: int| c)
}

/// How many of the bar's cells are filled for `current` of `total` steps.
pub open spec fn filled_cells(current: nat, total: nat) -> nat {
    if total == 0 {
        30
    } else {
        (current * 30 / total) as nat
    }
}

/// One bar line: `[###----] 3/10 package-name`, the count clamped to the
/// total and the label cut to 40 characters.
pub open spec fn bar_line(current: nat, total: nat, label: Seq<char>) -> Seq<char> {
    let c = if current < total {
        current
    } else {
        total
    };
    let filled = filled_cells(c, total);
    "["@ + repeated('#', filled) + repeated('-', (30 - filled) as nat) + "] "@ + decimal(c) + "/"@
        + decimal(total) + " "@ + label.take(
        if label.len() < 40 {
            label.len() as int
        } else {
            40
        },
    )
}

fn push_repeated(s: &mut String, c: char, n: usize)
    ensures
        final(s)@ == old(s)@ + repeated(c, n as nat),
{
    let ghost start = s@;
    for i in 0..n
        invariant
            s@ == start + repeated(c, i as nat),
    {
        push_char(s, c);
        assert(repeated(c, (i + 1) as nat) =~= repeated(c, i as nat).push(c));
    }
}

/// One bar line: `[###----] 3/10 package-name`.
pub fn render(current: usize, total: usize, label: &str) -> (r: String)
    requires
        total * 30 <= usize::MAX,
    ensures
        r@ == bar_line(current as nat, total as nat, label@),
{
    let current = if current < total {
        current
    } else {
        total
    };
    let filled: usize = if total == 0 {
        BAR_WIDTH
    } else {
        proof {
            assert(current * 30 <= total * 30) by (nonlinear_arith)
                requires
                    current <= total,
            ;
            assert((current * 30) as int / total as int <= 30) by (nonlinear_arith)
                requires
                    current <= total,
                    total > 0,
            ;
        }
        current * BAR_WIDTH / total
    };
    let mut s = String::new();
    push_str(&mut s, "[");
    push_repeated(&mut s, '#', filled);
    push_repeated(&mut s, '-', BAR_WIDTH - filled);
    push_str(&mut s, "] ");
    push_u64(&mut s, current as u64);
    push_str(&mut s, "/");
    push_u64(&mut s, total as u64);
    push_str(&mut s, " ");
    let chars = chars_of(label);
    let keep = if chars.len() < LABEL_MAX {
        chars.len()
    } else {
        LABEL_MAX
    };
    let ghost before = s@;
    for i in 0..keep
        invariant
            keep <= chars@.len(),
            chars@ == label@,
            s@ == before + label@.take(i as int),
    {
        push_char(&mut s, chars[i]);
        assert(label@.take(i + 1) == label@.take(i as int).push(label@[i as int]));
    }
    s
}

impl Progress {
    pub closed spec fn is_active_spec(&self) -> bool {
        self.active
    }

    pub closed spec fn total_spec(&self) -> nat {
        self.total as nat
    }

    pub closed spec fn current_spec(&self) -> nat {
        self.current as nat
    }

    /// Start a bar for `total` steps. Inactive (silent) unless stderr is a
    /// terminal, the terminal (`term`, the `TERM` setting) is not `dumb`, and
    /// the verbosity would not already narrate each step.
    pub fn start_on(total: usize, log: &Logger, stderr_is_terminal: bool, term: Option<&str>) -> (r:
        Self)
        ensures
            r.is_active_spec() == (total > 0 && verbosity_allows(*log) && stderr_is_terminal
                && !(term matches Some(t) && t@ == "dumb"@)),
            r.total_spec() == total,
            r.current_spec() == 0,
    {
        let dumb = match term {
            Some(t) => str_eq(t, "dumb"),
            None => false,
        };
        let active = total > 0 && enabled_by_verbosity(log) && stderr_is_terminal && !dumb;
        Progress { total, current: 0, active }
    }

    /// Whether the bar draws anything.
    pub fn is_active(&self) -> (r: bool)
        ensures
            r == self.is_active_spec(),
    {
        self.active
    }

    /// Advance one step, naming the item currently being processed.
    pub fn advance(&mut self, log: &mut Logger, label: &str)
        requires
            old(self).total_spec() * 30 <= usize::MAX,
            old(self).current_spec() < usize::MAX,
        ensures
            final(self).is_active_spec() == old(self).is_active_spec(),
            final(self).total_spec() == old(self).total_spec(),
            final(log).level_spec() == old(log).level_spec(),
            old(self).is_active_spec() ==> {
                &&& final(self).current_spec() == old(self).current_spec() + 1
                &&& final(log).written() == old(log).written() + clear_line() + bar_line(
                    old(self).current_spec() + 1,
                    old(self).total_spec(),
                    label@,
                )
                &&& final(log).progress_spec()
            },
            !old(self).is_active_spec() ==> final(self).current_spec() == old(self).current_spec()
                && final(log).written() == old(log).written() && final(log).progress_spec()
                == old(log).progress_spec(),
    {
        if !self.active {
            return;
        }
        self.current = self.current + 1;
        let line = render(self.current, self.total, label);
        log.write_raw("\r\x1b[2K");
        assert("\r\x1b[2K"@ == clear_line()) by {
            reveal_strlit("\r\x1b[2K");
        }
        log.write_raw(line.as_str());
        log.set_progress_active(true);
    }

    /// Erase the bar line. Consumes the bar so it cannot linger.
    pub fn finish(self, log: &mut Logger)
        ensures
            final(log).level_spec() == old(log).level_spec(),
            self.is_active_spec() ==> final(log).written() == old(log).written() + clear_line()
                && !final(log).progress_spec(),
            !self.is_active_spec() ==> final(log).written() == old(log).written()
                && final(log).progress_spec() == old(log).progress_spec(),
    {
        if self.active {
            log.write_raw("\r\x1b[2K");
            assert("\r\x1b[2K"@ == clear_line()) by {
                reveal_strlit("\r\x1b[2K");
            }
            log.set_progress_active(false);
        }
    }
}

} // verus!
