use pactience::cli::Cli;
use pactience::logging::{Level, Logger};
use pactience::progress::{enabled_by_verbosity, render, Progress};

fn cli(quiet: bool, verbose: u8) -> Cli {
    Cli {
        quiet,
        verbose,
        ..Cli::default()
    }
}

fn logger(quiet: bool, verbose: u8) -> Logger {
    Logger::from_cli(&cli(quiet, verbose))
}

#[test]
fn default_level_is_warn() {
    let log = logger(false, 0);
    assert!(log.enabled(Level::Error));
    assert!(log.enabled(Level::Warn));
    assert!(!log.enabled(Level::Info));
    assert!(!log.enabled(Level::Debug));
}

#[test]
fn quiet_shows_only_errors() {
    let log = logger(true, 0);
    assert!(log.enabled(Level::Error));
    assert!(!log.enabled(Level::Warn));
    assert!(!log.enabled(Level::Info));
}

#[test]
fn verbose_levels() {
    let log = logger(false, 1);
    assert!(log.enabled(Level::Info));
    assert!(!log.enabled(Level::Debug));

    let log = logger(false, 2);
    assert!(log.enabled(Level::Debug));

    // Repetition beyond two stays at debug.
    let log = logger(false, 4);
    assert!(log.enabled(Level::Debug));
}

#[test]
fn notice_shown_by_default_hidden_by_quiet() {
    assert!(logger(false, 0).notice_enabled());
    assert!(logger(false, 1).notice_enabled());
    assert!(logger(false, 2).notice_enabled());
    assert!(!logger(true, 0).notice_enabled());
}

#[test]
fn diagnostics_are_collected_with_labels() {
    let mut log = logger(false, 0);
    log.warn("disk almost full");
    log.info("hidden at default verbosity");
    log.error("boom");
    log.notice("checking 3 package(s)");
    assert_eq!(
        log.take_output(),
        "warning: disk almost full\nerror: boom\ninfo: checking 3 package(s)\n"
    );
    assert_eq!(log.take_output(), "");
}

#[test]
fn diagnostics_clear_an_active_progress_line() {
    let mut log = logger(false, 0);
    log.set_progress_active(true);
    log.warn("w");
    assert_eq!(log.take_output(), "\r\x1b[2Kwarning: w\n");
}

#[test]
fn verbosity_gating() {
    assert!(enabled_by_verbosity(&logger(false, 0)));
    assert!(!enabled_by_verbosity(&logger(true, 0)));
    assert!(!enabled_by_verbosity(&logger(false, 1)));
    assert!(!enabled_by_verbosity(&logger(false, 2)));
}

#[test]
fn render_proportions() {
    assert_eq!(render(0, 4, "a"), format!("[{}] 0/4 a", "-".repeat(30)));
    assert_eq!(
        render(2, 4, "b"),
        format!("[{}{}] 2/4 b", "#".repeat(15), "-".repeat(15))
    );
    assert!(render(4, 4, "c").starts_with(&format!("[{}]", "#".repeat(30))));
    // Out-of-range input is clamped instead of panicking.
    assert!(render(9, 4, "c").contains("4/4"));
}

#[test]
fn render_truncates_long_labels() {
    let line = render(1, 2, &"x".repeat(100));
    assert_eq!(
        line,
        format!(
            "[{}] 1/2 {}",
            "#".repeat(15) + &"-".repeat(15),
            "x".repeat(40)
        )
    );
}

#[test]
fn inactive_without_terminal() {
    // The terminal flag is passed explicitly so the result does not depend
    // on where the tests run.
    let mut log = logger(false, 0);
    let mut progress = Progress::start_on(3, &log, false, None);
    assert!(!progress.is_active());
    // Inactive bars are silent no-ops.
    progress.advance(&mut log, "pkg");
    progress.finish(&mut log);
    assert_eq!(log.take_output(), "");
}

#[test]
fn active_bar_draws_and_erases() {
    let mut log = logger(false, 0);
    let mut progress = Progress::start_on(2, &log, true, Some("xterm"));
    assert!(progress.is_active());
    progress.advance(&mut log, "linux");
    progress.finish(&mut log);
    assert_eq!(
        log.take_output(),
        format!("\r\x1b[2K[{}{}] 1/2 linux\r\x1b[2K", "#".repeat(15), "-".repeat(15))
    );
    assert!(!Progress::start_on(2, &log, true, Some("dumb")).is_active());
    assert!(!Progress::start_on(0, &log, true, None).is_active());
    assert!(!Progress::start_on(2, &logger(false, 1), true, None).is_active());
}

#[test]
fn quiet_conflicts_with_verbose() {
    assert!(cli(true, 1).conflict().is_some());
    assert!(cli(true, 0).conflict().is_none());
    assert!(cli(false, 2).conflict().is_none());
}
