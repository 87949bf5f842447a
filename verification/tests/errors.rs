use pactience::error::Error;

#[test]
fn error_messages_read_like_sentences() {
    assert_eq!(
        Error::config("/c.toml", "bad").message(),
        "configuration error in /c.toml: bad"
    );
    assert_eq!(Error::command("git log", "nope").message(), "failed to run `git log`: nope");
    assert_eq!(
        Error::CommandStatus {
            command: "git clone --bare u".to_string(),
            status: "Some(128)".to_string(),
            stderr: "fatal".to_string()
        }
        .message(),
        "`git clone --bare u` exited with Some(128): fatal"
    );
    assert_eq!(
        Error::http("https://x", "timeout").message(),
        "network request to https://x failed: timeout"
    );
    assert_eq!(Error::parse("package name", "bad").message(), "failed to parse package name: bad");
    assert_eq!(Error::io("/p", "denied").message(), "I/O error on /p: denied");
    assert_eq!(Error::Cache("full".to_string()).message(), "cache error: full");
}
