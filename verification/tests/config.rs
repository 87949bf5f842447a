use pactience::cli::Cli;
use pactience::config::{
    has_sources_setting, parse_sources_choice, sources_answer, sources_prompt_text,
    sources_retry_text, with_sources,
    config_with_helper, default_cache_path, default_config_path, detect_aur_helper_with,
    parse_helper_choice, prompt_answer, prompt_text, retry_text, with_min_age, AurHelper, Config, ConfigFile,
    DependencyPolicy, FileConfig, CONFIG_TEMPLATE,
};
use pactience::error::Error;
use pactience::model::PackageSource;

fn cli() -> Cli {
    Cli::default()
}

#[test]
fn defaults_when_file_missing() {
    let config = Config::load("/nonexistent/config.toml", ConfigFile::Missing, &cli()).unwrap();
    assert_eq!(config, Config::default());
    assert_eq!(config.min_age_days, 4);
    assert_eq!(
        config.dependency_policy,
        DependencyPolicy::DependencyRespecting
    );
}

#[test]
fn file_values_are_loaded() {
    let file = FileConfig {
        min_age_days: Some(7),
        always_allow: Some(vec!["linux".to_string()]),
        always_block: Some(vec!["glibc".to_string()]),
        dependency_policy: Some(DependencyPolicy::StrictClosure),
        cache_ttl_secs: Some(3600),
        allow_unknown: Some(true),
        aur_heuristic: Some(true),
        ..FileConfig::default()
    };
    let config = Config::load("/x/config.toml", ConfigFile::Parsed(file), &cli()).unwrap();
    assert_eq!(config.min_age_days, 7);
    assert_eq!(config.always_allow, vec!["linux"]);
    assert_eq!(config.always_block, vec!["glibc"]);
    assert_eq!(config.dependency_policy, DependencyPolicy::StrictClosure);
    assert_eq!(config.cache_ttl_secs, 3600);
    assert!(config.allow_unknown);
    assert!(config.aur_heuristic);
}

#[test]
fn cli_overrides_file() {
    let file = FileConfig {
        min_age_days: Some(7),
        ..FileConfig::default()
    };
    let cli = Cli {
        min_age_days: Some(2),
        ..Cli::default()
    };
    let config = Config::load("/x/config.toml", ConfigFile::Parsed(file), &cli).unwrap();
    assert_eq!(config.min_age_days, 2);
}

#[test]
fn invalid_toml_is_a_config_error() {
    let err = Config::load(
        "/x/config.toml",
        ConfigFile::Invalid("invalid type: string \"four\", expected u32".to_string()),
        &cli(),
    )
    .unwrap_err();
    assert!(matches!(err, Error::Config { .. }));
}

#[test]
fn unreadable_file_is_an_io_error() {
    let err = Config::load("/x/config.toml", ConfigFile::Unreadable("denied".to_string()), &cli())
        .unwrap_err();
    assert_eq!(err, Error::Io { path: "/x/config.toml".to_string(), message: "denied".to_string() });
}

#[test]
fn validation_rejects_large_ages_and_bad_names() {
    let file = FileConfig {
        min_age_days: Some(3651),
        ..FileConfig::default()
    };
    let err = Config::load("/c", ConfigFile::Parsed(file), &cli()).unwrap_err();
    assert_eq!(err.message(), "configuration error in /c: min_age_days=3651 is unreasonably large");
    let file = FileConfig {
        always_block: Some(vec!["ok".to_string(), "bad name".to_string()]),
        ..FileConfig::default()
    };
    let err = Config::load("/c", ConfigFile::Parsed(file), &cli()).unwrap_err();
    assert_eq!(
        err.message(),
        "configuration error in /c: invalid package name in allow/block list: \"bad name\""
    );
    let file = FileConfig {
        min_age_days: Some(3650),
        ..FileConfig::default()
    };
    assert!(Config::load("/c", ConfigFile::Parsed(file), &cli()).is_ok());
}

#[test]
fn template_documents_every_option() {
    for key in [
        "min_age_days",
        "always_allow",
        "always_block",
        "dependency_policy",
        "cache_ttl_secs",
        "allow_unknown",
        "aur_heuristic",
        "aur_git",
        "aur_helper",
    ] {
        assert!(
            CONFIG_TEMPLATE.contains(key),
            "template is missing option {key}"
        );
    }
}

#[test]
fn aur_helper_from_file_cli_and_default() {
    assert_eq!(Config::default().aur_helper, AurHelper::Paru);
    let file = FileConfig {
        aur_helper: Some(AurHelper::Yay),
        ..FileConfig::default()
    };
    let config = Config::load("/c", ConfigFile::Parsed(file.clone()), &cli()).unwrap();
    assert_eq!(config.aur_helper, AurHelper::Yay);
    // CLI wins over the file.
    let cli = Cli {
        aur_helper: Some(AurHelper::Disabled),
        ..Cli::default()
    };
    let config = Config::load("/c", ConfigFile::Parsed(file), &cli).unwrap();
    assert_eq!(config.aur_helper, AurHelper::Disabled);
}

#[test]
fn sources_from_file_and_cli() {
    assert_eq!(Config::default().sources, vec![PackageSource::Repo, PackageSource::Aur]);
    let file = FileConfig {
        sources: Some(vec![PackageSource::Repo]),
        ..FileConfig::default()
    };
    let config = Config::load("/c", ConfigFile::Parsed(file.clone()), &cli()).unwrap();
    assert_eq!(config.sources, vec![PackageSource::Repo]);
    let cli = Cli {
        sources: Some(vec![PackageSource::Aur]),
        no_aur_git: true,
        allow_unknown: true,
        ..Cli::default()
    };
    let config = Config::load("/c", ConfigFile::Parsed(file), &cli).unwrap();
    assert_eq!(config.sources, vec![PackageSource::Aur]);
    assert!(!config.aur_git);
    assert!(config.allow_unknown);
}

#[test]
fn write_config_with_helper_records_active_choice() {
    let contents = config_with_helper(AurHelper::Yay);
    assert!(contents.starts_with(CONFIG_TEMPLATE));
    assert!(contents.ends_with("\n# Chosen on first run.\naur_helper = \"yay\"\n"));
}

#[test]
fn detect_prefers_paru_then_yay() {
    assert_eq!(detect_aur_helper_with(|_| false), None);
    assert_eq!(
        detect_aur_helper_with(|n| n == "paru"),
        Some(AurHelper::Paru)
    );
    assert_eq!(detect_aur_helper_with(|n| n == "yay"), Some(AurHelper::Yay));
    assert_eq!(detect_aur_helper_with(|_| true), Some(AurHelper::Paru));
}

#[test]
fn parse_helper_choice_accepts_numbers_names_and_empty() {
    assert_eq!(parse_helper_choice(""), Ok(None));
    assert_eq!(parse_helper_choice("  \n"), Ok(None));
    assert_eq!(parse_helper_choice("1"), Ok(Some(AurHelper::Paru)));
    assert_eq!(parse_helper_choice("paru"), Ok(Some(AurHelper::Paru)));
    assert_eq!(parse_helper_choice("2"), Ok(Some(AurHelper::Yay)));
    assert_eq!(parse_helper_choice("Yay\n"), Ok(Some(AurHelper::Yay)));
    assert_eq!(parse_helper_choice("3"), Ok(Some(AurHelper::Disabled)));
    assert_eq!(parse_helper_choice("NONE"), Ok(Some(AurHelper::Disabled)));
    assert!(parse_helper_choice("4").is_err());
    assert!(parse_helper_choice("pikaur").is_err());
}

#[test]
fn prompt_loops_until_valid_and_honors_default() {
    // Invalid answer, then a valid one: the prompt is shown twice and the
    // retry hint once, as the interactive loop writes them.
    let mut answers = vec![Some("bogus\n"), Some("2\n")].into_iter();
    let mut out = String::new();
    let helper = loop {
        out.push_str(&prompt_text(AurHelper::Paru));
        match prompt_answer(answers.next().unwrap(), AurHelper::Paru) {
            Some(h) => break h,
            None => out.push_str(retry_text()),
        }
    };
    assert_eq!(helper, AurHelper::Yay);
    assert_eq!(out.matches("please answer 1, 2 or 3 (or paru/yay/none)").count(), 1);
    assert_eq!(out.matches("Choice [default: paru]: ").count(), 2);
    assert!(answers.next().is_none());

    // Empty input takes the default.
    assert_eq!(prompt_answer(Some("\n"), AurHelper::Yay), Some(AurHelper::Yay));

    // EOF takes the default instead of looping forever.
    assert_eq!(prompt_answer(None, AurHelper::Disabled), Some(AurHelper::Disabled));
    assert!(prompt_text(AurHelper::Paru).ends_with("Choice [default: paru]: "));
}

#[test]
fn default_paths_follow_xdg_and_home() {
    assert_eq!(
        default_config_path(Some("/xdg"), Some("/home/u")),
        "/xdg/pactience/config.toml"
    );
    assert_eq!(
        default_config_path(None, Some("/home/u")),
        "/home/u/.config/pactience/config.toml"
    );
    assert_eq!(
        default_config_path(Some(""), None),
        "/.config/pactience/config.toml"
    );
    assert_eq!(
        default_cache_path(None, Some("/home/u/")),
        "/home/u/.cache/pactience/publications.json"
    );
}

#[test]
fn set_min_age_replaces_the_active_line_or_appends() {
    let created = with_min_age(CONFIG_TEMPLATE, 9);
    assert!(created.contains("min_age_days = 9"));
    assert!(created.contains("# min_age_days = 4"));
    let again = with_min_age(&created, 12);
    assert!(again.contains("min_age_days = 12"));
    assert!(!again.contains("min_age_days = 9\n"));
    assert_eq!(with_min_age("a = 1", 3), "a = 1\nmin_age_days = 3\n");
    assert_eq!(with_min_age("  min_age_days= 7\nx\n", 2), "min_age_days = 2\nx\n");
}

#[test]
fn setting_the_minimum_age_twice_equals_setting_it_once() {
    for text in [
        "",
        "a = 1",
        "a = 1\n",
        "# min_age_days = 4\nmin_age_days = 7\nmin_age_days = 8\n",
        CONFIG_TEMPLATE,
    ] {
        assert_eq!(with_min_age(&with_min_age(text, 3), 11), with_min_age(text, 11));
    }
    let twice = with_min_age(&with_min_age("x = 2", 3), 11);
    assert_eq!(twice, "x = 2\nmin_age_days = 11\n");
    assert_eq!(twice.matches("min_age_days").count(), 1);
}

#[test]
fn template_parses_to_defaults() {
    // Every line of the template is a comment: as TOML it sets nothing, and
    // a file that sets nothing gives the built-in defaults.
    let table: toml::Table = toml::from_str(CONFIG_TEMPLATE).expect("template must be valid TOML");
    assert!(table.is_empty());
    let config = Config::load(
        "config.toml",
        ConfigFile::Parsed(FileConfig::default()),
        &Cli::default(),
    )
    .unwrap();
    assert_eq!(config, Config::default());
}

#[test]
fn sources_are_asked_once_and_recorded() {
    assert!(!has_sources_setting(CONFIG_TEMPLATE));
    let recorded = with_sources(CONFIG_TEMPLATE, &[PackageSource::Repo]);
    assert!(recorded.ends_with("\n# Chosen on first use.\nsources = [\"repo\"]\n"));
    assert!(has_sources_setting(&recorded));
    assert_eq!(
        with_sources("a = 1", &[PackageSource::Repo, PackageSource::Aur]),
        "a = 1\n# Chosen on first use.\nsources = [\"repo\", \"aur\"]\n"
    );
    assert!(has_sources_setting("  sources= [\"aur\"]\n"));
    assert!(!has_sources_setting("# sources = [\"aur\"]\nsourcesx = 1\n"));
}

#[test]
fn sources_answers_select_or_ask_again() {
    assert_eq!(parse_sources_choice(""), Ok(None));
    assert_eq!(
        parse_sources_choice(" 1 "),
        Ok(Some(vec![PackageSource::Repo, PackageSource::Aur]))
    );
    assert_eq!(parse_sources_choice("REPO"), Ok(Some(vec![PackageSource::Repo])));
    assert_eq!(parse_sources_choice("3\n"), Ok(Some(vec![PackageSource::Aur])));
    assert_eq!(parse_sources_choice("4"), Err(()));
    assert_eq!(sources_answer(None), Some(vec![PackageSource::Repo, PackageSource::Aur]));
    assert_eq!(sources_answer(Some("\n")), Some(vec![PackageSource::Repo, PackageSource::Aur]));
    assert_eq!(sources_answer(Some("aur")), Some(vec![PackageSource::Aur]));
    assert_eq!(sources_answer(Some("maybe")), None);
    assert!(sources_prompt_text().contains("[2] repo only"));
    assert_eq!(sources_retry_text(), "please answer 1, 2 or 3 (or both/repo/aur)\n");
}
