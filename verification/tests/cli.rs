use pain::cli::{era_listing, parse_args, usage, Launch};

fn args(list: &[&str]) -> Vec<String> {
    std::iter::once("pain").chain(list.iter().copied()).map(str::to_string).collect()
}

#[test]
fn help_wins_over_everything_else() {
    assert!(matches!(parse_args(&args(&["--era=list", "--help"])), Launch::Help));
    assert!(matches!(parse_args(&args(&["-h", "--version"])), Launch::Help));
}

#[test]
fn version_comes_next() {
    assert!(matches!(parse_args(&args(&["--version", "--era=list"])), Launch::Version));
    assert!(matches!(parse_args(&args(&["-V"])), Launch::Version));
}

#[test]
fn era_list_lists_the_eras_in_any_case() {
    assert!(matches!(parse_args(&args(&["--era=list"])), Launch::ListEras));
    assert!(matches!(parse_args(&args(&["--era= LIST "])), Launch::ListEras));
}

#[test]
fn an_unknown_era_is_an_error_and_an_empty_one_means_off() {
    match parse_args(&args(&["--era=nope"])) {
        Launch::UnknownEra(name) => assert_eq!(name, "nope"),
        _ => panic!("expected an unknown-era error"),
    }
    match parse_args(&args(&["--era="])) {
        Launch::Run(options) => assert!(options.era.is_none()),
        _ => panic!("an empty era is not an error"),
    }
    match parse_args(&args(&["--era"])) {
        Launch::Run(options) => assert!(options.era.is_none()),
        _ => panic!("a bare --era is not an error"),
    }
}

#[test]
fn a_run_carries_the_era_settings_and_verbose_flags() {
    match parse_args(&args(&["--verbose=pty,mouse", "--era=Amber", "--settings", "-v"])) {
        Launch::Run(options) => {
            assert_eq!(options.era.map(|e| e.name), Some("amber"));
            assert!(options.open_settings);
            assert_eq!(options.verbose, Some(Some("pty,mouse".to_string())));
        }
        _ => panic!("expected a run"),
    }
    match parse_args(&args(&[])) {
        Launch::Run(options) => {
            assert!(options.era.is_none());
            assert!(!options.open_settings);
            assert_eq!(options.verbose, None);
        }
        _ => panic!("expected a run"),
    }
    match parse_args(&args(&["-v"])) {
        Launch::Run(options) => assert_eq!(options.verbose, Some(None)),
        _ => panic!("expected a run"),
    }
}

#[test]
fn the_era_listing_names_every_era_and_off() {
    let listing = era_listing();
    assert!(listing.starts_with("Retro eras (appearance.era, or --era=NAME):\n\n"));
    for era in pain::era::listed() {
        assert!(listing.contains(&format!("  {:<8} {}\n", era.name, era.blurb)));
    }
    assert!(listing.ends_with("\n  off      no era (the default)\n"));
}

#[test]
fn usage_names_the_version_and_config_path() {
    let text = usage("1.2.3", "/home/will/.config/pain/config.toml");
    assert!(text.starts_with("pain 1.2.3 — a cross-platform, multi-pane terminal emulator\n"));
    assert!(text.contains("\n  /home/will/.config/pain/config.toml\n"));
    assert!(text.contains("--era=NAME"));
}
