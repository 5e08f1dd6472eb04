use cargo_play::{CargoPlayError, Options, RustEdition};

fn strings(v: &[&str]) -> Vec<String> {
    v.iter().map(|s| s.to_string()).collect()
}

fn files(v: &[&str]) -> Vec<Option<String>> {
    v.iter().map(|s| Some(s.to_string())).collect()
}

fn parse_ok(v: &[&str]) -> Options {
    match Options::parse(strings(v)) {
        Ok(Some(o)) => o,
        other => panic!("expected a configuration, got {:?}", other),
    }
}

fn parse_err(v: &[&str]) -> CargoPlayError {
    match Options::parse(strings(v)) {
        Err(e) => e,
        other => panic!("expected an error, got {:?}", other),
    }
}

#[test]
fn edition_from_text() {
    assert_eq!(RustEdition::from_text("2015"), Ok(RustEdition::E2015));
    assert_eq!(RustEdition::from_text("2018"), Ok(RustEdition::E2018));
    assert_eq!(RustEdition::from_text("2021"), Ok(RustEdition::E2021));
    assert_eq!(
        RustEdition::from_text("2016"),
        Err(CargoPlayError::InvalidEdition("2016".to_string()))
    );
    assert_eq!("2018".parse::<RustEdition>(), Ok(RustEdition::E2018));
    assert_eq!(
        "2018 ".parse::<RustEdition>(),
        Err(CargoPlayError::InvalidEdition("2018 ".to_string()))
    );
}

#[test]
fn edition_text_round_trip() {
    for e in [RustEdition::E2015, RustEdition::E2018, RustEdition::E2021] {
        assert_eq!(RustEdition::from_text(&e.to_text()), Ok(e));
    }
    assert_eq!(RustEdition::E2015.to_text(), "2015");
    assert_eq!(RustEdition::default(), RustEdition::E2021);
}

#[test]
fn only_program_name_shows_help() {
    assert_eq!(Options::parse(strings(&["cargo-play"])).unwrap().is_none(), true);
    assert_eq!(Options::parse(Vec::new()).unwrap().is_none(), true);
}

#[test]
fn help_flag_shows_help() {
    assert!(Options::parse(strings(&["cargo-play", "a.rs", "--help", "--bogus"]))
        .unwrap()
        .is_none());
}

#[test]
fn invalid_edition_fails() {
    assert_eq!(
        parse_err(&["cargo-play", "--edition", "2016", "a.rs"]),
        CargoPlayError::InvalidEdition("2016".to_string())
    );
    assert_eq!(
        parse_err(&["cargo-play", "-e", "latest", "a.rs"]),
        CargoPlayError::InvalidEdition("latest".to_string())
    );
    assert_eq!(
        parse_err(&["cargo-play", "--edition", "2016", "--edition", "2018", "a.rs"]),
        CargoPlayError::InvalidEdition("2016".to_string())
    );
    assert_eq!(
        parse_err(&["cargo-play", "-e", "2018", "-e", "2019", "-e", "2021", "a.rs"]),
        CargoPlayError::InvalidEdition("2019".to_string())
    );
}

#[test]
fn test_and_check_conflict() {
    assert_eq!(
        parse_err(&["cargo-play", "--test", "--check", "a.rs"]),
        CargoPlayError::ConflictingMode
    );
    assert_eq!(
        parse_err(&["cargo-play", "--mode", "build", "--expand", "a.rs"]),
        CargoPlayError::ConflictingMode
    );
    assert_eq!(
        parse_err(&["cargo-play", "--test", "--check", "--edition", "2016"]),
        CargoPlayError::ConflictingMode
    );
    assert_eq!(
        parse_err(&["cargo-play", "--check", "a.rs", "--expand", "--stdin"]),
        CargoPlayError::ConflictingMode
    );
}

#[test]
fn no_input_fails() {
    assert_eq!(parse_err(&["cargo-play", "--release"]), CargoPlayError::NoInputProvided);
    let o = parse_ok(&["cargo-play", "--stdin"]);
    assert!(o.stdin);
    assert!(o.src.is_empty());
}

#[test]
fn unknown_flag_fails() {
    assert_eq!(
        parse_err(&["cargo-play", "a.rs", "--bogus"]),
        CargoPlayError::UnrecognizedArgument("--bogus".to_string())
    );
}

#[test]
fn flag_without_value_fails() {
    assert_eq!(
        parse_err(&["cargo-play", "a.rs", "--mode"]),
        CargoPlayError::MissingValue("--mode".to_string())
    );
}

#[test]
fn toolchain_argument_is_taken_out() {
    let o = parse_ok(&["cargo-play", "a.rs", "+nightly", "b.rs"]);
    assert_eq!(o.toolchain, Some("nightly".to_string()));
    assert_eq!(o.src, strings(&["a.rs", "b.rs"]));
    let o = parse_ok(&["cargo", "play", "+beta", "a.rs", "+nightly"]);
    assert_eq!(o.toolchain, Some("beta".to_string()));
    assert_eq!(o.src, strings(&["a.rs"]));
    let o = parse_ok(&["cargo-play", "a.rs", "-t", "stable"]);
    assert_eq!(o.toolchain, None);
}

#[test]
fn play_subcommand_is_skipped() {
    let o = parse_ok(&["cargo", "play", "main.rs"]);
    assert_eq!(o.src, strings(&["main.rs"]));
}

#[test]
fn all_flags_are_read() {
    let o = parse_ok(&[
        "cargo-play", "-d", "-c", "--release", "--cached", "-q", "-i", "-v", "--verbose", "-v",
        "--cargo-option", "--offline", "--save", "out", "-e", "2018", "--mode", "build", "x.rs",
        "--", "one", "--two",
    ]);
    assert!(o.debug && o.clean && o.release && o.cached && o.quiet && o.infer);
    assert!(!o.stdin && !o.test && !o.check && !o.expand);
    assert_eq!(o.verbose, 3);
    assert_eq!(o.cargo_option, Some("--offline".to_string()));
    assert_eq!(o.save, Some("out".to_string()));
    assert_eq!(o.edition, RustEdition::E2018);
    assert_eq!(o.mode, Some("build".to_string()));
    assert_eq!(o.src, strings(&["x.rs"]));
    assert_eq!(o.args, strings(&["one", "--two"]));
}

#[test]
fn defaults_after_parse() {
    let o = parse_ok(&["cargo-play", "--test", "a.rs"]);
    assert!(o.test);
    assert_eq!(o.edition, RustEdition::E2021);
    assert_eq!(o.verbose, 0);
    assert_eq!(o.mode, None);
    assert!(o.args.is_empty());
}

#[test]
fn resolved_sources_replace_texts() {
    let o = parse_ok(&["cargo-play", "a.rs", "b.rs"]);
    let r = o
        .with_resolved_sources(
            vec![Some("/w/a.rs".to_string()), Some("/w/b.rs".to_string())],
            vec![true, true],
        )
        .unwrap();
    assert_eq!(r.src, strings(&["/w/a.rs", "/w/b.rs"]));
}

#[test]
fn unresolvable_source_fails() {
    let o = parse_ok(&["cargo-play", "a.rs", "b.rs"]);
    let e = o
        .with_resolved_sources(vec![Some("/w/a.rs".to_string()), None], vec![true, false])
        .unwrap_err();
    assert_eq!(e, CargoPlayError::UnresolvablePath("b.rs".to_string()));
}

#[test]
fn source_that_is_no_file_fails() {
    let o = parse_ok(&["cargo-play", "dir", "b.rs"]);
    let e = o
        .with_resolved_sources(vec![Some("/w/dir".to_string()), None], vec![false, false])
        .unwrap_err();
    assert_eq!(e, CargoPlayError::MissingInputFile("/w/dir".to_string()));
}

#[test]
fn identity_ignores_order() {
    let a = Options::with_files(files(&["/tmp/b.rs", "/tmp/a.rs"]));
    let b = Options::with_files(files(&["/tmp/a.rs", "/tmp/b.rs"]));
    assert_eq!(a.src_hash(), b.src_hash());
    assert_eq!(a.src_hash(), "2AbK76yKqCr31fmRTfwLn4vD69m8");
}

#[test]
fn identity_exact_values() {
    assert_eq!(Options::with_files(Vec::new()).src_hash(), "43LNwPunkRCSovrjPyoxpukWVtnU");
    assert_eq!(
        Options::with_files(files(&["/tmp/a.rs"])).src_hash(),
        "3St6zBdM8WAttwVSsRN2LEUCtnkT"
    );
    assert_eq!(
        Options::with_files(files(&["/tmp/a/b.rs", "/tmp/a-b.rs"])).src_hash(),
        "3iHX4nv6AxmoH2P4wkPTaLuirK5K"
    );
}

#[test]
fn identities_of_different_sets_differ() {
    let mut seen: Vec<String> = Vec::new();
    for i in 0..200 {
        let set = vec![format!("/src/f{}.rs", i), format!("/src/g{}.rs", i % 7)];
        let h = Options::with_files(set.into_iter().map(Some).collect()).src_hash();
        assert!(!seen.contains(&h));
        assert!(h.chars().all(|c| c.is_ascii_alphanumeric() && !"0IOl".contains(c)));
        seen.push(h);
    }
}

#[test]
fn work_directory_name() {
    let o = Options::with_files(files(&["/tmp/a.rs", "/tmp/b.rs"]));
    assert_eq!(o.temp_dirname(), "cargo-play.2AbK76yKqCr31fmRTfwLn4vD69m8");
}

#[test]
fn with_toolchain_sets_only_toolchain() {
    let o = Options::with_files(files(&["/tmp/a.rs"])).with_toolchain(Some("nightly".to_string()));
    assert_eq!(o.toolchain, Some("nightly".to_string()));
    assert_eq!(o.src, strings(&["/tmp/a.rs"]));
}

#[test]
fn error_messages_name_the_input() {
    assert!(CargoPlayError::InvalidEdition("2016".to_string()).message().contains("2016"));
    assert!(CargoPlayError::UnrecognizedArgument("--x".to_string()).message().contains("--x"));
    assert_eq!(
        CargoPlayError::InvalidEdition("2016".to_string()).message(),
        "invalid edition: 2016"
    );
}

#[test]
fn joined_paths_do_not_collide() {
    let a = Options::with_files(files(&["/a", "/b"])).src_hash();
    let b = Options::with_files(files(&["/a/b"])).src_hash();
    assert_eq!(a, "2Wb8XVqmcTffkyToJjauzTDCjz7F");
    assert_eq!(b, "2PkhueBb9HFREHqfeR8W2PgUvUwB");
    assert_ne!(a, b);
}

#[test]
fn repeated_path_counts_once() {
    let once = Options::with_files(files(&["/tmp/a.rs", "/tmp/b.rs"])).src_hash();
    let twice = Options::with_files(files(&["/tmp/b.rs", "/tmp/a.rs", "/tmp/b.rs"])).src_hash();
    assert_eq!(once, twice);
}

#[test]
fn identity_length() {
    for set in [vec![], vec!["/x.rs"], vec!["/x.rs", "/y.rs", "/z.rs"]] {
        let h = Options::with_files(files(&set)).src_hash();
        assert!(!h.is_empty() && h.len() <= 30);
    }
}

#[test]
fn with_files_drops_unresolved() {
    let o = Options::with_files(vec![None, Some("/w/a.rs".to_string()), None]);
    assert_eq!(o.src, strings(&["/w/a.rs"]));
    assert_eq!(o.edition, RustEdition::E2021);
}

#[test]
fn toolchain_argument_changes_only_toolchain() {
    let with = parse_ok(&["cargo-play", "-q", "+nightly", "a.rs", "--", "x"]);
    let without = parse_ok(&["cargo-play", "-q", "a.rs", "--", "x"]);
    assert_eq!(with.toolchain, Some("nightly".to_string()));
    assert_eq!(without.toolchain, None);
    assert_eq!(with.src, without.src);
    assert_eq!(with.args, without.args);
    assert_eq!(with.quiet, without.quiet);
}
