use vecfit::cli::{parse_command, parse_fit_args, parse_fit_terms, parse_positive_usize, Command};

fn args(list: &[&str]) -> Vec<String> {
    list.iter().map(|s| s.to_string()).collect()
}

#[test]
fn help_succeeds() {
    assert!(matches!(parse_command(&args(&["--help"])), Command::Help));
    assert!(matches!(parse_command(&args(&["-h"])), Command::Help));
}

#[test]
fn fit_help_succeeds() {
    let all = args(&["fit", "--help"]);
    assert!(matches!(parse_command(&all), Command::Fit));
    assert!(matches!(parse_fit_args(all[1..].to_vec()), Ok(None)));
}

#[test]
fn version_contains_package_version() {
    assert!(matches!(parse_command(&args(&["--version"])), Command::Version));
    assert!(matches!(parse_command(&args(&["-V"])), Command::Version));
}

#[test]
fn missing_input_is_nonzero() {
    assert!(matches!(parse_command(&args(&["fit"])), Command::Fit));
    assert_eq!(parse_fit_args(Vec::new()).unwrap_err(), "missing input file");
}

#[test]
fn unknown_commands_fail() {
    match parse_command(&args(&["--bogus"])) {
        Command::Fail(m) => assert_eq!(m, "unknown flag: --bogus"),
        _ => panic!("unknown flag should fail"),
    }
    match parse_command(&args(&["frobnicate"])) {
        Command::Fail(m) => assert_eq!(m, "unknown command: frobnicate"),
        _ => panic!("unknown command should fail"),
    }
    match parse_command(&Vec::new()) {
        Command::Fail(m) => assert_eq!(m, "missing command; try `vecfit --help`"),
        _ => panic!("missing command should fail"),
    }
}

#[test]
fn fit_matrix_csv_arguments() {
    let parsed = parse_fit_args(args(&[
        "examples/data/matrix_admittance_2x2.csv",
        "--matrix",
        "2",
        "2",
        "--poles",
        "4",
        "--output",
        "out.json",
        "--real-only",
        "--weighted",
        "--terms",
        "d,e",
        "--state-space",
    ]))
    .unwrap()
    .unwrap();
    assert_eq!(parsed.input, "examples/data/matrix_admittance_2x2.csv");
    assert_eq!(parsed.matrix, Some((2, 2)));
    assert_eq!(parsed.poles, Some(4));
    assert_eq!(parsed.output.as_deref(), Some("out.json"));
    assert!(parsed.real_only);
    assert!(parsed.weighted);
    assert_eq!(parsed.terms, Some((true, true)));
    assert!(parsed.state_space);
}

#[test]
fn fit_argument_errors() {
    let cases: &[(&[&str], &str)] = &[
        (&["in.csv", "--poles"], "--poles requires a value"),
        (&["in.csv", "--poles", "0"], "invalid pole count: 0"),
        (&["in.csv", "--matrix", "2"], "--matrix requires ROWS COLS"),
        (&["in.csv", "--matrix", "2", "x"], "invalid matrix column count: x"),
        (&["in.csv", "--matrix", "2", "2", "--matrix", "1", "1"], "--matrix may only be provided once"),
        (&["in.csv", "--terms"], "--terms requires a value"),
        (&["in.csv", "--output"], "--output requires a value"),
        (&["in.csv", "--output", "a", "--output", "b"], "--output may only be provided once"),
        (&["in.csv", "--nope"], "unknown flag: --nope"),
        (&["in.csv", "other.csv"], "unexpected argument: other.csv"),
    ];
    for (list, expected) in cases {
        assert_eq!(parse_fit_args(args(list)).unwrap_err(), *expected);
    }
}

#[test]
fn fit_defaults_without_flags() {
    let parsed = parse_fit_args(args(&["data.csv"])).unwrap().unwrap();
    assert_eq!(parsed.input, "data.csv");
    assert_eq!(parsed.matrix, None);
    assert_eq!(parsed.output, None);
    assert_eq!(parsed.poles, None);
    assert!(!parsed.real_only && !parsed.weighted && !parsed.state_space);
    assert_eq!(parsed.terms, None);
}

#[test]
fn positive_usize_values() {
    assert_eq!(parse_positive_usize("12", "pole count"), Ok(12));
    assert_eq!(parse_positive_usize("+7", "pole count"), Ok(7));
    assert_eq!(parse_positive_usize("0", "pole count").unwrap_err(), "invalid pole count: 0");
    assert_eq!(parse_positive_usize("-1", "pole count").unwrap_err(), "invalid pole count: -1");
    assert_eq!(parse_positive_usize("", "pole count").unwrap_err(), "invalid pole count: ");
    assert_eq!(parse_positive_usize(" 3", "pole count").unwrap_err(), "invalid pole count:  3");
}

#[test]
fn fit_terms_values() {
    assert_eq!(parse_fit_terms("none"), Ok((false, false)));
    assert_eq!(parse_fit_terms("0"), Ok((false, false)));
    assert_eq!(parse_fit_terms(" D "), Ok((true, false)));
    assert_eq!(parse_fit_terms("e"), Ok((false, true)));
    assert_eq!(parse_fit_terms("ED"), Ok((true, true)));
    assert_eq!(parse_fit_terms("d, e"), Ok((true, true)));
    assert_eq!(parse_fit_terms("e,e"), Ok((false, true)));
    assert_eq!(
        parse_fit_terms("x").unwrap_err(),
        "invalid --terms value: x; use one of none, d, e, de, d,e"
    );
    assert_eq!(
        parse_fit_terms("d,,e").unwrap_err(),
        "invalid --terms value: d,,e; use one of none, d, e, de, d,e"
    );
}
