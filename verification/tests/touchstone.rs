use vecfit::touchstone::{
    check_ports, group_data_lines, infer_ports_from_data, infer_ports_from_extension, preprocess,
    scan_option_line, touchstone_shape, units_without_option_line, DataLineError, RawPoint,
};
use vecfit::{DataFormat, FrequencyUnit, ParameterType, VecfitError};

fn tokens(line: &str) -> Result<Vec<f64>, VecfitError> {
    let mut out = Vec::new();
    for tok in line.split_whitespace() {
        match tok.parse::<f64>() {
            Ok(v) => out.push(v),
            Err(e) => {
                return Err(VecfitError::Touchstone(format!(
                    "failed to parse numeric token '{tok}': {e}"
                )))
            }
        }
    }
    Ok(out)
}

fn token_lines(text: &str) -> Vec<Result<Vec<f64>, VecfitError>> {
    let pre = preprocess(text);
    assert!(pre.error.is_none());
    pre.data_lines.iter().map(|l| tokens(l)).collect()
}

fn points(text: &str, ports: usize) -> Vec<RawPoint<f64>> {
    check_ports(ports).unwrap();
    match group_data_lines(&token_lines(text), ports * ports) {
        Ok(p) => p,
        Err(_) => panic!("data lines should group"),
    }
}

fn message(e: &VecfitError) -> String {
    match e {
        VecfitError::Touchstone(m) => m.clone(),
        other => panic!("expected a Touchstone error, got {other:?}"),
    }
}

#[test]
fn parse_option_line_defaults() {
    let opts = scan_option_line("# GHz S MA R 50");
    assert!(opts.error.is_none());
    let (f, p, d) = opts.units_or_defaults();
    assert_eq!(f, FrequencyUnit::GHz);
    assert_eq!(p, ParameterType::S);
    assert_eq!(d, DataFormat::MA);
    assert_eq!(opts.impedance_tokens, vec!["50".to_string()]);
}

#[test]
fn parse_option_line_case_insensitive() {
    let opts = scan_option_line("# mhz y ri r 75");
    assert!(opts.error.is_none());
    let (f, p, d) = opts.units_or_defaults();
    assert_eq!(f, FrequencyUnit::MHz);
    assert_eq!(p, ParameterType::Y);
    assert_eq!(d, DataFormat::RI);
    assert_eq!(opts.impedance_tokens, vec!["75".to_string()]);
}

#[test]
fn option_line_errors() {
    let empty = scan_option_line("#");
    assert_eq!(
        message(&empty.error.unwrap()),
        "option line '#' contains no parameters; expected at least a frequency unit"
    );
    let missing = scan_option_line("# GHz S MA R");
    assert_eq!(message(&missing.error.unwrap()), "missing reference impedance value after R");
    let unknown = scan_option_line("# GHz foo");
    assert_eq!(message(&unknown.error.unwrap()), "unrecognized token in option line: FOO");
    let partial = scan_option_line("# khz");
    assert!(partial.error.is_none());
    assert_eq!(
        partial.units_or_defaults(),
        (FrequencyUnit::KHz, ParameterType::S, DataFormat::MA)
    );
}

#[test]
fn unit_tokens_and_errors() {
    assert_eq!(FrequencyUnit::from_token("gHz").unwrap(), FrequencyUnit::GHz);
    assert_eq!(ParameterType::from_token("h").unwrap(), ParameterType::H);
    assert_eq!(DataFormat::from_token("db").unwrap(), DataFormat::DB);
    assert_eq!(message(&FrequencyUnit::from_token("THz").unwrap_err()), "unknown frequency unit: THz");
    assert_eq!(message(&ParameterType::from_token("Q").unwrap_err()), "unknown parameter type: Q");
    assert_eq!(message(&DataFormat::from_token("XY").unwrap_err()), "unknown data format: XY");
    assert_eq!("MHz".parse::<FrequencyUnit>().unwrap(), FrequencyUnit::MHz);
}

#[test]
fn parse_s1p() {
    let text = "\
! 1-port S-parameter file
# MHz S RI R 50
100 0.5 0.1
200 0.3 -0.2
500 0.1 -0.5
";
    let pre = preprocess(text);
    let (f, _, _) = pre.option.as_ref().unwrap().units_or_defaults();
    let pts = points(text, 1);
    assert_eq!(pts.len(), 3);
    assert!(touchstone_shape(1).unwrap().is_scalar());
    assert!((pts[0].frequency * f.hz_multiplier() as f64 - 100e6).abs() < 1e-3);
}

#[test]
fn parse_s2p() {
    let text = "\
! 2-port S-parameter file
# GHz S MA R 50
1.0  0.9 -10  0.1 80  0.1 80  0.9 -10
2.0  0.8 -20  0.2 70  0.2 70  0.8 -20
";
    let pre = preprocess(text);
    let (f, _, d) = pre.option.as_ref().unwrap().units_or_defaults();
    assert_eq!(d, DataFormat::MA);
    let pts = points(text, 2);
    assert_eq!(pts.len(), 2);
    assert_eq!(touchstone_shape(2).unwrap().channels(), 4);
    assert!((pts[0].frequency * f.hz_multiplier() as f64 - 1e9).abs() < 1e-3);
}

#[test]
fn parse_s4p_multiline() {
    let text = "\
# GHz S RI R 50
1.0  0.1 0.0  0.2 0.0  0.3 0.0  0.4 0.0
     0.5 0.0  0.6 0.0  0.7 0.0  0.8 0.0
     0.9 0.0  1.0 0.0  1.1 0.0  1.2 0.0
     1.3 0.0  1.4 0.0  1.5 0.0  1.6 0.0
";
    let pts = points(text, 4);
    assert_eq!(pts.len(), 1);
    assert_eq!(pts[0].values.len(), 32);
    assert_eq!(pts[0].values[30], 1.6);
    assert_eq!(touchstone_shape(4).unwrap().channels(), 16);
}

#[test]
fn from_str_infer_1port() {
    let text = "\
# MHz S RI R 50
100 0.5 0.1
200 0.3 -0.2
";
    assert_eq!(infer_ports_from_data(&token_lines(text)).unwrap(), 1);
}

#[test]
fn from_str_infer_2port() {
    let text = "\
# GHz S RI R 50
1.0  0.1 0.0  0.2 0.0  0.3 0.0  0.4 0.0
2.0  0.5 0.0  0.6 0.0  0.7 0.0  0.8 0.0
";
    assert_eq!(infer_ports_from_data(&token_lines(text)).unwrap(), 2);
}

#[test]
fn infer_ports_from_continuation_lines() {
    let text = "\
1.0  0.1 0.0  0.2 0.0  0.3 0.0
     0.4 0.0  0.5 0.0  0.6 0.0
     0.7 0.0  0.8 0.0  0.9 0.0
";
    assert_eq!(infer_ports_from_data(&token_lines(text)).unwrap(), 3);
}

#[test]
fn infer_ports_errors() {
    let none: Vec<Result<Vec<f64>, VecfitError>> = Vec::new();
    assert_eq!(message(&infer_ports_from_data(&none).unwrap_err()), "no data lines found");
    assert_eq!(
        message(&infer_ports_from_data(&token_lines("1.0 0.5\n")).unwrap_err()),
        "first data line has too few tokens to infer port count"
    );
    assert_eq!(
        message(&infer_ports_from_data(&token_lines("1.0 0.5 0.1 0.2\n")).unwrap_err()),
        "odd number of data values (3) on first data line"
    );
    assert_eq!(
        message(&infer_ports_from_data(&token_lines("1.0 1 2 3 4 5 6 7 8 9 10\n")).unwrap_err()),
        "cannot infer port count: 5 parameter pairs on first line is not a perfect square"
    );
    let bad = vec![Err(VecfitError::Touchstone("bad token".to_string()))];
    assert_eq!(message(&infer_ports_from_data::<f64>(&bad).unwrap_err()), "bad token");
}

#[test]
fn frequency_unit_factors() {
    assert_eq!(FrequencyUnit::Hz.hz_multiplier(), 1);
    assert_eq!(FrequencyUnit::KHz.hz_multiplier(), 1_000);
    assert_eq!(FrequencyUnit::MHz.hz_multiplier(), 1_000_000);
    assert_eq!(FrequencyUnit::GHz.hz_multiplier(), 1_000_000_000);
}

#[test]
fn default_options_no_option_line() {
    let text = "\
1.0  0.5 0.1
2.0  0.3 -0.2
";
    let pre = preprocess(text);
    assert!(pre.option.is_none());
    assert_eq!(
        units_without_option_line(),
        (FrequencyUnit::GHz, ParameterType::S, DataFormat::MA)
    );
    assert_eq!(points(text, 1).len(), 2);
}

#[test]
fn inline_comments_stripped() {
    let text = "\
! header comment
# MHz S RI R 50
100 0.5 0.1 ! inline comment
200 0.3 -0.2
";
    let pre = preprocess(text);
    assert_eq!(pre.data_lines, vec!["100 0.5 0.1".to_string(), "200 0.3 -0.2".to_string()]);
    assert_eq!(points(text, 1).len(), 2);
}

#[test]
fn multiple_option_lines_are_rejected() {
    let pre = preprocess("# GHz\n# MHz\n1 2 3\n");
    assert_eq!(message(&pre.error.unwrap()), "multiple option lines found");
}

#[test]
fn grouping_errors() {
    let none: Vec<Result<Vec<f64>, VecfitError>> = Vec::new();
    assert!(matches!(group_data_lines(&none, 1), Err(DataLineError::NoData)));
    match group_data_lines(&token_lines("1.0 0.5\n"), 1) {
        Err(DataLineError::Count { frequency, expected, found }) => {
            assert_eq!(frequency, 1.0);
            assert_eq!(expected, 2);
            assert_eq!(found, 1);
        }
        _ => panic!("short point should be rejected"),
    }
    let bad = vec![Ok(vec![1.0, 0.5, 0.1]), Err(VecfitError::Touchstone("x".to_string()))];
    assert!(matches!(group_data_lines(&bad, 1), Err(DataLineError::Token(_))));
    let bad_first = vec![Err(VecfitError::Touchstone("x".to_string()))];
    assert!(matches!(group_data_lines::<f64>(&bad_first, 1), Err(DataLineError::Token(_))));
}

#[test]
fn ports_from_extension() {
    assert_eq!(infer_ports_from_extension(Some("s2p")).unwrap(), 2);
    assert_eq!(infer_ports_from_extension(Some("S12P")).unwrap(), 12);
    assert_eq!(
        message(&infer_ports_from_extension(Some("S0P")).unwrap_err()),
        "cannot infer port count from extension '.s0p'; expected .sNp"
    );
    assert_eq!(
        message(&infer_ports_from_extension(None).unwrap_err()),
        "cannot infer port count from extension '.'; expected .sNp"
    );
    assert_eq!(message(&check_ports(0).unwrap_err()), "port count must be at least 1");
    assert!(touchstone_shape(0).is_err());
}
