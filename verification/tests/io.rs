use vecfit::io::{
    columns_from_table, csv_shape, detect_csv_format, plan_complex_json, plan_real_kernel_json,
    read_delimited, residue_matrix_dims, resolve_json_shape, resolve_state_space_json_shape,
    ComplexJsonPlan, ComplexJsonSizes, CsvTable, RealKernelSizes,
};
use vecfit::{CsvFormat, Shape, VecfitError};

fn csv_message(e: &VecfitError) -> String {
    match e {
        VecfitError::Csv(m) => m.clone(),
        other => panic!("expected a CSV error, got {other:?}"),
    }
}

fn ser_message(e: &VecfitError) -> String {
    match e {
        VecfitError::Serialization(m) => m.clone(),
        other => panic!("expected a serialization error, got {other:?}"),
    }
}

fn field(r: &Result<String, VecfitError>) -> &str {
    r.as_ref().expect("field should be present").as_str()
}

fn strings(list: &[&str]) -> Vec<String> {
    list.iter().map(|s| s.to_string()).collect()
}

#[test]
fn csv_parser_builds_jw_samples() {
    let csv = "freq_Hz,|Y1|,ang_Y1\n1,10,45\n10,5,-90\n";
    let cols = read_delimited(csv.as_bytes(), b',').expect("csv parse should work");
    assert_eq!(cols.format, CsvFormat::MagnitudePhase);
    assert_eq!(cols.channels, 1);
    assert_eq!(cols.rows.len(), 2);
    assert!(cols.error.is_none());
    assert_eq!(field(&cols.rows[0][0]), "1");
    assert_eq!(field(&cols.rows[1][2]), "-90");
    assert!(csv_shape(cols.channels).unwrap().is_scalar());
}

#[test]
fn csv_parser_rejects_incomplete_magnitude_phase_pairs() {
    let csv = "freq_Hz,|Y1|,ang_Y1,|Y2|\n1,10,45,3\n";
    let err = read_delimited(csv.as_bytes(), b',')
        .err()
        .expect("csv parse should reject incomplete magnitude/phase pairs");
    assert_eq!(csv_message(&err), "data columns must appear in complete pairs");
}

#[test]
fn csv_parser_handles_nan_frequency() {
    let csv = "freq_Hz,|Y1|,ang_Y1\nNaN,10,45\n";
    let cols = read_delimited(csv.as_bytes(), b',').expect("csv parse should work");
    assert_eq!(field(&cols.rows[0][0]), "NaN");
}

#[test]
fn csv_parser_handles_empty_data() {
    let csv = "freq_Hz,|Y1|,ang_Y1\n";
    let cols = read_delimited(csv.as_bytes(), b',').expect("csv parse should work");
    assert_eq!(cols.rows.len(), 0);
}

#[test]
fn csv_real_imag_and_other_delimiters() {
    let csv = "f;  Re_Y1;im_Y1;re_Y2;im_Y2\n1; 0.5 ;0.1;2;3\n";
    let cols = read_delimited(csv.as_bytes(), b';').expect("csv parse should work");
    assert_eq!(cols.format, CsvFormat::RealImag);
    assert_eq!(cols.channels, 2);
    assert_eq!(field(&cols.rows[0][1]), "0.5");
    assert_eq!(csv_shape(2).unwrap().dims(), &[2]);
}

#[test]
fn csv_header_errors() {
    assert_eq!(
        csv_message(&detect_csv_format(&strings(&["f", "a"])).unwrap_err()),
        "expected at least a frequency column and one column pair"
    );
    assert_eq!(
        detect_csv_format(&strings(&["f", "re", "im"])).unwrap(),
        (CsvFormat::RealImag, 1)
    );
    assert_eq!(
        detect_csv_format(&strings(&["f", "r", "im"])).unwrap(),
        (CsvFormat::MagnitudePhase, 1)
    );
}

#[test]
fn csv_missing_columns_and_reader_errors() {
    let table = CsvTable {
        headers: Ok(strings(&["f", "re_Y1", "im_Y1"])),
        records: vec![strings(&["1", "2"])],
        error: Some("CSV error: record 2".to_string()),
    };
    let cols = columns_from_table(table).unwrap();
    assert_eq!(cols.rows[0].len(), 3);
    assert_eq!(csv_message(cols.rows[0][2].as_ref().unwrap_err()), "missing imaginary column");
    assert_eq!(csv_message(cols.error.as_ref().unwrap()), "CSV error: record 2");

    let failed = CsvTable { headers: Err("bad header".to_string()), records: Vec::new(), error: None };
    assert_eq!(csv_message(&columns_from_table(failed).err().unwrap()), "bad header");

    let uneven = "f,a,b\n1,2,3\n1,2\n";
    let cols = read_delimited(uneven.as_bytes(), b',').unwrap();
    assert_eq!(cols.rows.len(), 1);
    assert!(matches!(cols.error, Some(VecfitError::Csv(_))));
}

#[test]
fn json_shape_resolution() {
    assert!(resolve_json_shape(None, 1).unwrap().is_scalar());
    assert_eq!(resolve_json_shape(None, 3).unwrap().dims(), &[3]);
    let m = Shape::matrix(2, 2).unwrap();
    assert_eq!(resolve_json_shape(Some(m.clone()), 4).unwrap().dims(), &[2, 2]);
    assert_eq!(
        ser_message(&resolve_json_shape(Some(m), 3).unwrap_err()),
        "JSON shape [2, 2] expects 4 channels but model has 3"
    );
    assert!(matches!(resolve_json_shape(None, 0), Err(VecfitError::Shape(_))));
}

#[test]
fn state_space_shape_resolution() {
    assert!(resolve_state_space_json_shape(None, 1, 1).unwrap().is_scalar());
    assert_eq!(resolve_state_space_json_shape(None, 3, 1).unwrap().dims(), &[3]);
    assert_eq!(resolve_state_space_json_shape(None, 2, 3).unwrap().dims(), &[2, 3]);
    assert_eq!(
        ser_message(&resolve_state_space_json_shape(None, 0, 3).unwrap_err()),
        "complex JSON state-space matrices must have positive dimensions"
    );
    assert_eq!(
        ser_message(
            &resolve_state_space_json_shape(Some(Shape::vector(4).unwrap()), 2, 2).unwrap_err()
        ),
        "complex JSON state-space dimensions 2x2 do not match shape [4]"
    );
    let cube = Shape::tensor(vec![1, 2, 2]).unwrap();
    assert_eq!(residue_matrix_dims(&Shape::vector(5).unwrap()).unwrap(), (5, 1));
    match residue_matrix_dims(&cube) {
        Err(VecfitError::Shape(m)) => {
            assert_eq!(m, "expected scalar, vector, or matrix shape, found [1, 2, 2]")
        }
        _ => panic!("three-dimensional shapes have no residue matrix"),
    }
}

fn residue_sizes(poles: usize, channels: usize, shape: Option<Shape>) -> ComplexJsonSizes {
    ComplexJsonSizes {
        poles,
        residue_rows: Some(vec![channels; poles]),
        c_rows: None,
        b_rows: None,
        direct_terms: channels,
        proportional_terms: channels,
        shape,
    }
}

#[test]
fn complex_json_roundtrip_preserves_shape_and_layout() {
    let shape = Shape::matrix(2, 2).expect("matrix shape should be valid");
    match plan_complex_json(residue_sizes(3, 4, Some(shape))).unwrap() {
        ComplexJsonPlan::Residues { channels, shape } => {
            assert_eq!(channels, 4);
            assert_eq!(shape.expect_matrix().unwrap(), (2, 2));
        }
        _ => panic!("residue form expected"),
    }
}

#[test]
fn complex_json_structure_errors() {
    let mut both = residue_sizes(1, 1, None);
    both.c_rows = Some(vec![1]);
    assert_eq!(
        ser_message(&plan_complex_json(both).err().unwrap()),
        "complex JSON must contain either residues or C/B state-space matrices, not both"
    );
    let mut short = residue_sizes(2, 1, None);
    short.residue_rows = Some(vec![1]);
    assert_eq!(
        ser_message(&plan_complex_json(short).err().unwrap()),
        "complex JSON residue rows must match pole count"
    );
    let mut ragged = residue_sizes(2, 2, None);
    ragged.residue_rows = Some(vec![2, 1]);
    assert_eq!(
        ser_message(&plan_complex_json(ragged).err().unwrap()),
        "complex JSON residue row length must match channel count"
    );
    let none = ComplexJsonSizes {
        poles: 0,
        residue_rows: None,
        c_rows: None,
        b_rows: None,
        direct_terms: 0,
        proportional_terms: 0,
        shape: None,
    };
    assert_eq!(
        ser_message(&plan_complex_json(none).err().unwrap()),
        "complex JSON must contain residues or C/B state-space matrices"
    );
}

#[test]
fn complex_json_state_space_form() {
    let sizes = ComplexJsonSizes {
        poles: 2,
        residue_rows: None,
        c_rows: Some(vec![2, 2]),
        b_rows: Some(vec![3, 3]),
        direct_terms: 6,
        proportional_terms: 6,
        shape: None,
    };
    match plan_complex_json(sizes).unwrap() {
        ComplexJsonPlan::StateSpace { rows, cols, shape } => {
            assert_eq!((rows, cols), (2, 3));
            assert_eq!(shape.dims(), &[2, 3]);
        }
        _ => panic!("state-space form expected"),
    }
    let bad_b = ComplexJsonSizes {
        poles: 2,
        residue_rows: None,
        c_rows: Some(vec![2]),
        b_rows: Some(vec![1, 2]),
        direct_terms: 1,
        proportional_terms: 1,
        shape: None,
    };
    assert_eq!(
        ser_message(&plan_complex_json(bad_b).err().unwrap()),
        "complex JSON b matrix column count must be 1"
    );
}

#[test]
fn real_kernel_json_roundtrip_preserves_shape_and_layout() {
    let shape = Shape::matrix(2, 2).expect("matrix shape should be valid");
    let sizes = RealKernelSizes {
        n_poles: 3,
        poles: 3,
        n_functions: 4,
        direct_terms: 4,
        proportional_terms: Some(4),
        residue_rows: vec![4, 4, 4],
        shape: Some(shape),
    };
    assert_eq!(plan_real_kernel_json(sizes).unwrap().expect_matrix().unwrap(), (2, 2));
}

#[test]
fn real_kernel_json_structure_errors() {
    let base = || RealKernelSizes {
        n_poles: 2,
        poles: 2,
        n_functions: 1,
        direct_terms: 1,
        proportional_terms: None,
        residue_rows: vec![1, 1],
        shape: None,
    };
    assert!(plan_real_kernel_json(base()).unwrap().is_scalar());
    let mut a = base();
    a.poles = 1;
    assert_eq!(
        ser_message(&plan_real_kernel_json(a).unwrap_err()),
        "real-kernel JSON pole list length does not match n_poles"
    );
    let mut b = base();
    b.proportional_terms = Some(2);
    assert_eq!(
        ser_message(&plan_real_kernel_json(b).unwrap_err()),
        "real-kernel JSON proportional term count must match n_functions"
    );
    let mut c = base();
    c.residue_rows = vec![1, 2];
    assert_eq!(
        ser_message(&plan_real_kernel_json(c).unwrap_err()),
        "real-kernel JSON residue row length must match n_functions"
    );
}

#[test]
fn column_major_fit_evaluate_json_roundtrip() {
    let shape = Shape::vector(2).expect("shape");
    let sizes = vecfit::dims::ModelSizes {
        channels: 2,
        poles: 2,
        residues: 4,
        constant_terms: 2,
        proportional_terms: 2,
    };
    assert!(vecfit::dims::check_model(&sizes, &shape).is_ok());
    match plan_complex_json(residue_sizes(2, 2, Some(shape))).unwrap() {
        ComplexJsonPlan::Residues { channels, shape } => {
            assert_eq!(channels, 2);
            assert_eq!(shape.dims(), &[2]);
        }
        _ => panic!("residue form expected"),
    }
}

#[test]
fn csv_field_errors_are_csv_errors() {
    let csv = "f,|Y1|,ang_Y1\n1,2,3\n";
    let table = CsvTable {
        headers: Ok(strings(&["f", "|Y1|", "ang_Y1"])),
        records: vec![strings(&["1"])],
        error: None,
    };
    let cols = columns_from_table(table).unwrap();
    assert!(matches!(cols.rows[0][1], Err(VecfitError::Csv(ref m)) if m == "missing magnitude column"));
    assert_eq!(cols.rows[0].len(), 2);
    assert!(read_delimited(csv.as_bytes(), b',').unwrap().rows[0].iter().all(|f| f.is_ok()));
}
