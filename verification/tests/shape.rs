use vecfit::shape::{channel_index, concat_rows, isqrt, ResponseBatch};
use vecfit::{ErrorKind, FlatResponse, Layout, ResponseSample, Shape, VecfitError};

fn is_shape_error<T>(r: &Result<T, VecfitError>) -> bool {
    matches!(r, Err(VecfitError::Shape(_)))
}

#[test]
fn vector_shape_roundtrip() {
    let shaped = FlatResponse::from_values(vec![1.0, 2.0, 3.0]).expect("vector flatten should work");
    assert_eq!(shaped.shape.expect_vector().unwrap(), 3);
    let restored = ResponseSample::from(shaped)
        .into_vector()
        .expect("vector reconstruction should work");
    assert_eq!(restored.len(), 3);
}

#[test]
fn matrix_shape_roundtrip() {
    let flattened = FlatResponse::from_rows(vec![vec![1.0, 2.0], vec![3.0, 4.0]])
        .expect("matrix flatten should work");
    assert_eq!(flattened.shape.expect_matrix().unwrap(), (2, 2));
    let restored = ResponseSample::from(flattened)
        .into_matrix()
        .expect("matrix reconstruction should work");
    assert_eq!(restored[1][1], 4.0);
}

#[test]
fn explicit_tensor_wrapper_works() {
    let flattened = FlatResponse::new(
        vec![1.0; 6],
        Shape::tensor(vec![2, 3]).expect("shape should be valid"),
        Layout::RowMajor,
    )
    .expect("tensor wrapper should validate");
    assert_eq!(flattened.shape.channels(), 6);
}

#[test]
fn fit_rejects_layout_changes_between_samples() {
    let mut batch = ResponseBatch::new();
    for idx in 0..2usize {
        let response = FlatResponse::new(
            vec![idx as f64, idx as f64 + 1.0],
            Shape::vector(2).expect("vector shape should be valid"),
            if idx % 2 == 0 {
                Layout::RowMajor
            } else {
                Layout::ColumnMajor
            },
        )
        .expect("response should be valid");
        let pushed = batch.push(response);
        if idx == 1 {
            let err = pushed.expect_err("mixed response layouts should be rejected");
            assert!(matches!(err, VecfitError::Shape(_)));
            match err {
                VecfitError::Shape(m) => {
                    assert_eq!(m, "response layout changed from RowMajor to ColumnMajor")
                }
                _ => unreachable!(),
            }
        } else {
            assert!(pushed.is_ok());
        }
    }
}

#[test]
fn batch_rejects_shape_changes_and_keeps_values() {
    let mut batch = ResponseBatch::new();
    batch
        .push(FlatResponse::from_values(vec![1, 2]).unwrap())
        .unwrap();
    batch
        .push(FlatResponse::from_values(vec![3, 4]).unwrap())
        .unwrap();
    let err = batch
        .push(FlatResponse::from_values(vec![5, 6, 7]).unwrap())
        .unwrap_err();
    match err {
        VecfitError::Shape(m) => assert_eq!(m, "response shape changed from [2] to [3]"),
        _ => panic!("wrong error kind"),
    }
    let (values, shape, layout) = batch.finish();
    assert_eq!(values, vec![1, 2, 3, 4]);
    assert_eq!(shape.dims(), &[2]);
    assert_eq!(layout, Layout::RowMajor);
}

#[test]
fn empty_batch_is_scalar() {
    let batch: ResponseBatch<i32> = ResponseBatch::new();
    let (values, shape, _) = batch.finish();
    assert!(values.is_empty());
    assert!(shape.is_scalar());
}

#[test]
fn shape_constructors_and_errors() {
    assert!(Shape::scalar().is_scalar());
    assert_eq!(Shape::scalar().channels(), 1);
    assert_eq!(Shape::matrix(2, 3).unwrap().channels(), 6);
    assert_eq!(Shape::tensor(vec![2, 3, 4]).unwrap().ndim(), 3);
    let err = Shape::tensor(vec![2, 0]);
    assert!(is_shape_error(&err));
    match err {
        Err(VecfitError::Shape(m)) => assert_eq!(m, "shape dimensions must be positive"),
        _ => unreachable!(),
    }
    assert!(is_shape_error(&Shape::vector(0)));
    assert!(is_shape_error(&Shape::matrix(0, 3)));
    match Shape::matrix(2, 2).unwrap().expect_vector() {
        Err(VecfitError::Shape(m)) => assert_eq!(m, "expected vector shape, found [2, 2]"),
        _ => panic!("expected a shape error"),
    }
    match Shape::vector(12).unwrap().expect_matrix() {
        Err(VecfitError::Shape(m)) => assert_eq!(m, "expected matrix shape, found [12]"),
        _ => panic!("expected a shape error"),
    }
    assert_eq!(Shape::from(()), Shape::scalar());
    assert_eq!(Shape::from_dims(vec![0, 4]).dims(), &[0, 4]);
}

#[test]
fn infer_square_cases() {
    assert!(Shape::infer_square(1).unwrap().is_scalar());
    assert_eq!(Shape::infer_square(4).unwrap().dims(), &[2, 2]);
    assert_eq!(Shape::infer_square(9).unwrap().dims(), &[3, 3]);
    assert_eq!(Shape::infer_square(6).unwrap().dims(), &[6]);
    assert!(is_shape_error(&Shape::infer_square(0)));
    for n in 1..200usize {
        assert_eq!(Shape::infer_square(n).unwrap().channels(), n);
    }
}

#[test]
fn isqrt_values() {
    assert_eq!(isqrt(0), 0);
    assert_eq!(isqrt(1), 1);
    assert_eq!(isqrt(15), 3);
    assert_eq!(isqrt(16), 4);
    assert_eq!(isqrt(17), 4);
    assert_eq!(isqrt(usize::MAX), (1usize << (usize::BITS / 2)) - 1);
}

#[test]
fn flat_response_length_mismatch_message() {
    let err = FlatResponse::new(vec![1, 2, 3], Shape::matrix(2, 2).unwrap(), Layout::RowMajor)
        .unwrap_err();
    match err {
        VecfitError::Shape(m) => assert_eq!(
            m,
            "flattened data length 3 does not match shape [2, 2] (4 channels)"
        ),
        _ => panic!("expected a shape error"),
    }
}

#[test]
fn from_rows_rejects_empty_and_ragged() {
    match FlatResponse::<i32>::from_rows(vec![]) {
        Err(VecfitError::Shape(m)) => assert_eq!(m, "matrix response cannot be empty"),
        _ => panic!("expected a shape error"),
    }
    match FlatResponse::<i32>::from_rows(vec![vec![]]) {
        Err(VecfitError::Shape(m)) => assert_eq!(m, "matrix response cannot be empty"),
        _ => panic!("expected a shape error"),
    }
    match FlatResponse::from_rows(vec![vec![1, 2], vec![3]]) {
        Err(VecfitError::Shape(m)) => {
            assert_eq!(m, "matrix response rows must have constant length")
        }
        _ => panic!("expected a shape error"),
    }
    assert!(is_shape_error(&FlatResponse::<i32>::from_values(vec![])));
}

#[test]
fn column_major_matrix_reconstruction() {
    let sample = ResponseSample::new(
        vec![1, 2, 3, 4, 5, 6],
        Shape::matrix(2, 3).unwrap(),
        Layout::ColumnMajor,
    )
    .unwrap();
    let m = sample.into_matrix().unwrap();
    assert_eq!(m, vec![vec![1, 3, 5], vec![2, 4, 6]]);
    let sample = ResponseSample::new(
        vec![1, 2, 3, 4, 5, 6],
        Shape::matrix(2, 3).unwrap(),
        Layout::RowMajor,
    )
    .unwrap();
    assert_eq!(sample.into_matrix().unwrap(), vec![vec![1, 2, 3], vec![4, 5, 6]]);
}

#[test]
fn scalar_reconstruction() {
    let sample = ResponseSample::from(FlatResponse::scalar(7));
    assert_eq!(sample.into_scalar().unwrap(), 7);
    let vector = ResponseSample::new(vec![1, 2], Shape::vector(2).unwrap(), Layout::RowMajor)
        .unwrap();
    match vector.into_scalar() {
        Err(VecfitError::Shape(m)) => assert_eq!(m, "expected scalar shape, found [2]"),
        _ => panic!("expected a shape error"),
    }
    let missing = ResponseSample::<i32> {
        values: vec![],
        shape: Shape::scalar(),
        layout: Layout::RowMajor,
    };
    match missing.into_scalar() {
        Err(VecfitError::Shape(m)) => assert_eq!(m, "scalar value is missing"),
        _ => panic!("expected a shape error"),
    }
}

#[test]
fn split_and_transpose_samples() {
    let values = vec![1, 2, 3, 4, 5, 6];
    let shape = Shape::vector(2).unwrap();
    let rows = vecfit::shape::split_samples(&values, 3, 2, &shape, Layout::RowMajor).unwrap();
    assert_eq!(rows.len(), 3);
    assert_eq!(rows[2].values, vec![5, 6]);
    let wrong = vecfit::shape::split_samples(&values, 2, 3, &shape, Layout::RowMajor);
    assert!(is_shape_error(&wrong));
    let by_channel = vecfit::shape::transpose_samples(&values, 3, 2);
    assert_eq!(by_channel, vec![vec![1, 3, 5], vec![2, 4, 6]]);
}

#[test]
fn error_constructor_keeps_kind_and_message() {
    let e = VecfitError::new(ErrorKind::Csv, "bad".to_string());
    assert!(matches!(e, VecfitError::Csv(ref m) if m == "bad"));
    let c = e.clone();
    assert!(matches!(c, VecfitError::Csv(ref m) if m == "bad"));
}

#[test]
fn channel_index_follows_layout() {
    assert_eq!(channel_index(Layout::RowMajor, 2, 3, 1, 2), 5);
    assert_eq!(channel_index(Layout::ColumnMajor, 2, 3, 1, 2), 5);
    assert_eq!(channel_index(Layout::RowMajor, 2, 3, 0, 2), 2);
    assert_eq!(channel_index(Layout::ColumnMajor, 2, 3, 0, 2), 4);
    assert_eq!(channel_index(Layout::ColumnMajor, 2, 3, 1, 0), 1);
}

#[test]
fn concat_rows_keeps_order() {
    let rows = vec![vec![1, 2], vec![], vec![3], vec![4, 5, 6]];
    assert_eq!(concat_rows(&rows), vec![1, 2, 3, 4, 5, 6]);
    let none: Vec<Vec<u8>> = Vec::new();
    assert!(concat_rows(&none).is_empty());
}

#[test]
fn matrix_and_tensor_shapes_report_channels() {
    assert_eq!(Shape::matrix(3, 4).unwrap().channels(), 12);
    assert_eq!(Shape::tensor(vec![2, 3, 4]).unwrap().channels(), 24);
}
