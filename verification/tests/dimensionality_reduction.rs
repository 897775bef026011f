use note_graph::PluginError;
use note_graph::SVDReducer;

#[test]
fn test_svd_reducer_invalid_target_dims() {
    // Two 2-dimensional vectors, target of five: projection cannot expand
    // dimensionality.
    let lengths = vec![2, 2];

    let reducer = SVDReducer::new();
    let result = reducer.validate_reduce_input(&lengths, 5);

    assert!(result.is_err());
    match result {
        Err(PluginError::DimensionalityReductionError { method, reason: _ }) => {
            assert_eq!(method, "SVD");
        },
        _ => panic!("Expected DimensionalityReductionError"),
    }
}

#[test]
fn test_svd_reducer_mismatched_dimensions() {
    // A 3-dimensional vector followed by a 2-dimensional one.
    let lengths = vec![3, 2];

    let reducer = SVDReducer::new();
    let result = reducer.validate_reduce_input(&lengths, 2);

    assert!(result.is_err());
    match result {
        Err(PluginError::InvalidVectorDimensions { expected, got, vector_index }) => {
            assert_eq!(expected, 3);
            assert_eq!(got, 2);
            assert_eq!(vector_index, 1);
        },
        _ => panic!("Expected InvalidVectorDimensions error"),
    }
}

#[test]
fn test_svd_reducer_empty_input() {
    let lengths: Vec<usize> = vec![];

    let reducer = SVDReducer::new();
    let result = reducer.validate_reduce_input(&lengths, 2);

    assert!(result.is_err());
    match result {
        Err(PluginError::InsufficientData { required, provided }) => {
            assert_eq!(required, 1);
            assert_eq!(provided, 0);
        },
        _ => panic!("Expected InsufficientData error"),
    }
}

#[test]
fn test_svd_reducer_valid_input() {
    let lengths = vec![3, 3, 3, 3];

    let reducer = SVDReducer::new();
    assert_eq!(reducer.validate_reduce_input(&lengths, 2).unwrap(), 3);
    assert_eq!(reducer.validate_reduce_input(&lengths, 3).unwrap(), 3);
}

#[test]
fn test_svd_reducer_options() {
    let default_reducer = SVDReducer::new();
    assert!(default_reducer.is_centering());
    assert!(!default_reducer.is_scaling());

    let custom = SVDReducer::with_options(false, true);
    assert!(!custom.is_centering());
    assert!(custom.is_scaling());

    assert_eq!(default_reducer.method_name(), "SVD");
}

#[test]
fn test_svd_reducer_target_dims_message_names_dimensions() {
    let lengths = vec![2, 2];
    let reducer = SVDReducer::new();
    match reducer.validate_reduce_input(&lengths, 5) {
        Err(PluginError::DimensionalityReductionError { method: _, reason }) => {
            assert!(reason.contains('5'));
            assert!(reason.contains('2'));
        },
        _ => panic!("Expected DimensionalityReductionError"),
    }
}
