use numrust::{arange, ArangeError};

fn as_floats(v: Vec<usize>) -> Vec<f64> {
    v.iter().map(|&x| x as f64).collect()
}

#[test]
fn test_arange() {
    let start = 1;
    let stop = 10;
    let step = 3;

    let expected_result = vec![1.0, 4.0, 7.0];
    assert_eq!(as_floats(arange(start, stop, step).unwrap()), expected_result);

    let start = 5;
    let stop = 20;
    let step = 5;

    let expected_result = vec![5.0, 10.0, 15.0];
    assert_eq!(as_floats(arange(start, stop, step).unwrap()), expected_result);

    assert_eq!(as_floats(arange(1, 6, 1).unwrap()), vec![1., 2., 3., 4., 5.]);
}

#[test]
fn test_arange_with_zero_step() {
    let start = 0;
    let stop = 10;
    let step = 0;

    assert!(arange(start, stop, step).is_err());
}

#[test]
fn test_arange_with_negative_step() {
    let start = 10;
    let stop = 0;
    let step = -2;

    let expected_result = vec![10.0, 8.0, 6.0, 4.0, 2.0];
    assert_eq!(as_floats(arange(start, stop, step).unwrap()), expected_result);

    let seq = arange(5, 0, -1).unwrap();
    assert_eq!(as_floats(seq), vec![5.0, 4.0, 3.0, 2.0, 1.0]);
}

#[test]
fn arange_zero_step_error_message() {
    assert_eq!(
        arange(3, 7, 0),
        Err(ArangeError("Step size cannot be 0".to_string()))
    );
}

#[test]
fn arange_documented_examples() {
    assert_eq!(arange(0, 5, 1).unwrap(), vec![0, 1, 2, 3, 4]);
    assert_eq!(arange(0, 5, 2).unwrap(), vec![0, 2, 4]);
    assert_eq!(arange(5, 0, -1).unwrap(), vec![5, 4, 3, 2, 1]);
}

#[test]
fn arange_empty_when_start_is_past_stop() {
    assert_eq!(arange(5, 5, 1).unwrap(), Vec::<usize>::new());
    assert_eq!(arange(9, 2, 3).unwrap(), Vec::<usize>::new());
    assert_eq!(arange(2, 9, -3).unwrap(), Vec::<usize>::new());
    assert_eq!(arange(1, 1, -2).unwrap(), Vec::<usize>::new());
    assert_eq!(arange(1, 0, -2).unwrap(), vec![1]);
}

#[test]
fn arange_step_larger_than_span() {
    assert_eq!(arange(4, 6, 10).unwrap(), vec![4]);
}

#[test]
fn arange_downwards_excludes_stop() {
    assert_eq!(arange(10, 0, -3).unwrap(), vec![10, 7, 4, 1]);
    assert_eq!(arange(10, 1, -3).unwrap(), vec![10, 7, 4]);
    assert_eq!(arange(10, 2, -3).unwrap(), vec![10, 7, 4]);
}

#[test]
fn arange_near_the_largest_usize() {
    let top = usize::MAX;
    assert_eq!(arange(top - 2, top, 1).unwrap(), vec![top - 2, top - 1]);
    assert_eq!(arange(top - 5, top, 4).unwrap(), vec![top - 5, top - 1]);
    assert_eq!(arange(top, 0, isize::MIN).unwrap(), vec![top, top - (1usize << 63)]);
    assert_eq!(arange(top, top - 4, -2).unwrap(), vec![top, top - 2]);
    assert_eq!(arange(top, top - 5, -2).unwrap(), vec![top, top - 2, top - 4]);
}
