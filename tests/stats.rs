use text_tools::stats::{median, mode, Median};

fn as_real(m: Median) -> f64 {
    match m {
        Median::Int(v) => v as f64,
        Median::Half(d) => d as f64 * 0.5,
    }
}

#[test]
fn median_odd_and_even_length_input() {
    let odd_length: Vec<i32> = vec![4, 5, 3, 1, 2];
    let even_length: Vec<i32> = vec![4, 2, 3, 1];
    assert_eq!(median(&odd_length).unwrap(), Median::Int(3));
    assert_eq!(median(&even_length).unwrap(), Median::Half(5));
    assert_eq!(as_real(median(&even_length).unwrap()), 2.5);
}

#[test]
fn median_empty_and_single_element_input() {
    let empty: Vec<i32> = vec![];
    let one_element: Vec<i32> = vec![5];
    assert_eq!(median(&empty), None);
    assert_eq!(median(&one_element).unwrap(), Median::Int(5));
}

#[test]
fn unimodal_and_multimodal() {
    let one_mode_vec: Vec<i32> = vec![4, 1, 3, 3, 1, 3];
    let two_mode_vec: Vec<i32> = vec![4, 1, 3, 3, 1, 1, 1, 3, 3];
    assert_eq!(mode(&one_mode_vec).unwrap(), vec![3]);
    assert_eq!(mode(&two_mode_vec).unwrap(), vec![1, 3]);
}

#[test]
fn mode_empty_and_single_element_input() {
    let empty: Vec<i32> = vec![];
    let one_element: Vec<i32> = vec![5];
    assert_eq!(mode(&empty), None);
    assert_eq!(mode(&one_element).unwrap(), vec![5]);
}

#[test]
fn median_and_mode_of_two_pairs() {
    let v: Vec<i32> = vec![1, 1, 2, 2, 3, 4];
    assert_eq!(mode(&v).unwrap(), vec![1, 2]);
    assert_eq!(median(&v).unwrap(), Median::Half(4));
    assert_eq!(as_real(median(&v).unwrap()), 2.0);
}

#[test]
fn median_of_even_pairs_is_not_truncated() {
    assert_eq!(as_real(median(&[1, 3]).unwrap()), 2.0);
    assert_eq!(as_real(median(&[1, 2]).unwrap()), 1.5);
    assert_eq!(median(&[-3, -2]).unwrap(), Median::Half(-5));
}

#[test]
fn median_ignores_input_order() {
    let a: Vec<i32> = vec![9, -4, 7, 7, 0, 12];
    let b: Vec<i32> = vec![7, 12, 0, -4, 7, 9];
    assert_eq!(median(&a), median(&b));
    assert_eq!(median(&a).unwrap(), Median::Half(14));
}

#[test]
fn median_of_extreme_values_does_not_overflow() {
    let v: Vec<i32> = vec![i32::MAX, i32::MAX];
    assert_eq!(median(&v).unwrap(), Median::Half(2 * i32::MAX as i64));
    let w: Vec<i32> = vec![i32::MIN, i32::MAX, 0];
    assert_eq!(median(&w).unwrap(), Median::Int(0));
}

#[test]
fn mode_lists_every_value_when_all_tie() {
    let v: Vec<i32> = vec![5, -1, 3];
    assert_eq!(mode(&v).unwrap(), vec![-1, 3, 5]);
    let caller = v.clone();
    let _ = median(&v);
    assert_eq!(v, caller);
}
