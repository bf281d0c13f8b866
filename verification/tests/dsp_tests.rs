use monlam::dsp::{calculate_multiply, calculate_sum};

#[test]
fn test_calculate_sum() {
    let result = calculate_sum(2, 3);
    println!("Result: {}", result);
    assert_eq!(result, 5);
}

#[test]
fn test_calculate_multiply() {
    let result = calculate_multiply(2, 3);
    println!("Result: {}", result);
    assert_eq!(result, 6);
}

#[test]
fn sum_of_negatives() {
    assert_eq!(calculate_sum(-7, -8), -15);
    assert_eq!(calculate_sum(i32::MAX, 0), i32::MAX);
}

#[test]
fn product_with_zero_and_sign() {
    assert_eq!(calculate_multiply(0, 123), 0);
    assert_eq!(calculate_multiply(-4, 5), -20);
}
