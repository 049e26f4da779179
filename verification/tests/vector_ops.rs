use linalg::{cross_product, lerp, linear_combination, LinAlgError, Vector};

fn vector(values: &[i64]) -> Vector<i64> {
    Vector::from(values.to_vec())
}

#[test]
fn from_keeps_the_components_in_order() {
    let v = vector(&[2, 3, 5]);
    assert_eq!(v.data, vec![2, 3, 5]);
    assert_eq!(v.size(), 3);
}

#[test]
fn size_of_the_empty_vector_is_zero() {
    assert_eq!(vector(&[]).size(), 0);
}

#[test]
fn zero_builds_a_vector_of_zeros() {
    assert_eq!(Vector::<i64>::zero(3).data, vec![0, 0, 0]);
    assert_eq!(Vector::<i64>::zero(0).data, Vec::<i64>::new());
}

#[test]
fn get_reads_inside_the_bounds() {
    let v = vector(&[7, 8, 9]);
    assert_eq!(v.get(0), Ok(7));
    assert_eq!(v.get(2), Ok(9));
}

#[test]
fn get_outside_the_bounds_is_an_error() {
    let v = vector(&[7, 8, 9]);
    assert_eq!(v.get(3), Err(LinAlgError::IndexOutOfRange));
    assert_eq!(vector(&[]).get(0), Err(LinAlgError::IndexOutOfRange));
}

#[test]
fn set_replaces_one_component() {
    let mut v = vector(&[7, 8, 9]);
    assert_eq!(v.set(1, -4), Ok(()));
    assert_eq!(v.data, vec![7, -4, 9]);
}

#[test]
fn set_outside_the_bounds_changes_nothing() {
    let mut v = vector(&[7, 8, 9]);
    assert_eq!(v.set(3, 1), Err(LinAlgError::IndexOutOfRange));
    assert_eq!(v.data, vec![7, 8, 9]);
}

#[test]
fn add_is_componentwise() {
    let mut u = vector(&[2, 3, 5]);
    let v = vector(&[5, 7, -100]);
    assert_eq!(u.add(&v), Ok(()));
    assert_eq!(u.data, vec![7, 10, -95]);
    assert_eq!(v.data, vec![5, 7, -100]);
}

#[test]
fn sub_is_componentwise() {
    let mut u = vector(&[2, 3, 5]);
    let v = vector(&[5, 7, -100]);
    assert_eq!(u.sub(&v), Ok(()));
    assert_eq!(u.data, vec![-3, -4, 105]);
}

#[test]
fn scl_multiplies_every_component() {
    let mut u = vector(&[2, -3, 0]);
    u.scl(5);
    assert_eq!(u.data, vec![10, -15, 0]);
}

#[test]
fn add_of_other_size_is_an_error_and_changes_nothing() {
    let mut j = vector(&[8, 9]);
    let v = vector(&[5, 7, -100]);
    assert_eq!(j.add(&v), Err(LinAlgError::DimensionMismatch));
    assert_eq!(j.data, vec![8, 9]);
}

#[test]
fn sub_of_other_size_is_an_error_and_changes_nothing() {
    let mut j = vector(&[8, 9]);
    let v = vector(&[5, 7, -100]);
    assert_eq!(j.sub(&v), Err(LinAlgError::DimensionMismatch));
    assert_eq!(j.data, vec![8, 9]);
}

#[test]
fn add_then_sub_gives_back_the_vector() {
    let mut u = vector(&[2, -3, i64::MAX, i64::MIN, 0]);
    let v = vector(&[5, 7, 1, -1, i64::MIN]);
    u.add(&v).unwrap();
    assert_eq!(u.data, vec![7, 4, i64::MIN, i64::MAX, i64::MIN]);
    u.sub(&v).unwrap();
    assert_eq!(u.data, vec![2, -3, i64::MAX, i64::MIN, 0]);
}

#[test]
fn dot_sums_the_products() {
    assert_eq!(vector(&[1, 1]).dot(&vector(&[1, 1])), Ok(2));
    assert_eq!(vector(&[-1, 6]).dot(&vector(&[3, 2])), Ok(9));
    assert_eq!(vector(&[]).dot(&vector(&[])), Ok(0));
}

#[test]
fn dot_of_orthogonal_vectors_is_zero() {
    assert_eq!(vector(&[1, 0]).dot(&vector(&[0, 1])), Ok(0));
}

#[test]
fn dot_of_other_size_is_an_error_not_zero() {
    assert_eq!(
        vector(&[0, 0, 100]).dot(&vector(&[1, 1])),
        Err(LinAlgError::DimensionMismatch)
    );
}

#[test]
fn dot_does_not_depend_on_the_order() {
    let u = vector(&[3, -4, 12, 7]);
    let v = vector(&[-2, 5, 1, 9]);
    assert_eq!(u.dot(&v), Ok(49));
    assert_eq!(v.dot(&u), Ok(49));
}

#[test]
fn norm_1_sums_the_absolute_values() {
    assert_eq!(vector(&[0, 0, 0]).norm_1(), 0);
    assert_eq!(vector(&[1, 2, 3]).norm_1(), 6);
    assert_eq!(vector(&[-1, -2]).norm_1(), 3);
    assert_eq!(vector(&[]).norm_1(), 0);
}

#[test]
fn norm_inf_is_the_greatest_absolute_value() {
    assert_eq!(vector(&[0, 0, 0]).norm_inf(), 0);
    assert_eq!(vector(&[1, 2, 3]).norm_inf(), 3);
    assert_eq!(vector(&[-1, -2]).norm_inf(), 2);
    assert_eq!(vector(&[4, -9, 5]).norm_inf(), 9);
}

#[test]
fn norm_inf_of_the_empty_vector_is_zero() {
    assert_eq!(vector(&[]).norm_inf(), 0);
}

#[test]
fn lerp_of_scalars() {
    assert_eq!(lerp(0i64, 1, 0), 0);
    assert_eq!(lerp(0i64, 1, 1), 1);
    assert_eq!(lerp(10i64, 20, 3), 40);
}

#[test]
fn lerp_at_zero_is_the_first_vector() {
    let u = vector(&[1, 2, -7]);
    let v = vector(&[3, 4, 100]);
    assert_eq!(Vector::lerp(&u, &v, 0).unwrap().data, vec![1, 2, -7]);
}

#[test]
fn lerp_at_one_is_the_second_vector() {
    let u = vector(&[1, 2, -7]);
    let v = vector(&[3, 4, 100]);
    assert_eq!(Vector::lerp(&u, &v, 1).unwrap().data, vec![3, 4, 100]);
}

#[test]
fn lerp_extrapolates_outside_zero_to_one() {
    let u = vector(&[1, 2]);
    let v = vector(&[3, 4]);
    assert_eq!(Vector::lerp(&u, &v, 2).unwrap().data, vec![5, 6]);
    assert_eq!(Vector::lerp(&u, &v, -1).unwrap().data, vec![-1, 0]);
}

#[test]
fn lerp_of_other_size_is_an_error() {
    let u = vector(&[1, 2]);
    let v = vector(&[3, 4, 5]);
    assert_eq!(Vector::lerp(&u, &v, 1), Err(LinAlgError::DimensionMismatch));
}

#[test]
fn cross_product_follows_the_right_hand_rule() {
    let r = cross_product(&vector(&[0, 0, 1]), &vector(&[1, 0, 0])).unwrap();
    assert_eq!(r.data, vec![0, 1, 0]);
    let r = cross_product(&vector(&[1, 2, 3]), &vector(&[4, 5, 6])).unwrap();
    assert_eq!(r.data, vec![-3, 6, -3]);
    let r = cross_product(&vector(&[4, 2, -3]), &vector(&[-2, -5, 16])).unwrap();
    assert_eq!(r.data, vec![17, -58, -16]);
}

#[test]
fn cross_product_outside_three_dimensions_is_an_error() {
    let three = vector(&[1, 2, 3]);
    let two = vector(&[1, 2]);
    let four = vector(&[1, 2, 3, 4]);
    assert_eq!(cross_product(&two, &three), Err(LinAlgError::UnsupportedDimension));
    assert_eq!(cross_product(&three, &two), Err(LinAlgError::UnsupportedDimension));
    assert_eq!(cross_product(&two, &two), Err(LinAlgError::UnsupportedDimension));
    assert_eq!(cross_product(&four, &four), Err(LinAlgError::UnsupportedDimension));
}

#[test]
fn linear_combination_of_two_vectors() {
    let v1 = vector(&[1, 2, 3]);
    let v2 = vector(&[0, 10, -100]);
    let r = linear_combination(&[v1, v2], &[10, -2]).unwrap();
    assert_eq!(r.data, vec![10, 0, 230]);
}

#[test]
fn linear_combination_of_the_unit_vectors() {
    let e1 = vector(&[1, 0, 0]);
    let e2 = vector(&[0, 1, 0]);
    let e3 = vector(&[0, 0, 1]);
    let r = linear_combination(&[e1, e2, e3], &[10, -2, 5]).unwrap();
    assert_eq!(r.data, vec![10, -2, 5]);
}

#[test]
fn linear_combination_of_nothing_is_empty() {
    let none: [Vector<i64>; 0] = [];
    let r = linear_combination(&none, &[]).unwrap();
    assert_eq!(r.size(), 0);
}

#[test]
fn linear_combination_needs_one_coefficient_each() {
    let v1 = vector(&[1, 2, 3]);
    let v2 = vector(&[0, 10, -100]);
    assert_eq!(
        linear_combination(&[v1, v2], &[10]),
        Err(LinAlgError::DimensionMismatch)
    );
}

#[test]
fn linear_combination_needs_vectors_of_one_size() {
    let v1 = vector(&[1, 2, 3]);
    let v2 = vector(&[0, 10]);
    assert_eq!(
        linear_combination(&[v1, v2], &[10, -2]),
        Err(LinAlgError::DimensionMismatch)
    );
    let v1 = vector(&[1, 2]);
    let v2 = vector(&[0, 10, 7]);
    assert_eq!(
        linear_combination(&[v1, v2], &[10, -2]),
        Err(LinAlgError::DimensionMismatch)
    );
}

#[test]
fn norms_of_the_least_integer_wrap() {
    assert_eq!(vector(&[i64::MIN]).norm_1(), i64::MIN);
    assert_eq!(vector(&[i64::MIN]).norm_inf(), 0);
    assert_eq!(vector(&[i64::MIN + 1]).norm_inf(), i64::MAX);
}

#[test]
fn dot_wraps_around() {
    assert_eq!(vector(&[i64::MAX, 1]).dot(&vector(&[2, 5])), Ok(3));
}
