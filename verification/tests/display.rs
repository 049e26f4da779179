use linalg::{Matrix, Vector};

fn shown(values: &[f32]) -> Vec<String> {
    values.iter().map(|x| format!("{:.1}", x)).collect()
}

#[test]
fn a_vector_prints_one_bracketed_component_per_line() {
    let v = Vector { data: shown(&[4., 2.]) };
    assert_eq!(v.to_text(), "[4.0]\n[2.0]\n");
    let v = Vector { data: shown(&[-3., 6.25, -0.04]) };
    assert_eq!(v.to_text(), "[-3.0]\n[6.2]\n[-0.0]\n");
}

#[test]
fn the_empty_vector_prints_nothing() {
    let v = Vector { data: Vec::<String>::new() };
    assert_eq!(v.to_text(), "");
}

#[test]
fn a_matrix_prints_one_bracketed_row_per_line() {
    let m = Matrix { data: shown(&[8., 4., 1., 0.]), rows: 2, cols: 2 };
    assert_eq!(m.to_text(), "[8.0, 4.0]\n[1.0, 0.0]\n");
}

#[test]
fn a_wide_matrix_prints_its_rows_not_its_columns() {
    let m = Matrix { data: shown(&[1., 2., 3., 4., 5., 6.]), rows: 2, cols: 3 };
    assert_eq!(m.to_text(), "[1.0, 2.0, 3.0]\n[4.0, 5.0, 6.0]\n");
    let m = Matrix { data: shown(&[1., 2., 3., 4., 5., 6.]), rows: 3, cols: 2 };
    assert_eq!(m.to_text(), "[1.0, 2.0]\n[3.0, 4.0]\n[5.0, 6.0]\n");
}

#[test]
fn a_matrix_of_one_column_prints_no_separator() {
    let m = Matrix { data: shown(&[1., 2.]), rows: 2, cols: 1 };
    assert_eq!(m.to_text(), "[1.0]\n[2.0]\n");
}

#[test]
fn a_matrix_without_columns_prints_empty_rows() {
    let m = Matrix { data: Vec::<String>::new(), rows: 2, cols: 0 };
    assert_eq!(m.to_text(), "[]\n[]\n");
    let m = Matrix { data: Vec::<String>::new(), rows: 0, cols: 0 };
    assert_eq!(m.to_text(), "");
}

#[test]
fn entries_keep_their_text_as_given() {
    let m = Matrix {
        data: vec!["a".to_string(), "".to_string(), "b, c".to_string()],
        rows: 1,
        cols: 3,
    };
    assert_eq!(m.to_text(), "[a, , b, c]\n");
}
