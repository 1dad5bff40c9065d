use linear_algebra::{Matrix, Operation, Operator};

fn pair() -> (Matrix, Matrix) {
    (
        Matrix::new(2, 2, vec![1, 2, 3, 4]),
        Matrix::new(2, 2, vec![5, 6, 7, 8]),
    )
}

#[test]
fn do_operation_follows_operator() {
    let (a, b) = pair();
    let add = Operation::new(a.clone(), Operator::Add, b.clone(), None);
    let sub = Operation::new(a.clone(), Operator::Subtract, b.clone(), None);
    let mul = Operation::new(a, Operator::Multiply, b, None);
    assert_eq!(add.do_operation(), Matrix::new(2, 2, vec![6, 8, 10, 12]));
    assert_eq!(sub.do_operation(), Matrix::new(2, 2, vec![-4, -4, -4, -4]));
    assert_eq!(mul.do_operation(), Matrix::new(2, 2, vec![19, 22, 43, 50]));
}

#[test]
fn store_keeps_result() {
    let (a, b) = pair();
    let mut op = Operation::new(a, Operator::Add, b, None);
    assert!(op.result().is_none());
    op.do_operation_and_store();
    assert_eq!(op.result(), Some(&Matrix::new(2, 2, vec![6, 8, 10, 12])));
    op.do_operation_and_store();
    assert_eq!(op.result(), Some(&Matrix::new(2, 2, vec![6, 8, 10, 12])));
}

#[test]
fn computable_checks_shapes() {
    let a = Matrix::new(3, 2, vec![1, 2, 3, 4, 5, 6]);
    let b = Matrix::new(2, 3, vec![1, 2, 3, 4, 5, 6]);
    assert!(!Operation::new(a.clone(), Operator::Add, b.clone(), None).is_computable());
    assert!(!Operation::new(a.clone(), Operator::Subtract, b.clone(), None).is_computable());
    assert!(Operation::new(a.clone(), Operator::Multiply, b.clone(), None).is_computable());
    assert!(!Operation::new(a.clone(), Operator::Multiply, a.clone(), None).is_computable());
    assert!(Operation::new(a.clone(), Operator::Add, a, None).is_computable());
}

#[test]
fn operator_labels() {
    assert_eq!(Operator::Multiply.label(), "Multiplied by\n");
    assert_eq!(Operator::Add.label(), "Added to\n");
    assert_eq!(Operator::Subtract.label(), "Minus\n");
}

#[test]
fn text_before_store_has_no_equals_section() {
    let a = Matrix::new(1, 1, vec![1]);
    let b = Matrix::new(1, 1, vec![2]);
    let op = Operation::new(a, Operator::Subtract, b, None);
    let text = op.to_text();
    assert_eq!(text, "     1 \n\nMinus\n\n     2 \n");
    assert!(!text.contains("Equals"));
}

#[test]
fn text_after_store_has_equals_section() {
    let a = Matrix::new(3, 2, vec![1, 2, 3, 4, 5, 6]);
    let b = Matrix::new(2, 3, vec![1, 2, 3, 4, 5, 6]);
    let mut op = Operation::new(a, Operator::Multiply, b, None);
    op.do_operation_and_store();
    assert_eq!(
        op.to_text(),
        "\n     1      2      3 \n     4      5      6 \n\nMultiplied by\n\n     1      2 \n     3      4 \n     5      6 \n\nEquals\n\n    22     28 \n    49     64 \n"
    );
}
