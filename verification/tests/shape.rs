use dl_core::Shape;

#[test]
fn shape_numel() {
    let s = Shape::new(vec![2, 3, 4]);
    assert_eq!(s.numel(), 24);
    assert_eq!(s.rank(), 3);
}

#[test]
fn shape_dims_and_equality() {
    let s = Shape::new(vec![2, 3]);
    assert_eq!(s.dims(), &[2, 3]);
    assert!(s.same_as(&Shape::new(vec![2, 3])));
    assert!(!s.same_as(&Shape::new(vec![3, 2])));
    assert!(!s.same_as(&Shape::new(vec![2, 3, 1])));
}

#[test]
fn shape_scalar_and_empty() {
    assert!(Shape::new(vec![]).is_scalar());
    assert_eq!(Shape::new(vec![]).numel(), 1);
    assert!(Shape::new(vec![1, 1]).is_scalar());
    assert!(Shape::new(vec![5, 0]).is_scalar());
    assert!(!Shape::new(vec![2]).is_scalar());
}

#[test]
fn shape_numel_too_large() {
    let s = Shape::new(vec![usize::MAX, 2]);
    assert_eq!(s.checked_numel(), None);
    assert!(!s.is_scalar());
    let z = Shape::new(vec![usize::MAX, usize::MAX, 0]);
    assert_eq!(z.checked_numel(), Some(0));
    assert_eq!(z.numel(), 0);
}

#[test]
fn shape_from_sizes() {
    let a = Shape::from(vec![2, 3]);
    assert_eq!(a.dims(), &[2, 3]);
    let sizes: &[usize] = &[4, 5, 6];
    let b = Shape::from(sizes);
    assert_eq!(b.dims(), &[4, 5, 6]);
    let c: Shape = vec![7].into();
    assert!(c.same_as(&Shape::new(vec![7])));
}

#[test]
fn shape_as_text() {
    assert_eq!(Shape::new(vec![2, 3, 4]).to_string(), "[2, 3, 4]");
    assert_eq!(Shape::new(vec![]).to_string(), "[]");
    assert_eq!(Shape::new(vec![10]).to_string(), "[10]");
}
