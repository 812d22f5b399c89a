use synthkit::retain_mut::retain_mut;

#[test]
fn retain_mut_empty() {
    let mut v: Vec<usize> = vec![];
    let f = |x: &usize| *x % 2 == 1;
    retain_mut(&mut v, f);
    assert!(v.is_empty());
}

#[test]
fn retain_mut_full() {
    let v = vec![1, 3, 5];
    let mut w = v.clone();
    let f = |x: &usize| *x % 2 == 1;
    retain_mut(&mut w, f);
    assert_eq!(&v, &w);
}

#[test]
fn retain_mut_partial() {
    let mut v = vec![2, 3, 5, 6, 7, 8];
    let f = |x: &usize| *x % 2 == 1;
    retain_mut(&mut v, f);
    assert_eq!(&vec![3, 5, 7], &v);
}

#[test]
fn retain_mut_keeps_order() {
    let mut v: Vec<usize> = vec![10, 1, 20, 2, 30, 3];
    retain_mut(&mut v, |x: &usize| *x >= 10);
    assert_eq!(&vec![10, 20, 30], &v);
}

#[test]
fn retain_mut_drops_all() {
    let mut v: Vec<usize> = vec![4, 6, 8];
    retain_mut(&mut v, |_x: &usize| false);
    assert!(v.is_empty());
}
