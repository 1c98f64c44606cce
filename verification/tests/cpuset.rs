use cores::singlify;

#[test]
fn singlify_keeps_the_least_identifier() {
    assert_eq!(singlify(&vec![4, 5]), vec![4]);
    assert_eq!(singlify(&vec![9, 3, 7]), vec![3]);
    assert_eq!(singlify(&vec![128, 129, 130]), vec![128]);
}

#[test]
fn singlify_of_one_processor_changes_nothing() {
    assert_eq!(singlify(&vec![0]), vec![0]);
    assert_eq!(singlify(&vec![u32::MAX]), vec![u32::MAX]);
}

#[test]
fn singlify_of_nothing_is_nothing() {
    assert_eq!(singlify(&Vec::new()), Vec::<u32>::new());
}

#[test]
fn singlify_ignores_repeats_and_order() {
    assert_eq!(singlify(&vec![6, 2, 6, 2, 8]), vec![2]);
    assert_eq!(singlify(&vec![8, 6, 2]), vec![2]);
}
