fn check(sort: fn(&mut Vec<i64>)) {
    let mut vec: Vec<i64> = vec![31, -4, 31, 0, 99, 12, 7, -4, 55, 3];
    sort(&mut vec);
    assert_eq!(vec![-4, -4, 0, 3, 7, 12, 31, 31, 55, 99], vec);

    let mut empty: Vec<i64> = vec![];
    sort(&mut empty);
    assert_eq!(Vec::<i64>::new(), empty);

    let mut single: Vec<i64> = vec![42];
    sort(&mut single);
    assert_eq!(vec![42], single);

    let mut reversed: Vec<i64> = vec![5, 4, 3, 2, 1];
    sort(&mut reversed);
    assert_eq!(vec![1, 2, 3, 4, 5], reversed);

    let mut same: Vec<i64> = vec![8, 8, 8];
    sort(&mut same);
    assert_eq!(vec![8, 8, 8], same);
}

#[test]
fn bubble_sorts_exactly() {
    check(algods::sorting::bubble::sort);
}

#[test]
fn gnome_sorts_exactly() {
    check(algods::sorting::gnome::sort);
}

#[test]
fn insertion_sorts_exactly() {
    check(algods::sorting::insertion::sort);
}

#[test]
fn merge_sorts_exactly() {
    check(algods::sorting::merge::sort);
}

#[test]
fn selection_sorts_exactly() {
    check(algods::sorting::selection::sort);
}

#[test]
fn shaker_sorts_exactly() {
    check(algods::sorting::shaker::sort);
}
