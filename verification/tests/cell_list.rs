use tic_rng_toe::cell_list::{holds, position_of};

#[test]
fn position_of_finds_the_first_place() {
    assert_eq!(position_of(&[4, 7, 9], 4), Some(0));
    assert_eq!(position_of(&[4, 7, 9], 9), Some(2));
    assert_eq!(position_of(&[4, 7, 4], 4), Some(0));
}

#[test]
fn position_of_finds_nothing_that_is_not_there() {
    assert_eq!(position_of(&[4, 7, 9], 5), None);
    assert_eq!(position_of(&[], 5), None);
}

#[test]
fn holds_tells_members_from_others() {
    assert!(holds(&[1, 2, 3], 2));
    assert!(!holds(&[1, 2, 3], 4));
    assert!(!holds(&[], 0));
}
