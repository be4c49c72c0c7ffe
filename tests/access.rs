use joker_ecs::access::Access;

#[test]
fn read_all_access_conflicts() {
    let mut access_a = Access::<usize>::new();
    access_a.grow(10);
    access_a.add_write(0);

    let mut access_b = Access::<usize>::new();
    access_b.read_all();

    assert!(!access_b.is_compatible(&access_a));

    let mut access_a = Access::<usize>::new();
    access_a.grow(10);
    access_a.read_all();

    let mut access_b = Access::<usize>::new();
    access_b.read_all();

    assert!(access_b.is_compatible(&access_a));
}

#[test]
fn access_get_conflics() {
    let mut access_a = Access::<usize>::new();
    access_a.add_read(0);
    access_a.add_read(1);

    let mut access_b = Access::<usize>::new();
    access_b.add_read(0);
    access_b.add_write(1);

    assert_eq!(access_a.get_conflicts(&access_b), vec![1]);

    let mut access_c = Access::<usize>::new();
    access_c.add_write(0);
    access_c.add_write(1);

    assert_eq!(access_a.get_conflicts(&access_c), vec![0, 1]);
    assert_eq!(access_b.get_conflicts(&access_c), vec![0, 1]);

    let mut access_d = Access::<usize>::new();
    access_d.add_read(0);

    assert_eq!(access_d.get_conflicts(&access_a), Vec::<usize>::new());
    assert_eq!(access_d.get_conflicts(&access_b), Vec::<usize>::new());
    assert_eq!(access_d.get_conflicts(&access_c), vec![0]);
}

#[test]
fn compatibility_is_symmetric() {
    let mut a = Access::<usize>::new();
    a.read_all();
    a.add_write(3);
    let mut b = Access::<usize>::new();
    b.add_read(3);
    assert_eq!(a.is_compatible(&b), b.is_compatible(&a));
    assert!(!a.is_compatible(&b));
}

#[test]
fn reads_never_conflict() {
    let mut a = Access::<usize>::new();
    a.add_read(1);
    a.add_read(2);
    let mut b = Access::<usize>::new();
    b.add_read(2);
    assert!(a.is_compatible(&b));
    assert!(b.is_compatible(&a));
}

#[test]
fn shared_write_conflicts() {
    let mut a = Access::<usize>::new();
    a.add_write(4);
    let mut b = Access::<usize>::new();
    b.add_write(4);
    assert!(!a.is_compatible(&b));
    assert_eq!(a.get_conflicts(&b), vec![4]);
}

#[test]
fn extend_and_clear() {
    let mut a = Access::<usize>::new();
    a.add_read(1);
    let mut b = Access::<usize>::new();
    b.add_write(2);
    a.extend(&b);
    assert!(a.has_read(1));
    assert!(a.has_write(2));
    assert_eq!(a.reads_and_writes(), vec![1, 2]);
    assert_eq!(a.writes(), vec![2]);
    a.clear();
    assert!(!a.has_read(1));
    assert!(!a.has_read_all());
}

use joker_ecs::access::{FilteredAccess, FilteredAccessSet};

#[test]
fn filtered_combined_access() {
    let mut access_a = FilteredAccessSet::<usize>::new();
    access_a.add_unfiltered_write(1);

    let mut filter_b = FilteredAccess::<usize>::new();
    filter_b.add_write(1);
    let conflicts = access_a.get_conflicts_single(&filter_b);
    assert_eq!(&conflicts, &[1_usize]);
}

#[test]
fn filtered_access_extend() {
    let mut access_a = FilteredAccess::<usize>::new();
    access_a.add_read(0);
    access_a.add_read(1);
    access_a.and_with(2);

    let mut access_b = FilteredAccess::<usize>::new();
    access_b.add_read(0);
    access_b.add_write(3);
    access_b.and_without(4);

    access_a.extend(&access_b);

    let mut expected = FilteredAccess::<usize>::new();
    expected.add_read(0);
    expected.add_read(1);
    expected.and_with(2);
    expected.add_write(3);
    expected.and_without(4);

    assert!(access_a.eq(&expected));
}

#[test]
fn exclusive_filters_make_writes_compatible() {
    let mut a = FilteredAccess::<usize>::new();
    a.add_write(0);
    a.and_with(5);
    let mut b = FilteredAccess::<usize>::new();
    b.add_write(0);
    b.and_without(5);
    assert!(a.is_compatible(&b));
    assert!(b.is_compatible(&a));
    assert!(a.get_conflicts(&b).is_empty());

    let mut c = FilteredAccess::<usize>::new();
    c.add_write(0);
    assert!(!a.is_compatible(&c));
    assert!(!c.is_compatible(&a));
    assert_eq!(a.get_conflicts(&c), vec![0]);
}

#[test]
fn access_sets_compare_pairwise() {
    let mut set_a = FilteredAccessSet::<usize>::new();
    let mut with_five = FilteredAccess::<usize>::new();
    with_five.add_write(0);
    with_five.and_with(5);
    set_a.add(with_five);

    let mut set_b = FilteredAccessSet::<usize>::new();
    let mut without_five = FilteredAccess::<usize>::new();
    without_five.add_write(0);
    without_five.and_without(5);
    set_b.add(without_five);

    assert!(set_a.is_compatible(&set_b));
    assert!(set_a.get_conflicts(&set_b).is_empty());

    let mut set_c = FilteredAccessSet::<usize>::new();
    set_c.add_unfiltered_read(0);
    assert!(!set_a.is_compatible(&set_c));
    assert_eq!(set_a.get_conflicts(&set_c), vec![0]);
    set_c.clear();
    assert!(set_a.is_compatible(&set_c));
}
