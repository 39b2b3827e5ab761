use counter_list::CounterList;

#[test]
fn new_list_numbers_rows_from_zero() {
    let list = CounterList::new(5);
    assert_eq!(list.rows(), &vec![(0, 1), (1, 2), (2, 3), (3, 4), (4, 5)]);
    assert_eq!(list.len(), 5);
    assert_eq!(list.next_id(), 5);
}

#[test]
fn new_empty_list() {
    let list = CounterList::new(0);
    assert!(list.rows().is_empty());
    assert_eq!(list.len(), 0);
    assert_eq!(list.next_id(), 0);
}

#[test]
fn add_counter_appends_next_id() {
    let mut list = CounterList::new(2);
    assert!(list.add_counter());
    assert_eq!(list.rows(), &vec![(0, 1), (1, 2), (2, 3)]);
    assert_eq!(list.next_id(), 3);
    assert!(list.add_counter());
    assert_eq!(list.rows(), &vec![(0, 1), (1, 2), (2, 3), (3, 4)]);
    assert_eq!(list.next_id(), 4);
}

#[test]
fn add_counter_to_empty_list() {
    let mut list = CounterList::new(0);
    assert!(list.add_counter());
    assert_eq!(list.rows(), &vec![(0, 1)]);
}

#[test]
fn increment_counts_one_row_up() {
    let mut list = CounterList::new(3);
    assert!(list.increment(1));
    assert!(list.increment(1));
    assert!(list.increment(2));
    assert_eq!(list.rows(), &vec![(0, 1), (1, 4), (2, 4)]);
    assert_eq!(list.next_id(), 3);
}

#[test]
fn increment_missing_id_changes_nothing() {
    let mut list = CounterList::new(3);
    assert!(!list.increment(7));
    assert_eq!(list.rows(), &vec![(0, 1), (1, 2), (2, 3)]);
}

#[test]
fn count_of_finds_row() {
    let mut list = CounterList::new(5);
    assert_eq!(list.count_of(0), Some(1));
    assert_eq!(list.count_of(4), Some(5));
    assert_eq!(list.count_of(5), None);
    list.increment(4);
    assert_eq!(list.count_of(4), Some(6));
}

#[test]
fn remove_drops_only_that_row() {
    let mut list = CounterList::new(5);
    list.remove(2);
    assert_eq!(list.rows(), &vec![(0, 1), (1, 2), (3, 4), (4, 5)]);
    assert_eq!(list.count_of(2), None);
    assert_eq!(list.next_id(), 5);
}

#[test]
fn remove_missing_id_changes_nothing() {
    let mut list = CounterList::new(3);
    list.remove(9);
    assert_eq!(list.rows(), &vec![(0, 1), (1, 2), (2, 3)]);
}

#[test]
fn removed_id_is_not_reused() {
    let mut list = CounterList::new(3);
    list.remove(2);
    assert!(list.add_counter());
    assert_eq!(list.rows(), &vec![(0, 1), (1, 2), (3, 4)]);
    assert_eq!(list.count_of(2), None);
}

#[test]
fn remove_after_add_restores_rows() {
    let mut list = CounterList::new(4);
    list.increment(0);
    let before = list.rows().clone();
    let id = list.next_id();
    assert!(list.add_counter());
    list.remove(id);
    assert_eq!(list.rows(), &before);
}

#[test]
fn remove_every_row() {
    let mut list = CounterList::new(3);
    list.remove(0);
    list.remove(1);
    list.remove(2);
    assert!(list.rows().is_empty());
    assert_eq!(list.next_id(), 3);
    assert!(list.add_counter());
    assert_eq!(list.rows(), &vec![(3, 4)]);
}
