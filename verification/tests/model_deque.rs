use bughunt_rust::vec_deque::PropVecDeque;

#[test]
fn new_deque_is_empty() {
    let d = PropVecDeque::new();
    assert!(d.is_empty());
    assert_eq!(d.len(), 0);
    assert_eq!(d.front(), None);
    assert_eq!(d.back(), None);
}

#[test]
fn default_deque_is_empty() {
    let d: PropVecDeque = Default::default();
    assert!(d.is_empty());
}

#[test]
fn push_pop_round_trip() {
    // push_back(5), push_front(9): pop_front returns 9, pop_back returns 5,
    // and the deque is empty again.
    let mut d = PropVecDeque::new();
    d.push_back(5);
    d.push_front(9);
    assert_eq!(d.len(), 2);
    assert_eq!(d.pop_front(), Some(9));
    assert_eq!(d.pop_back(), Some(5));
    assert!(d.is_empty());
}

#[test]
fn front_and_back_track_the_ends() {
    let mut d = PropVecDeque::new();
    d.push_back(1);
    d.push_back(2);
    d.push_front(0);
    assert_eq!(d.front(), Some(&0));
    assert_eq!(d.back(), Some(&2));
    assert_eq!(d.len(), 3);
}

#[test]
fn pop_from_empty_returns_none() {
    let mut d = PropVecDeque::new();
    assert_eq!(d.pop_front(), None);
    assert_eq!(d.pop_back(), None);
}

#[test]
fn insert_and_remove_positional() {
    let mut d = PropVecDeque::new();
    d.push_back(1);
    d.push_back(3);
    d.insert(1, 2);
    assert_eq!(d.len(), 3);
    assert_eq!(d.remove(0), Some(1));
    assert_eq!(d.remove(1), Some(3));
    assert_eq!(d.remove(0), Some(2));
    assert!(d.is_empty());
}

#[test]
fn remove_out_of_bounds_returns_none() {
    let mut d = PropVecDeque::new();
    d.push_back(1);
    assert_eq!(d.remove(1), None);
    assert_eq!(d.remove(100), None);
    assert_eq!(d.len(), 1);
}

#[test]
fn clear_empties_the_deque() {
    let mut d = PropVecDeque::new();
    d.push_back(1);
    d.push_front(2);
    d.clear();
    assert!(d.is_empty());
    d.clear();
    assert_eq!(d.len(), 0);
}

#[test]
fn swap_remove_back_on_empty_returns_none() {
    let mut d = PropVecDeque::new();
    assert_eq!(d.swap_remove_back(0), None);
}

#[test]
fn swap_remove_back_on_single_element_ignores_index() {
    // With exactly one element the operation is equivalent to pop_back,
    // whatever the index is.
    let mut d = PropVecDeque::new();
    d.push_back(7);
    assert_eq!(d.swap_remove_back(3), Some(7));
    assert!(d.is_empty());
}

#[test]
fn swap_remove_back_moves_the_back_into_the_hole() {
    let mut d = PropVecDeque::new();
    d.push_back(1);
    d.push_back(2);
    d.push_back(3);
    assert_eq!(d.swap_remove_back(0), Some(1));
    assert_eq!(d.len(), 2);
    assert_eq!(d.front(), Some(&3));
    assert_eq!(d.back(), Some(&2));
}

#[test]
fn swap_remove_back_out_of_bounds_with_two_elements_returns_none() {
    let mut d = PropVecDeque::new();
    d.push_back(1);
    d.push_back(2);
    assert_eq!(d.swap_remove_back(5), None);
    assert_eq!(d.len(), 2);
}

#[test]
fn swap_remove_back_at_the_back_is_pop_back() {
    let mut d = PropVecDeque::new();
    d.push_back(1);
    d.push_back(2);
    assert_eq!(d.swap_remove_back(1), Some(2));
    assert_eq!(d.back(), Some(&1));
}
