use chaudloader::handles::{HandleError, HandleTracker};

#[test]
fn refcount_follows_insert_duplicate_remove() {
    let mut t = HandleTracker::new();
    t.insert("a.dat", 1).unwrap();
    assert_eq!(t.duplicate(1, 2), Ok(true));
    t.insert("b.dat", 3).unwrap();
    assert_eq!(t.count("a.dat"), 2);
    assert_eq!(t.count("b.dat"), 1);
    assert_eq!(t.remove(1), Some(("a.dat".to_string(), 1)));
    assert_eq!(t.remove(2), Some(("a.dat".to_string(), 0)));
    assert_eq!(t.remove(2), None);
    assert_eq!(t.count("a.dat"), 0);
    assert_eq!(t.remove(3), Some(("b.dat".to_string(), 0)));
}

#[test]
fn duplicate_of_foreign_handle_is_ignored() {
    let mut t = HandleTracker::new();
    assert_eq!(t.duplicate(9, 10), Ok(false));
    assert!(!t.contains(10));
}

#[test]
fn reused_handle_is_a_violation() {
    let mut t = HandleTracker::new();
    t.insert("a.dat", 1).unwrap();
    assert_eq!(t.insert("b.dat", 1), Err(HandleError::ConsistencyViolation));
    t.insert("c.dat", 2).unwrap();
    assert_eq!(t.duplicate(1, 2), Err(HandleError::ConsistencyViolation));
    assert_eq!(t.count("a.dat"), 1);
    assert_eq!(t.count("b.dat"), 0);
}

#[test]
fn zero_is_reported_once_per_path() {
    let mut t = HandleTracker::new();
    t.insert("p", 5).unwrap();
    assert_eq!(t.remove(5), Some(("p".to_string(), 0)));
    t.insert("p", 5).unwrap();
    assert_eq!(t.remove(5), Some(("p".to_string(), 0)));
    assert_eq!(t.remove(5), None);
}
