//! Behavior of the store itself: overwrite, idempotent delete,
//! read-your-write, and no lost update among distinct names.

use groceries::store::GroceryList;

#[test]
fn overwrite_keeps_last_quantity() {
    let mut list = GroceryList::new();
    list.insert(String::from("milk"), 2);
    list.insert(String::from("milk"), 5);
    assert_eq!(list.get("milk"), Some(5));
    assert_eq!(list.len(), 1);
}

#[test]
fn read_your_write() {
    let mut list = GroceryList::new();
    list.insert(String::from("eggs"), 12);
    assert_eq!(list.get("eggs"), Some(12));
}

#[test]
fn remove_absent_changes_nothing() {
    let mut list = GroceryList::new();
    list.insert(String::from("eggs"), 1);
    list.remove("milk");
    assert_eq!(list.get("eggs"), Some(1));
    assert_eq!(list.get("milk"), None);
    assert_eq!(list.len(), 1);
}

#[test]
fn remove_present_removes_only_that_name() {
    let mut list = GroceryList::new();
    list.insert(String::from("eggs"), 1);
    list.insert(String::from("milk"), 2);
    list.remove("eggs");
    assert_eq!(list.get("eggs"), None);
    assert_eq!(list.get("milk"), Some(2));
    assert_eq!(list.len(), 1);
}

#[test]
fn distinct_inserts_both_present_either_order() {
    let mut first = GroceryList::new();
    first.insert(String::from("milk"), 2);
    first.insert(String::from("eggs"), 12);
    let mut second = GroceryList::new();
    second.insert(String::from("eggs"), 12);
    second.insert(String::from("milk"), 2);
    for list in [&first, &second] {
        assert_eq!(list.get("milk"), Some(2));
        assert_eq!(list.get("eggs"), Some(12));
        assert_eq!(list.len(), 2);
    }
}

#[test]
fn snapshot_is_a_copy() {
    let mut list = GroceryList::new();
    list.insert(String::from("milk"), 2);
    let snap = list.list();
    list.insert(String::from("milk"), 9);
    assert_eq!(snap.get("milk"), Some(2));
    assert_eq!(list.get("milk"), Some(9));
}

#[test]
fn indexed_access_follows_insertion_order() {
    let mut list = GroceryList::new();
    list.insert(String::from("a"), 1);
    list.insert(String::from("b"), 2);
    assert_eq!(list.name_at(0).as_str(), "a");
    assert_eq!(list.quantity_at(0), 1);
    assert_eq!(list.name_at(1).as_str(), "b");
    assert_eq!(list.quantity_at(1), 2);
}

#[test]
fn many_distinct_inserts_all_appear() {
    let mut list = GroceryList::new();
    for t in 0..8i32 {
        list.insert(format!("item{}", t), t);
    }
    for t in 0..8i32 {
        assert_eq!(list.get(&format!("item{}", t)), Some(t));
    }
    assert_eq!(list.len(), 8);
}
