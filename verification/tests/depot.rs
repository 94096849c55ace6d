use salvo_t::depot::Depot;

#[test]
fn test_depot() {
    let mut depot: Depot<String> = Depot::with_capacity(6);
    assert!(depot.capacity() >= 6);

    depot.insert("one", "ONE".to_owned());
    assert!(depot.contains_key("one"));

    assert_eq!(depot.get("one").unwrap(), &"ONE".to_owned());
    assert_eq!(depot.get_mut("one").unwrap(), &mut "ONE".to_owned());
}

#[test]
fn test_transfer() {
    let mut depot: Depot<String> = Depot::with_capacity(6);
    depot.insert("one", "ONE".to_owned());

    let depot = depot.transfer();
    assert_eq!(depot.get("one").unwrap(), &"ONE".to_owned());
}

#[test]
fn test_depot_overwrite_and_remove() {
    let mut depot: Depot<u32> = Depot::new();
    depot.insert("k", 1);
    depot.insert("k", 2);
    assert_eq!(depot.get("k"), Some(&2));
    assert_eq!(depot.remove("k"), Some(2));
    assert_eq!(depot.get("k"), None);
    assert!(!depot.contains_key("k"));
    assert_eq!(depot.remove("k"), None);
}

#[test]
fn test_depot_get_mut_writes_through() {
    let mut depot: Depot<String> = Depot::new();
    depot.insert("name", "old".to_owned());
    *depot.get_mut("name").unwrap() = "new".to_owned();
    assert_eq!(depot.get("name").unwrap(), "new");
}

#[test]
fn test_transfer_empties_the_source() {
    let mut depot: Depot<String> = Depot::new();
    depot.insert("one", "ONE".to_owned());
    let moved = depot.transfer();
    assert!(moved.contains_key("one"));
    assert!(!depot.contains_key("one"));
}
