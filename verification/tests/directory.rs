use strapper::directory::{Directory, InterfaceRecord};

fn record(name: &str, index: u32, addresses: &[&str]) -> InterfaceRecord {
    InterfaceRecord {
        name: name.to_string(),
        hardware_address: "00:1b:44:11:3a:b7".to_string(),
        kernel_index: index,
        addresses: addresses.iter().map(|a| a.to_string()).collect(),
    }
}

fn addresses(dir: &Directory, at: usize) -> Vec<String> {
    dir.records[at].addresses.clone()
}

#[test]
fn new_directory_is_empty() {
    assert!(Directory::new().records.is_empty());
}

#[test]
fn add_address_appends_a_new_address() {
    let mut dir = Directory { records: vec![record("eth0", 2, &["10.0.0.1"]), record("eth1", 3, &[])] };
    assert!(dir.add_address(3, "10.0.0.2".to_string()));
    assert!(dir.add_address(2, "10.0.0.2".to_string()));
    assert_eq!(addresses(&dir, 0), vec!["10.0.0.1", "10.0.0.2"]);
    assert_eq!(addresses(&dir, 1), vec!["10.0.0.2"]);
}

#[test]
fn add_address_twice_is_as_once() {
    let mut once = Directory { records: vec![record("eth0", 2, &["10.0.0.1"])] };
    let mut twice = once.clone();
    assert!(once.add_address(2, "10.0.0.9".to_string()));
    assert!(twice.add_address(2, "10.0.0.9".to_string()));
    assert!(!twice.add_address(2, "10.0.0.9".to_string()));
    assert_eq!(addresses(&once, 0), addresses(&twice, 0));
    assert_eq!(addresses(&twice, 0), vec!["10.0.0.1", "10.0.0.9"]);
}

#[test]
fn add_address_to_an_unknown_interface_does_nothing() {
    let mut dir = Directory { records: vec![record("eth0", 2, &["10.0.0.1"])] };
    assert!(!dir.add_address(7, "10.0.0.2".to_string()));
    assert_eq!(dir.records.len(), 1);
    assert_eq!(addresses(&dir, 0), vec!["10.0.0.1"]);
}

#[test]
fn remove_address_takes_the_address_out() {
    let mut dir = Directory {
        records: vec![record("eth0", 2, &["10.0.0.1", "10.0.0.2", "10.0.0.3"])],
    };
    assert!(dir.remove_address(2, &"10.0.0.2".to_string()));
    assert_eq!(addresses(&dir, 0), vec!["10.0.0.1", "10.0.0.3"]);
}

#[test]
fn remove_address_that_is_absent_does_nothing() {
    let mut dir = Directory { records: vec![record("eth0", 2, &["10.0.0.1"])] };
    assert!(!dir.remove_address(2, &"10.0.0.2".to_string()));
    assert!(!dir.remove_address(9, &"10.0.0.1".to_string()));
    assert_eq!(addresses(&dir, 0), vec!["10.0.0.1"]);
}

#[test]
fn remove_address_takes_every_copy() {
    let mut dir = Directory { records: vec![record("eth0", 2, &["a", "b", "a"])] };
    assert!(dir.remove_address(2, &"a".to_string()));
    assert_eq!(addresses(&dir, 0), vec!["b"]);
}

#[test]
fn find_by_index_gives_the_first_match() {
    let mut dir = Directory {
        records: vec![record("eth0", 2, &[]), record("eth1", 3, &[]), record("eth2", 3, &[])],
    };
    assert_eq!(dir.position(3), Some(1));
    assert_eq!(dir.position(4), None);
    assert_eq!(dir.find_by_index(3).map(|r| r.name.clone()), Some("eth1".to_string()));
    assert!(dir.find_by_index(9).is_none());
    match dir.find_by_index(2) {
        Some(found) => found.hardware_address = "changed".to_string(),
        None => panic!("interface 2 is there"),
    }
    assert_eq!(dir.records[0].hardware_address, "changed");
}

#[test]
fn record_add_and_remove() {
    let mut r = record("eth0", 2, &["x"]);
    assert!(r.has_address(&"x".to_string()));
    assert!(!r.has_address(&"y".to_string()));
    assert!(!r.add_address("x".to_string()));
    assert!(r.add_address("y".to_string()));
    assert_eq!(r.addresses, vec!["x", "y"]);
    assert!(r.remove_address(&"x".to_string()));
    assert!(!r.remove_address(&"x".to_string()));
    assert_eq!(r.addresses, vec!["y"]);
}

#[test]
fn holds_name_looks_at_names_only() {
    let dir = Directory { records: vec![record("eth0", 2, &[]), record("wlan0", 3, &[])] };
    assert!(dir.holds_name(&"wlan0".to_string()));
    assert!(!dir.holds_name(&"wlan1".to_string()));
}
