use strapper::classify::MalformedAddress;
use strapper::directory::{Directory, InterfaceRecord};
use strapper::kernel::{
    add_addr, del_addr, process_addr_message, AddressAttr, AddressChange, AddressMessage,
};

fn directory() -> Directory {
    Directory {
        records: vec![
            InterfaceRecord {
                name: "eth0".to_string(),
                hardware_address: "00:1b:44:11:3a:b7".to_string(),
                kernel_index: 2,
                addresses: vec!["10.0.0.1".to_string()],
            },
            InterfaceRecord {
                name: "eth1".to_string(),
                hardware_address: "00:1b:44:11:3a:b8".to_string(),
                kernel_index: 3,
                addresses: vec![],
            },
        ],
    }
}

fn message(index: u32, raws: &[&[u8]]) -> AddressMessage {
    AddressMessage {
        index,
        attrs: raws.iter().map(|r| AddressAttr::Address(r.to_vec())).collect(),
    }
}

#[test]
fn add_addr_adds_what_the_classifier_lets_through() {
    let mut dir = directory();
    let msg = AddressMessage {
        index: 3,
        attrs: vec![
            AddressAttr::Other,
            AddressAttr::Address(vec![192, 168, 5, 5]),
            AddressAttr::Address(vec![127, 0, 0, 1]),
            AddressAttr::Address(vec![0x20, 0x01, 0x48, 0x60, 0, 0, 0, 0, 0, 0, 0, 0, 0, 0, 0x88, 0x88]),
            AddressAttr::Address(vec![0xfe, 0x80, 0, 0, 0, 0, 0, 0, 0, 0, 0, 0, 0, 0, 0, 1]),
        ],
    };
    assert_eq!(add_addr(&mut dir, &msg), Ok(true));
    assert_eq!(dir.records[1].addresses, vec!["192.168.5.5", "2001:4860::8888"]);
    assert_eq!(dir.records[0].addresses, vec!["10.0.0.1"]);
}

#[test]
fn add_addr_of_a_known_address_changes_nothing() {
    let mut dir = directory();
    assert_eq!(add_addr(&mut dir, &message(2, &[&[10, 0, 0, 1]])), Ok(false));
    assert_eq!(dir.records[0].addresses, vec!["10.0.0.1"]);
}

#[test]
fn add_addr_reports_a_change_if_any_address_is_new() {
    let mut dir = directory();
    assert_eq!(add_addr(&mut dir, &message(2, &[&[10, 0, 0, 1], &[10, 0, 0, 2], &[10, 0, 0, 2]])), Ok(true));
    assert_eq!(dir.records[0].addresses, vec!["10.0.0.1", "10.0.0.2"]);
}

#[test]
fn add_addr_for_an_unknown_interface_is_passed_over() {
    let mut dir = directory();
    assert_eq!(add_addr(&mut dir, &message(9, &[&[10, 0, 0, 2]])), Ok(false));
    assert_eq!(add_addr(&mut dir, &message(9, &[&[1, 2, 3]])), Ok(false));
    assert_eq!(dir.records[0].addresses, vec!["10.0.0.1"]);
    assert!(dir.records[1].addresses.is_empty());
}

#[test]
fn add_addr_fails_on_a_malformed_address() {
    let mut dir = directory();
    let r = add_addr(&mut dir, &message(2, &[&[10, 0, 0, 2], &[1, 2, 3, 4, 5], &[10, 0, 0, 3]]));
    assert_eq!(r, Err(MalformedAddress { length: 5 }));
    assert_eq!(dir.records[0].addresses, vec!["10.0.0.1", "10.0.0.2"]);
}

#[test]
fn rejected_addresses_change_nothing() {
    let mut dir = directory();
    assert_eq!(add_addr(&mut dir, &message(3, &[&[169, 254, 1, 1], &[224, 0, 0, 1]])), Ok(false));
    assert!(dir.records[1].addresses.is_empty());
}

#[test]
fn del_addr_removes_the_address() {
    let mut dir = directory();
    assert_eq!(del_addr(&mut dir, &message(2, &[&[10, 0, 0, 1]])), Ok(true));
    assert!(dir.records[0].addresses.is_empty());
    assert_eq!(del_addr(&mut dir, &message(2, &[&[10, 0, 0, 1]])), Ok(false));
}

#[test]
fn del_addr_of_an_absent_address_changes_nothing() {
    let mut dir = directory();
    assert_eq!(del_addr(&mut dir, &message(2, &[&[10, 0, 0, 7]])), Ok(false));
    assert_eq!(del_addr(&mut dir, &message(8, &[&[10, 0, 0, 1]])), Ok(false));
    assert_eq!(dir.records[0].addresses, vec!["10.0.0.1"]);
}

#[test]
fn del_addr_fails_on_a_malformed_address() {
    let mut dir = directory();
    assert_eq!(del_addr(&mut dir, &message(2, &[&[]])), Err(MalformedAddress { length: 0 }));
}

#[test]
fn process_addr_message_does_either() {
    let mut dir = directory();
    let msg = message(3, &[&[8, 8, 8, 8]]);
    assert_eq!(process_addr_message(&mut dir, &msg, AddressChange::Add), Ok(true));
    assert_eq!(dir.records[1].addresses, vec!["8.8.8.8"]);
    assert_eq!(process_addr_message(&mut dir, &msg, AddressChange::Remove), Ok(true));
    assert!(dir.records[1].addresses.is_empty());
}

#[test]
fn apply_attributes_on_a_record() {
    let mut record = directory().records.remove(0);
    let attrs = vec![AddressAttr::Address(vec![10, 0, 0, 1]), AddressAttr::Address(vec![10, 0, 0, 5])];
    assert_eq!(record.apply_attributes(&attrs, AddressChange::Add), Ok(true));
    assert_eq!(record.addresses, vec!["10.0.0.1", "10.0.0.5"]);
    assert_eq!(record.apply_attributes(&attrs, AddressChange::Remove), Ok(true));
    assert!(record.addresses.is_empty());
    assert_eq!(record.apply_attributes(&attrs, AddressChange::Remove), Ok(false));
}
