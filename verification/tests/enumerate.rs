use regex::Regex;
use strapper::classify::MalformedAddress;
use strapper::directory::Directory;
use strapper::enumerate::{list_addresses, list_links, process_ifaces, EnumerationError};
use strapper::kernel::{AddressAttr, AddressMessage};
use strapper::link::{LinkAttr, LinkError, LinkMessage};
use strapper::monitor::{apply_event, replay, KernelEvent};

fn link(index: u32, name: &str, last: u8) -> LinkMessage {
    LinkMessage {
        index,
        attrs: vec![
            LinkAttr::IfName(name.to_string()),
            LinkAttr::Address(vec![0, 0x1b, 0x44, 0x11, 0x3a, last]),
        ],
    }
}

fn address(index: u32, raw: &[u8]) -> AddressMessage {
    AddressMessage { index, attrs: vec![AddressAttr::Address(raw.to_vec())] }
}

fn links() -> Vec<LinkMessage> {
    vec![link(1, "lo", 0), link(2, "eth0", 1), link(3, "docker0", 2), link(4, "eth1", 3)]
}

fn exclude() -> Vec<Regex> {
    vec![Regex::new("^lo$").unwrap(), Regex::new("^docker").unwrap()]
}

fn v6() -> Vec<AddressMessage> {
    vec![
        address(1, &[0, 0, 0, 0, 0, 0, 0, 0, 0, 0, 0, 0, 0, 0, 0, 1]),
        address(2, &[0x20, 0x01, 0x48, 0x60, 0, 0, 0, 0, 0, 0, 0, 0, 0, 0, 0, 2]),
        address(2, &[0xfe, 0x80, 0, 0, 0, 0, 0, 0, 0, 0, 0, 0, 0, 0, 0, 2]),
    ]
}

fn v4() -> Vec<AddressMessage> {
    vec![
        address(1, &[127, 0, 0, 1]),
        address(2, &[10, 1, 2, 3]),
        address(3, &[172, 17, 0, 1]),
        address(4, &[192, 168, 5, 5]),
        address(4, &[8, 8, 8, 8]),
    ]
}

fn summary(dir: &Directory) -> Vec<(String, u32, Vec<String>)> {
    dir.records.iter().map(|r| (r.name.clone(), r.kernel_index, r.addresses.clone())).collect()
}

#[test]
fn enumeration_lists_interfaces_then_ipv6_then_ipv4() {
    let dir = process_ifaces(&exclude(), &links(), &v6(), &v4()).unwrap();
    assert_eq!(
        summary(&dir),
        vec![
            ("eth0".to_string(), 2, vec!["2001:4860::2".to_string(), "10.1.2.3".to_string()]),
            ("eth1".to_string(), 4, vec!["192.168.5.5".to_string(), "8.8.8.8".to_string()]),
        ]
    );
    assert_eq!(dir.records[0].hardware_address, "00:1b:44:11:3a:01");
}

#[test]
fn enumeration_fails_on_a_refused_link() {
    let mut bad = links();
    bad.push(LinkMessage { index: 9, attrs: vec![LinkAttr::IfName("eth9".to_string())] });
    assert_eq!(
        process_ifaces(&exclude(), &bad, &v6(), &v4()).err(),
        Some(EnumerationError::Link(LinkError::MissingAttribute))
    );
}

#[test]
fn enumeration_fails_on_a_malformed_address() {
    let mut bad = v4();
    bad.insert(1, address(2, &[1, 2, 3]));
    assert_eq!(
        process_ifaces(&exclude(), &links(), &v6(), &bad).err(),
        Some(EnumerationError::Address(MalformedAddress { length: 3 }))
    );
    let mut bad6 = v6();
    bad6.push(address(4, &[1, 2, 3, 4, 5, 6]));
    assert_eq!(
        process_ifaces(&exclude(), &links(), &bad6, &v4()).err(),
        Some(EnumerationError::Address(MalformedAddress { length: 6 }))
    );
}

#[test]
fn a_malformed_address_of_an_unknown_interface_is_passed_over() {
    let mut odd = v4();
    odd.push(address(77, &[1, 2, 3]));
    assert!(process_ifaces(&exclude(), &links(), &v6(), &odd).is_ok());
}

#[test]
fn list_links_and_list_addresses_go_step_by_step() {
    let dir = list_links(Directory::new(), &exclude(), &links()).unwrap();
    assert_eq!(summary(&dir), vec![("eth0".to_string(), 2, vec![]), ("eth1".to_string(), 4, vec![])]);
    let dir = list_addresses(dir, &v4()).unwrap();
    assert_eq!(dir.records[0].addresses, vec!["10.1.2.3"]);
    assert_eq!(list_addresses(dir, &vec![address(2, &[9])]).err(), Some(MalformedAddress { length: 1 }));
}

#[test]
fn replaying_new_address_events_mirrors_enumeration() {
    let enumerated = process_ifaces(&exclude(), &links(), &v6(), &v4()).unwrap();
    let bare = list_links(Directory::new(), &exclude(), &links()).unwrap();
    let mut events: Vec<KernelEvent> = Vec::new();
    for m in v6() {
        events.push(KernelEvent::NewAddress(m));
    }
    for m in v4() {
        events.push(KernelEvent::NewAddress(m));
    }
    let (replayed, changed) = replay(bare, &events).unwrap();
    assert!(changed);
    assert_eq!(summary(&replayed), summary(&enumerated));
}

#[test]
fn events_add_and_remove() {
    let mut dir = process_ifaces(&exclude(), &links(), &v6(), &v4()).unwrap();
    assert_eq!(apply_event(&mut dir, &KernelEvent::Other), Ok(false));
    assert_eq!(apply_event(&mut dir, &KernelEvent::NewAddress(address(2, &[10, 1, 2, 3]))), Ok(false));
    assert_eq!(apply_event(&mut dir, &KernelEvent::NewAddress(address(2, &[10, 1, 2, 4]))), Ok(true));
    assert_eq!(apply_event(&mut dir, &KernelEvent::DelAddress(address(2, &[10, 1, 2, 3]))), Ok(true));
    assert_eq!(dir.records[0].addresses, vec!["2001:4860::2", "10.1.2.4"]);
    assert_eq!(
        apply_event(&mut dir, &KernelEvent::DelAddress(address(2, &[1]))),
        Err(MalformedAddress { length: 1 })
    );
}

#[test]
fn replay_says_whether_anything_changed() {
    let dir = process_ifaces(&exclude(), &links(), &v6(), &v4()).unwrap();
    let before = summary(&dir);
    let events = vec![
        KernelEvent::Other,
        KernelEvent::NewAddress(address(2, &[10, 1, 2, 3])),
        KernelEvent::DelAddress(address(4, &[9, 9, 9, 9])),
        KernelEvent::NewAddress(address(50, &[9, 9, 9, 9])),
    ];
    let (after, changed) = replay(dir, &events).unwrap();
    assert!(!changed);
    assert_eq!(summary(&after), before);
    let failing = vec![KernelEvent::NewAddress(address(2, &[1, 2]))];
    assert_eq!(replay(after, &failing).err(), Some(MalformedAddress { length: 2 }));
}
