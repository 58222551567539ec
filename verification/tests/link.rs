use regex::Regex;
use strapper::directory::Directory;
use strapper::exclude::is_excluded;
use strapper::link::{
    add_iface_if_not_exists_and_not_excluded, screen, LinkAttr, LinkError, LinkMessage,
};
use strapper::mac::{hardware_address_text, BadHardwareAddress};

fn link(index: u32, name: &str, mac: &[u8]) -> LinkMessage {
    LinkMessage {
        index,
        attrs: vec![
            LinkAttr::Other,
            LinkAttr::IfName(name.to_string()),
            LinkAttr::Address(mac.to_vec()),
        ],
    }
}

fn patterns(sources: &[&str]) -> Vec<Regex> {
    sources.iter().map(|s| Regex::new(s).unwrap()).collect()
}

#[test]
fn hardware_address_text_is_lowercase_hex_with_colons() {
    assert_eq!(
        hardware_address_text(&[0x00, 0x1B, 0x44, 0x11, 0x3A, 0xB7]),
        Ok("00:1b:44:11:3a:b7".to_string())
    );
    assert_eq!(hardware_address_text(&[0, 0, 0, 0, 0, 0]), Ok("00:00:00:00:00:00".to_string()));
    assert_eq!(hardware_address_text(&[255, 254, 9, 10, 15, 16]), Ok("ff:fe:09:0a:0f:10".to_string()));
}

#[test]
fn hardware_address_text_wants_six_bytes() {
    assert_eq!(hardware_address_text(&[1, 2, 3, 4, 5]), Err(BadHardwareAddress { length: 5 }));
    assert_eq!(hardware_address_text(&[]), Err(BadHardwareAddress { length: 0 }));
    assert_eq!(hardware_address_text(&[1, 2, 3, 4, 5, 6, 7, 8]), Err(BadHardwareAddress { length: 8 }));
}

#[test]
fn is_excluded_asks_every_pattern() {
    let list = patterns(&["^lo$", "^docker", "veth"]);
    assert!(is_excluded(&list, "lo"));
    assert!(is_excluded(&list, "docker0"));
    assert!(is_excluded(&list, "xvethy"));
    assert!(!is_excluded(&list, "eth0"));
    assert!(!is_excluded(&list, "lo0"));
    assert!(!is_excluded(&Vec::new(), "lo"));
}

#[test]
fn a_new_interface_enters_the_directory() {
    let mut dir = Directory::new();
    let r = add_iface_if_not_exists_and_not_excluded(
        &mut dir,
        &patterns(&["^lo$"]),
        &link(2, "eth0", &[0, 0x1b, 0x44, 0x11, 0x3a, 0xb7]),
    );
    assert_eq!(r, Ok(true));
    assert_eq!(dir.records.len(), 1);
    assert_eq!(dir.records[0].name, "eth0");
    assert_eq!(dir.records[0].hardware_address, "00:1b:44:11:3a:b7");
    assert_eq!(dir.records[0].kernel_index, 2);
    assert!(dir.records[0].addresses.is_empty());
}

#[test]
fn an_excluded_interface_is_passed_over() {
    let mut dir = Directory::new();
    let r = add_iface_if_not_exists_and_not_excluded(
        &mut dir,
        &patterns(&["^lo$", "^docker"]),
        &link(1, "lo", &[0, 0, 0, 0, 0, 0]),
    );
    assert_eq!(r, Ok(false));
    assert!(dir.records.is_empty());
}

#[test]
fn a_name_that_is_there_is_passed_over() {
    let mut dir = Directory::new();
    let none: Vec<Regex> = Vec::new();
    assert_eq!(
        add_iface_if_not_exists_and_not_excluded(&mut dir, &none, &link(2, "eth0", &[1, 2, 3, 4, 5, 6])),
        Ok(true)
    );
    assert_eq!(
        add_iface_if_not_exists_and_not_excluded(&mut dir, &none, &link(5, "eth0", &[6, 5, 4, 3, 2, 1])),
        Ok(false)
    );
    assert_eq!(dir.records.len(), 1);
    assert_eq!(dir.records[0].hardware_address, "01:02:03:04:05:06");
    assert_eq!(dir.records[0].kernel_index, 2);
}

#[test]
fn a_message_without_name_or_hardware_address_is_refused() {
    let mut dir = Directory::new();
    let none: Vec<Regex> = Vec::new();
    let nameless = LinkMessage { index: 2, attrs: vec![LinkAttr::Address(vec![1, 2, 3, 4, 5, 6])] };
    let addressless = LinkMessage { index: 2, attrs: vec![LinkAttr::IfName("eth0".to_string())] };
    let empty = LinkMessage { index: 2, attrs: vec![] };
    assert_eq!(
        add_iface_if_not_exists_and_not_excluded(&mut dir, &none, &nameless),
        Err(LinkError::MissingAttribute)
    );
    assert_eq!(
        add_iface_if_not_exists_and_not_excluded(&mut dir, &none, &addressless),
        Err(LinkError::MissingAttribute)
    );
    assert_eq!(
        add_iface_if_not_exists_and_not_excluded(&mut dir, &none, &empty),
        Err(LinkError::MissingAttribute)
    );
    assert!(dir.records.is_empty());
}

#[test]
fn a_hardware_address_of_another_length_is_refused() {
    let mut dir = Directory::new();
    let none: Vec<Regex> = Vec::new();
    assert_eq!(
        add_iface_if_not_exists_and_not_excluded(&mut dir, &none, &link(2, "eth0", &[1, 2, 3, 4])),
        Err(LinkError::InvalidHardwareAddress { length: 4 })
    );
    assert!(dir.records.is_empty());
}

#[test]
fn the_first_attribute_that_stops_decides() {
    let list = patterns(&["^lo$"]);
    let address_first = LinkMessage {
        index: 1,
        attrs: vec![LinkAttr::Address(vec![1, 2]), LinkAttr::IfName("lo".to_string())],
    };
    let name_first = LinkMessage {
        index: 1,
        attrs: vec![LinkAttr::IfName("lo".to_string()), LinkAttr::Address(vec![1, 2])],
    };
    let mut dir = Directory::new();
    assert_eq!(
        add_iface_if_not_exists_and_not_excluded(&mut dir, &list, &address_first),
        Err(LinkError::InvalidHardwareAddress { length: 2 })
    );
    assert_eq!(add_iface_if_not_exists_and_not_excluded(&mut dir, &list, &name_first), Ok(false));
}

#[test]
fn the_last_name_and_address_make_the_record() {
    let mut dir = Directory::new();
    let msg = LinkMessage {
        index: 4,
        attrs: vec![
            LinkAttr::IfName("old".to_string()),
            LinkAttr::Address(vec![1, 1, 1, 1, 1, 1]),
            LinkAttr::IfName("new".to_string()),
            LinkAttr::Address(vec![2, 2, 2, 2, 2, 2]),
        ],
    };
    assert_eq!(add_iface_if_not_exists_and_not_excluded(&mut dir, &Vec::new(), &msg), Ok(true));
    assert_eq!(dir.records[0].name, "new");
    assert_eq!(dir.records[0].hardware_address, "02:02:02:02:02:02");
}

#[test]
fn screen_flags_the_excluded_names() {
    let msg = LinkMessage {
        index: 4,
        attrs: vec![
            LinkAttr::IfName("lo".to_string()),
            LinkAttr::Address(vec![1, 1, 1, 1, 1, 1]),
            LinkAttr::IfName("eth0".to_string()),
            LinkAttr::Other,
        ],
    };
    assert_eq!(screen(&patterns(&["^lo$"]), &msg), vec![true, false, false, false]);
}

#[test]
fn upsert_screened_goes_by_the_flags() {
    let msg = link(2, "eth0", &[1, 2, 3, 4, 5, 6]);
    let mut dir = Directory::new();
    assert_eq!(dir.upsert_screened(&msg, &vec![false, true, false]), Ok(false));
    assert_eq!(dir.upsert_screened(&msg, &vec![true, false, true]), Ok(true));
    assert_eq!(dir.records.len(), 1);
    let mut other = Directory::new();
    assert_eq!(other.upsert_screened(&msg, &vec![]), Ok(true));
}
