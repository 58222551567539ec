use ipnet::IpNet;
use strapper::cidr::Cidr;
use strapper::directory::{Directory, InterfaceRecord};
use strapper::identity::NodeIdentity;
use strapper::ip::IpAddress;
use strapper::pdns::{ChangeKind, RecordType, ZoneMutation, RECORD_TTL};
use strapper::remap::{compute_mutations, substitute, Remapper, RemapperError};

fn next(state: &mut u64) -> u64 {
    *state = state.wrapping_mul(6364136223846793005).wrapping_add(1442695040888963407);
    *state >> 11
}

fn identity(hostname: &str, interfaces: &[&[&str]]) -> NodeIdentity {
    let mut records = Vec::new();
    for (i, addresses) in interfaces.iter().enumerate() {
        records.push(InterfaceRecord {
            name: format!("eth{}", i),
            hardware_address: "00:1b:44:11:3a:b7".to_string(),
            kernel_index: i as u32 + 2,
            addresses: addresses.iter().map(|a| a.to_string()).collect(),
        });
    }
    NodeIdentity { hostname: hostname.to_string(), interfaces: Directory { records } }
}

fn rules(texts: &[&str]) -> Vec<Remapper> {
    texts.iter().map(|t| Remapper::from_str(t).unwrap()).collect()
}

fn flat(m: &ZoneMutation) -> (String, String, RecordType, u32, ChangeKind, String) {
    (m.zone.clone(), m.record_name.clone(), m.record_type, m.ttl, m.change_kind, m.value.clone())
}

fn expect(zone: &str, name: &str, record_type: RecordType, value: &str) -> (String, String, RecordType, u32, ChangeKind, String) {
    (zone.to_string(), name.to_string(), record_type, 3600, ChangeKind::Replace, value.to_string())
}

#[test]
fn a_rule_is_read_from_three_parts() {
    let rule = Remapper::from_str("10.0.0.0/8@internal.example@{}.node").unwrap();
    assert_eq!(rule.net, Cidr { addr: IpAddress::V4(0x0a000000), prefix_len: 8 });
    assert_eq!(rule.zone, "internal.example");
    assert_eq!(rule.entry_fmt, "{}.node");
    let v6 = Remapper::from_str("2001:db8::/32@v6.example@{}").unwrap();
    assert_eq!(
        v6.net,
        Cidr { addr: IpAddress::V6(0x2001_0db8_0000_0000_0000_0000_0000_0000), prefix_len: 32 }
    );
    let host_bits = Remapper::from_str("192.168.7.9/16@@").unwrap();
    assert_eq!(host_bits.net, Cidr { addr: IpAddress::V4(0xc0a80709), prefix_len: 16 });
    assert_eq!(host_bits.zone, "");
    assert_eq!(host_bits.entry_fmt, "");
}

#[test]
fn a_rule_needs_exactly_three_parts() {
    assert_eq!(Remapper::from_str("").err(), Some(RemapperError::InvalidNumberOfParts(1)));
    assert_eq!(Remapper::from_str("10.0.0.0/8").err(), Some(RemapperError::InvalidNumberOfParts(1)));
    assert_eq!(
        Remapper::from_str("10.0.0.0/8@zone").err(),
        Some(RemapperError::InvalidNumberOfParts(2))
    );
    assert_eq!(
        Remapper::from_str("10.0.0.0/8@zone@{}@more").err(),
        Some(RemapperError::InvalidNumberOfParts(4))
    );
}

#[test]
fn a_rule_needs_an_address_block() {
    for text in ["10.0.0.0@z@{}", "10.0.0.0/33@z@{}", "@z@{}", "banana/8@z@{}", "::/129@z@{}", "10.0.0.0/8 @z@{}"] {
        assert_eq!(Remapper::from_str(text).err(), Some(RemapperError::InvalidNetwork), "for {:?}", text);
    }
}

#[test]
fn assemble_refuses_a_prefix_longer_than_the_address() {
    assert!(Remapper::assemble(Some((IpAddress::V4(1), 32)), "z".to_string(), "{}".to_string()).is_ok());
    assert_eq!(
        Remapper::assemble(Some((IpAddress::V4(1), 33)), "z".to_string(), "{}".to_string()).err(),
        Some(RemapperError::InvalidNetwork)
    );
    assert!(Remapper::assemble(Some((IpAddress::V6(1), 128)), "z".to_string(), "{}".to_string()).is_ok());
    assert_eq!(
        Remapper::assemble(Some((IpAddress::V6(1), 129)), "z".to_string(), "{}".to_string()).err(),
        Some(RemapperError::InvalidNetwork)
    );
    assert_eq!(
        Remapper::assemble(None, "z".to_string(), "{}".to_string()).err(),
        Some(RemapperError::InvalidNetwork)
    );
}

#[test]
fn substitute_replaces_each_placeholder() {
    assert_eq!(substitute("{}.node", "h1"), "h1.node");
    assert_eq!(substitute("{}", "h1"), "h1");
    assert_eq!(substitute("a.{}.b.{}", "h1"), "a.h1.b.h1");
    assert_eq!(substitute("plain", "h1"), "plain");
    assert_eq!(substitute("", "h1"), "");
    assert_eq!(substitute("{{}}", "h1"), "{h1}");
    assert_eq!(substitute("{}{}", "ab"), "abab");
    assert_eq!(substitute("{ }{", "h1"), "{ }{");
    assert_eq!(substitute("{}", "{}"), "{}");
    assert_eq!(substitute("é{}ü", "ö"), "éöü");
}

#[test]
fn substitute_agrees_with_replace() {
    let alphabet = ['{', '}', '{', '}', 'a', '.'];
    let mut state = 17u64;
    for _ in 0..20000 {
        let mut template = String::new();
        for _ in 0..(next(&mut state) % 9) {
            template.push(alphabet[(next(&mut state) % 6) as usize]);
        }
        assert_eq!(substitute(&template, "host"), template.replace("{}", "host"));
        assert_eq!(substitute(&template, "{}"), template.replace("{}", "{}"));
    }
}

#[test]
fn remapping_is_the_product_of_addresses_and_rules() {
    let rules = rules(&["10.0.0.0/8@internal.example@{}.node", "192.168.0.0/16@lan.example@{}.local"]);
    let identity = identity("h1", &[&["10.1.2.3", "192.168.5.5", "8.8.8.8"]]);
    let mutations: Vec<_> = compute_mutations(&identity, &rules).iter().map(flat).collect();
    assert_eq!(
        mutations,
        vec![
            expect("internal.example", "h1.node", RecordType::A, "10.1.2.3"),
            expect("lan.example", "h1.local", RecordType::A, "192.168.5.5"),
        ]
    );
}

#[test]
fn an_address_in_several_blocks_gives_several_mutations() {
    let rules = rules(&[
        "10.0.0.0/8@wide.example@{}.wide",
        "2001:db8::/32@six.example@{}.six",
        "10.1.0.0/16@narrow.example@{}.narrow",
        "0.0.0.0/0@all.example@all-{}",
    ]);
    let identity = identity("h1", &[&["10.1.2.3"], &[], &["2001:DB8:0::7", "10.2.0.1"]]);
    let mutations: Vec<_> = compute_mutations(&identity, &rules).iter().map(flat).collect();
    assert_eq!(
        mutations,
        vec![
            expect("wide.example", "h1.wide", RecordType::A, "10.1.2.3"),
            expect("narrow.example", "h1.narrow", RecordType::A, "10.1.2.3"),
            expect("all.example", "all-h1", RecordType::A, "10.1.2.3"),
            expect("six.example", "h1.six", RecordType::Aaaa, "2001:db8::7"),
            expect("wide.example", "h1.wide", RecordType::A, "10.2.0.1"),
            expect("all.example", "all-h1", RecordType::A, "10.2.0.1"),
        ]
    );
    assert_eq!(RECORD_TTL, 3600);
}

#[test]
fn a_text_that_is_no_address_gives_nothing() {
    let rules = rules(&["0.0.0.0/0@all.example@{}", "::/0@all6.example@{}"]);
    let identity = identity("h1", &[&["not-an-address", "10.1.2.3/8", "", "010.1.2.3"]]);
    assert!(compute_mutations(&identity, &rules).is_empty());
    assert!(compute_mutations(&identity, &Vec::new()).is_empty());
}

#[test]
fn families_do_not_mix() {
    let v4_all = Cidr::new(IpAddress::V4(0), 0).unwrap();
    let v6_all = Cidr::new(IpAddress::V6(0), 0).unwrap();
    assert!(v4_all.contains(&IpAddress::V4(0xffffffff)));
    assert!(!v4_all.contains(&IpAddress::V6(1)));
    assert!(v6_all.contains(&IpAddress::V6(u128::MAX)));
    assert!(!v6_all.contains(&IpAddress::V4(1)));
}

#[test]
fn a_block_holds_what_shares_its_prefix() {
    let net = Cidr::new(IpAddress::V4(0x0a010203), 8).unwrap();
    assert!(net.contains(&IpAddress::V4(0x0a000000)));
    assert!(net.contains(&IpAddress::V4(0x0affffff)));
    assert!(!net.contains(&IpAddress::V4(0x09ffffff)));
    assert!(!net.contains(&IpAddress::V4(0x0b000000)));
    let host = Cidr::new(IpAddress::V4(0x0a010203), 32).unwrap();
    assert!(host.contains(&IpAddress::V4(0x0a010203)));
    assert!(!host.contains(&IpAddress::V4(0x0a010202)));
    let six = Cidr::new(IpAddress::V6(0x2001_0db8 << 96), 33).unwrap();
    assert!(six.contains(&IpAddress::V6((0x2001_0db8 << 96) | 5)));
    assert!(six.contains(&IpAddress::V6((0x2001_0db8_7fff_ffff << 64) | 5)));
    assert!(!six.contains(&IpAddress::V6(0x2001_0db8_8000_0000 << 64)));
    assert_eq!(Cidr::new(IpAddress::V4(0), 33), None);
    assert_eq!(Cidr::new(IpAddress::V6(0), 129), None);
}

#[test]
fn contains_agrees_with_ipnet() {
    let mut state = 23u64;
    for _ in 0..20000 {
        let base = next(&mut state) as u32;
        let len = (next(&mut state) % 33) as u8;
        let flip = if len == 32 { 0 } else { (next(&mut state) as u32) >> len };
        let near = base ^ flip;
        let far = next(&mut state) as u32;
        let net = Cidr::new(IpAddress::V4(base), len).unwrap();
        let theirs: IpNet = format!("{}/{}", IpAddress::V4(base).to_text(), len).parse().unwrap();
        for candidate in [near, far, base] {
            let host: IpNet = format!("{}/32", IpAddress::V4(candidate).to_text()).parse().unwrap();
            assert_eq!(net.contains(&IpAddress::V4(candidate)), theirs.contains(&host));
        }
    }
    for _ in 0..20000 {
        let base = ((next(&mut state) as u128) << 64) | next(&mut state) as u128;
        let len = (next(&mut state) % 129) as u8;
        let noise = ((next(&mut state) as u128) << 75) | ((next(&mut state) as u128) << 22) | next(&mut state) as u128;
        let near = if len == 128 { base } else { base ^ (noise >> len) };
        let far = noise;
        let net = Cidr::new(IpAddress::V6(base), len).unwrap();
        let theirs: IpNet = format!("{}/{}", IpAddress::V6(base).to_text(), len).parse().unwrap();
        for candidate in [near, far, base] {
            let host: IpNet = format!("{}/128", IpAddress::V6(candidate).to_text()).parse().unwrap();
            assert_eq!(net.contains(&IpAddress::V6(candidate)), theirs.contains(&host));
        }
    }
}
