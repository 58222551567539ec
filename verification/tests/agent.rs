use strapper::agent::{Agent, Directive, Phase};
use strapper::directory::{Directory, InterfaceRecord};
use strapper::identity::{hostname_from_raw, is_whitespace, NodeIdentity};
use strapper::kernel::{AddressAttr, AddressMessage};
use strapper::monitor::KernelEvent;

fn identity() -> NodeIdentity {
    NodeIdentity {
        hostname: "h1".to_string(),
        interfaces: Directory {
            records: vec![InterfaceRecord {
                name: "eth0".to_string(),
                hardware_address: "00:1b:44:11:3a:b7".to_string(),
                kernel_index: 2,
                addresses: vec!["10.0.0.1".to_string()],
            }],
        },
    }
}

fn new_address(index: u32, raw: &[u8]) -> KernelEvent {
    KernelEvent::NewAddress(AddressMessage { index, attrs: vec![AddressAttr::Address(raw.to_vec())] })
}

fn del_address(index: u32, raw: &[u8]) -> KernelEvent {
    KernelEvent::DelAddress(AddressMessage { index, attrs: vec![AddressAttr::Address(raw.to_vec())] })
}

#[test]
fn the_agent_starts_by_advertising() {
    let (agent, directive) = Agent::start(identity());
    assert_eq!(directive, Directive::Advertise);
    assert_eq!(agent.phase, Phase::Announcing);
    assert_eq!(agent.identity.hostname, "h1");
}

#[test]
fn ready_is_signalled_once_after_the_first_advertisement() {
    let (mut agent, _) = Agent::start(identity());
    assert_eq!(agent.on_advertised(true), Directive::SignalReady);
    assert_eq!(agent.phase, Phase::Watching);
    assert_eq!(agent.on_event(&new_address(2, &[10, 0, 0, 2])), Directive::Advertise);
    assert_eq!(agent.phase, Phase::Updating);
    assert_eq!(agent.on_advertised(true), Directive::AwaitEvent);
    assert_eq!(agent.phase, Phase::Watching);
    assert_eq!(agent.on_advertised(true), Directive::AwaitEvent);
    assert_eq!(agent.identity.interfaces.records[0].addresses, vec!["10.0.0.1", "10.0.0.2"]);
}

#[test]
fn an_event_without_effect_needs_no_advertisement() {
    let (mut agent, _) = Agent::start(identity());
    agent.on_advertised(true);
    assert_eq!(agent.on_event(&KernelEvent::Other), Directive::AwaitEvent);
    assert_eq!(agent.on_event(&new_address(2, &[10, 0, 0, 1])), Directive::AwaitEvent);
    assert_eq!(agent.on_event(&new_address(2, &[127, 0, 0, 1])), Directive::AwaitEvent);
    assert_eq!(agent.on_event(&del_address(2, &[10, 0, 0, 9])), Directive::AwaitEvent);
    assert_eq!(agent.on_event(&new_address(9, &[10, 0, 0, 9])), Directive::AwaitEvent);
    assert_eq!(agent.phase, Phase::Watching);
    assert_eq!(agent.on_event(&del_address(2, &[10, 0, 0, 1])), Directive::Advertise);
    assert!(agent.identity.interfaces.records[0].addresses.is_empty());
}

#[test]
fn a_failed_advertisement_stops_the_agent() {
    let (mut agent, _) = Agent::start(identity());
    assert_eq!(agent.on_advertised(false), Directive::Stop);
    assert_eq!(agent.phase, Phase::Stopped);
    assert_eq!(agent.on_advertised(true), Directive::Stop);
    assert_eq!(agent.on_event(&new_address(2, &[10, 0, 0, 2])), Directive::Stop);
    assert_eq!(agent.identity.interfaces.records[0].addresses, vec!["10.0.0.1"]);

    let (mut later, _) = Agent::start(identity());
    later.on_advertised(true);
    later.on_event(&new_address(2, &[10, 0, 0, 2]));
    assert_eq!(later.on_advertised(false), Directive::Stop);
    assert_eq!(later.phase, Phase::Stopped);
}

#[test]
fn a_malformed_address_stops_the_agent() {
    let (mut agent, _) = Agent::start(identity());
    agent.on_advertised(true);
    assert_eq!(agent.on_event(&new_address(2, &[1, 2, 3])), Directive::Stop);
    assert_eq!(agent.phase, Phase::Stopped);
}

#[test]
fn events_wait_while_an_advertisement_is_under_way() {
    let (mut agent, _) = Agent::start(identity());
    assert_eq!(agent.on_event(&new_address(2, &[10, 0, 0, 2])), Directive::Advertise);
    assert_eq!(agent.phase, Phase::Announcing);
    assert_eq!(agent.identity.interfaces.records[0].addresses, vec!["10.0.0.1"]);
}

#[test]
fn hostname_loses_the_whitespace_at_its_end() {
    assert_eq!(hostname_from_raw("node1\n"), "node1");
    assert_eq!(hostname_from_raw("node1"), "node1");
    assert_eq!(hostname_from_raw("  node 1 \t\r\n "), "  node 1");
    assert_eq!(hostname_from_raw("\n"), "");
    assert_eq!(hostname_from_raw(""), "");
    assert_eq!(hostname_from_raw("näme\u{3000}\u{a0}"), "näme");
}

#[test]
fn hostname_trimming_agrees_with_trim_end() {
    for raw in ["a b\n", "\u{2003}x\u{2003}", "x\u{200b}", "tab\t", "x\u{85}", "x\u{1680}\u{2028}\u{2029}\u{202f}\u{205f}"] {
        assert_eq!(hostname_from_raw(raw), raw.trim_end());
    }
}

#[test]
fn whitespace_is_the_unicode_property() {
    let mut code: u32 = 0;
    while code <= 0x10ffff {
        if let Some(c) = char::from_u32(code) {
            assert_eq!(is_whitespace(c), c.is_whitespace(), "U+{:04X}", code);
        }
        code += 1;
    }
}
