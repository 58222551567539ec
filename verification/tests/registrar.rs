use strapper::directory::{Directory, InterfaceRecord};
use strapper::identity::NodeIdentity;
use strapper::pdns::{
    sync_verdict, ChangeKind, JobOutcome, PdnsApi, RecordType, SyncError, ZoneMutation, NO_CONTENT,
};
use strapper::registrar::NSServer;
use strapper::remap::Remapper;

fn mutation(zone: &str) -> ZoneMutation {
    ZoneMutation {
        zone: zone.to_string(),
        record_name: "h1.node".to_string(),
        record_type: RecordType::A,
        ttl: 3600,
        change_kind: ChangeKind::Replace,
        value: "10.1.2.3".to_string(),
    }
}

fn api(key: Option<&str>) -> PdnsApi {
    PdnsApi {
        endpoint: "http://localhost:8080".to_string(),
        server: "localhost".to_string(),
        key: key.map(|k| k.to_string()),
    }
}

#[test]
fn the_request_patches_the_zone_on_the_server() {
    let request = api(None).build_zone_update_request(mutation("internal.example"));
    assert_eq!(request.url, "http://localhost:8080/api/v1/servers/localhost/zones/internal.example");
    assert_eq!(request.api_key, None);
    assert_eq!(request.update.zone, "internal.example");
    assert_eq!(request.update.record_name, "h1.node");
    assert_eq!(request.update.value, "10.1.2.3");
    assert_eq!(request.update.ttl, 3600);
}

#[test]
fn the_request_carries_the_key_where_there_is_one() {
    let request = api(Some("secret")).build_zone_update_request(mutation("z"));
    assert_eq!(request.api_key, Some("secret".to_string()));
    assert_eq!(request.url, "http://localhost:8080/api/v1/servers/localhost/zones/z");
}

#[test]
fn labels_are_those_of_the_control_plane() {
    assert_eq!(RecordType::A.label(), "A");
    assert_eq!(RecordType::Aaaa.label(), "AAAA");
    assert_eq!(ChangeKind::Replace.label(), "REPLACE");
    assert_eq!(NO_CONTENT, 204);
}

#[test]
fn duplicate_copies_every_field() {
    let m = mutation("z");
    let copy = m.duplicate();
    assert_eq!(copy.zone, m.zone);
    assert_eq!(copy.record_name, m.record_name);
    assert_eq!(copy.record_type, m.record_type);
    assert_eq!(copy.ttl, m.ttl);
    assert_eq!(copy.change_kind, m.change_kind);
    assert_eq!(copy.value, m.value);
}

#[test]
fn all_accepted_is_success() {
    assert_eq!(sync_verdict(&vec![]), Ok(()));
    assert_eq!(sync_verdict(&vec![JobOutcome::Responded(204); 5]), Ok(()));
}

#[test]
fn one_failure_among_successes_fails_the_call() {
    for failing in 0..5usize {
        let mut outcomes = vec![JobOutcome::Responded(204); 5];
        outcomes[failing] = JobOutcome::Responded(500);
        assert_eq!(sync_verdict(&outcomes), Err(SyncError::InvalidResponse(500)));
    }
}

#[test]
fn the_first_failure_decides() {
    let outcomes = vec![
        JobOutcome::Responded(204),
        JobOutcome::RequestFailed,
        JobOutcome::Aborted,
        JobOutcome::Responded(422),
    ];
    assert_eq!(sync_verdict(&outcomes), Err(SyncError::RequestFailed));
    assert_eq!(
        sync_verdict(&vec![JobOutcome::Aborted, JobOutcome::RequestFailed]),
        Err(SyncError::Aborted)
    );
    assert_eq!(
        sync_verdict(&vec![JobOutcome::Responded(200), JobOutcome::Aborted]),
        Err(SyncError::InvalidResponse(200))
    );
}

#[test]
fn errors_have_their_messages() {
    assert_eq!(SyncError::Aborted.message(), "pdns request cancelled/paniced");
    assert_eq!(SyncError::RequestFailed.message(), "pdns request failed");
    assert_eq!(SyncError::InvalidResponse(500).message(), "invalid pdns response");
}

fn server() -> NSServer {
    NSServer {
        pdns: api(Some("k")),
        remappers: vec![
            Remapper::from_str("10.0.0.0/8@internal.example@{}.node").unwrap(),
            Remapper::from_str("192.168.0.0/16@lan.example@{}.local").unwrap(),
        ],
    }
}

fn advertisement() -> NodeIdentity {
    NodeIdentity {
        hostname: "h1".to_string(),
        interfaces: Directory {
            records: vec![InterfaceRecord {
                name: "eth0".to_string(),
                hardware_address: "00:1b:44:11:3a:b7".to_string(),
                kernel_index: 2,
                addresses: vec!["10.1.2.3".to_string(), "192.168.5.5".to_string(), "8.8.8.8".to_string()],
            }],
        },
    }
}

#[test]
fn the_registrar_plans_one_request_for_each_mutation() {
    let requests = server().requests(&advertisement());
    assert_eq!(requests.len(), 2);
    assert_eq!(requests[0].url, "http://localhost:8080/api/v1/servers/localhost/zones/internal.example");
    assert_eq!(requests[0].api_key, Some("k".to_string()));
    assert_eq!(requests[0].update.record_name, "h1.node");
    assert_eq!(requests[0].update.record_type, RecordType::A);
    assert_eq!(requests[0].update.value, "10.1.2.3");
    assert_eq!(requests[1].url, "http://localhost:8080/api/v1/servers/localhost/zones/lan.example");
    assert_eq!(requests[1].update.record_name, "h1.local");
    assert_eq!(requests[1].update.value, "192.168.5.5");
}

#[test]
fn the_registrar_fails_the_call_on_one_failure() {
    let s = server();
    assert_eq!(s.conclude(&vec![JobOutcome::Responded(204), JobOutcome::Responded(204)]), Ok(()));
    assert_eq!(
        s.conclude(&vec![JobOutcome::Responded(204), JobOutcome::Responded(503)]),
        Err(SyncError::InvalidResponse(503))
    );
    assert_eq!(
        s.conclude(&vec![JobOutcome::Aborted, JobOutcome::Responded(204)]),
        Err(SyncError::Aborted)
    );
}
