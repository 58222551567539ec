//! What the registrar asks of the DNS control plane: one replacement of a
//! record set per mutation, and one verdict over the answers.

use vstd::prelude::*;
use vstd::string::*;

verus! {

/// Time to live of every record that the registrar publishes, in seconds.
pub const RECORD_TTL: u32 = 3600;

/// The status with which the control plane accepts a change.
pub const NO_CONTENT: u16 = 204;

/// The type of an address record.
#[derive(Clone, Copy, Debug, PartialEq, Eq, Structural)]
pub enum RecordType {
    /// An IPv4 address.
    A,
    /// An IPv6 address.
    Aaaa,
}

/// How a mutation treats the record set that is there.
#[derive(Clone, Copy, Debug, PartialEq, Eq, Structural)]
pub enum ChangeKind {
    /// The record set is replaced as a whole.
    Replace,
}

/// One change of one record set.
#[derive(Clone, Debug)]
pub struct ZoneMutation {
    /// The DNS zone of the record.
    pub zone: String,
    pub record_name: String,
    pub record_type: RecordType,
    pub ttl: u32,
    pub change_kind: ChangeKind,
    /// Text of the address that the record holds.
    pub value: String,
}

/// What a `ZoneMutation` holds.
pub struct ZoneMutationModel {
    pub zone: Seq<char>,
    pub record_name: Seq<char>,
    pub record_type: RecordType,
    pub ttl: u32,
    pub change_kind: ChangeKind,
    pub value: Seq<char>,
}

impl View for ZoneMutation {
    type V = ZoneMutationModel;

    open spec fn view(&self) -> ZoneMutationModel {
        ZoneMutationModel {
            zone: self.zone@,
            record_name: self.record_name@,
            record_type: self.record_type,
            ttl: self.ttl,
            change_kind: self.change_kind,
            value: self.value@,
        }
    }
}

/// What each mutation of `mutations` holds.
pub open spec fn mutation_models(mutations: Seq<ZoneMutation>) -> Seq<ZoneMutationModel> {
    mutations.map_values(|m: ZoneMutation| m@)
}

impl ZoneMutation {
    /// A copy of this mutation.
    pub fn duplicate(&self) -> (copy: ZoneMutation)
        ensures
            copy@ == self@,
    {
        ZoneMutation {
            zone: self.zone.clone(),
            record_name: self.record_name.clone(),
            record_type: self.record_type,
            ttl: self.ttl,
            change_kind: self.change_kind,
            value: self.value.clone(),
        }
    }
}

impl RecordType {
    /// The name of the type in the control plane's requests.
    pub fn label(&self) -> (s: &'static str)
        ensures
            s@ == (match self {
                RecordType::A => "A"@,
                RecordType::Aaaa => "AAAA"@,
            }),
    {
        match self {
            RecordType::A => "A",
            RecordType::Aaaa => "AAAA",
        }
    }
}

impl ChangeKind {
    /// The name of the kind in the control plane's requests.
    pub fn label(&self) -> (s: &'static str)
        ensures
            s@ == "REPLACE"@,
    {
        "REPLACE"
    }
}

/// Where the control plane is reached.
#[derive(Clone, Debug)]
pub struct PdnsApi {
    /// Base of the control plane's URLs.
    pub endpoint: String,
    /// The server identifier within the control plane.
    pub server: String,
    /// The API key, where the control plane asks for one.
    pub key: Option<String>,
}

/// One request to the control plane: a patch of one zone.
#[derive(Clone, Debug)]
pub struct ZoneUpdateRequest {
    pub url: String,
    /// Value of the `X-API-Key` header; no such header where it is `None`.
    pub api_key: Option<String>,
    /// The one record set that the body of the request replaces.
    pub update: ZoneMutation,
}

/// The URL at which a zone is patched.
pub open spec fn zone_url(endpoint: Seq<char>, server: Seq<char>, zone: Seq<char>) -> Seq<char> {
    endpoint + "/api/v1/servers/"@ + server + "/zones/"@ + zone
}

/// What each request of `requests` holds: URL, API key and mutation.
pub open spec fn request_model(request: ZoneUpdateRequest) -> (
    Seq<char>,
    Option<Seq<char>>,
    ZoneMutationModel,
) {
    (
        request.url@,
        match request.api_key {
            Some(k) => Some(k@),
            None => None,
        },
        request.update@,
    )
}

impl PdnsApi {
    /// The key as it goes into a request.
    pub open spec fn key_model(self) -> Option<Seq<char>> {
        match self.key {
            Some(k) => Some(k@),
            None => None,
        }
    }

    /// The request that applies `update`: a patch of the zone of the
    /// mutation on the configured server, with the API key where one is
    /// configured.
    pub fn build_zone_update_request(&self, update: ZoneMutation) -> (request: ZoneUpdateRequest)
        ensures
            request_model(request) == (
                zone_url(self.endpoint@, self.server@, update.zone@),
                self.key_model(),
                update@,
            ),
    {
        let mut url = self.endpoint.clone();
        url.append("/api/v1/servers/");
        url.append(self.server.as_str());
        url.append("/zones/");
        url.append(update.zone.as_str());
        let api_key = match &self.key {
            Some(k) => Some(k.clone()),
            None => None,
        };
        ZoneUpdateRequest { url, api_key, update }
    }
}

/// How one request to the control plane ended.
#[derive(Clone, Copy, Debug, PartialEq, Eq, Structural)]
pub enum JobOutcome {
    /// The task that was to make the request was cancelled or crashed.
    Aborted,
    /// The request could not be made, or no response came.
    RequestFailed,
    /// The control plane answered with this status.
    Responded(u16),
}

/// Why a synchronisation failed.
#[derive(Clone, Copy, Debug, PartialEq, Eq, Structural)]
pub enum SyncError {
    /// A task was cancelled or crashed.
    Aborted,
    /// A request failed.
    RequestFailed,
    /// The control plane answered with a status other than `NO_CONTENT`.
    InvalidResponse(u16),
}

/// The error that an outcome stands for; `None` for success.
pub open spec fn failure_of(outcome: JobOutcome) -> Option<SyncError> {
    match outcome {
        JobOutcome::Aborted => Some(SyncError::Aborted),
        JobOutcome::RequestFailed => Some(SyncError::RequestFailed),
        JobOutcome::Responded(status) => if status == NO_CONTENT {
            None
        } else {
            Some(SyncError::InvalidResponse(status))
        },
    }
}

/// The error of the first outcome that is not a success.
pub open spec fn first_failure(outcomes: Seq<JobOutcome>) -> Option<SyncError>
    decreases outcomes.len(),
{
    if outcomes.len() == 0 {
        None
    } else {
        match first_failure(outcomes.drop_last()) {
            Some(e) => Some(e),
            None => failure_of(outcomes.last()),
        }
    }
}

/// One outcome that is not a success makes the whole synchronisation fail,
/// whatever the other outcomes are; and only that does.
pub proof fn lemma_one_failure_fails_all(outcomes: Seq<JobOutcome>)
    ensures
        first_failure(outcomes) is Some <==> exists|i: int|
            0 <= i < outcomes.len() && failure_of(#[trigger] outcomes[i]) is Some,
    decreases outcomes.len(),
{
    if outcomes.len() > 0 {
        let init = outcomes.drop_last();
        lemma_one_failure_fails_all(init);
        if first_failure(init) is Some {
            let i = choose|i: int| 0 <= i < init.len() && failure_of(#[trigger] init[i]) is Some;
            assert(outcomes[i] == init[i]);
        } else if failure_of(outcomes.last()) is Some {
            assert(outcomes[outcomes.len() - 1] == outcomes.last());
        } else {
            assert forall|i: int| 0 <= i < outcomes.len() implies failure_of(
                #[trigger] outcomes[i],
            ) is None by {
                if i < init.len() {
                    assert(init[i] == outcomes[i]);
                }
            }
        }
    }
}

/// The verdict over the answers of the control plane, taken in the order in
/// which the requests were made: success where every request was answered
/// with `NO_CONTENT`, otherwise the error of the first that was not.
pub fn sync_verdict(outcomes: &Vec<JobOutcome>) -> (r: Result<(), SyncError>)
    ensures
        r == (match first_failure(outcomes@) {
            Some(e) => Err::<(), SyncError>(e),
            None => Ok(()),
        }),
{
    let mut i: usize = 0;
    while i < outcomes.len()
        invariant
            i <= outcomes.len(),
            first_failure(outcomes@.take(i as int)) is None,
        decreases outcomes.len() - i,
    {
        proof {
            assert(outcomes@.take(i + 1).drop_last() =~= outcomes@.take(i as int));
        }
        let failure = match outcomes[i] {
            JobOutcome::Aborted => Some(SyncError::Aborted),
            JobOutcome::RequestFailed => Some(SyncError::RequestFailed),
            JobOutcome::Responded(status) => if status == NO_CONTENT {
                None
            } else {
                Some(SyncError::InvalidResponse(status))
            },
        };
        match failure {
            Some(e) => {
                proof {
                    lemma_failure_stays(outcomes@, i + 1);
                }
                return Err(e);
            },
            None => {},
        }
        i = i + 1;
    }
    proof {
        assert(outcomes@.take(i as int) =~= outcomes@);
    }
    Ok(())
}

/// The first failure among the first `n` outcomes is the first failure among
/// all.
pub proof fn lemma_failure_stays(outcomes: Seq<JobOutcome>, n: int)
    requires
        0 <= n <= outcomes.len(),
        first_failure(outcomes.take(n)) is Some,
    ensures
        first_failure(outcomes) == first_failure(outcomes.take(n)),
    decreases outcomes.len() - n,
{
    if n < outcomes.len() {
        assert(outcomes.take(n + 1).drop_last() =~= outcomes.take(n));
        lemma_failure_stays(outcomes, n + 1);
    } else {
        assert(outcomes.take(n) =~= outcomes);
    }
}

impl SyncError {
    /// The message with which the registrar reports the error to the agent.
    pub fn message(&self) -> (s: &'static str)
        ensures
            s@ == (match self {
                SyncError::Aborted => "pdns request cancelled/paniced"@,
                SyncError::RequestFailed => "pdns request failed"@,
                SyncError::InvalidResponse(_) => "invalid pdns response"@,
            }),
    {
        match self {
            SyncError::Aborted => "pdns request cancelled/paniced",
            SyncError::RequestFailed => "pdns request failed",
            SyncError::InvalidResponse(_) => "invalid pdns response",
        }
    }
}

} // verus!
