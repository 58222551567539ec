//! The registrar: what it asks of the DNS control plane for an advertisement,
//! and what it answers the agent once the control plane has answered.

use crate::identity::NodeIdentity;
use crate::pdns::{
    first_failure, mutation_models, request_model, sync_verdict, zone_url, JobOutcome, PdnsApi,
    SyncError, ZoneMutationModel, ZoneUpdateRequest,
};
use crate::remap::{compute_mutations, mutations, rule_models, Remapper};
use vstd::prelude::*;

verus! {

/// The registrar's configuration. It holds no state of the nodes.
#[derive(Clone, Debug)]
pub struct NSServer {
    pub pdns: PdnsApi,
    /// The rules, in the order in which they were given.
    pub remappers: Vec<Remapper>,
}

/// What each request of `requests` holds.
pub open spec fn request_models(requests: Seq<ZoneUpdateRequest>) -> Seq<
    (Seq<char>, Option<Seq<char>>, ZoneMutationModel),
> {
    requests.map_values(|r: ZoneUpdateRequest| request_model(r))
}

/// The requests for the mutations, one each and in their order.
pub open spec fn requests_for(
    endpoint: Seq<char>,
    server: Seq<char>,
    key: Option<Seq<char>>,
    mutations: Seq<ZoneMutationModel>,
) -> Seq<(Seq<char>, Option<Seq<char>>, ZoneMutationModel)> {
    mutations.map_values(|m: ZoneMutationModel| (zone_url(endpoint, server, m.zone), key, m))
}

impl NSServer {
    /// The requests that an advertisement leads to: one for each mutation
    /// that the rules give, in the order of the mutations. All of them are
    /// to be sent, whatever the answers to the others.
    pub fn requests(&self, advertisement: &NodeIdentity) -> (requests: Vec<ZoneUpdateRequest>)
        ensures
            request_models(requests@) == requests_for(
                self.pdns.endpoint@,
                self.pdns.server@,
                self.pdns.key_model(),
                mutations(advertisement@, rule_models(self.remappers@)),
            ),
    {
        let planned = compute_mutations(advertisement, &self.remappers);
        let ghost all = mutation_models(planned@);
        let ghost expected = requests_for(
            self.pdns.endpoint@,
            self.pdns.server@,
            self.pdns.key_model(),
            all,
        );
        let mut requests: Vec<ZoneUpdateRequest> = Vec::new();
        let mut i: usize = 0;
        while i < planned.len()
            invariant
                i <= planned.len(),
                all == mutation_models(planned@),
                expected == requests_for(
                    self.pdns.endpoint@,
                    self.pdns.server@,
                    self.pdns.key_model(),
                    all,
                ),
                request_models(requests@) == expected.take(i as int),
            decreases planned.len() - i,
        {
            let ghost before = request_models(requests@);
            let update = planned[i].duplicate();
            let request = self.pdns.build_zone_update_request(update);
            proof {
                assert(all[i as int] == planned@[i as int]@);
                assert(update.zone@ == update@.zone);
                assert(request_model(request) == expected[i as int]);
            }
            requests.push(request);
            proof {
                assert(request_models(requests@) =~= before.push(request_model(request)));
                assert(request_models(requests@) =~= expected.take(i + 1));
            }
            i = i + 1;
        }
        proof {
            assert(expected.take(i as int) =~= expected);
        }
        requests
    }

    /// The answer to the agent once every request has ended: success where
    /// the control plane accepted every one of them, otherwise the error of
    /// the first, in the order of the requests, that it did not accept.
    pub fn conclude(&self, outcomes: &Vec<JobOutcome>) -> (r: Result<(), SyncError>)
        ensures
            r == (match first_failure(outcomes@) {
                Some(e) => Err::<(), SyncError>(e),
                None => Ok(()),
            }),
    {
        sync_verdict(outcomes)
    }
}

} // verus!
