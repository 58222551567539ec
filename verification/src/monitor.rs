//! Kernel events after startup: each is applied to the directory, and says
//! whether the node has something new to advertise.

use crate::classify::MalformedAddress;
use crate::directory::{well_formed, Directory, InterfaceModel};
use crate::enumerate::{
    addresses_applied, enumerated, lemma_addresses_applied_joined, links_applied,
    EnumerationError,
};
use crate::link::LinkMessageModel;
use crate::kernel::{
    add_addr, del_addr, directory_after, message_result, only_advertisable, AddressChange,
    AddressMessage, AddressMessageModel,
};
use vstd::prelude::*;

verus! {

/// A notification from the kernel.
#[derive(Clone, Debug)]
pub enum KernelEvent {
    /// An interface has a new address.
    NewAddress(AddressMessage),
    /// An interface has lost an address.
    DelAddress(AddressMessage),
    /// Anything else, such as a change of a link.
    Other,
}

/// What a `KernelEvent` holds.
pub enum KernelEventModel {
    NewAddress(AddressMessageModel),
    DelAddress(AddressMessageModel),
    Other,
}

impl View for KernelEvent {
    type V = KernelEventModel;

    open spec fn view(&self) -> KernelEventModel {
        match self {
            KernelEvent::NewAddress(msg) => KernelEventModel::NewAddress(msg@),
            KernelEvent::DelAddress(msg) => KernelEventModel::DelAddress(msg@),
            KernelEvent::Other => KernelEventModel::Other,
        }
    }
}

/// What each event of `events` holds.
pub open spec fn event_models(events: Seq<KernelEvent>) -> Seq<KernelEventModel> {
    events.map_values(|e: KernelEvent| e@)
}

/// The directory after an event. Only address events change it.
pub open spec fn event_applied(d: Seq<InterfaceModel>, event: KernelEventModel) -> Seq<
    InterfaceModel,
> {
    match event {
        KernelEventModel::NewAddress(msg) => directory_after(d, msg, AddressChange::Add),
        KernelEventModel::DelAddress(msg) => directory_after(d, msg, AddressChange::Remove),
        KernelEventModel::Other => d,
    }
}

/// What applying an event returns: whether the directory changed, or the
/// error of a malformed address.
pub open spec fn event_result(d: Seq<InterfaceModel>, event: KernelEventModel) -> Result<
    bool,
    MalformedAddress,
> {
    match event {
        KernelEventModel::NewAddress(msg) => message_result(d, msg, AddressChange::Add),
        KernelEventModel::DelAddress(msg) => message_result(d, msg, AddressChange::Remove),
        KernelEventModel::Other => Ok(false),
    }
}

/// The directory after the events were applied one after the other, or the
/// error of the first event that was refused.
pub open spec fn replayed(d: Seq<InterfaceModel>, events: Seq<KernelEventModel>) -> Result<
    Seq<InterfaceModel>,
    MalformedAddress,
>
    decreases events.len(),
{
    if events.len() == 0 {
        Ok(d)
    } else {
        match replayed(d, events.drop_last()) {
            Err(e) => Err(e),
            Ok(mid) => match event_result(mid, events.last()) {
                Err(e) => Err(e),
                Ok(_) => Ok(event_applied(mid, events.last())),
            },
        }
    }
}

/// The "new address" events that mirror a list of address messages.
pub open spec fn as_new_address_events(msgs: Seq<AddressMessageModel>) -> Seq<KernelEventModel> {
    msgs.map_values(|m: AddressMessageModel| KernelEventModel::NewAddress(m))
}

/// Replaying "new address" events that mirror a list of address messages
/// gives the directory that enumerating that list gives, and fails where the
/// enumeration fails, with the same error.
pub proof fn lemma_replay_mirrors_enumeration(
    d: Seq<InterfaceModel>,
    msgs: Seq<AddressMessageModel>,
)
    ensures
        replayed(d, as_new_address_events(msgs)) == addresses_applied(d, msgs),
    decreases msgs.len(),
{
    if msgs.len() > 0 {
        let events = as_new_address_events(msgs);
        assert(events.drop_last() =~= as_new_address_events(msgs.drop_last()));
        assert(events.last() == KernelEventModel::NewAddress(msgs.last()));
        lemma_replay_mirrors_enumeration(d, msgs.drop_last());
    }
}

/// A full enumeration gives what taking the interfaces and then replaying, as
/// "new address" events, the IPv6 addresses followed by the IPv4 addresses
/// gives.
pub proof fn lemma_enumeration_is_replay(
    patterns: Seq<regex::Regex>,
    links: Seq<LinkMessageModel>,
    v6: Seq<AddressMessageModel>,
    v4: Seq<AddressMessageModel>,
)
    ensures
        enumerated(patterns, links, v6, v4) == match links_applied(Seq::empty(), patterns, links) {
            Err(e) => Err(EnumerationError::Link(e)),
            Ok(d) => match replayed(d, as_new_address_events(v6 + v4)) {
                Err(e) => Err(EnumerationError::Address(e)),
                Ok(after) => Ok(after),
            },
        },
{
    match links_applied(Seq::empty(), patterns, links) {
        Err(_) => {},
        Ok(d) => {
            lemma_replay_mirrors_enumeration(d, v6 + v4);
            lemma_addresses_applied_joined(d, v6, v4);
        },
    }
}

/// Once an event is refused, the whole list is.
pub proof fn lemma_replay_refusal_stays(
    d: Seq<InterfaceModel>,
    events: Seq<KernelEventModel>,
    n: int,
)
    requires
        0 <= n <= events.len(),
        replayed(d, events.take(n)) is Err,
    ensures
        replayed(d, events) == replayed(d, events.take(n)),
    decreases events.len() - n,
{
    if n < events.len() {
        assert(events.take(n + 1).drop_last() =~= events.take(n));
        lemma_replay_refusal_stays(d, events, n + 1);
    } else {
        assert(events.take(n) =~= events);
    }
}

/// Applies one event to the directory. Returns whether the directory
/// changed; a malformed address in an event for a known interface is an
/// error.
pub fn apply_event(dir: &mut Directory, event: &KernelEvent) -> (r: Result<bool, MalformedAddress>)
    ensures
        final(dir)@ == event_applied(old(dir)@, event@),
        r == event_result(old(dir)@, event@),
        r matches Ok(changed) ==> changed == (final(dir)@ != old(dir)@),
        well_formed(old(dir)@) ==> well_formed(final(dir)@),
        only_advertisable(old(dir)@) ==> only_advertisable(final(dir)@),
{
    match event {
        KernelEvent::NewAddress(msg) => add_addr(dir, msg),
        KernelEvent::DelAddress(msg) => del_addr(dir, msg),
        KernelEvent::Other => Ok(false),
    }
}

/// Applies a list of events in order. Returns the directory and whether
/// any event changed it; ends at the first event that is refused.
pub fn replay(dir: Directory, events: &Vec<KernelEvent>) -> (r: Result<
    (Directory, bool),
    MalformedAddress,
>)
    ensures
        match (r, replayed(dir@, event_models(events@))) {
            (Ok((after, _)), Ok(d)) => after@ == d,
            (Err(e), Err(expected)) => e == expected,
            _ => false,
        },
        r matches Ok((after, changed)) ==> (!changed ==> after@ == dir@) && (well_formed(dir@)
            ==> well_formed(after@)) && (only_advertisable(dir@) ==> only_advertisable(after@)),
{
    let ghost all = event_models(events@);
    let mut current = dir;
    let mut changed = false;
    let mut i: usize = 0;
    while i < events.len()
        invariant
            i <= events.len(),
            all == event_models(events@),
            replayed(dir@, all.take(i as int)) == Ok::<Seq<InterfaceModel>, MalformedAddress>(
                current@,
            ),
            !changed ==> current@ == dir@,
            well_formed(dir@) ==> well_formed(current@),
            only_advertisable(dir@) ==> only_advertisable(current@),
        decreases events.len() - i,
    {
        proof {
            assert(all.take(i + 1).drop_last() =~= all.take(i as int));
            assert(all.take(i + 1).last() == events@[i as int]@);
        }
        match apply_event(&mut current, &events[i]) {
            Ok(did) => {
                if did {
                    changed = true;
                }
            },
            Err(e) => {
                proof {
                    lemma_replay_refusal_stays(dir@, all, i + 1);
                }
                return Err(e);
            },
        }
        i = i + 1;
    }
    proof {
        assert(all.take(i as int) =~= all);
    }
    Ok((current, changed))
}

} // verus!
