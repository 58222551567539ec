//! The first enumeration: from the kernel's list of interfaces and its lists
//! of addresses to the directory that a node advertises at startup.

use crate::classify::MalformedAddress;
use crate::directory::{
    distinct_indices, lemma_position_of, position_of, well_formed, Directory, InterfaceModel,
};
use crate::kernel::{
    add_addr, all_advertisable, directory_after, lemma_record_after, only_advertisable, refusal,
    refused, texts_of, usable, AddressChange, AddressMessage, AddressMessageModel,
};
use crate::link::{
    add_iface_if_not_exists_and_not_excluded, exclusions, upsert_outcome, upserted, LinkError,
    LinkMessage, LinkMessageModel, Upsert,
};
use vstd::prelude::*;

verus! {

/// Why an enumeration failed.
#[derive(Clone, Copy, Debug, PartialEq, Eq, Structural)]
pub enum EnumerationError {
    /// A link message was refused.
    Link(LinkError),
    /// An address message held a malformed address.
    Address(MalformedAddress),
}

/// What each message of `links` holds.
pub open spec fn link_models(links: Seq<LinkMessage>) -> Seq<LinkMessageModel> {
    links.map_values(|m: LinkMessage| m@)
}

/// What each message of `msgs` holds.
pub open spec fn message_models(msgs: Seq<AddressMessage>) -> Seq<AddressMessageModel> {
    msgs.map_values(|m: AddressMessage| m@)
}

/// The directory after the link messages were taken one after the other, or
/// the error of the first that was refused.
pub open spec fn links_applied(
    d: Seq<InterfaceModel>,
    patterns: Seq<regex::Regex>,
    links: Seq<LinkMessageModel>,
) -> Result<Seq<InterfaceModel>, LinkError>
    decreases links.len(),
{
    if links.len() == 0 {
        Ok(d)
    } else {
        match links_applied(d, patterns, links.drop_last()) {
            Err(e) => Err(e),
            Ok(mid) => {
                let flags = exclusions(patterns, links.last().attrs);
                match upsert_outcome(mid, flags, links.last()) {
                    Upsert::Failed(e) => Err(e),
                    _ => Ok(upserted(mid, flags, links.last())),
                }
            },
        }
    }
}

/// The directory after the addresses of the messages were added one message
/// after the other, or the error of the first message that was refused.
pub open spec fn addresses_applied(
    d: Seq<InterfaceModel>,
    msgs: Seq<AddressMessageModel>,
) -> Result<Seq<InterfaceModel>, MalformedAddress>
    decreases msgs.len(),
{
    if msgs.len() == 0 {
        Ok(d)
    } else {
        match addresses_applied(d, msgs.drop_last()) {
            Err(e) => Err(e),
            Ok(mid) => if refused(mid, msgs.last()) {
                Err(refusal(msgs.last().attrs))
            } else {
                Ok(directory_after(mid, msgs.last(), AddressChange::Add))
            },
        }
    }
}

/// The directory that a full enumeration gives: the interfaces first, then
/// the IPv6 addresses, then the IPv4 addresses. The first refusal ends it.
pub open spec fn enumerated(
    patterns: Seq<regex::Regex>,
    links: Seq<LinkMessageModel>,
    v6: Seq<AddressMessageModel>,
    v4: Seq<AddressMessageModel>,
) -> Result<Seq<InterfaceModel>, EnumerationError> {
    match links_applied(Seq::empty(), patterns, links) {
        Err(e) => Err(EnumerationError::Link(e)),
        Ok(d) => match addresses_applied(d, v6) {
            Err(e) => Err(EnumerationError::Address(e)),
            Ok(d6) => match addresses_applied(d6, v4) {
                Err(e) => Err(EnumerationError::Address(e)),
                Ok(d4) => Ok(d4),
            },
        },
    }
}

/// Adding the addresses of two lists of messages, one list after the other,
/// is adding those of the joined list.
pub proof fn lemma_addresses_applied_joined(
    d: Seq<InterfaceModel>,
    first: Seq<AddressMessageModel>,
    second: Seq<AddressMessageModel>,
)
    ensures
        addresses_applied(d, first + second) == match addresses_applied(d, first) {
            Ok(mid) => addresses_applied(mid, second),
            Err(e) => Err(e),
        },
    decreases second.len(),
{
    if second.len() == 0 {
        assert(first + second =~= first);
    } else {
        assert((first + second).drop_last() =~= first + second.drop_last());
        assert((first + second).last() == second.last());
        lemma_addresses_applied_joined(d, first, second.drop_last());
    }
}

/// Whether no two of the link messages are for the same kernel index.
pub open spec fn link_indices_distinct(links: Seq<LinkMessageModel>) -> bool {
    forall|i: int, j: int|
        0 <= i < links.len() && 0 <= j < links.len() && i != j ==> (#[trigger] links[i]).index != (
        #[trigger] links[j]).index
}

/// Whether every record of `d` has the kernel index of one of the link
/// messages.
pub open spec fn indices_among(d: Seq<InterfaceModel>, links: Seq<LinkMessageModel>) -> bool {
    forall|k: int|
        0 <= k < d.len() ==> exists|i: int|
            0 <= i < links.len() && (#[trigger] links[i]).index == (#[trigger] d[k]).kernel_index
}

/// Link messages for distinct kernel indices give a directory whose records
/// have distinct kernel indices, each that of one of the messages.
pub proof fn lemma_links_give_distinct_indices(
    patterns: Seq<regex::Regex>,
    links: Seq<LinkMessageModel>,
)
    requires
        link_indices_distinct(links),
    ensures
        links_applied(Seq::empty(), patterns, links) matches Ok(d) ==> distinct_indices(d)
            && indices_among(d, links),
    decreases links.len(),
{
    if links.len() > 0 {
        let init = links.drop_last();
        let last = links.last();
        assert forall|i: int, j: int|
            0 <= i < init.len() && 0 <= j < init.len() && i != j implies (#[trigger] init[i]).index
            != (#[trigger] init[j]).index by {
            assert(init[i] == links[i] && init[j] == links[j]);
        }
        lemma_links_give_distinct_indices(patterns, init);
        match links_applied(Seq::empty(), patterns, init) {
            Ok(mid) => {
                let flags = exclusions(patterns, last.attrs);
                let d = upserted(mid, flags, last);
                assert forall|k: int| 0 <= k < mid.len() implies (#[trigger] mid[k]).kernel_index
                    != last.index by {
                    let i = choose|i: int|
                        0 <= i < init.len() && (#[trigger] init[i]).index == mid[k].kernel_index;
                    assert(init[i] == links[i]);
                    assert(links[links.len() - 1] == last);
                }
                assert forall|k: int| 0 <= k < d.len() implies exists|i: int|
                    0 <= i < links.len() && (#[trigger] links[i]).index == (
                    #[trigger] d[k]).kernel_index by {
                    if k < mid.len() {
                        let i = choose|i: int|
                            0 <= i < init.len() && (#[trigger] init[i]).index
                                == mid[k].kernel_index;
                        assert(links[i] == init[i]);
                    } else {
                        assert(links[links.len() - 1].index == d[k].kernel_index);
                    }
                }
            },
            Err(_) => {},
        }
    }
}

/// Adding addresses keeps the kernel indices of a directory as they are.
pub proof fn lemma_addresses_keep_indices(d: Seq<InterfaceModel>, msgs: Seq<AddressMessageModel>)
    ensures
        addresses_applied(d, msgs) matches Ok(after) ==> after.len() == d.len() && (forall|k: int|
            0 <= k < d.len() ==> (#[trigger] after[k]).kernel_index == d[k].kernel_index),
    decreases msgs.len(),
{
    if msgs.len() > 0 {
        lemma_addresses_keep_indices(d, msgs.drop_last());
        match addresses_applied(d, msgs.drop_last()) {
            Ok(mid) => {
                let msg = msgs.last();
                lemma_position_of(mid, msg.index);
                match position_of(mid, msg.index) {
                    Some(i) => {
                        lemma_record_after(mid[i], texts_of(usable(msg.attrs)), AddressChange::Add);
                    },
                    None => {},
                }
            },
            Err(_) => {},
        }
    }
}

/// A full enumeration of link messages for distinct kernel indices gives a
/// directory in which no two records share a kernel index.
pub proof fn lemma_enumeration_gives_distinct_indices(
    patterns: Seq<regex::Regex>,
    links: Seq<LinkMessageModel>,
    v6: Seq<AddressMessageModel>,
    v4: Seq<AddressMessageModel>,
)
    requires
        link_indices_distinct(links),
    ensures
        enumerated(patterns, links, v6, v4) matches Ok(d) ==> distinct_indices(d),
{
    lemma_links_give_distinct_indices(patterns, links);
    match links_applied(Seq::empty(), patterns, links) {
        Ok(d) => {
            lemma_addresses_keep_indices(d, v6);
            match addresses_applied(d, v6) {
                Ok(d6) => {
                    lemma_addresses_keep_indices(d6, v4);
                },
                Err(_) => {},
            }
        },
        Err(_) => {},
    }
}

/// Takes the kernel's list of interfaces into the directory. Ends at the
/// first message that is refused.
pub fn list_links(dir: Directory, exclude_ifaces: &Vec<regex::Regex>, links: &Vec<LinkMessage>) -> (r:
    Result<Directory, LinkError>)
    ensures
        match (r, links_applied(dir@, exclude_ifaces@, link_models(links@))) {
            (Ok(after), Ok(d)) => after@ == d,
            (Err(e), Err(expected)) => e == expected,
            _ => false,
        },
        r matches Ok(after) ==> (well_formed(dir@) ==> well_formed(after@)) && (only_advertisable(
            dir@,
        ) ==> only_advertisable(after@)),
{
    let ghost all = link_models(links@);
    let mut current = dir;
    let mut i: usize = 0;
    while i < links.len()
        invariant
            i <= links.len(),
            all == link_models(links@),
            links_applied(dir@, exclude_ifaces@, all.take(i as int)) == Ok::<
                Seq<InterfaceModel>,
                LinkError,
            >(current@),
            well_formed(dir@) ==> well_formed(current@),
            only_advertisable(dir@) ==> only_advertisable(current@),
        decreases links.len() - i,
    {
        proof {
            assert(all.take(i + 1).drop_last() =~= all.take(i as int));
            assert(all.take(i + 1).last() == links@[i as int]@);
        }
        let ghost before = current@;
        match add_iface_if_not_exists_and_not_excluded(&mut current, exclude_ifaces, &links[i]) {
            Ok(_) => {
                proof {
                    if only_advertisable(before) && current@ != before {
                        assert(current@.last().addresses =~= Seq::<Seq<char>>::empty());
                        assert forall|k: int| 0 <= k < current@.len() implies all_advertisable(
                            (#[trigger] current@[k]).addresses,
                        ) by {
                            if k < before.len() {
                                assert(current@[k] == before[k]);
                            }
                        }
                    }
                }
            },
            Err(e) => {
                proof {
                    lemma_links_refusal_stays(dir@, exclude_ifaces@, all, i + 1);
                }
                return Err(e);
            },
        }
        i = i + 1;
    }
    proof {
        assert(all.take(i as int) =~= all);
    }
    Ok(current)
}

/// Once a link message is refused, the whole list is.
pub proof fn lemma_links_refusal_stays(
    d: Seq<InterfaceModel>,
    patterns: Seq<regex::Regex>,
    links: Seq<LinkMessageModel>,
    n: int,
)
    requires
        0 <= n <= links.len(),
        links_applied(d, patterns, links.take(n)) is Err,
    ensures
        links_applied(d, patterns, links) == links_applied(d, patterns, links.take(n)),
    decreases links.len() - n,
{
    if n < links.len() {
        assert(links.take(n + 1).drop_last() =~= links.take(n));
        lemma_links_refusal_stays(d, patterns, links, n + 1);
    } else {
        assert(links.take(n) =~= links);
    }
}

/// Once an address message is refused, the whole list is.
pub proof fn lemma_addresses_refusal_stays(
    d: Seq<InterfaceModel>,
    msgs: Seq<AddressMessageModel>,
    n: int,
)
    requires
        0 <= n <= msgs.len(),
        addresses_applied(d, msgs.take(n)) is Err,
    ensures
        addresses_applied(d, msgs) == addresses_applied(d, msgs.take(n)),
    decreases msgs.len() - n,
{
    if n < msgs.len() {
        assert(msgs.take(n + 1).drop_last() =~= msgs.take(n));
        lemma_addresses_refusal_stays(d, msgs, n + 1);
    } else {
        assert(msgs.take(n) =~= msgs);
    }
}

/// Adds the addresses of one of the kernel's address lists to the directory.
/// Ends at the first message that is refused.
pub fn list_addresses(dir: Directory, msgs: &Vec<AddressMessage>) -> (r: Result<
    Directory,
    MalformedAddress,
>)
    ensures
        match (r, addresses_applied(dir@, message_models(msgs@))) {
            (Ok(after), Ok(d)) => after@ == d,
            (Err(e), Err(expected)) => e == expected,
            _ => false,
        },
        r matches Ok(after) ==> (well_formed(dir@) ==> well_formed(after@)) && (only_advertisable(
            dir@,
        ) ==> only_advertisable(after@)),
{
    let ghost all = message_models(msgs@);
    let mut current = dir;
    let mut i: usize = 0;
    while i < msgs.len()
        invariant
            i <= msgs.len(),
            all == message_models(msgs@),
            addresses_applied(dir@, all.take(i as int)) == Ok::<
                Seq<InterfaceModel>,
                MalformedAddress,
            >(current@),
            well_formed(dir@) ==> well_formed(current@),
            only_advertisable(dir@) ==> only_advertisable(current@),
        decreases msgs.len() - i,
    {
        proof {
            assert(all.take(i + 1).drop_last() =~= all.take(i as int));
            assert(all.take(i + 1).last() == msgs@[i as int]@);
        }
        match add_addr(&mut current, &msgs[i]) {
            Ok(_) => {},
            Err(e) => {
                proof {
                    lemma_addresses_refusal_stays(dir@, all, i + 1);
                }
                return Err(e);
            },
        }
        i = i + 1;
    }
    proof {
        assert(all.take(i as int) =~= all);
    }
    Ok(current)
}

/// The full enumeration: builds the directory from the kernel's list of
/// interfaces, then its list of IPv6 addresses, then its list of IPv4
/// addresses. Addresses of interfaces that are not in the directory are
/// passed over. The first message that is refused ends the enumeration with
/// its error.
pub fn process_ifaces(
    exclude_ifaces: &Vec<regex::Regex>,
    links: &Vec<LinkMessage>,
    v6: &Vec<AddressMessage>,
    v4: &Vec<AddressMessage>,
) -> (r: Result<Directory, EnumerationError>)
    ensures
        match (
            r,
            enumerated(
                exclude_ifaces@,
                link_models(links@),
                message_models(v6@),
                message_models(v4@),
            ),
        ) {
            (Ok(dir), Ok(d)) => dir@ == d,
            (Err(e), Err(expected)) => e == expected,
            _ => false,
        },
        r matches Ok(dir) ==> well_formed(dir@) && only_advertisable(dir@),
        r matches Ok(dir) ==> (link_indices_distinct(link_models(links@)) ==> distinct_indices(
            dir@,
        )),
{
    proof {
        if link_indices_distinct(link_models(links@)) {
            lemma_enumeration_gives_distinct_indices(
                exclude_ifaces@,
                link_models(links@),
                message_models(v6@),
                message_models(v4@),
            );
        }
    }
    let dir = Directory::new();
    let dir = match list_links(dir, exclude_ifaces, links) {
        Ok(dir) => dir,
        Err(e) => {
            return Err(EnumerationError::Link(e));
        },
    };
    let dir = match list_addresses(dir, v6) {
        Ok(dir) => dir,
        Err(e) => {
            return Err(EnumerationError::Address(e));
        },
    };
    match list_addresses(dir, v4) {
        Ok(dir) => Ok(dir),
        Err(e) => Err(EnumerationError::Address(e)),
    }
}

} // verus!
