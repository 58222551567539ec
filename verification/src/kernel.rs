//! Address messages of the kernel, and what each does to the interface
//! directory. The same code applies a message during the first enumeration
//! and when it arrives later as an event.

use crate::classify::{advertised_text, classify, decoded, well_sized, MalformedAddress};
use crate::directory::{
    lemma_position_of, lemma_well_formed_kept, lemma_without_absent, lemma_without_contains,
    lemma_without_facts, position_of, well_formed, with_address, without, without_address,
    Directory, InterfaceModel, InterfaceRecord,
};
use crate::ip::IpAddress;
use crate::ip_text::ip_text;
use vstd::prelude::*;

verus! {

/// One attribute of an address message.
#[derive(Clone, Debug)]
pub enum AddressAttr {
    /// The raw bytes of an address.
    Address(Vec<u8>),
    /// Any other attribute.
    Other,
}

/// What an `AddressAttr` holds.
pub enum AddressAttrModel {
    Address(Seq<u8>),
    Other,
}

impl View for AddressAttr {
    type V = AddressAttrModel;

    open spec fn view(&self) -> AddressAttrModel {
        match self {
            AddressAttr::Address(raw) => AddressAttrModel::Address(raw@),
            AddressAttr::Other => AddressAttrModel::Other,
        }
    }
}

/// A message about the addresses of one interface.
#[derive(Clone, Debug)]
pub struct AddressMessage {
    /// Kernel index of the interface.
    pub index: u32,
    /// The attributes, in the order of the message.
    pub attrs: Vec<AddressAttr>,
}

/// What an `AddressMessage` holds.
pub struct AddressMessageModel {
    pub index: u32,
    pub attrs: Seq<AddressAttrModel>,
}

/// What each attribute of `attrs` holds.
pub open spec fn attr_models(attrs: Seq<AddressAttr>) -> Seq<AddressAttrModel> {
    attrs.map_values(|a: AddressAttr| a@)
}

impl View for AddressMessage {
    type V = AddressMessageModel;

    open spec fn view(&self) -> AddressMessageModel {
        AddressMessageModel { index: self.index, attrs: attr_models(self.attrs@) }
    }
}

/// What a message asks for: that its addresses be added, or removed.
#[derive(Clone, Copy, Debug, PartialEq, Eq, Structural)]
pub enum AddressChange {
    Add,
    Remove,
}

/// An address attribute whose length is that of neither address family.
pub open spec fn malformed(attr: AddressAttrModel) -> bool {
    attr matches AddressAttrModel::Address(raw) && !well_sized(raw)
}

/// Position of the first malformed attribute; the length of `attrs` if none
/// is malformed.
pub open spec fn first_malformed(attrs: Seq<AddressAttrModel>) -> int
    decreases attrs.len(),
{
    if attrs.len() == 0 {
        0
    } else {
        let k = first_malformed(attrs.drop_last());
        if k < attrs.len() - 1 || malformed(attrs.last()) {
            k
        } else {
            attrs.len() as int
        }
    }
}

/// The attributes before the first malformed one: those that take effect.
pub open spec fn usable(attrs: Seq<AddressAttrModel>) -> Seq<AddressAttrModel> {
    attrs.take(first_malformed(attrs))
}

/// The texts of the addresses among `attrs` that the classifier lets through,
/// in the order of the attributes.
pub open spec fn texts_of(attrs: Seq<AddressAttrModel>) -> Seq<Seq<char>>
    decreases attrs.len(),
{
    if attrs.len() == 0 {
        Seq::<Seq<char>>::empty()
    } else {
        let before = texts_of(attrs.drop_last());
        match attrs.last() {
            AddressAttrModel::Address(raw) => if well_sized(raw) && advertised_text(raw) is Some {
                before.push(advertised_text(raw)->0)
            } else {
                before
            },
            AddressAttrModel::Other => before,
        }
    }
}

/// The record after each of `addresses` was added to it, or removed from it,
/// one after the other.
pub open spec fn record_after(
    r: InterfaceModel,
    addresses: Seq<Seq<char>>,
    change: AddressChange,
) -> InterfaceModel
    decreases addresses.len(),
{
    if addresses.len() == 0 {
        r
    } else {
        let before = record_after(r, addresses.drop_last(), change);
        match change {
            AddressChange::Add => with_address(before, addresses.last()),
            AddressChange::Remove => without_address(before, addresses.last()),
        }
    }
}

/// The directory after a message: the first interface with the message's
/// index has the usable addresses of the message added or removed. Nothing
/// changes where no interface has that index.
pub open spec fn directory_after(
    d: Seq<InterfaceModel>,
    msg: AddressMessageModel,
    change: AddressChange,
) -> Seq<InterfaceModel> {
    match position_of(d, msg.index) {
        Some(i) => d.update(i, record_after(d[i], texts_of(usable(msg.attrs)), change)),
        None => d,
    }
}

/// Whether a message is refused: it is for an interface of the directory and
/// holds a malformed address.
pub open spec fn refused(d: Seq<InterfaceModel>, msg: AddressMessageModel) -> bool {
    position_of(d, msg.index) is Some && first_malformed(msg.attrs) < msg.attrs.len()
}

/// The error that a malformed address gives: it names the length of the
/// first malformed address among `attrs`.
pub open spec fn refusal(attrs: Seq<AddressAttrModel>) -> MalformedAddress {
    match attrs[first_malformed(attrs)] {
        AddressAttrModel::Address(raw) => MalformedAddress { length: raw.len() as usize },
        AddressAttrModel::Other => MalformedAddress { length: 0 },
    }
}

/// What applying a message returns: the error where the message is refused,
/// otherwise whether the directory changed.
pub open spec fn message_result(
    d: Seq<InterfaceModel>,
    msg: AddressMessageModel,
    change: AddressChange,
) -> Result<bool, MalformedAddress> {
    if refused(d, msg) {
        Err(refusal(msg.attrs))
    } else {
        Ok(directory_after(d, msg, change) != d)
    }
}

/// `first_malformed` is the position of a malformed attribute with none
/// before it, or the length.
pub proof fn lemma_first_malformed(attrs: Seq<AddressAttrModel>)
    ensures
        0 <= first_malformed(attrs) <= attrs.len(),
        forall|j: int| 0 <= j < first_malformed(attrs) ==> !malformed(#[trigger] attrs[j]),
        first_malformed(attrs) < attrs.len() ==> malformed(attrs[first_malformed(attrs)]),
    decreases attrs.len(),
{
    if attrs.len() > 0 {
        lemma_first_malformed(attrs.drop_last());
        assert(forall|j: int| 0 <= j < attrs.len() - 1 ==> attrs[j] == attrs.drop_last()[j]);
    }
}

/// Where the attributes before `k` are well formed and the one at `k` is not,
/// or `k` is the length, `first_malformed` is `k`.
pub proof fn lemma_first_malformed_is(attrs: Seq<AddressAttrModel>, k: int)
    requires
        0 <= k <= attrs.len(),
        forall|j: int| 0 <= j < k ==> !malformed(#[trigger] attrs[j]),
        k < attrs.len() ==> malformed(attrs[k]),
    ensures
        first_malformed(attrs) == k,
{
    lemma_first_malformed(attrs);
}

/// A record keeps its name, hardware address and index through any changes
/// of its addresses, and stays without repeated addresses.
pub proof fn lemma_record_after(r: InterfaceModel, addresses: Seq<Seq<char>>, change: AddressChange)
    ensures
        record_after(r, addresses, change).name == r.name,
        record_after(r, addresses, change).hardware_address == r.hardware_address,
        record_after(r, addresses, change).kernel_index == r.kernel_index,
        r.addresses.no_duplicates() ==> record_after(r, addresses, change).addresses.no_duplicates(),
        change == AddressChange::Add ==> record_after(r, addresses, change).addresses.len()
            >= r.addresses.len(),
        change == AddressChange::Remove ==> record_after(r, addresses, change).addresses.len()
            <= r.addresses.len(),
    decreases addresses.len(),
{
    if addresses.len() > 0 {
        lemma_record_after(r, addresses.drop_last(), change);
        let before = record_after(r, addresses.drop_last(), change);
        lemma_without_facts(before.addresses, addresses.last());
        if before.addresses.no_duplicates() {
            let d = seq![before];
            lemma_position_of(d, before.kernel_index);
            lemma_well_formed_kept(d, before.kernel_index, addresses.last());
            assert(d.update(0, with_address(before, addresses.last()))[0] == with_address(
                before,
                addresses.last(),
            ));
        }
    }
}

/// Whether `t` is the text of an address that the policy lets a node
/// advertise.
pub open spec fn advertisable(t: Seq<char>) -> bool {
    exists|addr: IpAddress| addr.advertised() && ip_text(addr) == t
}

/// Whether each of `addresses` is advertisable.
pub open spec fn all_advertisable(addresses: Seq<Seq<char>>) -> bool {
    forall|j: int| 0 <= j < addresses.len() ==> advertisable(#[trigger] addresses[j])
}

/// Whether every address that the directory holds has passed the classifier.
pub open spec fn only_advertisable(d: Seq<InterfaceModel>) -> bool {
    forall|i: int| 0 <= i < d.len() ==> all_advertisable((#[trigger] d[i]).addresses)
}

/// The texts that a message yields are texts of advertised addresses.
pub proof fn lemma_texts_of_advertisable(attrs: Seq<AddressAttrModel>)
    ensures
        all_advertisable(texts_of(attrs)),
    decreases attrs.len(),
{
    if attrs.len() > 0 {
        lemma_texts_of_advertisable(attrs.drop_last());
        match attrs.last() {
            AddressAttrModel::Address(raw) => {
                if well_sized(raw) && advertised_text(raw) is Some {
                    assert(decoded(raw).advertised() && ip_text(decoded(raw)) == advertised_text(
                        raw,
                    )->0);
                    assert(advertisable(advertised_text(raw)->0));
                }
            },
            AddressAttrModel::Other => {},
        }
    }
}

/// Taking a text out leaves only texts that were there.
pub proof fn lemma_without_subset(s: Seq<Seq<char>>, a: Seq<char>)
    ensures
        forall|j: int| 0 <= j < without(s, a).len() ==> s.contains(#[trigger] without(s, a)[j]),
{
    assert forall|j: int| 0 <= j < without(s, a).len() implies s.contains(
        #[trigger] without(s, a)[j],
    ) by {
        let x = without(s, a)[j];
        assert(without(s, a).contains(x));
        lemma_without_contains(s, a, x);
    }
}

/// A record that holds only advertisable addresses still does after
/// advertisable addresses were added or any addresses removed.
pub proof fn lemma_record_stays_advertisable(
    r: InterfaceModel,
    addresses: Seq<Seq<char>>,
    change: AddressChange,
)
    requires
        all_advertisable(r.addresses),
        change == AddressChange::Add ==> all_advertisable(addresses),
    ensures
        all_advertisable(record_after(r, addresses, change).addresses),
    decreases addresses.len(),
{
    if addresses.len() > 0 {
        let init = addresses.drop_last();
        assert(forall|j: int| 0 <= j < init.len() ==> init[j] == addresses[j]);
        lemma_record_stays_advertisable(r, init, change);
        let before = record_after(r, init, change);
        let after = record_after(r, addresses, change);
        match change {
            AddressChange::Add => {
                assert(advertisable(addresses[addresses.len() - 1]));
            },
            AddressChange::Remove => {
                lemma_without_subset(before.addresses, addresses.last());
                assert forall|j: int| 0 <= j < after.addresses.len() implies advertisable(
                    #[trigger] after.addresses[j],
                ) by {
                    let x = after.addresses[j];
                    assert(before.addresses.contains(x));
                    let k = choose|k: int| 0 <= k < before.addresses.len() && before.addresses[k]
                        == x;
                    assert(advertisable(before.addresses[k]));
                }
            },
        }
    }
}

/// A directory that holds only addresses that passed the classifier still
/// does after any address message.
pub proof fn lemma_only_advertisable_kept(
    d: Seq<InterfaceModel>,
    msg: AddressMessageModel,
    change: AddressChange,
)
    requires
        only_advertisable(d),
    ensures
        only_advertisable(directory_after(d, msg, change)),
{
    lemma_position_of(d, msg.index);
    match position_of(d, msg.index) {
        Some(i) => {
            lemma_texts_of_advertisable(usable(msg.attrs));
            lemma_record_stays_advertisable(d[i], texts_of(usable(msg.attrs)), change);
        },
        None => {},
    }
}

impl InterfaceRecord {
    /// Applies the address attributes of a message to this interface, in
    /// order, up to the first malformed one. Each address that the classifier
    /// lets through is added or removed. A malformed address is an error; what
    /// came before it has taken effect. Otherwise returns whether the record
    /// changed.
    pub fn apply_attributes(&mut self, attrs: &Vec<AddressAttr>, change: AddressChange) -> (r:
        Result<bool, MalformedAddress>)
        ensures
            final(self)@ == record_after(
                old(self)@,
                texts_of(usable(attr_models(attrs@))),
                change,
            ),
            r is Err <==> first_malformed(attr_models(attrs@)) < attrs@.len(),
            r matches Err(e) ==> e == refusal(attr_models(attrs@)),
            r matches Ok(changed) ==> changed == (final(self)@ != old(self)@),
    {
        let ghost all = attr_models(attrs@);
        let mut changed = false;
        let mut i: usize = 0;
        while i < attrs.len()
            invariant
                i <= attrs.len(),
                all == attr_models(attrs@),
                forall|j: int| 0 <= j < i ==> !malformed(#[trigger] all[j]),
                self@ == record_after(old(self)@, texts_of(all.take(i as int)), change),
                !changed ==> self@ == old(self)@,
                changed && change == AddressChange::Add ==> self@.addresses.len() > old(
                    self,
                )@.addresses.len(),
                changed && change == AddressChange::Remove ==> self@.addresses.len() < old(
                    self,
                )@.addresses.len(),
            decreases attrs.len() - i,
        {
            let ghost done = all.take(i as int);
            let ghost next = all.take(i + 1);
            let ghost before = self@;
            proof {
                assert(next.drop_last() =~= done);
                assert(next.last() == attrs@[i as int]@);
                lemma_record_after(old(self)@, texts_of(done), change);
            }
            match &attrs[i] {
                AddressAttr::Address(raw) => {
                    match classify(raw.as_slice()) {
                        Ok(Some(text)) => {
                            let ghost t = text@;
                            assert(texts_of(next) == texts_of(done).push(t));
                            assert(texts_of(next).drop_last() =~= texts_of(done));
                            let did = match change {
                                AddressChange::Add => self.add_address(text),
                                AddressChange::Remove => self.remove_address(&text),
                            };
                            proof {
                                lemma_without_facts(before.addresses, t);
                                if !before.addresses.contains(t) {
                                    lemma_without_absent(before.addresses, t);
                                }
                            }
                            if did {
                                changed = true;
                            }
                        },
                        Ok(None) => {
                            assert(texts_of(next) == texts_of(done));
                        },
                        Err(e) => {
                            proof {
                                lemma_first_malformed_is(all, i as int);
                            }
                            return Err(e);
                        },
                    }
                },
                AddressAttr::Other => {
                    assert(texts_of(next) == texts_of(done));
                },
            }
            i = i + 1;
        }
        proof {
            lemma_first_malformed_is(all, i as int);
            assert(all.take(i as int) =~= all);
        }
        Ok(changed)
    }
}

/// Applies an address message to the directory. A message for an interface
/// that the directory does not hold does nothing and gives `Ok(false)`,
/// whatever its attributes. Otherwise see `InterfaceRecord::apply_attributes`.
pub fn process_addr_message(dir: &mut Directory, msg: &AddressMessage, change: AddressChange) -> (r:
    Result<bool, MalformedAddress>)
    ensures
        final(dir)@ == directory_after(old(dir)@, msg@, change),
        r == message_result(old(dir)@, msg@, change),
        well_formed(old(dir)@) ==> well_formed(final(dir)@),
        only_advertisable(old(dir)@) ==> only_advertisable(final(dir)@),
{
    proof {
        lemma_position_of(dir@, msg.index);
        if only_advertisable(dir@) {
            lemma_only_advertisable_kept(dir@, msg@, change);
        }
    }
    match dir.find_by_index(msg.index) {
        Some(record) => {
            let ghost before = record@;
            let r = record.apply_attributes(&msg.attrs, change);
            proof {
                let i = position_of(old(dir)@, msg.index)->0;
                assert(dir@ =~= old(dir)@.update(i, dir@[i]));
                lemma_record_after(before, texts_of(usable(msg@.attrs)), change);
                if dir@[i] == old(dir)@[i] {
                    assert(dir@ =~= old(dir)@);
                }
            }
            r
        },
        None => Ok(false),
    }
}

/// Adds the addresses of `msg` to the directory.
pub fn add_addr(dir: &mut Directory, msg: &AddressMessage) -> (r: Result<bool, MalformedAddress>)
    ensures
        final(dir)@ == directory_after(old(dir)@, msg@, AddressChange::Add),
        r == message_result(old(dir)@, msg@, AddressChange::Add),
        well_formed(old(dir)@) ==> well_formed(final(dir)@),
        only_advertisable(old(dir)@) ==> only_advertisable(final(dir)@),
{
    process_addr_message(dir, msg, AddressChange::Add)
}

/// Removes the addresses of `msg` from the directory.
pub fn del_addr(dir: &mut Directory, msg: &AddressMessage) -> (r: Result<bool, MalformedAddress>)
    ensures
        final(dir)@ == directory_after(old(dir)@, msg@, AddressChange::Remove),
        r == message_result(old(dir)@, msg@, AddressChange::Remove),
        well_formed(old(dir)@) ==> well_formed(final(dir)@),
        only_advertisable(old(dir)@) ==> only_advertisable(final(dir)@),
{
    process_addr_message(dir, msg, AddressChange::Remove)
}

} // verus!
