//! Link messages of the kernel: how an interface that the kernel lists enters
//! the directory.

use crate::directory::{
    distinct_indices, has_name, position_of, well_formed, Directory, InterfaceModel,
    InterfaceRecord,
};
use crate::exclude::{is_excluded, name_excluded};
use crate::mac::{hardware_address_text, mac_text};
use vstd::prelude::*;

verus! {

/// One attribute of a link message.
#[derive(Clone, Debug)]
pub enum LinkAttr {
    /// The name of the interface.
    IfName(String),
    /// The raw bytes of its hardware address.
    Address(Vec<u8>),
    /// Any other attribute.
    Other,
}

/// What a `LinkAttr` holds.
pub enum LinkAttrModel {
    IfName(Seq<char>),
    Address(Seq<u8>),
    Other,
}

impl View for LinkAttr {
    type V = LinkAttrModel;

    open spec fn view(&self) -> LinkAttrModel {
        match self {
            LinkAttr::IfName(name) => LinkAttrModel::IfName(name@),
            LinkAttr::Address(raw) => LinkAttrModel::Address(raw@),
            LinkAttr::Other => LinkAttrModel::Other,
        }
    }
}

/// A message that reports one interface.
#[derive(Clone, Debug)]
pub struct LinkMessage {
    /// Kernel index of the interface.
    pub index: u32,
    /// The attributes, in the order of the message.
    pub attrs: Vec<LinkAttr>,
}

/// What a `LinkMessage` holds.
pub struct LinkMessageModel {
    pub index: u32,
    pub attrs: Seq<LinkAttrModel>,
}

/// What each attribute of `attrs` holds.
pub open spec fn link_attr_models(attrs: Seq<LinkAttr>) -> Seq<LinkAttrModel> {
    attrs.map_values(|a: LinkAttr| a@)
}

impl View for LinkMessage {
    type V = LinkMessageModel;

    open spec fn view(&self) -> LinkMessageModel {
        LinkMessageModel { index: self.index, attrs: link_attr_models(self.attrs@) }
    }
}

/// Why a link message could not be taken.
#[derive(Clone, Copy, Debug, PartialEq, Eq, Structural)]
pub enum LinkError {
    /// A hardware address that does not have six bytes.
    InvalidHardwareAddress { length: usize },
    /// The message names no interface, or gives no hardware address.
    MissingAttribute,
}

/// Whether the flag at position `i` is set; a position beyond the flags is
/// not set.
pub open spec fn flagged(flags: Seq<bool>, i: int) -> bool {
    0 <= i < flags.len() && flags[i]
}

/// Whether reading stops at attribute `i`: a name that is flagged as excluded
/// or that the directory holds already, or a hardware address that is not six
/// bytes long.
pub open spec fn stops(
    d: Seq<InterfaceModel>,
    excluded: Seq<bool>,
    attrs: Seq<LinkAttrModel>,
    i: int,
) -> bool {
    match attrs[i] {
        LinkAttrModel::IfName(name) => flagged(excluded, i) || has_name(d, name),
        LinkAttrModel::Address(raw) => raw.len() != 6,
        LinkAttrModel::Other => false,
    }
}

/// Position of the first attribute before `upto` at which reading stops;
/// `upto` if there is none.
pub open spec fn first_stop(
    d: Seq<InterfaceModel>,
    excluded: Seq<bool>,
    attrs: Seq<LinkAttrModel>,
    upto: int,
) -> int
    decreases upto,
{
    if upto <= 0 {
        0
    } else {
        let k = first_stop(d, excluded, attrs, upto - 1);
        if k < upto - 1 || stops(d, excluded, attrs, upto - 1) {
            k
        } else {
            upto
        }
    }
}

/// The name that the last name attribute gives.
pub open spec fn last_name(attrs: Seq<LinkAttrModel>) -> Option<Seq<char>>
    decreases attrs.len(),
{
    if attrs.len() == 0 {
        None
    } else {
        match attrs.last() {
            LinkAttrModel::IfName(name) => Some(name),
            _ => last_name(attrs.drop_last()),
        }
    }
}

/// The raw bytes that the last hardware address attribute gives.
pub open spec fn last_hardware_address(attrs: Seq<LinkAttrModel>) -> Option<Seq<u8>>
    decreases attrs.len(),
{
    if attrs.len() == 0 {
        None
    } else {
        match attrs.last() {
            LinkAttrModel::Address(raw) => Some(raw),
            _ => last_hardware_address(attrs.drop_last()),
        }
    }
}

/// What a link message leads to.
pub enum Upsert {
    /// The interface enters the directory.
    Inserted(InterfaceModel),
    /// The interface is passed over.
    Skipped,
    /// The message is refused.
    Failed(LinkError),
}

/// What the message leads to, given the directory and which of its
/// attributes are flagged as excluded names. The first attribute at which
/// reading stops decides: a name there means that the interface is passed
/// over, a hardware address that the message is refused. Where reading does
/// not stop, the last name and the last hardware address make the new record,
/// which holds no address yet; a message that lacks either is refused.
pub open spec fn upsert_outcome(
    d: Seq<InterfaceModel>,
    excluded: Seq<bool>,
    msg: LinkMessageModel,
) -> Upsert {
    let k = first_stop(d, excluded, msg.attrs, msg.attrs.len() as int);
    if k < msg.attrs.len() {
        match msg.attrs[k] {
            LinkAttrModel::Address(raw) => Upsert::Failed(
                LinkError::InvalidHardwareAddress { length: raw.len() as usize },
            ),
            _ => Upsert::Skipped,
        }
    } else {
        match (last_name(msg.attrs), last_hardware_address(msg.attrs)) {
            (Some(name), Some(raw)) => Upsert::Inserted(
                InterfaceModel {
                    name,
                    hardware_address: mac_text(raw),
                    kernel_index: msg.index,
                    addresses: Seq::empty(),
                },
            ),
            _ => Upsert::Failed(LinkError::MissingAttribute),
        }
    }
}

/// The directory after the message: with the new record at its end, or as it
/// was.
pub open spec fn upserted(
    d: Seq<InterfaceModel>,
    excluded: Seq<bool>,
    msg: LinkMessageModel,
) -> Seq<InterfaceModel> {
    match upsert_outcome(d, excluded, msg) {
        Upsert::Inserted(record) => d.push(record),
        _ => d,
    }
}

/// The result that goes with an outcome.
pub open spec fn upsert_result(outcome: Upsert) -> Result<bool, LinkError> {
    match outcome {
        Upsert::Inserted(_) => Ok(true),
        Upsert::Skipped => Ok(false),
        Upsert::Failed(e) => Err(e),
    }
}

/// For each attribute, whether it is a name that one of `patterns` matches.
pub open spec fn exclusions(patterns: Seq<regex::Regex>, attrs: Seq<LinkAttrModel>) -> Seq<bool> {
    Seq::new(
        attrs.len(),
        |i: int| attrs[i] matches LinkAttrModel::IfName(name) && name_excluded(patterns, name),
    )
}

/// `first_stop` is the position of an attribute at which reading stops, with
/// none before it, or `upto`.
pub proof fn lemma_first_stop(
    d: Seq<InterfaceModel>,
    excluded: Seq<bool>,
    attrs: Seq<LinkAttrModel>,
    upto: int,
)
    requires
        0 <= upto,
    ensures
        0 <= first_stop(d, excluded, attrs, upto) <= upto,
        forall|j: int|
            0 <= j < first_stop(d, excluded, attrs, upto) ==> !#[trigger] stops(
                d,
                excluded,
                attrs,
                j,
            ),
        first_stop(d, excluded, attrs, upto) < upto ==> stops(
            d,
            excluded,
            attrs,
            first_stop(d, excluded, attrs, upto),
        ),
    decreases upto,
{
    if upto > 0 {
        lemma_first_stop(d, excluded, attrs, upto - 1);
    }
}

/// Where reading does not stop before `k` and stops at `k`, or `k` is `upto`,
/// `first_stop` is `k`.
pub proof fn lemma_first_stop_is(
    d: Seq<InterfaceModel>,
    excluded: Seq<bool>,
    attrs: Seq<LinkAttrModel>,
    upto: int,
    k: int,
)
    requires
        0 <= k <= upto,
        forall|j: int| 0 <= j < k ==> !#[trigger] stops(d, excluded, attrs, j),
        k < upto ==> stops(d, excluded, attrs, k),
    ensures
        first_stop(d, excluded, attrs, upto) == k,
{
    lemma_first_stop(d, excluded, attrs, upto);
}

impl Directory {
    /// Whether an interface of this name is in the directory.
    pub fn holds_name(&self, name: &String) -> (found: bool)
        ensures
            found == has_name(self@, name@),
    {
        let mut i: usize = 0;
        while i < self.records.len()
            invariant
                i <= self.records.len(),
                forall|j: int| 0 <= j < i ==> (#[trigger] self@[j]).name != name@,
            decreases self.records.len() - i,
        {
            if self.records[i].name == *name {
                assert(self@[i as int].name == name@);
                return true;
            }
            i = i + 1;
        }
        false
    }

    /// Takes a link message whose names have been held against the exclusion
    /// list already: `excluded[i]` says whether attribute `i` is an excluded
    /// name. Returns whether the interface entered the directory.
    pub fn upsert_screened(&mut self, msg: &LinkMessage, excluded: &Vec<bool>) -> (r: Result<
        bool,
        LinkError,
    >)
        ensures
            final(self)@ == upserted(old(self)@, excluded@, msg@),
            r == upsert_result(upsert_outcome(old(self)@, excluded@, msg@)),
            well_formed(old(self)@) ==> well_formed(final(self)@),
            distinct_indices(old(self)@) && position_of(old(self)@, msg.index) is None
                ==> distinct_indices(final(self)@),
    {
        let ghost attrs = msg@.attrs;
        let ghost d = self@;
        let mut name_at: Option<usize> = None;
        let mut hardware_address: Option<String> = None;
        let mut i: usize = 0;
        while i < msg.attrs.len()
            invariant
                i <= msg.attrs.len(),
                attrs == msg@.attrs,
                d == self@,
                *self == *old(self),
                forall|j: int| 0 <= j < i ==> !#[trigger] stops(d, excluded@, attrs, j),
                match name_at {
                    Some(k) => k < i && (attrs[k as int] matches LinkAttrModel::IfName(name)
                        && last_name(attrs.take(i as int)) == Some(name)),
                    None => last_name(attrs.take(i as int)) is None,
                },
                match hardware_address {
                    Some(text) => last_hardware_address(attrs.take(i as int)) matches Some(raw)
                        && text@ == mac_text(raw),
                    None => last_hardware_address(attrs.take(i as int)) is None,
                },
            decreases msg.attrs.len() - i,
        {
            proof {
                assert(attrs.take(i + 1).drop_last() =~= attrs.take(i as int));
                assert(attrs.take(i + 1).last() == msg.attrs@[i as int]@);
            }
            match &msg.attrs[i] {
                LinkAttr::IfName(name) => {
                    let flag = i < excluded.len() && excluded[i];
                    if flag || self.holds_name(name) {
                        proof {
                            lemma_first_stop_is(d, excluded@, attrs, attrs.len() as int, i as int);
                        }
                        return Ok(false);
                    }
                    name_at = Some(i);
                },
                LinkAttr::Address(raw) => {
                    match hardware_address_text(raw.as_slice()) {
                        Ok(text) => {
                            hardware_address = Some(text);
                        },
                        Err(e) => {
                            proof {
                                lemma_first_stop_is(d, excluded@, attrs, attrs.len() as int, i as int);
                            }
                            return Err(LinkError::InvalidHardwareAddress { length: e.length });
                        },
                    }
                },
                LinkAttr::Other => {},
            }
            i = i + 1;
        }
        proof {
            lemma_first_stop_is(d, excluded@, attrs, attrs.len() as int, attrs.len() as int);
            assert(attrs.take(i as int) =~= attrs);
        }
        match (name_at, hardware_address) {
            (Some(k), Some(text)) => {
                let name = match &msg.attrs[k] {
                    LinkAttr::IfName(name) => name.clone(),
                    _ => String::new(),
                };
                let record = InterfaceRecord {
                    name,
                    hardware_address: text,
                    kernel_index: msg.index,
                    addresses: Vec::new(),
                };
                proof {
                    assert(!stops(d, excluded@, attrs, k as int));
                    assert(record@.addresses =~= Seq::<Seq<char>>::empty());
                }
                self.records.push(record);
                proof {
                    assert(self@ =~= d.push(record@));
                    if distinct_indices(d) && position_of(d, msg.index) is None {
                        crate::directory::lemma_position_of(d, msg.index);
                    }
                }
                Ok(true)
            },
            _ => Err(LinkError::MissingAttribute),
        }
    }
}

/// Holds each name of the message against the exclusion list.
pub fn screen(patterns: &Vec<regex::Regex>, msg: &LinkMessage) -> (excluded: Vec<bool>)
    ensures
        excluded@ == exclusions(patterns@, msg@.attrs),
{
    let mut excluded: Vec<bool> = Vec::new();
    let mut i: usize = 0;
    while i < msg.attrs.len()
        invariant
            i <= msg.attrs.len(),
            excluded@ == exclusions(patterns@, msg@.attrs.take(i as int)),
        decreases msg.attrs.len() - i,
    {
        let flag = match &msg.attrs[i] {
            LinkAttr::IfName(name) => is_excluded(patterns, name.as_str()),
            _ => false,
        };
        excluded.push(flag);
        proof {
            assert(msg@.attrs[i as int] == msg.attrs@[i as int]@);
            assert(excluded@ =~= exclusions(patterns@, msg@.attrs.take(i + 1)));
        }
        i = i + 1;
    }
    proof {
        assert(msg@.attrs.take(i as int) =~= msg@.attrs);
    }
    excluded
}

/// Takes a link message: the interface enters the directory unless its name
/// matches one of `exclude_ifaces` or is in the directory already. Returns
/// whether it entered. A message that lacks a name or a hardware address, or
/// whose hardware address is not six bytes long, is an error.
pub fn add_iface_if_not_exists_and_not_excluded(
    dir: &mut Directory,
    exclude_ifaces: &Vec<regex::Regex>,
    msg: &LinkMessage,
) -> (r: Result<bool, LinkError>)
    ensures
        final(dir)@ == upserted(old(dir)@, exclusions(exclude_ifaces@, msg@.attrs), msg@),
        r == upsert_result(
            upsert_outcome(old(dir)@, exclusions(exclude_ifaces@, msg@.attrs), msg@),
        ),
        well_formed(old(dir)@) ==> well_formed(final(dir)@),
        distinct_indices(old(dir)@) && position_of(old(dir)@, msg.index) is None
            ==> distinct_indices(final(dir)@),
{
    let excluded = screen(exclude_ifaces, msg);
    dir.upsert_screened(msg, &excluded)
}

} // verus!
