//! The remapping engine of the registrar: rules that map address blocks to
//! DNS zones, and the mutations that an advertisement leads to under them.

use crate::cidr::Cidr;
use crate::directory::{texts, InterfaceModel};
use crate::identity::{NodeIdentity, NodeIdentityModel};
use crate::ip::IpAddress;
use crate::ip_parse::{parse_ip, parsed_ip};
use crate::ip_text::ip_text;
use crate::pdns::{
    mutation_models, ChangeKind, RecordType, ZoneMutation, ZoneMutationModel, RECORD_TTL,
};
use crate::round_trip::lemma_text_round_trip;
use crate::text::{chars_of, piece_views, push_chars, split, split_chars, string_of};
use std::str::FromStr;
use vstd::prelude::*;

verus! {

/// A rule: addresses in `net` are published in `zone`, under the name that
/// `entry_fmt` gives once each `{}` in it is replaced by the hostname.
#[derive(Clone, Debug)]
pub struct Remapper {
    pub net: Cidr,
    pub zone: String,
    pub entry_fmt: String,
}

/// What a `Remapper` holds.
pub struct RemapperModel {
    pub net: Cidr,
    pub zone: Seq<char>,
    pub entry_fmt: Seq<char>,
}

impl View for Remapper {
    type V = RemapperModel;

    open spec fn view(&self) -> RemapperModel {
        RemapperModel { net: self.net, zone: self.zone@, entry_fmt: self.entry_fmt@ }
    }
}

/// What each rule of `rules` holds.
pub open spec fn rule_models(rules: Seq<Remapper>) -> Seq<RemapperModel> {
    rules.map_values(|r: Remapper| r@)
}

/// Why a text is not a rule.
#[derive(Clone, Copy, Debug, PartialEq, Eq, Structural)]
pub enum RemapperError {
    /// The text does not have three parts with `@` between them; it has this
    /// many.
    InvalidNumberOfParts(usize),
    /// The first part is not an address block.
    InvalidNetwork,
}

/// The address and the prefix length that `ipnet` reads from `text`, where it
/// reads an address block from it.
pub uninterp spec fn ipnet_parsed(text: Seq<char>) -> Option<(IpAddress, u8)>;

/// `ipnet::IpNet::from_str` reads an address block in CIDR notation. The
/// result is the address and the prefix length of what was read, and depends
/// on the text alone.
#[verifier::external_body]
fn parse_net(text: &str) -> (r: Option<(IpAddress, u8)>)
    ensures
        r == ipnet_parsed(text@),
{
    match ipnet::IpNet::from_str(text) {
        Ok(ipnet::IpNet::V4(net)) => Some((IpAddress::V4(u32::from(net.addr())), net.prefix_len())),
        Ok(ipnet::IpNet::V6(net)) => Some((IpAddress::V6(u128::from(net.addr())), net.prefix_len())),
        Err(_) => None,
    }
}

/// The block with the address and prefix length that were read; `None` where
/// nothing was read or the prefix is longer than the address.
pub open spec fn block_of(parsed: Option<(IpAddress, u8)>) -> Option<Cidr> {
    match parsed {
        Some((addr, prefix_len)) => if (Cidr { addr, prefix_len }).well_formed() {
            Some(Cidr { addr, prefix_len })
        } else {
            None
        },
        None => None,
    }
}

/// The rule that three parts make: the block that was read from the first
/// part, the zone and the name template.
pub open spec fn assembled(
    parsed: Option<(IpAddress, u8)>,
    zone: Seq<char>,
    entry_fmt: Seq<char>,
) -> Result<RemapperModel, RemapperError> {
    match block_of(parsed) {
        Some(net) => Ok(RemapperModel { net, zone, entry_fmt }),
        None => Err(RemapperError::InvalidNetwork),
    }
}

/// The rule that `text` spells, `network@zone@name_template`, given what was
/// read from its first part.
pub open spec fn rule_of(text: Seq<char>) -> Result<RemapperModel, RemapperError> {
    let parts = split(text, '@');
    if parts.len() == 3 {
        assembled(ipnet_parsed(parts[0]), parts[1], parts[2])
    } else {
        Err(RemapperError::InvalidNumberOfParts(parts.len() as usize))
    }
}

/// Whether a result is what the model says.
pub open spec fn rule_matches(
    r: Result<Remapper, RemapperError>,
    model: Result<RemapperModel, RemapperError>,
) -> bool {
    match (r, model) {
        (Ok(rule), Ok(m)) => rule@ == m,
        (Err(e), Err(m)) => e == m,
        _ => false,
    }
}

impl Remapper {
    /// Makes a rule of what was read from the first part of its text, and of
    /// the two other parts.
    pub fn assemble(parsed: Option<(IpAddress, u8)>, zone: String, entry_fmt: String) -> (r: Result<
        Remapper,
        RemapperError,
    >)
        ensures
            rule_matches(r, assembled(parsed, zone@, entry_fmt@)),
    {
        match parsed {
            Some((addr, prefix_len)) => match Cidr::new(addr, prefix_len) {
                Some(net) => Ok(Remapper { net, zone, entry_fmt }),
                None => Err(RemapperError::InvalidNetwork),
            },
            None => Err(RemapperError::InvalidNetwork),
        }
    }

    /// Reads a rule from `network@zone@name_template`.
    pub fn from_str(s: &str) -> (r: Result<Remapper, RemapperError>)
        ensures
            rule_matches(r, rule_of(s@)),
    {
        let chars = chars_of(s);
        proof {
            assert(chars@.subrange(0, chars@.len() as int) =~= chars@);
        }
        let parts = split_chars(&chars, 0, chars.len(), '@');
        if parts.len() != 3 {
            return Err(RemapperError::InvalidNumberOfParts(parts.len()));
        }
        proof {
            let p = piece_views(parts@);
            assert(p[0] == parts@[0]@ && p[1] == parts@[1]@ && p[2] == parts@[2]@);
            assert(parts@[0]@.subrange(0, parts@[0]@.len() as int) =~= parts@[0]@);
            assert(parts@[1]@.subrange(0, parts@[1]@.len() as int) =~= parts@[1]@);
            assert(parts@[2]@.subrange(0, parts@[2]@.len() as int) =~= parts@[2]@);
        }
        let network = string_of(&parts[0], 0, parts[0].len());
        let zone = string_of(&parts[1], 0, parts[1].len());
        let entry_fmt = string_of(&parts[2], 0, parts[2].len());
        Remapper::assemble(parse_net(network.as_str()), zone, entry_fmt)
    }
}

/// `template` with each `{}` replaced by `hostname`, taken from the left.
pub open spec fn substituted(template: Seq<char>, hostname: Seq<char>) -> Seq<char>
    decreases template.len(),
{
    if template.len() >= 2 && template[0] == '{' && template[1] == '}' {
        hostname + substituted(template.skip(2), hostname)
    } else if template.len() >= 1 {
        seq![template[0]] + substituted(template.skip(1), hostname)
    } else {
        Seq::<char>::empty()
    }
}

/// Replaces each `{}` of `template` by `hostname`.
pub fn substitute(template: &str, hostname: &str) -> (name: String)
    ensures
        name@ == substituted(template@, hostname@),
{
    let t = chars_of(template);
    let h = chars_of(hostname);
    let mut name = String::new();
    let mut i: usize = 0;
    proof {
        assert(t@.skip(0) =~= t@);
        assert(h@.subrange(0, h@.len() as int) =~= h@);
    }
    while i < t.len()
        invariant
            i <= t.len(),
            t@ == template@,
            h@ == hostname@,
            name@ + substituted(t@.skip(i as int), h@) == substituted(t@, h@),
        decreases t.len() - i,
    {
        let ghost rest = t@.skip(i as int);
        if t[i] == '{' && i + 1 < t.len() && t[i + 1] == '}' {
            proof {
                assert(rest.skip(2) =~= t@.skip(i + 2));
                assert(h@.subrange(0, h@.len() as int) =~= h@);
            }
            let ghost before = name@;
            push_chars(&mut name, &h, 0, h.len());
            proof {
                assert(name@ + substituted(t@.skip(i + 2), h@) =~= before + substituted(rest, h@));
            }
            i = i + 2;
        } else {
            proof {
                assert(rest.skip(1) =~= t@.skip(i + 1));
            }
            let ghost before = name@;
            name.push(t[i]);
            proof {
                assert(name@ + substituted(t@.skip(i + 1), h@) =~= before + substituted(rest, h@));
            }
            i = i + 1;
        }
    }
    proof {
        assert(name@ + Seq::<char>::empty() =~= name@);
    }
    name
}

/// The record type of an address: `A` for IPv4, `AAAA` for IPv6.
pub open spec fn record_type_of(ip: IpAddress) -> RecordType {
    match ip {
        IpAddress::V4(_) => RecordType::A,
        IpAddress::V6(_) => RecordType::Aaaa,
    }
}

/// The mutation that publishes `ip` for the host under `rule`.
pub open spec fn mutation_for(hostname: Seq<char>, rule: RemapperModel, ip: IpAddress) -> ZoneMutationModel {
    ZoneMutationModel {
        zone: rule.zone,
        record_name: substituted(rule.entry_fmt, hostname),
        record_type: record_type_of(ip),
        ttl: RECORD_TTL,
        change_kind: ChangeKind::Replace,
        value: ip_text(ip),
    }
}

/// The mutations for one address: one for each rule whose block holds it, in
/// the order of the rules.
pub open spec fn rule_mutations(
    hostname: Seq<char>,
    rules: Seq<RemapperModel>,
    ip: IpAddress,
) -> Seq<ZoneMutationModel>
    decreases rules.len(),
{
    if rules.len() == 0 {
        Seq::<ZoneMutationModel>::empty()
    } else {
        let before = rule_mutations(hostname, rules.drop_last(), ip);
        if rules.last().net.holds(ip) {
            before.push(mutation_for(hostname, rules.last(), ip))
        } else {
            before
        }
    }
}

/// The mutations for one advertised text: those of the address that it
/// spells, none where it spells no address.
pub open spec fn text_mutations(
    hostname: Seq<char>,
    rules: Seq<RemapperModel>,
    text: Seq<char>,
) -> Seq<ZoneMutationModel> {
    match parsed_ip(text) {
        Some(ip) => rule_mutations(hostname, rules, ip),
        None => Seq::<ZoneMutationModel>::empty(),
    }
}

/// The mutations for the addresses of one interface, in their order.
pub open spec fn address_mutations(
    hostname: Seq<char>,
    rules: Seq<RemapperModel>,
    addresses: Seq<Seq<char>>,
) -> Seq<ZoneMutationModel>
    decreases addresses.len(),
{
    if addresses.len() == 0 {
        Seq::<ZoneMutationModel>::empty()
    } else {
        address_mutations(hostname, rules, addresses.drop_last()) + text_mutations(
            hostname,
            rules,
            addresses.last(),
        )
    }
}

/// The mutations for the interfaces, in their order.
pub open spec fn interface_mutations(
    hostname: Seq<char>,
    rules: Seq<RemapperModel>,
    interfaces: Seq<InterfaceModel>,
) -> Seq<ZoneMutationModel>
    decreases interfaces.len(),
{
    if interfaces.len() == 0 {
        Seq::<ZoneMutationModel>::empty()
    } else {
        interface_mutations(hostname, rules, interfaces.drop_last()) + address_mutations(
            hostname,
            rules,
            interfaces.last().addresses,
        )
    }
}

/// The mutations that an advertisement leads to: for every address of every
/// interface and every rule whose block holds the address, one mutation.
pub open spec fn mutations(identity: NodeIdentityModel, rules: Seq<RemapperModel>) -> Seq<
    ZoneMutationModel,
> {
    interface_mutations(identity.hostname, rules, identity.interfaces)
}

/// Every mutation for an address is made for a rule whose block holds the
/// address, and every such rule has its mutation.
pub proof fn lemma_rule_mutations(hostname: Seq<char>, rules: Seq<RemapperModel>, ip: IpAddress)
    ensures
        forall|m: ZoneMutationModel| #[trigger]
            rule_mutations(hostname, rules, ip).contains(m) <==> exists|j: int|
                0 <= j < rules.len() && (#[trigger] rules[j]).net.holds(ip) && m == mutation_for(
                    hostname,
                    rules[j],
                    ip,
                ),
    decreases rules.len(),
{
    let all = rule_mutations(hostname, rules, ip);
    if rules.len() > 0 {
        let init = rules.drop_last();
        let before = rule_mutations(hostname, init, ip);
        lemma_rule_mutations(hostname, init, ip);
        assert forall|m: ZoneMutationModel| #[trigger] all.contains(m) <==> exists|j: int|
            0 <= j < rules.len() && (#[trigger] rules[j]).net.holds(ip) && m == mutation_for(
                hostname,
                rules[j],
                ip,
            ) by {
            if all.contains(m) {
                let i = choose|i: int| 0 <= i < all.len() && all[i] == m;
                if i < before.len() {
                    assert(before[i] == m);
                    assert(before.contains(m));
                    let j = choose|j: int|
                        0 <= j < init.len() && (#[trigger] init[j]).net.holds(ip) && m
                            == mutation_for(hostname, init[j], ip);
                    assert(rules[j] == init[j]);
                } else {
                    assert(rules[rules.len() - 1].net.holds(ip));
                }
            }
            if exists|j: int|
                0 <= j < rules.len() && (#[trigger] rules[j]).net.holds(ip) && m == mutation_for(
                    hostname,
                    rules[j],
                    ip,
                ) {
                let j = choose|j: int|
                    0 <= j < rules.len() && (#[trigger] rules[j]).net.holds(ip) && m
                        == mutation_for(hostname, rules[j], ip);
                if j < init.len() {
                    assert(init[j] == rules[j]);
                    assert(before.contains(m));
                    let i = choose|i: int| 0 <= i < before.len() && before[i] == m;
                    assert(all[i] == m);
                } else {
                    assert(all[all.len() - 1] == m);
                }
            }
        }
    }
}

/// An address that a node advertises by its text is published under the
/// rules as that address, and with the text that the node gave.
pub proof fn lemma_advertised_text_is_published(
    hostname: Seq<char>,
    rules: Seq<RemapperModel>,
    addr: IpAddress,
)
    ensures
        text_mutations(hostname, rules, ip_text(addr)) == rule_mutations(hostname, rules, addr),
        forall|m: ZoneMutationModel| #[trigger]
            rule_mutations(hostname, rules, addr).contains(m) ==> m.value == ip_text(addr)
                && m.record_type == record_type_of(addr),
{
    lemma_text_round_trip(addr);
    lemma_rule_mutations(hostname, rules, addr);
}

/// Appends the mutations for one address.
fn push_rule_mutations(
    out: &mut Vec<ZoneMutation>,
    hostname: &String,
    rules: &Vec<Remapper>,
    ip: IpAddress,
)
    ensures
        mutation_models(final(out)@) == mutation_models(old(out)@) + rule_mutations(
            hostname@,
            rule_models(rules@),
            ip,
        ),
{
    let ghost all = rule_models(rules@);
    let mut j: usize = 0;
    proof {
        assert(mutation_models(out@) + Seq::<ZoneMutationModel>::empty() =~= mutation_models(out@));
    }
    while j < rules.len()
        invariant
            j <= rules.len(),
            all == rule_models(rules@),
            mutation_models(out@) == mutation_models(old(out)@) + rule_mutations(
                hostname@,
                all.take(j as int),
                ip,
            ),
        decreases rules.len() - j,
    {
        proof {
            assert(all.take(j + 1).drop_last() =~= all.take(j as int));
            assert(all.take(j + 1).last() == rules@[j as int]@);
        }
        let rule = &rules[j];
        if rule.net.contains(&ip) {
            let record_type = if ip.is_ipv4() {
                RecordType::A
            } else {
                RecordType::Aaaa
            };
            let mutation = ZoneMutation {
                zone: rule.zone.clone(),
                record_name: substitute(rule.entry_fmt.as_str(), hostname.as_str()),
                record_type,
                ttl: RECORD_TTL,
                change_kind: ChangeKind::Replace,
                value: ip.to_text(),
            };
            let ghost before = mutation_models(out@);
            out.push(mutation);
            proof {
                assert(mutation_models(out@) =~= before.push(mutation@));
                assert(mutation_models(out@) =~= mutation_models(old(out)@) + rule_mutations(
                    hostname@,
                    all.take(j + 1),
                    ip,
                ));
            }
        }
        j = j + 1;
    }
    proof {
        assert(all.take(j as int) =~= all);
    }
}

/// Appends the mutations for the addresses of one interface.
fn push_address_mutations(
    out: &mut Vec<ZoneMutation>,
    hostname: &String,
    rules: &Vec<Remapper>,
    addresses: &Vec<String>,
)
    ensures
        mutation_models(final(out)@) == mutation_models(old(out)@) + address_mutations(
            hostname@,
            rule_models(rules@),
            texts(addresses@),
        ),
{
    let ghost all = texts(addresses@);
    let mut i: usize = 0;
    proof {
        assert(mutation_models(out@) + Seq::<ZoneMutationModel>::empty() =~= mutation_models(out@));
    }
    while i < addresses.len()
        invariant
            i <= addresses.len(),
            all == texts(addresses@),
            mutation_models(out@) == mutation_models(old(out)@) + address_mutations(
                hostname@,
                rule_models(rules@),
                all.take(i as int),
            ),
        decreases addresses.len() - i,
    {
        proof {
            assert(all.take(i + 1).drop_last() =~= all.take(i as int));
            assert(all.take(i + 1).last() == addresses@[i as int]@);
        }
        let ghost before = mutation_models(out@);
        match parse_ip(addresses[i].as_str()) {
            Some(ip) => {
                push_rule_mutations(out, hostname, rules, ip);
            },
            None => {},
        }
        proof {
            let added = text_mutations(hostname@, rule_models(rules@), addresses@[i as int]@);
            assert(mutation_models(out@) =~= before + added);
            assert(mutation_models(out@) =~= mutation_models(old(out)@) + address_mutations(
                hostname@,
                rule_models(rules@),
                all.take(i + 1),
            ));
        }
        i = i + 1;
    }
    proof {
        assert(all.take(i as int) =~= all);
    }
}

/// The mutations that an advertisement leads to under `rules`: for every
/// address of every interface, in their order, one mutation for each rule
/// whose block holds the address, in the order of the rules. A text that
/// spells no address leads to none.
pub fn compute_mutations(identity: &NodeIdentity, rules: &Vec<Remapper>) -> (out: Vec<ZoneMutation>)
    ensures
        mutation_models(out@) == mutations(identity@, rule_models(rules@)),
{
    let mut out: Vec<ZoneMutation> = Vec::new();
    let records = &identity.interfaces.records;
    let ghost all = identity@.interfaces;
    let mut i: usize = 0;
    proof {
        assert(mutation_models(out@) =~= Seq::<ZoneMutationModel>::empty());
    }
    while i < records.len()
        invariant
            i <= records.len(),
            records == &identity.interfaces.records,
            all == identity@.interfaces,
            mutation_models(out@) == interface_mutations(
                identity@.hostname,
                rule_models(rules@),
                all.take(i as int),
            ),
        decreases records.len() - i,
    {
        proof {
            assert(all.take(i + 1).drop_last() =~= all.take(i as int));
            assert(all.take(i + 1).last() == records@[i as int]@);
        }
        push_address_mutations(&mut out, &identity.hostname, rules, &records[i].addresses);
        i = i + 1;
    }
    proof {
        assert(all.take(i as int) =~= all);
    }
    out
}

} // verus!
