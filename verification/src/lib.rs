//! Keeps a DNS authority in step with the network identity of a fleet of nodes.
//!
//! On every node an agent holds a directory of the node's interfaces and
//! their addresses, built from the kernel's lists and kept current from the
//! kernel's events, and advertises it to a registrar. The registrar maps the
//! advertised addresses to DNS zones by rules and replaces the records.
//!
//! The node side: [`classify`] decides which addresses are advertised and
//! under which text; [`directory`] holds the interfaces; [`link`] and
//! [`kernel`] apply the kernel's messages to it; [`enumerate`] builds it at
//! startup and [`monitor`] keeps it current; [`retry`] and [`agent`] decide
//! when to advertise, when to wait and when to give up.
//!
//! The registrar side: [`remap`] turns an advertisement into mutations under
//! the rules; [`pdns`] describes the requests to the DNS control plane and
//! judges its answers; [`registrar`] puts the two together.
//!
//! Shared by both: [`ip`], [`ip_text`] and [`ip_parse`] for addresses and
//! their text, with [`round_trip`] relating the two directions; [`cidr`] for
//! address blocks; [`identity`] for what is advertised.

pub mod agent;
pub mod cidr;
pub mod classify;
pub mod directory;
pub mod enumerate;
pub mod exclude;
pub mod identity;
pub mod ip;
pub mod ip_parse;
pub mod ip_text;
pub mod kernel;
pub mod link;
pub mod mac;
pub mod monitor;
pub mod pdns;
pub mod registrar;
pub mod remap;
pub mod retry;
pub mod round_trip;
pub mod text;
