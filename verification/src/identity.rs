//! The identity that a node advertises: its hostname and its interfaces.

use crate::directory::{Directory, InterfaceModel};
use crate::text::{chars_of, string_of};
use vstd::prelude::*;

verus! {

/// What a node advertises. Every advertisement carries all of it.
#[derive(Clone, Debug)]
pub struct NodeIdentity {
    pub hostname: String,
    pub interfaces: Directory,
}

/// What a `NodeIdentity` holds.
pub struct NodeIdentityModel {
    pub hostname: Seq<char>,
    pub interfaces: Seq<InterfaceModel>,
}

impl View for NodeIdentity {
    type V = NodeIdentityModel;

    open spec fn view(&self) -> NodeIdentityModel {
        NodeIdentityModel { hostname: self.hostname@, interfaces: self.interfaces@ }
    }
}

/// The characters with the Unicode property White_Space.
pub open spec fn whitespace(c: char) -> bool {
    let n = c as u32;
    ||| 0x09 <= n <= 0x0d
    ||| n == 0x20
    ||| n == 0x85
    ||| n == 0xa0
    ||| n == 0x1680
    ||| 0x2000 <= n <= 0x200a
    ||| n == 0x2028
    ||| n == 0x2029
    ||| n == 0x202f
    ||| n == 0x205f
    ||| n == 0x3000
}

/// `s` without the whitespace at its end.
pub open spec fn trimmed_end(s: Seq<char>) -> Seq<char>
    decreases s.len(),
{
    if s.len() > 0 && whitespace(s.last()) {
        trimmed_end(s.drop_last())
    } else {
        s
    }
}

/// Whether `c` has the Unicode property White_Space.
pub fn is_whitespace(c: char) -> (b: bool)
    ensures
        b == whitespace(c),
{
    let n = c as u32;
    (0x09 <= n && n <= 0x0d) || n == 0x20 || n == 0x85 || n == 0xa0 || n == 0x1680 || (0x2000 <= n
        && n <= 0x200a) || n == 0x2028 || n == 0x2029 || n == 0x202f || n == 0x205f || n == 0x3000
}

/// The hostname that the kernel's hostname file holds: its content without
/// the whitespace at its end.
pub fn hostname_from_raw(raw: &str) -> (hostname: String)
    ensures
        hostname@ == trimmed_end(raw@),
{
    let chars = chars_of(raw);
    let mut end: usize = chars.len();
    proof {
        assert(chars@.take(end as int) =~= chars@);
    }
    while end > 0 && is_whitespace(chars[end - 1])
        invariant
            end <= chars.len(),
            trimmed_end(chars@) == trimmed_end(chars@.take(end as int)),
        decreases end,
    {
        proof {
            assert(chars@.take(end as int).drop_last() =~= chars@.take(end - 1));
        }
        end = end - 1;
    }
    proof {
        assert(chars@.subrange(0, end as int) =~= chars@.take(end as int));
    }
    string_of(&chars, 0, end)
}

} // verus!
