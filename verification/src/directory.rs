//! The interface directory: the interfaces of a node, each with the addresses
//! it currently holds, looked up by kernel index.

use vstd::prelude::*;

verus! {

/// One interface of a node.
#[derive(Clone, Debug)]
pub struct InterfaceRecord {
    /// Name that the kernel gave the interface.
    pub name: String,
    /// Hardware address, in lowercase hexadecimal.
    pub hardware_address: String,
    /// The kernel's index of the interface, by which it is found.
    pub kernel_index: u32,
    /// Texts of the addresses that the interface holds.
    pub addresses: Vec<String>,
}

/// What an `InterfaceRecord` holds.
pub struct InterfaceModel {
    pub name: Seq<char>,
    pub hardware_address: Seq<char>,
    pub kernel_index: u32,
    pub addresses: Seq<Seq<char>>,
}

/// What each string of `strings` holds.
pub open spec fn texts(strings: Seq<String>) -> Seq<Seq<char>> {
    strings.map_values(|s: String| s@)
}

impl View for InterfaceRecord {
    type V = InterfaceModel;

    open spec fn view(&self) -> InterfaceModel {
        InterfaceModel {
            name: self.name@,
            hardware_address: self.hardware_address@,
            kernel_index: self.kernel_index,
            addresses: texts(self.addresses@),
        }
    }
}

/// The interfaces of a node, in the order in which they were first seen.
#[derive(Clone, Debug)]
pub struct Directory {
    pub records: Vec<InterfaceRecord>,
}

impl View for Directory {
    type V = Seq<InterfaceModel>;

    open spec fn view(&self) -> Seq<InterfaceModel> {
        self.records@.map_values(|r: InterfaceRecord| r@)
    }
}

/// The texts of `s` other than `a`, in their order.
pub open spec fn without(s: Seq<Seq<char>>, a: Seq<char>) -> Seq<Seq<char>>
    decreases s.len(),
{
    if s.len() == 0 {
        s
    } else if s.last() == a {
        without(s.drop_last(), a)
    } else {
        without(s.drop_last(), a).push(s.last())
    }
}

/// The record with `a` among its addresses: appended if it was not there.
pub open spec fn with_address(r: InterfaceModel, a: Seq<char>) -> InterfaceModel {
    if r.addresses.contains(a) {
        r
    } else {
        InterfaceModel { addresses: r.addresses.push(a), ..r }
    }
}

/// The record without `a` among its addresses.
pub open spec fn without_address(r: InterfaceModel, a: Seq<char>) -> InterfaceModel {
    InterfaceModel { addresses: without(r.addresses, a), ..r }
}

/// Position of the first record with kernel index `index`.
pub open spec fn position_of(d: Seq<InterfaceModel>, index: u32) -> Option<int>
    decreases d.len(),
{
    if d.len() == 0 {
        None
    } else {
        match position_of(d.drop_last(), index) {
            Some(i) => Some(i),
            None => if d.last().kernel_index == index {
                Some(d.len() - 1)
            } else {
                None
            },
        }
    }
}

/// The directory after `a` was added to the interface with index `index`:
/// unchanged where no interface has that index.
pub open spec fn added(d: Seq<InterfaceModel>, index: u32, a: Seq<char>) -> Seq<InterfaceModel> {
    match position_of(d, index) {
        Some(i) => d.update(i, with_address(d[i], a)),
        None => d,
    }
}

/// The directory after `a` was removed from the interface with index `index`:
/// unchanged where no interface has that index.
pub open spec fn removed(d: Seq<InterfaceModel>, index: u32, a: Seq<char>) -> Seq<InterfaceModel> {
    match position_of(d, index) {
        Some(i) => d.update(i, without_address(d[i], a)),
        None => d,
    }
}

/// Whether some record of `d` has the name `name`.
pub open spec fn has_name(d: Seq<InterfaceModel>, name: Seq<char>) -> bool {
    exists|i: int| 0 <= i < d.len() && #[trigger] d[i].name == name
}

/// No two records share a name, and no record holds an address twice.
pub open spec fn well_formed(d: Seq<InterfaceModel>) -> bool {
    &&& forall|i: int, j: int|
        0 <= i < d.len() && 0 <= j < d.len() && i != j ==> #[trigger] d[i].name != #[trigger] d[j].name
    &&& forall|i: int| 0 <= i < d.len() ==> (#[trigger] d[i]).addresses.no_duplicates()
}

/// No two records share a kernel index.
pub open spec fn distinct_indices(d: Seq<InterfaceModel>) -> bool {
    forall|i: int, j: int|
        0 <= i < d.len() && 0 <= j < d.len() && i != j ==> #[trigger] d[i].kernel_index
            != #[trigger] d[j].kernel_index
}

/// `position_of` gives the first record with the index, and `None` exactly
/// where there is none.
pub proof fn lemma_position_of(d: Seq<InterfaceModel>, index: u32)
    ensures
        match position_of(d, index) {
            Some(i) => 0 <= i < d.len() && d[i].kernel_index == index && forall|j: int|
                0 <= j < i ==> (#[trigger] d[j]).kernel_index != index,
            None => forall|j: int| 0 <= j < d.len() ==> (#[trigger] d[j]).kernel_index != index,
        },
    decreases d.len(),
{
    if d.len() > 0 {
        lemma_position_of(d.drop_last(), index);
        assert(forall|j: int| 0 <= j < d.len() - 1 ==> d[j] == d.drop_last()[j]);
    }
}

/// The first record with the index is where `position_of` says.
pub proof fn lemma_position_found(d: Seq<InterfaceModel>, index: u32, i: int)
    requires
        0 <= i < d.len(),
        d[i].kernel_index == index,
        forall|j: int| 0 <= j < i ==> (#[trigger] d[j]).kernel_index != index,
    ensures
        position_of(d, index) == Some(i),
{
    lemma_position_of(d, index);
}

/// Adding an address a second time changes nothing.
pub proof fn lemma_add_address_idempotent(d: Seq<InterfaceModel>, index: u32, a: Seq<char>)
    ensures
        added(added(d, index, a), index, a) == added(d, index, a),
{
    let once = added(d, index, a);
    lemma_position_of(d, index);
    match position_of(d, index) {
        Some(i) => {
            assert(once[i].kernel_index == index);
            assert forall|j: int| 0 <= j < i implies (#[trigger] once[j]).kernel_index != index by {
                assert(once[j] == d[j]);
            }
            lemma_position_found(once, index, i);
            let r = with_address(d[i], a);
            assert(r.addresses.contains(a)) by {
                if !d[i].addresses.contains(a) {
                    assert(r.addresses[d[i].addresses.len() as int] == a);
                }
            }
            assert(with_address(r, a) == r);
            assert(once.update(i, r) =~= once);
        },
        None => {},
    }
}

/// Removing an address that the interface does not hold, or from an interface
/// that is not there, changes nothing.
pub proof fn lemma_remove_absent(d: Seq<InterfaceModel>, index: u32, a: Seq<char>)
    requires
        match position_of(d, index) {
            Some(i) => !d[i].addresses.contains(a),
            None => true,
        },
    ensures
        removed(d, index, a) == d,
{
    lemma_position_of(d, index);
    match position_of(d, index) {
        Some(i) => {
            lemma_without_absent(d[i].addresses, a);
            assert(without_address(d[i], a) == d[i]);
            assert(d.update(i, d[i]) =~= d);
        },
        None => {},
    }
}

/// Filtering out a value that does not occur leaves the sequence as it is.
pub proof fn lemma_without_absent(s: Seq<Seq<char>>, a: Seq<char>)
    requires
        !s.contains(a),
    ensures
        without(s, a) == s,
    decreases s.len(),
{
    if s.len() > 0 {
        assert(s.last() == s[s.len() - 1]);
        assert forall|i: int| 0 <= i < s.drop_last().len() implies s.drop_last()[i] != a by {
            assert(s.drop_last()[i] == s[i]);
        }
        lemma_without_absent(s.drop_last(), a);
        assert(s.drop_last().push(s.last()) =~= s);
    }
}

/// The texts left when `a` is taken out are the texts other than `a`.
pub proof fn lemma_without_contains(s: Seq<Seq<char>>, a: Seq<char>, x: Seq<char>)
    ensures
        without(s, a).contains(x) <==> s.contains(x) && x != a,
    decreases s.len(),
{
    let f = without(s, a);
    if s.len() > 0 {
        let init = s.drop_last();
        let fi = without(init, a);
        lemma_without_contains(init, a, x);
        if f.contains(x) {
            let i = choose|i: int| 0 <= i < f.len() && f[i] == x;
            if i < fi.len() {
                assert(fi[i] == x);
                assert(fi.contains(x));
                let j = choose|j: int| 0 <= j < init.len() && init[j] == x;
                assert(s[j] == x);
            } else {
                assert(s[s.len() - 1] == x);
            }
        }
        if s.contains(x) && x != a {
            let j = choose|j: int| 0 <= j < s.len() && s[j] == x;
            if j < init.len() {
                assert(init[j] == x);
                assert(init.contains(x));
                let i = choose|i: int| 0 <= i < fi.len() && fi[i] == x;
                assert(f[i] == x);
            } else {
                assert(f[f.len() - 1] == x);
            }
        }
    }
}

/// Taking `a` out of texts without repetition leaves texts without
/// repetition, fewer of them where `a` was among them.
pub proof fn lemma_without_facts(s: Seq<Seq<char>>, a: Seq<char>)
    ensures
        without(s, a).len() <= s.len(),
        s.contains(a) ==> without(s, a).len() < s.len(),
        s.no_duplicates() ==> without(s, a).no_duplicates(),
    decreases s.len(),
{
    let f = without(s, a);
    if s.len() > 0 {
        let init = s.drop_last();
        let fi = without(init, a);
        lemma_without_facts(init, a);
        if s.contains(a) {
            let j = choose|j: int| 0 <= j < s.len() && s[j] == a;
            if j < init.len() {
                assert(init[j] == a);
                assert(init.contains(a));
            }
        }
        if s.no_duplicates() {
            assert(init.no_duplicates());
            if s.last() != a {
                lemma_without_contains(init, a, s.last());
                if init.contains(s.last()) {
                    let j = choose|j: int| 0 <= j < init.len() && init[j] == s.last();
                    assert(s[j] == s[s.len() - 1]);
                }
                assert(!fi.contains(s.last()));
                assert forall|x: int, y: int|
                    0 <= x < f.len() && 0 <= y < f.len() && x != y implies f[x] != f[y] by {
                    if x < fi.len() && y < fi.len() {
                        assert(fi[x] != fi[y]);
                    } else if x < fi.len() {
                        assert(fi.contains(fi[x]));
                    } else {
                        assert(fi.contains(fi[y]));
                    }
                }
            }
        }
    }
}

/// The addresses of an interface behave as a set: adding puts the address
/// in, removing takes it out, and nothing else comes or goes.
pub proof fn lemma_set_semantics(r: InterfaceModel, a: Seq<char>)
    ensures
        with_address(r, a).addresses.to_set() == r.addresses.to_set().insert(a),
        without_address(r, a).addresses.to_set() == r.addresses.to_set().remove(a),
{
    let grown = with_address(r, a).addresses;
    assert forall|x: Seq<char>| grown.to_set().contains(x) <==> r.addresses.to_set().insert(
        a,
    ).contains(x) by {
        if grown.contains(x) && !r.addresses.contains(a) {
            let i = choose|i: int| 0 <= i < grown.len() && grown[i] == x;
            if i < r.addresses.len() {
                assert(r.addresses[i] == x);
            }
        }
        if r.addresses.contains(x) {
            let i = choose|i: int| 0 <= i < r.addresses.len() && r.addresses[i] == x;
            assert(grown[i] == x);
        }
        if x == a && !r.addresses.contains(a) {
            assert(grown[grown.len() - 1] == a);
        }
    }
    assert(grown.to_set() =~= r.addresses.to_set().insert(a));
    let shrunk = without_address(r, a).addresses;
    assert forall|x: Seq<char>| shrunk.to_set().contains(x) <==> r.addresses.to_set().remove(
        a,
    ).contains(x) by {
        lemma_without_contains(r.addresses, a, x);
    }
    assert(shrunk.to_set() =~= r.addresses.to_set().remove(a));
}

/// Adding and removing addresses keep a directory well formed.
pub proof fn lemma_well_formed_kept(d: Seq<InterfaceModel>, index: u32, a: Seq<char>)
    requires
        well_formed(d),
    ensures
        well_formed(added(d, index, a)),
        well_formed(removed(d, index, a)),
        distinct_indices(d) ==> distinct_indices(added(d, index, a)) && distinct_indices(
            removed(d, index, a),
        ),
{
    lemma_position_of(d, index);
    match position_of(d, index) {
        Some(i) => {
            lemma_without_facts(d[i].addresses, a);
            let grown = with_address(d[i], a);
            assert(grown.addresses.no_duplicates()) by {
                if !d[i].addresses.contains(a) {
                    assert forall|x: int, y: int|
                        0 <= x < grown.addresses.len() && 0 <= y < grown.addresses.len() && x
                            != y implies grown.addresses[x] != grown.addresses[y] by {
                        if x < d[i].addresses.len() && y < d[i].addresses.len() {
                            assert(d[i].addresses[x] != d[i].addresses[y]);
                        } else if x < d[i].addresses.len() {
                            assert(d[i].addresses[x] != a);
                        } else {
                            assert(d[i].addresses[y] != a);
                        }
                    }
                }
            }
        },
        None => {},
    }
}

impl InterfaceRecord {
    /// Whether the interface holds `address`.
    pub fn has_address(&self, address: &String) -> (found: bool)
        ensures
            found == self@.addresses.contains(address@),
    {
        let mut i: usize = 0;
        while i < self.addresses.len()
            invariant
                i <= self.addresses.len(),
                forall|j: int| 0 <= j < i ==> texts(self.addresses@)[j] != address@,
            decreases self.addresses.len() - i,
        {
            if self.addresses[i] == *address {
                assert(texts(self.addresses@)[i as int] == address@);
                return true;
            }
            i = i + 1;
        }
        false
    }

    /// Adds `address` unless the interface holds it already. Returns whether
    /// it was added.
    pub fn add_address(&mut self, address: String) -> (changed: bool)
        ensures
            final(self)@ == with_address(old(self)@, address@),
            changed == !old(self)@.addresses.contains(address@),
    {
        if self.has_address(&address) {
            false
        } else {
            self.addresses.push(address);
            assert(texts(self.addresses@) =~= texts(old(self).addresses@).push(address@));
            true
        }
    }

    /// Removes `address`. Returns whether the interface held it.
    pub fn remove_address(&mut self, address: &String) -> (changed: bool)
        ensures
            final(self)@ == without_address(old(self)@, address@),
            changed == old(self)@.addresses.contains(address@),
    {
        let mut kept: Vec<String> = Vec::new();
        let mut changed = false;
        let mut i: usize = 0;
        while i < self.addresses.len()
            invariant
                i <= self.addresses.len(),
                *self == *old(self),
                texts(kept@) == without(texts(self.addresses@.take(i as int)), address@),
                changed == texts(self.addresses@.take(i as int)).contains(address@),
            decreases self.addresses.len() - i,
        {
            let ghost done = texts(self.addresses@.take(i as int));
            let ghost next = texts(self.addresses@.take(i + 1));
            assert(next.drop_last() =~= done);
            assert(next.last() == self.addresses[i as int]@);
            assert(next.contains(address@) <==> done.contains(address@) || next.last() == address@) by {
                if done.contains(address@) {
                    let j = choose|j: int| 0 <= j < done.len() && done[j] == address@;
                    assert(next[j] == address@);
                }
                if next.last() == address@ {
                    assert(next[next.len() - 1] == address@);
                }
                if next.contains(address@) {
                    let j = choose|j: int| 0 <= j < next.len() && next[j] == address@;
                    if j < done.len() {
                        assert(done[j] == address@);
                    }
                }
            }
            if self.addresses[i] == *address {
                changed = true;
            } else {
                kept.push(self.addresses[i].clone());
                assert(texts(kept@) =~= without(done, address@).push(next.last()));
            }
            i = i + 1;
        }
        assert(self.addresses@.take(i as int) == self.addresses@);
        self.addresses = kept;
        changed
    }
}

impl Directory {
    /// A directory without interfaces.
    pub fn new() -> (d: Directory)
        ensures
            d@ == Seq::<InterfaceModel>::empty(),
            well_formed(d@),
            distinct_indices(d@),
    {
        let d = Directory { records: Vec::new() };
        assert(d@ =~= Seq::<InterfaceModel>::empty());
        d
    }

    /// Position of the first interface with kernel index `index`.
    pub fn position(&self, index: u32) -> (p: Option<usize>)
        ensures
            p matches Some(i) ==> position_of(self@, index) == Some(i as int) && i < self.records.len(),
            p is None ==> position_of(self@, index) is None,
    {
        let mut i: usize = 0;
        while i < self.records.len()
            invariant
                i <= self.records.len(),
                forall|j: int| 0 <= j < i ==> (#[trigger] self@[j]).kernel_index != index,
            decreases self.records.len() - i,
        {
            if self.records[i].kernel_index == index {
                proof {
                    lemma_position_found(self@, index, i as int);
                }
                return Some(i);
            }
            i = i + 1;
        }
        proof {
            lemma_position_of(self@, index);
        }
        None
    }

    /// The first interface with kernel index `index`, for reading and changing.
    pub fn find_by_index(&mut self, index: u32) -> (found: Option<&mut InterfaceRecord>)
        ensures
            match found {
                Some(record) => position_of(old(self)@, index) matches Some(i) && *record == old(
                    self,
                ).records[i] && final(self).records@ == old(self).records@.update(
                    i,
                    *final(record),
                ),
                None => position_of(old(self)@, index) is None && *final(self) == *old(self),
            },
    {
        match self.position(index) {
            Some(i) => Some(&mut self.records[i]),
            None => None,
        }
    }

    /// Adds `address` to the interface with kernel index `index`. Returns
    /// whether the directory changed: `false` where no interface has that
    /// index or the interface holds the address already.
    pub fn add_address(&mut self, index: u32, address: String) -> (changed: bool)
        ensures
            final(self)@ == added(old(self)@, index, address@),
            changed == (final(self)@ != old(self)@),
            changed == match position_of(old(self)@, index) {
                Some(i) => !old(self)@[i].addresses.contains(address@),
                None => false,
            },
            well_formed(old(self)@) ==> well_formed(final(self)@),
            distinct_indices(old(self)@) ==> distinct_indices(final(self)@),
    {
        proof {
            lemma_position_of(self@, index);
            if well_formed(self@) {
                lemma_well_formed_kept(self@, index, address@);
            }
        }
        let changed = match self.find_by_index(index) {
            Some(record) => record.add_address(address),
            None => false,
        };
        proof {
            match position_of(old(self)@, index) {
                Some(i) => {
                    assert(self@ =~= old(self)@.update(i, self@[i]));
                    if changed {
                        assert(self@[i].addresses.len() == old(self)@[i].addresses.len() + 1);
                    } else {
                        assert(self@ =~= old(self)@);
                    }
                },
                None => {},
            }
        }
        changed
    }

    /// Removes `address` from the interface with kernel index `index`.
    /// Returns whether the directory changed: `false` where no interface has
    /// that index or the interface does not hold the address.
    pub fn remove_address(&mut self, index: u32, address: &String) -> (changed: bool)
        ensures
            final(self)@ == removed(old(self)@, index, address@),
            changed == (final(self)@ != old(self)@),
            changed == match position_of(old(self)@, index) {
                Some(i) => old(self)@[i].addresses.contains(address@),
                None => false,
            },
            well_formed(old(self)@) ==> well_formed(final(self)@),
            distinct_indices(old(self)@) ==> distinct_indices(final(self)@),
    {
        proof {
            lemma_position_of(self@, index);
            if well_formed(self@) {
                lemma_well_formed_kept(self@, index, address@);
            }
        }
        let changed = match self.find_by_index(index) {
            Some(record) => record.remove_address(address),
            None => false,
        };
        proof {
            match position_of(old(self)@, index) {
                Some(i) => {
                    assert(self@ =~= old(self)@.update(i, self@[i]));
                    lemma_without_facts(old(self)@[i].addresses, address@);
                    if !changed {
                        lemma_remove_absent(old(self)@, index, address@);
                    }
                },
                None => {},
            }
        }
        changed
    }
}

} // verus!
