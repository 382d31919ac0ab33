//! The address index: where each name was last seen.

use crate::address::Address;
use crate::endpoint::{get_port_name, is_port_no_export, Endpoint};
use vstd::hash_map::StringHashMap;
use vstd::prelude::*;

verus! {

/// Maps each known name to the address at which a port of that name was
/// seen last. Entries are added or overwritten, never taken out: an entry
/// that has gone stale is put right the next time the name is seen.
pub struct AddressIndex {
    map: StringHashMap<Address>,
}

impl View for AddressIndex {
    type V = Map<Seq<char>, Address>;

    closed spec fn view(&self) -> Map<Seq<char>, Address> {
        self.map@
    }
}

/// The index after the port `e` was seen: unchanged where the port is
/// flagged as not to be exported, else with the port's name pointing to its
/// address.
pub open spec fn sighted(index: Map<Seq<char>, Address>, e: Endpoint) -> Map<Seq<char>, Address> {
    if e.no_export() {
        index
    } else {
        index.insert(e.name(), e.addr)
    }
}

/// The index after the ports `ports` were seen one after the other.
pub open spec fn port_ids(ports: Seq<Endpoint>) -> Map<Seq<char>, Address>
    decreases ports.len(),
{
    if ports.len() == 0 {
        Map::empty()
    } else {
        sighted(port_ids(ports.drop_last()), ports.last())
    }
}

/// Every entry of the index that a sequence of sightings gives comes from a
/// port among them that is not flagged: none of a flagged port is ever
/// entered.
pub proof fn lemma_port_ids_exported(ports: Seq<Endpoint>, name: Seq<char>)
    requires
        port_ids(ports).contains_key(name),
    ensures
        exists|i: int|
            0 <= i < ports.len() && !(#[trigger] ports[i]).no_export() && ports[i].name() == name
                && ports[i].addr == port_ids(ports)[name],
    decreases ports.len(),
{
    if ports.len() == 0 {
    } else {
        let last = ports.last();
        if !last.no_export() && last.name() == name {
            assert(ports[ports.len() - 1].addr == port_ids(ports)[name]);
        } else {
            lemma_port_ids_exported(ports.drop_last(), name);
            let i = choose|i: int|
                0 <= i < ports.drop_last().len() && !(#[trigger] ports.drop_last()[i]).no_export()
                    && ports.drop_last()[i].name() == name && ports.drop_last()[i].addr
                    == port_ids(ports.drop_last())[name];
            assert(ports[i] == ports.drop_last()[i]);
        }
    }
}

/// The index holds for each name the address of the port that was seen
/// last under it: a port that is not flagged, and after which no other
/// unflagged port of the same name was seen, is found at its address.
pub proof fn lemma_port_ids_latest(ports: Seq<Endpoint>, i: int)
    requires
        0 <= i < ports.len(),
        !ports[i].no_export(),
        forall|j: int|
            i < j < ports.len() && !(#[trigger] ports[j]).no_export() ==> ports[j].name()
                != ports[i].name(),
    ensures
        port_ids(ports).contains_key(ports[i].name()),
        port_ids(ports)[ports[i].name()] == ports[i].addr,
    decreases ports.len(),
{
    if i == ports.len() - 1 {
    } else {
        let rest = ports.drop_last();
        assert(rest[i] == ports[i]);
        assert forall|j: int| i < j < rest.len() && !(#[trigger] rest[j]).no_export() implies rest[j].name()
            != rest[i].name() by {
            assert(rest[j] == ports[j]);
        }
        lemma_port_ids_latest(rest, i);
        assert(ports.last() == ports[ports.len() - 1]);
    }
}

impl AddressIndex {
    /// An index without entries.
    pub fn new() -> (index: AddressIndex)
        ensures
            index@ == Map::<Seq<char>, Address>::empty(),
    {
        AddressIndex { map: StringHashMap::new() }
    }

    /// Lets `name` point to `addr`, whatever it pointed to before.
    pub fn insert(&mut self, name: String, addr: Address)
        ensures
            final(self)@ == old(self)@.insert(name@, addr),
    {
        self.map.insert(name, addr);
    }

    /// The address that `name` points to, if it points to any.
    pub fn get(&self, name: &str) -> (found: Option<Address>)
        ensures
            found == if self@.contains_key(name@) {
                Some(self@[name@])
            } else {
                None
            },
    {
        match self.map.get(name) {
            Some(addr) => Some(*addr),
            None => None,
        }
    }

    /// The number of names in the index.
    pub fn len(&self) -> (n: usize)
        ensures
            n == self@.len(),
    {
        self.map.len()
    }

    /// Takes note of a port that was seen: enters it under its name unless
    /// it is flagged as not to be exported.
    pub fn sight(&mut self, endpoint: &Endpoint)
        ensures
            final(self)@ == sighted(old(self)@, *endpoint),
    {
        if !is_port_no_export(endpoint) {
            self.map.insert(get_port_name(endpoint), endpoint.addr);
        }
    }
}

/// Builds the index from all ports that the registry shows, in the order in
/// which it shows them. Ports flagged as not to be exported are left out.
pub fn get_port_ids(ports: &Vec<Endpoint>) -> (ids: AddressIndex)
    ensures
        ids@ == port_ids(ports@),
{
    let mut ids = AddressIndex::new();
    let mut i: usize = 0;
    while i < ports.len()
        invariant
            i <= ports.len(),
            ids@ == port_ids(ports@.take(i as int)),
        decreases ports.len() - i,
    {
        ids.sight(&ports[i]);
        proof {
            assert(ports@.take(i + 1).drop_last() =~= ports@.take(i as int));
        }
        i += 1;
    }
    assert(ports@.take(i as int) =~= ports@);
    ids
}

} // verus!
