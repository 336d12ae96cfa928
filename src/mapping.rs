use vstd::prelude::*;
use crate::address::IpAddress;

verus! {

/// One row of the status document: a local address and the WAN slot name
/// (`"wan0"` or `"wan1"`) that it leaves through.
pub struct MappingEntry {
    pub local: IpAddress,
    pub wan: String,
}

/// The two WAN labels and the local-address table, as one refresh delivered
/// them. Replaced wholesale, never edited.
pub struct InterfaceMapping {
    pub wan0_label: String,
    pub wan1_label: String,
    pub entries: Vec<MappingEntry>,
}

pub open spec fn wan1_name() -> Seq<char> {
    seq!['w', 'a', 'n', '1']
}

pub open spec fn unknown_label() -> Seq<char> {
    seq!['u', 'n', 'k', 'n', 'o', 'w', 'n']
}

/// The slot name of the first entry for `a`, if any.
pub open spec fn lookup(es: Seq<MappingEntry>, a: IpAddress) -> Option<Seq<char>>
    decreases es.len(),
{
    if es.len() == 0 {
        None
    } else if es[0].local == a {
        Some(es[0].wan@)
    } else {
        lookup(es.drop_first(), a)
    }
}

/// The label that `resolveInterface` gives `a` under mapping `m`: wan1's
/// label where the table says `"wan1"`, wan0's label otherwise, and
/// `"unknown"` while no mapping has been loaded.
pub open spec fn resolve_spec(m: Option<InterfaceMapping>, a: IpAddress) -> Seq<char> {
    match m {
        None => unknown_label(),
        Some(m) => if lookup(m.entries@, a) == Some(wan1_name()) {
            m.wan1_label@
        } else {
            m.wan0_label@
        },
    }
}

/// What the store holds after a refresh attempt whose outcome is `fetched`
/// (`None`: the fetch or the parse failed).
pub open spec fn refresh_spec(current: Option<InterfaceMapping>, fetched: Option<InterfaceMapping>) -> Option<InterfaceMapping> {
    match fetched {
        Some(m) => Some(m),
        None => current,
    }
}

fn is_wan1(s: &String) -> (r: bool)
    ensures
        r == (s@ == wan1_name()),
{
    let w: String = "wan1".to_owned();
    proof {
        reveal_strlit("wan1");
        assert(w@ =~= wan1_name());
    }
    *s == w
}

impl InterfaceMapping {
    pub fn new(wan0_label: String, wan1_label: String, entries: Vec<MappingEntry>) -> (r: InterfaceMapping)
        ensures
            r.wan0_label == wan0_label,
            r.wan1_label == wan1_label,
            r.entries@ == entries@,
    {
        InterfaceMapping { wan0_label, wan1_label, entries }
    }

    /// The slot name of the first entry for `a`.
    pub fn slot_of(&self, a: IpAddress) -> (r: Option<&String>)
        ensures
            match r {
                Some(w) => lookup(self.entries@, a) == Some(w@),
                None => lookup(self.entries@, a) is None,
            },
    {
        let mut i: usize = 0;
        assert(self.entries@.subrange(0, self.entries@.len() as int) == self.entries@);
        while i < self.entries.len()
            invariant
                i <= self.entries@.len(),
                lookup(self.entries@, a) == lookup(self.entries@.subrange(i as int, self.entries@.len() as int), a),
            decreases self.entries@.len() - i,
        {
            let ghost rest = self.entries@.subrange(i as int, self.entries@.len() as int);
            if self.entries[i].local == a {
                return Some(&self.entries[i].wan);
            }
            proof {
                assert(rest.drop_first() == self.entries@.subrange(i + 1, self.entries@.len() as int));
            }
            i = i + 1;
        }
        None
    }
}

/// Interface Mapping Store: the latest mapping, or none before the first
/// successful refresh.
pub struct MappingStore {
    pub current: Option<InterfaceMapping>,
}

impl MappingStore {
    pub fn new() -> (r: MappingStore)
        ensures
            r.current is None,
    {
        MappingStore { current: None }
    }

    /// `resolveInterface`: the label of the WAN interface that serves `local`.
    pub fn resolve_interface(&self, local: IpAddress) -> (r: String)
        ensures
            r@ == resolve_spec(self.current, local),
    {
        match &self.current {
            None => {
                proof {
                    reveal_strlit("unknown");
                }
                let r: String = "unknown".to_owned();
                assert(r@ =~= unknown_label());
                r
            },
            Some(m) => {
                let slot = m.slot_of(local);
                match slot {
                    Some(w) => {
                        if is_wan1(w) {
                            m.wan1_label.clone()
                        } else {
                            m.wan0_label.clone()
                        }
                    },
                    None => m.wan0_label.clone(),
                }
            },
        }
    }

    /// Applies the outcome of one refresh: a parsed mapping replaces the
    /// current one whole; a failure (`None`) leaves the store as it was.
    pub fn apply_refresh(&mut self, fetched: Option<InterfaceMapping>)
        ensures
            final(self).current == refresh_spec(old(self).current, fetched),
    {
        match fetched {
            Some(m) => {
                self.current = Some(m);
            },
            None => {},
        }
    }
}

/// A failed refresh changes no resolution: every address resolves to the
/// same label before and after it.
pub proof fn lemma_failed_refresh_keeps_resolution(current: Option<InterfaceMapping>, a: IpAddress)
    ensures
        resolve_spec(refresh_spec(current, None), a) == resolve_spec(current, a),
{
}

} // verus!
