use vstd::prelude::*;

verus! {

/// A network-layer address, v4 or v6, as its numeric value.
#[derive(Clone, Copy, Debug, PartialEq, Eq, Hash, Structural)]
pub enum IpAddress {
    V4(u32),
    V6(u128),
}

/// A CIDR-style range: a base address and the number of leading bits that
/// every member shares with it.
#[derive(Clone, Copy, Debug, PartialEq, Eq, Structural)]
pub struct Cidr {
    pub base: IpAddress,
    pub prefix: u8,
}

impl Cidr {
    /// The prefix length fits the address family of the base.
    pub open spec fn wf(&self) -> bool {
        match self.base {
            IpAddress::V4(_) => self.prefix <= 32,
            IpAddress::V6(_) => self.prefix <= 128,
        }
    }

    /// `a` lies in the range: same family, and its leading `prefix` bits
    /// equal those of the base.
    pub open spec fn spec_contains(&self, a: IpAddress) -> bool {
        match (self.base, a) {
            (IpAddress::V4(n), IpAddress::V4(x)) =>
                self.prefix == 0 || n >> ((32 - self.prefix) as u32) == x >> ((32 - self.prefix) as u32),
            (IpAddress::V6(n), IpAddress::V6(x)) =>
                self.prefix == 0 || n >> ((128 - self.prefix) as u128) == x >> ((128 - self.prefix) as u128),
            _ => false,
        }
    }

    pub fn contains(&self, a: IpAddress) -> (r: bool)
        requires
            self.wf(),
        ensures
            r == self.spec_contains(a),
    {
        match (self.base, a) {
            (IpAddress::V4(n), IpAddress::V4(x)) => {
                if self.prefix == 0 {
                    true
                } else {
                    let shift: u32 = (32 - self.prefix) as u32;
                    n >> shift == x >> shift
                }
            },
            (IpAddress::V6(n), IpAddress::V6(x)) => {
                if self.prefix == 0 {
                    true
                } else {
                    let shift: u128 = (128 - self.prefix) as u128;
                    n >> shift == x >> shift
                }
            },
            _ => false,
        }
    }
}

/// What ipnetwork's parser makes of a range written as text.
pub uninterp spec fn cidr_of_text(s: Seq<char>) -> Option<Cidr>;

/// Relies on `ipnetwork::IpNetwork::from_str`: the range that the text
/// denotes, with its address as written and a prefix that fits the family
/// (`Ipv4Network::new` / `Ipv6Network::new` refuse any other).
#[verifier::external_body]
fn parse_cidr(s: &str) -> (r: Option<Cidr>)
    ensures
        r == cidr_of_text(s@),
        r matches Some(c) ==> c.wf(),
{
    match <ipnetwork::IpNetwork as core::str::FromStr>::from_str(s) {
        Ok(ipnetwork::IpNetwork::V4(n)) => Some(Cidr { base: IpAddress::V4(u32::from(n.ip())), prefix: n.prefix() }),
        Ok(ipnetwork::IpNetwork::V6(n)) => Some(Cidr { base: IpAddress::V6(u128::from(n.ip())), prefix: n.prefix() }),
        Err(_) => None,
    }
}

/// The ranges that define "local", in configuration order.
pub struct LocalNetworks {
    pub ranges: Vec<Cidr>,
}

/// Some range of `rs` contains `a`.
pub open spec fn in_any(rs: Seq<Cidr>, a: IpAddress) -> bool {
    exists|i: int| 0 <= i < rs.len() && (#[trigger] rs[i]).spec_contains(a)
}

/// The ranges that parse, in order, from a list of texts.
pub open spec fn parsed_ranges(texts: Seq<Seq<char>>) -> Seq<Cidr>
    decreases texts.len(),
{
    if texts.len() == 0 {
        Seq::empty()
    } else {
        let rest = parsed_ranges(texts.drop_last());
        match cidr_of_text(texts.last()) {
            Some(c) => rest.push(c),
            None => rest,
        }
    }
}

impl LocalNetworks {
    pub open spec fn wf(&self) -> bool {
        forall|i: int| 0 <= i < self.ranges@.len() ==> (#[trigger] self.ranges@[i]).wf()
    }

    pub open spec fn spec_is_local(&self, a: IpAddress) -> bool {
        in_any(self.ranges@, a)
    }

    pub fn new(ranges: Vec<Cidr>) -> (r: LocalNetworks)
        requires
            forall|i: int| 0 <= i < ranges@.len() ==> (#[trigger] ranges@[i]).wf(),
        ensures
            r.ranges@ == ranges@,
            r.wf(),
    {
        LocalNetworks { ranges }
    }

    /// Builds the table from range texts; a text that does not parse is
    /// left out and the others are kept in order.
    pub fn from_texts(texts: &Vec<String>) -> (r: LocalNetworks)
        ensures
            r.wf(),
            r.ranges@ == parsed_ranges(texts@.map_values(|t: String| t@)),
    {
        let mut ranges: Vec<Cidr> = Vec::new();
        let ghost views = texts@.map_values(|t: String| t@);
        let mut i: usize = 0;
        while i < texts.len()
            invariant
                i <= texts@.len(),
                views == texts@.map_values(|t: String| t@),
                ranges@ == parsed_ranges(views.take(i as int)),
                forall|j: int| 0 <= j < ranges@.len() ==> (#[trigger] ranges@[j]).wf(),
            decreases texts@.len() - i,
        {
            let parsed = parse_cidr(texts[i].as_str());
            proof {
                assert(views.take(i as int + 1).drop_last() == views.take(i as int));
                assert(views.take(i as int + 1).last() == texts@[i as int]@);
            }
            match parsed {
                Some(c) => ranges.push(c),
                None => {},
            }
            i = i + 1;
        }
        proof {
            assert(views.take(texts@.len() as int) == views);
        }
        LocalNetworks { ranges }
    }

    /// `isLocal`: the address falls within some configured range.
    pub fn is_local(&self, a: IpAddress) -> (r: bool)
        requires
            self.wf(),
        ensures
            r == self.spec_is_local(a),
    {
        let mut i: usize = 0;
        while i < self.ranges.len()
            invariant
                self.wf(),
                i <= self.ranges@.len(),
                forall|j: int| 0 <= j < i ==> !(#[trigger] self.ranges@[j]).spec_contains(a),
            decreases self.ranges@.len() - i,
        {
            if self.ranges[i].contains(a) {
                return true;
            }
            i = i + 1;
        }
        false
    }
}

} // verus!
