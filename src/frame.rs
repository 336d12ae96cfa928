use vstd::prelude::*;
use crate::address::IpAddress;

verus! {

/// Length of the link-layer (Ethernet) header.
pub const LINK_HEADER_LEN: usize = 14;

/// Smallest v4 header; a shorter payload is not a v4 packet.
pub const V4_HEADER_LEN: usize = 20;

/// Fixed v6 header; a shorter payload is not a v6 packet.
pub const V6_HEADER_LEN: usize = 40;

pub const ETHERTYPE_V4: u16 = 0x0800;

pub const ETHERTYPE_V6: u16 = 0x86dd;

/// What the classifier keeps of a frame.
#[derive(Clone, Copy, Debug, PartialEq, Eq, Structural)]
pub struct ParsedFrame {
    pub source: IpAddress,
    pub destination: IpAddress,
    /// Length of the network-layer packet: everything after the link header.
    pub length: u64,
}

/// Big-endian value of a byte sequence.
pub open spec fn be_value(s: Seq<u8>) -> nat
    decreases s.len(),
{
    if s.len() == 0 {
        0
    } else {
        be_value(s.drop_last()) * 256 + s.last() as nat
    }
}

pub open spec fn pow256(n: nat) -> nat
    decreases n,
{
    if n == 0 {
        1
    } else {
        pow256((n - 1) as nat) * 256
    }
}

/// The frame's classification: `None` when it is truncated or carries a
/// payload type other than v4 or v6.
pub open spec fn frame_spec(f: Seq<u8>) -> Option<ParsedFrame> {
    if f.len() < LINK_HEADER_LEN {
        None
    } else {
        let ethertype = f[12] as nat * 256 + f[13] as nat;
        let payload = f.len() - LINK_HEADER_LEN;
        let length = payload as u64;
        if ethertype == ETHERTYPE_V4 as nat && payload >= V4_HEADER_LEN {
            Some(ParsedFrame {
                source: IpAddress::V4(be_value(f.subrange(26, 30)) as u32),
                destination: IpAddress::V4(be_value(f.subrange(30, 34)) as u32),
                length,
            })
        } else if ethertype == ETHERTYPE_V6 as nat && payload >= V6_HEADER_LEN {
            Some(ParsedFrame {
                source: IpAddress::V6(be_value(f.subrange(22, 38)) as u128),
                destination: IpAddress::V6(be_value(f.subrange(38, 54)) as u128),
                length,
            })
        } else {
            None
        }
    }
}

proof fn lemma_be_bound(s: Seq<u8>)
    ensures
        be_value(s) < pow256(s.len()),
    decreases s.len(),
{
    if s.len() > 0 {
        lemma_be_bound(s.drop_last());
        let a = be_value(s.drop_last());
        let p = pow256((s.len() - 1) as nat);
        let b = s.last() as nat;
        assert(a * 256 + b < p * 256) by (nonlinear_arith)
            requires
                a < p,
                b < 256,
        ;
    }
}

/// Reads `n` bytes from `start` as a big-endian number.
fn read_be(f: &[u8], start: usize, n: usize) -> (r: u128)
    requires
        n <= 16,
        start + n <= f@.len(),
    ensures
        r as nat == be_value(f@.subrange(start as int, start + n)),
{
    let mut v: u128 = 0;
    let mut i: usize = 0;
    while i < n
        invariant
            i <= n <= 16,
            start + n <= f.len(),
            v as nat == be_value(f@.subrange(start as int, start + i)),
        decreases n - i,
    {
        proof {
            let s = f@.subrange(start as int, start + i);
            lemma_be_bound(s);
            assert(pow256(i as nat) <= pow256(15)) by {
                lemma_pow256_mono(i as nat, 15);
            }
            assert(pow256(15) == 0x1_0000_0000_0000_0000_0000_0000_0000_00_u128 as nat) by {
                reveal_with_fuel(pow256, 16);
            }
            assert(v * 256 + 255 <= u128::MAX);
            assert(f@.subrange(start as int, start + i + 1).drop_last() == s);
        }
        v = v * 256 + f[start + i] as u128;
        i = i + 1;
    }
    v
}

proof fn lemma_pow256_mono(a: nat, b: nat)
    requires
        a <= b,
    ensures
        pow256(a) <= pow256(b),
    decreases b - a,
{
    if a < b {
        lemma_pow256_mono(a, (b - 1) as nat);
    }
}

/// Frame Classifier: source, destination and packet length of a v4 or v6
/// frame; `None` for anything else, never an error.
pub fn parse_frame(frame: &[u8]) -> (r: Option<ParsedFrame>)
    ensures
        r == frame_spec(frame@),
{
    if frame.len() < LINK_HEADER_LEN {
        return None;
    }
    let ethertype: u16 = frame[12] as u16 * 256 + frame[13] as u16;
    let payload: usize = frame.len() - LINK_HEADER_LEN;
    let length: u64 = payload as u64;
    if ethertype == ETHERTYPE_V4 && payload >= V4_HEADER_LEN {
        let s = read_be(frame, 26, 4);
        let d = read_be(frame, 30, 4);
        Some(ParsedFrame { source: IpAddress::V4(s as u32), destination: IpAddress::V4(d as u32), length })
    } else if ethertype == ETHERTYPE_V6 && payload >= V6_HEADER_LEN {
        let s = read_be(frame, 22, 16);
        let d = read_be(frame, 38, 16);
        Some(ParsedFrame { source: IpAddress::V6(s), destination: IpAddress::V6(d), length })
    } else {
        None
    }
}

} // verus!
