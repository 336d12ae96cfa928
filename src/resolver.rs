use vstd::prelude::*;
use crate::address::{IpAddress, LocalNetworks};
use crate::frame::{frame_spec, parse_frame, ParsedFrame};
use crate::mapping::{resolve_spec, InterfaceMapping, MappingStore};
use crate::window::{record_spec, Counters, Direction, KeyView, TrafficKey, WindowAggregator};

verus! {

/// Direction of a frame from the locality of its ends: local to remote is an
/// upload, remote to local a download; `None` (ignored) when both ends are on
/// the same side.
pub open spec fn classify_spec(src_local: bool, dst_local: bool) -> Option<Direction> {
    if src_local && !dst_local {
        Some(Direction::Upload)
    } else if !src_local && dst_local {
        Some(Direction::Download)
    } else {
        None
    }
}

/// Direction, key and length that a parsed frame is attributed to: the key
/// holds the remote end and the label that the local end resolves to.
pub open spec fn attribution_spec(nets: LocalNetworks, mapping: Option<InterfaceMapping>, f: ParsedFrame) -> Option<(Direction, KeyView, u64)> {
    match classify_spec(nets.spec_is_local(f.source), nets.spec_is_local(f.destination)) {
        Some(Direction::Upload) => Some((Direction::Upload, (f.destination, resolve_spec(mapping, f.source)), f.length)),
        Some(Direction::Download) => Some((Direction::Download, (f.source, resolve_spec(mapping, f.destination)), f.length)),
        None => None,
    }
}

/// The window after one captured frame: a dropped or ignored frame leaves it
/// as it was, any other feeds exactly one counter.
pub open spec fn frame_effect(m: Map<KeyView, Counters>, nets: LocalNetworks, mapping: Option<InterfaceMapping>, bytes: Seq<u8>) -> Map<KeyView, Counters> {
    match frame_spec(bytes) {
        None => m,
        Some(f) => match attribution_spec(nets, mapping, f) {
            None => m,
            Some((d, k, len)) => record_spec(m, d, k, len),
        },
    }
}

/// A frame attributed to a key.
pub struct Attribution {
    pub direction: Direction,
    pub key: TrafficKey,
    pub length: u64,
}

pub fn classify(nets: &LocalNetworks, source: IpAddress, destination: IpAddress) -> (r: Option<Direction>)
    requires
        nets.wf(),
    ensures
        r == classify_spec(nets.spec_is_local(source), nets.spec_is_local(destination)),
{
    let s = nets.is_local(source);
    let d = nets.is_local(destination);
    if s && !d {
        Some(Direction::Upload)
    } else if !s && d {
        Some(Direction::Download)
    } else {
        None
    }
}

/// Direction Resolver: the attribution of a parsed frame, or `None` where it
/// is ignored.
pub fn attribute(nets: &LocalNetworks, store: &MappingStore, f: &ParsedFrame) -> (r: Option<Attribution>)
    requires
        nets.wf(),
    ensures
        match r {
            Some(a) => attribution_spec(*nets, store.current, *f) == Some((a.direction, a.key@, a.length)),
            None => attribution_spec(*nets, store.current, *f) is None,
        },
{
    match classify(nets, f.source, f.destination) {
        Some(Direction::Upload) => {
            let label = store.resolve_interface(f.source);
            Some(Attribution { direction: Direction::Upload, key: TrafficKey::new(f.destination, label), length: f.length })
        },
        Some(Direction::Download) => {
            let label = store.resolve_interface(f.destination);
            Some(Attribution { direction: Direction::Download, key: TrafficKey::new(f.source, label), length: f.length })
        },
        None => None,
    }
}

/// One step of the capture path: classify the raw frame, attribute it, and
/// count it in the window. Returns whether the frame was counted.
pub fn process_frame(agg: &mut WindowAggregator, nets: &LocalNetworks, store: &MappingStore, frame: &[u8]) -> (r: bool)
    requires
        old(agg).wf(),
        nets.wf(),
    ensures
        final(agg).wf(),
        final(agg)@ == frame_effect(old(agg)@, *nets, store.current, frame@),
        r == (frame_spec(frame@) matches Some(f) && attribution_spec(*nets, store.current, f) is Some),
{
    match parse_frame(frame) {
        None => false,
        Some(f) => match attribute(nets, store, &f) {
            None => false,
            Some(a) => {
                agg.record_bytes(a.direction, a.key, a.length);
                true
            },
        },
    }
}

/// Frames whose two ends are both local, or both remote, change no counter
/// and create no key.
pub proof fn lemma_same_side_frame_ignored(m: Map<KeyView, Counters>, nets: LocalNetworks, mapping: Option<InterfaceMapping>, bytes: Seq<u8>)
    requires
        frame_spec(bytes) matches Some(f) && nets.spec_is_local(f.source) == nets.spec_is_local(f.destination),
    ensures
        frame_effect(m, nets, mapping, bytes) == m,
{
}

} // verus!
