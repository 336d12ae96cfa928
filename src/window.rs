use vstd::prelude::*;
use crate::address::IpAddress;

verus! {

/// Which counter a frame feeds: bytes from a remote peer (download) or to it
/// (upload).
#[derive(Clone, Copy, Debug, PartialEq, Eq, Structural)]
pub enum Direction {
    Download,
    Upload,
}

/// One reporting slot: the remote peer and the label of the WAN interface.
pub struct TrafficKey {
    pub remote: IpAddress,
    pub interface: String,
}

pub type KeyView = (IpAddress, Seq<char>);

impl View for TrafficKey {
    type V = KeyView;

    open spec fn view(&self) -> KeyView {
        (self.remote, self.interface@)
    }
}

impl TrafficKey {
    pub fn new(remote: IpAddress, interface: String) -> (r: TrafficKey)
        ensures
            r@ == (remote, interface@),
    {
        TrafficKey { remote, interface }
    }

    /// Equality by value.
    pub fn same(&self, o: &TrafficKey) -> (r: bool)
        ensures
            r == (self@ == o@),
    {
        self.remote == o.remote && self.interface == o.interface
    }

    pub fn duplicate(&self) -> (r: TrafficKey)
        ensures
            r@ == self@,
    {
        TrafficKey { remote: self.remote, interface: self.interface.clone() }
    }
}

/// The two byte counters of one key within a window.
#[derive(Clone, Copy, Debug, PartialEq, Eq, Structural)]
pub struct Counters {
    pub download: u64,
    pub upload: u64,
}

pub open spec fn zero_counters() -> Counters {
    Counters { download: 0, upload: 0 }
}

/// `a + b`, held at `u64::MAX` where it would not fit.
pub open spec fn add_sat(a: u64, b: u64) -> u64 {
    if a + b > u64::MAX {
        u64::MAX
    } else {
        (a + b) as u64
    }
}

/// The counters after `len` more bytes in direction `dir`.
pub open spec fn bump(c: Counters, dir: Direction, len: u64) -> Counters {
    match dir {
        Direction::Download => Counters { download: add_sat(c.download, len), upload: c.upload },
        Direction::Upload => Counters { download: c.download, upload: add_sat(c.upload, len) },
    }
}

/// The field of `c` that direction `dir` feeds.
pub open spec fn field(c: Counters, dir: Direction) -> u64 {
    match dir {
        Direction::Download => c.download,
        Direction::Upload => c.upload,
    }
}

/// The counters of `k` in window `m`: zero where `k` has none.
pub open spec fn count_of(m: Map<KeyView, Counters>, k: KeyView) -> Counters {
    if m.contains_key(k) {
        m[k]
    } else {
        zero_counters()
    }
}

/// The window after `recordBytes(dir, k, len)`.
pub open spec fn record_spec(m: Map<KeyView, Counters>, dir: Direction, k: KeyView, len: u64) -> Map<KeyView, Counters> {
    m.insert(k, bump(count_of(m, k), dir, len))
}

/// The shard, among `n`, that holds key `k`: its remote address modulo `n`.
/// It depends on the key alone, so every record and every reset of one key
/// meets the same shard.
pub open spec fn shard_spec(k: KeyView, n: nat) -> nat {
    match k.0 {
        IpAddress::V4(x) => (x as nat) % n,
        IpAddress::V6(x) => (x as nat) % n,
    }
}

/// Picks the shard of a counter store split `shards` ways.
pub fn shard_of(key: &TrafficKey, shards: usize) -> (r: usize)
    requires
        shards > 0,
    ensures
        r < shards,
        r as nat == shard_spec(key@, shards as nat),
{
    match key.remote {
        IpAddress::V4(x) => (x as u128 % shards as u128) as usize,
        IpAddress::V6(x) => (x % shards as u128) as usize,
    }
}

/// One entry of a snapshot, and one gauge update of the publisher.
pub struct WindowSample {
    pub key: TrafficKey,
    pub download: u64,
    pub upload: u64,
}

impl WindowSample {
    pub open spec fn counters(&self) -> Counters {
        Counters { download: self.download, upload: self.upload }
    }
}

/// `r` lists each key of window `m` with a nonzero counter exactly once,
/// with its counters, and nothing else.
pub open spec fn samples_match(r: Seq<WindowSample>, m: Map<KeyView, Counters>) -> bool {
    &&& forall|i: int, j: int| 0 <= i < j < r.len() ==> (#[trigger] r[i]).key@ != (#[trigger] r[j]).key@
    &&& forall|i: int| 0 <= i < r.len() ==> {
        &&& m.contains_key((#[trigger] r[i]).key@)
        &&& m[r[i].key@] == r[i].counters()
        &&& r[i].counters() != zero_counters()
    }
    &&& forall|k: KeyView| #[trigger] m.contains_key(k) && m[k] != zero_counters() ==>
        exists|i: int| 0 <= i < r.len() && (#[trigger] r[i]).key@ == k
}

/// The counters that snapshot `r` reports for `k`: zero where it omits `k`.
pub open spec fn reported(r: Seq<WindowSample>, k: KeyView) -> Counters {
    if exists|i: int| 0 <= i < r.len() && (#[trigger] r[i]).key@ == k {
        r[choose|i: int| 0 <= i < r.len() && (#[trigger] r[i]).key@ == k].counters()
    } else {
        zero_counters()
    }
}

/// A snapshot reports, for every key, exactly the counters that the window
/// held for it.
pub proof fn lemma_reported_is_window(r: Seq<WindowSample>, m: Map<KeyView, Counters>, k: KeyView)
    requires
        samples_match(r, m),
    ensures
        reported(r, k) == count_of(m, k),
{
    if exists|i: int| 0 <= i < r.len() && (#[trigger] r[i]).key@ == k {
        let i = choose|i: int| 0 <= i < r.len() && (#[trigger] r[i]).key@ == k;
        assert(m.contains_key(r[i].key@));
    } else if m.contains_key(k) && m[k] != zero_counters() {
        assert(exists|i: int| 0 <= i < r.len() && (#[trigger] r[i]).key@ == k);
    }
}

/// Two records for one key and direction within a window add up: the
/// counter grows by the sum of both lengths, not by the last one.
pub proof fn lemma_two_records_sum(m: Map<KeyView, Counters>, dir: Direction, k: KeyView, a: u64, b: u64)
    requires
        field(count_of(m, k), dir) + a + b <= u64::MAX,
    ensures
        field(count_of(record_spec(record_spec(m, dir, k, a), dir, k, b), k), dir)
            == field(count_of(m, k), dir) + a + b,
{
}

/// After a reset the window is empty; one record of `len` bytes then gives
/// the key exactly `len` in that direction and zero in the other.
pub proof fn lemma_reset_then_one_record(dir: Direction, k: KeyView, len: u64)
    ensures
        field(count_of(record_spec(Map::empty(), dir, k, len), k), dir) == len,
        count_of(record_spec(Map::empty(), dir, k, len), k) == bump(zero_counters(), dir, len),
{
}

/// A snapshot of a window into which nothing was recorded since the last
/// reset is empty, however often it is taken.
pub proof fn lemma_snapshot_of_reset_window_is_empty(r: Seq<WindowSample>)
    requires
        samples_match(r, Map::empty()),
    ensures
        r.len() == 0,
{
    if r.len() > 0 {
        assert(Map::<KeyView, Counters>::empty().contains_key(r[0].key@));
    }
}

/// The window after a sequence of `recordBytes` calls, in order.
pub open spec fn apply_records(m: Map<KeyView, Counters>, rs: Seq<(Direction, KeyView, u64)>) -> Map<KeyView, Counters>
    decreases rs.len(),
{
    if rs.len() == 0 {
        m
    } else {
        let last = rs.last();
        record_spec(apply_records(m, rs.drop_last()), last.0, last.1, last.2)
    }
}

/// The bytes that the calls of `rs` attribute to `k` in direction `dir`.
pub open spec fn total_bytes(rs: Seq<(Direction, KeyView, u64)>, dir: Direction, k: KeyView) -> nat
    decreases rs.len(),
{
    if rs.len() == 0 {
        0
    } else {
        let last = rs.last();
        total_bytes(rs.drop_last(), dir, k) + if last.0 == dir && last.1 == k {
            last.2 as nat
        } else {
            0
        }
    }
}

proof fn lemma_apply_total(rs: Seq<(Direction, KeyView, u64)>, dir: Direction, k: KeyView)
    requires
        total_bytes(rs, dir, k) <= u64::MAX,
    ensures
        field(count_of(apply_records(Map::empty(), rs), k), dir) == total_bytes(rs, dir, k),
    decreases rs.len(),
{
    if rs.len() > 0 {
        lemma_apply_total(rs.drop_last(), dir, k);
    }
}

proof fn lemma_split_total(rs: Seq<(Direction, KeyView, u64)>, j: int, dir: Direction, k: KeyView)
    requires
        0 <= j <= rs.len(),
    ensures
        total_bytes(rs.take(j), dir, k) + total_bytes(rs.skip(j), dir, k) == total_bytes(rs, dir, k),
    decreases rs.len(),
{
    if j == rs.len() {
        assert(rs.take(j) == rs);
        assert(rs.skip(j).len() == 0);
    } else {
        lemma_split_total(rs.drop_last(), j, dir, k);
        assert(rs.drop_last().take(j) == rs.take(j));
        assert(rs.skip(j).drop_last() == rs.drop_last().skip(j));
        assert(rs.skip(j).last() == rs.last());
    }
}

/// Exact accounting across a reset: the calls of `rs` run in order, a
/// snapshot is taken after the first `j` of them (`before`) and another after
/// the rest (`after`). For every key and direction the two snapshots together
/// report exactly the bytes recorded, none lost and none counted twice.
pub proof fn lemma_reset_boundary_exact(
    rs: Seq<(Direction, KeyView, u64)>,
    j: int,
    before: Seq<WindowSample>,
    after: Seq<WindowSample>,
    dir: Direction,
    k: KeyView,
)
    requires
        0 <= j <= rs.len(),
        samples_match(before, apply_records(Map::empty(), rs.take(j))),
        samples_match(after, apply_records(Map::empty(), rs.skip(j))),
        total_bytes(rs, dir, k) <= u64::MAX,
    ensures
        field(reported(before, k), dir) + field(reported(after, k), dir) == total_bytes(rs, dir, k),
{
    lemma_split_total(rs, j, dir, k);
    lemma_apply_total(rs.take(j), dir, k);
    lemma_apply_total(rs.skip(j), dir, k);
    lemma_reported_is_window(before, apply_records(Map::empty(), rs.take(j)), k);
    lemma_reported_is_window(after, apply_records(Map::empty(), rs.skip(j)), k);
}

/// Window Aggregator: the byte counters of the current window, one pair per
/// key.
pub struct WindowAggregator {
    keys: Vec<TrafficKey>,
    counters: Vec<Counters>,
    window: Ghost<Map<KeyView, Counters>>,
}

impl View for WindowAggregator {
    type V = Map<KeyView, Counters>;

    closed spec fn view(&self) -> Map<KeyView, Counters> {
        self.window@
    }
}

impl WindowAggregator {
    pub closed spec fn wf(&self) -> bool {
        &&& self.keys@.len() == self.counters@.len()
        &&& forall|i: int, j: int| 0 <= i < j < self.keys@.len() ==> (#[trigger] self.keys@[i])@ != (#[trigger] self.keys@[j])@
        &&& forall|i: int| 0 <= i < self.keys@.len() ==> {
            &&& self.window@.contains_key((#[trigger] self.keys@[i])@)
            &&& self.window@[self.keys@[i]@] == self.counters@[i]
        }
        &&& forall|k: KeyView| #[trigger] self.window@.contains_key(k) ==>
            exists|i: int| 0 <= i < self.keys@.len() && (#[trigger] self.keys@[i])@ == k
    }

    pub fn new() -> (r: WindowAggregator)
        ensures
            r.wf(),
            r@ == Map::<KeyView, Counters>::empty(),
    {
        WindowAggregator { keys: Vec::new(), counters: Vec::new(), window: Ghost(Map::empty()) }
    }

    /// The counters of `k` in the current window.
    pub fn counters_of(&self, k: &TrafficKey) -> (r: Counters)
        requires
            self.wf(),
        ensures
            r == count_of(self@, k@),
    {
        match self.find(k) {
            Some(i) => self.counters[i],
            None => Counters { download: 0, upload: 0 },
        }
    }

    fn find(&self, k: &TrafficKey) -> (r: Option<usize>)
        requires
            self.wf(),
        ensures
            match r {
                Some(i) => i < self.keys@.len() && self.keys@[i as int]@ == k@,
                None => !self@.contains_key(k@),
            },
    {
        let mut i: usize = 0;
        while i < self.keys.len()
            invariant
                self.wf(),
                i <= self.keys@.len(),
                forall|j: int| 0 <= j < i ==> (#[trigger] self.keys@[j])@ != k@,
            decreases self.keys@.len() - i,
        {
            if self.keys[i].same(k) {
                return Some(i);
            }
            i = i + 1;
        }
        None
    }

    /// `recordBytes`: adds `length` to the `dir` counter of `key`, creating
    /// the pair at zero first where the key is new to the window. A counter
    /// that would pass `u64::MAX` stays there.
    pub fn record_bytes(&mut self, dir: Direction, key: TrafficKey, length: u64)
        requires
            old(self).wf(),
        ensures
            final(self).wf(),
            final(self)@ == record_spec(old(self)@, dir, key@, length),
    {
        let ghost k = key@;
        match self.find(&key) {
            Some(i) => {
                let c = self.counters[i];
                let n = match dir {
                    Direction::Download => Counters { download: c.download.saturating_add(length), upload: c.upload },
                    Direction::Upload => Counters { download: c.download, upload: c.upload.saturating_add(length) },
                };
                self.counters[i] = n;
                self.window = Ghost(self.window@.insert(k, n));
                proof {
                    assert forall|j: int| 0 <= j < self.keys@.len() implies {
                        &&& self.window@.contains_key((#[trigger] self.keys@[j])@)
                        &&& self.window@[self.keys@[j]@] == self.counters@[j]
                    } by {
                        if j != i as int {
                            assert(self.keys@[j]@ != self.keys@[i as int]@);
                        }
                    }
                    assert forall|kk: KeyView| #[trigger] self.window@.contains_key(kk) implies
                        exists|j: int| 0 <= j < self.keys@.len() && (#[trigger] self.keys@[j])@ == kk by {
                        if kk == k {
                            assert(self.keys@[i as int]@ == kk);
                        }
                    }
                }
            },
            None => {
                let n = match dir {
                    Direction::Download => Counters { download: length, upload: 0 },
                    Direction::Upload => Counters { download: 0, upload: length },
                };
                self.keys.push(key);
                self.counters.push(n);
                self.window = Ghost(self.window@.insert(k, n));
                proof {
                    let last = self.keys@.len() - 1;
                    assert(self.keys@[last]@ == k);
                    assert forall|kk: KeyView| #[trigger] self.window@.contains_key(kk) implies
                        exists|j: int| 0 <= j < self.keys@.len() && (#[trigger] self.keys@[j])@ == kk by {
                        if kk != k {
                            let j = choose|j: int| 0 <= j < old(self).keys@.len() && (#[trigger] old(self).keys@[j])@ == kk;
                            assert(self.keys@[j] == old(self).keys@[j]);
                        }
                    }
                }
            },
        }
    }

    /// `snapshotAndReset`: every key with a nonzero counter, with its
    /// counters; the window is then empty.
    pub fn snapshot_and_reset(&mut self) -> (r: Vec<WindowSample>)
        requires
            old(self).wf(),
        ensures
            final(self).wf(),
            final(self)@ == Map::<KeyView, Counters>::empty(),
            samples_match(r@, old(self)@),
    {
        let mut r: Vec<WindowSample> = Vec::new();
        let ghost mut idx: Seq<int> = Seq::empty();
        let mut i: usize = 0;
        while i < self.keys.len()
            invariant
                self.wf(),
                i <= self.keys@.len(),
                idx.len() == r@.len(),
                forall|j: int| 0 <= j < r@.len() ==> {
                    &&& 0 <= #[trigger] idx[j] < i
                    &&& r@[j].key@ == self.keys@[idx[j]]@
                    &&& r@[j].counters() == self.counters@[idx[j]]
                    &&& r@[j].counters() != zero_counters()
                },
                forall|a: int, b: int| 0 <= a < b < r@.len() ==> #[trigger] idx[a] < #[trigger] idx[b],
                forall|l: int| 0 <= l < i && #[trigger] self.counters@[l] != zero_counters() ==>
                    exists|j: int| 0 <= j < r@.len() && idx[j] == l,
            decreases self.keys@.len() - i,
        {
            let c = self.counters[i];
            if c.download != 0 || c.upload != 0 {
                let s = WindowSample { key: self.keys[i].duplicate(), download: c.download, upload: c.upload };
                r.push(s);
                proof {
                    let prev = idx;
                    idx = idx.push(i as int);
                    assert forall|l: int| 0 <= l < i + 1 && #[trigger] self.counters@[l] != zero_counters() implies
                        exists|j: int| 0 <= j < r@.len() && idx[j] == l by {
                        if l == i as int {
                            assert(idx[r@.len() - 1] == l);
                        } else {
                            let j = choose|j: int| 0 <= j < prev.len() && prev[j] == l;
                            assert(idx[j] == prev[j]);
                        }
                    }
                }
            }
            i = i + 1;
        }
        proof {
            let m = self@;
            assert forall|a: int, b: int| 0 <= a < b < r@.len() implies (#[trigger] r@[a]).key@ != (#[trigger] r@[b]).key@ by {
                assert(idx[a] < idx[b]);
            }
            assert forall|j: int| 0 <= j < r@.len() implies {
                &&& m.contains_key((#[trigger] r@[j]).key@)
                &&& m[r@[j].key@] == r@[j].counters()
                &&& r@[j].counters() != zero_counters()
            } by {
                assert(0 <= idx[j] < self.keys@.len());
            }
            assert forall|k: KeyView| #[trigger] m.contains_key(k) && m[k] != zero_counters() implies
                exists|j: int| 0 <= j < r@.len() && (#[trigger] r@[j]).key@ == k by {
                let l = choose|l: int| 0 <= l < self.keys@.len() && (#[trigger] self.keys@[l])@ == k;
                assert(self.counters@[l] != zero_counters());
                let j = choose|j: int| 0 <= j < r@.len() && idx[j] == l;
                assert(r@[j].key@ == k);
            }
        }
        self.keys = Vec::new();
        self.counters = Vec::new();
        self.window = Ghost(Map::empty());
        r
    }
}

} // verus!
