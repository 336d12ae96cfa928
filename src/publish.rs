use vstd::prelude::*;
use crate::window::{samples_match, zero_counters, Counters, KeyView, TrafficKey, WindowAggregator, WindowSample};

verus! {

/// The keys that a sequence of samples names.
pub open spec fn keys_of(s: Seq<WindowSample>) -> Set<KeyView> {
    Set::new(|k: KeyView| exists|i: int| 0 <= i < s.len() && (#[trigger] s[i]).key@ == k)
}

/// `k` was seen in an earlier window and is silent in `samples`: its gauges
/// must be set to zero.
pub open spec fn silent_known(known: Set<KeyView>, samples: Seq<WindowSample>, k: KeyView) -> bool {
    known.contains(k) && !keys_of(samples).contains(k)
}

/// The known keys after each window of `ws` in turn has been published.
pub open spec fn known_after(known: Set<KeyView>, ws: Seq<Seq<WindowSample>>) -> Set<KeyView>
    decreases ws.len(),
{
    if ws.len() == 0 {
        known
    } else {
        known_after(known, ws.drop_last()).union(keys_of(ws.last()))
    }
}

/// KnownKeySet: every key that any snapshot has held. It only grows.
pub struct KnownKeys {
    keys: Vec<TrafficKey>,
}

impl View for KnownKeys {
    type V = Set<KeyView>;

    closed spec fn view(&self) -> Set<KeyView> {
        Set::new(|k: KeyView| exists|i: int| 0 <= i < self.keys@.len() && (#[trigger] self.keys@[i])@ == k)
    }
}

fn names_key(s: &Vec<WindowSample>, k: &TrafficKey) -> (r: bool)
    ensures
        r == keys_of(s@).contains(k@),
{
    let mut i: usize = 0;
    while i < s.len()
        invariant
            i <= s@.len(),
            forall|j: int| 0 <= j < i ==> (#[trigger] s@[j]).key@ != k@,
        decreases s@.len() - i,
    {
        if s[i].key.same(k) {
            assert(s@[i as int].key@ == k@);
            return true;
        }
        i = i + 1;
    }
    false
}

impl KnownKeys {
    /// No key is held twice.
    pub closed spec fn wf(&self) -> bool {
        forall|i: int, j: int| 0 <= i < j < self.keys@.len() ==> (#[trigger] self.keys@[i])@ != (#[trigger] self.keys@[j])@
    }

    pub fn new() -> (r: KnownKeys)
        ensures
            r.wf(),
            r@ == Set::<KeyView>::empty(),
    {
        let r = KnownKeys { keys: Vec::new() };
        assert(r@ =~= Set::<KeyView>::empty());
        r
    }

    pub fn contains(&self, k: &TrafficKey) -> (r: bool)
        ensures
            r == self@.contains(k@),
    {
        let mut i: usize = 0;
        while i < self.keys.len()
            invariant
                i <= self.keys@.len(),
                forall|j: int| 0 <= j < i ==> (#[trigger] self.keys@[j])@ != k@,
            decreases self.keys@.len() - i,
        {
            if self.keys[i].same(k) {
                assert(self.keys@[i as int]@ == k@);
                return true;
            }
            i = i + 1;
        }
        false
    }

    pub fn insert(&mut self, k: &TrafficKey)
        requires
            old(self).wf(),
        ensures
            final(self).wf(),
            final(self)@ == old(self)@.insert(k@),
    {
        if !self.contains(k) {
            self.keys.push(k.duplicate());
            proof {
                let last = self.keys@.len() - 1;
                assert(self.keys@[last]@ == k@);
                assert forall|i: int, j: int| 0 <= i < j < self.keys@.len() implies (#[trigger] self.keys@[i])@ != (#[trigger] self.keys@[j])@ by {
                    if j == last {
                        assert(old(self).keys@[i] == self.keys@[i]);
                        assert(old(self)@.contains(self.keys@[i]@));
                    }
                }
                assert forall|x: KeyView| #[trigger] old(self)@.contains(x) implies self@.contains(x) by {
                    let i = choose|i: int| 0 <= i < old(self).keys@.len() && (#[trigger] old(self).keys@[i])@ == x;
                    assert(self.keys@[i] == old(self).keys@[i]);
                }
                assert(self@ =~= old(self)@.insert(k@));
            }
        } else {
            assert(self@ =~= old(self)@.insert(k@));
        }
    }
}

/// Publisher, one tick past the snapshot: the gauge updates for the window
/// `samples`. First each sample as it stands, then `(key, 0, 0)` once for
/// every known key that is silent in this window. The sampled keys join the
/// known keys.
pub fn publish(samples: &Vec<WindowSample>, known: &mut KnownKeys) -> (r: Vec<WindowSample>)
    requires
        old(known).wf(),
    ensures
        final(known).wf(),
        final(known)@ == old(known)@.union(keys_of(samples@)),
        r@.len() >= samples@.len(),
        forall|i: int| 0 <= i < samples@.len() ==>
            (#[trigger] r@[i]).key@ == samples@[i].key@ && r@[i].counters() == samples@[i].counters(),
        forall|j: int| samples@.len() <= j < r@.len() ==>
            (#[trigger] r@[j]).counters() == zero_counters() && silent_known(old(known)@, samples@, r@[j].key@),
        forall|j1: int, j2: int| samples@.len() <= j1 < j2 < r@.len() ==> (#[trigger] r@[j1]).key@ != (#[trigger] r@[j2]).key@,
        forall|k: KeyView| silent_known(old(known)@, samples@, k) ==>
            exists|j: int| samples@.len() <= j < r@.len() && (#[trigger] r@[j]).key@ == k,
{
    let mut r: Vec<WindowSample> = Vec::new();
    let mut i: usize = 0;
    while i < samples.len()
        invariant
            i <= samples@.len(),
            r@.len() == i,
            forall|j: int| 0 <= j < i ==>
                (#[trigger] r@[j]).key@ == samples@[j].key@ && r@[j].counters() == samples@[j].counters(),
        decreases samples@.len() - i,
    {
        let s = &samples[i];
        r.push(WindowSample { key: s.key.duplicate(), download: s.download, upload: s.upload });
        i = i + 1;
    }
    let n = samples.len();
    let ghost mut idx: Seq<int> = Seq::empty();
    let mut i: usize = 0;
    while i < known.keys.len()
        invariant
            known.wf(),
            known@ == old(known)@,
            i <= known.keys@.len(),
            n == samples@.len(),
            r@.len() == n + idx.len(),
            forall|j: int| 0 <= j < n ==>
                (#[trigger] r@[j]).key@ == samples@[j].key@ && r@[j].counters() == samples@[j].counters(),
            forall|t: int| 0 <= t < idx.len() ==> {
                &&& 0 <= #[trigger] idx[t] < i
                &&& r@[n + t].key@ == known.keys@[idx[t]]@
                &&& r@[n + t].counters() == zero_counters()
                &&& !keys_of(samples@).contains(r@[n + t].key@)
            },
            forall|a: int, b: int| 0 <= a < b < idx.len() ==> #[trigger] idx[a] < #[trigger] idx[b],
            forall|l: int| 0 <= l < i && !keys_of(samples@).contains((#[trigger] known.keys@[l])@) ==>
                exists|t: int| 0 <= t < idx.len() && idx[t] == l,
        decreases known.keys@.len() - i,
    {
        if !names_key(samples, &known.keys[i]) {
            let k = known.keys[i].duplicate();
            let ghost r_before = r@;
            r.push(WindowSample { key: k, download: 0, upload: 0 });
            proof {
                let prev = idx;
                idx = idx.push(i as int);
                assert forall|t: int| 0 <= t < idx.len() implies {
                    &&& 0 <= #[trigger] idx[t] < i + 1
                    &&& r@[n + t].key@ == known.keys@[idx[t]]@
                    &&& r@[n + t].counters() == zero_counters()
                    &&& !keys_of(samples@).contains(r@[n + t].key@)
                } by {
                    if t < prev.len() {
                        assert(r@[n + t] == r_before[n + t]);
                        assert(idx[t] == prev[t]);
                    } else {
                        assert(r@[n + t] == r@[r@.len() - 1]);
                    }
                }
                assert forall|l: int| 0 <= l < i + 1 && !keys_of(samples@).contains((#[trigger] known.keys@[l])@) implies
                    exists|t: int| 0 <= t < idx.len() && idx[t] == l by {
                    if l == i as int {
                        assert(idx[idx.len() - 1] == l);
                    } else {
                        let t = choose|t: int| 0 <= t < prev.len() && prev[t] == l;
                        assert(idx[t] == prev[t]);
                    }
                }
            }
        }
        i = i + 1;
    }
    proof {
        assert forall|j: int| n <= j < r@.len() implies
            (#[trigger] r@[j]).counters() == zero_counters() && silent_known(old(known)@, samples@, r@[j].key@) by {
            let t = j - n;
            assert(r@[n + t] == r@[j]);
            assert(0 <= idx[t] < known.keys@.len());
            assert(known@.contains(known.keys@[idx[t]]@));
        }
        assert forall|j1: int, j2: int| n <= j1 < j2 < r@.len() implies (#[trigger] r@[j1]).key@ != (#[trigger] r@[j2]).key@ by {
            let t1 = j1 - n;
            let t2 = j2 - n;
            assert(r@[n + t1] == r@[j1]);
            assert(r@[n + t2] == r@[j2]);
            assert(idx[t1] < idx[t2]);
        }
        assert forall|k: KeyView| silent_known(old(known)@, samples@, k) implies
            exists|j: int| n <= j < r@.len() && (#[trigger] r@[j]).key@ == k by {
            let l = choose|l: int| 0 <= l < known.keys@.len() && (#[trigger] known.keys@[l])@ == k;
            let t = choose|t: int| 0 <= t < idx.len() && idx[t] == l;
            assert(r@[n + t].key@ == k);
        }
    }
    let mut i: usize = 0;
    while i < samples.len()
        invariant
            known.wf(),
            i <= samples@.len(),
            known@ == old(known)@.union(keys_of(samples@.take(i as int))),
        decreases samples@.len() - i,
    {
        known.insert(&samples[i].key);
        proof {
            let a = samples@.take(i as int);
            let b = samples@.take(i as int + 1);
            assert forall|k: KeyView| keys_of(b).contains(k) == keys_of(a).insert(samples@[i as int].key@).contains(k) by {
                if keys_of(a).contains(k) {
                    let j = choose|j: int| 0 <= j < a.len() && (#[trigger] a[j]).key@ == k;
                    assert(b[j] == a[j]);
                }
                if keys_of(b).contains(k) && k != samples@[i as int].key@ {
                    let j = choose|j: int| 0 <= j < b.len() && (#[trigger] b[j]).key@ == k;
                    assert(a[j] == b[j]);
                }
                if k == samples@[i as int].key@ {
                    assert(b[i as int] == samples@[i as int]);
                }
            }
            assert(keys_of(b) =~= keys_of(a).insert(samples@[i as int].key@));
            assert(known@ =~= old(known)@.union(keys_of(b)));
        }
        i = i + 1;
    }
    assert(samples@.take(samples@.len() as int) == samples@);
    r
}

/// Publisher tick: snapshot the window, reset it, and produce the gauge
/// updates for that snapshot.
pub fn publish_tick(agg: &mut WindowAggregator, known: &mut KnownKeys) -> (r: (Vec<WindowSample>, Vec<WindowSample>))
    requires
        old(agg).wf(),
        old(known).wf(),
    ensures
        final(agg).wf(),
        final(known).wf(),
        final(agg)@ == Map::<KeyView, Counters>::empty(),
        samples_match(r.0@, old(agg)@),
        final(known)@ == old(known)@.union(keys_of(r.0@)),
        r.1@.len() >= r.0@.len(),
        forall|i: int| 0 <= i < r.0@.len() ==>
            (#[trigger] r.1@[i]).key@ == r.0@[i].key@ && r.1@[i].counters() == r.0@[i].counters(),
        forall|j: int| r.0@.len() <= j < r.1@.len() ==>
            (#[trigger] r.1@[j]).counters() == zero_counters() && silent_known(old(known)@, r.0@, r.1@[j].key@),
        forall|k: KeyView| silent_known(old(known)@, r.0@, k) ==>
            exists|j: int| r.0@.len() <= j < r.1@.len() && (#[trigger] r.1@[j]).key@ == k,
{
    let snapshot = agg.snapshot_and_reset();
    let updates = publish(&snapshot, known);
    (snapshot, updates)
}

/// Zero-decay: a key that appears in the snapshot of window `i` is known
/// when any later window `j` is published, so if it is silent there its
/// gauges are set to zero.
pub proof fn lemma_zero_decay(known: Set<KeyView>, ws: Seq<Seq<WindowSample>>, i: int, j: int, k: KeyView)
    requires
        0 <= i < j < ws.len(),
        keys_of(ws[i]).contains(k),
        !keys_of(ws[j]).contains(k),
    ensures
        silent_known(known_after(known, ws.take(j)), ws[j], k),
    decreases j - i,
{
    let w = ws.take(j);
    assert(w.drop_last() == ws.take(j - 1));
    assert(w.last() == ws[j - 1]);
    if i == j - 1 {
        assert(known_after(known, w) == known_after(known, ws.take(j - 1)).union(keys_of(ws[i])));
    } else {
        lemma_zero_decay(known, ws.take(j - 1).push(ws[j]), i, j - 1, k);
        assert(ws.take(j - 1).push(ws[j]).take(j - 1) == ws.take(j - 1));
        assert(ws.take(j - 1).push(ws[j])[i] == ws[i]);
    }
}

} // verus!
