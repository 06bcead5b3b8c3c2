use vstd::prelude::*;
use vstd::relations::{sorted_by, total_ordering};

verus! {

/// Nanoseconds per second.
pub const NANOS_PER_SEC: u64 = 1_000_000_000;

/// The counter frequency assumed when calibration fails: 1 GHz.
pub const DEFAULT_COUNTER_HZ: u64 = 1_000_000_000;

/// One measurement: the round-trip cycles against the remote agent and
/// against the colocated loopback agent (zero when not measured).
#[derive(Clone, Copy, Debug, PartialEq, Eq, Structural)]
pub struct Sample {
    pub wire_rtt: u64,
    pub loop_rtt: u64,
}

/// `a - b`, or zero where `b` exceeds `a`.
pub open spec fn sat_sub(a: u64, b: u64) -> u64 {
    if a >= b {
        (a - b) as u64
    } else {
        0
    }
}

/// The fabric-only share of a sample: wire minus loop, saturating at zero.
pub open spec fn diff_of(s: Sample) -> u64 {
    sat_sub(s.wire_rtt, s.loop_rtt)
}

/// The fabric-only share of each sample, in order.
pub open spec fn diffs(s: Seq<Sample>) -> Seq<u64> {
    s.map_values(|x: Sample| diff_of(x))
}

/// The sum of the fabric-only shares.
pub open spec fn sum_diffs(s: Seq<Sample>) -> int
    decreases s.len(),
{
    if s.len() == 0 {
        0
    } else {
        sum_diffs(s.drop_last()) + diff_of(s.last())
    }
}

/// Ascending order on cycle counts.
pub open spec fn ascending() -> spec_fn(u64, u64) -> bool {
    |a: u64, b: u64| a <= b
}

/// The fabric-only shares sorted ascending.
pub open spec fn sorted_diffs(s: Seq<Sample>) -> Seq<u64> {
    diffs(s).sort_by(ascending())
}

/// `cycles` at `freq` Hz, in nanoseconds: `cycles * 10^9` saturating at
/// `u64::MAX`, divided by `freq`.
pub open spec fn nanos_of(cycles: u64, freq: u64) -> u64 {
    let scaled = cycles * NANOS_PER_SEC;
    let capped = if scaled <= u64::MAX {
        scaled
    } else {
        u64::MAX as int
    };
    (capped / freq as int) as u64
}

/// The index `⌈n·q⌉ − 1` for `q = num / den`, clamped into `[0, n)`.
pub open spec fn quantile_index(n: int, num: int, den: int) -> int {
    let c = (n * num + den - 1) / den;
    if c <= 0 {
        0
    } else if c > n {
        n - 1
    } else {
        c - 1
    }
}

/// The mean of the fabric-only shares in nanoseconds: the sum scaled by
/// `10^9` (saturating at `u128::MAX`), divided by `freq` and by the number of
/// samples, saturating at `u64::MAX`.
pub open spec fn mean_nanos(s: Seq<Sample>, freq: u64) -> u64 {
    let scaled = sum_diffs(s) * NANOS_PER_SEC;
    let capped = if scaled <= u128::MAX {
        scaled
    } else {
        u128::MAX as int
    };
    let m = capped / freq as int / s.len() as int;
    if m <= u64::MAX {
        m as u64
    } else {
        u64::MAX
    }
}

/// Converts a cycle count at `freq` Hz to nanoseconds.
pub fn cycles_to_nanos(cycles: u64, freq: u64) -> (r: u64)
    requires
        freq > 0,
    ensures
        r == nanos_of(cycles, freq),
{
    let scaled = match cycles.checked_mul(NANOS_PER_SEC) {
        Some(v) => v,
        None => u64::MAX,
    };
    scaled / freq
}

/// The counter frequency in Hz from a calibration in whole MHz; a missing or
/// zero calibration gives the default of 1 GHz, and a huge one saturates.
pub fn counter_freq(mhz: Option<u64>) -> (r: u64)
    ensures
        r > 0,
        r == match mhz {
            Some(m) if m > 0 => if m * 1_000_000 <= u64::MAX {
                (m * 1_000_000) as u64
            } else {
                u64::MAX
            },
            _ => DEFAULT_COUNTER_HZ,
        },
{
    match mhz {
        Some(m) if m > 0 => match m.checked_mul(1_000_000) {
            Some(hz) => hz,
            None => u64::MAX,
        },
        _ => DEFAULT_COUNTER_HZ,
    }
}

impl Sample {
    /// Wire minus loop, or zero where the loop round took longer.
    pub fn cycles_diff(&self) -> (r: u64)
        ensures
            r == diff_of(*self),
            self.wire_rtt >= self.loop_rtt ==> r == self.wire_rtt - self.loop_rtt,
            self.wire_rtt < self.loop_rtt ==> r == 0,
    {
        self.wire_rtt.saturating_sub(self.loop_rtt)
    }
}

/// Sorts cycle counts ascending.
///
/// Relies on `slice::sort_unstable`, which leaves the slice ordered and holding
/// the same elements.
#[verifier::external_body]
fn sort_ascending(v: &mut Vec<u64>)
    ensures
        sorted_by(final(v)@, ascending()),
        final(v)@.to_multiset() == old(v)@.to_multiset(),
{
    v.sort_unstable();
}

/// `<=` on cycle counts is a total order.
pub proof fn lemma_ascending_total()
    ensures
        total_ordering(ascending()),
{
}

/// A sequence of cycle counts that is ordered and holds the same counts as
/// the fabric-only shares of `s` is their sorted sequence.
proof fn lemma_is_sorted_diffs(v: Seq<u64>, s: Seq<Sample>)
    requires
        sorted_by(v, ascending()),
        v.to_multiset() == diffs(s).to_multiset(),
    ensures
        v == sorted_diffs(s),
{
    lemma_ascending_total();
    diffs(s).lemma_sort_by_ensures(ascending());
    vstd::seq_lib::lemma_sorted_unique(v, sorted_diffs(s), ascending());
}

/// What a collector reports at the end of a session.
#[derive(Clone, Copy, Debug, PartialEq, Eq, Structural)]
pub struct LatencyReport {
    /// The mean fabric-only share in nanoseconds; absent without samples.
    pub mean_ns: Option<u64>,
    /// The time between the markers in nanoseconds; absent unless both are set.
    pub duration_ns: Option<u64>,
}

/// The per-request samples of a run, with the wall-clock markers of the run
/// and its nominal number of operations.
pub struct SampleCollector {
    samples: Vec<Sample>,
    start: Option<u64>,
    end: Option<u64>,
    size: u64,
    filename: String,
}

impl SampleCollector {
    /// The samples, in insertion order.
    pub closed spec fn samples(&self) -> Seq<Sample> {
        self.samples@
    }

    /// The start marker, in nanoseconds of a monotonic clock.
    pub closed spec fn start(&self) -> Option<u64> {
        self.start
    }

    /// The end marker, in nanoseconds of a monotonic clock.
    pub closed spec fn end(&self) -> Option<u64> {
        self.end
    }

    /// The nominal number of operations of the run.
    pub closed spec fn size(&self) -> u64 {
        self.size
    }

    /// Where the CSV dump goes.
    pub closed spec fn file_name(&self) -> Seq<char> {
        self.filename@
    }

    /// An empty collector for `size` nominal operations, dumping to `filename`.
    pub fn new(size: u64, filename: &str) -> (r: Self)
        ensures
            r.samples() == Seq::<Sample>::empty(),
            r.start() is None,
            r.end() is None,
            r.size() == size,
            r.file_name() == filename@,
    {
        SampleCollector {
            samples: Vec::new(),
            start: None,
            end: None,
            size,
            filename: filename.to_owned(),
        }
    }

    /// Stamps the start of the run; the first stamp wins.
    pub fn record_start(&mut self, now: u64)
        ensures
            final(self).start() == match old(self).start() {
                Some(t) => Some(t),
                None => Some(now),
            },
            final(self).end() == old(self).end(),
            final(self).samples() == old(self).samples(),
            final(self).size() == old(self).size(),
            final(self).file_name() == old(self).file_name(),
    {
        if self.start.is_none() {
            self.start = Some(now);
        }
    }

    /// Stamps the end of the run; every stamp overwrites the last.
    pub fn record_end(&mut self, now: u64)
        ensures
            final(self).end() == Some(now),
            final(self).start() == old(self).start(),
            final(self).samples() == old(self).samples(),
            final(self).size() == old(self).size(),
            final(self).file_name() == old(self).file_name(),
    {
        self.end = Some(now);
    }

    /// Appends the sample `(wire, loop)`.
    pub fn insert(&mut self, sample: (u64, u64))
        ensures
            final(self).samples() == old(self).samples().push(
                Sample { wire_rtt: sample.0, loop_rtt: sample.1 },
            ),
            final(self).start() == old(self).start(),
            final(self).end() == old(self).end(),
            final(self).size() == old(self).size(),
            final(self).file_name() == old(self).file_name(),
    {
        self.samples.push(Sample { wire_rtt: sample.0, loop_rtt: sample.1 });
    }

    /// The number of samples.
    pub fn len(&self) -> (r: usize)
        ensures
            r == self.samples().len(),
    {
        self.samples.len()
    }

    /// The sample at `i`, in insertion order.
    pub fn get(&self, i: usize) -> (r: Sample)
        requires
            i < self.samples().len(),
        ensures
            r == self.samples()[i as int],
    {
        self.samples[i]
    }

    /// Where the CSV dump goes.
    pub fn filename(&self) -> (r: &String)
        ensures
            r@ == self.file_name(),
    {
        &self.filename
    }

    /// The time between the markers, in nanoseconds, saturating at zero;
    /// absent unless both markers are set.
    pub fn duration(&self) -> (r: Option<u64>)
        ensures
            r == match (self.start(), self.end()) {
                (Some(s), Some(e)) => Some(sat_sub(e, s)),
                _ => None,
            },
    {
        match (self.start, self.end) {
            (Some(s), Some(e)) => Some(e.saturating_sub(s)),
            _ => None,
        }
    }

    /// Operations per second over the run: the nominal number of operations
    /// times `10^9` over the duration in nanoseconds, saturating at
    /// `u64::MAX`; absent where there is no duration or it is zero.
    pub fn throughput(&self) -> (r: Option<u64>)
        ensures
            r == match (self.start(), self.end()) {
                (Some(s), Some(e)) => if sat_sub(e, s) > 0 {
                    let t = self.size() * NANOS_PER_SEC / sat_sub(e, s) as int;
                    Some(
                        if t <= u64::MAX {
                            t as u64
                        } else {
                            u64::MAX
                        },
                    )
                } else {
                    None
                },
                _ => None,
            },
    {
        match self.duration() {
            Some(d) if d > 0 => {
                proof {
                    assert(self.size as int * NANOS_PER_SEC <= u64::MAX as int * NANOS_PER_SEC)
                        by (nonlinear_arith);
                }
                let t = (self.size as u128) * (NANOS_PER_SEC as u128) / (d as u128);
                if t <= u64::MAX as u128 {
                    Some(t as u64)
                } else {
                    Some(u64::MAX)
                }
            },
            _ => None,
        }
    }

    /// The fabric-only share of each sample, in insertion order.
    pub fn cycle_diffs(&self) -> (r: Vec<u64>)
        ensures
            r@ == diffs(self.samples()),
    {
        let mut out: Vec<u64> = Vec::new();
        let mut i: usize = 0;
        while i < self.samples.len()
            invariant
                0 <= i <= self.samples@.len(),
                out@ == diffs(self.samples@.subrange(0, i as int)),
            decreases self.samples@.len() - i,
        {
            out.push(self.samples[i].cycles_diff());
            i = i + 1;
            proof {
                assert(out@ =~= diffs(self.samples@.subrange(0, i as int)));
            }
        }
        proof {
            assert(self.samples@.subrange(0, i as int) =~= self.samples@);
        }
        out
    }

    /// The histogram of the fabric-only shares, in cycles: each distinct
    /// share, by ascending share, with the number of samples that have it.
    pub fn latency_histogram(&self) -> (r: Vec<(u64, usize)>)
        ensures
            forall|i: int, j: int| 0 <= i < j < r@.len() ==> r@[i].0 < r@[j].0,
            forall|i: int|
                0 <= i < r@.len() ==> (#[trigger] r@[i]).1 == diffs(self.samples()).to_multiset().count(
                    r@[i].0,
                ) && r@[i].1 > 0,
            forall|k: u64|
                #[trigger] diffs(self.samples()).contains(k) ==> exists|i: int|
                    0 <= i < r@.len() && (#[trigger] r@[i]).0 == k,
    {
        let mut v = self.cycle_diffs();
        sort_ascending(&mut v);
        let n = v.len();
        let mut out: Vec<(u64, usize)> = Vec::new();
        let mut i: usize = 0;
        while i < n
            invariant
                n == v@.len(),
                sorted_by(v@, ascending()),
                0 <= i <= n,
                forall|a: int, b: int| 0 <= a < b < out@.len() ==> out@[a].0 < out@[b].0,
                forall|e: int|
                    0 <= e < out@.len() ==> (#[trigger] out@[e]).1 == v@.subrange(
                        0,
                        i as int,
                    ).to_multiset().count(out@[e].0) && out@[e].1 > 0 && out@[e].1 <= i,
                forall|t: int|
                    0 <= t < i ==> exists|e: int|
                        0 <= e < out@.len() && (#[trigger] out@[e]).0 == #[trigger] v@[t],
                i > 0 ==> out@.len() > 0 && out@.last().0 == v@[i - 1],
                i == 0 ==> out@.len() == 0,
            decreases n - i,
        {
            let x = v[i];
            let ghost p = v@.subrange(0, i as int);
            let ghost grown = v@.subrange(0, i + 1);
            let ghost old_out = out@;
            proof {
                assert(grown =~= p.push(x));
                p.to_multiset_ensures();
                assert(grown.to_multiset() =~= p.to_multiset().insert(x));
            }
            let len = out.len();
            if len > 0 && out[len - 1].0 == x {
                let c = out[len - 1].1;
                out.set(len - 1, (x, c + 1));
                proof {
                    assert forall|e: int| 0 <= e < out@.len() implies (#[trigger] out@[e]).1
                        == grown.to_multiset().count(out@[e].0) && out@[e].1 > 0 && out@[e].1 <= i
                        + 1 by {
                        if e < len - 1 {
                            assert(old_out[e].0 < old_out[len - 1].0);
                        }
                    }
                }
            } else {
                proof {
                    if i > 0 {
                        assert(ascending()(v@[i - 1], x));
                        assert forall|t: int| 0 <= t < i implies p[t] != x by {
                            if t < i - 1 {
                                assert(ascending()(v@[t], v@[i - 1]));
                            }
                        }
                        assert forall|e: int| 0 <= e < len implies old_out[e].0 < x by {
                            if e < len - 1 {
                                assert(old_out[e].0 < old_out[len - 1].0);
                            }
                        }
                    }
                    assert(!p.contains(x));
                    assert(p.to_multiset().count(x) == 0);
                }
                out.push((x, 1));
                proof {
                    assert forall|e: int| 0 <= e < out@.len() implies (#[trigger] out@[e]).1
                        == grown.to_multiset().count(out@[e].0) && out@[e].1 > 0 && out@[e].1 <= i
                        + 1 by {
                        if e < len {
                            assert(out@[e] == old_out[e]);
                            assert(old_out[e].0 != x);
                        }
                    }
                }
            }
            proof {
                assert forall|e: int| 0 <= e < old_out.len() implies (#[trigger] out@[e]).0
                    == old_out[e].0 by {}
                assert forall|t: int| 0 <= t < i + 1 implies exists|e: int|
                    0 <= e < out@.len() && (#[trigger] out@[e]).0 == #[trigger] v@[t] by {
                    if t == i {
                        assert(out@[out@.len() - 1].0 == v@[t]);
                    } else {
                        let e = choose|e: int|
                            0 <= e < old_out.len() && (#[trigger] old_out[e]).0 == v@[t];
                        assert(out@[e].0 == v@[t]);
                    }
                }
            }
            i = i + 1;
        }
        proof {
            assert(v@.subrange(0, n as int) =~= v@);
            let d = diffs(self.samples());
            d.to_multiset_ensures();
            v@.to_multiset_ensures();
            assert forall|k: u64| #[trigger] d.contains(k) implies exists|e: int|
                0 <= e < out@.len() && (#[trigger] out@[e]).0 == k by {
                assert(d.to_multiset().count(k) > 0);
                assert(v@.contains(k));
                let t = choose|t: int| 0 <= t < v@.len() && v@[t] == k;
                assert(exists|e: int| 0 <= e < out@.len() && (#[trigger] out@[e]).0 == v@[t]);
            }
        }
        out
    }

    /// The mean fabric-only share in nanoseconds at `freq` Hz; absent only
    /// when there are no samples.
    pub fn mean_latency(&self, freq: u64) -> (r: Option<u64>)
        requires
            freq > 0,
        ensures
            self.samples().len() == 0 <==> r is None,
            r matches Some(m) ==> m == mean_nanos(self.samples(), freq),
    {
        let n = self.samples.len();
        if n == 0 {
            return None;
        }
        let mut total: u128 = 0;
        let mut i: usize = 0;
        while i < n
            invariant
                n == self.samples@.len(),
                0 <= i <= n,
                total == sum_diffs(self.samples@.subrange(0, i as int)),
                total <= i * (u64::MAX as int),
            decreases n - i,
        {
            let d = self.samples[i].cycles_diff();
            proof {
                let s = self.samples@.subrange(0, i + 1);
                assert(s.drop_last() =~= self.samples@.subrange(0, i as int));
                assert(i * (u64::MAX as int) + u64::MAX <= u128::MAX) by (nonlinear_arith)
                    requires
                        i < n,
                        n <= 0xffff_ffff_ffff_ffff,
                ;
            }
            total = total + d as u128;
            i = i + 1;
        }
        proof {
            assert(self.samples@.subrange(0, n as int) =~= self.samples@);
        }
        let scaled = match total.checked_mul(NANOS_PER_SEC as u128) {
            Some(v) => v,
            None => u128::MAX,
        };
        let m = scaled / (freq as u128) / (n as u128);
        if m <= u64::MAX as u128 {
            Some(m as u64)
        } else {
            Some(u64::MAX)
        }
    }

    /// The statistics of the session at `freq` Hz: its mean latency and its
    /// duration.
    pub fn report(&self, freq: u64) -> (r: LatencyReport)
        requires
            freq > 0,
        ensures
            r.mean_ns is None <==> self.samples().len() == 0,
            r.mean_ns matches Some(m) ==> m == mean_nanos(self.samples(), freq),
            r.duration_ns == match (self.start(), self.end()) {
                (Some(s), Some(e)) => Some(sat_sub(e, s)),
                _ => None,
            },
    {
        LatencyReport { mean_ns: self.mean_latency(freq), duration_ns: self.duration() }
    }

    /// The fabric-only share at quantile `q = q_num / q_den` in nanoseconds at
    /// `freq` Hz: the element at index `⌈n·q⌉ − 1`, clamped into `[0, n)`, of
    /// the shares sorted ascending. Absent only when there are no samples.
    pub fn quantile_latency(&self, q_num: u64, q_den: u64, freq: u64) -> (r: Option<u64>)
        requires
            q_den > 0,
            freq > 0,
        ensures
            self.samples().len() == 0 <==> r is None,
            r matches Some(v) ==> v == nanos_of(
                sorted_diffs(self.samples())[quantile_index(
                    self.samples().len() as int,
                    q_num as int,
                    q_den as int,
                )],
                freq,
            ),
    {
        let mut v = self.cycle_diffs();
        let n = v.len();
        if n == 0 {
            return None;
        }
        let ghost unsorted = v@;
        sort_ascending(&mut v);
        proof {
            lemma_is_sorted_diffs(v@, self.samples());
            unsorted.to_multiset_ensures();
            v@.to_multiset_ensures();
        }
        let idx = quantile_position(n, q_num, q_den);
        Some(cycles_to_nanos(v[idx], freq))
    }
}

/// The index `⌈n·q⌉ − 1` for `q = num / den`, clamped into `[0, n)`.
pub fn quantile_position(n: usize, num: u64, den: u64) -> (r: usize)
    requires
        n > 0,
        den > 0,
    ensures
        r == quantile_index(n as int, num as int, den as int),
        r < n,
{
    proof {
        assert((n as int) * (num as int) + (den as int) <= u128::MAX) by (nonlinear_arith)
            requires
                n <= 0xffff_ffff_ffff_ffff,
                num <= 0xffff_ffff_ffff_ffff,
                den <= 0xffff_ffff_ffff_ffff,
        ;
    }
    let c = ((n as u128) * (num as u128) + (den as u128) - 1) / (den as u128);
    if c == 0 {
        0
    } else if c > n as u128 {
        n - 1
    } else {
        (c - 1) as usize
    }
}

/// The quantile at `q = 1` is the largest fabric-only share: for every `den`,
/// the index for `den / den` is the last one, and the sorted shares hold there
/// a share of some sample that no share exceeds.
pub proof fn lemma_quantile_one_is_max(s: Seq<Sample>, den: int)
    requires
        s.len() > 0,
        den > 0,
    ensures
        quantile_index(s.len() as int, den, den) == s.len() - 1,
        diffs(s).contains(sorted_diffs(s)[s.len() - 1]),
        forall|i: int| 0 <= i < s.len() ==> #[trigger] diffs(s)[i] <= sorted_diffs(s)[s.len() - 1],
{
    let n = s.len() as int;
    assert((n * den + den - 1) / den == n) by (nonlinear_arith)
        requires
            n > 0,
            den > 0,
    {
        vstd::arithmetic::div_mod::lemma_fundamental_div_mod_converse(
            n * den + den - 1,
            den,
            n,
            den - 1,
        );
    }
    let d = diffs(s);
    let v = sorted_diffs(s);
    lemma_ascending_total();
    d.lemma_sort_by_ensures(ascending());
    d.to_multiset_ensures();
    v.to_multiset_ensures();
    assert(v.len() == n);
    assert(v.contains(v[n - 1]));
    assert forall|i: int| 0 <= i < n implies #[trigger] d[i] <= v[n - 1] by {
        assert(d.contains(d[i]));
        assert(d.to_multiset().count(d[i]) > 0);
        assert(v.to_multiset().count(d[i]) > 0);
        assert(v.contains(d[i]));
        let j = choose|j: int| 0 <= j < v.len() && v[j] == d[i];
        if j < n - 1 {
            assert(ascending()(v[j], v[n - 1]));
        }
    }
}

} // verus!
