//! The sample index of a track: the compressed sample tables compiled into
//! flat arrays, and a cursor that walks the samples in decode order.
use vstd::prelude::*;

use crate::error::Mp4BoxError;
use crate::stsd::SampleEntry;
use crate::tables::{SampleSizes, SampleToChunkEntry, TimeToSampleEntry};

verus! {

// ---------------------------------------------------------------------------
// Times, from the time-to-sample entries.

/// The number of samples that the time-to-sample entries describe.
pub open spec fn stts_total(es: Seq<TimeToSampleEntry>) -> nat
    decreases es.len(),
{
    if es.len() == 0 {
        0
    } else {
        stts_total(es.drop_last()) + es.last().count as nat
    }
}

/// The duration of sample `i` (0-based), if the entries describe it.
pub open spec fn delta_at(es: Seq<TimeToSampleEntry>, i: nat) -> Option<u32>
    decreases es.len(),
{
    if es.len() == 0 {
        None
    } else if i < stts_total(es.drop_last()) {
        delta_at(es.drop_last(), i)
    } else if i < stts_total(es) {
        Some(es.last().delta)
    } else {
        None
    }
}

pub open spec fn delta_of(es: Seq<TimeToSampleEntry>, i: nat) -> nat {
    match delta_at(es, i) {
        Some(d) => d as nat,
        None => 0,
    }
}

/// The decode time of sample `i`: the sum of the durations of the samples before it.
pub open spec fn time_at(es: Seq<TimeToSampleEntry>, i: nat) -> nat
    decreases i,
{
    if i == 0 {
        0
    } else {
        time_at(es, (i - 1) as nat) + delta_of(es, (i - 1) as nat)
    }
}

pub proof fn lemma_stts_push(es: Seq<TimeToSampleEntry>, x: TimeToSampleEntry)
    ensures
        stts_total(es.push(x)) == stts_total(es) + x.count,
        forall|i: nat| i < stts_total(es) ==> #[trigger] delta_at(es.push(x), i) == delta_at(es, i),
        forall|i: nat|
            stts_total(es) <= i < stts_total(es) + x.count ==> #[trigger] delta_at(es.push(x), i)
                == Some(x.delta),
        forall|i: nat| i >= stts_total(es) + x.count ==> #[trigger] delta_at(es.push(x), i) is None,
{
    assert(es.push(x).drop_last() =~= es);
}

pub proof fn lemma_time_push(es: Seq<TimeToSampleEntry>, x: TimeToSampleEntry, i: nat)
    requires
        i <= stts_total(es),
    ensures
        time_at(es.push(x), i) == time_at(es, i),
    decreases i,
{
    if i > 0 {
        lemma_stts_push(es, x);
        lemma_time_push(es, x, (i - 1) as nat);
        assert(delta_at(es.push(x), (i - 1) as nat) == delta_at(es, (i - 1) as nat));
    }
}

/// Over a run of samples of equal duration `d`, time grows by `d` per sample.
pub proof fn lemma_time_block(es: Seq<TimeToSampleEntry>, p: nat, d: u32, t: nat)
    requires
        forall|j: nat| p <= j < p + t ==> #[trigger] delta_at(es, j) == Some(d),
    ensures
        time_at(es, p + t) == time_at(es, p) + t * d,
    decreases t,
{
    if t > 0 {
        let t1 = (t - 1) as nat;
        let q = (p + t1) as nat;
        lemma_time_block(es, p, d, t1);
        assert(delta_at(es, q) == Some(d));
        assert(time_at(es, q + 1) == time_at(es, q) + d);
        assert(q + 1 == p + t);
        let a = time_at(es, p);
        assert(a + t1 * d + d == a + t * d) by (nonlinear_arith)
            requires
                t1 + 1 == t,
        ;
    } else {
        assert(t * d == 0) by (nonlinear_arith)
            requires
                t == 0,
        ;
    }
}

pub proof fn lemma_time_mono(es: Seq<TimeToSampleEntry>, i: nat, j: nat)
    requires
        i <= j,
    ensures
        time_at(es, i) <= time_at(es, j),
    decreases j,
{
    if i < j {
        lemma_time_mono(es, i, (j - 1) as nat);
    }
}

/// Times up to the end of a prefix of the entries are those of the prefix.
pub proof fn lemma_time_prefix(es: Seq<TimeToSampleEntry>, m: int, i: nat)
    requires
        0 <= m <= es.len(),
        i <= stts_total(es.subrange(0, m)),
    ensures
        time_at(es, i) == time_at(es.subrange(0, m), i),
        stts_total(es.subrange(0, m)) <= stts_total(es),
    decreases es.len() - m,
{
    if m < es.len() {
        let a = es.subrange(0, m);
        assert(es.subrange(0, m + 1) =~= a.push(es[m]));
        lemma_stts_push(a, es[m]);
        lemma_time_push(a, es[m], i);
        lemma_time_prefix(es, m + 1, i);
    } else {
        assert(es.subrange(0, m) =~= es);
    }
}

/// A run of `count` samples of duration `delta` that start at time `base`.
#[derive(Debug, Clone, Copy, PartialEq, Eq, Structural)]
pub struct SampleTimes {
    pub base: u64,
    pub delta: u32,
    pub count: u32,
}

/// The number of samples in the runs before run `k`.
pub open spec fn times_prefix(ts: Seq<SampleTimes>, k: int) -> nat
    decreases k,
{
    if k <= 0 {
        0
    } else {
        times_prefix(ts, k - 1) + ts[k - 1].count as nat
    }
}

pub proof fn lemma_times_prefix_mono(ts: Seq<SampleTimes>, a: int, b: int)
    requires
        0 <= a <= b,
    ensures
        times_prefix(ts, a) <= times_prefix(ts, b),
    decreases b,
{
    if a < b {
        lemma_times_prefix_mono(ts, a, b - 1);
    }
}

/// The runs are the entries with samples, in order, with their start times.
pub open spec fn times_match(ts: Seq<SampleTimes>, es: Seq<TimeToSampleEntry>) -> bool {
    &&& forall|k: int|
        0 <= k < ts.len() ==> {
            &&& #[trigger] ts[k].count > 0
            &&& ts[k].base == time_at(es, times_prefix(ts, k))
            &&& ts[k].base + ts[k].count * ts[k].delta <= u64::MAX
        }
    &&& forall|k: int, i: nat|
        0 <= k < ts.len() && times_prefix(ts, k) <= i < times_prefix(ts, k + 1) ==> #[trigger] delta_at(
            es,
            i,
        ) == Some(#[trigger] ts[k].delta)
    &&& times_prefix(ts, ts.len() as int) == stts_total(es)
}

/// Compiles the time-to-sample entries into runs with start times, leaving
/// out entries without samples; `None` where the end time of the last
/// sample does not fit in 64 bits.
#[verifier::rlimit(40)]
pub fn get_sample_times(entries: &[TimeToSampleEntry]) -> (r: Option<Vec<SampleTimes>>)
    ensures
        r is Some <==> time_at(entries@, stts_total(entries@)) <= u64::MAX,
        r is Some ==> times_match(r->Some_0@, entries@),
{
    let ghost es = entries@;
    let mut times: Vec<SampleTimes> = Vec::new();
    let mut base: u64 = 0;
    let mut m: usize = 0;
    assert(es.subrange(0, 0) =~= Seq::<TimeToSampleEntry>::empty());
    while m < entries.len()
        invariant
            m <= es.len(),
            es == entries@,
            base == time_at(es.subrange(0, m as int), stts_total(es.subrange(0, m as int))),
            times_match(times@, es.subrange(0, m as int)),
        decreases es.len() - m,
    {
        let x = entries[m];
        let ghost a = es.subrange(0, m as int);
        let ghost b = es.subrange(0, m + 1);
        let ghost ts0 = times@;
        proof {
            assert(b =~= a.push(x));
            lemma_time_extend(a, x);
        }
        assert((x.count as u64) * (x.delta as u64) <= 0xFFFF_FFFE_0000_0001) by (nonlinear_arith)
            requires
                x.count <= 0xFFFF_FFFF,
                x.delta <= 0xFFFF_FFFF,
        ;
        let span = (x.count as u64) * (x.delta as u64);
        if span > u64::MAX - base {
            proof {
                lemma_time_prefix(es, m + 1, stts_total(b));
                lemma_time_mono(es, stts_total(b), stts_total(es));
            }
            return None;
        }
        let ghost old_base = base;
        if x.count > 0 {
            times.push(SampleTimes { base, delta: x.delta, count: x.count });
        }
        base = base + span;
        assert(base == old_base + x.count * x.delta);
        proof {
            lemma_times_step(ts0, times@, a, x, old_base);
        }
        m = m + 1;
    }
    assert(es.subrange(0, m as int) =~= es);
    Some(times)
}


/// The end time after one more entry.
pub proof fn lemma_time_extend(a: Seq<TimeToSampleEntry>, x: TimeToSampleEntry)
    ensures
        time_at(a.push(x), stts_total(a.push(x))) == time_at(a, stts_total(a)) + x.count * x.delta,
{
    let b = a.push(x);
    lemma_stts_push(a, x);
    lemma_time_push(a, x, stts_total(a));
    assert forall|j: nat|
        stts_total(a) <= j < stts_total(a) + x.count implies #[trigger] delta_at(b, j) == Some(
        x.delta,
    ) by {}
    lemma_time_block(b, stts_total(a), x.delta, x.count as nat);
}

/// One step of compiling: the runs for `a` extended by the entry `x`.
proof fn lemma_times_step(
    ts0: Seq<SampleTimes>,
    ts: Seq<SampleTimes>,
    a: Seq<TimeToSampleEntry>,
    x: TimeToSampleEntry,
    base: u64,
)
    requires
        times_match(ts0, a),
        base == time_at(a, stts_total(a)),
        base + x.count * x.delta <= u64::MAX,
        x.count > 0 ==> ts == ts0.push(SampleTimes { base, delta: x.delta, count: x.count }),
        x.count == 0 ==> ts == ts0,
    ensures
        times_match(ts, a.push(x)),
        base + x.count * x.delta == time_at(a.push(x), stts_total(a.push(x))),
{
    let b = a.push(x);
    lemma_stts_push(a, x);
    lemma_time_extend(a, x);
    assert forall|i: nat| i <= stts_total(a) implies time_at(b, i) == time_at(a, i) by {
        lemma_time_push(a, x, i);
    }
    assert forall|k: int| 0 <= k <= ts0.len() implies times_prefix(ts, k) == times_prefix(ts0, k) by {
        lemma_times_prefix_eq(ts0, ts, k);
    }
    if x.count > 0 {
        assert(times_prefix(ts, ts.len() as int) == times_prefix(ts0, ts0.len() as int) + x.count);
    }
    assert forall|k: int| 0 <= k < ts.len() implies {
        &&& #[trigger] ts[k].count > 0
        &&& ts[k].base == time_at(b, times_prefix(ts, k))
        &&& ts[k].base + ts[k].count * ts[k].delta <= u64::MAX
    } by {
        if k < ts0.len() {
            lemma_times_prefix_mono(ts0, k, ts0.len() as int);
        }
    }
    assert forall|k: int, i: nat|
        0 <= k < ts.len() && times_prefix(ts, k) <= i < times_prefix(ts, k + 1) implies #[trigger] delta_at(
        b,
        i,
    ) == Some(#[trigger] ts[k].delta) by {
        if k < ts0.len() {
            lemma_times_prefix_mono(ts0, k + 1, ts0.len() as int);
            assert(delta_at(a, i) == Some(ts0[k].delta));
        }
    }
}

/// Appending a run leaves the counts before the old end as they were.
pub proof fn lemma_times_prefix_eq(ts0: Seq<SampleTimes>, ts: Seq<SampleTimes>, k: int)
    requires
        0 <= k <= ts0.len(),
        ts0.len() <= ts.len(),
        forall|j: int| 0 <= j < ts0.len() ==> ts[j] == ts0[j],
    ensures
        times_prefix(ts, k) == times_prefix(ts0, k),
    decreases k,
{
    if k > 0 {
        lemma_times_prefix_eq(ts0, ts, k - 1);
    }
}

// ---------------------------------------------------------------------------
// Chunks, from the sample-to-chunk entries and the number of chunks.

/// The number of samples in chunk `c` (0-based): that of the last entry
/// whose first chunk is at most `c + 1`.
pub open spec fn spc_for_chunk(es: Seq<SampleToChunkEntry>, c: nat) -> u32
    decreases es.len(),
{
    if es.len() == 0 {
        0
    } else if es.last().first_chunk as nat <= c + 1 {
        es.last().samples_per_chunk
    } else {
        spc_for_chunk(es.drop_last(), c)
    }
}

/// Every chunk ends within 64-bit file offsets: its offset plus the sizes of
/// all its samples fits.
pub open spec fn chunks_fit(offsets: Seq<u64>, k: Seq<u32>, sizes: SampleSizes) -> bool {
    forall|c: int|
        0 <= c < k.len() ==> #[trigger] offsets[c] + size_sum(
            sizes,
            chunk_prefix(k, c),
            chunk_prefix(k, c + 1),
        ) <= u64::MAX
}

/// Sample-to-chunk entries that can be expanded against `chunk_count` chunks:
/// the first starts at chunk 1, first chunks ascend strictly and name
/// existing chunks, and every chunk holds samples.
pub open spec fn stsc_valid(es: Seq<SampleToChunkEntry>, chunk_count: nat) -> bool {
    &&& es.len() > 0
    &&& es[0].first_chunk == 1
    &&& forall|i: int, j: int|
        0 <= i < j < es.len() ==> #[trigger] es[i].first_chunk < #[trigger] es[j].first_chunk
    &&& forall|i: int| 0 <= i < es.len() ==> #[trigger] es[i].first_chunk <= chunk_count
    &&& forall|i: int| 0 <= i < es.len() ==> #[trigger] es[i].samples_per_chunk > 0
}

proof fn lemma_spc_for_chunk(es: Seq<SampleToChunkEntry>, c: nat, s: int)
    requires
        0 <= s < es.len(),
        forall|i: int, j: int|
            0 <= i < j < es.len() ==> #[trigger] es[i].first_chunk < #[trigger] es[j].first_chunk,
        es[s].first_chunk <= c + 1,
        s + 1 < es.len() ==> es[s + 1].first_chunk > c + 1,
    ensures
        spc_for_chunk(es, c) == es[s].samples_per_chunk,
    decreases es.len(),
{
    if s + 1 < es.len() {
        let t = es.drop_last();
        assert(es[s + 1].first_chunk <= es.last().first_chunk);
        lemma_spc_for_chunk(t, c, s);
    }
}

/// Expands the sample-to-chunk entries into the number of samples of each of
/// `chunk_count` chunks; `None` where the entries are not valid for that count.
pub fn expand_chunks(es: &[SampleToChunkEntry], chunk_count: usize) -> (r: Option<Vec<u32>>)
    ensures
        r is Some <==> stsc_valid(es@, chunk_count as nat),
        r is Some ==> {
            &&& r->Some_0@.len() == chunk_count
            &&& forall|c: int|
                0 <= c < chunk_count ==> #[trigger] r->Some_0@[c] == spc_for_chunk(es@, c as nat)
                    && r->Some_0@[c] > 0
        },
{
    if es.len() == 0 || es[0].first_chunk != 1 {
        return None;
    }
    let mut i: usize = 0;
    while i < es.len()
        invariant
            0 <= i <= es@.len(),
            es@[0].first_chunk == 1,
            forall|a: int, b: int|
                0 <= a < b < i ==> #[trigger] es@[a].first_chunk < #[trigger] es@[b].first_chunk,
            forall|a: int| 0 <= a < i ==> #[trigger] es@[a].first_chunk <= chunk_count,
            forall|a: int| 0 <= a < i ==> #[trigger] es@[a].samples_per_chunk > 0,
        decreases es@.len() - i,
    {
        let e = es[i];
        if e.samples_per_chunk == 0 || e.first_chunk as usize > chunk_count {
            assert(!stsc_valid(es@, chunk_count as nat)) by {
                assert(es@[i as int] == e);
            }
            return None;
        }
        if i > 0 && es[i - 1].first_chunk >= e.first_chunk {
            assert(!stsc_valid(es@, chunk_count as nat)) by {
                assert(es@[i - 1].first_chunk >= es@[i as int].first_chunk);
            }
            return None;
        }
        proof {
            assert forall|a: int, b: int|
                0 <= a < b < i + 1 implies #[trigger] es@[a].first_chunk
                < #[trigger] es@[b].first_chunk by {
                if b == i && a < i - 1 {
                    assert(es@[a].first_chunk < es@[i - 1].first_chunk);
                }
            }
        }
        i = i + 1;
    }
    let mut k: Vec<u32> = Vec::new();
    let mut s: usize = 0;
    let mut c: usize = 0;
    let n = es.len();
    while c < chunk_count
        invariant
            n == es@.len(),
            stsc_valid(es@, chunk_count as nat),
            s < es@.len(),
            c <= chunk_count,
            k@.len() == c,
            es@[s as int].first_chunk <= c + 1,
            forall|a: int|
                0 <= a < c ==> #[trigger] k@[a] == spc_for_chunk(es@, a as nat) && k@[a] > 0,
        decreases chunk_count - c,
    {
        while s + 1 < n && es[s + 1].first_chunk as usize <= c + 1
            invariant
                n == es@.len(),
                stsc_valid(es@, chunk_count as nat),
                s < es@.len(),
                c < chunk_count,
                es@[s as int].first_chunk <= c + 1,
            decreases es@.len() - s,
        {
            s = s + 1;
        }
        proof {
            lemma_spc_for_chunk(es@, c as nat, s as int);
        }
        k.push(es[s].samples_per_chunk);
        c = c + 1;
    }
    Some(k)
}

/// The number of samples in the chunks before chunk `c`.
pub open spec fn chunk_prefix(k: Seq<u32>, c: int) -> nat
    decreases c,
{
    if c <= 0 {
        0
    } else {
        chunk_prefix(k, c - 1) + k[c - 1] as nat
    }
}

pub proof fn lemma_chunk_prefix_mono(k: Seq<u32>, a: int, b: int)
    requires
        0 <= a <= b,
    ensures
        chunk_prefix(k, a) <= chunk_prefix(k, b),
    decreases b,
{
    if a < b {
        lemma_chunk_prefix_mono(k, a, b - 1);
    }
}

/// The chunk (0-based) that holds sample `n`: the last chunk that starts at
/// or before it.
pub open spec fn sample_chunk(k: Seq<u32>, n: nat) -> int
    decreases k.len(),
{
    if k.len() <= 1 {
        0
    } else if n >= chunk_prefix(k, k.len() - 1) {
        k.len() - 1
    } else {
        sample_chunk(k.drop_last(), n)
    }
}

proof fn lemma_chunk_prefix_drop_last(k: Seq<u32>, c: int)
    requires
        0 <= c < k.len(),
    ensures
        chunk_prefix(k.drop_last(), c) == chunk_prefix(k, c),
    decreases c,
{
    if c > 0 {
        lemma_chunk_prefix_drop_last(k, c - 1);
    }
}

/// The chunk that holds sample `n` is the `c` with `n` in its range.
pub proof fn lemma_sample_chunk(k: Seq<u32>, c: int, n: nat)
    requires
        0 <= c < k.len(),
        forall|i: int| 0 <= i < k.len() ==> #[trigger] k[i] > 0,
        chunk_prefix(k, c) <= n < chunk_prefix(k, c + 1),
    ensures
        sample_chunk(k, n) == c,
    decreases k.len(),
{
    if k.len() > 1 {
        if c < k.len() - 1 {
            lemma_chunk_prefix_mono(k, c + 1, k.len() - 1);
            let t = k.drop_last();
            lemma_chunk_prefix_drop_last(k, c);
            lemma_chunk_prefix_drop_last(k, c + 1);
            lemma_sample_chunk(t, c, n);
        } else {
            assert(n >= chunk_prefix(k, k.len() - 1));
        }
    }
}

// ---------------------------------------------------------------------------
// Sizes and sync samples.

/// The total size of samples `a` up to (not including) `b`.
pub open spec fn size_sum(sizes: SampleSizes, a: nat, b: nat) -> nat
    decreases b,
{
    if b <= a {
        0
    } else {
        size_sum(sizes, a, (b - 1) as nat) + sizes.spec_size_of(b - 1) as nat
    }
}

proof fn lemma_size_sum_bound(sizes: SampleSizes, a: nat, b: nat)
    requires
        a <= b,
    ensures
        size_sum(sizes, a, b) <= (b - a) * 0xFFFF_FFFF,
    decreases b,
{
    if a < b {
        lemma_size_sum_bound(sizes, a, (b - 1) as nat);
        assert((b - 1 - a) * 0xFFFF_FFFF + 0xFFFF_FFFF == (b - a) * 0xFFFF_FFFF) by (nonlinear_arith);
    }
}

/// Whether sample `n` (0-based) is a sync sample: every sample where there
/// is no sync sample table, else those whose 1-based number it lists.
pub open spec fn is_sync_sample(stss: Option<Seq<u32>>, n: nat) -> bool {
    match stss {
        None => true,
        Some(s) => exists|k: int| 0 <= k < s.len() && s[k] as nat == n + 1,
    }
}

/// A sync sample table whose numbers are 1-based and strictly ascending.
pub open spec fn stss_valid(s: Seq<u32>) -> bool {
    &&& forall|i: int| 0 <= i < s.len() ==> #[trigger] s[i] >= 1
    &&& forall|i: int, j: int| 0 <= i < j < s.len() ==> #[trigger] s[i] < #[trigger] s[j]
}

/// Checks a sync sample table.
pub fn check_sync_samples(s: &[u32]) -> (r: bool)
    ensures
        r == stss_valid(s@),
{
    let mut i: usize = 0;
    while i < s.len()
        invariant
            i <= s@.len(),
            forall|a: int| 0 <= a < i ==> #[trigger] s@[a] >= 1,
            forall|a: int, b: int| 0 <= a < b < i ==> #[trigger] s@[a] < #[trigger] s@[b],
        decreases s@.len() - i,
    {
        if s[i] == 0 {
            return false;
        }
        if i > 0 && s[i - 1] >= s[i] {
            return false;
        }
        proof {
            assert forall|a: int, b: int| 0 <= a < b < i + 1 implies #[trigger] s@[a]
                < #[trigger] s@[b] by {
                if b == i && a < i - 1 {
                    assert(s@[a] < s@[i - 1]);
                }
            }
        }
        i = i + 1;
    }
    true
}

// ---------------------------------------------------------------------------
// The cursor.

/// One sample: its decode time and duration in the track's timescale, where
/// its bytes lie in the file, and whether it is a sync sample.
#[derive(Debug, Clone, Copy, PartialEq, Eq, Structural)]
pub struct SampleRef {
    pub time: u64,
    pub duration: u32,
    pub data_offset: u64,
    pub data_length: u32,
    pub keyframe: bool,
}

/// Sums the sample counts of the chunks; `None` where the sum does not fit in 64 bits.
pub fn sum_chunks(k: &[u32]) -> (r: Option<u64>)
    ensures
        r is Some <==> chunk_prefix(k@, k@.len() as int) <= u64::MAX,
        r is Some ==> r->Some_0 == chunk_prefix(k@, k@.len() as int),
{
    let mut total: u64 = 0;
    let mut i: usize = 0;
    while i < k.len()
        invariant
            i <= k@.len(),
            total == chunk_prefix(k@, i as int),
        decreases k@.len() - i,
    {
        if total > u64::MAX - k[i] as u64 {
            proof {
                lemma_chunk_prefix_mono(k@, i + 1, k@.len() as int);
            }
            return None;
        }
        total = total + k[i] as u64;
        i = i + 1;
    }
    Some(total)
}

/// Sums the sample counts of the runs; `None` where the sum does not fit in 64 bits.
pub fn sum_times(ts: &[SampleTimes]) -> (r: Option<u64>)
    ensures
        r is Some <==> times_prefix(ts@, ts@.len() as int) <= u64::MAX,
        r is Some ==> r->Some_0 == times_prefix(ts@, ts@.len() as int),
{
    let mut total: u64 = 0;
    let mut i: usize = 0;
    while i < ts.len()
        invariant
            i <= ts@.len(),
            total == times_prefix(ts@, i as int),
        decreases ts@.len() - i,
    {
        if total > u64::MAX - ts[i].count as u64 {
            proof {
                lemma_times_prefix_mono(ts@, i + 1, ts@.len() as int);
            }
            return None;
        }
        total = total + ts[i].count as u64;
        i = i + 1;
    }
    Some(total)
}

/// Checks that every chunk ends within 64-bit file offsets.
pub fn check_chunks_fit(offsets: &[u64], k: &[u32], sizes: &SampleSizes) -> (r: bool)
    requires
        offsets@.len() == k@.len(),
        chunk_prefix(k@, k@.len() as int) == sizes.spec_count(),
        sizes.spec_count() <= u64::MAX,
    ensures
        r == chunks_fit(offsets@, k@, *sizes),
{
    let mut c: usize = 0;
    let mut first: u64 = 0;
    while c < k.len()
        invariant
            c <= k@.len(),
            offsets@.len() == k@.len(),
            chunk_prefix(k@, k@.len() as int) == sizes.spec_count(),
            sizes.spec_count() <= u64::MAX,
            first == chunk_prefix(k@, c as int),
            forall|j: int| 0 <= j < c ==> #[trigger] offsets@[j] + size_sum(
                *sizes,
                chunk_prefix(k@, j),
                chunk_prefix(k@, j + 1),
            ) <= u64::MAX,
        decreases k@.len() - c,
    {
        proof {
            lemma_chunk_prefix_mono(k@, c + 1, k@.len() as int);
        }
        let last = first + k[c] as u64;
        let base = offsets[c];
        let mut n: u64 = first;
        let mut acc: u64 = 0;
        while n < last
            invariant
                c < k@.len(),
                offsets@.len() == k@.len(),
                base == offsets@[c as int],
                first <= n <= last,
                last == chunk_prefix(k@, c + 1),
                first == chunk_prefix(k@, c as int),
                last <= sizes.spec_count(),
                acc == size_sum(*sizes, first as nat, n as nat),
                base + acc <= u64::MAX,
            decreases last - n,
        {
            let size = match sizes.get(n) {
                Some(v) => v,
                None => 0,
            };
            if size as u64 > u64::MAX - base - acc {
                proof {
                    lemma_size_sum_split(*sizes, first as nat, (n + 1) as nat, last as nat);
                    assert(size_sum(*sizes, first as nat, (n + 1) as nat) == acc + size);
                    assert(!(offsets@[c as int] + size_sum(
                        *sizes,
                        chunk_prefix(k@, c as int),
                        chunk_prefix(k@, c + 1),
                    ) <= u64::MAX));
                }
                return false;
            }
            acc = acc + size as u64;
            n = n + 1;
        }
        first = last;
        c = c + 1;
    }
    true
}

/// The per-chunk sample counts that `stsc` expands to over `chunk_count` chunks.
pub open spec fn expanded_chunks(stsc: Seq<SampleToChunkEntry>, chunk_count: nat) -> Seq<u32> {
    Seq::new(chunk_count, |c: int| spc_for_chunk(stsc, c as nat))
}

pub open spec fn opt_view(v: Option<Vec<u32>>) -> Option<Seq<u32>> {
    match v {
        Some(s) => Some(s@),
        None => None,
    }
}

/// Sample tables from which a track can be played: the end time fits in 64
/// bits, the sample-to-chunk entries expand against the chunk offsets, the
/// sizes and sync samples are well formed, and the time-to-sample entries,
/// the chunks and the sizes give the same number of samples.
pub open spec fn tables_valid(
    stts: Seq<TimeToSampleEntry>,
    stsc: Seq<SampleToChunkEntry>,
    offsets: Seq<u64>,
    sizes: SampleSizes,
    sync: Option<Seq<u32>>,
) -> bool {
    let chunk_count = offsets.len();
    &&& time_at(stts, stts_total(stts)) <= u64::MAX
    &&& chunks_fit(offsets, expanded_chunks(stsc, chunk_count), sizes)
    &&& stsc_valid(stsc, chunk_count)
    &&& sizes.wf()
    &&& (sync is Some ==> stss_valid(sync->Some_0))
    &&& stts_total(stts) <= u64::MAX
    &&& chunk_prefix(expanded_chunks(stsc, chunk_count), chunk_count as int) == stts_total(stts)
    &&& sizes.spec_count() == stts_total(stts)
}


/// Sample `n` is sample `t` of run `e`.
pub open spec fn time_cursor_wf(ts: Seq<SampleTimes>, e: int, t: nat, n: nat) -> bool {
    &&& 0 <= e <= ts.len()
    &&& n == times_prefix(ts, e) + t
    &&& e < ts.len() ==> t < ts[e].count
    &&& e == ts.len() ==> t == 0
}

/// Sample `n` is sample `j` of chunk `c`, and starts `o` bytes into it.
pub open spec fn chunk_cursor_wf(k: Seq<u32>, sizes: SampleSizes, c: int, j: nat, o: nat, n: nat) -> bool {
    &&& 0 <= c <= k.len()
    &&& n == chunk_prefix(k, c) + j
    &&& c < k.len() ==> j < k[c]
    &&& c == k.len() ==> j == 0
    &&& o == size_sum(sizes, (n - j) as nat, n)
}

/// The sync sample at `si` is the first that can still be sample `n` or later.
pub open spec fn sync_cursor_wf(s: Seq<u32>, si: int, n: nat) -> bool {
    s.len() > 0 ==> {
        &&& 0 <= si < s.len()
        &&& (si == s.len() - 1 || s[si] >= n + 1)
        &&& forall|k: int| 0 <= k < si ==> #[trigger] s[k] <= n
    }
}

proof fn lemma_time_step(ts: Seq<SampleTimes>, e: int, t: nat, n: nat)
    requires
        time_cursor_wf(ts, e, t, n),
        e < ts.len(),
        forall|i: int| 0 <= i < ts.len() ==> #[trigger] ts[i].count > 0,
    ensures
        if t + 1 >= ts[e].count {
            time_cursor_wf(ts, e + 1, 0, n + 1)
        } else {
            time_cursor_wf(ts, e, t + 1, n + 1)
        },
{
    if e + 1 < ts.len() {
        assert(ts[e + 1].count > 0);
    }
}

proof fn lemma_chunk_step(k: Seq<u32>, sizes: SampleSizes, c: int, j: nat, o: nat, n: nat)
    requires
        chunk_cursor_wf(k, sizes, c, j, o, n),
        c < k.len(),
        forall|i: int| 0 <= i < k.len() ==> #[trigger] k[i] > 0,
    ensures
        if j + 1 >= k[c] {
            chunk_cursor_wf(k, sizes, c + 1, 0, 0, n + 1)
        } else {
            chunk_cursor_wf(k, sizes, c, j + 1, o + sizes.spec_size_of(n as int) as nat, n + 1)
        },
{
    if c + 1 < k.len() {
        assert(k[c + 1] > 0);
    }
    assert(size_sum(sizes, (n - j) as nat, n + 1) == o + sizes.spec_size_of(n as int) as nat);
}

proof fn lemma_sync_step(s: Seq<u32>, si: int, n: nat)
    requires
        sync_cursor_wf(s, si, n),
        stss_valid(s),
    ensures
        s.len() > 0 && si + 1 < s.len() && n + 1 >= s[si] ==> sync_cursor_wf(s, si + 1, n + 1),
        !(s.len() > 0 && si + 1 < s.len() && n + 1 >= s[si]) ==> sync_cursor_wf(s, si, n + 1),
{
    if s.len() > 0 && si + 1 < s.len() && n + 1 >= s[si] {
        assert(s[si] < s[si + 1]);
    }
}

/// The compiled tables of a track agree with each other and with the
/// time-to-sample entries `stts`.
#[verifier::opaque]
pub open spec fn tables_ok(
    stts: Seq<TimeToSampleEntry>,
    ts: Seq<SampleTimes>,
    k: Seq<u32>,
    offsets_len: nat,
    sizes: SampleSizes,
    sync: Option<Seq<u32>>,
    count: u64,
) -> bool {
    &&& times_match(ts, stts)
    &&& time_at(stts, stts_total(stts)) <= u64::MAX
    &&& k.len() == offsets_len
    &&& forall|c: int| 0 <= c < k.len() ==> #[trigger] k[c] > 0
    &&& chunk_prefix(k, k.len() as int) == count
    &&& stts_total(stts) == count
    &&& sizes.spec_count() == count
    &&& sizes.wf()
    &&& (sync is Some ==> stss_valid(sync->Some_0))
}

/// What the cursor needs of the tables as it moves.
proof fn lemma_tables_facts(
    stts: Seq<TimeToSampleEntry>,
    ts: Seq<SampleTimes>,
    k: Seq<u32>,
    offsets_len: nat,
    sizes: SampleSizes,
    sync: Option<Seq<u32>>,
    count: u64,
)
    requires
        tables_ok(stts, ts, k, offsets_len, sizes, sync, count),
    ensures
        forall|i: int| 0 <= i < ts.len() ==> #[trigger] ts[i].count > 0,
        forall|c: int| 0 <= c < k.len() ==> #[trigger] k[c] > 0,
        chunk_prefix(k, k.len() as int) == count,
        times_prefix(ts, ts.len() as int) == count,
        sizes.spec_count() == count,
        k.len() == offsets_len,
        sync is Some ==> stss_valid(sync->Some_0),
        stts_total(stts) == count,
        time_at(stts, stts_total(stts)) <= u64::MAX,
{
    reveal(tables_ok);
}

proof fn lemma_tables_times(
    stts: Seq<TimeToSampleEntry>,
    ts: Seq<SampleTimes>,
    k: Seq<u32>,
    offsets_len: nat,
    sizes: SampleSizes,
    sync: Option<Seq<u32>>,
    count: u64,
)
    requires
        tables_ok(stts, ts, k, offsets_len, sizes, sync, count),
    ensures
        times_match(ts, stts),
{
    reveal(tables_ok);
}

/// A track of a demuxed movie: its sample tables compiled into flat arrays,
/// and a cursor over its samples made of plain counters.
pub struct Track {
    pub id: u32,
    pub index: usize,
    pub timescale: u32,
    pub duration: u64,
    pub sample_entry: SampleEntry,
    /// The time-to-sample entries that the runs were compiled from.
    pub stts: Ghost<Seq<TimeToSampleEntry>>,
    pub times: Vec<SampleTimes>,
    /// The number of samples of each chunk.
    pub chunk_samples: Vec<u32>,
    pub chunk_offsets: Vec<u64>,
    pub sizes: SampleSizes,
    pub sync_samples: Option<Vec<u32>>,
    pub sample_count: u64,
    pub current_sync_index: usize,
    pub current_chunk: usize,
    pub chunk_sample_index: u32,
    pub current_chunk_sample_offset: u64,
    pub current_times: usize,
    pub time_index: u32,
    pub current_sample: u64,
}

impl Track {
    pub open spec fn sync_view(&self) -> Option<Seq<u32>> {
        opt_view(self.sync_samples)
    }

    pub open spec fn tables_wf(&self) -> bool {
        chunks_fit(self.chunk_offsets@, self.chunk_samples@, self.sizes) && tables_ok(
            self.stts@,
            self.times@,
            self.chunk_samples@,
            self.chunk_offsets@.len(),
            self.sizes,
            self.sync_view(),
            self.sample_count,
        )
    }

    pub open spec fn cursor_wf(&self) -> bool {
        let n = self.current_sample as nat;
        &&& n <= self.sample_count
        &&& time_cursor_wf(self.times@, self.current_times as int, self.time_index as nat, n)
        &&& chunk_cursor_wf(
            self.chunk_samples@,
            self.sizes,
            self.current_chunk as int,
            self.chunk_sample_index as nat,
            self.current_chunk_sample_offset as nat,
            n,
        )
        &&& match self.sync_view() {
            Some(s) => sync_cursor_wf(s, self.current_sync_index as int, n),
            None => true,
        }
    }

    pub open spec fn wf(&self) -> bool {
        self.tables_wf() && self.cursor_wf()
    }

    /// Two tracks with the same tables (cursors aside).
    pub open spec fn same_tables(&self, o: &Track) -> bool {
        &&& self.id == o.id
        &&& self.index == o.index
        &&& self.timescale == o.timescale
        &&& self.duration == o.duration
        &&& self.stts == o.stts
        &&& self.times@ == o.times@
        &&& self.chunk_samples@ == o.chunk_samples@
        &&& self.chunk_offsets@ == o.chunk_offsets@
        &&& self.sizes == o.sizes
        &&& self.sync_view() == o.sync_view()
        &&& self.sample_count == o.sample_count
    }

    /// Where sample `n` starts: the offset of its chunk plus the sizes of the
    /// samples before it in that chunk.
    pub open spec fn spec_sample_offset(&self, n: nat) -> nat {
        let k = self.chunk_samples@;
        let c = sample_chunk(k, n);
        self.chunk_offsets@[c] as nat + size_sum(self.sizes, chunk_prefix(k, c), n)
    }

    /// Sample `n` as the tables describe it.
    pub open spec fn expected_sample(&self, n: nat) -> SampleRef {
        SampleRef {
            time: time_at(self.stts@, n) as u64,
            duration: delta_of(self.stts@, n) as u32,
            data_offset: self.spec_sample_offset(n) as u64,
            data_length: self.sizes.spec_size_of(n as int),
            keyframe: is_sync_sample(self.sync_view(), n),
        }
    }

    /// The sample under the cursor; `None` past the last sample.
    pub fn current_sample(&self) -> (r: Option<SampleRef>)
        requires
            self.wf(),
        ensures
            ({
                let n = self.current_sample as nat;
                if n < self.sample_count {
                    r == Some(self.expected_sample(n))
                } else {
                    r is None
                }
            }),
    {
        proof {
            reveal(tables_ok);
        }
        let n = self.current_sample;
        if n >= self.sample_count {
            return None;
        }
        let ghost k = self.chunk_samples@;
        let ghost ts = self.times@;
        let e = self.current_times;
        let t = self.time_index;
        let c = self.current_chunk;
        proof {
            if e == ts.len() {
                assert(false);
            }
            if c == k.len() {
                assert(false);
            }
        }
        let run = self.times[e];
        let p = Ghost(times_prefix(ts, e as int));
        proof {
            assert(ts[e as int] == run);
            assert forall|j: nat| p@ <= j < p@ + t implies #[trigger] delta_at(self.stts@, j) == Some(
                run.delta,
            ) by {
                assert(times_prefix(ts, e + 1) == p@ + run.count);
            }
            lemma_time_block(self.stts@, p@, run.delta, t as nat);
            assert(delta_at(self.stts@, n as nat) == Some(run.delta)) by {
                assert(times_prefix(ts, e + 1) == p@ + run.count);
            }
            assert(t * run.delta <= run.count * run.delta) by (nonlinear_arith)
                requires
                    t < run.count,
            ;
        }
        let time = run.base + (t as u64) * (run.delta as u64);
        let chunk_offset = self.chunk_offsets[c];
        let o = self.current_chunk_sample_offset;
        proof {
            lemma_sample_chunk(k, c as int, n as nat);
            lemma_tables_facts(self.stts@, ts, k, self.chunk_offsets@.len(), self.sizes, self.sync_view(), self.sample_count);
            assert(self.chunk_offsets@[c as int] + size_sum(self.sizes, chunk_prefix(k, c as int), chunk_prefix(k, c + 1)) <= u64::MAX);
            lemma_size_sum_split(self.sizes, chunk_prefix(k, c as int), n as nat, chunk_prefix(k, c + 1));
        }
        if chunk_offset > u64::MAX - o {
            return None;
        }
        let data_offset = chunk_offset + o;
        let data_length = match self.sizes.get(n) {
            Some(size) => size,
            None => {
                return None;
            },
        };
        let keyframe = match &self.sync_samples {
            None => true,
            Some(s) => {
                let si = self.current_sync_index;
                let hit = s.len() > 0 && s[si] as u64 == n + 1;
                proof {
                    let sv = s@;
                    if hit {
                        assert(sv[si as int] as nat == n + 1);
                    } else if sv.len() > 0 {
                        assert forall|j: int| 0 <= j < sv.len() implies sv[j] as nat != n + 1 by {
                            if j > si {
                                assert(sv[si as int] < sv[j]);
                            }
                        }
                    }
                }
                hit
            },
        };
        Some(SampleRef { time, duration: run.delta, data_offset, data_length, keyframe })
    }

    /// Moves the cursor one sample forward.
    #[verifier::rlimit(100)]
    pub fn advance_sample(&mut self)
        requires
            old(self).wf(),
            old(self).current_sample < old(self).sample_count,
        ensures
            final(self).wf(),
            final(self).same_tables(old(self)),
            final(self).current_sample == old(self).current_sample + 1,
    {
        let n = self.current_sample;
        let ghost k = self.chunk_samples@;
        let ghost ts = self.times@;
        let e = self.current_times;
        let t = self.time_index;
        let c = self.current_chunk;
        let j = self.chunk_sample_index;
        let o = self.current_chunk_sample_offset;
        proof {
            lemma_tables_facts(
                self.stts@,
                ts,
                k,
                self.chunk_offsets@.len(),
                self.sizes,
                self.sync_view(),
                self.sample_count,
            );
            lemma_times_prefix_mono(ts, e as int + 1, ts.len() as int);
            lemma_chunk_prefix_mono(k, c as int + 1, k.len() as int);
            if e == ts.len() || c == k.len() {
                assert(false);
            }
            lemma_time_step(ts, e as int, t as nat, n as nat);
            lemma_chunk_step(k, self.sizes, c as int, j as nat, o as nat, n as nat);
            lemma_size_sum_bound(self.sizes, (n - j) as nat, n as nat);
        }
        let size = match self.sizes.get(n) {
            Some(size) => size,
            None => 0,
        };
        let kc = self.chunk_samples[c];
        let count = self.times[e].count;
        let tl = self.times.len();
        let kl = self.chunk_samples.len();
        assert(e < tl && c < kl);
        proof {
            assert((j as nat) * 0xFFFF_FFFF + 0xFFFF_FFFF <= u64::MAX) by (nonlinear_arith)
                requires
                    j < kc,
                    kc <= 0xFFFF_FFFF,
            ;
        }
        if t + 1 >= count {
            self.time_index = 0;
            self.current_times = e + 1;
        } else {
            self.time_index = t + 1;
        }
        if j + 1 >= kc {
            self.chunk_sample_index = 0;
            self.current_chunk = c + 1;
            self.current_chunk_sample_offset = 0;
        } else {
            self.chunk_sample_index = j + 1;
            self.current_chunk_sample_offset = o + size as u64;
        }
        self.current_sample = n + 1;
        let m = n + 1;
        match &self.sync_samples {
            None => {},
            Some(s) => {
                let si = self.current_sync_index;
                proof {
                    lemma_sync_step(s@, si as int, n as nat);
                }
                if s.len() > 0 && si + 1 < s.len() && m >= s[si] as u64 {
                    self.current_sync_index = si + 1;
                }
            },
        }
    }
}

impl Track {
    /// Compiles a track's sample tables and puts the cursor on its first
    /// sample; fails with `InvalidSampleTable` exactly where the tables are
    /// not valid.
    pub fn from_tables(
        id: u32,
        index: usize,
        timescale: u32,
        duration: u64,
        stts: &[TimeToSampleEntry],
        stsc: &[SampleToChunkEntry],
        chunk_offsets: Vec<u64>,
        sizes: SampleSizes,
        sync_samples: Option<Vec<u32>>,
        sample_entry: SampleEntry,
    ) -> (r: Result<Track, Mp4BoxError>)
        ensures
            r is Ok <==> tables_valid(
                stts@,
                stsc@,
                chunk_offsets@,
                sizes,
                opt_view(sync_samples),
            ),
            r is Err ==> r->Err_0 == Mp4BoxError::InvalidSampleTable,
            r is Ok ==> {
                let t = r->Ok_0;
                &&& t.wf()
                &&& t.current_sample == 0
                &&& t.id == id
                &&& t.index == index
                &&& t.timescale == timescale
                &&& t.duration == duration
                &&& t.stts@ == stts@
                &&& t.chunk_samples@ == expanded_chunks(stsc@, chunk_offsets@.len())
                &&& t.chunk_offsets@ == chunk_offsets@
                &&& t.sizes == sizes
                &&& t.sync_view() == opt_view(sync_samples)
                &&& t.sample_count == stts_total(stts@)
                &&& t.sample_entry == sample_entry
            },
    {
        let times = match get_sample_times(stts) {
            Some(t) => t,
            None => {
                return Err(Mp4BoxError::InvalidSampleTable);
            },
        };
        let chunk_samples = match expand_chunks(stsc, chunk_offsets.len()) {
            Some(k) => k,
            None => {
                return Err(Mp4BoxError::InvalidSampleTable);
            },
        };
        proof {
            assert(chunk_samples@ =~= expanded_chunks(stsc@, chunk_offsets@.len()));
        }
        if !sizes.check() {
            return Err(Mp4BoxError::InvalidSampleTable);
        }
        let sync_ok = match &sync_samples {
            Some(s) => check_sync_samples(s.as_slice()),
            None => true,
        };
        if !sync_ok {
            return Err(Mp4BoxError::InvalidSampleTable);
        }
        let total = match sum_times(times.as_slice()) {
            Some(n) => n,
            None => {
                return Err(Mp4BoxError::InvalidSampleTable);
            },
        };
        let chunk_total = match sum_chunks(chunk_samples.as_slice()) {
            Some(n) => n,
            None => {
                return Err(Mp4BoxError::InvalidSampleTable);
            },
        };
        if chunk_total != total || sizes.count() != total {
            return Err(Mp4BoxError::InvalidSampleTable);
        }
        if !check_chunks_fit(chunk_offsets.as_slice(), chunk_samples.as_slice(), &sizes) {
            return Err(Mp4BoxError::InvalidSampleTable);
        }
        let track = Track {
            id,
            index,
            timescale,
            duration,
            sample_entry,
            stts: Ghost(stts@),
            times,
            chunk_samples,
            chunk_offsets,
            sizes,
            sync_samples,
            sample_count: total,
            current_sync_index: 0,
            current_chunk: 0,
            chunk_sample_index: 0,
            current_chunk_sample_offset: 0,
            current_times: 0,
            time_index: 0,
            current_sample: 0,
        };
        proof {
            reveal(tables_ok);
        }
        Ok(track)
    }
}

/// The decode time of each sample is the sum of the durations of the
/// samples before it: sample 0 starts at 0, and each next sample starts
/// where the one before it ends. The number of samples is the sum of the
/// time-to-sample counts, and that of the sample sizes.
pub proof fn law_sample_times(t: &Track, i: nat)
    requires
        t.wf(),
        i < t.sample_count,
    ensures
        t.expected_sample(0).time == 0,
        i + 1 < t.sample_count ==> t.expected_sample(i + 1).time == t.expected_sample(i).time
            + t.expected_sample(i).duration,
        t.expected_sample(i).time == time_at(t.stts@, i),
        t.sample_count == stts_total(t.stts@),
        t.sample_count == t.sizes.spec_count(),
{
    let es = t.stts@;
    let ts = t.times@;
    lemma_tables_facts(es, ts, t.chunk_samples@, t.chunk_offsets@.len(), t.sizes, t.sync_view(), t.sample_count);
    lemma_tables_times(es, ts, t.chunk_samples@, t.chunk_offsets@.len(), t.sizes, t.sync_view(), t.sample_count);
    lemma_time_mono(es, i + 1, stts_total(es));
    // the duration of sample i is that of its run, so it fits in 32 bits
    assert(delta_of(es, i) <= u32::MAX) by {
        lemma_delta_in_run(ts, es, i);
    }
    if i + 1 < t.sample_count {
        lemma_delta_in_run(ts, es, i + 1);
    }
}

/// Every sample that the entries describe has the duration of some run.
proof fn lemma_delta_in_run(ts: Seq<SampleTimes>, es: Seq<TimeToSampleEntry>, i: nat)
    requires
        times_match(ts, es),
        i < stts_total(es),
    ensures
        delta_of(es, i) <= u32::MAX,
        time_at(es, i) <= time_at(es, stts_total(es)),
        delta_at(es, i) is Some,
        time_at(es, i + 1) == time_at(es, i) + delta_of(es, i),
{
    lemma_time_mono(es, i, stts_total(es));
    // find the run that holds sample i
    let e = choose_run(ts, i);
    assert(delta_at(es, i) == Some(ts[e].delta));
}

/// The run that holds sample `i`.
proof fn choose_run(ts: Seq<SampleTimes>, i: nat) -> (e: int)
    requires
        i < times_prefix(ts, ts.len() as int),
    ensures
        0 <= e < ts.len(),
        times_prefix(ts, e) <= i < times_prefix(ts, e + 1),
    decreases ts.len(),
{
    let n = ts.len() - 1;
    if i >= times_prefix(ts, n) {
        n
    } else {
        lemma_times_prefix_eq(ts.drop_last(), ts, n);
        let e = choose_run(ts.drop_last(), i);
        lemma_times_prefix_eq(ts.drop_last(), ts, e);
        lemma_times_prefix_eq(ts.drop_last(), ts, e + 1);
        e
    }
}

/// Expanding the sample-to-chunk entries over the chunks gives as many
/// samples as the time-to-sample entries describe.
pub proof fn law_chunk_total(t: &Track)
    requires
        t.wf(),
    ensures
        chunk_prefix(t.chunk_samples@, t.chunk_samples@.len() as int) == t.sample_count,
        stts_total(t.stts@) == t.sample_count,
{
    lemma_tables_facts(t.stts@, t.times@, t.chunk_samples@, t.chunk_offsets@.len(), t.sizes, t.sync_view(), t.sample_count);
}

proof fn lemma_size_sum_split(sizes: SampleSizes, a: nat, m: nat, b: nat)
    requires
        a <= m <= b,
    ensures
        size_sum(sizes, a, b) == size_sum(sizes, a, m) + size_sum(sizes, m, b),
    decreases b,
{
    if m < b {
        lemma_size_sum_split(sizes, a, m, (b - 1) as nat);
    }
}

/// Each sample lies within its chunk: it starts at or after the chunk's
/// offset and ends by the chunk's offset plus the sizes of all its samples;
/// and the samples of a chunk follow each other without gap or overlap.
pub proof fn law_sample_in_chunk(t: &Track, c: int, n: nat)
    requires
        t.wf(),
        0 <= c < t.chunk_samples@.len(),
        chunk_prefix(t.chunk_samples@, c) <= n < chunk_prefix(t.chunk_samples@, c + 1),
    ensures
        t.spec_sample_offset(n) >= t.chunk_offsets@[c],
        t.spec_sample_offset(n) + t.sizes.spec_size_of(n as int) <= t.chunk_offsets@[c] + size_sum(
            t.sizes,
            chunk_prefix(t.chunk_samples@, c),
            chunk_prefix(t.chunk_samples@, c + 1),
        ),
        n + 1 < chunk_prefix(t.chunk_samples@, c + 1) ==> t.spec_sample_offset(n + 1)
            == t.spec_sample_offset(n) + t.sizes.spec_size_of(n as int),
{
    let k = t.chunk_samples@;
    lemma_tables_facts(t.stts@, t.times@, k, t.chunk_offsets@.len(), t.sizes, t.sync_view(), t.sample_count);
    let p = chunk_prefix(k, c);
    let q = chunk_prefix(k, c + 1);
    lemma_sample_chunk(k, c, n);
    lemma_size_sum_split(t.sizes, p, n + 1, q);
    if n + 1 < q {
        lemma_sample_chunk(k, c, n + 1);
    }
}

} // verus!
