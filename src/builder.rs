//! The mux-side table builder: consumes packets in arrival order and
//! accumulates a track's sample-to-chunk, time-to-sample, sync-sample,
//! size and chunk-offset tables.
use vstd::prelude::*;

use crate::error::Mp4MuxerError;
use crate::index::{delta_at, stts_total};
use crate::tables::{SampleToChunkEntry, TimeToSampleEntry};

verus! {

/// What the table builder needs of a packet.
#[derive(Debug, Clone, Copy, PartialEq, Eq, Structural)]
pub struct PacketInfo {
    pub stream_index: isize,
    /// The payload length in bytes.
    pub size: u32,
    pub pts: Option<i64>,
    pub dts: Option<i64>,
    pub duration: Option<u64>,
    pub is_key: bool,
}

/// The timestamp that stands for a packet: its decode time, else its
/// presentation time.
pub open spec fn packet_ts(p: PacketInfo) -> Option<i64> {
    match p.dts {
        Some(d) => Some(d),
        None => p.pts,
    }
}

/// The duration of a packet, given the timestamp of the track's previous
/// packet: its own duration where it has one; else the distance from the
/// previous timestamp; else (the first packet) 0. `None` where the packet has
/// no time at all, or where the duration does not fit in 32 bits.
pub open spec fn packet_delta(p: PacketInfo, prev_ts: Option<i64>) -> Option<u32> {
    match p.duration {
        Some(d) => if d <= u32::MAX {
            Some(d as u32)
        } else {
            None
        },
        None => match packet_ts(p) {
            None => None,
            Some(ts) => match prev_ts {
                None => Some(0),
                Some(prev) => if 0 <= ts - prev <= u32::MAX {
                    Some((ts - prev) as u32)
                } else {
                    None
                },
            },
        },
    }
}

/// The time-to-sample run after a sample of duration `delta`: an open run
/// without a duration takes it; a run of the same duration grows by one.
pub open spec fn merged_time(cur: TimeToSampleEntry, delta: u32) -> TimeToSampleEntry {
    if cur.delta == 0 {
        TimeToSampleEntry { count: (cur.count + 1) as u32, delta }
    } else {
        TimeToSampleEntry { count: (cur.count + 1) as u32, delta: cur.delta }
    }
}

/// The duration of each sample that time-to-sample entries describe, in order.
pub open spec fn expand_times(es: Seq<TimeToSampleEntry>) -> Seq<u32>
    decreases es.len(),
{
    if es.len() == 0 {
        Seq::empty()
    } else {
        expand_times(es.drop_last()) + Seq::new(es.last().count as nat, |i: int| es.last().delta)
    }
}

pub proof fn lemma_expand_push(es: Seq<TimeToSampleEntry>, x: TimeToSampleEntry)
    ensures
        expand_times(es.push(x)) == expand_times(es) + Seq::new(x.count as nat, |i: int| x.delta),
{
    assert(es.push(x).drop_last() =~= es);
}

/// The durations that the time-to-sample entries give the samples, as the
/// demuxer's sample index reads them, are their expansion: one per sample.
pub proof fn law_expanded_durations(es: Seq<TimeToSampleEntry>, i: nat)
    ensures
        stts_total(es) == expand_times(es).len(),
        i < stts_total(es) ==> delta_at(es, i) == Some(expand_times(es)[i as int]),
    decreases es.len(),
{
    if es.len() > 0 {
        law_expanded_durations(es.drop_last(), i);
    }
}

/// How a builder changes when it records a packet written at `offset`
/// after a packet of stream `prev_stream`: from `o` to `f`, with result `r`.
pub open spec fn packet_added(
    o: TrackChunkBuilder,
    f: TrackChunkBuilder,
    prev_stream: isize,
    offset: u64,
    packet: PacketInfo,
    r: Result<(), Mp4MuxerError>,
) -> bool {
        let n = o.sample_index;
        let new_chunk = !o.first_packet && prev_stream != o.stream_index;
        match packet_delta(packet, o.prev_ts) {
            None => r == Err::<(), _>(Mp4MuxerError::InvalidTiming) && f.sample_index
                == n && f.sizes == o.sizes && f.chunks == o.chunks && f.times == o.times,
            Some(delta) => {
                &&& r is Ok
                &&& (delta != 0 && (o.current_time is Some ==> o.current_time->Some_0.delta
                    != 0)) ==> f.durations() == o.durations().push(delta)
                &&& f.sample_index == n + 1
                &&& f.first_packet == false
                &&& f.sizes@ == o.sizes@.push(packet.size)
                &&& f.sync_samples@ == if packet.is_key {
                    o.sync_samples@.push(n)
                } else {
                    o.sync_samples@
                }
                &&& f.offsets@ == if o.first_packet || new_chunk {
                    o.offsets@.push(offset)
                } else {
                    o.offsets@
                }
                &&& if o.first_packet {
                    &&& f.chunks@ == o.chunks@
                    &&& f.current_chunk == Some(
                        SampleToChunkEntry {
                            first_chunk: o.chunk_index,
                            samples_per_chunk: 1,
                            sample_description_index: 1,
                        },
                    )
                } else if new_chunk {
                    &&& f.chunks@ == o.chunks@.push(o.current_chunk->Some_0)
                    &&& f.current_chunk == Some(
                        SampleToChunkEntry {
                            first_chunk: (o.chunk_index + 1) as u32,
                            samples_per_chunk: 1,
                            sample_description_index: 1,
                        },
                    )
                } else {
                    let c = o.current_chunk->Some_0;
                    &&& f.chunks@ == o.chunks@
                    &&& f.current_chunk == Some(
                        SampleToChunkEntry {
                            samples_per_chunk: (c.samples_per_chunk + 1) as u32,
                            ..c
                        },
                    )
                }
                &&& if o.first_packet {
                    f.times@ == o.times@ && f.current_time == Some(
                        TimeToSampleEntry { count: 1, delta },
                    )
                } else {
                    let t = o.current_time->Some_0;
                    if t.delta == 0 || t.delta == delta {
                        f.times@ == o.times@ && f.current_time == Some(
                            merged_time(t, delta),
                        )
                    } else {
                        f.times@ == o.times@.push(t) && f.current_time == Some(
                            TimeToSampleEntry { count: 1, delta },
                        )
                    }
                }
            },
        }
}

/// The tables of one track being muxed, with the chunk and the time run that
/// are still open.
pub struct TrackChunkBuilder {
    pub stream_index: isize,
    pub chunks: Vec<SampleToChunkEntry>,
    pub times: Vec<TimeToSampleEntry>,
    /// The 0-based numbers of the sync samples.
    pub sync_samples: Vec<u32>,
    pub sizes: Vec<u32>,
    pub offsets: Vec<u64>,
    /// The 1-based number of the open chunk.
    pub chunk_index: u32,
    pub sample_index: u32,
    pub current_chunk: Option<SampleToChunkEntry>,
    pub current_time: Option<TimeToSampleEntry>,
    pub prev_ts: Option<i64>,
    pub first_packet: bool,
}

impl TrackChunkBuilder {
    /// The durations recorded so far, the open run included.
    pub open spec fn durations(&self) -> Seq<u32> {
        expand_times(
            match self.current_time {
                Some(c) => self.times@.push(c),
                None => self.times@,
            },
        )
    }

    pub open spec fn wf(&self) -> bool {
        &&& self.first_packet <==> self.current_chunk is None
        &&& self.first_packet <==> self.current_time is None
        &&& self.first_packet ==> self.sample_index == 0 && self.offsets@.len() == 0
        &&& self.sizes@.len() == self.sample_index
        &&& self.offsets@.len() == self.chunks@.len() + if self.current_chunk is Some {
            1int
        } else {
            0
        }
        &&& self.first_packet ==> self.chunk_index == 1
        &&& !self.first_packet ==> self.chunk_index == self.offsets@.len()
        &&& self.current_chunk is Some ==> self.current_chunk->Some_0.first_chunk
            == self.chunk_index
        &&& self.offsets@.len() <= self.sample_index
        &&& self.times@.len() + (if self.current_time is Some {
            1int
        } else {
            0
        }) <= self.sample_index
        &&& self.current_chunk is Some ==> 1 <= self.current_chunk->Some_0.samples_per_chunk
            <= self.sample_index
        &&& self.current_time is Some ==> 1 <= self.current_time->Some_0.count
            <= self.sample_index
        &&& self.sync_samples@.len() <= self.sample_index
        &&& forall|i: int|
            0 <= i < self.sync_samples@.len() ==> #[trigger] self.sync_samples@[i]
                < self.sample_index
    }

    pub fn new(stream_index: isize) -> (r: Self)
        ensures
            r.wf(),
            r.stream_index == stream_index,
            r.chunks@.len() == 0,
            r.times@.len() == 0,
            r.sync_samples@.len() == 0,
            r.sizes@.len() == 0,
            r.offsets@.len() == 0,
            r.sample_index == 0,
            r.first_packet,
            r.prev_ts is None,
    {
        TrackChunkBuilder {
            stream_index,
            chunks: Vec::new(),
            times: Vec::new(),
            sync_samples: Vec::new(),
            sizes: Vec::new(),
            offsets: Vec::new(),
            chunk_index: 1,
            sample_index: 0,
            current_chunk: None,
            current_time: None,
            prev_ts: None,
            first_packet: true,
        }
    }

    /// Closes the open chunk and the open time run.
    pub fn flush(&mut self)
        ensures
            final(self).chunks@ == match old(self).current_chunk {
                Some(c) => old(self).chunks@.push(c),
                None => old(self).chunks@,
            },
            final(self).times@ == match old(self).current_time {
                Some(t) => old(self).times@.push(t),
                None => old(self).times@,
            },
            final(self).current_chunk is None,
            final(self).current_time is None,
            old(self).wf() ==> final(self).chunks@.len() <= final(self).sample_index
                && final(self).times@.len() <= final(self).sample_index
                && final(self).offsets@.len() <= final(self).sample_index
                && final(self).sync_samples@.len() <= final(self).sample_index
                && (forall|i: int| 0 <= i < final(self).sync_samples@.len() ==> #[trigger] final(self).sync_samples@[i]
                < final(self).sample_index),
            final(self).sync_samples == old(self).sync_samples,
            final(self).sizes == old(self).sizes,
            final(self).offsets == old(self).offsets,
            final(self).stream_index == old(self).stream_index,
            final(self).sample_index == old(self).sample_index,
    {
        if let Some(chunk) = self.current_chunk {
            self.chunks.push(chunk);
        }
        if let Some(time) = self.current_time {
            self.times.push(time);
        }
        self.current_chunk = None;
        self.current_time = None;
    }

    /// The packet's duration (see `packet_delta`), remembering its timestamp
    /// for the next packet.
    pub fn take_time_delta(&mut self, packet: &PacketInfo) -> (r: Option<u32>)
        ensures
            r == packet_delta(*packet, old(self).prev_ts),
            final(self).prev_ts == match packet_ts(*packet) {
                Some(ts) => Some(ts),
                None => old(self).prev_ts,
            },
            final(self).stream_index == old(self).stream_index,
            final(self).chunks == old(self).chunks,
            final(self).times == old(self).times,
            final(self).sync_samples == old(self).sync_samples,
            final(self).sizes == old(self).sizes,
            final(self).offsets == old(self).offsets,
            final(self).chunk_index == old(self).chunk_index,
            final(self).sample_index == old(self).sample_index,
            final(self).current_chunk == old(self).current_chunk,
            final(self).current_time == old(self).current_time,
            final(self).first_packet == old(self).first_packet,
    {
        let ts = match packet.dts {
            Some(d) => Some(d),
            None => packet.pts,
        };
        let prev = self.prev_ts;
        if let Some(t) = ts {
            self.prev_ts = Some(t);
        }
        match packet.duration {
            Some(d) => if d <= 0xFFFF_FFFF {
                Some(d as u32)
            } else {
                None
            },
            None => match ts {
                None => None,
                Some(t) => match prev {
                    None => Some(0),
                    Some(p) => {
                        if p <= t && (t as i128) - (p as i128) <= 0xFFFF_FFFF {
                            Some(((t as i128) - (p as i128)) as u32)
                        } else {
                            None
                        }
                    },
                },
            },
        }
    }

    /// Records a packet whose payload was written at `offset`, after a packet
    /// of stream `prev_stream`: opens a chunk on the track's first packet,
    /// closes the open chunk and opens the next where the previous packet was
    /// of another stream, and else adds the sample to the open chunk; merges
    /// its duration into the open time run or closes that run and opens
    /// another; records it as a sync sample if it is a key frame, and its size.
    /// Fails with `InvalidTiming` where the packet's duration cannot be had
    /// (see `packet_delta`), changing nothing but the remembered timestamp.
    pub fn add_packet(&mut self, prev_stream: isize, offset: u64, packet: &PacketInfo) -> (r:
        Result<(), Mp4MuxerError>)
        requires
            old(self).wf(),
            old(self).sample_index < u32::MAX,
        ensures
            final(self).wf(),
            final(self).stream_index == old(self).stream_index,
            packet_added(*old(self), *final(self), prev_stream, offset, *packet, r),
    {
        let delta = match self.take_time_delta(packet) {
            Some(d) => d,
            None => {
                return Err(Mp4MuxerError::InvalidTiming);
            },
        };
        if self.first_packet {
            self.offsets.push(offset);
            self.current_chunk = Some(
                SampleToChunkEntry {
                    first_chunk: self.chunk_index,
                    samples_per_chunk: 1,
                    sample_description_index: 1,
                },
            );
            self.current_time = Some(TimeToSampleEntry { count: 1, delta });
        } else {
            let chunk = match self.current_chunk {
                Some(c) => c,
                None => SampleToChunkEntry {
                    first_chunk: 0,
                    samples_per_chunk: 0,
                    sample_description_index: 0,
                },
            };
            if prev_stream != self.stream_index {
                self.chunk_index = self.chunk_index + 1;
                self.offsets.push(offset);
                self.chunks.push(chunk);
                self.current_chunk = Some(
                    SampleToChunkEntry {
                        first_chunk: self.chunk_index,
                        samples_per_chunk: 1,
                        sample_description_index: 1,
                    },
                );
            } else {
                self.current_chunk = Some(
                    SampleToChunkEntry {
                        samples_per_chunk: chunk.samples_per_chunk + 1,
                        ..chunk
                    },
                );
            }
            let time = match self.current_time {
                Some(t) => t,
                None => TimeToSampleEntry { count: 0, delta: 0 },
            };
            if time.delta == 0 {
                self.current_time = Some(TimeToSampleEntry { count: time.count + 1, delta });
            } else if time.delta == delta {
                self.current_time = Some(TimeToSampleEntry { count: time.count + 1, delta: time.delta });
            } else {
                self.times.push(time);
                self.current_time = Some(TimeToSampleEntry { count: 1, delta });
            }
        }
        proof {
            let o = *old(self);
            if o.current_time is Some {
                let t = o.current_time->Some_0;
                lemma_expand_push(o.times@, t);
                if t.delta == delta || t.delta == 0 {
                    lemma_expand_push(o.times@, merged_time(t, delta));
                    assert(Seq::new((t.count + 1) as nat, |i: int| delta) =~= Seq::new(
                        t.count as nat,
                        |i: int| t.delta,
                    ).push(delta) || t.delta == 0);
                } else {
                    lemma_expand_push(o.times@.push(t), TimeToSampleEntry { count: 1, delta });
                    assert(Seq::new(1, |i: int| delta) =~= seq![delta]);
                }
            } else {
                lemma_expand_push(o.times@, TimeToSampleEntry { count: 1, delta });
                assert(o.times@.len() == 0);
                assert(o.times@ =~= Seq::<TimeToSampleEntry>::empty());
                assert(Seq::new(1, |i: int| delta) =~= seq![delta]);
            }
        }
        if packet.is_key {
            self.sync_samples.push(self.sample_index);
        }
        self.sizes.push(packet.size);
        self.sample_index = self.sample_index + 1;
        self.first_packet = false;
        proof {
            let o = *old(self);
            let f = *self;
            assert(packet_delta(*packet, o.prev_ts) == Some(delta));
            assert((delta != 0 && (o.current_time is Some ==> o.current_time->Some_0.delta != 0))
                ==> f.durations() == o.durations().push(delta));
            assert(f.sizes@ == o.sizes@.push(packet.size));
        }
        Ok(())
    }
}

} // verus!
