//! The sample-table boxes: time-to-sample (`stts`), sample-to-chunk (`stsc`),
//! sample sizes (`stsz`), chunk offsets (`stco`, `co64`) and sync samples (`stss`).
use vstd::prelude::*;

use crate::bytes::{
    concat_map, lemma_be_bytes_len, lemma_be_bytes_of_value, lemma_concat_map_len,
    lemma_concat_map_push, push_u32, push_u32_list, push_u64_list, read_u32, read_u32_list,
    read_u64_list, u32_bytes, u64_bytes, be_at,
};
use crate::error::Mp4BoxError;
use crate::framing::{
    full_content_start, full_header_ok,
    full_box_bytes, lemma_full_box_len, total_with_header, BoxName, FullBox, CO64, STCO, STSC,
    STSS, STSZ, STTS,
};

verus! {

/// A table box named `name` can be read at `pos`: its full-box header
/// parses, and the entry count and the `width`-byte entries it announces are
/// all there.
pub open spec fn table_ok(data: Seq<u8>, pos: int, name: BoxName, width: nat) -> bool {
    &&& full_header_ok(data, pos, name)
    &&& {
        let c = full_content_start(data, pos);
        &&& c + 4 <= data.len()
        &&& c + 4 + width * be_at(data, c, 4) <= data.len()
    }
}

/// What a table box's reader leaves behind: the header named `name` at
/// `start`, followed by `content`, read up to `end`.
pub open spec fn read_table(data: Seq<u8>, start: int, end: int, f: FullBox, name: BoxName, content: Seq<u8>) -> bool {
    &&& f.boks.name == name
    &&& start + f.read_size <= end <= data.len()
    &&& data.subrange(start + f.read_size, end) == content
}

/// A table box with header `f` and contents `content` was read at `start`.
pub open spec fn table_read(data: Seq<u8>, start: int, f: FullBox, name: BoxName, content: Seq<u8>) -> bool {
    exists|end: int| #[trigger] read_table(data, start, end, f, name, content)
}

/// An `stsz` box can be read at `pos`: its header, its two fields, and the
/// sizes its count announces where the sample size is 0.
pub open spec fn stsz_ok(data: Seq<u8>, pos: int) -> bool {
    full_header_ok(data, pos, STSZ) && {
        let c = full_content_start(data, pos);
        &&& c + 8 <= data.len()
        &&& (be_at(data, c, 4) != 0 || c + 8 + 4 * be_at(data, c + 4, 4) <= data.len())
    }
}

/// A run of `count` samples, each lasting `delta` ticks.
#[derive(Debug, Clone, Copy, PartialEq, Eq, Structural)]
pub struct TimeToSampleEntry {
    pub count: u32,
    pub delta: u32,
}

pub open spec fn stts_entry_bytes(e: TimeToSampleEntry) -> Seq<u8> {
    u32_bytes(e.count) + u32_bytes(e.delta)
}

/// The time-to-sample box.
pub struct TimeToSampleBox {
    pub full_box: FullBox,
    pub entries: Vec<TimeToSampleEntry>,
}

impl TimeToSampleBox {
    pub open spec fn wf(&self) -> bool {
        self.entries@.len() <= u32::MAX
    }

    pub open spec fn spec_contents(&self) -> Seq<u8> {
        u32_bytes(self.entries@.len() as u32) + concat_map(
            self.entries@,
            |e: TimeToSampleEntry| stts_entry_bytes(e),
        )
    }

    pub open spec fn spec_bytes(&self) -> Seq<u8> {
        full_box_bytes(STTS, 0, 0, self.spec_contents())
    }

    pub fn new(entries: Vec<TimeToSampleEntry>) -> (r: Self)
        ensures
            r.entries == entries,
    {
        TimeToSampleBox { full_box: FullBox::new(STTS, 0, 0), entries }
    }

    /// Reads an `stts` box at `*pos`: the bytes read after its full-box
    /// header are the contents of the result.
    pub fn read(data: &[u8], pos: &mut usize) -> (r: Result<Self, Mp4BoxError>)
        requires
            *old(pos) <= data@.len(),
        ensures
            r is Ok ==> read_table(
                data@,
                *old(pos) as int,
                *final(pos) as int,
                r->Ok_0.full_box,
                STTS,
                r->Ok_0.spec_contents(),
            ) && r->Ok_0.wf(),
            r is Ok <==> table_ok(data@, *old(pos) as int, STTS, 8),
    {
        let full_box = FullBox::read_named(data, pos, STTS)?;
        let start = *pos;
        let count = read_u32(data, pos)?;
        let mut entries: Vec<TimeToSampleEntry> = Vec::new();
        let mut i: u32 = 0;
        proof {
            lemma_be_bytes_of_value(data@.subrange(start as int, start + 4));
        }
        while i < count
            invariant
                i <= count,
                entries@.len() == i,
                start + 4 <= *pos <= data@.len(),
                *pos == start + 4 + 8 * i,
                start == full_content_start(data@, *old(pos) as int),
                count as nat == crate::bytes::be_at(data@, start as int, 4),
                data@.subrange(start as int, start + 4) == u32_bytes(count),
                data@.subrange(start + 4, *pos as int) == concat_map(
                    entries@,
                    |e: TimeToSampleEntry| stts_entry_bytes(e),
                ),
            decreases count - i,
        {
            let p = *pos;
            assert(8 * (i + 1) <= 8 * count) by (nonlinear_arith)
                requires
                    i < count,
            ;
            let c = read_u32(data, pos)?;
            let d = read_u32(data, pos)?;
            let e = TimeToSampleEntry { count: c, delta: d };
            proof {
                lemma_be_bytes_of_value(data@.subrange(p as int, p + 4));
                lemma_be_bytes_of_value(data@.subrange(p + 4, p + 8));
                lemma_concat_map_push(entries@, e, |e: TimeToSampleEntry| stts_entry_bytes(e));
                assert(data@.subrange(start + 4, p + 8) =~= data@.subrange(start + 4, p as int)
                    + data@.subrange(p as int, p + 4) + data@.subrange(p + 4, p + 8));
            }
            entries.push(e);
            i = i + 1;
        }
        assert(data@.subrange(start as int, *pos as int) =~= data@.subrange(start as int, start + 4)
            + data@.subrange(start + 4, *pos as int));
        Ok(TimeToSampleBox { full_box, entries })
    }

    /// Emits the box: a version 0 full box with the entry count and the entries.
    pub fn write(&self, out: &mut Vec<u8>)
        requires
            self.wf(),
        ensures
            final(out)@ == old(out)@ + self.spec_bytes(),
    {
        let total = self.total_size();
        FullBox::new(STTS, 0, 0).write(out, total);
        push_u32(out, self.entries.len() as u32);
        let ghost mid = out@;
        let mut i: usize = 0;
        while i < self.entries.len()
            invariant
                i <= self.entries@.len(),
                out@ == mid + concat_map(
                    self.entries@.subrange(0, i as int),
                    |e: TimeToSampleEntry| stts_entry_bytes(e),
                ),
            decreases self.entries@.len() - i,
        {
            let e = self.entries[i];
            proof {
                lemma_concat_map_push(
                    self.entries@.subrange(0, i as int),
                    e,
                    |e: TimeToSampleEntry| stts_entry_bytes(e),
                );
                assert(self.entries@.subrange(0, i + 1) =~= self.entries@.subrange(0, i as int).push(e));
            }
            push_u32(out, e.count);
            push_u32(out, e.delta);
            i = i + 1;
            assert(out@ =~= mid + concat_map(
                self.entries@.subrange(0, i as int),
                |e: TimeToSampleEntry| stts_entry_bytes(e),
            ));
        }
        assert(self.entries@.subrange(0, self.entries@.len() as int) =~= self.entries@);
        assert(final(out)@ =~= old(out)@ + self.spec_bytes());
    }

    /// The size of the encoded box.
    pub fn total_size(&self) -> (r: u64)
        requires
            self.wf(),
        ensures
            r == self.spec_bytes().len(),
            r == total_with_header(self.spec_contents().len() + 4),
            r <= 0x10_0000_0000,
    {
        proof {
            assert forall|e: TimeToSampleEntry| #[trigger] stts_entry_bytes(e).len() == 8 by {
                lemma_be_bytes_len(e.count as nat, 4);
                lemma_be_bytes_len(e.delta as nat, 4);
            }
            lemma_concat_map_len(self.entries@, |e: TimeToSampleEntry| stts_entry_bytes(e), 8);
            lemma_be_bytes_len(self.entries@.len(), 4);
            lemma_full_box_len(STTS, 0, 0, self.spec_contents());
        }
        self.full_box.size(4 + 8 * self.entries.len() as u64)
    }
}

/// From chunk `first_chunk` (1-based) on, each chunk holds `samples_per_chunk`
/// samples described by entry `sample_description_index` of the `stsd` box.
#[derive(Debug, Clone, Copy, PartialEq, Eq, Structural)]
pub struct SampleToChunkEntry {
    pub first_chunk: u32,
    pub samples_per_chunk: u32,
    pub sample_description_index: u32,
}

pub open spec fn stsc_entry_bytes(e: SampleToChunkEntry) -> Seq<u8> {
    u32_bytes(e.first_chunk) + u32_bytes(e.samples_per_chunk) + u32_bytes(
        e.sample_description_index,
    )
}

/// The sample-to-chunk box.
pub struct SampleToChunkBox {
    pub full_box: FullBox,
    pub entries: Vec<SampleToChunkEntry>,
}

impl SampleToChunkBox {
    pub open spec fn wf(&self) -> bool {
        self.entries@.len() <= u32::MAX
    }

    pub open spec fn spec_contents(&self) -> Seq<u8> {
        u32_bytes(self.entries@.len() as u32) + concat_map(
            self.entries@,
            |e: SampleToChunkEntry| stsc_entry_bytes(e),
        )
    }

    pub open spec fn spec_bytes(&self) -> Seq<u8> {
        full_box_bytes(STSC, 0, 0, self.spec_contents())
    }

    pub fn new(entries: Vec<SampleToChunkEntry>) -> (r: Self)
        ensures
            r.entries == entries,
    {
        SampleToChunkBox { full_box: FullBox::new(STSC, 0, 0), entries }
    }

    /// Reads an `stsc` box at `*pos`: the bytes read after its full-box
    /// header are the contents of the result.
    pub fn read(data: &[u8], pos: &mut usize) -> (r: Result<Self, Mp4BoxError>)
        requires
            *old(pos) <= data@.len(),
        ensures
            r is Ok ==> read_table(
                data@,
                *old(pos) as int,
                *final(pos) as int,
                r->Ok_0.full_box,
                STSC,
                r->Ok_0.spec_contents(),
            ) && r->Ok_0.wf(),
            r is Ok <==> table_ok(data@, *old(pos) as int, STSC, 12),
    {
        let full_box = FullBox::read_named(data, pos, STSC)?;
        let start = *pos;
        let count = read_u32(data, pos)?;
        let mut entries: Vec<SampleToChunkEntry> = Vec::new();
        let mut i: u32 = 0;
        proof {
            lemma_be_bytes_of_value(data@.subrange(start as int, start + 4));
        }
        while i < count
            invariant
                i <= count,
                entries@.len() == i,
                start + 4 <= *pos <= data@.len(),
                *pos == start + 4 + 12 * i,
                start == full_content_start(data@, *old(pos) as int),
                count as nat == crate::bytes::be_at(data@, start as int, 4),
                data@.subrange(start as int, start + 4) == u32_bytes(count),
                data@.subrange(start + 4, *pos as int) == concat_map(
                    entries@,
                    |e: SampleToChunkEntry| stsc_entry_bytes(e),
                ),
            decreases count - i,
        {
            let p = *pos;
            assert(12 * (i + 1) <= 12 * count) by (nonlinear_arith)
                requires
                    i < count,
            ;
            let a = read_u32(data, pos)?;
            let b = read_u32(data, pos)?;
            let c = read_u32(data, pos)?;
            let e = SampleToChunkEntry {
                first_chunk: a,
                samples_per_chunk: b,
                sample_description_index: c,
            };
            proof {
                lemma_be_bytes_of_value(data@.subrange(p as int, p + 4));
                lemma_be_bytes_of_value(data@.subrange(p + 4, p + 8));
                lemma_be_bytes_of_value(data@.subrange(p + 8, p + 12));
                lemma_concat_map_push(entries@, e, |e: SampleToChunkEntry| stsc_entry_bytes(e));
                assert(data@.subrange(start + 4, p + 12) =~= data@.subrange(start + 4, p as int)
                    + data@.subrange(p as int, p + 4) + data@.subrange(p + 4, p + 8)
                    + data@.subrange(p + 8, p + 12));
            }
            entries.push(e);
            i = i + 1;
        }
        assert(data@.subrange(start as int, *pos as int) =~= data@.subrange(start as int, start + 4)
            + data@.subrange(start + 4, *pos as int));
        Ok(SampleToChunkBox { full_box, entries })
    }

    /// Emits the box: a version 0 full box with the entry count and the entries.
    pub fn write(&self, out: &mut Vec<u8>)
        requires
            self.wf(),
        ensures
            final(out)@ == old(out)@ + self.spec_bytes(),
    {
        let total = self.total_size();
        FullBox::new(STSC, 0, 0).write(out, total);
        push_u32(out, self.entries.len() as u32);
        let ghost mid = out@;
        let mut i: usize = 0;
        while i < self.entries.len()
            invariant
                i <= self.entries@.len(),
                out@ == mid + concat_map(
                    self.entries@.subrange(0, i as int),
                    |e: SampleToChunkEntry| stsc_entry_bytes(e),
                ),
            decreases self.entries@.len() - i,
        {
            let e = self.entries[i];
            proof {
                lemma_concat_map_push(
                    self.entries@.subrange(0, i as int),
                    e,
                    |e: SampleToChunkEntry| stsc_entry_bytes(e),
                );
                assert(self.entries@.subrange(0, i + 1) =~= self.entries@.subrange(0, i as int).push(e));
            }
            push_u32(out, e.first_chunk);
            push_u32(out, e.samples_per_chunk);
            push_u32(out, e.sample_description_index);
            i = i + 1;
            assert(out@ =~= mid + concat_map(
                self.entries@.subrange(0, i as int),
                |e: SampleToChunkEntry| stsc_entry_bytes(e),
            ));
        }
        assert(self.entries@.subrange(0, self.entries@.len() as int) =~= self.entries@);
        assert(final(out)@ =~= old(out)@ + self.spec_bytes());
    }

    /// The size of the encoded box.
    pub fn total_size(&self) -> (r: u64)
        requires
            self.wf(),
        ensures
            r == self.spec_bytes().len(),
            r == total_with_header(self.spec_contents().len() + 4),
            r <= 0x10_0000_0000,
    {
        proof {
            assert forall|e: SampleToChunkEntry| #[trigger] stsc_entry_bytes(e).len() == 12 by {
                lemma_be_bytes_len(e.first_chunk as nat, 4);
                lemma_be_bytes_len(e.samples_per_chunk as nat, 4);
                lemma_be_bytes_len(e.sample_description_index as nat, 4);
            }
            lemma_concat_map_len(self.entries@, |e: SampleToChunkEntry| stsc_entry_bytes(e), 12);
            lemma_be_bytes_len(self.entries@.len(), 4);
            lemma_full_box_len(STSC, 0, 0, self.spec_contents());
        }
        self.full_box.size(4 + 12 * self.entries.len() as u64)
    }
}

/// The chunk offset box with 32-bit offsets.
pub struct ChunkOffsetBox {
    pub full_box: FullBox,
    /// The file offset of each chunk.
    pub chunk_offsets: Vec<u32>,
}

impl ChunkOffsetBox {
    pub open spec fn wf(&self) -> bool {
        self.chunk_offsets@.len() <= u32::MAX
    }

    pub open spec fn spec_contents(&self) -> Seq<u8> {
        u32_bytes(self.chunk_offsets@.len() as u32) + concat_map(self.chunk_offsets@, |v: u32| u32_bytes(v))
    }

    pub open spec fn spec_bytes(&self) -> Seq<u8> {
        full_box_bytes(STCO, 0, 0, self.spec_contents())
    }

    pub fn new(chunk_offsets: Vec<u32>) -> (r: Self)
        ensures
            r.chunk_offsets == chunk_offsets,
    {
        ChunkOffsetBox { full_box: FullBox::new(STCO, 0, 0), chunk_offsets }
    }

    /// Reads the box at `*pos`: the bytes read after its full-box header
    /// are the contents of the result.
    pub fn read(data: &[u8], pos: &mut usize) -> (r: Result<Self, Mp4BoxError>)
        requires
            *old(pos) <= data@.len(),
        ensures
            r is Ok ==> read_table(
                data@,
                *old(pos) as int,
                *final(pos) as int,
                r->Ok_0.full_box,
                STCO,
                r->Ok_0.spec_contents(),
            ) && r->Ok_0.wf(),
            r is Ok <==> table_ok(data@, *old(pos) as int, STCO, 4),
    {
        let full_box = FullBox::read_named(data, pos, STCO)?;
        let start = *pos;
        let count = read_u32(data, pos)?;
        let mid = *pos;
        let chunk_offsets = read_u32_list(data, pos, count)?;
        proof {
            lemma_be_bytes_of_value(data@.subrange(start as int, start + 4));
            assert(data@.subrange(start as int, *pos as int) =~= data@.subrange(start as int, mid as int)
                + data@.subrange(mid as int, *pos as int));
        }
        Ok(ChunkOffsetBox { full_box, chunk_offsets })
    }

    /// Emits the box: a version 0 full box with the count and the values.
    pub fn write(&self, out: &mut Vec<u8>)
        requires
            self.wf(),
        ensures
            final(out)@ == old(out)@ + self.spec_bytes(),
    {
        let total = self.total_size();
        FullBox::new(STCO, 0, 0).write(out, total);
        push_u32(out, self.chunk_offsets.len() as u32);
        push_u32_list(out, self.chunk_offsets.as_slice());
        assert(final(out)@ =~= old(out)@ + self.spec_bytes());
    }

    /// The size of the encoded box.
    pub fn total_size(&self) -> (r: u64)
        requires
            self.wf(),
        ensures
            r == self.spec_bytes().len(),
            r == total_with_header(self.spec_contents().len() + 4),
            r <= 0x10_0000_0000,
    {
        proof {
            assert forall|v: u32| #[trigger] u32_bytes(v).len() == 4 by {
                lemma_be_bytes_len(v as nat, 4);
            }
            lemma_concat_map_len(self.chunk_offsets@, |v: u32| u32_bytes(v), 4);
            lemma_be_bytes_len(self.chunk_offsets@.len(), 4);
            lemma_full_box_len(STCO, 0, 0, self.spec_contents());
        }
        self.full_box.size(4 + 4 * self.chunk_offsets.len() as u64)
    }
}

/// The chunk offset box with 64-bit offsets.
pub struct ChunkLargeOffsetBox {
    pub full_box: FullBox,
    /// The file offset of each chunk.
    pub chunk_offsets: Vec<u64>,
}

impl ChunkLargeOffsetBox {
    pub open spec fn wf(&self) -> bool {
        self.chunk_offsets@.len() <= u32::MAX
    }

    pub open spec fn spec_contents(&self) -> Seq<u8> {
        u32_bytes(self.chunk_offsets@.len() as u32) + concat_map(self.chunk_offsets@, |v: u64| u64_bytes(v))
    }

    pub open spec fn spec_bytes(&self) -> Seq<u8> {
        full_box_bytes(CO64, 0, 0, self.spec_contents())
    }

    pub fn new(chunk_offsets: Vec<u64>) -> (r: Self)
        ensures
            r.chunk_offsets == chunk_offsets,
    {
        ChunkLargeOffsetBox { full_box: FullBox::new(CO64, 0, 0), chunk_offsets }
    }

    /// Reads the box at `*pos`: the bytes read after its full-box header
    /// are the contents of the result.
    pub fn read(data: &[u8], pos: &mut usize) -> (r: Result<Self, Mp4BoxError>)
        requires
            *old(pos) <= data@.len(),
        ensures
            r is Ok ==> read_table(
                data@,
                *old(pos) as int,
                *final(pos) as int,
                r->Ok_0.full_box,
                CO64,
                r->Ok_0.spec_contents(),
            ) && r->Ok_0.wf(),
            r is Ok <==> table_ok(data@, *old(pos) as int, CO64, 8),
    {
        let full_box = FullBox::read_named(data, pos, CO64)?;
        let start = *pos;
        let count = read_u32(data, pos)?;
        let mid = *pos;
        let chunk_offsets = read_u64_list(data, pos, count)?;
        proof {
            lemma_be_bytes_of_value(data@.subrange(start as int, start + 4));
            assert(data@.subrange(start as int, *pos as int) =~= data@.subrange(start as int, mid as int)
                + data@.subrange(mid as int, *pos as int));
        }
        Ok(ChunkLargeOffsetBox { full_box, chunk_offsets })
    }

    /// Emits the box: a version 0 full box with the count and the values.
    pub fn write(&self, out: &mut Vec<u8>)
        requires
            self.wf(),
        ensures
            final(out)@ == old(out)@ + self.spec_bytes(),
    {
        let total = self.total_size();
        FullBox::new(CO64, 0, 0).write(out, total);
        push_u32(out, self.chunk_offsets.len() as u32);
        push_u64_list(out, self.chunk_offsets.as_slice());
        assert(final(out)@ =~= old(out)@ + self.spec_bytes());
    }

    /// The size of the encoded box.
    pub fn total_size(&self) -> (r: u64)
        requires
            self.wf(),
        ensures
            r == self.spec_bytes().len(),
            r == total_with_header(self.spec_contents().len() + 4),
            r <= 0x10_0000_0000,
    {
        proof {
            assert forall|v: u64| #[trigger] u64_bytes(v).len() == 8 by {
                lemma_be_bytes_len(v as nat, 8);
            }
            lemma_concat_map_len(self.chunk_offsets@, |v: u64| u64_bytes(v), 8);
            lemma_be_bytes_len(self.chunk_offsets@.len(), 4);
            lemma_full_box_len(CO64, 0, 0, self.spec_contents());
        }
        self.full_box.size(4 + 8 * self.chunk_offsets.len() as u64)
    }
}

/// The sync sample box.
pub struct SyncSampleBox {
    pub full_box: FullBox,
    /// The 1-based numbers of the sync samples, ascending.
    pub sync_samples: Vec<u32>,
}

impl SyncSampleBox {
    pub open spec fn wf(&self) -> bool {
        self.sync_samples@.len() <= u32::MAX
    }

    pub open spec fn spec_contents(&self) -> Seq<u8> {
        u32_bytes(self.sync_samples@.len() as u32) + concat_map(self.sync_samples@, |v: u32| u32_bytes(v))
    }

    pub open spec fn spec_bytes(&self) -> Seq<u8> {
        full_box_bytes(STSS, 0, 0, self.spec_contents())
    }

    pub fn new(sync_samples: Vec<u32>) -> (r: Self)
        ensures
            r.sync_samples == sync_samples,
    {
        SyncSampleBox { full_box: FullBox::new(STSS, 0, 0), sync_samples }
    }

    /// Reads the box at `*pos`: the bytes read after its full-box header
    /// are the contents of the result.
    pub fn read(data: &[u8], pos: &mut usize) -> (r: Result<Self, Mp4BoxError>)
        requires
            *old(pos) <= data@.len(),
        ensures
            r is Ok ==> read_table(
                data@,
                *old(pos) as int,
                *final(pos) as int,
                r->Ok_0.full_box,
                STSS,
                r->Ok_0.spec_contents(),
            ) && r->Ok_0.wf(),
            r is Ok <==> table_ok(data@, *old(pos) as int, STSS, 4),
    {
        let full_box = FullBox::read_named(data, pos, STSS)?;
        let start = *pos;
        let count = read_u32(data, pos)?;
        let mid = *pos;
        let sync_samples = read_u32_list(data, pos, count)?;
        proof {
            lemma_be_bytes_of_value(data@.subrange(start as int, start + 4));
            assert(data@.subrange(start as int, *pos as int) =~= data@.subrange(start as int, mid as int)
                + data@.subrange(mid as int, *pos as int));
        }
        Ok(SyncSampleBox { full_box, sync_samples })
    }

    /// Emits the box: a version 0 full box with the count and the values.
    pub fn write(&self, out: &mut Vec<u8>)
        requires
            self.wf(),
        ensures
            final(out)@ == old(out)@ + self.spec_bytes(),
    {
        let total = self.total_size();
        FullBox::new(STSS, 0, 0).write(out, total);
        push_u32(out, self.sync_samples.len() as u32);
        push_u32_list(out, self.sync_samples.as_slice());
        assert(final(out)@ =~= old(out)@ + self.spec_bytes());
    }

    /// The size of the encoded box.
    pub fn total_size(&self) -> (r: u64)
        requires
            self.wf(),
        ensures
            r == self.spec_bytes().len(),
            r == total_with_header(self.spec_contents().len() + 4),
            r <= 0x10_0000_0000,
    {
        proof {
            assert forall|v: u32| #[trigger] u32_bytes(v).len() == 4 by {
                lemma_be_bytes_len(v as nat, 4);
            }
            lemma_concat_map_len(self.sync_samples@, |v: u32| u32_bytes(v), 4);
            lemma_be_bytes_len(self.sync_samples@.len(), 4);
            lemma_full_box_len(STSS, 0, 0, self.spec_contents());
        }
        self.full_box.size(4 + 4 * self.sync_samples.len() as u64)
    }
}

/// The sizes of the samples of a track: one size for `count` samples, or one
/// size per sample.
#[derive(Debug, Clone)]
pub enum SampleSizes {
    /// The size, which is not 0, and the number of samples.
    Constant(u32, u32),
    Variable(Vec<u32>),
}

impl SampleSizes {
    pub open spec fn wf(&self) -> bool {
        match self {
            SampleSizes::Constant(size, _) => *size != 0,
            SampleSizes::Variable(v) => v@.len() <= u32::MAX,
        }
    }

    /// The number of samples.
    pub open spec fn spec_count(&self) -> nat {
        match self {
            SampleSizes::Constant(_, count) => *count as nat,
            SampleSizes::Variable(v) => v@.len(),
        }
    }

    /// The size of sample `i` (0-based).
    pub open spec fn spec_size_of(&self, i: int) -> u32 {
        match self {
            SampleSizes::Constant(size, _) => *size,
            SampleSizes::Variable(v) => v@[i],
        }
    }

    pub open spec fn spec_contents(&self) -> Seq<u8> {
        match self {
            SampleSizes::Constant(size, count) => u32_bytes(*size) + u32_bytes(*count),
            SampleSizes::Variable(v) => u32_bytes(0) + u32_bytes(v@.len() as u32) + concat_map(
                v@,
                |x: u32| u32_bytes(x),
            ),
        }
    }

    /// The size of the encoded contents.
    pub fn size(&self) -> (r: u64)
        requires
            self.wf(),
        ensures
            r == self.spec_contents().len(),
            r <= 0x4_0000_0008,
    {
        proof {
            lemma_be_bytes_len(0, 4);
            match self {
                SampleSizes::Constant(size, count) => {
                    lemma_be_bytes_len(*size as nat, 4);
                    lemma_be_bytes_len(*count as nat, 4);
                },
                SampleSizes::Variable(v) => {
                    assert forall|x: u32| #[trigger] u32_bytes(x).len() == 4 by {
                        lemma_be_bytes_len(x as nat, 4);
                    }
                    lemma_concat_map_len(v@, |x: u32| u32_bytes(x), 4);
                    lemma_be_bytes_len(v@.len(), 4);
                },
            }
        }
        match self {
            SampleSizes::Constant(_, _) => 8,
            SampleSizes::Variable(v) => 4 * (2 + v.len() as u64),
        }
    }

    /// Whether the sizes are well formed.
    pub fn check(&self) -> (r: bool)
        ensures
            r == self.wf(),
    {
        match self {
            SampleSizes::Constant(size, _) => *size != 0,
            SampleSizes::Variable(v) => v.len() as u64 <= 0xFFFF_FFFF,
        }
    }

    /// The number of samples.
    pub fn count(&self) -> (r: u64)
        ensures
            r == self.spec_count(),
    {
        match self {
            SampleSizes::Constant(_, count) => *count as u64,
            SampleSizes::Variable(v) => v.len() as u64,
        }
    }

    /// The size of sample `i` (0-based), if there is such a sample.
    pub fn get(&self, i: u64) -> (r: Option<u32>)
        ensures
            i < self.spec_count() ==> r == Some(self.spec_size_of(i as int)),
            i >= self.spec_count() ==> r is None,
    {
        match self {
            SampleSizes::Constant(size, count) => if i < (*count as u64) {
                Some(*size)
            } else {
                None
            },
            SampleSizes::Variable(v) => if i < v.len() as u64 {
                Some(v[i as usize])
            } else {
                None
            },
        }
    }
}

/// The sample size box.
pub struct SampleSizeBox {
    pub full_box: FullBox,
    pub sample_sizes: SampleSizes,
}

impl SampleSizeBox {
    pub open spec fn wf(&self) -> bool {
        self.sample_sizes.wf()
    }

    pub open spec fn spec_contents(&self) -> Seq<u8> {
        self.sample_sizes.spec_contents()
    }

    pub open spec fn spec_bytes(&self) -> Seq<u8> {
        full_box_bytes(STSZ, 0, 0, self.spec_contents())
    }

    pub fn new(sample_sizes: SampleSizes) -> (r: Self)
        ensures
            r.sample_sizes == sample_sizes,
    {
        SampleSizeBox { full_box: FullBox::new(STSZ, 0, 0), sample_sizes }
    }

    /// Reads an `stsz` box at `*pos`: a sample size other than 0 gives the
    /// constant form, 0 the list of sizes that follows the count.
    pub fn read(data: &[u8], pos: &mut usize) -> (r: Result<Self, Mp4BoxError>)
        requires
            *old(pos) <= data@.len(),
        ensures
            r is Ok ==> read_table(
                data@,
                *old(pos) as int,
                *final(pos) as int,
                r->Ok_0.full_box,
                STSZ,
                r->Ok_0.spec_contents(),
            ) && r->Ok_0.wf(),
            r is Ok <==> stsz_ok(data@, *old(pos) as int),
    {
        let full_box = FullBox::read_named(data, pos, STSZ)?;
        let start = *pos;
        let constant_size = read_u32(data, pos)?;
        let count = read_u32(data, pos)?;
        let mid = *pos;
        proof {
            lemma_be_bytes_of_value(data@.subrange(start as int, start + 4));
            lemma_be_bytes_of_value(data@.subrange(start + 4, start + 8));
        }
        if constant_size != 0 {
            assert(data@.subrange(start as int, *pos as int) =~= data@.subrange(start as int, start + 4)
                + data@.subrange(start + 4, start + 8));
            return Ok(SampleSizeBox { full_box, sample_sizes: SampleSizes::Constant(constant_size, count) });
        }
        let sizes = read_u32_list(data, pos, count)?;
        assert(data@.subrange(start as int, *pos as int) =~= data@.subrange(start as int, start + 4)
            + data@.subrange(start + 4, start + 8) + data@.subrange(mid as int, *pos as int));
        Ok(SampleSizeBox { full_box, sample_sizes: SampleSizes::Variable(sizes) })
    }

    /// Emits the box: a version 0 full box with the sample sizes.
    pub fn write(&self, out: &mut Vec<u8>)
        requires
            self.wf(),
        ensures
            final(out)@ == old(out)@ + self.spec_bytes(),
    {
        let total = self.total_size();
        FullBox::new(STSZ, 0, 0).write(out, total);
        match &self.sample_sizes {
            SampleSizes::Constant(size, count) => {
                push_u32(out, *size);
                push_u32(out, *count);
            },
            SampleSizes::Variable(sizes) => {
                push_u32(out, 0);
                push_u32(out, sizes.len() as u32);
                push_u32_list(out, sizes.as_slice());
            },
        }
        assert(final(out)@ =~= old(out)@ + self.spec_bytes());
    }

    /// The size of the encoded box.
    pub fn total_size(&self) -> (r: u64)
        requires
            self.wf(),
        ensures
            r == self.spec_bytes().len(),
            r == total_with_header(self.spec_contents().len() + 4),
            r <= 0x10_0000_0000,
    {
        let size = self.sample_sizes.size();
        proof {
            lemma_full_box_len(STSZ, 0, 0, self.spec_contents());
        }
        self.full_box.size(size)
    }
}

/// The chunk offsets of a track, from an `stco` or a `co64` box.
pub enum ChunkOffsets {
    Co64(ChunkLargeOffsetBox),
    Stco(ChunkOffsetBox),
}

impl ChunkOffsets {
    pub open spec fn wf(&self) -> bool {
        match self {
            ChunkOffsets::Co64(b) => b.wf(),
            ChunkOffsets::Stco(b) => b.wf(),
        }
    }

    /// The offsets, widened to 64 bits.
    pub open spec fn spec_offsets(&self) -> Seq<u64> {
        match self {
            ChunkOffsets::Co64(b) => b.chunk_offsets@,
            ChunkOffsets::Stco(b) => b.chunk_offsets@.map_values(|o: u32| o as u64),
        }
    }

    pub open spec fn spec_bytes(&self) -> Seq<u8> {
        match self {
            ChunkOffsets::Co64(b) => b.spec_bytes(),
            ChunkOffsets::Stco(b) => b.spec_bytes(),
        }
    }

    /// The offset of chunk `index` (0-based), if there is such a chunk.
    pub fn get(&self, index: usize) -> (r: Option<u64>)
        ensures
            index < self.spec_offsets().len() ==> r == Some(self.spec_offsets()[index as int]),
            index >= self.spec_offsets().len() ==> r is None,
    {
        match self {
            ChunkOffsets::Stco(b) => if index < b.chunk_offsets.len() {
                Some(b.chunk_offsets[index] as u64)
            } else {
                None
            },
            ChunkOffsets::Co64(b) => if index < b.chunk_offsets.len() {
                Some(b.chunk_offsets[index])
            } else {
                None
            },
        }
    }

    /// All offsets, widened to 64 bits.
    pub fn to_vec(&self) -> (r: Vec<u64>)
        ensures
            r@ == self.spec_offsets(),
    {
        match self {
            ChunkOffsets::Co64(b) => b.chunk_offsets.clone(),
            ChunkOffsets::Stco(b) => {
                let mut r: Vec<u64> = Vec::new();
                let mut i: usize = 0;
                while i < b.chunk_offsets.len()
                    invariant
                        i <= b.chunk_offsets@.len(),
                        r@ == b.chunk_offsets@.subrange(0, i as int).map_values(|o: u32| o as u64),
                    decreases b.chunk_offsets@.len() - i,
                {
                    r.push(b.chunk_offsets[i] as u64);
                    i = i + 1;
                    assert(r@ =~= b.chunk_offsets@.subrange(0, i as int).map_values(|o: u32| o as u64));
                }
                assert(b.chunk_offsets@.subrange(0, i as int) =~= b.chunk_offsets@);
                r
            },
        }
    }

    /// The size of the encoded box.
    pub fn size(&self) -> (r: u64)
        requires
            self.wf(),
        ensures
            r == self.spec_bytes().len(),
            r <= 0x10_0000_0000,
    {
        match self {
            ChunkOffsets::Co64(b) => b.total_size(),
            ChunkOffsets::Stco(b) => b.total_size(),
        }
    }

    /// Emits the box.
    pub fn write(&self, out: &mut Vec<u8>)
        requires
            self.wf(),
        ensures
            final(out)@ == old(out)@ + self.spec_bytes(),
    {
        match self {
            ChunkOffsets::Co64(b) => b.write(out),
            ChunkOffsets::Stco(b) => b.write(out),
        }
    }
}

} // verus!
