//! Container boxes: `stbl`, `minf`, `mdia`, `trak` and `moov`.
use vstd::prelude::*;

use crate::bytes::{be_at, concat_map, lemma_concat_map_prefix_len, lemma_concat_map_push};
use crate::error::Mp4BoxError;
use crate::framing::{
    box_children, child_data, frame_ok,
    versioned_ok,
    after, children, lemma_children_step, lemma_header_prefix, lemma_last_named_bound, lemma_last_named_push, last_named, Child, BoxPrint, full_content_start, full_header_ok,
    BoxName, FullBox,
    header_bytes, header_result, lemma_plain_box_len, plain_box_bytes, require_box, require_either_box,
    non_empty, rest, total_with_header, write_header, Boks, CO64, MDHD, MDIA, MINF, MOOV, MVEX, MVHD,
    HDLR, STBL, STCO, STSC, STSD, STSS, STSZ, STTS, TKHD, TRAK,
};
use crate::headers::{
    mvex_ok, mvex_parsed,
    hdlr_fields, hdlr_ok, mdhd_fields, tkhd_fields,
    DataInformationBox, HandlerBox, MediaHeaderBox, MovieExtendsBox, MovieHeaderBox,
    SoundMediaHeaderBox, TrackHeaderBox, VideoMediaHeaderBox,
};
use crate::stsd::{stsd_ok, stsd_parsed, SampleDescriptionBox};
use crate::tables::{
    stsz_ok, table_ok, table_read,
    read_table,
    ChunkLargeOffsetBox, ChunkOffsetBox, ChunkOffsets, SampleSizeBox, SampleToChunkBox,
    SyncSampleBox, TimeToSampleBox,
};

verus! {

proof fn lemma_concat2(o: Seq<u8>, a: Seq<u8>, b: Seq<u8>)
    ensures
        o + a + b == o + (a + b),
{
    assert(o + a + b =~= o + (a + b));
}

proof fn lemma_concat3(o: Seq<u8>, h: Seq<u8>, a: Seq<u8>, b: Seq<u8>)
    ensures
        o + h + a + b == o + (h + (a + b)),
{
    assert(o + h + a + b =~= o + (h + (a + b)));
}

proof fn lemma_concat7(
    o: Seq<u8>,
    h: Seq<u8>,
    a: Seq<u8>,
    b: Seq<u8>,
    c: Seq<u8>,
    d: Seq<u8>,
    e: Seq<u8>,
    f: Seq<u8>,
)
    ensures
        o + h + a + b + c + d + e + f == o + (h + (a + b + c + d + e + f)),
{
    assert(o + h + a + b + c + d + e + f =~= o + (h + (a + b + c + d + e + f)));
}

proof fn lemma_concat4(o: Seq<u8>, h: Seq<u8>, a: Seq<u8>, b: Seq<u8>, c: Seq<u8>)
    ensures
        o + h + a + b + c == o + (h + (a + b + c)),
{
    assert(o + h + a + b + c =~= o + (h + (a + b + c)));
}

/// A table box named `name`, with full-box header `f` and contents
/// `contents`, was read at a child position of the region `[start, end)`.
pub open spec fn table_at(
    data: Seq<u8>,
    start: int,
    end: int,
    f: FullBox,
    name: BoxName,
    contents: Seq<u8>,
) -> bool {
    exists|q: int, e: int|
        start <= q && e <= end && #[trigger] read_table(data, q, e, f, name, contents)
}

/// The chunk offsets were read from an `stco` box (32-bit form) or a `co64`
/// box (64-bit form) in the region `[start, end)`.
pub open spec fn offsets_at(data: Seq<u8>, start: int, end: int, co: ChunkOffsets) -> bool {
    match co {
        ChunkOffsets::Stco(b) => table_at(data, start, end, b.full_box, STCO, b.spec_contents()),
        ChunkOffsets::Co64(b) => table_at(data, start, end, b.full_box, CO64, b.spec_contents()),
    }
}

/// Where a child that is read fails, not all children read.
proof fn lemma_stbl_child_fails(d: Seq<u8>, done: Seq<Child>, ch: Child, o: Option<Seq<Child>>)
    requires
        !stbl_child_ok(d, ch),
    ensures
        match after(done.push(ch), o) {
            Some(full) => !stbl_all_ok(d, full),
            None => true,
        },
{
    match o {
        Some(t) => {
            let full = done.push(ch) + t;
            assert(full[done.len() as int] == ch);
        },
        None => {},
    }
}

proof fn lemma_table_in_region(
    data: Seq<u8>,
    child: Seq<u8>,
    ce: int,
    q: int,
    e: int,
    f: FullBox,
    name: BoxName,
    contents: Seq<u8>,
    start: int,
    end: int,
)
    requires
        0 <= ce <= data.len(),
        child == data.subrange(0, ce),
        ce <= end,
        0 <= start <= q,
        read_table(child, q, e, f, name, contents),
    ensures
        table_at(data, start, end, f, name, contents),
{
    assert(data.subrange(q + f.read_size, e) =~= child.subrange(q + f.read_size, e));
    assert(read_table(data, q, e, f, name, contents));
}

/// The fields of movie header `m` are those of an `mvhd` box at `q`.
pub open spec fn mvhd_fields(d: Seq<u8>, q: int, m: MovieHeaderBox) -> bool {
    let p = q + m.full_box.read_size;
    &&& m.full_box.boks.name == MVHD
    &&& m.full_box.version <= 1
    &&& m.full_box.version == 0 ==> p + 96 <= d.len() && m.timescale == be_at(d, p + 8, 4)
        && m.duration == be_at(d, p + 12, 4)
    &&& m.full_box.version == 1 ==> p + 108 <= d.len() && m.timescale == be_at(d, p + 16, 4)
        && m.duration == be_at(d, p + 20, 8)
}

/// Movie header `m` was read from a child at a position in `[start, end)`.
pub open spec fn mvhd_at(d: Seq<u8>, start: int, end: int, m: MovieHeaderBox) -> bool {
    exists|q: int| start <= q < end && #[trigger] mvhd_fields(d, q, m)
}

proof fn lemma_be_at_prefix(d: Seq<u8>, ce: int, x: int, n: int)
    requires
        0 <= x,
        0 <= n,
        x + n <= ce <= d.len(),
    ensures
        be_at(d.subrange(0, ce), x, n) == be_at(d, x, n),
{
    assert(d.subrange(0, ce).subrange(x, x + n) =~= d.subrange(x, x + n));
}


/// A child of a sample table box reads, where it is of a kind that is read.
pub open spec fn stbl_child_ok(d: Seq<u8>, ch: Child) -> bool {
    let dc = child_data(d, ch);
    if ch.0 == STSD {
        stsd_ok(dc, ch.1)
    } else if ch.0 == STTS {
        table_ok(dc, ch.1, STTS, 8)
    } else if ch.0 == STSC {
        table_ok(dc, ch.1, STSC, 12)
    } else if ch.0 == STSZ {
        stsz_ok(dc, ch.1)
    } else if ch.0 == CO64 {
        table_ok(dc, ch.1, CO64, 8)
    } else if ch.0 == STCO {
        table_ok(dc, ch.1, STCO, 4)
    } else if ch.0 == STSS {
        table_ok(dc, ch.1, STSS, 4)
    } else {
        true
    }
}

pub open spec fn stbl_all_ok(d: Seq<u8>, cs: Seq<Child>) -> bool {
    forall|i: int| 0 <= i < cs.len() ==> #[trigger] stbl_child_ok(d, cs[i])
}

/// The table named `name` last among `cs` was read as `f` with `content`.
pub open spec fn last_table(d: Seq<u8>, cs: Seq<Child>, name: BoxName, f: FullBox, content: Seq<u8>) -> bool {
    let i = last_named(cs, name);
    0 <= i < cs.len() && table_read(child_data(d, cs[i]), cs[i].1, f, name, content)
}

/// The chunk offsets are those of the last `co64` or `stco` child, in its width.
pub open spec fn last_offsets(d: Seq<u8>, cs: Seq<Child>, co: ChunkOffsets) -> bool {
    if last_named(cs, CO64) > last_named(cs, STCO) {
        match co {
            ChunkOffsets::Co64(b) => last_table(d, cs, CO64, b.full_box, b.spec_contents()),
            _ => false,
        }
    } else {
        match co {
            ChunkOffsets::Stco(b) => last_table(d, cs, STCO, b.full_box, b.spec_contents()),
            _ => false,
        }
    }
}



/// An `stbl` box can be read at `q`: its children fit, those of kinds that
/// are read read, and the sample description, time-to-sample,
/// sample-to-chunk, sample size and chunk offset boxes are there.
pub open spec fn stbl_ok(d: Seq<u8>, q: int) -> bool {
    &&& frame_ok(d, q, STBL)
    &&& box_children(d, q) is Some
    &&& stbl_all_ok(d, box_children(d, q)->Some_0)
    &&& stbl_missing(box_children(d, q)->Some_0) is None
}

/// The error for the first required child that is missing, if any.
pub open spec fn stbl_missing(cs: Seq<Child>) -> Option<Mp4BoxError> {
    if last_named(cs, STSD) < 0 {
        Some(Mp4BoxError::RequiredBoxNotFound(BoxPrint(STSD)))
    } else if last_named(cs, STTS) < 0 {
        Some(Mp4BoxError::RequiredBoxNotFound(BoxPrint(STTS)))
    } else if last_named(cs, STSC) < 0 {
        Some(Mp4BoxError::RequiredBoxNotFound(BoxPrint(STSC)))
    } else if last_named(cs, STSZ) < 0 {
        Some(Mp4BoxError::RequiredBoxNotFound(BoxPrint(STSZ)))
    } else if last_named(cs, CO64) < 0 && last_named(cs, STCO) < 0 {
        Some(Mp4BoxError::RequiredEitherBoxesNotFound(BoxPrint(CO64), BoxPrint(STCO)))
    } else {
        None
    }
}

/// The fields of `b` are those read from the last child of each kind among `cs`.
pub open spec fn stbl_fields(d: Seq<u8>, cs: Seq<Child>, b: SampleTableBox) -> bool {
    let i = last_named(cs, STSD);
    &&& 0 <= i < cs.len() && stsd_parsed(child_data(d, cs[i]), cs[i].1, b.stsd)
    &&& last_table(d, cs, STTS, b.stts.full_box, b.stts.spec_contents())
    &&& last_table(d, cs, STSC, b.stsc.full_box, b.stsc.spec_contents())
    &&& last_table(d, cs, STSZ, b.stsz.full_box, b.stsz.spec_contents())
    &&& last_offsets(d, cs, b.chunk_offsets)
    &&& (b.stss is Some <==> last_named(cs, STSS) >= 0)
    &&& (b.stss is Some ==> last_table(d, cs, STSS, b.stss->Some_0.full_box, b.stss->Some_0.spec_contents()))
}

/// `b` is the `stbl` box at `q`.
pub open spec fn stbl_parsed(d: Seq<u8>, q: int, b: SampleTableBox) -> bool {
    box_children(d, q) is Some && stbl_fields(d, box_children(d, q)->Some_0, b)
}

/// The sample table box.
pub struct SampleTableBox {
    pub stsd: SampleDescriptionBox,
    pub stts: TimeToSampleBox,
    pub stsc: SampleToChunkBox,
    pub stsz: SampleSizeBox,
    pub chunk_offsets: ChunkOffsets,
    pub stss: Option<SyncSampleBox>,
}

impl SampleTableBox {
    pub open spec fn spec_contents(&self) -> Seq<u8> {
        self.stsd.spec_bytes() + self.stts.spec_bytes() + self.stsc.spec_bytes()
            + self.stsz.spec_bytes() + self.chunk_offsets.spec_bytes() + self.spec_stss_bytes()
    }

    pub open spec fn spec_stss_bytes(&self) -> Seq<u8> {
        match self.stss {
            Some(b) => b.spec_bytes(),
            None => Seq::empty(),
        }
    }

    #[verifier::opaque]
    pub open spec fn spec_bytes(&self) -> Seq<u8> {
        plain_box_bytes(STBL, self.spec_contents())
    }

    #[verifier::opaque]
    pub open spec fn wf(&self) -> bool {
        &&& self.stsd.wf()
        &&& self.stts.wf()
        &&& self.stsc.wf()
        &&& self.stsz.wf()
        &&& self.chunk_offsets.wf()
        &&& (self.stss is Some ==> self.stss->Some_0.wf())
        &&& total_with_header(self.spec_contents().len()) <= u64::MAX
    }

    pub fn new(
        stsd: SampleDescriptionBox,
        stts: TimeToSampleBox,
        stsc: SampleToChunkBox,
        stsz: SampleSizeBox,
        chunk_offsets: ChunkOffsets,
        stss: Option<SyncSampleBox>,
    ) -> (r: Self)
        ensures
            r.stsd == stsd,
            r.stts == stts,
            r.stsc == stsc,
            r.stsz == stsz,
            r.chunk_offsets == chunk_offsets,
            r.stss == stss,
    {
        SampleTableBox { stsd, stts, stsc, stsz, chunk_offsets, stss }
    }

    /// Reads an `stbl` box at `*pos`; the sample description, time-to-sample,
    /// sample-to-chunk, sample size and chunk offset boxes are required.
    /// Where a kind occurs more than once, the last one counts.
    #[verifier::rlimit(100)]
    pub fn read(data: &[u8], pos: &mut usize) -> (r: Result<Self, Mp4BoxError>)
        requires
            *old(pos) <= data@.len(),
        ensures
            r is Ok <==> stbl_ok(data@, *old(pos) as int),
            r is Ok ==> stbl_parsed(data@, *old(pos) as int, r->Ok_0),
            r is Ok ==> {
                &&& header_result(rest(data@, *old(pos) as int)) is Ok
                &&& header_result(rest(data@, *old(pos) as int))->Ok_0.0 == STBL
                &&& *final(pos) == *old(pos) + header_result(rest(data@, *old(pos) as int))->Ok_0.1
                &&& r->Ok_0.stts.wf() && r->Ok_0.stsc.wf() && r->Ok_0.stsz.wf()
                &&& r->Ok_0.chunk_offsets.wf() && r->Ok_0.stsd.wf()
                &&& (r->Ok_0.stss is Some ==> r->Ok_0.stss->Some_0.wf())
            },
            frame_ok(data@, *old(pos) as int, STBL) && box_children(data@, *old(pos) as int) is Some
                && stbl_all_ok(data@, box_children(data@, *old(pos) as int)->Some_0)
                && stbl_missing(box_children(data@, *old(pos) as int)->Some_0) is Some ==> r
                == Err::<Self, _>(stbl_missing(box_children(data@, *old(pos) as int)->Some_0)->Some_0),
    {
        let start = *pos;
        let boks = Boks::read_named(data, pos, STBL)?;
        if boks.size > (data.len() - start) as u64 {
            return Err(Mp4BoxError::UnexpectedEos);
        }
        let end = start + boks.size as usize;
        let region = &data[0..end];
        let mut stsd: Option<SampleDescriptionBox> = None;
        let mut stts: Option<TimeToSampleBox> = None;
        let mut stsc: Option<SampleToChunkBox> = None;
        let mut stsz: Option<SampleSizeBox> = None;
        let mut chunk_offsets: Option<ChunkOffsets> = None;
        let mut stss: Option<SyncSampleBox> = None;
        let ghost done: Seq<Child> = Seq::empty();
        let ghost c0 = *pos as int;
        assert(after(done, children(data@, c0, end as int)) =~= children(data@, c0, end as int));
        assert(box_children(data@, start as int) == children(data@, c0, end as int));
        while *pos < end
            invariant
                region@ == data@.subrange(0, end as int),
                end <= data@.len(),
                start == *old(pos),
                end == start + boks.size,
                frame_ok(data@, start as int, STBL),
                box_children(data@, start as int) == children(data@, c0, end as int),
                c0 <= *pos <= end,
                after(done, children(data@, *pos as int, end as int)) == children(data@, c0, end as int),
                stbl_all_ok(data@, done),
                forall|i: int| 0 <= i < done.len() ==> #[trigger] done[i].2 <= end,
                (stsd is Some) == (last_named(done, STSD) >= 0),
                stsd is Some ==> stsd_parsed(child_data(data@, done[last_named(done, STSD)]), done[last_named(done, STSD)].1, stsd->Some_0) && stsd->Some_0.wf(),
                (stts is Some) == (last_named(done, STTS) >= 0),
                stts is Some ==> last_table(data@, done, STTS, stts->Some_0.full_box, stts->Some_0.spec_contents()) && stts->Some_0.wf(),
                (stsc is Some) == (last_named(done, STSC) >= 0),
                stsc is Some ==> last_table(data@, done, STSC, stsc->Some_0.full_box, stsc->Some_0.spec_contents()) && stsc->Some_0.wf(),
                (stsz is Some) == (last_named(done, STSZ) >= 0),
                stsz is Some ==> last_table(data@, done, STSZ, stsz->Some_0.full_box, stsz->Some_0.spec_contents()) && stsz->Some_0.wf(),
                (chunk_offsets is Some) == (last_named(done, CO64) >= 0 || last_named(done, STCO) >= 0),
                chunk_offsets is Some ==> last_offsets(data@, done, chunk_offsets->Some_0) && chunk_offsets->Some_0.wf(),
                (stss is Some) == (last_named(done, STSS) >= 0),
                stss is Some ==> last_table(data@, done, STSS, stss->Some_0.full_box, stss->Some_0.spec_contents()) && stss->Some_0.wf(),
            decreases end - *pos,
        {
            let child_start = *pos;
            let h = match Boks::peek(region, child_start) {
                Ok(h) => h,
                Err(e) => {
                    assert(children(data@, child_start as int, end as int) is None);
                    return Err(e);
                },
            };
            if h.size > (end - child_start) as u64 {
                assert(children(data@, child_start as int, end as int) is None);
                return Err(Mp4BoxError::UnexpectedEos);
            }
            let child_end = child_start + h.size as usize;
            let ghost ch: Child = (h.name, child_start as int, child_end as int);
            let ghost nd = done.push(ch);
            proof {
                lemma_children_step(data@, child_start as int, end as int, done);
                lemma_header_prefix(data@, child_start as int, child_end as int, end as int);
                lemma_last_named_push(done, ch, STSD);
                lemma_last_named_push(done, ch, STTS);
                lemma_last_named_push(done, ch, STSC);
                lemma_last_named_push(done, ch, STSZ);
                lemma_last_named_push(done, ch, CO64);
                lemma_last_named_push(done, ch, STCO);
                lemma_last_named_push(done, ch, STSS);
                assert(forall|i: int| 0 <= i < done.len() ==> nd[i] == done[i]);
                assert(nd[done.len() as int] == ch);
            }
            let child = &data[0..child_end];
            assert(child@ == child_data(data@, ch));
            let mut p = child_start;
            let ok = if h.name == STSD {
                match SampleDescriptionBox::read(child, &mut p) {
                    Ok(b) => { stsd = Some(b); true },
                    Err(e) => false,
                }
            } else if h.name == STTS {
                match TimeToSampleBox::read(child, &mut p) {
                    Ok(b) => { stts = Some(b); true },
                    Err(e) => false,
                }
            } else if h.name == STSC {
                match SampleToChunkBox::read(child, &mut p) {
                    Ok(b) => { stsc = Some(b); true },
                    Err(e) => false,
                }
            } else if h.name == STSZ {
                match SampleSizeBox::read(child, &mut p) {
                    Ok(b) => { stsz = Some(b); true },
                    Err(e) => false,
                }
            } else if h.name == CO64 {
                match ChunkLargeOffsetBox::read(child, &mut p) {
                    Ok(b) => { chunk_offsets = Some(ChunkOffsets::Co64(b)); true },
                    Err(e) => false,
                }
            } else if h.name == STCO {
                match ChunkOffsetBox::read(child, &mut p) {
                    Ok(b) => { chunk_offsets = Some(ChunkOffsets::Stco(b)); true },
                    Err(e) => false,
                }
            } else if h.name == STSS {
                match SyncSampleBox::read(child, &mut p) {
                    Ok(b) => { stss = Some(b); true },
                    Err(e) => false,
                }
            } else {
                true
            };
            if !ok {
                proof {
                    lemma_stbl_child_fails(data@, done, ch, children(data@, child_end as int, end as int));
                }
                return Err(Mp4BoxError::UnexpectedEos);
            }
            proof {
                assert(stbl_child_ok(data@, ch));
                assert(stbl_all_ok(data@, nd)) by {
                    assert forall|i: int| 0 <= i < nd.len() implies #[trigger] stbl_child_ok(data@, nd[i]) by {
                        if i < done.len() {
                            assert(nd[i] == done[i]);
                        }
                    }
                }
                done = nd;
            }
            *pos = child_end;
        }
        assert(children(data@, end as int, end as int) == Some(Seq::<Child>::empty()));
        assert(done + Seq::<Child>::empty() =~= done);
        let stsd = match stsd {
            Some(b) => b,
            None => {
                return Err(Mp4BoxError::RequiredBoxNotFound(BoxPrint(STSD)));
            },
        };
        let stts = match stts {
            Some(b) => b,
            None => {
                return Err(Mp4BoxError::RequiredBoxNotFound(BoxPrint(STTS)));
            },
        };
        let stsc = match stsc {
            Some(b) => b,
            None => {
                return Err(Mp4BoxError::RequiredBoxNotFound(BoxPrint(STSC)));
            },
        };
        let stsz = match stsz {
            Some(b) => b,
            None => {
                return Err(Mp4BoxError::RequiredBoxNotFound(BoxPrint(STSZ)));
            },
        };
        let chunk_offsets = match chunk_offsets {
            Some(b) => b,
            None => {
                return Err(Mp4BoxError::RequiredEitherBoxesNotFound(BoxPrint(CO64), BoxPrint(STCO)));
            },
        };
        let b = SampleTableBox { stsd, stts, stsc, stsz, chunk_offsets, stss };
        proof {
            assert(*pos == end);
            lemma_last_named_bound(done, STSD);
            assert(box_children(data@, start as int) == Some(done));
            assert(last_table(data@, done, STTS, b.stts.full_box, b.stts.spec_contents()));
            assert(last_offsets(data@, done, b.chunk_offsets));
            assert(stbl_fields(data@, done, b));
        }
        Ok(b)
    }

    fn content_size(&self) -> (r: u64)
        requires
            self.wf(),
        ensures
            r == self.spec_contents().len(),
    {
        proof {
            reveal(SampleTableBox::wf);
        }
        let a = self.stsd.total_size();
        let b = self.stts.total_size();
        let c = self.stsc.total_size();
        let d = self.stsz.total_size();
        let e = self.chunk_offsets.size();
        let f = match &self.stss {
            Some(s) => s.total_size(),
            None => 0,
        };
        a + b + c + d + e + f
    }

    pub fn write(&self, out: &mut Vec<u8>)
        requires
            self.wf(),
        ensures
            final(out)@ == old(out)@ + self.spec_bytes(),
    {
        proof {
            reveal(SampleTableBox::wf);
        }
        let content = self.content_size();
        write_header(out, STBL, content);
        let ghost h = header_bytes(STBL, total_with_header(content as nat) as u64);
        let ghost f = self.spec_stss_bytes();
        let ghost o1 = out@;
        self.stsd.write(out);
        self.stts.write(out);
        self.stsc.write(out);
        self.stsz.write(out);
        self.chunk_offsets.write(out);
        let ghost o2 = out@;
        if let Some(stss) = &self.stss {
            stss.write(out);
        }
        assert(out@ == o2 + f) by {
            if self.stss is None {
                assert(o2 + f =~= o2);
            }
        }
        proof {
            reveal(SampleTableBox::spec_bytes);
            lemma_concat7(
                old(out)@,
                h,
                self.stsd.spec_bytes(),
                self.stts.spec_bytes(),
                self.stsc.spec_bytes(),
                self.stsz.spec_bytes(),
                self.chunk_offsets.spec_bytes(),
                f,
            );
        }
    }

    pub fn total_size(&self) -> (r: u64)
        requires
            self.wf(),
        ensures
            r == self.spec_bytes().len(),
            r == total_with_header(self.spec_contents().len()),
    {
        proof {
            reveal(SampleTableBox::wf);
        }
        let content = self.content_size();
        proof {
            reveal(SampleTableBox::spec_bytes);
            lemma_plain_box_len(STBL, self.spec_contents());
        }
        Boks::new(STBL).size(content)
    }
}

/// The media header of a track: video or sound.
pub enum MediaHeader {
    Video(VideoMediaHeaderBox),
    Sound(SoundMediaHeaderBox),
}

/// The media information box.
pub struct MediaInformationBox {
    pub media_header: Option<MediaHeader>,
    pub dinf: Option<DataInformationBox>,
    pub stbl: SampleTableBox,
}

/// A child of a media information box reads, where it is of a kind that is read.
pub open spec fn minf_child_ok(d: Seq<u8>, ch: Child) -> bool {
    let dc = child_data(d, ch);
    if ch.0 == STBL {
        stbl_ok(dc, ch.1)
    } else {
        true
    }
}

pub open spec fn minf_all_ok(d: Seq<u8>, cs: Seq<Child>) -> bool {
    forall|i: int| 0 <= i < cs.len() ==> #[trigger] minf_child_ok(d, cs[i])
}

/// The error for the first required child of a media information box that is missing, if any.
pub open spec fn minf_missing(cs: Seq<Child>) -> Option<Mp4BoxError> {
    if last_named(cs, STBL) < 0 {
        Some(Mp4BoxError::RequiredBoxNotFound(BoxPrint(STBL)))
    } else {
        None
    }
}

/// The fields of `b` are those read from the last child of each kind among `cs`.
pub open spec fn minf_fields(d: Seq<u8>, cs: Seq<Child>, b: MediaInformationBox) -> bool {
    &&& {
        let i = last_named(cs, STBL);
        0 <= i < cs.len() && stbl_parsed(child_data(d, cs[i]), cs[i].1, b.stbl)
    }
    &&& b.media_header is None
    &&& b.dinf is None
}

/// A media information box can be read at `q`: its children fit, those of kinds that
/// are read read, and the required ones are there.
pub open spec fn minf_ok(d: Seq<u8>, q: int) -> bool {
    &&& frame_ok(d, q, MINF)
    &&& box_children(d, q) is Some
    &&& minf_all_ok(d, box_children(d, q)->Some_0)
    &&& minf_missing(box_children(d, q)->Some_0) is None
}

/// `b` is a media information box read at `q`.
pub open spec fn minf_parsed(d: Seq<u8>, q: int, b: MediaInformationBox) -> bool {
    box_children(d, q) is Some && minf_fields(d, box_children(d, q)->Some_0, b)
}

proof fn lemma_minf_child_fails(d: Seq<u8>, done: Seq<Child>, ch: Child, o: Option<Seq<Child>>)
    requires
        !minf_child_ok(d, ch),
    ensures
        match after(done.push(ch), o) {
            Some(full) => !minf_all_ok(d, full),
            None => true,
        },
{
    match o {
        Some(t) => {
            let full = done.push(ch) + t;
            assert(full[done.len() as int] == ch);
        },
        None => {},
    }
}

impl MediaInformationBox {
    pub open spec fn spec_contents(&self) -> Seq<u8> {
        self.spec_header_bytes() + self.spec_dinf_bytes() + self.stbl.spec_bytes()
    }

    pub open spec fn spec_header_bytes(&self) -> Seq<u8> {
        match self.media_header {
            Some(MediaHeader::Video(v)) => v.spec_bytes(),
            Some(MediaHeader::Sound(s)) => s.spec_bytes(),
            None => Seq::empty(),
        }
    }

    pub open spec fn spec_dinf_bytes(&self) -> Seq<u8> {
        match self.dinf {
            Some(d) => d.spec_bytes(),
            None => Seq::empty(),
        }
    }

    #[verifier::opaque]
    pub open spec fn spec_bytes(&self) -> Seq<u8> {
        plain_box_bytes(MINF, self.spec_contents())
    }

    #[verifier::opaque]
    /// Written only with its media header and data information box.
    pub open spec fn wf(&self) -> bool {
        &&& self.media_header is Some
        &&& self.dinf is Some
        &&& (self.dinf is Some ==> self.dinf->Some_0.wf())
        &&& self.stbl.wf()
        &&& total_with_header(self.spec_contents().len()) <= u64::MAX
    }

    pub fn new(media_header: MediaHeader, dinf: DataInformationBox, stbl: SampleTableBox) -> (r:
        Self)
        ensures
            r.media_header == Some(media_header),
            r.dinf == Some(dinf),
            r.stbl == stbl,
    {
        MediaInformationBox { media_header: Some(media_header), dinf: Some(dinf), stbl }
    }

    /// Reads a `minf` box at `*pos`; only its sample table is kept.
    #[verifier::rlimit(100)]
    pub fn read(data: &[u8], pos: &mut usize) -> (r: Result<Self, Mp4BoxError>)
        requires
            *old(pos) <= data@.len(),
        ensures
            r is Ok <==> minf_ok(data@, *old(pos) as int),
            r is Ok ==> minf_parsed(data@, *old(pos) as int, r->Ok_0),
            r is Ok ==> {
                &&& header_result(rest(data@, *old(pos) as int)) is Ok
                &&& header_result(rest(data@, *old(pos) as int))->Ok_0.0 == MINF
                &&& *final(pos) == *old(pos) + header_result(rest(data@, *old(pos) as int))->Ok_0.1
            },
            frame_ok(data@, *old(pos) as int, MINF) && box_children(data@, *old(pos) as int) is Some
                && minf_all_ok(data@, box_children(data@, *old(pos) as int)->Some_0)
                && minf_missing(box_children(data@, *old(pos) as int)->Some_0) is Some ==> r
                == Err::<Self, _>(minf_missing(box_children(data@, *old(pos) as int)->Some_0)->Some_0),
    {
        let start = *pos;
        let boks = Boks::read_named(data, pos, MINF)?;
        if boks.size > (data.len() - start) as u64 {
            return Err(Mp4BoxError::UnexpectedEos);
        }
        let end = start + boks.size as usize;
        let region = &data[0..end];
        let mut stbl: Option<SampleTableBox> = None;
        let ghost done: Seq<Child> = Seq::empty();
        let ghost c0 = *pos as int;
        assert(after(done, children(data@, c0, end as int)) =~= children(data@, c0, end as int));
        assert(box_children(data@, start as int) == children(data@, c0, end as int));
        while *pos < end
            invariant
                region@ == data@.subrange(0, end as int),
                end <= data@.len(),
                start == *old(pos),
                end == start + boks.size,
                frame_ok(data@, start as int, MINF),
                box_children(data@, start as int) == children(data@, c0, end as int),
                c0 <= *pos <= end,
                after(done, children(data@, *pos as int, end as int)) == children(data@, c0, end as int),
                minf_all_ok(data@, done),
                (stbl is Some) == (last_named(done, STBL) >= 0),
                stbl is Some ==> stbl_parsed(child_data(data@, done[last_named(done, STBL)]), done[last_named(done, STBL)].1, stbl->Some_0),
            decreases end - *pos,
        {
            let child_start = *pos;
            let h = match Boks::peek(region, child_start) {
                Ok(h) => h,
                Err(e) => {
                    assert(children(data@, child_start as int, end as int) is None);
                    return Err(e);
                },
            };
            if h.size > (end - child_start) as u64 {
                assert(children(data@, child_start as int, end as int) is None);
                return Err(Mp4BoxError::UnexpectedEos);
            }
            let child_end = child_start + h.size as usize;
            let ghost ch: Child = (h.name, child_start as int, child_end as int);
            let ghost nd = done.push(ch);
            proof {
                lemma_children_step(data@, child_start as int, end as int, done);
                lemma_last_named_push(done, ch, STBL);
                assert(forall|i: int| 0 <= i < done.len() ==> nd[i] == done[i]);
                assert(nd[done.len() as int] == ch);
            }
            let child = &data[0..child_end];
            assert(child@ == child_data(data@, ch));
            let mut p = child_start;
            let ok = if h.name == STBL {
                match SampleTableBox::read(child, &mut p) {
                    Ok(b) => {
                        stbl = Some(b);
                        true
                    },
                    Err(_) => false,
                }
            } else {
                true
            };
            if !ok {
                proof {
                    lemma_minf_child_fails(data@, done, ch, children(data@, child_end as int, end as int));
                }
                return Err(Mp4BoxError::UnexpectedEos);
            }
            proof {
                assert(minf_child_ok(data@, ch));
                assert forall|i: int| 0 <= i < nd.len() implies #[trigger] minf_child_ok(data@, nd[i]) by {
                    if i < done.len() {
                        assert(nd[i] == done[i]);
                    }
                }
                done = nd;
            }
            *pos = child_end;
        }
        assert(children(data@, end as int, end as int) == Some(Seq::<Child>::empty()));
        assert(done + Seq::<Child>::empty() =~= done);
        proof {
            lemma_last_named_bound(done, STBL);
        }
        let stbl = match stbl {
            Some(b) => b,
            None => {
                return Err(Mp4BoxError::RequiredBoxNotFound(BoxPrint(STBL)));
            },
        };
        let b = MediaInformationBox { stbl, media_header: None, dinf: None };
        assert(box_children(data@, start as int) == Some(done));
        Ok(b)
    }

    fn content_size(&self) -> (r: u64)
        requires
            self.wf(),
        ensures
            r == self.spec_contents().len(),
    {
        proof {
            reveal(MediaInformationBox::wf);
        }
        let a = match &self.media_header {
            Some(MediaHeader::Video(v)) => v.total_size(),
            Some(MediaHeader::Sound(s)) => s.total_size(),
            None => 0,
        };
        let b = match &self.dinf {
            Some(d) => d.total_size(),
            None => 0,
        };
        a + b + self.stbl.total_size()
    }

    /// Emits the box with the children that it has.
    pub fn write(&self, out: &mut Vec<u8>)
        requires
            self.wf(),
        ensures
            final(out)@ == old(out)@ + self.spec_bytes(),
    {
        proof {
            reveal(MediaInformationBox::wf);
        }
        let content = self.content_size();
        write_header(out, MINF, content);
        let ghost h = header_bytes(MINF, total_with_header(content as nat) as u64);
        let ghost a = self.spec_header_bytes();
        let ghost b = self.spec_dinf_bytes();
        let ghost o1 = out@;
        match &self.media_header {
            Some(MediaHeader::Video(v)) => v.write(out),
            Some(MediaHeader::Sound(s)) => s.write(out),
            None => {},
        }
        assert(out@ == o1 + a) by {
            if self.media_header is None {
                assert(o1 + a =~= o1);
            }
        }
        let ghost o2 = out@;
        if let Some(d) = &self.dinf {
            d.write(out);
        }
        assert(out@ == o2 + b) by {
            if self.dinf is None {
                assert(o2 + b =~= o2);
            }
        }
        self.stbl.write(out);
        proof {
            reveal(MediaInformationBox::spec_bytes);
            lemma_concat4(old(out)@, h, a, b, self.stbl.spec_bytes());
        }
    }

    pub fn total_size(&self) -> (r: u64)
        requires
            self.wf(),
        ensures
            r == self.spec_bytes().len(),
            r == total_with_header(self.spec_contents().len()),
    {
        proof {
            reveal(MediaInformationBox::wf);
        }
        let content = self.content_size();
        proof {
            reveal(MediaInformationBox::spec_bytes);
            lemma_plain_box_len(MINF, self.spec_contents());
        }
        Boks::new(MINF).size(content)
    }
}

/// The media box.
pub struct MediaBox {
    pub mdhd: MediaHeaderBox,
    pub hdlr: HandlerBox,
    pub minf: MediaInformationBox,
}

/// A child of a media box reads, where it is of a kind that is read.
pub open spec fn mdia_child_ok(d: Seq<u8>, ch: Child) -> bool {
    let dc = child_data(d, ch);
    if ch.0 == MDHD {
        versioned_ok(dc, ch.1, MDHD, 20, 32)
    } else if ch.0 == HDLR {
        hdlr_ok(dc, ch.1)
    } else if ch.0 == MINF {
        minf_ok(dc, ch.1)
    } else {
        true
    }
}

pub open spec fn mdia_all_ok(d: Seq<u8>, cs: Seq<Child>) -> bool {
    forall|i: int| 0 <= i < cs.len() ==> #[trigger] mdia_child_ok(d, cs[i])
}

/// The error for the first required child of a media box that is missing, if any.
pub open spec fn mdia_missing(cs: Seq<Child>) -> Option<Mp4BoxError> {
    if last_named(cs, MDHD) < 0 {
        Some(Mp4BoxError::RequiredBoxNotFound(BoxPrint(MDHD)))
    } else if last_named(cs, HDLR) < 0 {
        Some(Mp4BoxError::RequiredBoxNotFound(BoxPrint(HDLR)))
    } else if last_named(cs, MINF) < 0 {
        Some(Mp4BoxError::RequiredBoxNotFound(BoxPrint(MINF)))
    } else {
        None
    }
}

/// The fields of `b` are those read from the last child of each kind among `cs`.
pub open spec fn mdia_fields(d: Seq<u8>, cs: Seq<Child>, b: MediaBox) -> bool {
    &&& {
        let i = last_named(cs, MDHD);
        0 <= i < cs.len() && mdhd_fields(child_data(d, cs[i]), cs[i].1, b.mdhd)
    }
    &&& {
        let i = last_named(cs, HDLR);
        0 <= i < cs.len() && hdlr_fields(child_data(d, cs[i]), cs[i].1, b.hdlr)
    }
    &&& {
        let i = last_named(cs, MINF);
        0 <= i < cs.len() && minf_parsed(child_data(d, cs[i]), cs[i].1, b.minf)
    }
}

/// A media box can be read at `q`: its children fit, those of kinds that
/// are read read, and the required ones are there.
pub open spec fn mdia_ok(d: Seq<u8>, q: int) -> bool {
    &&& frame_ok(d, q, MDIA)
    &&& box_children(d, q) is Some
    &&& mdia_all_ok(d, box_children(d, q)->Some_0)
    &&& mdia_missing(box_children(d, q)->Some_0) is None
}

/// `b` is a media box read at `q`.
pub open spec fn mdia_parsed(d: Seq<u8>, q: int, b: MediaBox) -> bool {
    box_children(d, q) is Some && mdia_fields(d, box_children(d, q)->Some_0, b)
}

proof fn lemma_mdia_child_fails(d: Seq<u8>, done: Seq<Child>, ch: Child, o: Option<Seq<Child>>)
    requires
        !mdia_child_ok(d, ch),
    ensures
        match after(done.push(ch), o) {
            Some(full) => !mdia_all_ok(d, full),
            None => true,
        },
{
    match o {
        Some(t) => {
            let full = done.push(ch) + t;
            assert(full[done.len() as int] == ch);
        },
        None => {},
    }
}

impl MediaBox {
    pub open spec fn spec_contents(&self) -> Seq<u8> {
        self.mdhd.spec_bytes() + self.hdlr.spec_bytes() + self.minf.spec_bytes()
    }

    #[verifier::opaque]
    pub open spec fn spec_bytes(&self) -> Seq<u8> {
        plain_box_bytes(MDIA, self.spec_contents())
    }

    #[verifier::opaque]
    pub open spec fn wf(&self) -> bool {
        &&& self.hdlr.wf()
        &&& self.minf.wf()
        &&& total_with_header(self.spec_contents().len()) <= u64::MAX
    }

    pub fn new(mdhd: MediaHeaderBox, hdlr: HandlerBox, minf: MediaInformationBox) -> (r: Self)
        ensures
            r.mdhd == mdhd,
            r.hdlr == hdlr,
            r.minf == minf,
    {
        MediaBox { mdhd, hdlr, minf }
    }

    /// Reads an `mdia` box at `*pos`; its `mdhd`, `hdlr` and `minf` are required.
    #[verifier::rlimit(100)]
    pub fn read(data: &[u8], pos: &mut usize) -> (r: Result<Self, Mp4BoxError>)
        requires
            *old(pos) <= data@.len(),
        ensures
            r is Ok <==> mdia_ok(data@, *old(pos) as int),
            r is Ok ==> mdia_parsed(data@, *old(pos) as int, r->Ok_0),
            r is Ok ==> {
                &&& header_result(rest(data@, *old(pos) as int)) is Ok
                &&& header_result(rest(data@, *old(pos) as int))->Ok_0.0 == MDIA
                &&& *final(pos) == *old(pos) + header_result(rest(data@, *old(pos) as int))->Ok_0.1
            },
            frame_ok(data@, *old(pos) as int, MDIA) && box_children(data@, *old(pos) as int) is Some
                && mdia_all_ok(data@, box_children(data@, *old(pos) as int)->Some_0)
                && mdia_missing(box_children(data@, *old(pos) as int)->Some_0) is Some ==> r
                == Err::<Self, _>(mdia_missing(box_children(data@, *old(pos) as int)->Some_0)->Some_0),
    {
        let start = *pos;
        let boks = Boks::read_named(data, pos, MDIA)?;
        if boks.size > (data.len() - start) as u64 {
            return Err(Mp4BoxError::UnexpectedEos);
        }
        let end = start + boks.size as usize;
        let region = &data[0..end];
        let mut mdhd: Option<MediaHeaderBox> = None;
        let mut hdlr: Option<HandlerBox> = None;
        let mut minf: Option<MediaInformationBox> = None;
        let ghost done: Seq<Child> = Seq::empty();
        let ghost c0 = *pos as int;
        assert(after(done, children(data@, c0, end as int)) =~= children(data@, c0, end as int));
        assert(box_children(data@, start as int) == children(data@, c0, end as int));
        while *pos < end
            invariant
                region@ == data@.subrange(0, end as int),
                end <= data@.len(),
                start == *old(pos),
                end == start + boks.size,
                frame_ok(data@, start as int, MDIA),
                box_children(data@, start as int) == children(data@, c0, end as int),
                c0 <= *pos <= end,
                after(done, children(data@, *pos as int, end as int)) == children(data@, c0, end as int),
                mdia_all_ok(data@, done),
                (mdhd is Some) == (last_named(done, MDHD) >= 0),
                mdhd is Some ==> mdhd_fields(child_data(data@, done[last_named(done, MDHD)]), done[last_named(done, MDHD)].1, mdhd->Some_0),
                (hdlr is Some) == (last_named(done, HDLR) >= 0),
                hdlr is Some ==> hdlr_fields(child_data(data@, done[last_named(done, HDLR)]), done[last_named(done, HDLR)].1, hdlr->Some_0),
                (minf is Some) == (last_named(done, MINF) >= 0),
                minf is Some ==> minf_parsed(child_data(data@, done[last_named(done, MINF)]), done[last_named(done, MINF)].1, minf->Some_0),
            decreases end - *pos,
        {
            let child_start = *pos;
            let h = match Boks::peek(region, child_start) {
                Ok(h) => h,
                Err(e) => {
                    assert(children(data@, child_start as int, end as int) is None);
                    return Err(e);
                },
            };
            if h.size > (end - child_start) as u64 {
                assert(children(data@, child_start as int, end as int) is None);
                return Err(Mp4BoxError::UnexpectedEos);
            }
            let child_end = child_start + h.size as usize;
            let ghost ch: Child = (h.name, child_start as int, child_end as int);
            let ghost nd = done.push(ch);
            proof {
                lemma_children_step(data@, child_start as int, end as int, done);
                lemma_last_named_push(done, ch, MDHD);
                lemma_last_named_push(done, ch, HDLR);
                lemma_last_named_push(done, ch, MINF);
                assert(forall|i: int| 0 <= i < done.len() ==> nd[i] == done[i]);
                assert(nd[done.len() as int] == ch);
            }
            let child = &data[0..child_end];
            assert(child@ == child_data(data@, ch));
            let mut p = child_start;
            let ok = if h.name == MDHD {
                match MediaHeaderBox::read(child, &mut p) {
                    Ok(b) => {
                        mdhd = Some(b);
                        true
                    },
                    Err(_) => false,
                }
            } else if h.name == HDLR {
                match HandlerBox::read(child, &mut p) {
                    Ok(b) => {
                        hdlr = Some(b);
                        true
                    },
                    Err(_) => false,
                }
            } else if h.name == MINF {
                match MediaInformationBox::read(child, &mut p) {
                    Ok(b) => {
                        minf = Some(b);
                        true
                    },
                    Err(_) => false,
                }
            } else {
                true
            };
            if !ok {
                proof {
                    lemma_mdia_child_fails(data@, done, ch, children(data@, child_end as int, end as int));
                }
                return Err(Mp4BoxError::UnexpectedEos);
            }
            proof {
                assert(mdia_child_ok(data@, ch));
                assert forall|i: int| 0 <= i < nd.len() implies #[trigger] mdia_child_ok(data@, nd[i]) by {
                    if i < done.len() {
                        assert(nd[i] == done[i]);
                    }
                }
                done = nd;
            }
            *pos = child_end;
        }
        assert(children(data@, end as int, end as int) == Some(Seq::<Child>::empty()));
        assert(done + Seq::<Child>::empty() =~= done);
        proof {
            lemma_last_named_bound(done, MDHD);
            lemma_last_named_bound(done, HDLR);
            lemma_last_named_bound(done, MINF);
        }
        let mdhd = match mdhd {
            Some(b) => b,
            None => {
                return Err(Mp4BoxError::RequiredBoxNotFound(BoxPrint(MDHD)));
            },
        };
        let hdlr = match hdlr {
            Some(b) => b,
            None => {
                return Err(Mp4BoxError::RequiredBoxNotFound(BoxPrint(HDLR)));
            },
        };
        let minf = match minf {
            Some(b) => b,
            None => {
                return Err(Mp4BoxError::RequiredBoxNotFound(BoxPrint(MINF)));
            },
        };
        let b = MediaBox { mdhd, hdlr, minf };
        assert(box_children(data@, start as int) == Some(done));
        Ok(b)
    }

    pub fn write(&self, out: &mut Vec<u8>)
        requires
            self.wf(),
        ensures
            final(out)@ == old(out)@ + self.spec_bytes(),
    {
        proof {
            reveal(MediaBox::wf);
        }
        let content = self.mdhd.total_size() + self.hdlr.total_size() + self.minf.total_size();
        write_header(out, MDIA, content);
        let ghost h = header_bytes(MDIA, total_with_header(content as nat) as u64);
        let ghost a = self.mdhd.spec_bytes();
        let ghost b = self.hdlr.spec_bytes();
        let ghost c = self.minf.spec_bytes();
        self.mdhd.write(out);
        self.hdlr.write(out);
        self.minf.write(out);
        proof {
            reveal(MediaBox::spec_bytes);
            lemma_concat4(old(out)@, h, a, b, c);
        }
    }

    pub fn total_size(&self) -> (r: u64)
        requires
            self.wf(),
        ensures
            r == self.spec_bytes().len(),
            r == total_with_header(self.spec_contents().len()),
    {
        proof {
            reveal(MediaBox::wf);
        }
        let content = self.mdhd.total_size() + self.hdlr.total_size() + self.minf.total_size();
        proof {
            reveal(MediaBox::spec_bytes);
            lemma_plain_box_len(MDIA, self.spec_contents());
        }
        Boks::new(MDIA).size(content)
    }
}

/// The track box.
pub struct TrackBox {
    pub tkhd: TrackHeaderBox,
    pub mdia: MediaBox,
}

#[verifier::opaque]
pub open spec fn trak_bytes(t: TrackBox) -> Seq<u8> {
    plain_box_bytes(TRAK, t.tkhd.spec_bytes() + t.mdia.spec_bytes())
}

/// A child of a track box reads, where it is of a kind that is read.
pub open spec fn trak_child_ok(d: Seq<u8>, ch: Child) -> bool {
    let dc = child_data(d, ch);
    if ch.0 == TKHD {
        versioned_ok(dc, ch.1, TKHD, 80, 92)
    } else if ch.0 == MDIA {
        mdia_ok(dc, ch.1)
    } else {
        true
    }
}

pub open spec fn trak_all_ok(d: Seq<u8>, cs: Seq<Child>) -> bool {
    forall|i: int| 0 <= i < cs.len() ==> #[trigger] trak_child_ok(d, cs[i])
}

/// The error for the first required child of a track box that is missing, if any.
pub open spec fn trak_missing(cs: Seq<Child>) -> Option<Mp4BoxError> {
    if last_named(cs, TKHD) < 0 {
        Some(Mp4BoxError::RequiredBoxNotFound(BoxPrint(TKHD)))
    } else if last_named(cs, MDIA) < 0 {
        Some(Mp4BoxError::RequiredBoxNotFound(BoxPrint(MDIA)))
    } else {
        None
    }
}

/// The fields of `b` are those read from the last child of each kind among `cs`.
pub open spec fn trak_fields(d: Seq<u8>, cs: Seq<Child>, b: TrackBox) -> bool {
    &&& {
        let i = last_named(cs, TKHD);
        0 <= i < cs.len() && tkhd_fields(child_data(d, cs[i]), cs[i].1, b.tkhd)
    }
    &&& {
        let i = last_named(cs, MDIA);
        0 <= i < cs.len() && mdia_parsed(child_data(d, cs[i]), cs[i].1, b.mdia)
    }
}

/// A track box can be read at `q`: its children fit, those of kinds that
/// are read read, and the required ones are there.
pub open spec fn trak_ok(d: Seq<u8>, q: int) -> bool {
    &&& frame_ok(d, q, TRAK)
    &&& box_children(d, q) is Some
    &&& trak_all_ok(d, box_children(d, q)->Some_0)
    &&& trak_missing(box_children(d, q)->Some_0) is None
}

/// `b` is a track box read at `q`.
pub open spec fn trak_parsed(d: Seq<u8>, q: int, b: TrackBox) -> bool {
    box_children(d, q) is Some && trak_fields(d, box_children(d, q)->Some_0, b)
}

proof fn lemma_trak_child_fails(d: Seq<u8>, done: Seq<Child>, ch: Child, o: Option<Seq<Child>>)
    requires
        !trak_child_ok(d, ch),
    ensures
        match after(done.push(ch), o) {
            Some(full) => !trak_all_ok(d, full),
            None => true,
        },
{
    match o {
        Some(t) => {
            let full = done.push(ch) + t;
            assert(full[done.len() as int] == ch);
        },
        None => {},
    }
}

impl TrackBox {
    pub open spec fn spec_bytes(&self) -> Seq<u8> {
        trak_bytes(*self)
    }

    #[verifier::opaque]
    pub open spec fn wf(&self) -> bool {
        &&& self.mdia.wf()
        &&& total_with_header(self.tkhd.spec_bytes().len() + self.mdia.spec_bytes().len())
            <= u64::MAX
    }

    pub fn new(tkhd: TrackHeaderBox, mdia: MediaBox) -> (r: Self)
        ensures
            r.tkhd == tkhd,
            r.mdia == mdia,
    {
        TrackBox { tkhd, mdia }
    }

    /// Reads a `trak` box at `*pos`; its `tkhd` and `mdia` are required.
    #[verifier::rlimit(100)]
    pub fn read(data: &[u8], pos: &mut usize) -> (r: Result<Self, Mp4BoxError>)
        requires
            *old(pos) <= data@.len(),
        ensures
            r is Ok <==> trak_ok(data@, *old(pos) as int),
            r is Ok ==> trak_parsed(data@, *old(pos) as int, r->Ok_0),
            r is Ok ==> {
                &&& header_result(rest(data@, *old(pos) as int)) is Ok
                &&& header_result(rest(data@, *old(pos) as int))->Ok_0.0 == TRAK
                &&& *final(pos) == *old(pos) + header_result(rest(data@, *old(pos) as int))->Ok_0.1
            },
            frame_ok(data@, *old(pos) as int, TRAK) && box_children(data@, *old(pos) as int) is Some
                && trak_all_ok(data@, box_children(data@, *old(pos) as int)->Some_0)
                && trak_missing(box_children(data@, *old(pos) as int)->Some_0) is Some ==> r
                == Err::<Self, _>(trak_missing(box_children(data@, *old(pos) as int)->Some_0)->Some_0),
    {
        let start = *pos;
        let boks = Boks::read_named(data, pos, TRAK)?;
        if boks.size > (data.len() - start) as u64 {
            return Err(Mp4BoxError::UnexpectedEos);
        }
        let end = start + boks.size as usize;
        let region = &data[0..end];
        let mut tkhd: Option<TrackHeaderBox> = None;
        let mut mdia: Option<MediaBox> = None;
        let ghost done: Seq<Child> = Seq::empty();
        let ghost c0 = *pos as int;
        assert(after(done, children(data@, c0, end as int)) =~= children(data@, c0, end as int));
        assert(box_children(data@, start as int) == children(data@, c0, end as int));
        while *pos < end
            invariant
                region@ == data@.subrange(0, end as int),
                end <= data@.len(),
                start == *old(pos),
                end == start + boks.size,
                frame_ok(data@, start as int, TRAK),
                box_children(data@, start as int) == children(data@, c0, end as int),
                c0 <= *pos <= end,
                after(done, children(data@, *pos as int, end as int)) == children(data@, c0, end as int),
                trak_all_ok(data@, done),
                (tkhd is Some) == (last_named(done, TKHD) >= 0),
                tkhd is Some ==> tkhd_fields(child_data(data@, done[last_named(done, TKHD)]), done[last_named(done, TKHD)].1, tkhd->Some_0),
                (mdia is Some) == (last_named(done, MDIA) >= 0),
                mdia is Some ==> mdia_parsed(child_data(data@, done[last_named(done, MDIA)]), done[last_named(done, MDIA)].1, mdia->Some_0),
            decreases end - *pos,
        {
            let child_start = *pos;
            let h = match Boks::peek(region, child_start) {
                Ok(h) => h,
                Err(e) => {
                    assert(children(data@, child_start as int, end as int) is None);
                    return Err(e);
                },
            };
            if h.size > (end - child_start) as u64 {
                assert(children(data@, child_start as int, end as int) is None);
                return Err(Mp4BoxError::UnexpectedEos);
            }
            let child_end = child_start + h.size as usize;
            let ghost ch: Child = (h.name, child_start as int, child_end as int);
            let ghost nd = done.push(ch);
            proof {
                lemma_children_step(data@, child_start as int, end as int, done);
                lemma_last_named_push(done, ch, TKHD);
                lemma_last_named_push(done, ch, MDIA);
                assert(forall|i: int| 0 <= i < done.len() ==> nd[i] == done[i]);
                assert(nd[done.len() as int] == ch);
            }
            let child = &data[0..child_end];
            assert(child@ == child_data(data@, ch));
            let mut p = child_start;
            let ok = if h.name == TKHD {
                match TrackHeaderBox::read(child, &mut p) {
                    Ok(b) => {
                        tkhd = Some(b);
                        true
                    },
                    Err(_) => false,
                }
            } else if h.name == MDIA {
                match MediaBox::read(child, &mut p) {
                    Ok(b) => {
                        mdia = Some(b);
                        true
                    },
                    Err(_) => false,
                }
            } else {
                true
            };
            if !ok {
                proof {
                    lemma_trak_child_fails(data@, done, ch, children(data@, child_end as int, end as int));
                }
                return Err(Mp4BoxError::UnexpectedEos);
            }
            proof {
                assert(trak_child_ok(data@, ch));
                assert forall|i: int| 0 <= i < nd.len() implies #[trigger] trak_child_ok(data@, nd[i]) by {
                    if i < done.len() {
                        assert(nd[i] == done[i]);
                    }
                }
                done = nd;
            }
            *pos = child_end;
        }
        assert(children(data@, end as int, end as int) == Some(Seq::<Child>::empty()));
        assert(done + Seq::<Child>::empty() =~= done);
        proof {
            lemma_last_named_bound(done, TKHD);
            lemma_last_named_bound(done, MDIA);
        }
        let tkhd = match tkhd {
            Some(b) => b,
            None => {
                return Err(Mp4BoxError::RequiredBoxNotFound(BoxPrint(TKHD)));
            },
        };
        let mdia = match mdia {
            Some(b) => b,
            None => {
                return Err(Mp4BoxError::RequiredBoxNotFound(BoxPrint(MDIA)));
            },
        };
        let b = TrackBox { tkhd, mdia };
        assert(box_children(data@, start as int) == Some(done));
        Ok(b)
    }

    pub fn write(&self, out: &mut Vec<u8>)
        requires
            self.wf(),
        ensures
            final(out)@ == old(out)@ + self.spec_bytes(),
    {
        proof {
            reveal(TrackBox::wf);
        }
        let content = self.tkhd.total_size() + self.mdia.total_size();
        write_header(out, TRAK, content);
        let ghost h = header_bytes(TRAK, total_with_header(content as nat) as u64);
        self.tkhd.write(out);
        self.mdia.write(out);
        proof {
            reveal(trak_bytes);
            lemma_concat3(old(out)@, h, self.tkhd.spec_bytes(), self.mdia.spec_bytes());
        }
    }

    pub fn total_size(&self) -> (r: u64)
        requires
            self.wf(),
        ensures
            r == self.spec_bytes().len(),
            r == total_with_header(self.tkhd.spec_bytes().len() + self.mdia.spec_bytes().len()),
    {
        proof {
            reveal(TrackBox::wf);
        }
        let content = self.tkhd.total_size() + self.mdia.total_size();
        proof {
            reveal(trak_bytes);
            lemma_plain_box_len(TRAK, self.tkhd.spec_bytes() + self.mdia.spec_bytes());
        }
        Boks::new(TRAK).size(content)
    }
}

/// The movie box.
pub struct MovieBox {
    pub mvhd: MovieHeaderBox,
    pub mvex: Option<MovieExtendsBox>,
    pub tracks: Vec<TrackBox>,
}

/// A child of a movie box reads, where it is of a kind that is read.
pub open spec fn moov_child_ok(d: Seq<u8>, ch: Child) -> bool {
    let dc = child_data(d, ch);
    if ch.0 == MVHD {
        versioned_ok(dc, ch.1, MVHD, 96, 108)
    } else if ch.0 == MVEX {
        mvex_ok(dc, ch.1)
    } else {
        true
    }
}

pub open spec fn moov_all_ok(d: Seq<u8>, cs: Seq<Child>) -> bool {
    forall|i: int| 0 <= i < cs.len() ==> #[trigger] moov_child_ok(d, cs[i])
}

/// The error for the first required child of a movie box that is missing, if any.
pub open spec fn moov_missing(d: Seq<u8>, cs: Seq<Child>) -> Option<Mp4BoxError> {
    if last_named(cs, MVHD) < 0 {
        Some(Mp4BoxError::RequiredBoxNotFound(BoxPrint(MVHD)))
    } else if moov_traks(d, cs).len() == 0 {
        Some(Mp4BoxError::NotEnoughBoxes(BoxPrint(TRAK), 1, 0))
    } else {
        None
    }
}

/// The `trak` children among `cs` that read, in order.
pub open spec fn moov_traks(d: Seq<u8>, cs: Seq<Child>) -> Seq<Child>
    decreases cs.len(),
{
    if cs.len() == 0 {
        Seq::empty()
    } else {
        let t = moov_traks(d, cs.drop_last());
        if cs.last().0 == TRAK && trak_ok(child_data(d, cs.last()), cs.last().1) {
            t.push(cs.last())
        } else {
            t
        }
    }
}

/// The tracks are those read from the `trak` children that read, in order.
pub open spec fn tracks_read(d: Seq<u8>, cs: Seq<Child>, tracks: Seq<TrackBox>) -> bool {
    let tr = moov_traks(d, cs);
    &&& tracks.len() == tr.len()
    &&& forall|i: int|
        0 <= i < tr.len() ==> trak_parsed(child_data(d, tr[i]), tr[i].1, #[trigger] tracks[i])
}

/// The fields of `b` are those read from the last child of each kind among `cs`.
pub open spec fn moov_fields(d: Seq<u8>, cs: Seq<Child>, b: MovieBox) -> bool {
    &&& {
        let i = last_named(cs, MVHD);
        0 <= i < cs.len() && mvhd_fields(child_data(d, cs[i]), cs[i].1, b.mvhd)
    }
    &&& (b.mvex is Some <==> last_named(cs, MVEX) >= 0)
    &&& (b.mvex is Some ==> {
        let i = last_named(cs, MVEX);
        0 <= i < cs.len() && mvex_parsed(child_data(d, cs[i]), cs[i].1, b.mvex->Some_0)
    })
    &&& tracks_read(d, cs, b.tracks@)
}

/// A movie box can be read at `q`: its children fit, those of kinds that
/// are read read, and the required ones are there.
pub open spec fn moov_ok(d: Seq<u8>, q: int) -> bool {
    &&& frame_ok(d, q, MOOV)
    &&& box_children(d, q) is Some
    &&& moov_all_ok(d, box_children(d, q)->Some_0)
    &&& moov_missing(d, box_children(d, q)->Some_0) is None
}

/// `b` is a movie box read at `q`.
pub open spec fn moov_parsed(d: Seq<u8>, q: int, b: MovieBox) -> bool {
    box_children(d, q) is Some && moov_fields(d, box_children(d, q)->Some_0, b)
}

proof fn lemma_moov_child_fails(d: Seq<u8>, done: Seq<Child>, ch: Child, o: Option<Seq<Child>>)
    requires
        !moov_child_ok(d, ch),
    ensures
        match after(done.push(ch), o) {
            Some(full) => !moov_all_ok(d, full),
            None => true,
        },
{
    match o {
        Some(t) => {
            let full = done.push(ch) + t;
            assert(full[done.len() as int] == ch);
        },
        None => {},
    }
}

impl MovieBox {
    pub open spec fn spec_contents(&self) -> Seq<u8> {
        self.mvhd.spec_bytes() + self.spec_mvex_bytes() + concat_map(
            self.tracks@,
            |t: TrackBox| trak_bytes(t),
        )
    }

    pub open spec fn spec_mvex_bytes(&self) -> Seq<u8> {
        match self.mvex {
            Some(m) => m.spec_bytes(),
            None => Seq::empty(),
        }
    }

    pub open spec fn spec_bytes(&self) -> Seq<u8> {
        plain_box_bytes(MOOV, self.spec_contents())
    }

    pub open spec fn wf(&self) -> bool {
        &&& forall|i: int| 0 <= i < self.tracks@.len() ==> #[trigger] self.tracks@[i].wf()
        &&& total_with_header(self.spec_contents().len()) <= u64::MAX
    }

    pub fn new(mvhd: MovieHeaderBox, mvex: Option<MovieExtendsBox>, tracks: Vec<TrackBox>) -> (r:
        Self)
        ensures
            r.mvhd == mvhd,
            r.mvex == mvex,
            r.tracks == tracks,
    {
        MovieBox { mvhd, mvex, tracks }
    }

    /// Reads a `moov` box at `*pos`. A track that fails to parse is skipped;
    /// the movie header and at least one track are required.
    #[verifier::rlimit(100)]
    pub fn read(data: &[u8], pos: &mut usize) -> (r: Result<Self, Mp4BoxError>)
        requires
            *old(pos) <= data@.len(),
        ensures
            r is Ok <==> moov_ok(data@, *old(pos) as int),
            r is Ok ==> moov_parsed(data@, *old(pos) as int, r->Ok_0),
            r is Ok ==> r->Ok_0.tracks@.len() > 0,
            r is Ok ==> {
                &&& header_result(rest(data@, *old(pos) as int)) is Ok
                &&& header_result(rest(data@, *old(pos) as int))->Ok_0.0 == MOOV
                &&& *final(pos) == *old(pos) + header_result(rest(data@, *old(pos) as int))->Ok_0.1
            },
            frame_ok(data@, *old(pos) as int, MOOV) && box_children(data@, *old(pos) as int) is Some
                && moov_all_ok(data@, box_children(data@, *old(pos) as int)->Some_0)
                && moov_missing(data@, box_children(data@, *old(pos) as int)->Some_0) is Some ==> r
                == Err::<Self, _>(moov_missing(data@, box_children(data@, *old(pos) as int)->Some_0)->Some_0),
    {
        let start = *pos;
        let boks = Boks::read_named(data, pos, MOOV)?;
        if boks.size > (data.len() - start) as u64 {
            return Err(Mp4BoxError::UnexpectedEos);
        }
        let end = start + boks.size as usize;
        let region = &data[0..end];
        let mut mvhd: Option<MovieHeaderBox> = None;
        let mut mvex: Option<MovieExtendsBox> = None;
        let mut tracks: Vec<TrackBox> = Vec::new();
        let ghost done: Seq<Child> = Seq::empty();
        let ghost c0 = *pos as int;
        assert(after(done, children(data@, c0, end as int)) =~= children(data@, c0, end as int));
        assert(box_children(data@, start as int) == children(data@, c0, end as int));
        while *pos < end
            invariant
                region@ == data@.subrange(0, end as int),
                end <= data@.len(),
                start == *old(pos),
                end == start + boks.size,
                frame_ok(data@, start as int, MOOV),
                box_children(data@, start as int) == children(data@, c0, end as int),
                c0 <= *pos <= end,
                after(done, children(data@, *pos as int, end as int)) == children(data@, c0, end as int),
                moov_all_ok(data@, done),
                (mvhd is Some) == (last_named(done, MVHD) >= 0),
                mvhd is Some ==> mvhd_fields(child_data(data@, done[last_named(done, MVHD)]), done[last_named(done, MVHD)].1, mvhd->Some_0),
                (mvex is Some) == (last_named(done, MVEX) >= 0),
                mvex is Some ==> mvex_parsed(child_data(data@, done[last_named(done, MVEX)]), done[last_named(done, MVEX)].1, mvex->Some_0),
                tracks_read(data@, done, tracks@),
            decreases end - *pos,
        {
            let child_start = *pos;
            let h = match Boks::peek(region, child_start) {
                Ok(h) => h,
                Err(e) => {
                    assert(children(data@, child_start as int, end as int) is None);
                    return Err(e);
                },
            };
            if h.size > (end - child_start) as u64 {
                assert(children(data@, child_start as int, end as int) is None);
                return Err(Mp4BoxError::UnexpectedEos);
            }
            let child_end = child_start + h.size as usize;
            let ghost ch: Child = (h.name, child_start as int, child_end as int);
            let ghost nd = done.push(ch);
            proof {
                lemma_children_step(data@, child_start as int, end as int, done);
                lemma_last_named_push(done, ch, MVHD);
                lemma_last_named_push(done, ch, MVEX);
                assert(nd.drop_last() =~= done);
                assert(forall|i: int| 0 <= i < done.len() ==> nd[i] == done[i]);
                assert(nd[done.len() as int] == ch);
            }
            let child = &data[0..child_end];
            assert(child@ == child_data(data@, ch));
            let mut p = child_start;
            let ok = if h.name == MVHD {
                match MovieHeaderBox::read(child, &mut p) {
                    Ok(b) => {
                        mvhd = Some(b);
                        true
                    },
                    Err(_) => false,
                }
            } else if h.name == MVEX {
                match MovieExtendsBox::read(child, &mut p) {
                    Ok(b) => {
                        mvex = Some(b);
                        true
                    },
                    Err(_) => false,
                }
            } else if h.name == TRAK {
                let ghost before = tracks@;
                match TrackBox::read(child, &mut p) {
                    Ok(t) => {
                        tracks.push(t);
                        assert(tracks@.drop_last() =~= before);
                        assert forall|i: int| 0 <= i < moov_traks(data@, nd).len() implies trak_parsed(
                            child_data(data@, moov_traks(data@, nd)[i]),
                            moov_traks(data@, nd)[i].1,
                            #[trigger] tracks@[i],
                        ) by {
                            if i < before.len() {
                                assert(tracks@[i] == before[i]);
                            }
                        }
                    },
                    Err(_) => {},
                }
                true
            } else {
                true
            };
            if !ok {
                proof {
                    lemma_moov_child_fails(data@, done, ch, children(data@, child_end as int, end as int));
                }
                return Err(Mp4BoxError::UnexpectedEos);
            }
            proof {
                assert(moov_child_ok(data@, ch));
                assert forall|i: int| 0 <= i < nd.len() implies #[trigger] moov_child_ok(data@, nd[i]) by {
                    if i < done.len() {
                        assert(nd[i] == done[i]);
                    }
                }
                done = nd;
            }
            *pos = child_end;
        }
        assert(children(data@, end as int, end as int) == Some(Seq::<Child>::empty()));
        assert(done + Seq::<Child>::empty() =~= done);
        proof {
            lemma_last_named_bound(done, MVEX);
            lemma_last_named_bound(done, MVHD);
        }
        let mvhd = match mvhd {
            Some(b) => b,
            None => {
                return Err(Mp4BoxError::RequiredBoxNotFound(BoxPrint(MVHD)));
            },
        };
        if tracks.len() == 0 {
            return Err(Mp4BoxError::NotEnoughBoxes(BoxPrint(TRAK), 1, 0));
        }
        let b = MovieBox { mvhd, mvex, tracks };
        assert(box_children(data@, start as int) == Some(done));
        Ok(b)
    }

    /// Whether the encoded box fits in 64-bit sizes.
    pub fn fits(&self) -> (r: bool)
        requires
            forall|i: int| 0 <= i < self.tracks@.len() ==> #[trigger] self.tracks@[i].wf(),
        ensures
            r == (total_with_header(self.spec_contents().len()) <= u64::MAX),
    {
        let mut size = self.mvhd.total_size();
        if let Some(m) = &self.mvex {
            size = size + m.total_size();
        }
        let ghost ts = self.tracks@;
        let ghost base = size;
        let mut i: usize = 0;
        while i < self.tracks.len()
            invariant
                forall|j: int| 0 <= j < ts.len() ==> #[trigger] ts[j].wf(),
                ts == self.tracks@,
                i <= ts.len(),
                base == self.mvhd.spec_bytes().len() + self.spec_mvex_bytes().len(),
                size == base + concat_map(ts.subrange(0, i as int), |t: TrackBox| trak_bytes(t)).len(),
            decreases ts.len() - i,
        {
            assert(ts[i as int].wf());
            proof {
                lemma_concat_map_push(ts.subrange(0, i as int), ts[i as int], |t: TrackBox| trak_bytes(t));
                assert(ts.subrange(0, i + 1) =~= ts.subrange(0, i as int).push(ts[i as int]));
                lemma_concat_map_prefix_len(ts, |t: TrackBox| trak_bytes(t), i + 1);
            }
            let t = self.tracks[i].total_size();
            if t > u64::MAX - size {
                return false;
            }
            size = size + t;
            i = i + 1;
        }
        assert(ts.subrange(0, i as int) =~= ts);
        size <= u64::MAX - 16
    }

    fn content_size(&self) -> (r: u64)
        requires
            self.wf(),
        ensures
            r == self.spec_contents().len(),
    {
        let mut size = self.mvhd.total_size();
        if let Some(m) = &self.mvex {
            size = size + m.total_size();
        }
        let ghost ts = self.tracks@;
        let ghost base = size;
        let mut i: usize = 0;
        while i < self.tracks.len()
            invariant
                self.wf(),
                ts == self.tracks@,
                i <= ts.len(),
                base + concat_map(ts, |t: TrackBox| trak_bytes(t)).len() <= u64::MAX,
                size == base + concat_map(ts.subrange(0, i as int), |t: TrackBox| trak_bytes(t)).len(),
            decreases ts.len() - i,
        {
            assert(ts[i as int].wf());
            proof {
                lemma_concat_map_push(ts.subrange(0, i as int), ts[i as int], |t: TrackBox| trak_bytes(t));
                assert(ts.subrange(0, i + 1) =~= ts.subrange(0, i as int).push(ts[i as int]));
                lemma_concat_map_prefix_len(ts, |t: TrackBox| trak_bytes(t), i + 1);
            }
            size = size + self.tracks[i].total_size();
            i = i + 1;
        }
        assert(ts.subrange(0, i as int) =~= ts);
        size
    }

    pub fn write(&self, out: &mut Vec<u8>)
        requires
            self.wf(),
        ensures
            final(out)@ == old(out)@ + self.spec_bytes(),
    {
        let content = self.content_size();
        write_header(out, MOOV, content);
        let ghost h = header_bytes(MOOV, total_with_header(content as nat) as u64);
        let ghost b = self.spec_mvex_bytes();
        self.mvhd.write(out);
        let ghost o2 = out@;
        if let Some(m) = &self.mvex {
            m.write(out);
        }
        assert(out@ == o2 + b) by {
            if self.mvex is None {
                assert(o2 + b =~= o2);
            }
        }
        let ghost mid = out@;
        let ghost ts = self.tracks@;
        let mut i: usize = 0;
        while i < self.tracks.len()
            invariant
                forall|j: int| 0 <= j < ts.len() ==> #[trigger] ts[j].wf(),
                ts == self.tracks@,
                i <= ts.len(),
                out@ == mid + concat_map(ts.subrange(0, i as int), |t: TrackBox| trak_bytes(t)),
            decreases ts.len() - i,
        {
            assert(ts[i as int].wf());
            let ghost before = out@;
            self.tracks[i].write(out);
            proof {
                let pre = concat_map(ts.subrange(0, i as int), |t: TrackBox| trak_bytes(t));
                lemma_concat_map_push(ts.subrange(0, i as int), ts[i as int], |t: TrackBox| trak_bytes(t));
                assert(ts.subrange(0, i + 1) =~= ts.subrange(0, i as int).push(ts[i as int]));
                lemma_concat2(mid, pre, trak_bytes(ts[i as int]));
            }
            i = i + 1;
        }
        assert(ts.subrange(0, i as int) =~= ts);
        proof {
            lemma_concat4(
                old(out)@,
                h,
                self.mvhd.spec_bytes(),
                b,
                concat_map(ts, |t: TrackBox| trak_bytes(t)),
            );
        }
    }

    pub fn total_size(&self) -> (r: u64)
        requires
            self.wf(),
        ensures
            r == self.spec_bytes().len(),
            r == total_with_header(self.spec_contents().len()),
    {
        let content = self.content_size();
        proof {
            lemma_plain_box_len(MOOV, self.spec_contents());
        }
        Boks::new(MOOV).size(content)
    }
}

} // verus!
