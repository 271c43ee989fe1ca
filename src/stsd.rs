//! The sample description box and the kinds of sample entry.
use vstd::prelude::*;

use crate::bytes::{
    concat_map, lemma_be_bytes_len, lemma_concat_map_push,
    push_u32, read_u32, u32_bytes,
};
use crate::bytes::be_at;
use crate::esds::{mp4v_ok, Mpeg4VideoSampleEntryBox};
use crate::codec::{visual_entry_fields, avc1_fields, avc1_ok, vp09_fields, vp09_ok, AvcSampleEntryBox, Vp9SampleEntryBox};
use crate::error::Mp4BoxError;
use crate::framing::{
    after, full_box_bytes, full_content_start, full_header_ok, header_result, lemma_full_box_len,
    lemma_header_prefix, rest, write_full_header, BoxName, BoxPrint, Boks, Child, FullBox, AVC1,
    MP4V, STSD, VP09,
};

verus! {

broadcast use lemma_be_bytes_len;

/// The first `n` child boxes from `q` on, where fewer do not fill `[q, end)`:
/// each read from the bytes up to `end`; `None` where a header cannot be read
/// or a child runs past `end`.
pub open spec fn children_n(d: Seq<u8>, q: int, end: int, n: nat) -> Option<Seq<Child>>
    decreases n,
{
    if n == 0 || q >= end {
        Some(Seq::empty())
    } else {
        match header_result(rest(d.subrange(0, end), q)) {
            Err(_) => None,
            Ok(h) => if h.1 > end - q {
                None
            } else {
                match children_n(d, q + h.1, end, (n - 1) as nat) {
                    None => None,
                    Some(t) => Some(seq![(h.0, q, q + h.1)] + t),
                }
            },
        }
    }
}

proof fn lemma_children_n_step(d: Seq<u8>, q: int, end: int, n: nat, done: Seq<Child>)
    requires
        n > 0,
        q < end,
        header_result(rest(d.subrange(0, end), q)) is Ok,
        header_result(rest(d.subrange(0, end), q))->Ok_0.1 <= end - q,
    ensures
        ({
            let h = header_result(rest(d.subrange(0, end), q))->Ok_0;
            after(done, children_n(d, q, end, n)) == after(
                done.push((h.0, q, q + h.1)),
                children_n(d, q + h.1, end, (n - 1) as nat),
            )
        }),
{
    let h = header_result(rest(d.subrange(0, end), q))->Ok_0;
    match children_n(d, q + h.1, end, (n - 1) as nat) {
        None => {},
        Some(t) => {
            assert(done + (seq![(h.0, q, q + h.1)] + t) =~= done.push((h.0, q, q + h.1)) + t);
        },
    }
}

/// The kinds of sample entry that are read.
pub open spec fn known_entry(name: BoxName) -> bool {
    name == AVC1 || name == VP09 || name == MP4V
}

/// An entry child reads, where it is of a kind that is read.
pub open spec fn entry_ok(d: Seq<u8>, ch: Child) -> bool {
    if ch.0 == AVC1 {
        avc1_ok(d.subrange(0, ch.2), ch.1)
    } else if ch.0 == VP09 {
        vp09_ok(d.subrange(0, ch.2), ch.1)
    } else if ch.0 == MP4V {
        mp4v_ok(d.subrange(0, ch.2), ch.1)
    } else {
        true
    }
}

pub open spec fn entries_ok(d: Seq<u8>, cs: Seq<Child>) -> bool {
    forall|i: int| 0 <= i < cs.len() ==> #[trigger] entry_ok(d, cs[i])
}

pub open spec fn has_known(cs: Seq<Child>) -> bool {
    exists|i: int| 0 <= i < cs.len() && #[trigger] known_entry(cs[i].0)
}

/// `e` is the sample entry read from the child `ch`.
pub open spec fn entry_parsed(d: Seq<u8>, ch: Child, e: SampleEntry) -> bool {
    match e {
        SampleEntry::Avc(b) => ch.0 == AVC1 && avc1_fields(d.subrange(0, ch.2), ch.1, b),
        SampleEntry::Vp9(b) => ch.0 == VP09 && vp09_fields(d.subrange(0, ch.2), ch.1, b),
        SampleEntry::Mpeg4(b) => ch.0 == MP4V && visual_entry_fields(
            d.subrange(0, ch.2),
            ch.1,
            b.visual_sample_entry,
        ) && b.esds.descriptor.wf(),
    }
}

/// `es` are the entries read from the children `cs` of kinds that are read,
/// in order.
pub open spec fn entries_match(d: Seq<u8>, cs: Seq<Child>, es: Seq<SampleEntry>) -> bool
    decreases cs.len(),
{
    if cs.len() == 0 {
        es.len() == 0
    } else if known_entry(cs.last().0) {
        &&& es.len() > 0
        &&& entry_parsed(d, cs.last(), es.last())
        &&& entries_match(d, cs.drop_last(), es.drop_last())
    } else {
        entries_match(d, cs.drop_last(), es)
    }
}

proof fn lemma_entry_fails(d: Seq<u8>, done: Seq<Child>, ch: Child, o: Option<Seq<Child>>)
    requires
        !entry_ok(d, ch),
    ensures
        match after(done.push(ch), o) {
            Some(full) => !entries_ok(d, full),
            None => true,
        },
{
    match o {
        Some(t) => {
            let full = done.push(ch) + t;
            assert(full[done.len() as int] == ch);
        },
        None => {},
    }
}

proof fn lemma_no_known(d: Seq<u8>, cs: Seq<Child>, es: Seq<SampleEntry>)
    requires
        entries_match(d, cs, es),
        es.len() == 0,
    ensures
        !has_known(cs),
    decreases cs.len(),
{
    if cs.len() > 0 {
        lemma_no_known(d, cs.drop_last(), es);
        assert forall|i: int| 0 <= i < cs.len() implies !#[trigger] known_entry(cs[i].0) by {
            if i < cs.len() - 1 {
                assert(cs.drop_last()[i] == cs[i]);
            }
        }
    }
}

proof fn lemma_match_known(d: Seq<u8>, cs: Seq<Child>, es: Seq<SampleEntry>)
    requires
        entries_match(d, cs, es),
        es.len() > 0,
    ensures
        has_known(cs),
    decreases cs.len(),
{
    if cs.len() > 0 && !known_entry(cs.last().0) {
        lemma_match_known(d, cs.drop_last(), es);
        let i = choose|i: int| 0 <= i < cs.drop_last().len() && #[trigger] known_entry(cs.drop_last()[i].0);
        assert(cs[i] == cs.drop_last()[i]);
    } else if cs.len() > 0 {
        assert(known_entry(cs[cs.len() - 1].0));
    }
}

/// The `stsd` box at `q` is framed right: its full-box header, the box
/// within `d`, and its entry count within the box.
pub open spec fn stsd_frame_ok(d: Seq<u8>, q: int) -> bool {
    &&& full_header_ok(d, q, STSD)
    &&& q + header_result(rest(d, q))->Ok_0.1 <= d.len()
    &&& full_content_start(d, q) + 4 <= q + header_result(rest(d, q))->Ok_0.1
}

/// The entry boxes of the `stsd` box at `q`: as many as its count says,
/// while they fit.
pub open spec fn stsd_entries(d: Seq<u8>, q: int) -> Option<Seq<Child>> {
    let c = full_content_start(d, q);
    children_n(d, c + 4, q + header_result(rest(d, q))->Ok_0.1, be_at(d, c, 4))
}

/// An `stsd` box can be read at `q`: it is framed right, its entries fit,
/// those of kinds that are read read, and there is at least one such.
pub open spec fn stsd_ok(d: Seq<u8>, q: int) -> bool {
    &&& stsd_frame_ok(d, q)
    &&& stsd_entries(d, q) is Some
    &&& entries_ok(d, stsd_entries(d, q)->Some_0)
    &&& has_known(stsd_entries(d, q)->Some_0)
}

/// `b` is the `stsd` box at `q`: its entries are those of its children of
/// kinds that are read.
pub open spec fn stsd_parsed(d: Seq<u8>, q: int, b: SampleDescriptionBox) -> bool {
    &&& b.full_box.boks.name == STSD
    &&& stsd_entries(d, q) is Some
    &&& entries_match(d, stsd_entries(d, q)->Some_0, b.entries@)
}

/// A sample entry of a kind this library handles.
pub enum SampleEntry {
    Avc(AvcSampleEntryBox),
    Vp9(Vp9SampleEntryBox),
    Mpeg4(Mpeg4VideoSampleEntryBox),
}

pub open spec fn entry_bytes(e: SampleEntry) -> Seq<u8> {
    match e {
        SampleEntry::Avc(b) => b.spec_bytes(),
        SampleEntry::Vp9(b) => b.spec_bytes(),
        SampleEntry::Mpeg4(b) => b.spec_bytes(),
    }
}

impl SampleEntry {
    pub open spec fn wf(&self) -> bool {
        match self {
            SampleEntry::Avc(b) => b.wf(),
            SampleEntry::Vp9(b) => b.wf(),
            SampleEntry::Mpeg4(b) => b.wf(),
        }
    }

    /// The size of the encoded entry.
    pub fn size(&self) -> (r: u64)
        requires
            self.wf(),
        ensures
            r == entry_bytes(*self).len(),
            r <= 0x200_0000,
    {
        match self {
            SampleEntry::Avc(b) => b.total_size(),
            SampleEntry::Vp9(b) => b.total_size(),
            SampleEntry::Mpeg4(b) => b.total_size(),
        }
    }

    pub fn write(&self, out: &mut Vec<u8>)
        requires
            self.wf(),
        ensures
            final(out)@ == old(out)@ + entry_bytes(*self),
    {
        match self {
            SampleEntry::Avc(b) => b.write(out),
            SampleEntry::Vp9(b) => b.write(out),
            SampleEntry::Mpeg4(b) => b.write(out),
        }
    }
}

/// The sample description box.
pub struct SampleDescriptionBox {
    pub full_box: FullBox,
    pub entries: Vec<SampleEntry>,
}

impl SampleDescriptionBox {
    pub open spec fn wf(&self) -> bool {
        &&& self.entries@.len() <= u32::MAX
        &&& forall|i: int| 0 <= i < self.entries@.len() ==> #[trigger] self.entries@[i].wf()
    }

    pub open spec fn spec_contents(&self) -> Seq<u8> {
        u32_bytes(self.entries@.len() as u32) + concat_map(
            self.entries@,
            |e: SampleEntry| entry_bytes(e),
        )
    }

    pub open spec fn spec_bytes(&self) -> Seq<u8> {
        full_box_bytes(STSD, 0, 0, self.spec_contents())
    }

    pub fn new(entries: Vec<SampleEntry>) -> (r: Self)
        ensures
            r.entries == entries,
    {
        SampleDescriptionBox { full_box: FullBox::new(STSD, 0, 0), entries }
    }

    /// Reads an `stsd` box at `*pos`: as many entries as its count says,
    /// while they fit in the box. `avc1`, `vp09` and `mp4v` entries are read; entries
    /// of other kinds are skipped. Where none is left, that is an error: the
    /// first entry's kind, or `NotEnoughBoxes` where there was no entry.
    #[verifier::rlimit(80)]
    pub fn read(data: &[u8], pos: &mut usize) -> (r: Result<Self, Mp4BoxError>)
        requires
            *old(pos) <= data@.len(),
        ensures
            r is Ok <==> stsd_ok(data@, *old(pos) as int),
            r is Ok ==> stsd_parsed(data@, *old(pos) as int, r->Ok_0),
            r is Ok ==> {
                &&& r->Ok_0.wf()
                &&& r->Ok_0.entries@.len() > 0
                &&& r->Ok_0.full_box.boks.name == STSD
                &&& *final(pos) == *old(pos) + r->Ok_0.full_box.boks.size
            },
            stsd_frame_ok(data@, *old(pos) as int) && stsd_entries(data@, *old(pos) as int) is Some
                && entries_ok(data@, stsd_entries(data@, *old(pos) as int)->Some_0) && !has_known(
                stsd_entries(data@, *old(pos) as int)->Some_0,
            ) ==> r == Err::<Self, _>(
                if stsd_entries(data@, *old(pos) as int)->Some_0.len() > 0 {
                    Mp4BoxError::UnsupportedSampleEntry(
                        BoxPrint(stsd_entries(data@, *old(pos) as int)->Some_0[0].0),
                    )
                } else {
                    Mp4BoxError::NotEnoughBoxes(BoxPrint(STSD), 1, 0)
                },
            ),
    {
        let start = *pos;
        let full_box = FullBox::read_named(data, pos, STSD)?;
        let size = full_box.boks.size;
        if size > (data.len() - start) as u64 {
            return Err(Mp4BoxError::UnexpectedEos);
        }
        let end = start + size as usize;
        if *pos > end {
            return Err(Mp4BoxError::UnexpectedEos);
        }
        let region = &data[0..end];
        let cpos = *pos;
        let mut count = read_u32(region, pos)?;
        proof {
            assert(region@.subrange(cpos as int, cpos + 4) =~= data@.subrange(cpos as int, cpos + 4));
        }
        let ghost n0 = count;
        assert(stsd_frame_ok(data@, start as int));
        assert(children_n(data@, cpos + 4, end as int, n0 as nat) == stsd_entries(data@, start as int));
        let ghost done: Seq<Child> = Seq::empty();
        let mut entries: Vec<SampleEntry> = Vec::new();
        let mut unsupported: Option<BoxName> = None;
        assert(after(done, children_n(data@, *pos as int, end as int, count as nat)) =~= children_n(
            data@,
            *pos as int,
            end as int,
            n0 as nat,
        ));
        while count > 0 && *pos < end
            invariant
                region@ == data@.subrange(0, end as int),
                end <= data@.len(),
                *pos <= end,
                start == *old(pos),
                end == start + full_box.boks.size,
                cpos == full_content_start(data@, start as int),
                n0 == be_at(data@, cpos as int, 4),
                stsd_frame_ok(data@, start as int),
                children_n(data@, cpos + 4, end as int, n0 as nat) == stsd_entries(data@, start as int),
                after(done, children_n(data@, *pos as int, end as int, count as nat)) == children_n(
                    data@,
                    cpos + 4,
                    end as int,
                    n0 as nat,
                ),
                entries_ok(data@, done),
                entries_match(data@, done, entries@),
                done.len() == 0 ==> unsupported is None,
                done.len() > 0 && !known_entry(done[0].0) ==> unsupported == Some(done[0].0),
                entries@.len() <= u32::MAX - count,
                forall|i: int| 0 <= i < entries@.len() ==> #[trigger] entries@[i].wf(),
            decreases count,
        {
            let child_start = *pos;
            let h = match Boks::peek(region, child_start) {
                Ok(h) => h,
                Err(e) => {
                    assert(children_n(data@, child_start as int, end as int, count as nat) is None);
                    return Err(e);
                },
            };
            if h.size > (end - child_start) as u64 {
                assert(children_n(data@, child_start as int, end as int, count as nat) is None);
                return Err(Mp4BoxError::UnexpectedEos);
            }
            let child_end = child_start + h.size as usize;
            let ghost ch: Child = (h.name, child_start as int, child_end as int);
            proof {
                lemma_children_n_step(data@, child_start as int, end as int, count as nat, done);
                lemma_header_prefix(data@, child_start as int, child_end as int, end as int);
                assert(data@.subrange(0, child_end as int) =~= data@.subrange(0, child_end as int));
            }
            let child = &data[0..child_end];
            let mut p = child_start;
            let ghost before = entries@;
            if h.name == AVC1 {
                let e = match AvcSampleEntryBox::read(child, &mut p) {
                    Ok(e) => e,
                    Err(err) => {
                        proof {
                            lemma_entry_fails(data@, done, ch, children_n(data@, child_end as int, end as int, (count - 1) as nat));
                        }
                        return Err(err);
                    },
                };
                entries.push(SampleEntry::Avc(e));
            } else if h.name == VP09 {
                let e = match Vp9SampleEntryBox::read(child, &mut p) {
                    Ok(e) => e,
                    Err(err) => {
                        proof {
                            lemma_entry_fails(data@, done, ch, children_n(data@, child_end as int, end as int, (count - 1) as nat));
                        }
                        return Err(err);
                    },
                };
                entries.push(SampleEntry::Vp9(e));
            } else if h.name == MP4V {
                let e = match Mpeg4VideoSampleEntryBox::read(child, &mut p) {
                    Ok(e) => e,
                    Err(err) => {
                        proof {
                            lemma_entry_fails(data@, done, ch, children_n(data@, child_end as int, end as int, (count - 1) as nat));
                        }
                        return Err(err);
                    },
                };
                entries.push(SampleEntry::Mpeg4(e));
            } else if unsupported.is_none() {
                unsupported = Some(h.name);
            }
            proof {
                let nd = done.push(ch);
                assert(nd.drop_last() =~= done);
                if known_entry(h.name) {
                    assert(entries@.drop_last() =~= before);
                }
                assert forall|i: int| 0 <= i < nd.len() implies #[trigger] entry_ok(data@, nd[i]) by {
                    if i < done.len() {
                        assert(nd[i] == done[i]);
                    }
                }
                if done.len() > 0 {
                    assert(nd[0] == done[0]);
                }
                done = nd;
            }
            *pos = child_end;
            count = count - 1;
        }
        if entries.len() == 0 {
            proof {
                lemma_no_known(data@, done, entries@);
            }
            return match unsupported {
                Some(name) => Err(Mp4BoxError::UnsupportedSampleEntry(BoxPrint(name))),
                None => Err(Mp4BoxError::NotEnoughBoxes(BoxPrint(STSD), 1, 0)),
            };
        }
        proof {
            lemma_match_known(data@, done, entries@);
        }
        *pos = end;
        Ok(SampleDescriptionBox { full_box, entries })
    }

    fn content_size(&self) -> (r: u64)
        requires
            self.wf(),
        ensures
            r == self.spec_contents().len(),
            r <= 4 + 0x200_0000 * 0xFFFF_FFFF,
    {
        let mut size: u64 = 4;
        let mut i: usize = 0;
        let ghost es = self.entries@;
        while i < self.entries.len()
            invariant
                self.wf(),
                es == self.entries@,
                i <= es.len(),
                size == 4 + concat_map(es.subrange(0, i as int), |e: SampleEntry| entry_bytes(e)).len(),
                size <= 4 + i * 0x200_0000,
            decreases es.len() - i,
        {
            assert(es[i as int].wf());
            let t = self.entries[i].size();
            proof {
                lemma_concat_map_push(es.subrange(0, i as int), es[i as int], |e: SampleEntry| entry_bytes(e));
                assert(es.subrange(0, i + 1) =~= es.subrange(0, i as int).push(es[i as int]));
                assert((i + 1) * 0x200_0000 == i * 0x200_0000 + 0x200_0000) by (nonlinear_arith);
                assert(i * 0x200_0000 <= 0xFFFF_FFFE * 0x200_0000) by (nonlinear_arith)
                    requires
                        i < 0xFFFF_FFFF,
                ;
            }
            size = size + t;
            i = i + 1;
        }
        assert(es.subrange(0, i as int) =~= es);
        assert(i * 0x200_0000 <= 0xFFFF_FFFF * 0x200_0000) by (nonlinear_arith)
            requires
                i <= 0xFFFF_FFFF,
        ;
        size
    }

    pub fn write(&self, out: &mut Vec<u8>)
        requires
            self.wf(),
        ensures
            final(out)@ == old(out)@ + self.spec_bytes(),
    {
        let content = self.content_size();
        write_full_header(out, STSD, 0, 0, content);
        push_u32(out, self.entries.len() as u32);
        let ghost mid = out@;
        let ghost es = self.entries@;
        let mut i: usize = 0;
        while i < self.entries.len()
            invariant
                self.wf(),
                es == self.entries@,
                i <= es.len(),
                out@ == mid + concat_map(es.subrange(0, i as int), |e: SampleEntry| entry_bytes(e)),
            decreases es.len() - i,
        {
            assert(es[i as int].wf());
            self.entries[i].write(out);
            proof {
                lemma_concat_map_push(es.subrange(0, i as int), es[i as int], |e: SampleEntry| entry_bytes(e));
                assert(es.subrange(0, i + 1) =~= es.subrange(0, i as int).push(es[i as int]));
            }
            i = i + 1;
        }
        assert(es.subrange(0, i as int) =~= es);
        assert(final(out)@ =~= old(out)@ + self.spec_bytes());
    }

    pub fn total_size(&self) -> (r: u64)
        requires
            self.wf(),
        ensures
            r == self.spec_bytes().len(),
            r <= 24 + 0x200_0000 * 0xFFFF_FFFF,
    {
        let content = self.content_size();
        proof {
            lemma_full_box_len(STSD, 0, 0, self.spec_contents());
        }
        self.full_box.size(content)
    }
}

} // verus!
