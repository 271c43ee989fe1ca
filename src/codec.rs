//! Visual sample entries and their codec configuration boxes: `vp09` with
//! `vpcC`, and `avc1` with `avcC`.
use vstd::prelude::*;

use crate::bytes::{
    be_at, be_bytes, concat_map, lemma_be_bytes_len, lemma_be_bytes_of_value,
    lemma_be_bytes_small, lemma_concat_map_push, push_bytes, push_u16, push_u32, push_u8, push_zeros, read_bytes,
    read_u16, read_u8, skip_bytes, u32_bytes, zeros,
};
use crate::error::Mp4BoxError;
use crate::framing::{
    full_content_start, full_header_ok,
    full_box_bytes, header_bytes, header_result, lemma_full_box_len, lemma_header_len,
    plain_box_bytes, rest, total_with_header, write_full_header, write_header, BoxName, BoxPrint, Boks, FullBox, AVC1, AVCC, VP09, VPCC,
};

verus! {

broadcast use lemma_be_bytes_len;

/// The sample entry fields after the header: 6 reserved bytes and the data
/// reference index.
pub open spec fn sample_entry_prefix(data_reference_index: u16) -> Seq<u8> {
    zeros(6) + be_bytes(data_reference_index as nat, 2)
}

/// The visual sample entry fields after the sample entry fields.
pub open spec fn visual_fields(width: u16, height: u16) -> Seq<u8> {
    zeros(16) + be_bytes(width as nat, 2) + be_bytes(height as nat, 2) + u32_bytes(0x0048_0000)
        + u32_bytes(0x0048_0000) + zeros(4) + be_bytes(1, 2) + zeros(32) + be_bytes(0x0018, 2)
        + be_bytes(0xFFFF, 2)
}

/// A box header can be read at `p` and `n` bytes follow it.
pub open spec fn entry_fits(d: Seq<u8>, p: int, n: nat) -> bool {
    &&& header_result(rest(d, p)) is Ok
    &&& p + header_result(rest(d, p))->Ok_0.2 + n <= d.len()
}

/// Where the child box of the visual sample entry at `p` starts.
pub open spec fn entry_child(d: Seq<u8>, p: int) -> int {
    p + header_result(rest(d, p))->Ok_0.2 + 78
}

/// The visual sample entry fields `v` are those of the entry at `q`.
pub open spec fn visual_entry_fields(d: Seq<u8>, q: int, v: VisualSampleEntry) -> bool {
    let h = header_result(rest(d, q));
    let p = q + v.sample_entry.boks.read_size;
    &&& h is Ok
    &&& h->Ok_0.0 == v.sample_entry.boks.name
    &&& h->Ok_0.2 == v.sample_entry.boks.read_size
    &&& p + 78 <= d.len()
    &&& v.sample_entry.data_reference_index == be_at(d, p + 6, 2)
    &&& v.width == be_at(d, p + 24, 2)
    &&& v.height == be_at(d, p + 26, 2)
}

/// A `vp09` sample entry can be read at `q`.
pub open spec fn vp09_ok(d: Seq<u8>, q: int) -> bool {
    &&& entry_fits(d, q, 78)
    &&& {
        let c = entry_child(d, q);
        &&& full_header_ok(d, c, VPCC)
        &&& full_content_start(d, c) + 8 <= d.len()
        &&& be_at(d, full_content_start(d, c) + 6, 2) == 0
    }
}

/// `b` is the `vp09` sample entry at `q`: its fields, and its `vpcC` box
/// right after them.
pub open spec fn vp09_fields(d: Seq<u8>, q: int, b: Vp9SampleEntryBox) -> bool {
    let c = entry_child(d, q);
    let p = full_content_start(d, c);
    &&& visual_entry_fields(d, q, b.visual_sample_entry)
    &&& b.vpcc.full_box.boks.name == VPCC
    &&& b.vpcc.config.wf()
    &&& p + 8 <= d.len()
    &&& d.subrange(p, p + 8) == b.vpcc.config.spec_bytes()
}

/// An `avc1` sample entry can be read at `q`.
pub open spec fn avc1_ok(d: Seq<u8>, q: int) -> bool {
    &&& entry_fits(d, q, 78)
    &&& {
        let c = entry_child(d, q);
        let h = header_result(rest(d, c));
        &&& h is Ok
        &&& h->Ok_0.0 == AVCC
        &&& avc_record_fits(d, c + h->Ok_0.2)
    }
}

/// `b` is the `avcC` box at `q`: its record's fields and parameter sets are
/// the bytes after the header.
pub open spec fn avcc_fields(d: Seq<u8>, q: int, b: AvcConfigurationBox) -> bool {
    let h = header_result(rest(d, q));
    let p = q + b.boks.read_size;
    let c = b.config;
    &&& h is Ok
    &&& h->Ok_0.0 == AVCC
    &&& h->Ok_0.2 == b.boks.read_size
    &&& b.boks.name == AVCC
    &&& c.wf()
    &&& p + 6 + c.spec_sets().len() <= d.len()
    &&& c.profile_indication == d[p + 1]
    &&& c.profile_compatibility == d[p + 2]
    &&& c.level_indication == d[p + 3]
    &&& c.sequence_parameter_sets@.len() == d[p + 5] % 32
    &&& d.subrange(p + 6, p + 6 + c.spec_sets().len()) == c.spec_sets()
}

/// `b` is the `avc1` sample entry at `q`: its fields, and its `avcC` box
/// right after them.
pub open spec fn avc1_fields(d: Seq<u8>, q: int, b: AvcSampleEntryBox) -> bool {
    &&& visual_entry_fields(d, q, b.visual_sample_entry)
    &&& avcc_fields(d, entry_child(d, q), b.avcc)
}

/// The common part of every sample entry: its header and data reference index.
pub struct SampleEntry {
    pub boks: Boks,
    pub data_reference_index: u16,
}

impl SampleEntry {
    pub fn new(name: BoxName, data_reference_index: u16) -> (r: Self)
        ensures
            r.boks.name == name,
            r.data_reference_index == data_reference_index,
    {
        SampleEntry { boks: Boks::new(name), data_reference_index }
    }

    /// Reads a sample entry header and its 8 bytes of fields at `*pos`.
    pub fn read(data: &[u8], pos: &mut usize) -> (r: Result<Self, Mp4BoxError>)
        requires
            *old(pos) <= data@.len(),
        ensures
            r is Ok ==> {
                let e = r->Ok_0;
                let p = *old(pos) + e.boks.read_size;
                &&& header_result(rest(data@, *old(pos) as int)) == Ok::<_, Mp4BoxError>(
                    (e.boks.name, e.boks.size, e.boks.read_size),
                )
                &&& p + 8 <= data@.len()
                &&& *final(pos) == p + 8
                &&& e.data_reference_index == be_at(data@, p + 6, 2)
            },
            r is Ok <==> entry_fits(data@, *old(pos) as int, 8),
    {
        let boks = Boks::read(data, pos)?;
        skip_bytes(data, pos, 6)?;
        let data_reference_index = read_u16(data, pos)?;
        Ok(SampleEntry { boks, data_reference_index })
    }

    /// Emits the header, for a total size of `size`, and the fields.
    pub fn write(&self, out: &mut Vec<u8>, size: u64)
        ensures
            final(out)@ == old(out)@ + header_bytes(self.boks.name, size) + sample_entry_prefix(
                self.data_reference_index,
            ),
    {
        self.boks.write(out, size);
        push_zeros(out, 6);
        push_u16(out, self.data_reference_index);
        assert(final(out)@ =~= old(out)@ + header_bytes(self.boks.name, size) + sample_entry_prefix(
            self.data_reference_index,
        ));
    }

    /// The total size of a sample entry with `size` bytes after its fields.
    pub fn size(&self, size: u64) -> (r: u64)
        requires
            total_with_header((size + 8) as nat) <= u64::MAX,
        ensures
            r == total_with_header((size + 8) as nat),
    {
        self.boks.size(size + 8)
    }
}

/// The common part of visual sample entries: the sample entry and the picture size.
pub struct VisualSampleEntry {
    pub sample_entry: SampleEntry,
    pub width: u16,
    pub height: u16,
}

/// A visual sample entry named `name` whose child box encodes to `child`.
pub open spec fn visual_entry_bytes(
    name: BoxName,
    data_reference_index: u16,
    width: u16,
    height: u16,
    child: Seq<u8>,
) -> Seq<u8> {
    header_bytes(name, total_with_header(78 + child.len()) as u64) + sample_entry_prefix(
        data_reference_index,
    ) + visual_fields(width, height) + child
}

impl VisualSampleEntry {
    pub fn new(name: BoxName, data_reference_index: u16, width: u16, height: u16) -> (r: Self)
        ensures
            r.sample_entry.boks.name == name,
            r.sample_entry.data_reference_index == data_reference_index,
            r.width == width,
            r.height == height,
    {
        VisualSampleEntry {
            sample_entry: SampleEntry::new(name, data_reference_index),
            width,
            height,
        }
    }

    /// Reads a visual sample entry's header and its 78 bytes of fields at `*pos`.
    pub fn read(data: &[u8], pos: &mut usize) -> (r: Result<Self, Mp4BoxError>)
        requires
            *old(pos) <= data@.len(),
        ensures
            r is Ok ==> {
                let e = r->Ok_0;
                let p = *old(pos) + e.sample_entry.boks.read_size;
                &&& header_result(rest(data@, *old(pos) as int)) is Ok
                &&& header_result(rest(data@, *old(pos) as int))->Ok_0.0
                    == e.sample_entry.boks.name
                &&& e.sample_entry.boks.size == header_result(rest(data@, *old(pos) as int))->Ok_0.1
                &&& e.sample_entry.boks.read_size == header_result(rest(data@, *old(pos) as int))->Ok_0.2
                &&& p + 78 <= data@.len()
                &&& *final(pos) == p + 78
                &&& e.width == be_at(data@, p + 24, 2)
                &&& e.height == be_at(data@, p + 26, 2)
                &&& e.sample_entry.data_reference_index == be_at(data@, p + 6, 2)
            },
            r is Ok <==> entry_fits(data@, *old(pos) as int, 78),
    {
        let sample_entry = SampleEntry::read(data, pos)?;
        skip_bytes(data, pos, 16)?;
        let width = read_u16(data, pos)?;
        let height = read_u16(data, pos)?;
        skip_bytes(data, pos, 50)?;
        Ok(VisualSampleEntry { sample_entry, width, height })
    }

    /// Emits the header, for a total size of `size`, and the fields.
    pub fn write(&self, out: &mut Vec<u8>, size: u64)
        ensures
            final(out)@ == old(out)@ + header_bytes(self.sample_entry.boks.name, size)
                + sample_entry_prefix(self.sample_entry.data_reference_index) + visual_fields(
                self.width,
                self.height,
            ),
    {
        self.sample_entry.write(out, size);
        push_zeros(out, 16);
        push_u16(out, self.width);
        push_u16(out, self.height);
        push_u32(out, 0x0048_0000);
        push_u32(out, 0x0048_0000);
        push_zeros(out, 4);
        push_u16(out, 1);
        push_zeros(out, 32);
        push_u16(out, 0x0018);
        push_u16(out, 0xFFFF);
        assert(final(out)@ =~= old(out)@ + header_bytes(self.sample_entry.boks.name, size)
            + sample_entry_prefix(self.sample_entry.data_reference_index) + visual_fields(
            self.width,
            self.height,
        ));
    }

    /// The total size of a visual sample entry with `size` bytes of child boxes.
    pub fn size(&self, size: u64) -> (r: u64)
        requires
            total_with_header((size + 78) as nat) <= u64::MAX,
        ensures
            r == total_with_header((size + 78) as nat),
    {
        self.sample_entry.size(size + 70)
    }
}

// ---------------------------------------------------------------------------
// VP9

/// The VP9 codec configuration record.
#[derive(Debug, Clone, Copy, PartialEq, Eq, Structural)]
pub struct VpCodecConfigurationRecord {
    pub profile: u8,
    pub level: u8,
    /// 4 bits.
    pub bit_depth: u8,
    /// 3 bits.
    pub chroma_subsampling: u8,
    /// 1 bit.
    pub video_full_range_flags: u8,
    pub colour_primaries: u8,
    pub transfer_characteristics: u8,
    pub matrix_coefficients: u8,
}

impl VpCodecConfigurationRecord {
    pub open spec fn wf(&self) -> bool {
        self.bit_depth < 16 && self.chroma_subsampling < 8 && self.video_full_range_flags < 2
    }

    /// The packed byte: bit depth, chroma subsampling, full range flag.
    pub open spec fn packed(&self) -> nat {
        self.bit_depth as nat * 16 + self.chroma_subsampling as nat * 2
            + self.video_full_range_flags as nat
    }

    pub open spec fn spec_bytes(&self) -> Seq<u8> {
        seq![
            self.profile,
            self.level,
            self.packed() as u8,
            self.colour_primaries,
            self.transfer_characteristics,
            self.matrix_coefficients,
            0u8,
            0u8,
        ]
    }

    /// Reads the 8 bytes of a record at `*pos`; fails where the codec
    /// initialization data that follows is not empty.
    pub fn read(data: &[u8], pos: &mut usize) -> (r: Result<Self, Mp4BoxError>)
        ensures
            r is Ok ==> {
                let c = r->Ok_0;
                let p = *old(pos);
                &&& p + 8 <= data@.len()
                &&& *final(pos) == p + 8
                &&& c.wf()
                &&& data@.subrange(p as int, p + 8) == c.spec_bytes()
            },
            r is Err ==> match r->Err_0 {
                Mp4BoxError::UnexpectedInitializationData(n) => n > 0,
                e => e == Mp4BoxError::UnexpectedEos,
            },
            r is Ok <==> *old(pos) + 8 <= data@.len() && be_at(data@, *old(pos) + 6, 2) == 0,
    {
        let p = *pos;
        let header = read_bytes(data, pos, 6)?;
        let init_len = read_u16(data, pos)?;
        if init_len > 0 {
            return Err(Mp4BoxError::UnexpectedInitializationData(init_len));
        }
        let b = header[2];
        let c = VpCodecConfigurationRecord {
            profile: header[0],
            level: header[1],
            bit_depth: b / 16,
            chroma_subsampling: (b / 2) % 8,
            video_full_range_flags: b % 2,
            colour_primaries: header[3],
            transfer_characteristics: header[4],
            matrix_coefficients: header[5],
        };
        proof {
            lemma_be_bytes_of_value(data@.subrange(p + 6, p + 8));
            lemma_be_bytes_small(0);
            assert(c.packed() == b as nat);
            assert(data@.subrange(p as int, p + 8) =~= c.spec_bytes());
        }
        Ok(c)
    }

    /// The size of the encoded record.
    pub fn size(&self) -> (r: u64)
        ensures
            r == self.spec_bytes().len(),
    {
        8
    }

    /// Emits the record, with empty codec initialization data.
    pub fn write(&self, out: &mut Vec<u8>)
        requires
            self.wf(),
        ensures
            final(out)@ == old(out)@ + self.spec_bytes(),
    {
        push_u8(out, self.profile);
        push_u8(out, self.level);
        push_u8(out, self.bit_depth * 16 + self.chroma_subsampling * 2 + self.video_full_range_flags);
        push_u8(out, self.colour_primaries);
        push_u8(out, self.transfer_characteristics);
        push_u8(out, self.matrix_coefficients);
        push_u16(out, 0);
        proof {
            lemma_be_bytes_small(self.profile);
            lemma_be_bytes_small(self.level);
            lemma_be_bytes_small((self.bit_depth * 16 + self.chroma_subsampling * 2 + self.video_full_range_flags) as u8);
            lemma_be_bytes_small(self.colour_primaries);
            lemma_be_bytes_small(self.transfer_characteristics);
            lemma_be_bytes_small(self.matrix_coefficients);
        }
        assert(final(out)@ =~= old(out)@ + self.spec_bytes());
    }
}

/// The VP9 codec configuration box: a version 1 full box holding the record.
pub struct VpCodecConfigurationBox {
    pub full_box: FullBox,
    pub config: VpCodecConfigurationRecord,
}

impl VpCodecConfigurationBox {
    pub open spec fn spec_bytes(&self) -> Seq<u8> {
        full_box_bytes(VPCC, 1, 0, self.config.spec_bytes())
    }

    pub fn new(config: VpCodecConfigurationRecord) -> (r: Self)
        ensures
            r.config == config,
    {
        VpCodecConfigurationBox { full_box: FullBox::new(VPCC, 1, 0), config }
    }

    pub fn write(&self, out: &mut Vec<u8>)
        requires
            self.config.wf(),
        ensures
            final(out)@ == old(out)@ + self.spec_bytes(),
    {
        write_full_header(out, VPCC, 1, 0, 8);
        self.config.write(out);
        assert(final(out)@ =~= old(out)@ + self.spec_bytes());
    }

    /// Reads a `vpcC` box at `*pos`.
    pub fn read(data: &[u8], pos: &mut usize) -> (r: Result<Self, Mp4BoxError>)
        requires
            *old(pos) <= data@.len(),
        ensures
            r is Ok ==> {
                let b = r->Ok_0;
                let p = *old(pos) + b.full_box.read_size;
                &&& b.full_box.boks.name == VPCC
                &&& b.config.wf()
                &&& p + 8 <= data@.len()
                &&& data@.subrange(p, p + 8) == b.config.spec_bytes()
                &&& *final(pos) == p + 8
                &&& b.full_box.read_size == full_content_start(data@, *old(pos) as int) - *old(pos)
            },
            r is Ok <==> full_header_ok(data@, *old(pos) as int, VPCC) && {
                let c = full_content_start(data@, *old(pos) as int);
                c + 8 <= data@.len() && be_at(data@, c + 6, 2) == 0
            },
    {
        let full_box = FullBox::read_named(data, pos, VPCC)?;
        let config = VpCodecConfigurationRecord::read(data, pos)?;
        Ok(VpCodecConfigurationBox { full_box, config })
    }

    pub fn total_size(&self) -> (r: u64)
        ensures
            r == self.spec_bytes().len(),
            r == 20,
    {
        proof {
            lemma_full_box_len(VPCC, 1, 0, self.config.spec_bytes());
        }
        self.full_box.size(8)
    }
}

/// The VP9 sample entry: a visual sample entry with a `vpcC` box.
pub struct Vp9SampleEntryBox {
    pub visual_sample_entry: VisualSampleEntry,
    pub vpcc: VpCodecConfigurationBox,
}

impl Vp9SampleEntryBox {
    pub open spec fn wf(&self) -> bool {
        self.vpcc.config.wf() && self.visual_sample_entry.sample_entry.boks.name == VP09
    }

    pub open spec fn spec_bytes(&self) -> Seq<u8> {
        visual_entry_bytes(
            VP09,
            self.visual_sample_entry.sample_entry.data_reference_index,
            self.visual_sample_entry.width,
            self.visual_sample_entry.height,
            self.vpcc.spec_bytes(),
        )
    }

    pub fn new(width: u16, height: u16, vpcc: VpCodecConfigurationBox) -> (r: Self)
        ensures
            r.visual_sample_entry.width == width,
            r.visual_sample_entry.height == height,
            r.visual_sample_entry.sample_entry.boks.name == VP09,
            r.visual_sample_entry.sample_entry.data_reference_index == 1,
            r.vpcc == vpcc,
    {
        Vp9SampleEntryBox { visual_sample_entry: VisualSampleEntry::new(VP09, 1, width, height), vpcc }
    }

    pub fn write(&self, out: &mut Vec<u8>)
        requires
            self.wf(),
        ensures
            final(out)@ == old(out)@ + self.spec_bytes(),
    {
        let total = self.total_size();
        self.visual_sample_entry.write(out, total);
        self.vpcc.write(out);
        assert(final(out)@ =~= old(out)@ + self.spec_bytes());
    }

    pub fn total_size(&self) -> (r: u64)
        ensures
            r == self.spec_bytes().len(),
            r == total_with_header(98),
    {
        let child = self.vpcc.total_size();
        proof {
            lemma_header_len(VP09, total_with_header(98) as u64);
        }
        self.visual_sample_entry.size(child)
    }

    /// Reads a `vp09` sample entry at `*pos`; ends right after its `vpcC` box's record.
    #[verifier::rlimit(30)]
    pub fn read(data: &[u8], pos: &mut usize) -> (r: Result<Self, Mp4BoxError>)
        requires
            *old(pos) <= data@.len(),
        ensures
            r is Ok <==> vp09_ok(data@, *old(pos) as int),
            r is Ok ==> vp09_fields(data@, *old(pos) as int, r->Ok_0),
            r is Ok ==> *final(pos) == full_content_start(data@, entry_child(data@, *old(pos) as int)) + 8,
    {
        let visual_sample_entry = VisualSampleEntry::read(data, pos)?;
        let vpcc = VpCodecConfigurationBox::read(data, pos)?;
        Ok(Vp9SampleEntryBox { visual_sample_entry, vpcc })
    }
}

// ---------------------------------------------------------------------------
// AVC

/// A parameter set as stored in the record: a 16-bit length, then the bytes.
pub open spec fn ps_bytes(p: Seq<u8>) -> Seq<u8> {
    be_bytes(p.len(), 2) + p
}

/// A sequence parameter set, as the bytes of its NAL unit.
pub struct SequenceParameterSet(pub Vec<u8>);

/// A picture parameter set, as the bytes of its NAL unit.
pub struct PictureParameterSet(pub Vec<u8>);

pub open spec fn sps_bytes(p: SequenceParameterSet) -> Seq<u8> {
    ps_bytes(p.0@)
}

pub open spec fn pps_bytes(p: PictureParameterSet) -> Seq<u8> {
    ps_bytes(p.0@)
}

/// A 16-bit length and that many bytes lie at `p`.
pub open spec fn set_fits(d: Seq<u8>, p: int) -> bool {
    p + 2 <= d.len() && p + 2 + be_at(d, p, 2) <= d.len()
}

/// The position after the length-prefixed set at `p`.
pub open spec fn set_after(d: Seq<u8>, p: int) -> int {
    p + 2 + be_at(d, p, 2)
}

/// The position after `n` length-prefixed sets from `p`, where they all fit.
pub open spec fn sets_end(d: Seq<u8>, p: int, n: nat) -> Option<int>
    decreases n,
{
    if n == 0 {
        Some(p)
    } else {
        match sets_end(d, p, (n - 1) as nat) {
            None => None,
            Some(q) => if set_fits(d, q) {
                Some(set_after(d, q))
            } else {
                None
            },
        }
    }
}

proof fn lemma_sets_end_none(d: Seq<u8>, p: int, m: nat, n: nat)
    requires
        m <= n,
        sets_end(d, p, m) is None,
    ensures
        sets_end(d, p, n) is None,
    decreases n,
{
    if m < n {
        lemma_sets_end_none(d, p, m, (n - 1) as nat);
    }
}

/// An AVC configuration record can be read at `p`: its 6-byte header, the
/// sequence parameter sets its count announces, the picture parameter set
/// count, and those sets, all lie within `d`.
pub open spec fn avc_record_fits(d: Seq<u8>, p: int) -> bool {
    &&& p + 6 <= d.len()
    &&& match sets_end(d, p + 6, (d[p + 5] % 32) as nat) {
        None => false,
        Some(q) => q + 1 <= d.len() && sets_end(d, q + 1, d[q] as nat) is Some,
    }
}

/// Reads a 16-bit length and that many bytes at `*pos`.
fn read_parameter_set(data: &[u8], pos: &mut usize) -> (r: Result<Vec<u8>, Mp4BoxError>)
    ensures
        r is Ok ==> {
            &&& *old(pos) <= *final(pos) <= data@.len()
            &&& r->Ok_0@.len() <= 0xFFFF
            &&& data@.subrange(*old(pos) as int, *final(pos) as int) == ps_bytes(r->Ok_0@)
        },
        r is Ok <==> set_fits(data@, *old(pos) as int),
        r is Ok ==> *final(pos) == set_after(data@, *old(pos) as int),
{
    let p = *pos;
    let len = read_u16(data, pos)?;
    let v = read_bytes(data, pos, len as usize)?;
    proof {
        lemma_be_bytes_of_value(data@.subrange(p as int, p + 2));
        assert(data@.subrange(p as int, *pos as int) =~= data@.subrange(p as int, p + 2)
            + data@.subrange(p + 2, *pos as int));
    }
    Ok(v)
}

/// Emits a parameter set with its 16-bit length.
fn write_parameter_set(out: &mut Vec<u8>, p: &Vec<u8>)
    requires
        p@.len() <= 0xFFFF,
    ensures
        final(out)@ == old(out)@ + ps_bytes(p@),
{
    push_u16(out, p.len() as u16);
    push_bytes(out, p.as_slice());
    assert(final(out)@ =~= old(out)@ + ps_bytes(p@));
}

/// The AVC decoder configuration record.
pub struct AvcDecoderConfigurationRecord {
    pub profile_indication: u8,
    pub profile_compatibility: u8,
    pub level_indication: u8,
    pub sequence_parameter_sets: Vec<SequenceParameterSet>,
    pub picture_parameter_sets: Vec<PictureParameterSet>,
}

impl AvcDecoderConfigurationRecord {
    /// At most 31 sequence and 255 picture parameter sets, each shorter than 64 KiB.
    pub open spec fn wf(&self) -> bool {
        &&& self.sequence_parameter_sets@.len() <= 31
        &&& self.picture_parameter_sets@.len() <= 255
        &&& forall|i: int|
            0 <= i < self.sequence_parameter_sets@.len()
                ==> #[trigger] self.sequence_parameter_sets@[i].0@.len() <= 0xFFFF
        &&& forall|i: int|
            0 <= i < self.picture_parameter_sets@.len()
                ==> #[trigger] self.picture_parameter_sets@[i].0@.len() <= 0xFFFF
    }

    /// The parameter sets and their counts, after the fixed header.
    pub open spec fn spec_sets(&self) -> Seq<u8> {
        concat_map(self.sequence_parameter_sets@, |p: SequenceParameterSet| sps_bytes(p))
            + seq![self.picture_parameter_sets@.len() as u8] + concat_map(
            self.picture_parameter_sets@,
            |p: PictureParameterSet| pps_bytes(p),
        )
    }

    /// Version 1, the profile and level, 4-byte NAL lengths, and the sets.
    pub open spec fn spec_bytes(&self) -> Seq<u8> {
        seq![
            1u8,
            self.profile_indication,
            self.profile_compatibility,
            self.level_indication,
            0xFFu8,
            (0xE0 + self.sequence_parameter_sets@.len()) as u8,
        ] + self.spec_sets()
    }

    /// Reads a record at `*pos`.
    pub fn read(data: &[u8], pos: &mut usize) -> (r: Result<Self, Mp4BoxError>)
        ensures
            r is Ok ==> {
                let c = r->Ok_0;
                let p = *old(pos);
                &&& p + 6 <= *final(pos) <= data@.len()
                &&& c.wf()
                &&& c.profile_indication == data@[p + 1]
                &&& c.profile_compatibility == data@[p + 2]
                &&& c.level_indication == data@[p + 3]
                &&& c.sequence_parameter_sets@.len() == data@[p + 5] % 32
                &&& data@.subrange(p + 6, *final(pos) as int) == c.spec_sets()
            },
            r is Ok <==> avc_record_fits(data@, *old(pos) as int),
    {
        let p = *pos;
        let header = read_bytes(data, pos, 6)?;
        let sps_count = header[5] % 32;
        let q = *pos;
        let mut sequence_parameter_sets: Vec<SequenceParameterSet> = Vec::new();
        let mut i: u8 = 0;
        while i < sps_count
            invariant
                i <= sps_count <= 31,
                q <= *pos <= data@.len(),
                sequence_parameter_sets@.len() == i,
                forall|j: int|
                    0 <= j < i ==> #[trigger] sequence_parameter_sets@[j].0@.len() <= 0xFFFF,
                data@.subrange(q as int, *pos as int) == concat_map(
                    sequence_parameter_sets@,
                    |p: SequenceParameterSet| sps_bytes(p),
                ),
                q == p + 6,
                p == *old(pos),
                sps_count == data@[p + 5] % 32,
                sets_end(data@, q as int, i as nat) == Some(*pos as int),
            decreases sps_count - i,
        {
            let a = *pos;
            let rv = read_parameter_set(data, pos);
            let v = match rv {
                Ok(v) => v,
                Err(e) => {
                    proof {
                        lemma_sets_end_none(data@, q as int, (i + 1) as nat, sps_count as nat);
                    }
                    return Err(e);
                },
            };
            let ps = SequenceParameterSet(v);
            proof {
                lemma_concat_map_push(
                    sequence_parameter_sets@,
                    ps,
                    |p: SequenceParameterSet| sps_bytes(p),
                );
                assert(data@.subrange(q as int, *pos as int) =~= data@.subrange(q as int, a as int)
                    + data@.subrange(a as int, *pos as int));
            }
            sequence_parameter_sets.push(ps);
            i = i + 1;
        }
        let m = *pos;
        let pps_count = read_u8(data, pos)?;
        assert(pps_count == data@[m as int]) by {
            lemma_be_bytes_small(data@[m as int]);
            assert(data@.subrange(m as int, m + 1) =~= seq![data@[m as int]]);
        }
        proof {
            lemma_be_bytes_small(pps_count);
            lemma_be_bytes_of_value(data@.subrange(m as int, m + 1));
        }
        let q2 = *pos;
        let mut picture_parameter_sets: Vec<PictureParameterSet> = Vec::new();
        let mut k: u8 = 0;
        while k < pps_count
            invariant
                k <= pps_count,
                q2 <= *pos <= data@.len(),
                picture_parameter_sets@.len() == k,
                forall|j: int|
                    0 <= j < k ==> #[trigger] picture_parameter_sets@[j].0@.len() <= 0xFFFF,
                data@.subrange(q2 as int, *pos as int) == concat_map(
                    picture_parameter_sets@,
                    |p: PictureParameterSet| pps_bytes(p),
                ),
                q2 == m + 1,
                p == *old(pos),
                pps_count == data@[m as int],
                sets_end(data@, (p + 6) as int, (data@[p + 5] % 32) as nat) == Some(m as int),
                sets_end(data@, q2 as int, k as nat) == Some(*pos as int),
            decreases pps_count - k,
        {
            let a = *pos;
            let rv = read_parameter_set(data, pos);
            let v = match rv {
                Ok(v) => v,
                Err(e) => {
                    proof {
                        lemma_sets_end_none(data@, q2 as int, (k + 1) as nat, pps_count as nat);
                    }
                    return Err(e);
                },
            };
            let ps = PictureParameterSet(v);
            proof {
                lemma_concat_map_push(picture_parameter_sets@, ps, |p: PictureParameterSet| pps_bytes(p));
                assert(data@.subrange(q2 as int, *pos as int) =~= data@.subrange(q2 as int, a as int)
                    + data@.subrange(a as int, *pos as int));
            }
            picture_parameter_sets.push(ps);
            k = k + 1;
        }
        let c = AvcDecoderConfigurationRecord {
            profile_indication: header[1],
            profile_compatibility: header[2],
            level_indication: header[3],
            sequence_parameter_sets,
            picture_parameter_sets,
        };
        proof {
            assert(data@.subrange(m as int, m + 1) =~= seq![pps_count]);
            assert(data@.subrange(q as int, *pos as int) =~= data@.subrange(q as int, m as int)
                + data@.subrange(m as int, m + 1) + data@.subrange(q2 as int, *pos as int));
            assert(data@.subrange(p + 6, *pos as int) =~= c.spec_sets());
        }
        Ok(c)
    }

    /// The size of the encoded record.
    pub fn size(&self) -> (r: u64)
        requires
            self.wf(),
        ensures
            r == self.spec_bytes().len(),
            r <= 7 + 286 * 0x1_0001,
    {
        let mut size: u64 = 7;
        let mut i: usize = 0;
        let ghost sp = self.sequence_parameter_sets@;
        let ghost pp = self.picture_parameter_sets@;
        while i < self.sequence_parameter_sets.len()
            invariant
                self.wf(),
                sp == self.sequence_parameter_sets@,
                i <= sp.len(),
                size == 7 + concat_map(sp.subrange(0, i as int), |p: SequenceParameterSet| sps_bytes(p)).len(),
                size <= 7 + i * 0x1_0001,
            decreases sp.len() - i,
        {
            proof {
                lemma_concat_map_push(sp.subrange(0, i as int), sp[i as int], |p: SequenceParameterSet| sps_bytes(p));
                assert(sp.subrange(0, i + 1) =~= sp.subrange(0, i as int).push(sp[i as int]));
                assert(sp[i as int].0@.len() <= 0xFFFF);
            }
            size = size + 2 + self.sequence_parameter_sets[i].0.len() as u64;
            i = i + 1;
        }
        assert(sp.subrange(0, i as int) =~= sp);
        let mut k: usize = 0;
        let ghost base = size;
        while k < self.picture_parameter_sets.len()
            invariant
                self.wf(),
                pp == self.picture_parameter_sets@,
                k <= pp.len(),
                base <= 7 + 31 * 0x1_0001,
                size == base + concat_map(pp.subrange(0, k as int), |p: PictureParameterSet| pps_bytes(p)).len(),
                size <= base + k * 0x1_0001,
            decreases pp.len() - k,
        {
            proof {
                lemma_concat_map_push(pp.subrange(0, k as int), pp[k as int], |p: PictureParameterSet| pps_bytes(p));
                assert(pp.subrange(0, k + 1) =~= pp.subrange(0, k as int).push(pp[k as int]));
                assert(pp[k as int].0@.len() <= 0xFFFF);
            }
            size = size + 2 + self.picture_parameter_sets[k].0.len() as u64;
            k = k + 1;
        }
        assert(pp.subrange(0, k as int) =~= pp);
        size
    }

    /// Emits the record.
    pub fn write(&self, out: &mut Vec<u8>)
        requires
            self.wf(),
        ensures
            final(out)@ == old(out)@ + self.spec_bytes(),
    {
        let ghost sp = self.sequence_parameter_sets@;
        let ghost pp = self.picture_parameter_sets@;
        out.push(1u8);
        out.push(self.profile_indication);
        out.push(self.profile_compatibility);
        out.push(self.level_indication);
        out.push(0xFFu8);
        out.push((0xE0 + self.sequence_parameter_sets.len()) as u8);
        let ghost mid = out@;
        let mut i: usize = 0;
        while i < self.sequence_parameter_sets.len()
            invariant
                self.wf(),
                sp == self.sequence_parameter_sets@,
                i <= sp.len(),
                out@ == mid + concat_map(sp.subrange(0, i as int), |p: SequenceParameterSet| sps_bytes(p)),
            decreases sp.len() - i,
        {
            proof {
                lemma_concat_map_push(sp.subrange(0, i as int), sp[i as int], |p: SequenceParameterSet| sps_bytes(p));
                assert(sp.subrange(0, i + 1) =~= sp.subrange(0, i as int).push(sp[i as int]));
            }
            write_parameter_set(out, &self.sequence_parameter_sets[i].0);
            i = i + 1;
        }
        assert(sp.subrange(0, i as int) =~= sp);
        out.push(self.picture_parameter_sets.len() as u8);
        let ghost mid2 = out@;
        let mut k: usize = 0;
        while k < self.picture_parameter_sets.len()
            invariant
                self.wf(),
                pp == self.picture_parameter_sets@,
                k <= pp.len(),
                out@ == mid2 + concat_map(pp.subrange(0, k as int), |p: PictureParameterSet| pps_bytes(p)),
            decreases pp.len() - k,
        {
            proof {
                lemma_concat_map_push(pp.subrange(0, k as int), pp[k as int], |p: PictureParameterSet| pps_bytes(p));
                assert(pp.subrange(0, k + 1) =~= pp.subrange(0, k as int).push(pp[k as int]));
            }
            write_parameter_set(out, &self.picture_parameter_sets[k].0);
            k = k + 1;
        }
        assert(pp.subrange(0, k as int) =~= pp);
        assert(final(out)@ =~= old(out)@ + self.spec_bytes());
    }
}

/// The AVC configuration box, holding the record.
pub struct AvcConfigurationBox {
    pub boks: Boks,
    pub config: AvcDecoderConfigurationRecord,
}

impl AvcConfigurationBox {
    pub open spec fn spec_bytes(&self) -> Seq<u8> {
        plain_box_bytes(AVCC, self.config.spec_bytes())
    }

    pub fn new(config: AvcDecoderConfigurationRecord) -> (r: Self)
        ensures
            r.config == config,
    {
        AvcConfigurationBox { boks: Boks::new(AVCC), config }
    }

    pub fn write(&self, out: &mut Vec<u8>)
        requires
            self.config.wf(),
        ensures
            final(out)@ == old(out)@ + self.spec_bytes(),
    {
        let content = self.config.size();
        write_header(out, AVCC, content);
        self.config.write(out);
        assert(final(out)@ =~= old(out)@ + self.spec_bytes());
    }

    pub fn total_size(&self) -> (r: u64)
        requires
            self.config.wf(),
        ensures
            r == self.spec_bytes().len(),
            r <= 15 + 286 * 0x1_0001,
    {
        let content = self.config.size();
        proof {
            crate::framing::lemma_plain_box_len(AVCC, self.config.spec_bytes());
        }
        self.boks.size(content)
    }

    /// Reads an `avcC` box at `*pos`.
    pub fn read(data: &[u8], pos: &mut usize) -> (r: Result<Self, Mp4BoxError>)
        requires
            *old(pos) <= data@.len(),
        ensures
            r is Ok ==> r->Ok_0.config.wf() && r->Ok_0.boks.name == AVCC,
            r is Ok ==> avcc_fields(data@, *old(pos) as int, r->Ok_0),
            header_result(rest(data@, *old(pos) as int)) is Ok && header_result(
                rest(data@, *old(pos) as int),
            )->Ok_0.0 != AVCC ==> r == Err::<Self, _>(
                Mp4BoxError::UnexpectedName(
                    BoxPrint(AVCC),
                    BoxPrint(header_result(rest(data@, *old(pos) as int))->Ok_0.0),
                ),
            ),
            r is Ok <==> ({
                let h = header_result(rest(data@, *old(pos) as int));
                &&& h is Ok
                &&& h->Ok_0.0 == AVCC
                &&& avc_record_fits(data@, *old(pos) + h->Ok_0.2)
            }),
    {
        let boks = Boks::read_named(data, pos, AVCC)?;
        let config = AvcDecoderConfigurationRecord::read(data, pos)?;
        Ok(AvcConfigurationBox { boks, config })
    }
}

/// The AVC sample entry: a visual sample entry with an `avcC` box.
pub struct AvcSampleEntryBox {
    pub visual_sample_entry: VisualSampleEntry,
    pub avcc: AvcConfigurationBox,
}

impl AvcSampleEntryBox {
    pub open spec fn wf(&self) -> bool {
        self.avcc.config.wf() && self.visual_sample_entry.sample_entry.boks.name == AVC1
    }

    pub open spec fn spec_bytes(&self) -> Seq<u8> {
        visual_entry_bytes(
            AVC1,
            self.visual_sample_entry.sample_entry.data_reference_index,
            self.visual_sample_entry.width,
            self.visual_sample_entry.height,
            self.avcc.spec_bytes(),
        )
    }

    pub fn new(width: u16, height: u16, avcc: AvcConfigurationBox) -> (r: Self)
        ensures
            r.visual_sample_entry.width == width,
            r.visual_sample_entry.height == height,
            r.visual_sample_entry.sample_entry.boks.name == AVC1,
            r.visual_sample_entry.sample_entry.data_reference_index == 1,
            r.avcc == avcc,
    {
        AvcSampleEntryBox { visual_sample_entry: VisualSampleEntry::new(AVC1, 1, width, height), avcc }
    }

    pub fn write(&self, out: &mut Vec<u8>)
        requires
            self.wf(),
        ensures
            final(out)@ == old(out)@ + self.spec_bytes(),
    {
        let total = self.total_size();
        self.visual_sample_entry.write(out, total);
        self.avcc.write(out);
        assert(final(out)@ =~= old(out)@ + self.spec_bytes());
    }

    pub fn total_size(&self) -> (r: u64)
        requires
            self.wf(),
        ensures
            r == self.spec_bytes().len(),
            r <= 101 + 286 * 0x1_0001,
    {
        let child = self.avcc.total_size();
        proof {
            lemma_header_len(AVC1, total_with_header(78 + self.avcc.spec_bytes().len()) as u64);
        }
        self.visual_sample_entry.size(child)
    }

    /// Reads an `avc1` sample entry at `*pos`.
    pub fn read(data: &[u8], pos: &mut usize) -> (r: Result<Self, Mp4BoxError>)
        requires
            *old(pos) <= data@.len(),
        ensures
            r is Ok <==> avc1_ok(data@, *old(pos) as int),
            r is Ok ==> avc1_fields(data@, *old(pos) as int, r->Ok_0),
            entry_fits(data@, *old(pos) as int, 78) && header_result(
                rest(data@, entry_child(data@, *old(pos) as int)),
            ) is Ok && header_result(rest(data@, entry_child(data@, *old(pos) as int)))->Ok_0.0
                != AVCC ==> r == Err::<Self, _>(
                Mp4BoxError::UnexpectedName(
                    BoxPrint(AVCC),
                    BoxPrint(header_result(rest(data@, entry_child(data@, *old(pos) as int)))->Ok_0.0),
                ),
            ),
    {
        let visual_sample_entry = VisualSampleEntry::read(data, pos)?;
        let avcc = AvcConfigurationBox::read(data, pos)?;
        Ok(AvcSampleEntryBox { visual_sample_entry, avcc })
    }
}

} // verus!
