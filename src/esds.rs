//! MPEG-4 elementary stream descriptors (`esds`) and the `mp4v` sample entry.
use vstd::prelude::*;

use crate::bytes::{
    lemma_be_bytes_len, lemma_be_bytes_small, push_bytes, push_u16, push_u24, push_u32, read_bytes, read_u16, read_u24, read_u32, read_u8, skip_bytes, u32_bytes, be_bytes,
};
use crate::codec::{visual_entry_fields, entry_child, entry_fits, visual_entry_bytes, VisualSampleEntry};
use crate::error::Mp4BoxError;
use crate::framing::{
    full_content_start, full_header_ok, BoxPrint,
    full_box_bytes, header_result, lemma_full_box_len, lemma_header_len, rest, total_with_header,
    write_full_header, FullBox, ESDS, MP4V,
};

verus! {

broadcast use lemma_be_bytes_len;

/// The tag of an ES descriptor.
pub const ES_DESCR_TAG: u8 = 0x3;
/// The tag of a decoder configuration descriptor.
pub const DECODER_CONFIG_DESCR_TAG: u8 = 0x4;
/// The tag of a decoder specific information descriptor.
pub const DECODER_SPECIFIC_DESCR_TAG: u8 = 0x5;

/// The largest descriptor length: 28 bits, in four bytes of 7 bits.
pub const MAX_DESCRIPTOR_LENGTH: u32 = 0x0FFF_FFFF;

/// The number of bytes that encode a descriptor length.
pub open spec fn length_size(v: u32) -> nat {
    if v <= 0x7F {
        1
    } else if v <= 0x3FFF {
        2
    } else if v <= 0x1F_FFFF {
        3
    } else {
        4
    }
}

/// The encoding of a descriptor length: 7 bits per byte, most significant
/// first, the high bit set on every byte but the last.
pub open spec fn length_bytes(v: u32) -> Seq<u8> {
    let b0 = (v & 0x7F) as u8;
    let b1 = (((v >> 7u32) & 0x7F) | 0x80) as u8;
    let b2 = (((v >> 14u32) & 0x7F) | 0x80) as u8;
    let b3 = (((v >> 21u32) & 0x7F) | 0x80) as u8;
    if v <= 0x7F {
        seq![b0]
    } else if v <= 0x3FFF {
        seq![b1, b0]
    } else if v <= 0x1F_FFFF {
        seq![b2, b1, b0]
    } else {
        seq![b3, b2, b1, b0]
    }
}

/// Decodes a descriptor length from byte `i` of `s` on, with `acc` decoded so
/// far: at most four bytes, up to one whose high bit is clear. The length
/// and the index after it; `None` where the bytes run out.
pub open spec fn decode_length(s: Seq<u8>, i: nat, acc: u32) -> Option<(u32, nat)>
    decreases 4 - i,
{
    if i >= 4 {
        Some((acc, i))
    } else if i >= s.len() {
        None
    } else {
        let b = s[i as int];
        let acc2 = (acc << 7u32) | ((b & 0x7F) as u32);
        if b & 0x80 == 0 {
            Some((acc2, i + 1))
        } else {
            decode_length(s, i + 1, acc2)
        }
    }
}

/// Encoding a descriptor length and decoding it gives it back, and takes
/// one byte up to 0x7F, two up to 0x3FFF, three up to 0x1FFFFF, else four.
pub proof fn law_length_round_trip(v: u32, tail: Seq<u8>)
    requires
        v <= MAX_DESCRIPTOR_LENGTH,
    ensures
        length_bytes(v).len() == length_size(v),
        decode_length(length_bytes(v) + tail, 0, 0) == Some((v, length_size(v))),
{
    reveal_with_fuel(decode_length, 5);
    let s = length_bytes(v) + tail;
    let b0 = (v & 0x7F) as u8;
    let b1 = (((v >> 7u32) & 0x7F) | 0x80) as u8;
    let b2 = (((v >> 14u32) & 0x7F) | 0x80) as u8;
    let b3 = (((v >> 21u32) & 0x7F) | 0x80) as u8;
    assert(b0 & 0x80 == 0 && b1 & 0x80 != 0 && b2 & 0x80 != 0 && b3 & 0x80 != 0) by (bit_vector)
        requires
            b0 == (v & 0x7F) as u8,
            b1 == (((v >> 7u32) & 0x7F) | 0x80) as u8,
            b2 == (((v >> 14u32) & 0x7F) | 0x80) as u8,
            b3 == (((v >> 21u32) & 0x7F) | 0x80) as u8,
    ;
    if v <= 0x7F {
        assert(s[0] == b0);
        assert(((0u32 << 7u32) | ((b0 & 0x7F) as u32)) == v) by (bit_vector)
            requires
                b0 == (v & 0x7F) as u8,
                v <= 0x7F,
        ;
    } else if v <= 0x3FFF {
        assert(s[0] == b1 && s[1] == b0);
        let a1 = (0u32 << 7u32) | ((b1 & 0x7F) as u32);
        assert(((a1 << 7u32) | ((b0 & 0x7F) as u32)) == v) by (bit_vector)
            requires
                b0 == (v & 0x7F) as u8,
                b1 == (((v >> 7u32) & 0x7F) | 0x80) as u8,
                a1 == (0u32 << 7u32) | ((b1 & 0x7F) as u32),
                v <= 0x3FFF,
        ;
    } else if v <= 0x1F_FFFF {
        assert(s[0] == b2 && s[1] == b1 && s[2] == b0);
        let a1 = (0u32 << 7u32) | ((b2 & 0x7F) as u32);
        let a2 = (a1 << 7u32) | ((b1 & 0x7F) as u32);
        assert(((a2 << 7u32) | ((b0 & 0x7F) as u32)) == v) by (bit_vector)
            requires
                b0 == (v & 0x7F) as u8,
                b1 == (((v >> 7u32) & 0x7F) | 0x80) as u8,
                b2 == (((v >> 14u32) & 0x7F) | 0x80) as u8,
                a1 == (0u32 << 7u32) | ((b2 & 0x7F) as u32),
                a2 == (a1 << 7u32) | ((b1 & 0x7F) as u32),
                v <= 0x1F_FFFF,
        ;
    } else {
        assert(s[0] == b3 && s[1] == b2 && s[2] == b1 && s[3] == b0);
        let a1 = (0u32 << 7u32) | ((b3 & 0x7F) as u32);
        let a2 = (a1 << 7u32) | ((b2 & 0x7F) as u32);
        let a3 = (a2 << 7u32) | ((b1 & 0x7F) as u32);
        assert(((a3 << 7u32) | ((b0 & 0x7F) as u32)) == v) by (bit_vector)
            requires
                b0 == (v & 0x7F) as u8,
                b1 == (((v >> 7u32) & 0x7F) | 0x80) as u8,
                b2 == (((v >> 14u32) & 0x7F) | 0x80) as u8,
                b3 == (((v >> 21u32) & 0x7F) | 0x80) as u8,
                a1 == (0u32 << 7u32) | ((b3 & 0x7F) as u32),
                a2 == (a1 << 7u32) | ((b2 & 0x7F) as u32),
                a3 == (a2 << 7u32) | ((b1 & 0x7F) as u32),
                v <= 0x0FFF_FFFF,
        ;
    }
}

/// The number of bytes that encode a descriptor length.
pub fn size_of_length(size: u32) -> (r: u32)
    ensures
        r == length_size(size),
{
    if size <= 0x7F {
        1
    } else if size <= 0x3FFF {
        2
    } else if size <= 0x1F_FFFF {
        3
    } else {
        4
    }
}

/// Emits a descriptor length.
pub fn write_length(out: &mut Vec<u8>, v: u32)
    requires
        v <= MAX_DESCRIPTOR_LENGTH,
    ensures
        final(out)@ == old(out)@ + length_bytes(v),
{
    let b0 = (v & 0x7F) as u8;
    let b1 = (((v >> 7u32) & 0x7F) | 0x80) as u8;
    let b2 = (((v >> 14u32) & 0x7F) | 0x80) as u8;
    let b3 = (((v >> 21u32) & 0x7F) | 0x80) as u8;
    if v > 0x1F_FFFF {
        out.push(b3);
    }
    if v > 0x3FFF {
        out.push(b2);
    }
    if v > 0x7F {
        out.push(b1);
    }
    out.push(b0);
    assert(final(out)@ =~= old(out)@ + length_bytes(v));
}

/// A descriptor header: the tag and the length of what follows it.
#[derive(Debug, Clone, Copy, PartialEq, Eq, Structural)]
pub struct Descriptor {
    pub tag: u8,
    pub size: u32,
    /// The number of bytes of the header as read: the tag and the length.
    pub read_size: u8,
}

/// A descriptor with the given tag and payload.
pub open spec fn descriptor_bytes(tag: u8, payload: Seq<u8>) -> Seq<u8> {
    seq![tag] + length_bytes(payload.len() as u32) + payload
}

impl Descriptor {
    /// Emits the header of a descriptor whose payload is `size` bytes long.
    pub fn write(&self, out: &mut Vec<u8>, size: u32)
        requires
            size <= MAX_DESCRIPTOR_LENGTH,
        ensures
            final(out)@ == old(out)@ + seq![self.tag] + length_bytes(size),
    {
        out.push(self.tag);
        write_length(out, size);
        assert(final(out)@ =~= old(out)@ + seq![self.tag] + length_bytes(size));
    }

    /// Decodes the descriptor header at `pos` without moving past it.
    pub fn peek(data: &[u8], pos: usize) -> (r: Result<Self, Mp4BoxError>)
        ensures
            r is Ok ==> {
                let d = r->Ok_0;
                &&& pos < data@.len()
                &&& d.tag == data@[pos as int]
                &&& decode_length(data@.subrange(pos + 1, data@.len() as int), 0, 0) == Some(
                    (d.size, (d.read_size - 1) as nat),
                )
            },
    {
        let mut p = pos;
        if p >= data.len() {
            return Err(Mp4BoxError::UnexpectedEos);
        }
        let tag = data[p];
        Descriptor::read(data, &mut p, tag)
    }

    /// Reads a descriptor header with the tag `expected` at `*pos`.
    pub fn read(data: &[u8], pos: &mut usize, expected: u8) -> (r: Result<Self, Mp4BoxError>)
        ensures
            r is Ok ==> {
                let d = r->Ok_0;
                &&& *old(pos) < data@.len()
                &&& d.tag == expected
                &&& data@[*old(pos) as int] == expected
                &&& decode_length(data@.subrange(*old(pos) + 1, data@.len() as int), 0, 0) == Some(
                    (d.size, (d.read_size - 1) as nat),
                )
                &&& *final(pos) == *old(pos) + d.read_size
            },
            r is Err ==> match r->Err_0 {
                Mp4BoxError::UnexpectedTag(e, t) => e == expected && *old(pos) < data@.len()
                    && t == data@[*old(pos) as int] && t != expected,
                e => e == Mp4BoxError::UnexpectedEos,
            },
            r is Ok <==> desc_at(data@, *old(pos) as int, expected) is Some,
            r is Ok ==> *final(pos) == desc_at(data@, *old(pos) as int, expected)->Some_0.0
                && r->Ok_0.size == desc_at(data@, *old(pos) as int, expected)->Some_0.1,
            *old(pos) < data@.len() && data@[*old(pos) as int] != expected ==> r == Err::<Descriptor, _>(
                Mp4BoxError::UnexpectedTag(expected, data@[*old(pos) as int]),
            ),
            *old(pos) < data@.len() && data@[*old(pos) as int] == expected && decode_length(
                data@.subrange(*old(pos) + 1, data@.len() as int),
                0,
                0,
            ) is Some ==> r is Ok,
    {
        let tag_pos = *pos;
        if tag_pos >= data.len() {
            return Err(Mp4BoxError::UnexpectedEos);
        }
        let tag = data[tag_pos];
        if tag != expected {
            return Err(Mp4BoxError::UnexpectedTag(expected, tag));
        }
        let ghost s = data@.subrange(tag_pos + 1, data@.len() as int);
        let mut i: usize = 0;
        let mut size: u32 = 0;
        let mut done = false;
        let len = data.len();
        while !done && i < 4
            invariant
                i <= 4,
                len == data@.len(),
                tag_pos == *old(pos),
                tag_pos < data@.len(),
                data@[tag_pos as int] == expected,
                tag_pos + 1 + i <= len,
                s == data@.subrange(tag_pos + 1, data@.len() as int),
                !done ==> decode_length(s, i as nat, size) == decode_length(s, 0, 0),
                done ==> decode_length(s, 0, 0) == Some((size, i as nat)),
            decreases 4 - i + if done { 0int } else { 1 },
        {
            if i >= len - tag_pos - 1 {
                assert(i >= s.len());
                assert(decode_length(s, i as nat, size) is None);
                assert(!done);
                assert(decode_length(s, 0, 0) is None);
                assert(tag_pos == *old(pos));
                return Err(Mp4BoxError::UnexpectedEos);
            }
            let b = data[tag_pos + 1 + i];
            assert(s[i as int] == b);
            size = (size << 7u32) | ((b & 0x7F) as u32);
            i = i + 1;
            if b & 0x80 == 0 {
                done = true;
            }
        }
        *pos = tag_pos + 1 + i;
        Ok(Descriptor { tag, size, read_size: (1 + i) as u8 })
    }

    /// The number of payload bytes after the header.
    pub fn remaining_size(&self) -> (r: u64)
        ensures
            r == self.size,
    {
        self.size as u64
    }

    /// The total size of a descriptor whose payload is `size` bytes long.
    pub fn size(&self, size: u64) -> (r: u64)
        requires
            size <= MAX_DESCRIPTOR_LENGTH,
        ensures
            r == 1 + length_size(size as u32) + size,
    {
        1 + size_of_length(size as u32) as u64 + size
    }
}

/// A descriptor tagged `tag` at `p` of `d`: the position after its header
/// and its length, where the tag matches and the length decodes.
pub open spec fn desc_at(d: Seq<u8>, p: int, tag: u8) -> Option<(int, nat)> {
    if 0 <= p < d.len() && d[p] == tag {
        match decode_length(d.subrange(p + 1, d.len() as int), 0, 0) {
            Some((v, k)) => Some((p + 1 + k, v as nat)),
            None => None,
        }
    } else {
        None
    }
}

/// Where a decoder configuration descriptor read at `p` ends: after its 13
/// bytes of fields, and after the decoder specific information descriptor
/// where one follows; `None` where it cannot be read.
pub open spec fn dcd_end(d: Seq<u8>, p: int) -> Option<int> {
    match desc_at(d, p, DECODER_CONFIG_DESCR_TAG) {
        None => None,
        Some((q, _)) => if q + 13 > d.len() {
            None
        } else if q + 13 < d.len() && d[q + 13] == DECODER_SPECIFIC_DESCR_TAG {
            match desc_at(d, q + 13, DECODER_SPECIFIC_DESCR_TAG) {
                None => None,
                Some((s, n)) => if n > 0xFFFF || s + n > d.len() {
                    None
                } else {
                    Some(s + n)
                },
            }
        } else {
            Some(q + 13)
        },
    }
}

/// Where an ES descriptor read at `p` ends: after its identifier, flags,
/// the optional fields its flags announce, and its decoder configuration
/// descriptor; `None` where it cannot be read.
pub open spec fn es_end(d: Seq<u8>, p: int) -> Option<int> {
    match desc_at(d, p, ES_DESCR_TAG) {
        None => None,
        Some((q, _)) => if q + 3 > d.len() {
            None
        } else {
            let flags = d[q + 2];
            let a = q + 3;
            if flags % 2 == 1 && a + 2 > d.len() {
                None
            } else {
                let a1 = if flags % 2 == 1 { a + 2 } else { a };
                if (flags / 2) % 2 == 1 && (a1 + 1 > d.len() || a1 + 1 + d[a1] > d.len()) {
                    None
                } else {
                    let a2 = if (flags / 2) % 2 == 1 { a1 + 1 + d[a1] } else { a1 };
                    if (flags / 4) % 2 == 1 && a2 + 2 > d.len() {
                        None
                    } else {
                        dcd_end(d, if (flags / 4) % 2 == 1 { a2 + 2 } else { a2 })
                    }
                }
            }
        },
    }
}

/// An `esds` box can be read at `q`: its full-box header, its ES
/// descriptor, and the box within `d`.
pub open spec fn esds_ok(d: Seq<u8>, q: int) -> bool {
    &&& full_header_ok(d, q, ESDS)
    &&& es_end(d, full_content_start(d, q)) is Some
    &&& q + header_result(rest(d, q))->Ok_0.1 <= d.len()
}

/// An `mp4v` sample entry can be read at `q`.
pub open spec fn mp4v_ok(d: Seq<u8>, q: int) -> bool {
    entry_fits(d, q, 78) && esds_ok(d, entry_child(d, q))
}

/// A decoder configuration descriptor.
pub struct DecoderConfigDescriptor {
    pub descriptor: Descriptor,
    pub object_type_indication: u8,
    /// The stream type, upstream flag and reserved bit.
    pub stream_type: u8,
    /// 24 bits.
    pub buffer_size_db: u32,
    pub max_bitrate: u32,
    pub avg_bitrate: u32,
    /// The payload of the decoder specific information descriptor, if any.
    pub decoder_specific: Vec<u8>,
}

impl DecoderConfigDescriptor {
    pub open spec fn wf(&self) -> bool {
        self.buffer_size_db < 0x100_0000 && self.decoder_specific@.len() <= 0xFFFF
    }

    pub open spec fn spec_payload(&self) -> Seq<u8> {
        seq![self.object_type_indication, self.stream_type] + be_bytes(
            self.buffer_size_db as nat,
            3,
        ) + u32_bytes(self.max_bitrate) + u32_bytes(self.avg_bitrate) + if self.decoder_specific@.len()
            > 0 {
            descriptor_bytes(DECODER_SPECIFIC_DESCR_TAG, self.decoder_specific@)
        } else {
            Seq::empty()
        }
    }

    pub open spec fn spec_bytes(&self) -> Seq<u8> {
        descriptor_bytes(DECODER_CONFIG_DESCR_TAG, self.spec_payload())
    }

    /// Reads a decoder configuration descriptor at `*pos`, with the decoder
    /// specific information that may follow its fixed fields.
    pub fn read(data: &[u8], pos: &mut usize) -> (r: Result<Self, Mp4BoxError>)
        ensures
            r is Ok <==> dcd_end(data@, *old(pos) as int) is Some,
            r is Ok ==> *final(pos) == dcd_end(data@, *old(pos) as int)->Some_0,
            r is Ok ==> {
                let d = r->Ok_0;
                let p = *old(pos) + d.descriptor.read_size;
                &&& d.descriptor.tag == DECODER_CONFIG_DESCR_TAG
                &&& p + 13 <= data@.len()
                &&& d.object_type_indication == data@[p]
                &&& d.stream_type == data@[p + 1]
                &&& d.buffer_size_db == crate::bytes::be_at(data@, p + 2, 3)
                &&& d.max_bitrate == crate::bytes::be_at(data@, p + 5, 4)
                &&& d.avg_bitrate == crate::bytes::be_at(data@, p + 9, 4)
                &&& d.wf()
            },
    {
        let descriptor = Descriptor::read(data, pos, DECODER_CONFIG_DESCR_TAG)?;
        let p = *pos;
        let object_type_indication = read_u8(data, pos)?;
        let stream_type = read_u8(data, pos)?;
        let buffer_size_db = read_u24(data, pos)?;
        let max_bitrate = read_u32(data, pos)?;
        let avg_bitrate = read_u32(data, pos)?;
        proof {
            crate::bytes::lemma_be_value_bound(data@.subrange(p + 2, p + 5));
            crate::bytes::lemma_pow256_values();
            lemma_be_bytes_small(data@[p as int]);
            lemma_be_bytes_small(data@[p + 1]);
            assert(data@.subrange(p as int, p + 1) =~= seq![data@[p as int]]);
            assert(data@.subrange(p + 1, p + 2) =~= seq![data@[p + 1]]);
        }
        let mut decoder_specific: Vec<u8> = Vec::new();
        if *pos < data.len() && data[*pos] == DECODER_SPECIFIC_DESCR_TAG {
            let d = Descriptor::read(data, pos, DECODER_SPECIFIC_DESCR_TAG)?;
            if d.size > 0xFFFF {
                return Err(Mp4BoxError::UnexpectedEos);
            }
            decoder_specific = read_bytes(data, pos, d.size as usize)?;
        }
        Ok(DecoderConfigDescriptor {
            descriptor,
            object_type_indication,
            stream_type,
            buffer_size_db,
            max_bitrate,
            avg_bitrate,
            decoder_specific,
        })
    }

    fn payload_size(&self) -> (r: u32)
        requires
            self.wf(),
        ensures
            r == self.spec_payload().len(),
            r <= 13 + 4 + 0xFFFF,
    {
        if self.decoder_specific.len() > 0 {
            let n = self.decoder_specific.len() as u32;
            13 + 1 + size_of_length(n) + n
        } else {
            13
        }
    }

    /// The size of the encoded descriptor.
    pub fn total_size(&self) -> (r: u64)
        requires
            self.wf(),
        ensures
            r == self.spec_bytes().len(),
            r <= 13 + 4 + 0xFFFF + 5,
    {
        let n = self.payload_size();
        1 + size_of_length(n) as u64 + n as u64
    }

    pub fn write(&self, out: &mut Vec<u8>)
        requires
            self.wf(),
        ensures
            final(out)@ == old(out)@ + self.spec_bytes(),
    {
        let n = self.payload_size();
        out.push(DECODER_CONFIG_DESCR_TAG);
        write_length(out, n);
        out.push(self.object_type_indication);
        out.push(self.stream_type);
        push_u24(out, self.buffer_size_db);
        push_u32(out, self.max_bitrate);
        push_u32(out, self.avg_bitrate);
        if self.decoder_specific.len() > 0 {
            out.push(DECODER_SPECIFIC_DESCR_TAG);
            write_length(out, self.decoder_specific.len() as u32);
            push_bytes(out, self.decoder_specific.as_slice());
        }
        assert(final(out)@ =~= old(out)@ + self.spec_bytes());
    }
}

/// An ES descriptor: the stream's identifier and decoder configuration.
pub struct EsDescriptor {
    pub descriptor: Descriptor,
    pub es_id: u16,
    pub decoder_description: DecoderConfigDescriptor,
}

impl EsDescriptor {
    pub open spec fn wf(&self) -> bool {
        self.decoder_description.wf()
    }

    /// The identifier, no optional fields, and the decoder configuration.
    pub open spec fn spec_payload(&self) -> Seq<u8> {
        be_bytes(self.es_id as nat, 2) + seq![0u8] + self.decoder_description.spec_bytes()
    }

    pub open spec fn spec_bytes(&self) -> Seq<u8> {
        descriptor_bytes(ES_DESCR_TAG, self.spec_payload())
    }

    pub fn write(&self, out: &mut Vec<u8>)
        requires
            self.wf(),
        ensures
            final(out)@ == old(out)@ + self.spec_bytes(),
    {
        let n = 3 + self.decoder_description.total_size() as u32;
        out.push(ES_DESCR_TAG);
        write_length(out, n);
        push_u16(out, self.es_id);
        out.push(0u8);
        self.decoder_description.write(out);
        assert(final(out)@ =~= old(out)@ + self.spec_bytes());
    }

    /// Reads an ES descriptor at `*pos`, skipping the optional fields that
    /// its flags announce (bit 0x01: 2 bytes; 0x02: a length byte and that
    /// many bytes; 0x04: 2 bytes).
    pub fn read(data: &[u8], pos: &mut usize) -> (r: Result<Self, Mp4BoxError>)
        ensures
            r is Ok <==> es_end(data@, *old(pos) as int) is Some,
            r is Ok ==> *final(pos) == es_end(data@, *old(pos) as int)->Some_0,
            *old(pos) < data@.len() && data@[*old(pos) as int] != ES_DESCR_TAG ==> r is Err
                && r->Err_0 == Mp4BoxError::UnexpectedTag(ES_DESCR_TAG, data@[*old(pos) as int]),
            r is Ok ==> {
                let d = r->Ok_0;
                let p = *old(pos) + d.descriptor.read_size;
                &&& d.descriptor.tag == ES_DESCR_TAG
                &&& p + 2 <= data@.len()
                &&& d.es_id == crate::bytes::be_at(data@, p, 2)
                &&& d.wf()
            },
    {
        let descriptor = Descriptor::read(data, pos, ES_DESCR_TAG)?;
        let es_id = read_u16(data, pos)?;
        let flags = read_u8(data, pos)?;
        if flags % 2 == 1 {
            skip_bytes(data, pos, 2)?;
        }
        if (flags / 2) % 2 == 1 {
            let len = read_u8(data, pos)?;
            skip_bytes(data, pos, len as usize)?;
        }
        if (flags / 4) % 2 == 1 {
            skip_bytes(data, pos, 2)?;
        }
        let decoder_description = DecoderConfigDescriptor::read(data, pos)?;
        Ok(EsDescriptor { descriptor, es_id, decoder_description })
    }

    /// The size of the encoded descriptor.
    pub fn total_size(&self) -> (r: u64)
        requires
            self.wf(),
        ensures
            r == self.spec_bytes().len(),
            r <= 0x2_0000,
    {
        let n = 3 + self.decoder_description.total_size() as u32;
        1 + size_of_length(n) as u64 + n as u64
    }
}

/// The elementary stream descriptor box.
pub struct EsdBox {
    pub full_box: FullBox,
    pub descriptor: EsDescriptor,
}

impl EsdBox {
    pub open spec fn spec_bytes(&self) -> Seq<u8> {
        full_box_bytes(ESDS, 0, 0, self.descriptor.spec_bytes())
    }

    pub fn new(descriptor: EsDescriptor) -> (r: Self)
        ensures
            r.descriptor == descriptor,
    {
        EsdBox { full_box: FullBox::new(ESDS, 0, 0), descriptor }
    }

    /// Reads an `esds` box at `*pos`, and moves to its end.
    pub fn read(data: &[u8], pos: &mut usize) -> (r: Result<Self, Mp4BoxError>)
        requires
            *old(pos) <= data@.len(),
        ensures
            r is Ok <==> esds_ok(data@, *old(pos) as int),
            header_result(rest(data@, *old(pos) as int)) is Ok && header_result(
                rest(data@, *old(pos) as int),
            )->Ok_0.0 != ESDS ==> r is Err && r->Err_0 == Mp4BoxError::UnexpectedName(
                BoxPrint(ESDS),
                BoxPrint(header_result(rest(data@, *old(pos) as int))->Ok_0.0),
            ),
            full_header_ok(data@, *old(pos) as int, ESDS) && full_content_start(
                data@,
                *old(pos) as int,
            ) < data@.len() && data@[full_content_start(data@, *old(pos) as int)] != ES_DESCR_TAG
                ==> r is Err && r->Err_0 == Mp4BoxError::UnexpectedTag(
                ES_DESCR_TAG,
                data@[full_content_start(data@, *old(pos) as int)],
            ),
            r is Ok ==> {
                &&& r->Ok_0.full_box.boks.name == ESDS
                &&& r->Ok_0.descriptor.wf()
                &&& *final(pos) == *old(pos) + r->Ok_0.full_box.boks.size
                &&& *final(pos) <= data@.len()
            },
    {
        let start = *pos;
        let full_box = FullBox::read_named(data, pos, ESDS)?;
        let descriptor = EsDescriptor::read(data, pos)?;
        if full_box.boks.size > (data.len() - start) as u64 {
            return Err(Mp4BoxError::UnexpectedEos);
        }
        *pos = start + full_box.boks.size as usize;
        Ok(EsdBox { full_box, descriptor })
    }

    pub fn write(&self, out: &mut Vec<u8>)
        requires
            self.descriptor.wf(),
        ensures
            final(out)@ == old(out)@ + self.spec_bytes(),
    {
        let n = self.descriptor.total_size();
        write_full_header(out, ESDS, 0, 0, n);
        self.descriptor.write(out);
    }

    pub fn total_size(&self) -> (r: u64)
        requires
            self.descriptor.wf(),
        ensures
            r == self.spec_bytes().len(),
            r <= 0x2_0000 + 20,
    {
        let n = self.descriptor.total_size();
        proof {
            lemma_full_box_len(ESDS, 0, 0, self.descriptor.spec_bytes());
        }
        self.full_box.size(n)
    }
}

/// The MPEG-4 visual sample entry: a visual sample entry with an `esds` box.
pub struct Mpeg4VideoSampleEntryBox {
    pub visual_sample_entry: VisualSampleEntry,
    pub esds: EsdBox,
}

impl Mpeg4VideoSampleEntryBox {
    pub open spec fn wf(&self) -> bool {
        self.esds.descriptor.wf() && self.visual_sample_entry.sample_entry.boks.name == MP4V
    }

    pub open spec fn spec_bytes(&self) -> Seq<u8> {
        visual_entry_bytes(
            MP4V,
            self.visual_sample_entry.sample_entry.data_reference_index,
            self.visual_sample_entry.width,
            self.visual_sample_entry.height,
            self.esds.spec_bytes(),
        )
    }

    pub fn new(width: u16, height: u16, esds: EsdBox) -> (r: Self)
        ensures
            r.visual_sample_entry.width == width,
            r.visual_sample_entry.height == height,
            r.visual_sample_entry.sample_entry.boks.name == MP4V,
            r.visual_sample_entry.sample_entry.data_reference_index == 1,
            r.esds == esds,
    {
        Mpeg4VideoSampleEntryBox {
            visual_sample_entry: VisualSampleEntry::new(MP4V, 1, width, height),
            esds,
        }
    }

    pub fn write(&self, out: &mut Vec<u8>)
        requires
            self.wf(),
        ensures
            final(out)@ == old(out)@ + self.spec_bytes(),
    {
        let total = self.total_size();
        self.visual_sample_entry.write(out, total);
        self.esds.write(out);
        assert(final(out)@ =~= old(out)@ + self.spec_bytes());
    }

    pub fn total_size(&self) -> (r: u64)
        requires
            self.wf(),
        ensures
            r == self.spec_bytes().len(),
            r <= 0x2_0000 + 20 + 94,
    {
        let child = self.esds.total_size();
        proof {
            lemma_header_len(MP4V, total_with_header(78 + self.esds.spec_bytes().len()) as u64);
        }
        self.visual_sample_entry.size(child)
    }

    /// Reads an `mp4v` sample entry at `*pos`.
    pub fn read(data: &[u8], pos: &mut usize) -> (r: Result<Self, Mp4BoxError>)
        requires
            *old(pos) <= data@.len(),
        ensures
            r is Ok <==> mp4v_ok(data@, *old(pos) as int),
            r is Ok ==> visual_entry_fields(data@, *old(pos) as int, r->Ok_0.visual_sample_entry),
            entry_fits(data@, *old(pos) as int, 78) && header_result(
                rest(data@, entry_child(data@, *old(pos) as int)),
            ) is Ok && header_result(rest(data@, entry_child(data@, *old(pos) as int)))->Ok_0.0
                != ESDS ==> r is Err && r->Err_0 == Mp4BoxError::UnexpectedName(
                BoxPrint(ESDS),
                BoxPrint(header_result(rest(data@, entry_child(data@, *old(pos) as int)))->Ok_0.0),
            ),
            entry_fits(data@, *old(pos) as int, 78) && full_header_ok(
                data@,
                entry_child(data@, *old(pos) as int),
                ESDS,
            ) && full_content_start(data@, entry_child(data@, *old(pos) as int)) < data@.len()
                && data@[full_content_start(data@, entry_child(data@, *old(pos) as int))]
                != ES_DESCR_TAG ==> r is Err && r->Err_0 == Mp4BoxError::UnexpectedTag(
                ES_DESCR_TAG,
                data@[full_content_start(data@, entry_child(data@, *old(pos) as int))],
            ),
            r is Ok ==> r->Ok_0.esds.descriptor.wf(),
            r is Ok ==> {
                let v = r->Ok_0.visual_sample_entry;
                let p = *old(pos) + v.sample_entry.boks.read_size;
                &&& header_result(rest(data@, *old(pos) as int)) is Ok
                &&& header_result(rest(data@, *old(pos) as int))->Ok_0.0 == v.sample_entry.boks.name
                &&& v.sample_entry.data_reference_index == crate::bytes::be_at(data@, p + 6, 2)
                &&& v.width == crate::bytes::be_at(data@, p + 24, 2)
                &&& v.height == crate::bytes::be_at(data@, p + 26, 2)
            },
    {
        let visual_sample_entry = VisualSampleEntry::read(data, pos)?;
        let esds = EsdBox::read(data, pos)?;
        Ok(Mpeg4VideoSampleEntryBox { visual_sample_entry, esds })
    }
}

} // verus!
