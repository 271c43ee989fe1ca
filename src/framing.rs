//! Box framing: the 8- or 16-byte box header, the version/flags extension of
//! full boxes, and the common prefix of visual sample entries.
use vstd::prelude::*;

use crate::bytes::{lemma_be_bytes_len, be_at, be_bytes, lemma_be_round_trip, lemma_be_value_bound, lemma_pow256_values, push_u24, push_u32, push_u64, push_u8, read_u24, read_u32, read_u64, read_u8};
use crate::error::Mp4BoxError;

verus! {

/// A four-character code, as the big-endian value of its four bytes.
pub type BoxName = u32;

pub const FTYP: BoxName = 0x66747970;
pub const MOOV: BoxName = 0x6d6f6f76;
pub const MVHD: BoxName = 0x6d766864;
pub const TRAK: BoxName = 0x7472616b;
pub const TKHD: BoxName = 0x746b6864;
pub const MDIA: BoxName = 0x6d646961;
pub const MDHD: BoxName = 0x6d646864;
pub const HDLR: BoxName = 0x68646c72;
pub const MINF: BoxName = 0x6d696e66;
pub const VMHD: BoxName = 0x766d6864;
pub const SMHD: BoxName = 0x736d6864;
pub const DINF: BoxName = 0x64696e66;
pub const DREF: BoxName = 0x64726566;
/// `url ` (with a trailing space).
pub const URL: BoxName = 0x75726c20;
pub const STBL: BoxName = 0x7374626c;
pub const STSD: BoxName = 0x73747364;
pub const STTS: BoxName = 0x73747473;
pub const STSC: BoxName = 0x73747363;
pub const STSZ: BoxName = 0x7374737a;
pub const STCO: BoxName = 0x7374636f;
pub const CO64: BoxName = 0x636f3634;
pub const STSS: BoxName = 0x73747373;
pub const MVEX: BoxName = 0x6d766578;
pub const MEHD: BoxName = 0x6d656864;
pub const TREX: BoxName = 0x74726578;
pub const MDAT: BoxName = 0x6d646174;
pub const AVC1: BoxName = 0x61766331;
/// `avcC`.
pub const AVCC: BoxName = 0x61766343;
pub const VP09: BoxName = 0x76703039;
/// `vpcC`.
pub const VPCC: BoxName = 0x76706343;
pub const MP4V: BoxName = 0x6d703476;
pub const ESDS: BoxName = 0x65736473;
/// The brand `isom`.
pub const ISOM: BoxName = 0x69736f6d;
/// The brand `iso5`.
pub const ISO5: BoxName = 0x69736f35;
/// The handler type of video tracks, `vide`.
pub const VIDE: BoxName = 0x76696465;

/// A box name that prints as its four ASCII characters.
#[derive(Debug, Clone, Copy, PartialEq, Eq, Structural)]
pub struct BoxPrint(pub BoxName);

impl BoxPrint {
    /// The four characters of the name, first character first.
    pub fn ascii(&self) -> (r: Vec<u8>)
        ensures
            r@ == be_bytes(self.0 as nat, 4),
    {
        let mut r: Vec<u8> = Vec::new();
        push_u32(&mut r, self.0);
        r
    }
}

/// The encoded form of a box header for a box of `size` bytes in all: the
/// 16-byte form, with a 32-bit size of 1 and the true size after the name,
/// where `size` does not fit in 32 bits; else the 8-byte form.
pub open spec fn header_bytes(name: BoxName, size: u64) -> Seq<u8> {
    if size > u32::MAX {
        be_bytes(1, 4) + be_bytes(name as nat, 4) + be_bytes(size as nat, 8)
    } else {
        be_bytes(size as nat, 4) + be_bytes(name as nat, 4)
    }
}

/// The total size of a box whose contents (after the header) are `content` bytes long.
pub open spec fn total_with_header(content: nat) -> nat {
    if content + 8 > u32::MAX {
        content + 16
    } else {
        content + 8
    }
}

/// The header that starts `s`: its name, the total size of the box, and the
/// header length; `None` where `s` is too short to hold it.
pub open spec fn parse_header(s: Seq<u8>) -> Option<(BoxName, u64, u8)> {
    if s.len() < 8 {
        None
    } else if be_at(s, 0, 4) == 1 {
        if s.len() < 16 {
            None
        } else {
            Some((be_at(s, 4, 4) as u32, be_at(s, 8, 8) as u64, 16u8))
        }
    } else {
        Some((be_at(s, 4, 4) as u32, be_at(s, 0, 4) as u64, 8u8))
    }
}

/// The bytes of `data` from `pos` on.
pub open spec fn rest(data: Seq<u8>, pos: int) -> Seq<u8> {
    data.subrange(pos, data.len() as int)
}

/// What reading a header from the bytes `s` gives: the header, or the error.
pub open spec fn header_result(s: Seq<u8>) -> Result<(BoxName, u64, u8), Mp4BoxError> {
    match parse_header(s) {
        None => Err(Mp4BoxError::UnexpectedEos),
        Some(h) => if h.1 < h.2 {
            Err(Mp4BoxError::InvalidBoxSize(BoxPrint(h.0), h.1))
        } else {
            Ok(h)
        },
    }
}

/// A box header: the name, the total size of the box including the header,
/// and the length of the header as read (0 for a header not read from bytes).
#[derive(Debug, Clone, Copy)]
pub struct Boks {
    pub name: BoxName,
    pub size: u64,
    pub read_size: u8,
}

impl Boks {
    pub fn new(name: BoxName) -> (r: Self)
        ensures
            r.name == name,
            r.size == 0,
            r.read_size == 0,
    {
        Boks { name, size: 0, read_size: 0 }
    }

    /// Decodes the header at `pos` without moving past it.
    pub fn peek(data: &[u8], pos: usize) -> (r: Result<Self, Mp4BoxError>)
        requires
            pos <= data@.len(),
        ensures
            match r {
                Ok(b) => header_result(rest(data@, pos as int)) == Ok::<_, Mp4BoxError>(
                    (b.name, b.size, b.read_size),
                ),
                Err(e) => header_result(rest(data@, pos as int)) == Err::<(BoxName, u64, u8), _>(
                    e,
                ),
            },
    {
        let mut p = pos;
        Boks::read(data, &mut p)
    }

    /// Decodes the header at `*pos` and moves past it.
    pub fn read(data: &[u8], pos: &mut usize) -> (r: Result<Self, Mp4BoxError>)
        requires
            *old(pos) <= data@.len(),
        ensures
            match r {
                Ok(b) => {
                    &&& header_result(rest(data@, *old(pos) as int)) == Ok::<_, Mp4BoxError>(
                        (b.name, b.size, b.read_size),
                    )
                    &&& *final(pos) == *old(pos) + b.read_size
                },
                Err(e) => header_result(rest(data@, *old(pos) as int)) == Err::<
                    (BoxName, u64, u8),
                    _,
                >(e),
            },
    {
        let start = *pos;
        let ghost s = rest(data@, start as int);
        let size32 = read_u32(data, pos);
        let name = read_u32(data, pos);
        proof {
            if data@.len() >= start + 8 {
                assert(s.subrange(0, 4) =~= data@.subrange(start as int, start + 4));
                assert(s.subrange(4, 8) =~= data@.subrange(start + 4, start + 8));
            }
        }
        let (size32, name) = match (size32, name) {
            (Ok(a), Ok(b)) => (a, b),
            _ => {
                return Err(Mp4BoxError::UnexpectedEos);
            },
        };
        let mut size: u64 = size32 as u64;
        let mut read_size: u8 = 8;
        if size32 == 1 {
            let size_pos = *pos;
            match read_u64(data, pos) {
                Ok(v) => {
                    assert(s.subrange(8, 16) =~= data@.subrange(size_pos as int, size_pos + 8));
                    size = v;
                    read_size = 16;
                },
                Err(e) => {
                    return Err(e);
                },
            }
        }
        if size < read_size as u64 {
            return Err(Mp4BoxError::InvalidBoxSize(BoxPrint(name), size));
        }
        Ok(Boks { name, size, read_size })
    }

    /// Decodes the header at `*pos`, which must be named `expected`, and moves past it.
    pub fn read_named(data: &[u8], pos: &mut usize, expected: BoxName) -> (r: Result<
        Self,
        Mp4BoxError,
    >)
        requires
            *old(pos) <= data@.len(),
        ensures
            match r {
                Ok(b) => {
                    &&& header_result(rest(data@, *old(pos) as int)) == Ok::<_, Mp4BoxError>(
                        (b.name, b.size, b.read_size),
                    )
                    &&& b.name == expected
                    &&& *final(pos) == *old(pos) + b.read_size
                },
                Err(e) => match header_result(rest(data@, *old(pos) as int)) {
                    Ok(h) => h.0 != expected && e == Mp4BoxError::UnexpectedName(
                        BoxPrint(expected),
                        BoxPrint(h.0),
                    ),
                    Err(e2) => e == e2,
                },
            },
    {
        let b = Boks::read(data, pos)?;
        if b.name != expected {
            return Err(Mp4BoxError::UnexpectedName(BoxPrint(expected), BoxPrint(b.name)));
        }
        Ok(b)
    }

    /// Emits the header of a box named `self.name` whose total size is `size`.
    pub fn write(&self, out: &mut Vec<u8>, size: u64)
        ensures
            final(out)@ == old(out)@ + header_bytes(self.name, size),
    {
        if size > 0xFFFF_FFFF {
            push_u32(out, 1);
            push_u32(out, self.name);
            push_u64(out, size);
        } else {
            push_u32(out, size as u32);
            push_u32(out, self.name);
        }
        assert(final(out)@ =~= old(out)@ + header_bytes(self.name, size));
    }

    /// The total size of a box whose contents are `size` bytes long.
    pub fn size(&self, size: u64) -> (r: u64)
        requires
            total_with_header(size as nat) <= u64::MAX,
        ensures
            r == total_with_header(size as nat),
    {
        if size + 8 > 0xFFFF_FFFF {
            size + 16
        } else {
            size + 8
        }
    }

    /// The number of bytes of the box after its header.
    pub fn remaining_size(&self) -> (r: u64)
        requires
            self.size >= self.read_size,
        ensures
            r == self.size - self.read_size,
    {
        self.size - self.read_size as u64
    }
}

/// Writing a header for contents of `content_size` bytes and reading it back
/// gives the same name, and a box whose size less its header is
/// `content_size`; the 16-byte form is chosen exactly where
/// `content_size + 8` does not fit in 32 bits.
pub proof fn law_header_round_trip(name: BoxName, content_size: u64, tail: Seq<u8>)
    requires
        content_size + 16 <= u64::MAX,
    ensures
        ({
            let total = total_with_header(content_size as nat) as u64;
            let h = header_result(header_bytes(name, total) + tail);
            &&& h is Ok
            &&& h->Ok_0.0 == name
            &&& h->Ok_0.1 - h->Ok_0.2 == content_size
            &&& (h->Ok_0.2 == 16) == (content_size + 8 > u32::MAX)
            &&& header_bytes(name, total).len() == h->Ok_0.2
        }),
{
    let total = total_with_header(content_size as nat) as u64;
    let s = header_bytes(name, total) + tail;
    lemma_pow256_values();
    lemma_be_round_trip(name as nat, 4);
    lemma_be_round_trip(1, 4);
    if total > u32::MAX {
        lemma_be_round_trip(total as nat, 8);
        assert(s.subrange(0, 4) =~= be_bytes(1, 4));
        assert(s.subrange(4, 8) =~= be_bytes(name as nat, 4));
        assert(s.subrange(8, 16) =~= be_bytes(total as nat, 8));
    } else {
        lemma_be_round_trip(total as nat, 4);
        assert(s.subrange(0, 4) =~= be_bytes(total as nat, 4));
        assert(s.subrange(4, 8) =~= be_bytes(name as nat, 4));
    }
}

/// A full box header named `name` can be read at `pos`: the box header
/// parses with that name and the extension's 4 bytes follow it.
pub open spec fn full_header_ok(data: Seq<u8>, pos: int, name: BoxName) -> bool {
    let h = header_result(rest(data, pos));
    &&& h is Ok
    &&& h->Ok_0.0 == name
    &&& pos + h->Ok_0.2 + 4 <= data.len()
}

/// The version of the full box at `pos`.
pub open spec fn full_version(data: Seq<u8>, pos: int) -> nat {
    be_at(data, pos + header_result(rest(data, pos))->Ok_0.2, 1)
}

/// A versioned full box named `name` can be read at `pos`: its header
/// parses, its version is 0 or 1, and its `v0` or `v1` bytes of contents
/// are there.
pub open spec fn versioned_ok(data: Seq<u8>, pos: int, name: BoxName, v0: nat, v1: nat) -> bool {
    &&& full_header_ok(data, pos, name)
    &&& full_version(data, pos) <= 1
    &&& full_content_start(data, pos) + (if full_version(data, pos) == 0 {
        v0
    } else {
        v1
    }) <= data.len()
}

/// Where the contents of the full box at `pos` start.
pub open spec fn full_content_start(data: Seq<u8>, pos: int) -> int {
    pos + header_result(rest(data, pos))->Ok_0.2 + 4
}

/// The encoded version/flags extension of a full box.
pub open spec fn extension_bytes(version: u8, flags: u32) -> Seq<u8> {
    be_bytes(version as nat, 1) + be_bytes(flags as nat, 3)
}

/// A full box header: the box header with a version and 24-bit flags.
#[derive(Debug, Clone, Copy)]
pub struct FullBox {
    pub boks: Boks,
    pub version: u8,
    pub flags: u32,
    pub read_size: u8,
}

impl FullBox {
    pub fn new(name: BoxName, version: u8, flags: u32) -> (r: Self)
        ensures
            r.boks.name == name,
            r.version == version,
            r.flags == flags,
    {
        FullBox { boks: Boks::new(name), version, flags, read_size: 0 }
    }

    /// Emits the header of a full box whose total size is `size`, then the extension.
    pub fn write(&self, out: &mut Vec<u8>, size: u64)
        ensures
            final(out)@ == old(out)@ + header_bytes(self.boks.name, size) + extension_bytes(
                self.version,
                self.flags,
            ),
    {
        self.boks.write(out, size);
        write_box_flags(out, self.version, self.flags);
        assert(final(out)@ =~= old(out)@ + header_bytes(self.boks.name, size) + extension_bytes(
            self.version,
            self.flags,
        ));
    }

    /// Decodes a full box header named `expected` at `*pos`, and moves past it.
    pub fn read_named(data: &[u8], pos: &mut usize, expected: BoxName) -> (r: Result<
        Self,
        Mp4BoxError,
    >)
        requires
            *old(pos) <= data@.len(),
        ensures
            r is Ok <==> full_header_ok(data@, *old(pos) as int, expected),
            header_result(rest(data@, *old(pos) as int)) is Ok && header_result(
                rest(data@, *old(pos) as int),
            )->Ok_0.0 != expected ==> r is Err && r->Err_0 == Mp4BoxError::UnexpectedName(
                BoxPrint(expected),
                BoxPrint(header_result(rest(data@, *old(pos) as int))->Ok_0.0),
            ),
            r is Ok ==> {
                let f = r->Ok_0;
                &&& header_result(rest(data@, *old(pos) as int)) == Ok::<_, Mp4BoxError>(
                    (f.boks.name, f.boks.size, f.boks.read_size),
                )
                &&& f.boks.name == expected
                &&& f.read_size == f.boks.read_size + 4
                &&& *old(pos) + f.read_size <= data@.len()
                &&& *final(pos) == *old(pos) + f.read_size
                &&& f.version as nat == be_at(data@, *old(pos) + f.boks.read_size, 1)
                &&& f.flags as nat == be_at(data@, *old(pos) + f.boks.read_size + 1, 3)
            },
    {
        let boks = Boks::read_named(data, pos, expected)?;
        let (version, flags) = read_box_flags(data, pos)?;
        Ok(FullBox { boks, version, flags, read_size: boks.read_size + 4 })
    }

    /// Decodes a full box header at `*pos`, whatever its name, and moves past it.
    pub fn read(data: &[u8], pos: &mut usize) -> (r: Result<Self, Mp4BoxError>)
        requires
            *old(pos) <= data@.len(),
        ensures
            r is Ok ==> {
                let f = r->Ok_0;
                &&& header_result(rest(data@, *old(pos) as int)) == Ok::<_, Mp4BoxError>(
                    (f.boks.name, f.boks.size, f.boks.read_size),
                )
                &&& f.read_size == f.boks.read_size + 4
                &&& *old(pos) + f.read_size <= data@.len()
                &&& *final(pos) == *old(pos) + f.read_size
                &&& f.version as nat == be_at(data@, *old(pos) + f.boks.read_size, 1)
                &&& f.flags as nat == be_at(data@, *old(pos) + f.boks.read_size + 1, 3)
            },
    {
        let boks = Boks::read(data, pos)?;
        let (version, flags) = read_box_flags(data, pos)?;
        Ok(FullBox { boks, version, flags, read_size: boks.read_size + 4 })
    }

    /// The total size of a full box whose contents after the extension are `size` bytes long.
    pub fn size(&self, size: u64) -> (r: u64)
        requires
            total_with_header((size + 4) as nat) <= u64::MAX,
        ensures
            r == total_with_header((size + 4) as nat),
    {
        self.boks.size(size + 4)
    }

    /// The number of bytes of the box after its header and extension.
    pub fn remaining_size(&self) -> (r: u64)
        requires
            self.boks.size >= self.read_size,
        ensures
            r == self.boks.size - self.read_size,
    {
        self.boks.size - self.read_size as u64
    }
}

/// Emits the version/flags extension of a full box.
pub fn write_box_flags(out: &mut Vec<u8>, version: u8, flags: u32)
    ensures
        final(out)@ == old(out)@ + extension_bytes(version, flags),
{
    push_u8(out, version);
    push_u24(out, flags);
    assert(final(out)@ =~= old(out)@ + extension_bytes(version, flags));
}

/// Reads the version/flags extension at `*pos` and moves past it.
pub fn read_box_flags(data: &[u8], pos: &mut usize) -> (r: Result<(u8, u32), Mp4BoxError>)
    ensures
        match r {
            Ok((version, flags)) => {
                &&& *old(pos) + 4 <= data@.len()
                &&& *final(pos) == *old(pos) + 4
                &&& version as nat == be_at(data@, *old(pos) as int, 1)
                &&& flags as nat == be_at(data@, *old(pos) + 1, 3)
                &&& flags < 0x100_0000
            },
            Err(e) => *old(pos) + 4 > data@.len() && e == Mp4BoxError::UnexpectedEos,
        },
{
    if data.len() < 4 || *pos > data.len() - 4 {
        return Err(Mp4BoxError::UnexpectedEos);
    }
    let flags_pos = *pos + 1;
    let version = read_u8(data, pos)?;
    let flags = read_u24(data, pos)?;
    proof {
        lemma_be_value_bound(data@.subrange(flags_pos as int, flags_pos + 3));
        lemma_pow256_values();
    }
    Ok((version, flags))
}

/// Reads the box header at `*pos` and moves past it: its name, its total
/// size, and the size of its contents.
pub fn read_box_header(data: &[u8], pos: &mut usize) -> (r: Result<
    (BoxName, u64, u64),
    Mp4BoxError,
>)
    requires
        *old(pos) <= data@.len(),
    ensures
        match r {
            Ok((name, size, content)) => {
                &&& header_result(rest(data@, *old(pos) as int)) is Ok
                &&& header_result(rest(data@, *old(pos) as int))->Ok_0.0 == name
                &&& header_result(rest(data@, *old(pos) as int))->Ok_0.1 == size
                &&& content == size - header_result(rest(data@, *old(pos) as int))->Ok_0.2
                &&& *final(pos) == *old(pos) + header_result(rest(data@, *old(pos) as int))->Ok_0.2
            },
            Err(e) => header_result(rest(data@, *old(pos) as int)) == Err::<(BoxName, u64, u8), _>(
                e,
            ),
        },
{
    let b = Boks::read(data, pos)?;
    Ok((b.name, b.size, b.size - b.read_size as u64))
}

/// Emits a header for a box named `name` whose contents are `content_size`
/// bytes long.
pub fn write_header(out: &mut Vec<u8>, name: BoxName, content_size: u64)
    requires
        total_with_header(content_size as nat) <= u64::MAX,
    ensures
        final(out)@ == old(out)@ + header_bytes(
            name,
            total_with_header(content_size as nat) as u64,
        ),
{
    let b = Boks::new(name);
    let total = b.size(content_size);
    b.write(out, total);
}

/// `Ok` of the value, or `RequiredBoxNotFound` naming `name`.
pub fn require_box<T>(val: Option<T>, name: BoxName) -> (r: Result<T, Mp4BoxError>)
    ensures
        match val {
            Some(v) => r == Ok::<T, Mp4BoxError>(v),
            None => r == Err::<T, _>(Mp4BoxError::RequiredBoxNotFound(BoxPrint(name))),
        },
{
    match val {
        Some(v) => Ok(v),
        None => Err(Mp4BoxError::RequiredBoxNotFound(BoxPrint(name))),
    }
}

/// `Ok` of the value, or `RequiredEitherBoxesNotFound` naming `a` and `b`.
pub fn require_either_box<T>(val: Option<T>, a: BoxName, b: BoxName) -> (r: Result<
    T,
    Mp4BoxError,
>)
    ensures
        match val {
            Some(v) => r == Ok::<T, Mp4BoxError>(v),
            None => r == Err::<T, _>(
                Mp4BoxError::RequiredEitherBoxesNotFound(BoxPrint(a), BoxPrint(b)),
            ),
        },
{
    match val {
        Some(v) => Ok(v),
        None => Err(Mp4BoxError::RequiredEitherBoxesNotFound(BoxPrint(a), BoxPrint(b))),
    }
}

/// The boxes, if there is at least one; else `NotEnoughBoxes` naming `name`.
pub fn non_empty<T>(boxes: Vec<T>, name: BoxName) -> (r: Result<Vec<T>, Mp4BoxError>)
    ensures
        boxes@.len() > 0 ==> r is Ok && r->Ok_0@ == boxes@,
        boxes@.len() == 0 ==> r == Err::<Vec<T>, _>(
            Mp4BoxError::NotEnoughBoxes(BoxPrint(name), 1, 0),
        ),
{
    if boxes.len() > 0 {
        Ok(boxes)
    } else {
        Err(Mp4BoxError::NotEnoughBoxes(BoxPrint(name), 1, 0))
    }
}

/// A full box named `name` with the given version, flags and contents.
pub open spec fn full_box_bytes(name: BoxName, version: u8, flags: u32, content: Seq<u8>) -> Seq<
    u8,
> {
    header_bytes(name, total_with_header(content.len() + 4) as u64) + extension_bytes(
        version,
        flags,
    ) + content
}

/// A box named `name` with the given contents.
pub open spec fn plain_box_bytes(name: BoxName, content: Seq<u8>) -> Seq<u8> {
    header_bytes(name, total_with_header(content.len()) as u64) + content
}

pub proof fn lemma_header_len(name: BoxName, size: u64)
    ensures
        header_bytes(name, size).len() == if size > u32::MAX {
            16nat
        } else {
            8nat
        },
{
    lemma_be_bytes_len(1, 4);
    lemma_be_bytes_len(name as nat, 4);
    lemma_be_bytes_len(size as nat, 4);
    lemma_be_bytes_len(size as nat, 8);
}

pub proof fn lemma_full_box_len(name: BoxName, version: u8, flags: u32, content: Seq<u8>)
    requires
        total_with_header(content.len() + 4) <= u64::MAX,
    ensures
        full_box_bytes(name, version, flags, content).len() == total_with_header(
            content.len() + 4,
        ),
{
    lemma_header_len(name, total_with_header(content.len() + 4) as u64);
    lemma_be_bytes_len(version as nat, 1);
    lemma_be_bytes_len(flags as nat, 3);
}

pub proof fn lemma_plain_box_len(name: BoxName, content: Seq<u8>)
    requires
        total_with_header(content.len()) <= u64::MAX,
    ensures
        plain_box_bytes(name, content).len() == total_with_header(content.len()),
{
    lemma_header_len(name, total_with_header(content.len()) as u64);
}

/// Emits the header and extension of a full box whose contents after the
/// extension are `content_size` bytes long.
pub fn write_full_header(out: &mut Vec<u8>, name: BoxName, version: u8, flags: u32, content_size: u64)
    requires
        total_with_header((content_size + 4) as nat) <= u64::MAX,
    ensures
        final(out)@ == old(out)@ + header_bytes(name, total_with_header((content_size + 4) as nat) as u64)
            + extension_bytes(version, flags),
{
    let f = FullBox::new(name, version, flags);
    let total = f.size(content_size);
    f.write(out, total);
}

/// A 16.16 fixed-point number, as its raw 32 bits.
#[derive(Debug, Clone, Copy, PartialEq, Eq, Structural)]
pub struct I16F16(pub u32);

impl I16F16 {
    /// The fixed-point value of a whole number.
    pub fn from_int(v: u16) -> (r: Self)
        ensures
            r.0 == v as nat * 0x1_0000,
    {
        I16F16(v as u32 * 0x1_0000)
    }

    pub fn raw(&self) -> (r: u32)
        ensures
            r == self.0,
    {
        self.0
    }
}

/// Walks the children of a box: `size` bytes of them from `start` on.
pub struct BoksIterator {
    pub size: u64,
    pub start: u64,
}

impl BoksIterator {
    pub fn new(start: usize, size: u64) -> (r: Self)
        ensures
            r.start == start,
            r.size == size,
    {
        BoksIterator { size, start: start as u64 }
    }

    /// The position and header of the child at `pos`; `None` once the
    /// children's bytes are used up, or where no header can be read there.
    pub fn next(&self, data: &[u8], pos: usize) -> (r: Option<(usize, Boks)>)
        requires
            pos <= data@.len(),
            self.start <= pos,
        ensures
            pos - self.start >= self.size ==> r is None,
            r is Some ==> {
                &&& r->Some_0.0 == pos
                &&& header_result(rest(data@, pos as int)) == Ok::<_, Mp4BoxError>(
                    (r->Some_0.1.name, r->Some_0.1.size, r->Some_0.1.read_size),
                )
            },
            pos - self.start < self.size && header_result(rest(data@, pos as int)) is Ok ==> r is Some,
    {
        if pos as u64 - self.start >= self.size {
            return None;
        }
        match Boks::peek(data, pos) {
            Ok(b) => Some((pos, b)),
            Err(_) => None,
        }
    }
}

/// A child box: its name, where it starts and where it ends.
pub type Child = (BoxName, int, int);

/// The child boxes that fill `[q, end)` of `d`, in order, each read from the
/// bytes up to `end`; `None` where a header cannot be read there or a child
/// runs past `end`.
pub open spec fn children(d: Seq<u8>, q: int, end: int) -> Option<Seq<Child>>
    decreases end - q,
{
    if q >= end {
        Some(Seq::empty())
    } else {
        match header_result(rest(d.subrange(0, end), q)) {
            Err(_) => None,
            Ok(h) => if h.1 > end - q {
                None
            } else {
                match children(d, q + h.1, end) {
                    None => None,
                    Some(t) => Some(seq![(h.0, q, q + h.1)] + t),
                }
            },
        }
    }
}

/// `done` followed by what `o` holds, where it holds something.
pub open spec fn after(done: Seq<Child>, o: Option<Seq<Child>>) -> Option<Seq<Child>> {
    match o {
        None => None,
        Some(t) => Some(done + t),
    }
}

/// One step of a walk over children: the child at `q` moves from the rest
/// to what is done.
pub proof fn lemma_children_step(d: Seq<u8>, q: int, end: int, done: Seq<Child>)
    requires
        q < end,
        header_result(rest(d.subrange(0, end), q)) is Ok,
        header_result(rest(d.subrange(0, end), q))->Ok_0.1 <= end - q,
    ensures
        ({
            let h = header_result(rest(d.subrange(0, end), q))->Ok_0;
            after(done, children(d, q, end)) == after(
                done.push((h.0, q, q + h.1)),
                children(d, q + h.1, end),
            )
        }),
{
    let h = header_result(rest(d.subrange(0, end), q))->Ok_0;
    match children(d, q + h.1, end) {
        None => {},
        Some(t) => {
            assert(done + (seq![(h.0, q, q + h.1)] + t) =~= done.push((h.0, q, q + h.1)) + t);
        },
    }
}

/// Reading a header from a shorter prefix that still holds the whole box
/// gives the same header.
pub proof fn lemma_header_prefix(d: Seq<u8>, q: int, ce: int, end: int)
    requires
        0 <= q < ce <= end <= d.len(),
        header_result(rest(d.subrange(0, end), q)) is Ok,
        header_result(rest(d.subrange(0, end), q))->Ok_0.1 == ce - q,
    ensures
        header_result(rest(d.subrange(0, ce), q)) == header_result(rest(d.subrange(0, end), q)),
{
    let a = rest(d.subrange(0, end), q);
    let b = rest(d.subrange(0, ce), q);
    assert(a.subrange(0, 4) =~= b.subrange(0, 4));
    assert(a.subrange(4, 8) =~= b.subrange(4, 8));
    if be_at(a, 0, 4) == 1 {
        assert(a.subrange(8, 16) =~= b.subrange(8, 16));
    }
}

/// The index of the last child named `name`, or -1.
pub open spec fn last_named(cs: Seq<Child>, name: BoxName) -> int
    decreases cs.len(),
{
    if cs.len() == 0 {
        -1
    } else if cs.last().0 == name {
        cs.len() - 1
    } else {
        last_named(cs.drop_last(), name)
    }
}

pub proof fn lemma_last_named_bound(cs: Seq<Child>, name: BoxName)
    ensures
        -1 <= last_named(cs, name) < cs.len(),
        last_named(cs, name) >= 0 ==> cs[last_named(cs, name)].0 == name,
    decreases cs.len(),
{
    if cs.len() > 0 {
        lemma_last_named_bound(cs.drop_last(), name);
    }
}

pub proof fn lemma_last_named_push(cs: Seq<Child>, c: Child, name: BoxName)
    ensures
        last_named(cs.push(c), name) == if c.0 == name {
            cs.len() as int
        } else {
            last_named(cs, name)
        },
        -1 <= last_named(cs, name) < cs.len(),
    decreases cs.len(),
{
    assert(cs.push(c).drop_last() =~= cs);
    if cs.len() > 0 {
        lemma_last_named_push(cs.drop_last(), cs.last(), name);
        assert(cs.drop_last().push(cs.last()) =~= cs);
    }
}

/// The bytes of `d` up to the end of child `ch`.
pub open spec fn child_data(d: Seq<u8>, ch: Child) -> Seq<u8> {
    d.subrange(0, ch.2)
}

/// The box header at `q` names `name` and the box lies within `d`.
pub open spec fn frame_ok(d: Seq<u8>, q: int, name: BoxName) -> bool {
    let h = header_result(rest(d, q));
    &&& h is Ok
    &&& h->Ok_0.0 == name
    &&& q + h->Ok_0.1 <= d.len()
}

/// The children of the box at `q`.
pub open spec fn box_children(d: Seq<u8>, q: int) -> Option<Seq<Child>> {
    let h = header_result(rest(d, q))->Ok_0;
    children(d, q + h.2, q + h.1)
}

} // verus!
