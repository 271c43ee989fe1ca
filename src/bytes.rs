//! Big-endian integers in byte sequences: their meaning, and the verified
//! routines that read and emit them.
use vstd::prelude::*;

use crate::error::Mp4BoxError;

verus! {

/// The value of a big-endian byte sequence.
pub open spec fn be_value(s: Seq<u8>) -> nat
    decreases s.len(),
{
    if s.len() == 0 {
        0
    } else {
        be_value(s.drop_last()) * 256 + s.last() as nat
    }
}

/// The `n` low-order bytes of `v`, most significant first.
pub open spec fn be_bytes(v: nat, n: nat) -> Seq<u8>
    decreases n,
{
    if n == 0 {
        Seq::empty()
    } else {
        be_bytes(v / 256, (n - 1) as nat).push((v % 256) as u8)
    }
}

pub open spec fn pow256(n: nat) -> nat
    decreases n,
{
    if n == 0 {
        1
    } else {
        256 * pow256((n - 1) as nat)
    }
}

/// The big-endian value of the `n` bytes of `s` that start at `p`.
pub open spec fn be_at(s: Seq<u8>, p: int, n: int) -> nat {
    be_value(s.subrange(p, p + n))
}

pub proof fn lemma_pow256_values()
    ensures
        pow256(1) == 0x100,
        pow256(2) == 0x1_0000,
        pow256(3) == 0x100_0000,
        pow256(4) == 0x1_0000_0000,
        pow256(8) == 0x1_0000_0000_0000_0000,
{
    reveal_with_fuel(pow256, 9);
}

pub proof fn lemma_pow256_mono(a: nat, b: nat)
    requires
        a <= b,
    ensures
        pow256(a) <= pow256(b),
    decreases b,
{
    if a < b {
        lemma_pow256_mono(a, (b - 1) as nat);
    }
}

pub broadcast proof fn lemma_be_bytes_len(v: nat, n: nat)
    ensures
        #[trigger] be_bytes(v, n).len() == n,
    decreases n,
{
    if n > 0 {
        lemma_be_bytes_len(v / 256, (n - 1) as nat);
    }
}

pub proof fn lemma_be_value_bound(s: Seq<u8>)
    ensures
        be_value(s) < pow256(s.len()),
    decreases s.len(),
{
    if s.len() > 0 {
        lemma_be_value_bound(s.drop_last());
        let a = be_value(s.drop_last());
        let p = pow256((s.len() - 1) as nat);
        assert(a * 256 + (s.last() as nat) < 256 * p) by (nonlinear_arith)
            requires
                a < p,
                s.last() < 256,
        ;
    }
}

/// Emitting `n` bytes of a value below `256^n` and reading them back gives the value.
pub proof fn lemma_be_round_trip(v: nat, n: nat)
    requires
        v < pow256(n),
    ensures
        be_value(be_bytes(v, n)) == v,
        be_bytes(v, n).len() == n,
    decreases n,
{
    lemma_be_bytes_len(v, n);
    if n > 0 {
        let q = v / 256;
        let m = (n - 1) as nat;
        let p = pow256(m);
        assert(q < p) by (nonlinear_arith)
            requires
                v < 256 * p,
                q == v / 256,
        ;
        lemma_be_round_trip(q, m);
        assert(be_bytes(v, n).drop_last() =~= be_bytes(q, m));
        assert(q * 256 + v % 256 == v) by (nonlinear_arith)
            requires
                q == v / 256,
        ;
    }
}

/// Appends the `n` low-order bytes of `v` to `out`, most significant first.
pub fn push_be(out: &mut Vec<u8>, v: u64, n: usize)
    requires
        n <= 8,
    ensures
        final(out)@ == old(out)@ + be_bytes(v as nat, n as nat),
    decreases n,
{
    if n > 0 {
        push_be(out, v / 256, n - 1);
        out.push((v % 256) as u8);
        proof {
            assert((v / 256) as nat == (v as nat) / 256);
            assert(final(out)@ =~= old(out)@ + be_bytes(v as nat, n as nat));
        }
    }
}

pub fn push_u8(out: &mut Vec<u8>, v: u8)
    ensures
        final(out)@ == old(out)@ + be_bytes(v as nat, 1),
{
    push_be(out, v as u64, 1);
}

pub fn push_u16(out: &mut Vec<u8>, v: u16)
    ensures
        final(out)@ == old(out)@ + be_bytes(v as nat, 2),
{
    push_be(out, v as u64, 2);
}

pub fn push_u24(out: &mut Vec<u8>, v: u32)
    ensures
        final(out)@ == old(out)@ + be_bytes(v as nat, 3),
{
    push_be(out, v as u64, 3);
}

pub fn push_u32(out: &mut Vec<u8>, v: u32)
    ensures
        final(out)@ == old(out)@ + be_bytes(v as nat, 4),
{
    push_be(out, v as u64, 4);
}

pub fn push_u64(out: &mut Vec<u8>, v: u64)
    ensures
        final(out)@ == old(out)@ + be_bytes(v as nat, 8),
{
    push_be(out, v, 8);
}

/// Appends `n` zero bytes.
pub fn push_zeros(out: &mut Vec<u8>, n: usize)
    ensures
        final(out)@ == old(out)@ + Seq::new(n as nat, |i: int| 0u8),
{
    let mut i: usize = 0;
    while i < n
        invariant
            i <= n,
            out@ == old(out)@ + Seq::new(i as nat, |k: int| 0u8),
        decreases n - i,
    {
        out.push(0u8);
        i = i + 1;
        assert(out@ =~= old(out)@ + Seq::new(i as nat, |k: int| 0u8));
    }
}

/// Appends all of `bytes`.
pub fn push_bytes(out: &mut Vec<u8>, bytes: &[u8])
    ensures
        final(out)@ == old(out)@ + bytes@,
{
    let mut i: usize = 0;
    while i < bytes.len()
        invariant
            i <= bytes@.len(),
            out@ == old(out)@ + bytes@.subrange(0, i as int),
        decreases bytes@.len() - i,
    {
        out.push(bytes[i]);
        i = i + 1;
        assert(out@ =~= old(out)@ + bytes@.subrange(0, i as int));
    }
    assert(bytes@.subrange(0, bytes@.len() as int) =~= bytes@);
}

/// Reads the big-endian value of the `n` bytes at `*pos` and moves past them;
/// fails, leaving `*pos` alone, where fewer than `n` bytes remain.
pub fn read_be(data: &[u8], pos: &mut usize, n: usize) -> (r: Result<u64, Mp4BoxError>)
    requires
        n <= 8,
    ensures
        match r {
            Ok(v) => {
                &&& *old(pos) + n <= data@.len()
                &&& *final(pos) == *old(pos) + n
                &&& v as nat == be_at(data@, *old(pos) as int, n as int)
            },
            Err(e) => {
                &&& *old(pos) + n > data@.len()
                &&& *final(pos) == *old(pos)
                &&& e == Mp4BoxError::UnexpectedEos
            },
        },
{
    if n > data.len() || *pos > data.len() - n {
        return Err(Mp4BoxError::UnexpectedEos);
    }
    let start = *pos;
    let len = data.len();
    let ghost s = data@.subrange(start as int, start + n);
    let mut v: u64 = 0;
    let mut i: usize = 0;
    while i < n
        invariant
            i <= n,
            n <= 8,
            len == data@.len(),
            start + n <= data@.len(),
            s == data@.subrange(start as int, start + n),
            v as nat == be_value(s.subrange(0, i as int)),
        decreases n - i,
    {
        proof {
            lemma_be_value_bound(s.subrange(0, i as int));
            lemma_pow256_mono(i as nat, 7);
            lemma_pow256_values();
            reveal_with_fuel(pow256, 8);
            assert(s.subrange(0, i + 1).drop_last() =~= s.subrange(0, i as int));
        }
        let b = data[start + i];
        assert(v * 256 + b < 0x1_0000_0000_0000_0000) by (nonlinear_arith)
            requires
                v < pow256(7),
                pow256(7) == 0x100_0000_0000_0000,
                b < 256,
        ;
        v = v * 256 + b as u64;
        i = i + 1;
    }
    assert(s.subrange(0, n as int) =~= s);
    *pos = start + n;
    Ok(v)
}

pub fn read_u8(data: &[u8], pos: &mut usize) -> (r: Result<u8, Mp4BoxError>)
    ensures
        match r {
            Ok(v) => {
                &&& *old(pos) + 1 <= data@.len()
                &&& *final(pos) == *old(pos) + 1
                &&& v as nat == be_at(data@, *old(pos) as int, 1)
            },
            Err(e) => *old(pos) + 1 > data@.len() && *final(pos) == *old(pos) && e
                == Mp4BoxError::UnexpectedEos,
        },
{
    let v = read_be(data, pos, 1)?;
    proof {
        lemma_be_value_bound(data@.subrange(*old(pos) as int, *old(pos) + 1));
        lemma_pow256_values();
    }
    Ok(v as u8)
}

pub fn read_u16(data: &[u8], pos: &mut usize) -> (r: Result<u16, Mp4BoxError>)
    ensures
        match r {
            Ok(v) => {
                &&& *old(pos) + 2 <= data@.len()
                &&& *final(pos) == *old(pos) + 2
                &&& v as nat == be_at(data@, *old(pos) as int, 2)
            },
            Err(e) => *old(pos) + 2 > data@.len() && *final(pos) == *old(pos) && e
                == Mp4BoxError::UnexpectedEos,
        },
{
    let v = read_be(data, pos, 2)?;
    proof {
        lemma_be_value_bound(data@.subrange(*old(pos) as int, *old(pos) + 2));
        lemma_pow256_values();
    }
    Ok(v as u16)
}

pub fn read_u24(data: &[u8], pos: &mut usize) -> (r: Result<u32, Mp4BoxError>)
    ensures
        match r {
            Ok(v) => {
                &&& *old(pos) + 3 <= data@.len()
                &&& *final(pos) == *old(pos) + 3
                &&& v as nat == be_at(data@, *old(pos) as int, 3)
            },
            Err(e) => *old(pos) + 3 > data@.len() && *final(pos) == *old(pos) && e
                == Mp4BoxError::UnexpectedEos,
        },
{
    let v = read_be(data, pos, 3)?;
    proof {
        lemma_be_value_bound(data@.subrange(*old(pos) as int, *old(pos) + 3));
        lemma_pow256_values();
    }
    Ok(v as u32)
}

pub fn read_u32(data: &[u8], pos: &mut usize) -> (r: Result<u32, Mp4BoxError>)
    ensures
        match r {
            Ok(v) => {
                &&& *old(pos) + 4 <= data@.len()
                &&& *final(pos) == *old(pos) + 4
                &&& v as nat == be_at(data@, *old(pos) as int, 4)
            },
            Err(e) => *old(pos) + 4 > data@.len() && *final(pos) == *old(pos) && e
                == Mp4BoxError::UnexpectedEos,
        },
{
    let v = read_be(data, pos, 4)?;
    proof {
        lemma_be_value_bound(data@.subrange(*old(pos) as int, *old(pos) + 4));
        lemma_pow256_values();
    }
    Ok(v as u32)
}

pub fn read_u64(data: &[u8], pos: &mut usize) -> (r: Result<u64, Mp4BoxError>)
    ensures
        match r {
            Ok(v) => {
                &&& *old(pos) + 8 <= data@.len()
                &&& *final(pos) == *old(pos) + 8
                &&& v as nat == be_at(data@, *old(pos) as int, 8)
            },
            Err(e) => *old(pos) + 8 > data@.len() && *final(pos) == *old(pos) && e
                == Mp4BoxError::UnexpectedEos,
        },
{
    read_be(data, pos, 8)
}

/// Copies the `n` bytes at `*pos` and moves past them.
pub fn read_bytes(data: &[u8], pos: &mut usize, n: usize) -> (r: Result<Vec<u8>, Mp4BoxError>)
    ensures
        match r {
            Ok(v) => {
                &&& *old(pos) + n <= data@.len()
                &&& *final(pos) == *old(pos) + n
                &&& v@ == data@.subrange(*old(pos) as int, *old(pos) + n)
            },
            Err(e) => *old(pos) + n > data@.len() && *final(pos) == *old(pos) && e
                == Mp4BoxError::UnexpectedEos,
        },
{
    if n > data.len() || *pos > data.len() - n {
        return Err(Mp4BoxError::UnexpectedEos);
    }
    let start = *pos;
    let len = data.len();
    let mut v: Vec<u8> = Vec::new();
    let mut i: usize = 0;
    while i < n
        invariant
            i <= n,
            len == data@.len(),
            start + n <= data@.len(),
            v@ == data@.subrange(start as int, start + i),
        decreases n - i,
    {
        v.push(data[start + i]);
        i = i + 1;
        assert(v@ =~= data@.subrange(start as int, start + i));
    }
    *pos = start + n;
    Ok(v)
}

/// The bytes of the items of `s`, each encoded by `f`, one after the other.
pub open spec fn concat_map<T>(s: Seq<T>, f: spec_fn(T) -> Seq<u8>) -> Seq<u8>
    decreases s.len(),
{
    if s.len() == 0 {
        Seq::empty()
    } else {
        concat_map(s.drop_last(), f) + f(s.last())
    }
}

pub proof fn lemma_concat_map_push<T>(s: Seq<T>, x: T, f: spec_fn(T) -> Seq<u8>)
    ensures
        concat_map(s.push(x), f) == concat_map(s, f) + f(x),
{
    assert(s.push(x).drop_last() =~= s);
}

/// Where every item encodes to `k` bytes, the whole takes `k` bytes per item.
pub proof fn lemma_concat_map_len<T>(s: Seq<T>, f: spec_fn(T) -> Seq<u8>, k: nat)
    requires
        forall|x: T| #[trigger] f(x).len() == k,
    ensures
        concat_map(s, f).len() == k * s.len(),
    decreases s.len(),
{
    if s.len() > 0 {
        lemma_concat_map_len(s.drop_last(), f, k);
        assert(k * (s.len() - 1) + k == k * s.len()) by (nonlinear_arith);
    }
}

/// One byte is its own encoding; zero takes zero bytes.
pub proof fn lemma_be_bytes_small(v: u8)
    ensures
        be_bytes(v as nat, 1) == seq![v],
        be_bytes(0, 2) == seq![0u8, 0u8],
        be_value(seq![v]) == v,
{
    reveal_with_fuel(be_bytes, 3);
    assert(be_bytes(v as nat, 1) =~= seq![v]);
    assert(be_bytes(0, 2) =~= seq![0u8, 0u8]);
    assert(seq![v].drop_last() =~= Seq::<u8>::empty());
    assert(be_value(Seq::<u8>::empty()) == 0);
    assert(be_value(seq![v]) == be_value(seq![v].drop_last()) * 256 + seq![v].last() as nat);
}

/// `n` zero bytes.
pub open spec fn zeros(n: nat) -> Seq<u8> {
    Seq::new(n, |i: int| 0u8)
}

/// The encoding of a 32-bit value.
pub open spec fn u32_bytes(v: u32) -> Seq<u8> {
    be_bytes(v as nat, 4)
}

/// The encoding of a 64-bit value.
pub open spec fn u64_bytes(v: u64) -> Seq<u8> {
    be_bytes(v as nat, 8)
}

/// A byte sequence is the encoding of its own big-endian value.
pub proof fn lemma_be_bytes_of_value(s: Seq<u8>)
    ensures
        be_bytes(be_value(s), s.len()) == s,
    decreases s.len(),
{
    if s.len() > 0 {
        let t = s.drop_last();
        lemma_be_bytes_of_value(t);
        let v = be_value(s);
        assert(v / 256 == be_value(t) && v % 256 == s.last() as nat) by (nonlinear_arith)
            requires
                v == be_value(t) * 256 + s.last() as nat,
                s.last() < 256,
        ;
        assert(be_bytes(v, s.len()) =~= s);
    }
}

/// Reads `count` 32-bit values at `*pos` and moves past them.
pub fn read_u32_list(data: &[u8], pos: &mut usize, count: u32) -> (r: Result<
    Vec<u32>,
    Mp4BoxError,
>)
    ensures
        r is Ok ==> {
            &&& r->Ok_0@.len() == count
            &&& *old(pos) <= *final(pos) <= data@.len()
            &&& data@.subrange(*old(pos) as int, *final(pos) as int) == concat_map(
                r->Ok_0@,
                |v: u32| u32_bytes(v),
            )
        },
        r is Ok <==> *old(pos) + 4 * count <= data@.len(),
        r is Err ==> r->Err_0 == Mp4BoxError::UnexpectedEos,
{
    let start = *pos;
    let mut v: Vec<u32> = Vec::new();
    let mut i: u32 = 0;
    if start > data.len() {
        return Err(Mp4BoxError::UnexpectedEos);
    }
    while i < count
        invariant
            i <= count,
            v@.len() == i,
            start <= *pos <= data@.len(),
            *pos == start + 4 * i,
            start == *old(pos),
            data@.subrange(start as int, *pos as int) == concat_map(v@, |v: u32| u32_bytes(v)),
        decreases count - i,
    {
        let p = *pos;
        assert(4 * (i + 1) <= 4 * count) by (nonlinear_arith)
            requires
                i < count,
        ;
        let x = read_u32(data, pos)?;
        proof {
            let w = data@.subrange(p as int, p + 4);
            lemma_be_bytes_of_value(w);
            lemma_concat_map_push(v@, x, |v: u32| u32_bytes(v));
            assert(data@.subrange(start as int, p + 4) =~= data@.subrange(start as int, p as int)
                + w);
        }
        v.push(x);
        i = i + 1;
    }
    Ok(v)
}

/// Reads `count` 64-bit values at `*pos` and moves past them.
pub fn read_u64_list(data: &[u8], pos: &mut usize, count: u32) -> (r: Result<
    Vec<u64>,
    Mp4BoxError,
>)
    ensures
        r is Ok ==> {
            &&& r->Ok_0@.len() == count
            &&& *old(pos) <= *final(pos) <= data@.len()
            &&& data@.subrange(*old(pos) as int, *final(pos) as int) == concat_map(
                r->Ok_0@,
                |v: u64| u64_bytes(v),
            )
        },
        r is Ok <==> *old(pos) + 8 * count <= data@.len(),
        r is Err ==> r->Err_0 == Mp4BoxError::UnexpectedEos,
{
    let start = *pos;
    let mut v: Vec<u64> = Vec::new();
    let mut i: u32 = 0;
    if start > data.len() {
        return Err(Mp4BoxError::UnexpectedEos);
    }
    while i < count
        invariant
            i <= count,
            v@.len() == i,
            start <= *pos <= data@.len(),
            *pos == start + 8 * i,
            start == *old(pos),
            data@.subrange(start as int, *pos as int) == concat_map(v@, |v: u64| u64_bytes(v)),
        decreases count - i,
    {
        let p = *pos;
        assert(8 * (i + 1) <= 8 * count) by (nonlinear_arith)
            requires
                i < count,
        ;
        let x = read_u64(data, pos)?;
        proof {
            let w = data@.subrange(p as int, p + 8);
            lemma_be_bytes_of_value(w);
            lemma_concat_map_push(v@, x, |v: u64| u64_bytes(v));
            assert(data@.subrange(start as int, p + 8) =~= data@.subrange(start as int, p as int)
                + w);
        }
        v.push(x);
        i = i + 1;
    }
    Ok(v)
}

/// Appends each value as 4 bytes.
pub fn push_u32_list(out: &mut Vec<u8>, vals: &[u32])
    ensures
        final(out)@ == old(out)@ + concat_map(vals@, |v: u32| u32_bytes(v)),
{
    let mut i: usize = 0;
    while i < vals.len()
        invariant
            i <= vals@.len(),
            out@ == old(out)@ + concat_map(vals@.subrange(0, i as int), |v: u32| u32_bytes(v)),
        decreases vals@.len() - i,
    {
        proof {
            lemma_concat_map_push(vals@.subrange(0, i as int), vals@[i as int], |v: u32| u32_bytes(v));
            assert(vals@.subrange(0, i + 1) =~= vals@.subrange(0, i as int).push(vals@[i as int]));
        }
        push_u32(out, vals[i]);
        i = i + 1;
        assert(out@ =~= old(out)@ + concat_map(vals@.subrange(0, i as int), |v: u32| u32_bytes(v)));
    }
    assert(vals@.subrange(0, vals@.len() as int) =~= vals@);
}

/// Appends each value as 8 bytes.
pub fn push_u64_list(out: &mut Vec<u8>, vals: &[u64])
    ensures
        final(out)@ == old(out)@ + concat_map(vals@, |v: u64| u64_bytes(v)),
{
    let mut i: usize = 0;
    while i < vals.len()
        invariant
            i <= vals@.len(),
            out@ == old(out)@ + concat_map(vals@.subrange(0, i as int), |v: u64| u64_bytes(v)),
        decreases vals@.len() - i,
    {
        proof {
            lemma_concat_map_push(vals@.subrange(0, i as int), vals@[i as int], |v: u64| u64_bytes(v));
            assert(vals@.subrange(0, i + 1) =~= vals@.subrange(0, i as int).push(vals@[i as int]));
        }
        push_u64(out, vals[i]);
        i = i + 1;
        assert(out@ =~= old(out)@ + concat_map(vals@.subrange(0, i as int), |v: u64| u64_bytes(v)));
    }
    assert(vals@.subrange(0, vals@.len() as int) =~= vals@);
}

/// A prefix of the items encodes to no more bytes than all of them.
pub proof fn lemma_concat_map_prefix_len<T>(s: Seq<T>, f: spec_fn(T) -> Seq<u8>, i: int)
    requires
        0 <= i <= s.len(),
    ensures
        concat_map(s.subrange(0, i), f).len() <= concat_map(s, f).len(),
    decreases s.len(),
{
    if i < s.len() {
        let t = s.drop_last();
        assert(t.subrange(0, i) =~= s.subrange(0, i));
        lemma_concat_map_prefix_len(t, f, i);
    } else {
        assert(s.subrange(0, i) =~= s);
    }
}

/// Moves `*pos` past `n` bytes; fails, leaving it alone, where fewer remain.
pub fn skip_bytes(data: &[u8], pos: &mut usize, n: usize) -> (r: Result<(), Mp4BoxError>)
    ensures
        r is Ok ==> *old(pos) + n <= data@.len() && *final(pos) == *old(pos) + n,
        r is Err ==> *old(pos) + n > data@.len() && *final(pos) == *old(pos) && r->Err_0
            == Mp4BoxError::UnexpectedEos,
{
    if n > data.len() || *pos > data.len() - n {
        return Err(Mp4BoxError::UnexpectedEos);
    }
    *pos = *pos + n;
    Ok(())
}

} // verus!
