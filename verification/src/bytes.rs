//! Big-endian integers and UTF-8 text as byte sequences.

use byteorder::{BigEndian, ByteOrder};
use vstd::prelude::*;

verus! {

/// `256` to the power `k`.
pub open spec fn pow256(k: nat) -> nat
    decreases k,
{
    if k == 0 {
        1
    } else {
        256 * pow256((k - 1) as nat)
    }
}

/// The number that a byte sequence stands for, most significant byte first.
pub open spec fn be_value(s: Seq<u8>) -> nat
    decreases s.len(),
{
    if s.len() == 0 {
        0
    } else {
        be_value(s.drop_last()) * 256 + s.last() as nat
    }
}

/// The `k` lowest bytes of `n`, most significant first.
pub open spec fn be_bytes(n: nat, k: nat) -> Seq<u8>
    decreases k,
{
    if k == 0 {
        seq![]
    } else {
        be_bytes(n / 256, (k - 1) as nat).push((n % 256) as u8)
    }
}

pub proof fn lemma_be_bytes_len(n: nat, k: nat)
    ensures
        be_bytes(n, k).len() == k,
    decreases k,
{
    if k > 0 {
        lemma_be_bytes_len(n / 256, (k - 1) as nat);
    }
}

/// Reading back the `k` bytes of a number below `256^k` gives the number.
pub proof fn lemma_be_roundtrip(n: nat, k: nat)
    requires
        n < pow256(k),
    ensures
        be_value(be_bytes(n, k)) == n,
        be_bytes(n, k).len() == k,
    decreases k,
{
    lemma_be_bytes_len(n, k);
    if k > 0 {
        let q = n / 256;
        let r = n % 256;
        assert(q < pow256((k - 1) as nat));
        lemma_be_roundtrip(q, (k - 1) as nat);
        let b = be_bytes(n, k);
        assert(b.drop_last() =~= be_bytes(q, (k - 1) as nat));
        assert(b.last() == (r as u8));
    }
}

pub proof fn lemma_pow256_values()
    ensures
        pow256(4) == 0x1_0000_0000,
        pow256(8) == 0x1_0000_0000_0000_0000,
{
    reveal_with_fuel(pow256, 9);
}

/// Reads a big-endian `u64` from the first eight bytes of `buf`
/// (`byteorder`'s `BigEndian::read_u64`, which panics on fewer bytes).
#[verifier::external_body]
fn read_u64_be(buf: &[u8]) -> (r: u64)
    requires
        buf@.len() >= 8,
    ensures
        r as nat == be_value(buf@.subrange(0, 8)),
{
    BigEndian::read_u64(buf)
}

/// Reads a big-endian `u32` from the first four bytes of `buf`
/// (`byteorder`'s `BigEndian::read_u32`, which panics on fewer bytes).
#[verifier::external_body]
fn read_u32_be(buf: &[u8]) -> (r: u32)
    requires
        buf@.len() >= 4,
    ensures
        r as nat == be_value(buf@.subrange(0, 4)),
{
    BigEndian::read_u32(buf)
}

/// Writes `n` big-endian into eight bytes (`byteorder`'s `BigEndian::write_u64`).
#[verifier::external_body]
fn write_u64_be(buf: &mut [u8; 8], n: u64)
    ensures
        final(buf)@ == be_bytes(n as nat, 8),
{
    BigEndian::write_u64(buf, n)
}

/// Writes `n` big-endian into four bytes (`byteorder`'s `BigEndian::write_u32`).
#[verifier::external_body]
fn write_u32_be(buf: &mut [u8; 4], n: u32)
    ensures
        final(buf)@ == be_bytes(n as nat, 4),
{
    BigEndian::write_u32(buf, n)
}

/// The big-endian `u64` at `pos`.
pub fn u64_be_at(s: &[u8], pos: usize) -> (r: u64)
    requires
        pos + 8 <= s@.len(),
    ensures
        r as nat == be_value(s@.subrange(pos as int, pos + 8)),
{
    let _n = s.len();
    let part = vstd::slice::slice_subrange(s, pos, pos + 8);
    assert(part@.subrange(0, 8) =~= s@.subrange(pos as int, pos + 8));
    read_u64_be(part)
}

/// The big-endian `u32` at `pos`.
pub fn u32_be_at(s: &[u8], pos: usize) -> (r: u32)
    requires
        pos + 4 <= s@.len(),
    ensures
        r as nat == be_value(s@.subrange(pos as int, pos + 4)),
{
    let _n = s.len();
    let part = vstd::slice::slice_subrange(s, pos, pos + 4);
    assert(part@.subrange(0, 4) =~= s@.subrange(pos as int, pos + 4));
    read_u32_be(part)
}

/// Appends `b` to `out`.
pub fn extend_bytes(out: &mut Vec<u8>, b: &[u8])
    ensures
        final(out)@ == old(out)@ + b@,
{
    let mut i: usize = 0;
    while i < b.len()
        invariant
            i <= b@.len(),
            out@ == old(out)@ + b@.subrange(0, i as int),
        decreases b@.len() - i,
    {
        out.push(b[i]);
        i = i + 1;
        assert(out@ =~= old(out)@ + b@.subrange(0, i as int));
    }
    assert(b@.subrange(0, b@.len() as int) =~= b@);
}

/// Appends `n` big-endian in eight bytes.
pub fn push_u64_be(out: &mut Vec<u8>, n: u64)
    ensures
        final(out)@ == old(out)@ + be_bytes(n as nat, 8),
{
    let mut buf = [0u8; 8];
    write_u64_be(&mut buf, n);
    extend_bytes(out, &buf);
}

/// Appends `n` big-endian in four bytes.
pub fn push_u32_be(out: &mut Vec<u8>, n: u32)
    ensures
        final(out)@ == old(out)@ + be_bytes(n as nat, 4),
{
    let mut buf = [0u8; 4];
    write_u32_be(&mut buf, n);
    extend_bytes(out, &buf);
}

/// The text that a byte sequence encodes in UTF-8, if it is valid UTF-8
/// (std's `String::from_utf8`, which fails exactly on bytes that are not UTF-8).
#[verifier::external_body]
pub(crate) fn string_from_utf8(bytes: Vec<u8>) -> (r: Option<String>)
    ensures
        r is Some <==> vstd::utf8::valid_utf8(bytes@),
        r matches Some(s) ==> s@ == vstd::utf8::decode_utf8(bytes@),
{
    String::from_utf8(bytes).ok()
}

} // verus!
