//! Integers on the wire, least significant byte first.

use vstd::prelude::*;
use byteorder::ByteOrder;
use byteorder::LittleEndian;
use crate::error::DecodeError;
use crate::read::{agrees, Decoded, Framed, Readable};
use crate::write::Writable;

verus! {

/// The value of the two bytes at the front of `s`.
pub open spec fn le_u16(s: Seq<u8>) -> u16 {
    (s[0] + 0x100 * s[1]) as u16
}

/// The value of the four bytes at the front of `s`.
pub open spec fn le_u32(s: Seq<u8>) -> u32 {
    (s[0] + 0x100 * s[1] + 0x1_0000 * s[2] + 0x100_0000 * s[3]) as u32
}

/// The value of the eight bytes at the front of `s`.
pub open spec fn le_u64(s: Seq<u8>) -> u64 {
    (le_u32(s) + 0x1_0000_0000 * le_u32(s.skip(4))) as u64
}

/// The value of the four bytes at the front of `s`, read as two's complement.
pub open spec fn le_i32(s: Seq<u8>) -> i32 {
    if le_u32(s) < 0x8000_0000 {
        le_u32(s) as i32
    } else {
        (le_u32(s) - 0x1_0000_0000) as i32
    }
}

/// The two bytes that stand for `x`.
pub open spec fn u16_le_bytes(x: u16) -> Seq<u8> {
    seq![(x % 0x100) as u8, (x / 0x100) as u8]
}

/// The four bytes that stand for `x`.
pub open spec fn u32_le_bytes(x: u32) -> Seq<u8> {
    seq![
        (x % 0x100) as u8,
        (x / 0x100 % 0x100) as u8,
        (x / 0x1_0000 % 0x100) as u8,
        (x / 0x100_0000) as u8,
    ]
}

/// The eight bytes that stand for `x`.
pub open spec fn u64_le_bytes(x: u64) -> Seq<u8> {
    u32_le_bytes((x % 0x1_0000_0000) as u32) + u32_le_bytes((x / 0x1_0000_0000) as u32)
}

/// The four bytes that stand for `x` in two's complement.
pub open spec fn i32_le_bytes(x: i32) -> Seq<u8> {
    u32_le_bytes(
        if x >= 0 {
            x as u32
        } else {
            (x + 0x1_0000_0000) as u32
        },
    )
}

/// What the front of `bytes` stands for as a 16-bit integer.
pub open spec fn decoded_u16(bytes: Seq<u8>) -> Decoded<u16> {
    if bytes.len() < 2 {
        Err(DecodeError::UnexpectedEnd)
    } else {
        Ok((le_u16(bytes), 2))
    }
}

/// What the front of `bytes` stands for as a 32-bit integer.
pub open spec fn decoded_u32(bytes: Seq<u8>) -> Decoded<u32> {
    if bytes.len() < 4 {
        Err(DecodeError::UnexpectedEnd)
    } else {
        Ok((le_u32(bytes), 4))
    }
}

/// What the front of `bytes` stands for as a 64-bit integer.
pub open spec fn decoded_u64(bytes: Seq<u8>) -> Decoded<u64> {
    if bytes.len() < 8 {
        Err(DecodeError::UnexpectedEnd)
    } else {
        Ok((le_u64(bytes), 8))
    }
}

/// What the front of `bytes` stands for as a signed 32-bit integer.
pub open spec fn decoded_i32(bytes: Seq<u8>) -> Decoded<i32> {
    if bytes.len() < 4 {
        Err(DecodeError::UnexpectedEnd)
    } else {
        Ok((le_i32(bytes), 4))
    }
}

/// Two bytes give back the 16-bit integer that they stand for.
pub proof fn lemma_u16_roundtrip(x: u16, rest: Seq<u8>)
    ensures
        u16_le_bytes(x).len() == 2,
        le_u16(u16_le_bytes(x) + rest) == x,
        decoded_u16(u16_le_bytes(x) + rest) == Ok::<(u16, int), DecodeError>((x, 2)),
{
    let s = u16_le_bytes(x) + rest;
    assert(s[0] == (x % 0x100) as u8);
    assert(s[1] == (x / 0x100) as u8);
}

/// Four bytes give back the 32-bit integer that they stand for.
pub proof fn lemma_u32_roundtrip(x: u32, rest: Seq<u8>)
    ensures
        u32_le_bytes(x).len() == 4,
        le_u32(u32_le_bytes(x) + rest) == x,
        decoded_u32(u32_le_bytes(x) + rest) == Ok::<(u32, int), DecodeError>((x, 4)),
{
    let s = u32_le_bytes(x) + rest;
    assert(s[0] == (x % 0x100) as u8);
    assert(s[1] == (x / 0x100 % 0x100) as u8);
    assert(s[2] == (x / 0x1_0000 % 0x100) as u8);
    assert(s[3] == (x / 0x100_0000) as u8);
}

/// Eight bytes give back the 64-bit integer that they stand for.
pub proof fn lemma_u64_roundtrip(x: u64, rest: Seq<u8>)
    ensures
        u64_le_bytes(x).len() == 8,
        le_u64(u64_le_bytes(x) + rest) == x,
        decoded_u64(u64_le_bytes(x) + rest) == Ok::<(u64, int), DecodeError>((x, 8)),
{
    let low = (x % 0x1_0000_0000) as u32;
    let high = (x / 0x1_0000_0000) as u32;
    let s = u64_le_bytes(x) + rest;
    lemma_u32_roundtrip(low, u32_le_bytes(high) + rest);
    lemma_u32_roundtrip(high, rest);
    assert(s =~= u32_le_bytes(low) + (u32_le_bytes(high) + rest));
    assert(s.skip(4) =~= u32_le_bytes(high) + rest);
}

/// Four bytes give back the signed 32-bit integer that they stand for.
pub proof fn lemma_i32_roundtrip(x: i32, rest: Seq<u8>)
    ensures
        i32_le_bytes(x).len() == 4,
        le_i32(i32_le_bytes(x) + rest) == x,
        decoded_i32(i32_le_bytes(x) + rest) == Ok::<(i32, int), DecodeError>((x, 4)),
{
    if x >= 0 {
        lemma_u32_roundtrip(x as u32, rest);
    } else {
        lemma_u32_roundtrip((x + 0x1_0000_0000) as u32, rest);
    }
}

/// `byteorder::LittleEndian::read_u16`: the value of the first two bytes of
/// `chunk`, least significant first. It panics on fewer than two bytes.
#[verifier::external_body]
fn le_read_u16(chunk: &[u8]) -> (value: u16)
    requires
        chunk@.len() >= 2,
    ensures
        value == le_u16(chunk@),
{
    LittleEndian::read_u16(chunk)
}

/// `byteorder::LittleEndian::read_u32`: the value of the first four bytes of
/// `chunk`, least significant first. It panics on fewer than four bytes.
#[verifier::external_body]
fn le_read_u32(chunk: &[u8]) -> (value: u32)
    requires
        chunk@.len() >= 4,
    ensures
        value == le_u32(chunk@),
{
    LittleEndian::read_u32(chunk)
}

/// `byteorder::LittleEndian::read_u64`: the value of the first eight bytes of
/// `chunk`, least significant first. It panics on fewer than eight bytes.
#[verifier::external_body]
fn le_read_u64(chunk: &[u8]) -> (value: u64)
    requires
        chunk@.len() >= 8,
    ensures
        value == le_u64(chunk@),
{
    LittleEndian::read_u64(chunk)
}

/// `byteorder::LittleEndian::read_i32`: the first four bytes of `chunk`, least
/// significant first, read as two's complement. It panics on fewer than four
/// bytes.
#[verifier::external_body]
fn le_read_i32(chunk: &[u8]) -> (value: i32)
    requires
        chunk@.len() >= 4,
    ensures
        value == le_i32(chunk@),
{
    LittleEndian::read_i32(chunk)
}

/// `byteorder::LittleEndian::write_u16`, on a buffer of two bytes: it fills
/// the buffer with the bytes of `value`, least significant first.
#[verifier::external_body]
fn le_write_u16(value: u16) -> (chunk: [u8; 2])
    ensures
        chunk@ == u16_le_bytes(value),
{
    let mut chunk = [0u8; 2];
    LittleEndian::write_u16(&mut chunk, value);
    chunk
}

/// `byteorder::LittleEndian::write_u32`, on a buffer of four bytes: it fills
/// the buffer with the bytes of `value`, least significant first.
#[verifier::external_body]
fn le_write_u32(value: u32) -> (chunk: [u8; 4])
    ensures
        chunk@ == u32_le_bytes(value),
{
    let mut chunk = [0u8; 4];
    LittleEndian::write_u32(&mut chunk, value);
    chunk
}

/// `byteorder::LittleEndian::write_u64`, on a buffer of eight bytes: it fills
/// the buffer with the bytes of `value`, least significant first.
#[verifier::external_body]
fn le_write_u64(value: u64) -> (chunk: [u8; 8])
    ensures
        chunk@ == u64_le_bytes(value),
{
    let mut chunk = [0u8; 8];
    LittleEndian::write_u64(&mut chunk, value);
    chunk
}

/// `byteorder::LittleEndian::write_i32`, on a buffer of four bytes: it fills
/// the buffer with the bytes of `value` in two's complement, least
/// significant first.
#[verifier::external_body]
fn le_write_i32(value: i32) -> (chunk: [u8; 4])
    ensures
        chunk@ == i32_le_bytes(value),
{
    let mut chunk = [0u8; 4];
    LittleEndian::write_i32(&mut chunk, value);
    chunk
}

/// Appends the bytes of `chunk` to `out`.
pub fn append(out: &mut Vec<u8>, chunk: &[u8])
    ensures
        final(out)@ == old(out)@ + chunk@,
{
    let mut i: usize = 0;
    while i < chunk.len()
        invariant
            i <= chunk@.len(),
            out@ == old(out)@ + chunk@.take(i as int),
        decreases chunk@.len() - i,
    {
        out.push(chunk[i]);
        i += 1;
        assert(out@ =~= old(out)@ + chunk@.take(i as int));
    }
    assert(chunk@.take(i as int) =~= chunk@);
}

/// Decodes a 16-bit integer from the front of `buf`.
pub fn read_u16(buf: &[u8]) -> (r: Result<(u16, usize), DecodeError>)
    ensures
        agrees(r, decoded_u16(buf@)),
{
    if buf.len() < 2 {
        Err(DecodeError::UnexpectedEnd)
    } else {
        Ok((le_read_u16(buf), 2))
    }
}

/// Decodes a 32-bit integer from the front of `buf`.
pub fn read_u32(buf: &[u8]) -> (r: Result<(u32, usize), DecodeError>)
    ensures
        agrees(r, decoded_u32(buf@)),
{
    if buf.len() < 4 {
        Err(DecodeError::UnexpectedEnd)
    } else {
        Ok((le_read_u32(buf), 4))
    }
}

/// Decodes a 64-bit integer from the front of `buf`.
pub fn read_u64(buf: &[u8]) -> (r: Result<(u64, usize), DecodeError>)
    ensures
        agrees(r, decoded_u64(buf@)),
{
    if buf.len() < 8 {
        Err(DecodeError::UnexpectedEnd)
    } else {
        Ok((le_read_u64(buf), 8))
    }
}

/// Decodes a signed 32-bit integer from the front of `buf`.
pub fn read_i32(buf: &[u8]) -> (r: Result<(i32, usize), DecodeError>)
    ensures
        agrees(r, decoded_i32(buf@)),
{
    if buf.len() < 4 {
        Err(DecodeError::UnexpectedEnd)
    } else {
        Ok((le_read_i32(buf), 4))
    }
}

/// Appends the two bytes of `value` to `out`.
pub fn write_u16(out: &mut Vec<u8>, value: u16)
    ensures
        final(out)@ == old(out)@ + u16_le_bytes(value),
{
    let chunk = le_write_u16(value);
    append(out, chunk.as_slice());
}

/// Appends the four bytes of `value` to `out`.
pub fn write_u32(out: &mut Vec<u8>, value: u32)
    ensures
        final(out)@ == old(out)@ + u32_le_bytes(value),
{
    let chunk = le_write_u32(value);
    append(out, chunk.as_slice());
}

/// Appends the eight bytes of `value` to `out`.
pub fn write_u64(out: &mut Vec<u8>, value: u64)
    ensures
        final(out)@ == old(out)@ + u64_le_bytes(value),
{
    let chunk = le_write_u64(value);
    append(out, chunk.as_slice());
}

/// Appends the four bytes of `value` to `out`.
pub fn write_i32(out: &mut Vec<u8>, value: i32)
    ensures
        final(out)@ == old(out)@ + i32_le_bytes(value),
{
    let chunk = le_write_i32(value);
    append(out, chunk.as_slice());
}

impl Writable for u16 {
    open spec fn valid(v: u16) -> bool {
        true
    }

    open spec fn encoded(v: u16) -> Seq<u8> {
        u16_le_bytes(v)
    }

    fn is_valid(&self) -> (ok: bool) {
        true
    }

    fn write(&self, out: &mut Vec<u8>) {
        write_u16(out, *self);
    }
}

impl Readable for u16 {
    open spec fn decoded(bytes: Seq<u8>) -> Decoded<u16> {
        decoded_u16(bytes)
    }

    fn read(buf: &[u8]) -> (r: Result<(u16, usize), DecodeError>) {
        read_u16(buf)
    }

    proof fn lemma_roundtrip(v: u16, rest: Seq<u8>) {
        lemma_u16_roundtrip(v, rest);
    }
}

impl Writable for u32 {
    open spec fn valid(v: u32) -> bool {
        true
    }

    open spec fn encoded(v: u32) -> Seq<u8> {
        u32_le_bytes(v)
    }

    fn is_valid(&self) -> (ok: bool) {
        true
    }

    fn write(&self, out: &mut Vec<u8>) {
        write_u32(out, *self);
    }
}

impl Readable for u32 {
    open spec fn decoded(bytes: Seq<u8>) -> Decoded<u32> {
        decoded_u32(bytes)
    }

    fn read(buf: &[u8]) -> (r: Result<(u32, usize), DecodeError>) {
        read_u32(buf)
    }

    proof fn lemma_roundtrip(v: u32, rest: Seq<u8>) {
        lemma_u32_roundtrip(v, rest);
    }
}

impl Writable for u64 {
    open spec fn valid(v: u64) -> bool {
        true
    }

    open spec fn encoded(v: u64) -> Seq<u8> {
        u64_le_bytes(v)
    }

    fn is_valid(&self) -> (ok: bool) {
        true
    }

    fn write(&self, out: &mut Vec<u8>) {
        write_u64(out, *self);
    }
}

impl Readable for u64 {
    open spec fn decoded(bytes: Seq<u8>) -> Decoded<u64> {
        decoded_u64(bytes)
    }

    fn read(buf: &[u8]) -> (r: Result<(u64, usize), DecodeError>) {
        read_u64(buf)
    }

    proof fn lemma_roundtrip(v: u64, rest: Seq<u8>) {
        lemma_u64_roundtrip(v, rest);
    }
}

impl Framed for u16 {
    proof fn lemma_truncated(v: u16, k: int) {
    }
}

impl Framed for u32 {
    proof fn lemma_truncated(v: u32, k: int) {
    }
}

impl Framed for u64 {
    proof fn lemma_truncated(v: u64, k: int) {
    }
}

} // verus!
