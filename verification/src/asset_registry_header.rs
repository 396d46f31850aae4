//! The header of a registry: the identifier of the format family, and the
//! version of the layout.

use vstd::prelude::*;
use vstd::slice::slice_subrange;
use crate::asset_registry_version::AssetRegistryVersion;
use crate::error::DecodeError;
use crate::read::{lemma_roundtrip_then, Decoded, Framed, Readable};
use crate::wire::{append, le_u32, read_u32};
use crate::write::Writable;

verus! {

/// The sixteen bytes that every registry starts with.
pub const ASSET_REGISTRY_VERSION_GUID: [u8; 16] = [
    0xE7,
    0x9E,
    0x7F,
    0x71,
    0x3A,
    0x49,
    0xB0,
    0xE9,
    0x32,
    0x91,
    0xB3,
    0x88,
    0x07,
    0x81,
    0x38,
    0x1B,
];

/// The sixteen bytes that every registry starts with.
pub open spec fn format_guid() -> Seq<u8> {
    seq![
        0xE7u8,
        0x9Eu8,
        0x7Fu8,
        0x71u8,
        0x3Au8,
        0x49u8,
        0xB0u8,
        0xE9u8,
        0x32u8,
        0x91u8,
        0xB3u8,
        0x88u8,
        0x07u8,
        0x81u8,
        0x38u8,
        0x1Bu8,
    ]
}

/// The first of the four words that the identifier is made of.
pub const GUID_A: u32 = 0x717F_9EE7;

/// The second word of the identifier.
pub const GUID_B: u32 = 0xE9B0_493A;

/// The third word of the identifier.
pub const GUID_C: u32 = 0x88B3_9132;

/// The fourth word of the identifier.
pub const GUID_D: u32 = 0x1B38_8107;

/// The header of a registry.
#[derive(Debug, PartialEq, Eq, Copy, Clone)]
pub struct AssetRegistryHeader {
    pub version: AssetRegistryVersion,
}

impl View for AssetRegistryHeader {
    type V = AssetRegistryHeader;

    open spec fn view(&self) -> AssetRegistryHeader {
        *self
    }
}

/// The identifier of the format family, as a value.
fn guid() -> (id: [u8; 16])
    ensures
        id@ == format_guid(),
{
    let id = ASSET_REGISTRY_VERSION_GUID;
    assert(id@ =~= format_guid());
    id
}

impl Writable for AssetRegistryHeader {
    open spec fn valid(v: AssetRegistryHeader) -> bool {
        true
    }

    open spec fn encoded(v: AssetRegistryHeader) -> Seq<u8> {
        format_guid() + AssetRegistryVersion::encoded(v.version)
    }

    fn is_valid(&self) -> (ok: bool) {
        true
    }

    fn write(&self, out: &mut Vec<u8>) {
        let id = guid();
        append(out, id.as_slice());
        self.version.write(out);
    }
}

impl Readable for AssetRegistryHeader {
    /// All sixteen bytes of the identifier are compared, word by word,
    /// before the version is looked at. The first word that differs is
    /// reported with the word that was expected in its place.
    open spec fn decoded(bytes: Seq<u8>) -> Decoded<AssetRegistryHeader> {
        if bytes.len() < 16 {
            Err(DecodeError::UnexpectedEnd)
        } else if le_u32(bytes) != GUID_A {
            Err(DecodeError::MalformedMagic { expected: GUID_A, found: le_u32(bytes) })
        } else if le_u32(bytes.skip(4)) != GUID_B {
            Err(DecodeError::MalformedMagic { expected: GUID_B, found: le_u32(bytes.skip(4)) })
        } else if le_u32(bytes.skip(8)) != GUID_C {
            Err(DecodeError::MalformedMagic { expected: GUID_C, found: le_u32(bytes.skip(8)) })
        } else if le_u32(bytes.skip(12)) != GUID_D {
            Err(DecodeError::MalformedMagic { expected: GUID_D, found: le_u32(bytes.skip(12)) })
        } else {
            match AssetRegistryVersion::decoded(bytes.skip(16)) {
                Ok((version, used)) => Ok((AssetRegistryHeader { version }, 16 + used)),
                Err(e) => Err(e),
            }
        }
    }

    fn read(buf: &[u8]) -> (r: Result<(AssetRegistryHeader, usize), DecodeError>) {
        if buf.len() < 16 {
            return Err(DecodeError::UnexpectedEnd);
        }
        let (a, _) = read_u32(buf)?;
        if a != GUID_A {
            return Err(DecodeError::MalformedMagic { expected: GUID_A, found: a });
        }
        let (b, _) = read_u32(slice_subrange(buf, 4, buf.len()))?;
        if b != GUID_B {
            return Err(DecodeError::MalformedMagic { expected: GUID_B, found: b });
        }
        let (c, _) = read_u32(slice_subrange(buf, 8, buf.len()))?;
        if c != GUID_C {
            return Err(DecodeError::MalformedMagic { expected: GUID_C, found: c });
        }
        let (d, _) = read_u32(slice_subrange(buf, 12, buf.len()))?;
        if d != GUID_D {
            return Err(DecodeError::MalformedMagic { expected: GUID_D, found: d });
        }
        let (version, used) = AssetRegistryVersion::read(slice_subrange(buf, 16, buf.len()))?;
        Ok((AssetRegistryHeader { version }, 16 + used))
    }

    proof fn lemma_roundtrip(v: AssetRegistryHeader, rest: Seq<u8>) {
        let tail = AssetRegistryVersion::encoded(v.version) + rest;
        let whole = format_guid() + tail;
        assert(Self::encoded(v) + rest =~= whole);
        assert(whole.subrange(0, 16) =~= format_guid());
        lemma_guid_words(whole);
        assert(whole.skip(16) =~= tail);
        lemma_roundtrip_then::<AssetRegistryVersion>(v.version, rest);
    }
}

/// The sixteen bytes of the identifier are its four words, least significant
/// byte first, and no other bytes are.
pub proof fn lemma_guid_words(bytes: Seq<u8>)
    requires
        bytes.len() >= 16,
    ensures
        bytes.subrange(0, 16) == format_guid() <==> le_u32(bytes) == GUID_A && le_u32(
            bytes.skip(4),
        ) == GUID_B && le_u32(bytes.skip(8)) == GUID_C && le_u32(bytes.skip(12)) == GUID_D,
{
    let id = format_guid();
    let front = bytes.subrange(0, 16);
    assert forall|i: int| 0 <= i < 16 implies front[i] == bytes[i] by {}
    assert(bytes.skip(4)[0] == bytes[4] && bytes.skip(4)[1] == bytes[5] && bytes.skip(4)[2]
        == bytes[6] && bytes.skip(4)[3] == bytes[7]);
    assert(bytes.skip(8)[0] == bytes[8] && bytes.skip(8)[1] == bytes[9] && bytes.skip(8)[2]
        == bytes[10] && bytes.skip(8)[3] == bytes[11]);
    assert(bytes.skip(12)[0] == bytes[12] && bytes.skip(12)[1] == bytes[13] && bytes.skip(12)[2]
        == bytes[14] && bytes.skip(12)[3] == bytes[15]);
    if front == id {
        assert(bytes[0] == id[0] && bytes[1] == id[1] && bytes[2] == id[2] && bytes[3] == id[3]);
        assert(bytes[4] == id[4] && bytes[5] == id[5] && bytes[6] == id[6] && bytes[7] == id[7]);
        assert(bytes[8] == id[8] && bytes[9] == id[9] && bytes[10] == id[10] && bytes[11]
            == id[11]);
        assert(bytes[12] == id[12] && bytes[13] == id[13] && bytes[14] == id[14] && bytes[15]
            == id[15]);
    }
    if le_u32(bytes) == GUID_A && le_u32(bytes.skip(4)) == GUID_B && le_u32(bytes.skip(8))
        == GUID_C && le_u32(bytes.skip(12)) == GUID_D {
        lemma_word_bytes(bytes[0], bytes[1], bytes[2], bytes[3], GUID_A);
        lemma_word_bytes(bytes[4], bytes[5], bytes[6], bytes[7], GUID_B);
        lemma_word_bytes(bytes[8], bytes[9], bytes[10], bytes[11], GUID_C);
        lemma_word_bytes(bytes[12], bytes[13], bytes[14], bytes[15], GUID_D);
        assert(front =~= id);
    }
}

/// Four bytes that stand for a word are the bytes of that word.
proof fn lemma_word_bytes(b0: u8, b1: u8, b2: u8, b3: u8, word: u32)
    requires
        b0 + 0x100 * b1 + 0x1_0000 * b2 + 0x100_0000 * b3 == word,
    ensures
        b0 == word % 0x100,
        b1 == word / 0x100 % 0x100,
        b2 == word / 0x1_0000 % 0x100,
        b3 == word / 0x100_0000,
{
}

/// A header is rejected for its identifier exactly where one of its first
/// sixteen bytes is not the identifier's.
pub proof fn lemma_guid_compared_in_full(bytes: Seq<u8>)
    requires
        bytes.len() >= 16,
    ensures
        bytes.subrange(0, 16) != format_guid() <==> (AssetRegistryHeader::decoded(bytes) matches Err(
            DecodeError::MalformedMagic { .. },
        )),
{
    lemma_guid_words(bytes);
}

impl Framed for AssetRegistryHeader {
    proof fn lemma_truncated(v: AssetRegistryHeader, k: int) {
        let whole = Self::encoded(v);
        let cut = whole.take(k);
        if k >= 16 {
            assert(cut.subrange(0, 16) =~= format_guid());
            lemma_guid_words(cut);
        }
    }
}

} // verus!
