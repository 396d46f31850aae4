//! The packed reference from a key to its value.

use vstd::prelude::*;
use crate::error::DecodeError;
use crate::read::{Decoded, Framed, Readable};
use crate::wire::{
    decoded_u32,
    le_u32,
    lemma_u32_roundtrip,
    read_u32,
    u32_le_bytes,
    write_u32,
};
use crate::write::Writable;

verus! {

/// The kind of array that a value lies in.
#[derive(Debug, Copy, Clone, PartialEq, Eq, Structural)]
pub enum ValueType {
    Nothing,
    Pointer,
    Name,
}

impl ValueType {
    /// The number that stands for this kind.
    pub open spec fn spec_ordinal(self) -> u32 {
        match self {
            ValueType::Nothing => 0,
            ValueType::Pointer => 1,
            ValueType::Name => 2,
        }
    }

    /// The kind that `n` stands for, if any.
    pub open spec fn spec_from_ordinal(n: u32) -> Option<ValueType> {
        if n == 0 {
            Some(ValueType::Nothing)
        } else if n == 1 {
            Some(ValueType::Pointer)
        } else if n == 2 {
            Some(ValueType::Name)
        } else {
            None
        }
    }

    /// The number that stands for this kind.
    pub fn ordinal(self) -> (n: u32)
        ensures
            n == self.spec_ordinal(),
    {
        match self {
            ValueType::Nothing => 0,
            ValueType::Pointer => 1,
            ValueType::Name => 2,
        }
    }

    /// The kind that `n` stands for, if any.
    pub fn from_ordinal(n: u32) -> (kind: Option<ValueType>)
        ensures
            kind == Self::spec_from_ordinal(n),
    {
        if n == 0 {
            Some(ValueType::Nothing)
        } else if n == 1 {
            Some(ValueType::Pointer)
        } else if n == 2 {
            Some(ValueType::Name)
        } else {
            None
        }
    }
}

/// What a packed value reference holds: the kind in its three low bits, the
/// index into the array of that kind in the twenty-nine bits above them.
pub struct FValueIdView {
    pub value_type: ValueType,
    pub index: u32,
}

/// The value reference that the word `n` packs, if its kind is a known one.
pub open spec fn unpacked(n: u32) -> Option<FValueIdView> {
    match ValueType::spec_from_ordinal(n % 8) {
        Some(value_type) => Some(FValueIdView { value_type, index: n / 8 }),
        None => None,
    }
}

/// The word that packs `v`.
pub open spec fn packed(v: FValueIdView) -> u32 {
    (8 * v.index + v.value_type.spec_ordinal()) as u32
}

/// A packed value reference. One can only be made from a word whose kind is
/// known.
#[derive(Debug, PartialEq, Eq, Copy, Clone)]
pub struct FValueId(u32);

impl View for FValueId {
    type V = FValueIdView;

    closed spec fn view(&self) -> FValueIdView {
        FValueIdView {
            value_type: match ValueType::spec_from_ordinal(self.0 % 8) {
                Some(value_type) => value_type,
                None => ValueType::Nothing,
            },
            index: self.0 / 8,
        }
    }
}

impl FValueId {
    pub const TYPE_BITS: u32 = 3;

    pub const INDEX_BITS: u32 = 29;

    #[verifier::type_invariant]
    spec fn well_formed(self) -> bool {
        self.0 % 8 <= 2
    }

    /// The kind of array that the value lies in.
    pub fn value_type(&self) -> (kind: ValueType)
        ensures
            kind == self@.value_type,
    {
        proof {
            use_type_invariant(self);
        }
        let n = self.0;
        let low = n & 0b111;
        assert(low == n % 8) by (bit_vector)
            requires
                low == n & 0b111,
        ;
        match ValueType::from_ordinal(low) {
            Some(kind) => kind,
            None => ValueType::Nothing,
        }
    }

    /// The index of the value in the array of its kind.
    pub fn index(&self) -> (index: u32)
        ensures
            index == self@.index,
    {
        let n = self.0;
        let index = n >> Self::TYPE_BITS;
        assert(index == n / 8) by (bit_vector)
            requires
                index == n >> 3u32,
        ;
        index
    }

    /// The word that packs this reference.
    pub fn to_u32(&self) -> (n: u32)
        ensures
            n == packed(self@),
            unpacked(n) == Some(self@),
    {
        proof {
            use_type_invariant(self);
        }
        self.0
    }

    /// The reference that the word `n` packs. The word is rejected when its
    /// three low bits name no kind.
    pub fn try_from_u32(n: u32) -> (r: Result<FValueId, DecodeError>)
        ensures
            match r {
                Ok(id) => unpacked(n) == Some(id@),
                Err(e) => unpacked(n) is None && e == (DecodeError::UnknownTag { found: (n % 8) as u32 }),
            },
    {
        let low = n & 0b111;
        assert(low == n % 8) by (bit_vector)
            requires
                low == n & 0b111,
        ;
        if low <= 2 {
            Ok(FValueId(n))
        } else {
            Err(DecodeError::UnknownTag { found: low })
        }
    }
}

/// What the front of `bytes` stands for as a packed value reference.
pub open spec fn decoded_value_id(bytes: Seq<u8>) -> Decoded<FValueIdView> {
    match decoded_u32(bytes) {
        Ok((n, used)) => match unpacked(n) {
            Some(v) => Ok((v, used)),
            None => Err(DecodeError::UnknownTag { found: (n % 8) as u32 }),
        },
        Err(e) => Err(e),
    }
}

/// Packing a value reference and unpacking the word gives the reference back.
pub proof fn lemma_unpacked_packed(v: FValueIdView)
    requires
        v.index < 0x2000_0000,
    ensures
        unpacked(packed(v)) == Some(v),
{
}

/// The set of kinds is closed: a word whose three low bits are none of 0, 1
/// and 2 is not decoded.
pub proof fn lemma_unknown_kind_rejected(bytes: Seq<u8>)
    requires
        bytes.len() >= 4,
        le_u32(bytes) % 8 > 2,
    ensures
        FValueId::decoded(bytes) == Err::<(FValueIdView, int), DecodeError>(
            DecodeError::UnknownTag { found: (le_u32(bytes) % 8) as u32 },
        ),
{
}

impl Writable for FValueId {
    open spec fn valid(v: FValueIdView) -> bool {
        v.index < 0x2000_0000
    }

    open spec fn encoded(v: FValueIdView) -> Seq<u8> {
        u32_le_bytes(packed(v))
    }

    fn is_valid(&self) -> (ok: bool) {
        true
    }

    fn write(&self, out: &mut Vec<u8>) {
        write_u32(out, self.to_u32());
    }
}

impl Readable for FValueId {
    open spec fn decoded(bytes: Seq<u8>) -> Decoded<FValueIdView> {
        decoded_value_id(bytes)
    }

    fn read(buf: &[u8]) -> (r: Result<(FValueId, usize), DecodeError>) {
        let (n, used) = read_u32(buf)?;
        match FValueId::try_from_u32(n) {
            Ok(id) => Ok((id, used)),
            Err(e) => Err(e),
        }
    }

    proof fn lemma_roundtrip(v: FValueIdView, rest: Seq<u8>) {
        lemma_u32_roundtrip(packed(v), rest);
        lemma_unpacked_packed(v);
    }
}

impl Framed for FValueId {
    proof fn lemma_truncated(v: FValueIdView, k: int) {
    }
}

} // verus!
