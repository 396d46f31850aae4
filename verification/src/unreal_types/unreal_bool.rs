//! A truth value that takes up a 32-bit word.

use vstd::prelude::*;
use crate::error::DecodeError;
use crate::read::{Decoded, Framed, Readable};
use crate::wire::{decoded_u32, lemma_u32_roundtrip, read_u32, u32_le_bytes, write_u32};
use crate::write::Writable;

verus! {

/// A truth value in the engine's legacy form: the word 1 for true, 0 for
/// false, and no other word.
#[derive(Debug, PartialEq, Eq, Copy, Clone)]
pub struct UnrealBool(pub bool);

impl View for UnrealBool {
    type V = bool;

    open spec fn view(&self) -> bool {
        self.0
    }
}

impl Writable for UnrealBool {
    open spec fn valid(v: bool) -> bool {
        true
    }

    open spec fn encoded(v: bool) -> Seq<u8> {
        u32_le_bytes(
            if v {
                1
            } else {
                0
            },
        )
    }

    fn is_valid(&self) -> (ok: bool) {
        true
    }

    fn write(&self, out: &mut Vec<u8>) {
        write_u32(
            out,
            if self.0 {
                1
            } else {
                0
            },
        );
    }
}

impl Readable for UnrealBool {
    open spec fn decoded(bytes: Seq<u8>) -> Decoded<bool> {
        match decoded_u32(bytes) {
            Ok((word, used)) => if word == 0 {
                Ok((false, used))
            } else if word == 1 {
                Ok((true, used))
            } else {
                Err(DecodeError::UnknownTag { found: word })
            },
            Err(e) => Err(e),
        }
    }

    fn read(buf: &[u8]) -> (r: Result<(UnrealBool, usize), DecodeError>) {
        let (word, used) = read_u32(buf)?;
        if word == 0 {
            Ok((UnrealBool(false), used))
        } else if word == 1 {
            Ok((UnrealBool(true), used))
        } else {
            Err(DecodeError::UnknownTag { found: word })
        }
    }

    proof fn lemma_roundtrip(v: bool, rest: Seq<u8>) {
        lemma_u32_roundtrip(
            if v {
                1
            } else {
                0
            },
            rest,
        );
    }
}

impl Framed for UnrealBool {
    proof fn lemma_truncated(v: bool, k: int) {
    }
}

} // verus!
