//! A path to an object that need not be loaded.

use vstd::prelude::*;
use vstd::slice::slice_subrange;
use crate::error::DecodeError;
use crate::read::{lemma_concat_3, lemma_cut, lemma_roundtrip_then, Decoded, Framed, Readable};
use crate::unreal_types::fname::FName;
use crate::unreal_types::fstring::{FString, FStringView};
use crate::write::Writable;

verus! {

/// The name of an asset and a path below it.
#[derive(Debug, PartialEq, Eq, Clone)]
pub struct FSoftObjectPath {
    pub asset_path_name: FName,
    pub sub_path_string: FString,
}

/// What a soft object path holds.
pub struct FSoftObjectPathView {
    pub asset_path_name: FName,
    pub sub_path_string: FStringView,
}

impl View for FSoftObjectPath {
    type V = FSoftObjectPathView;

    open spec fn view(&self) -> FSoftObjectPathView {
        FSoftObjectPathView {
            asset_path_name: self.asset_path_name,
            sub_path_string: self.sub_path_string@,
        }
    }
}

impl Writable for FSoftObjectPath {
    open spec fn valid(v: FSoftObjectPathView) -> bool {
        FString::valid(v.sub_path_string)
    }

    open spec fn encoded(v: FSoftObjectPathView) -> Seq<u8> {
        FName::encoded(v.asset_path_name) + FString::encoded(v.sub_path_string)
    }

    fn is_valid(&self) -> (ok: bool) {
        self.sub_path_string.is_valid()
    }

    fn write(&self, out: &mut Vec<u8>) {
        self.asset_path_name.write(out);
        self.sub_path_string.write(out);
    }
}

impl Readable for FSoftObjectPath {
    open spec fn decoded(bytes: Seq<u8>) -> Decoded<FSoftObjectPathView> {
        match FName::decoded(bytes) {
            Ok((asset_path_name, n1)) => match FString::decoded(bytes.skip(n1)) {
                Ok((sub_path_string, n2)) => Ok(
                    (FSoftObjectPathView { asset_path_name, sub_path_string }, n1 + n2),
                ),
                Err(e) => Err(e),
            },
            Err(e) => Err(e),
        }
    }

    fn read(buf: &[u8]) -> (r: Result<(FSoftObjectPath, usize), DecodeError>) {
        let (asset_path_name, n1) = FName::read(buf)?;
        let (sub_path_string, n2) = FString::read(slice_subrange(buf, n1, buf.len()))?;
        Ok((FSoftObjectPath { asset_path_name, sub_path_string }, n1 + n2))
    }

    proof fn lemma_roundtrip(v: FSoftObjectPathView, rest: Seq<u8>) {
        let tail = FString::encoded(v.sub_path_string) + rest;
        lemma_concat_3(FName::encoded(v.asset_path_name), FString::encoded(v.sub_path_string), rest);
        lemma_roundtrip_then::<FName>(v.asset_path_name, tail);
        lemma_roundtrip_then::<FString>(v.sub_path_string, rest);
    }
}

impl Framed for FSoftObjectPath {
    proof fn lemma_truncated(v: FSoftObjectPathView, k: int) {
        let tail = FString::encoded(v.sub_path_string);
        lemma_cut::<FName>(v.asset_path_name, tail, k);
        if k >= FName::encoded(v.asset_path_name).len() {
            FString::lemma_truncated(v.sub_path_string, k - FName::encoded(v.asset_path_name).len());
        }
    }
}

} // verus!
