//! Text in its two widths: 8-bit units that hold UTF-8, and 16-bit units
//! that hold UTF-16.

use vstd::prelude::*;
use vstd::slice::{slice_subrange, slice_to_vec};
use vstd::utf8::{decode_utf8, encode_utf8, is_ascii_chars, valid_utf8};
use crate::error::DecodeError;
use crate::read::{
    decoded_array,
    lemma_array_cut,
    lemma_array_roundtrip,
    lemma_decoded_array_len,
    lemma_skip_prefix,
    read_array,
    Decoded,
};
use crate::wire::append;
use crate::write::{encoded_array, views, write_array};

verus! {

/// Whether `unit` is one half of a surrogate pair.
pub open spec fn is_surrogate(unit: u16) -> bool {
    0xD800 <= unit < 0xE000
}

/// Whether `high` and `low`, in this order, form a surrogate pair.
pub open spec fn is_surrogate_pair(high: u16, low: u16) -> bool {
    0xD800 <= high < 0xDC00 && 0xDC00 <= low < 0xE000
}

/// The code point that a surrogate pair stands for.
pub open spec fn paired(high: u16, low: u16) -> u32 {
    (0x1_0000 + (high - 0xD800) * 0x400 + (low - 0xDC00)) as u32
}

/// The UTF-16 units of one character: itself below U+10000, a surrogate pair
/// from there on.
pub open spec fn utf16_of_char(c: char) -> Seq<u16> {
    let v = c as u32;
    if v < 0x1_0000 {
        seq![v as u16]
    } else {
        seq![
            (0xD800 + (v - 0x1_0000) / 0x400) as u16,
            (0xDC00 + (v - 0x1_0000) % 0x400) as u16,
        ]
    }
}

/// The UTF-16 units of `text`.
pub open spec fn utf16_encoded(text: Seq<char>) -> Seq<u16>
    decreases text.len(),
{
    if text.len() == 0 {
        Seq::empty()
    } else {
        utf16_of_char(text[0]) + utf16_encoded(text.drop_first())
    }
}

/// A character put before a decoded text, if there is one.
pub open spec fn preceded(c: char, tail: Option<Seq<char>>) -> Option<Seq<char>> {
    match tail {
        Some(text) => Some(seq![c] + text),
        None => None,
    }
}

/// The text that `units` hold as UTF-16, or nothing where a surrogate stands
/// without its partner.
pub open spec fn utf16_decoded(units: Seq<u16>) -> Option<Seq<char>>
    decreases units.len(),
{
    if units.len() == 0 {
        Some(Seq::empty())
    } else if !is_surrogate(units[0]) {
        preceded(units[0] as char, utf16_decoded(units.skip(1)))
    } else if units.len() >= 2 && is_surrogate_pair(units[0], units[1]) {
        preceded(paired(units[0], units[1]) as char, utf16_decoded(units.skip(2)))
    } else {
        None
    }
}

/// The units of a text, read as UTF-16, give the text back.
pub proof fn lemma_utf16_roundtrip(text: Seq<char>)
    ensures
        utf16_decoded(utf16_encoded(text)) == Some(text),
    decreases text.len(),
{
    if text.len() > 0 {
        let c = text[0];
        let v = c as u32;
        let others = text.drop_first();
        let units = utf16_encoded(text);
        vstd::utf8::char_is_scalar(c);
        lemma_utf16_roundtrip(others);
        if v < 0x1_0000 {
            assert(units[0] == v as u16);
            assert(!is_surrogate(units[0]));
            assert(units.skip(1) =~= utf16_encoded(others));
            vstd::utf8::char_u32_cast(c, v);
            assert(units[0] as char == c);
        } else {
            let high = (0xD800 + (v - 0x1_0000) / 0x400) as u16;
            let low = (0xDC00 + (v - 0x1_0000) % 0x400) as u16;
            assert(units[0] == high && units[1] == low);
            assert(is_surrogate_pair(high, low));
            assert(paired(high, low) == v);
            assert(units.skip(2) =~= utf16_encoded(others));
            vstd::utf8::char_u32_cast(c, v);
        }
        assert(seq![c] + others =~= text);
    }
}

/// `String::from_utf8`: the text that `bytes` hold as UTF-8, or nothing
/// where they are not valid UTF-8.
#[verifier::external_body]
pub(crate) fn string_from_utf8(bytes: Vec<u8>) -> (r: Option<String>)
    ensures
        match r {
            Some(text) => valid_utf8(bytes@) && text@ == decode_utf8(bytes@),
            None => !valid_utf8(bytes@),
        },
{
    match String::from_utf8(bytes) {
        Ok(text) => Some(text),
        Err(_) => None,
    }
}

/// `String::from_utf16`: the text that `units` hold as UTF-16, or nothing
/// where they are not valid UTF-16.
#[verifier::external_body]
pub(crate) fn string_from_utf16(units: &[u16]) -> (r: Option<String>)
    ensures
        match r {
            Some(text) => utf16_decoded(units@) == Some(text@),
            None => utf16_decoded(units@) is None,
        },
{
    match String::from_utf16(units) {
        Ok(text) => Some(text),
        Err(_) => None,
    }
}

/// `str::encode_utf16`: the UTF-16 units of `text`, in order.
#[verifier::external_body]
pub(crate) fn utf16_units(text: &str) -> (units: Vec<u16>)
    ensures
        units@ == utf16_encoded(text@),
{
    text.encode_utf16().collect()
}

/// Whether every code point of `s` is below U+0080, so that the text can be
/// kept in units of eight bits.
pub fn is_pure_ansi(s: &str) -> (pure: bool)
    ensures
        pure == is_ascii_chars(s@),
{
    s.is_ascii()
}

/// The number of units that `text` takes up in the given width, terminator
/// included.
pub open spec fn unit_count(wide: bool, text: Seq<char>) -> int {
    if wide {
        utf16_encoded(text).len() as int + 1
    } else {
        encode_utf8(text).len() as int + 1
    }
}

/// The bytes of a terminated text in the given width: its units, and a zero
/// unit after them.
pub open spec fn encoded_text(wide: bool, text: Seq<char>) -> Seq<u8> {
    if wide {
        encoded_array::<u16>(utf16_encoded(text) + seq![0u16])
    } else {
        encode_utf8(text) + seq![0u8]
    }
}

/// What the front of `bytes` stands for as a terminated text of `count`
/// units in the given width. There has to be a unit for the terminator; the
/// last unit has to be zero, and the units before it valid in their
/// encoding.
pub open spec fn decoded_text(bytes: Seq<u8>, wide: bool, count: nat) -> Decoded<Seq<char>> {
    if count == 0 {
        Err(DecodeError::InconsistentLength { expected: 1, found: 0 })
    } else if wide {
        match decoded_array::<u16>(bytes, count) {
            Ok((units, used)) => if units.last() != 0 {
                Err(DecodeError::InvalidTermination { unit: units.last() })
            } else {
                match utf16_decoded(units.drop_last()) {
                    Some(text) => Ok((text, used)),
                    None => Err(DecodeError::InvalidEncoding),
                }
            },
            Err(e) => Err(e),
        }
    } else {
        if bytes.len() < count {
            Err(DecodeError::UnexpectedEnd)
        } else if bytes[count - 1] != 0 {
            Err(DecodeError::InvalidTermination { unit: bytes[count - 1] as u16 })
        } else if !valid_utf8(bytes.subrange(0, count - 1)) {
            Err(DecodeError::InvalidEncoding)
        } else {
            Ok((decode_utf8(bytes.subrange(0, count - 1)), count as int))
        }
    }
}

/// The number of units that `text` takes up in the given width, its
/// terminator left out.
pub fn text_units(wide: bool, text: &str) -> (n: usize)
    ensures
        n + 1 == unit_count(wide, text@),
{
    if wide {
        utf16_units(text).len()
    } else {
        text.as_bytes().len()
    }
}

/// Appends `text` and its terminator to `out`, in the given width.
pub fn write_text(out: &mut Vec<u8>, wide: bool, text: &str)
    ensures
        final(out)@ == old(out)@ + encoded_text(wide, text@),
{
    if wide {
        let mut units = utf16_units(text);
        units.push(0);
        assert(views(units@) =~= utf16_encoded(text@) + seq![0u16]);
        write_array::<u16>(out, units.as_slice());
    } else {
        append(out, text.as_bytes());
        out.push(0);
        assert(out@ =~= old(out)@ + encoded_text(wide, text@));
    }
}

/// Decodes a terminated text of `count` units in the given width from the
/// front of `buf`.
pub fn read_text(buf: &[u8], wide: bool, count: u32) -> (r: Result<(String, usize), DecodeError>)
    ensures
        match r {
            Ok((text, used)) => decoded_text(buf@, wide, count as nat) == Ok::<
                (Seq<char>, int),
                DecodeError,
            >((text@, used as int)) && used <= buf@.len(),
            Err(e) => decoded_text(buf@, wide, count as nat) == Err::<(Seq<char>, int), DecodeError>(
                e,
            ),
        },
{
    if count == 0 {
        return Err(DecodeError::InconsistentLength { expected: 1, found: 0 });
    }
    if wide {
        let (units, used) = read_array::<u16>(count, buf)?;
        proof {
            assert(views(units@) =~= units@);
            lemma_decoded_array_len::<u16>(buf@, count as nat);
        }
        let last = units[units.len() - 1];
        if last != 0 {
            return Err(DecodeError::InvalidTermination { unit: last });
        }
        let body = slice_subrange(units.as_slice(), 0, units.len() - 1);
        assert(body@ =~= units@.drop_last());
        match string_from_utf16(body) {
            Some(text) => Ok((text, used)),
            None => Err(DecodeError::InvalidEncoding),
        }
    } else {
        let n = count as usize;
        if buf.len() < n {
            return Err(DecodeError::UnexpectedEnd);
        }
        let last = buf[n - 1];
        if last != 0 {
            return Err(DecodeError::InvalidTermination { unit: last as u16 });
        }
        let body = slice_to_vec(slice_subrange(buf, 0, n - 1));
        match string_from_utf8(body) {
            Some(text) => Ok((text, n)),
            None => Err(DecodeError::InvalidEncoding),
        }
    }
}

/// The bytes of a terminated text, read in its width and with its number of
/// units, give the text back.
pub proof fn lemma_text_roundtrip(wide: bool, text: Seq<char>, rest: Seq<u8>)
    ensures
        decoded_text(encoded_text(wide, text) + rest, wide, unit_count(wide, text) as nat) == Ok::<
            (Seq<char>, int),
            DecodeError,
        >((text, encoded_text(wide, text).len() as int)),
{
    if wide {
        let units = utf16_encoded(text) + seq![0u16];
        lemma_array_roundtrip::<u16>(units, rest);
        assert(units.drop_last() =~= utf16_encoded(text));
        lemma_utf16_roundtrip(text);
    } else {
        let body = encode_utf8(text);
        let bytes = (body + seq![0u8]) + rest;
        assert(bytes.subrange(0, body.len() as int) =~= body);
        vstd::utf8::encode_utf8_valid_utf8(text);
        vstd::utf8::encode_utf8_decode_utf8(text);
    }
}

/// Every 16-bit unit takes up two bytes.
pub proof fn lemma_encoded_units_len(units: Seq<u16>)
    ensures
        encoded_array::<u16>(units).len() == 2 * units.len(),
    decreases units.len(),
{
    if units.len() > 0 {
        lemma_encoded_units_len(units.drop_last());
    }
}

/// A terminated text takes up one byte for each of its units in the narrow
/// width, and two in the wide one.
pub proof fn lemma_encoded_text_len(wide: bool, text: Seq<char>)
    ensures
        encoded_text(wide, text).len() == (if wide {
            2int
        } else {
            1int
        }) * unit_count(wide, text),
{
    if wide {
        lemma_encoded_units_len(utf16_encoded(text) + seq![0u16]);
    }
}

/// A cut through a terminated text and what follows it: where the cut falls
/// within the text, the text is rejected for having ended too soon; where
/// it falls behind the text, the text is decoded and what is left is what
/// followed it, cut.
pub proof fn lemma_text_cut(wide: bool, text: Seq<char>, tail: Seq<u8>, k: int)
    requires
        0 <= k <= encoded_text(wide, text).len() + tail.len(),
    ensures
        k < encoded_text(wide, text).len() ==> decoded_text(
            (encoded_text(wide, text) + tail).take(k),
            wide,
            unit_count(wide, text) as nat,
        ) == Err::<(Seq<char>, int), DecodeError>(DecodeError::UnexpectedEnd),
        k >= encoded_text(wide, text).len() ==> decoded_text(
            (encoded_text(wide, text) + tail).take(k),
            wide,
            unit_count(wide, text) as nat,
        ) == Ok::<(Seq<char>, int), DecodeError>((text, encoded_text(wide, text).len() as int))
            && (encoded_text(wide, text) + tail).take(k).skip(
            encoded_text(wide, text).len() as int,
        ) == tail.take(k - encoded_text(wide, text).len()),
{
    let head = encoded_text(wide, text);
    lemma_encoded_text_len(wide, text);
    if k < head.len() {
        if wide {
            lemma_array_cut::<u16>(utf16_encoded(text) + seq![0u16], tail, k);
        }
    } else {
        let left = tail.take(k - head.len());
        assert((head + tail).take(k) =~= head + left);
        lemma_text_roundtrip(wide, text, left);
        lemma_skip_prefix(head, left);
    }
}

} // verus!
