//! The table of names: hashes, packed headers and the names themselves, each
//! laid out as its header says.

use vstd::prelude::*;
use vstd::slice::slice_subrange;
use crate::error::DecodeError;
use crate::read::{
    after,
    decoded_array,
    lemma_array_cut,
    lemma_array_roundtrip,
    lemma_concat_6,
    lemma_cut,
    lemma_skip_more,
    lemma_skip_prefix,
    read_array,
    Decoded,
    Framed,
    Readable,
};
use crate::serialized_name_header::SerializedNameHeader;
use crate::text::{
    decoded_text,
    encoded_text,
    lemma_text_cut,
    lemma_text_roundtrip,
    read_text,
    text_units,
    unit_count,
    write_text,
};
use crate::wire::{
    decoded_u32,
    decoded_u64,
    le_u32,
    lemma_u32_roundtrip,
    lemma_u64_roundtrip,
    read_u32,
    read_u64,
    u32_le_bytes,
    u64_le_bytes,
    write_u32,
    write_u64,
};
use crate::write::{all_valid, encoded_array, views, write_array, Writable};

verus! {

/// A batch of names. The three sequences run in parallel: one hash, one
/// header and one name for each entry.
#[derive(Debug, PartialEq, Eq, Clone)]
pub struct NamesBatch {
    /// The identifier of the hash algorithm, passed through as it is.
    pub hash_version: u64,
    /// The hash of each name, passed through as it is.
    pub hashes: Vec<u64>,
    pub headers: Vec<SerializedNameHeader>,
    pub strings: Vec<String>,
}

/// What a batch of names holds.
pub struct NamesBatchView {
    pub hash_version: u64,
    pub hashes: Seq<u64>,
    pub headers: Seq<SerializedNameHeader>,
    pub strings: Seq<Seq<char>>,
}

impl View for NamesBatch {
    type V = NamesBatchView;

    open spec fn view(&self) -> NamesBatchView {
        NamesBatchView {
            hash_version: self.hash_version,
            hashes: self.hashes@,
            headers: self.headers@,
            strings: views(self.strings@),
        }
    }
}

/// The bytes of the names, each in the width of its header.
pub open spec fn encoded_names(
    headers: Seq<SerializedNameHeader>,
    strings: Seq<Seq<char>>,
) -> Seq<u8>
    decreases headers.len(),
{
    if headers.len() == 0 || strings.len() == 0 {
        Seq::empty()
    } else {
        encoded_text(headers[0].is_utf16, strings[0]) + encoded_names(
            headers.drop_first(),
            strings.drop_first(),
        )
    }
}

/// The number of bytes that the headers account for.
pub open spec fn total_bytes(headers: Seq<SerializedNameHeader>) -> int
    decreases headers.len(),
{
    if headers.len() == 0 {
        0
    } else {
        headers[0].spec_n_bytes() + total_bytes(headers.drop_first())
    }
}

/// Whether each header is one of the format and gives the width and length
/// of its name.
pub open spec fn headers_fit(
    headers: Seq<SerializedNameHeader>,
    strings: Seq<Seq<char>>,
) -> bool {
    &&& headers.len() == strings.len()
    &&& forall|i: int|
        0 <= i < headers.len() ==> SerializedNameHeader::valid(#[trigger] headers[i]) && headers[i].len
            == unit_count(headers[i].is_utf16, strings[i])
}

/// `n`, or the largest 32-bit value where `n` is over it.
pub open spec fn saturated(n: int) -> u32 {
    if n > u32::MAX {
        u32::MAX
    } else {
        n as u32
    }
}

/// What the front of `bytes` stands for as the names under `headers`, when
/// the headers before them have accounted for `running` of the `expected`
/// bytes. A header of length zero is rejected; so is a name that would take
/// the account over `expected`, and an account that ends short of it.
pub open spec fn decoded_names(
    bytes: Seq<u8>,
    headers: Seq<SerializedNameHeader>,
    expected: u32,
    running: int,
) -> Decoded<Seq<Seq<char>>>
    decreases headers.len(),
{
    if headers.len() == 0 {
        if running != expected {
            Err(DecodeError::InconsistentLength { expected, found: saturated(running) })
        } else {
            Ok((Seq::empty(), 0))
        }
    } else {
        let header = headers[0];
        if header.len == 0 {
            Err(DecodeError::InconsistentLength { expected: 1, found: 0 })
        } else if running + header.spec_n_bytes() > expected {
            Err(
                DecodeError::InconsistentLength {
                    expected,
                    found: saturated(running + header.spec_n_bytes()),
                },
            )
        } else {
            match decoded_text(bytes, header.is_utf16, header.len as nat) {
                Ok((text, used)) => after(
                    seq![text],
                    used,
                    decoded_names(
                        bytes.skip(used),
                        headers.drop_first(),
                        expected,
                        running + header.spec_n_bytes(),
                    ),
                ),
                Err(e) => Err(e),
            }
        }
    }
}

/// Decodes the names under `headers` from the front of `buf`, and holds
/// their bytes against the `expected` total.
fn read_names(buf: &[u8], headers: &Vec<SerializedNameHeader>, expected: u32) -> (r: Result<
    (Vec<String>, usize),
    DecodeError,
>)
    ensures
        match r {
            Ok((strings, used)) => decoded_names(buf@, headers@, expected, 0) == Ok::<
                (Seq<Seq<char>>, int),
                DecodeError,
            >((views(strings@), used as int)) && used <= buf@.len(),
            Err(e) => decoded_names(buf@, headers@, expected, 0) == Err::<
                (Seq<Seq<char>>, int),
                DecodeError,
            >(e),
        },
{
    let mut strings: Vec<String> = Vec::new();
    let mut pos: usize = 0;
    let mut running: u32 = 0;
    let mut i: usize = 0;
    proof {
        assert(buf@.skip(0) =~= buf@);
        assert(headers@.skip(0) =~= headers@);
        let whole = decoded_names(buf@, headers@, expected, 0);
        assert(after(views(strings@), 0, whole) == whole) by {
            if let Ok((more, n)) = whole {
                assert(views(strings@) + more =~= more);
            }
        }
    }
    while i < headers.len()
        invariant
            i <= headers@.len(),
            pos <= buf@.len(),
            running <= expected,
            decoded_names(buf@, headers@, expected, 0) == after(
                views(strings@),
                pos as int,
                decoded_names(buf@.skip(pos as int), headers@.skip(i as int), expected, running as int),
            ),
        decreases headers@.len() - i,
    {
        let header = headers[i];
        let ghost before = views(strings@);
        proof {
            assert(headers@.skip(i as int)[0] == header);
            assert(headers@.skip(i as int).drop_first() =~= headers@.skip(i + 1));
        }
        if header.len == 0 {
            return Err(DecodeError::InconsistentLength { expected: 1, found: 0 });
        }
        let total: u64 = running as u64 + header.n_bytes() as u64;
        if total > expected as u64 {
            let found: u32 = if total > u32::MAX as u64 {
                u32::MAX
            } else {
                total as u32
            };
            return Err(DecodeError::InconsistentLength { expected, found });
        }
        let rest = slice_subrange(buf, pos, buf.len());
        match read_text(rest, header.is_utf16, header.len as u32) {
            Ok((text, used)) => {
                proof {
                    let tail = decoded_names(
                        buf@.skip(pos as int).skip(used as int),
                        headers@.skip(i + 1),
                        expected,
                        total as int,
                    );
                    assert(buf@.skip(pos as int).skip(used as int) =~= buf@.skip(pos + used));
                    assert(views(strings@.push(text)) =~= before + seq![text@]);
                    assert(after(before, pos as int, after(seq![text@], used as int, tail))
                        == after(before + seq![text@], pos + used, tail)) by {
                        if let Ok((more, n)) = tail {
                            assert(before + (seq![text@] + more) =~= (before + seq![text@]) + more);
                        }
                    }
                }
                strings.push(text);
                pos = pos + used;
                running = total as u32;
                i = i + 1;
            },
            Err(e) => {
                return Err(e);
            },
        }
    }
    proof {
        assert(headers@.skip(i as int) =~= Seq::<SerializedNameHeader>::empty());
        assert(views(strings@) + Seq::<Seq<char>>::empty() =~= views(strings@));
    }
    if running != expected {
        return Err(DecodeError::InconsistentLength { expected, found: running });
    }
    Ok((strings, pos))
}

/// Tests whether each header gives the width and length of its name, and
/// whether the bytes that the headers account for fit a 32-bit total.
fn names_are_valid(headers: &Vec<SerializedNameHeader>, strings: &Vec<String>) -> (ok: bool)
    requires
        headers@.len() == strings@.len(),
    ensures
        ok == (headers_fit(headers@, views(strings@)) && total_bytes(headers@) <= u32::MAX),
{
    let mut total: u64 = 0;
    let mut i: usize = 0;
    assert(headers@.skip(0) =~= headers@);
    while i < headers.len()
        invariant
            i <= headers@.len(),
            headers@.len() == strings@.len(),
            total <= u32::MAX,
            total + total_bytes(headers@.skip(i as int)) == total_bytes(headers@),
            forall|j: int|
                0 <= j < i ==> SerializedNameHeader::valid(#[trigger] headers@[j]) && headers@[j].len
                    == unit_count(headers@[j].is_utf16, views(strings@)[j]),
        decreases headers@.len() - i,
    {
        let header = headers[i];
        proof {
            assert(headers@.skip(i as int)[0] == header);
            assert(headers@.skip(i as int).drop_first() =~= headers@.skip(i + 1));
            lemma_total_bytes_positive(headers@.skip(i + 1));
        }
        let units: usize = text_units(header.is_utf16, strings[i].as_str());
        assert(units + 1 == unit_count(header.is_utf16, views(strings@)[i as int]));
        if !header.is_valid() || header.len == 0 || units != (header.len - 1) as usize {
            assert(!(SerializedNameHeader::valid(headers@[i as int]) && headers@[i as int].len
                == unit_count(headers@[i as int].is_utf16, views(strings@)[i as int])));
            return false;
        }
        total = total + header.n_bytes() as u64;
        if total > u32::MAX as u64 {
            return false;
        }
        i = i + 1;
    }
    assert(headers@.skip(i as int) =~= Seq::<SerializedNameHeader>::empty());
    true
}

/// Appends the names to `out`, each in the width of its header.
fn write_names(out: &mut Vec<u8>, headers: &Vec<SerializedNameHeader>, strings: &Vec<String>)
    requires
        headers@.len() == strings@.len(),
    ensures
        final(out)@ == old(out)@ + encoded_names(headers@, views(strings@)),
{
    let ghost texts = views(strings@);
    let mut i: usize = 0;
    assert(headers@.skip(0) =~= headers@);
    assert(texts.skip(0) =~= texts);
    while i < headers.len()
        invariant
            i <= headers@.len(),
            headers@.len() == strings@.len(),
            texts == views(strings@),
            out@ + encoded_names(headers@.skip(i as int), texts.skip(i as int)) == old(out)@
                + encoded_names(headers@, texts),
        decreases headers@.len() - i,
    {
        let ghost before = out@;
        let ghost here = encoded_text(headers@[i as int].is_utf16, texts[i as int]);
        let ghost later = encoded_names(headers@.skip(i + 1), texts.skip(i + 1));
        proof {
            assert(headers@.skip(i as int)[0] == headers@[i as int]);
            assert(texts.skip(i as int)[0] == texts[i as int]);
            assert(headers@.skip(i as int).drop_first() =~= headers@.skip(i + 1));
            assert(texts.skip(i as int).drop_first() =~= texts.skip(i + 1));
        }
        write_text(out, headers[i].is_utf16, strings[i].as_str());
        assert(out@ == before + here);
        assert((before + here) + later =~= before + (here + later));
        i = i + 1;
    }
    assert(headers@.skip(i as int) =~= Seq::<SerializedNameHeader>::empty());
    assert(out@ + Seq::<u8>::empty() =~= out@);
}

impl Writable for NamesBatch {
    /// The three sequences are of one length, which fits a 32-bit count; each
    /// header gives the width and the length of its name; and the bytes that
    /// the headers account for fit a 32-bit total.
    open spec fn valid(v: NamesBatchView) -> bool {
        &&& v.hashes.len() == v.headers.len()
        &&& v.headers.len() <= u32::MAX
        &&& headers_fit(v.headers, v.strings)
        &&& total_bytes(v.headers) <= u32::MAX
    }

    open spec fn encoded(v: NamesBatchView) -> Seq<u8> {
        u32_le_bytes(v.headers.len() as u32) + u32_le_bytes(total_bytes(v.headers) as u32)
            + u64_le_bytes(v.hash_version) + encoded_array::<u64>(v.hashes) + encoded_array::<
            SerializedNameHeader,
        >(v.headers) + encoded_names(v.headers, v.strings)
    }

    fn is_valid(&self) -> (ok: bool) {
        if self.hashes.len() != self.headers.len() || self.headers.len() != self.strings.len() {
            return false;
        }
        if self.headers.len() > u32::MAX as usize {
            return false;
        }
        names_are_valid(&self.headers, &self.strings)
    }

    fn write(&self, out: &mut Vec<u8>) {
        let mut string_bytes: u32 = 0;
        let mut i: usize = 0;
        assert(self.headers@.skip(0) =~= self.headers@);
        while i < self.headers.len()
            invariant
                i <= self.headers@.len(),
                total_bytes(self.headers@) <= u32::MAX,
                string_bytes + total_bytes(self.headers@.skip(i as int)) == total_bytes(
                    self.headers@,
                ),
            decreases self.headers@.len() - i,
        {
            proof {
                assert(self.headers@.skip(i as int)[0] == self.headers@[i as int]);
                assert(self.headers@.skip(i as int).drop_first() =~= self.headers@.skip(i + 1));
                lemma_total_bytes_positive(self.headers@.skip(i + 1));
            }
            string_bytes = string_bytes + self.headers[i].n_bytes();
            i = i + 1;
        }
        assert(self.headers@.skip(i as int) =~= Seq::<SerializedNameHeader>::empty());
        write_u32(out, self.headers.len() as u32);
        write_u32(out, string_bytes);
        write_u64(out, self.hash_version);
        assert(views(self.hashes@) =~= self.hashes@);
        write_array::<u64>(out, self.hashes.as_slice());
        assert(views(self.headers@) =~= self.headers@);
        assert(all_valid::<SerializedNameHeader>(self.headers@));
        write_array::<SerializedNameHeader>(out, self.headers.as_slice());
        write_names(out, &self.headers, &self.strings);
    }
}

impl Readable for NamesBatch {
    open spec fn decoded(bytes: Seq<u8>) -> Decoded<NamesBatchView> {
        match decoded_u32(bytes) {
            Ok((count, _)) => match decoded_u32(bytes.skip(4)) {
                Ok((expected, _)) => match decoded_u64(bytes.skip(8)) {
                    Ok((hash_version, _)) => match decoded_array::<u64>(
                        bytes.skip(16),
                        count as nat,
                    ) {
                        Ok((hashes, n1)) => match decoded_array::<SerializedNameHeader>(
                            bytes.skip(16 + n1),
                            count as nat,
                        ) {
                            Ok((headers, n2)) => match decoded_names(
                                bytes.skip(16 + n1 + n2),
                                headers,
                                expected,
                                0,
                            ) {
                                Ok((strings, n3)) => Ok(
                                    (
                                        NamesBatchView { hash_version, hashes, headers, strings },
                                        16 + n1 + n2 + n3,
                                    ),
                                ),
                                Err(e) => Err(e),
                            },
                            Err(e) => Err(e),
                        },
                        Err(e) => Err(e),
                    },
                    Err(e) => Err(e),
                },
                Err(e) => Err(e),
            },
            Err(e) => Err(e),
        }
    }

    fn read(buf: &[u8]) -> (r: Result<(NamesBatch, usize), DecodeError>) {
        let (count, _) = read_u32(buf)?;
        let (expected_string_bytes, _) = read_u32(slice_subrange(buf, 4, buf.len()))?;
        let (hash_version, _) = read_u64(slice_subrange(buf, 8, buf.len()))?;
        let (hashes, n1) = read_array::<u64>(count, slice_subrange(buf, 16, buf.len()))?;
        let (headers, n2) = read_array::<SerializedNameHeader>(
            count,
            slice_subrange(buf, 16 + n1, buf.len()),
        )?;
        assert(views(hashes@) =~= hashes@);
        assert(views(headers@) =~= headers@);
        let (strings, n3) = read_names(
            slice_subrange(buf, 16 + n1 + n2, buf.len()),
            &headers,
            expected_string_bytes,
        )?;
        Ok((NamesBatch { hash_version, hashes, headers, strings }, 16 + n1 + n2 + n3))
    }

    proof fn lemma_roundtrip(v: NamesBatchView, rest: Seq<u8>) {
        let count = v.headers.len() as u32;
        let total = total_bytes(v.headers) as u32;
        lemma_total_bytes_positive(v.headers);
        let e6 = encoded_names(v.headers, v.strings);
        let e5 = encoded_array::<SerializedNameHeader>(v.headers);
        let e4 = encoded_array::<u64>(v.hashes);
        let t6 = e6 + rest;
        let t5 = e5 + t6;
        let t4 = e4 + t5;
        let t3 = u64_le_bytes(v.hash_version) + t4;
        let t2 = u32_le_bytes(total) + t3;
        let whole = u32_le_bytes(count) + t2;
        lemma_batch_layout(v, rest);
        lemma_u32_roundtrip(count, t2);
        lemma_u32_roundtrip(total, t3);
        lemma_u64_roundtrip(v.hash_version, t4);
        lemma_array_roundtrip::<u64>(v.hashes, t5);
        lemma_array_roundtrip::<SerializedNameHeader>(v.headers, t6);
        lemma_names_roundtrip(v.headers, v.strings, total, 0, rest);
        assert(whole.skip(4) == t2) by {
            lemma_skip_prefix(u32_le_bytes(count), t2);
        }
        assert(whole.skip(8) == t3) by {
            lemma_skip_prefix(u32_le_bytes(total), t3);
            lemma_skip_more(whole, 4, 4);
        }
        assert(whole.skip(16) == t4) by {
            lemma_skip_prefix(u64_le_bytes(v.hash_version), t4);
            lemma_skip_more(whole, 8, 8);
        }
        assert(whole.skip(16 + e4.len() as int) == t5) by {
            lemma_skip_prefix(e4, t5);
            lemma_skip_more(whole, 16, e4.len() as int);
        }
        assert(whole.skip(16 + e4.len() as int + e5.len() as int) == t6) by {
            lemma_skip_prefix(e5, t6);
            lemma_skip_more(whole, 16 + e4.len() as int, e5.len() as int);
        }
        assert(Self::encoded(v).len() == 16 + e4.len() + e5.len() + e6.len());
    }
}

/// The encoding of a batch, with what follows it, part by part.
proof fn lemma_batch_layout(v: NamesBatchView, rest: Seq<u8>)
    ensures
        NamesBatch::encoded(v) + rest == u32_le_bytes(v.headers.len() as u32) + (u32_le_bytes(
            total_bytes(v.headers) as u32,
        ) + (u64_le_bytes(v.hash_version) + (encoded_array::<u64>(v.hashes) + (encoded_array::<
            SerializedNameHeader,
        >(v.headers) + (encoded_names(v.headers, v.strings) + rest))))),
{
    assert(NamesBatch::encoded(v) + rest =~= u32_le_bytes(v.headers.len() as u32) + (u32_le_bytes(
        total_bytes(v.headers) as u32,
    ) + (u64_le_bytes(v.hash_version) + (encoded_array::<u64>(v.hashes) + (encoded_array::<
        SerializedNameHeader,
    >(v.headers) + (encoded_names(v.headers, v.strings) + rest))))));
}

/// The headers account for no fewer than zero bytes.
pub proof fn lemma_total_bytes_positive(headers: Seq<SerializedNameHeader>)
    ensures
        total_bytes(headers) >= 0,
    decreases headers.len(),
{
    if headers.len() > 0 {
        lemma_total_bytes_positive(headers.drop_first());
    }
}

/// The bytes of the names of a batch, read under their headers and held
/// against the total that the headers account for, give the names back.
pub proof fn lemma_names_roundtrip(
    headers: Seq<SerializedNameHeader>,
    strings: Seq<Seq<char>>,
    expected: u32,
    running: int,
    rest: Seq<u8>,
)
    requires
        headers_fit(headers, strings),
        running >= 0,
        running + total_bytes(headers) == expected,
    ensures
        decoded_names(encoded_names(headers, strings) + rest, headers, expected, running) == Ok::<
            (Seq<Seq<char>>, int),
            DecodeError,
        >((strings, encoded_names(headers, strings).len() as int)),
    decreases headers.len(),
{
    if headers.len() == 0 {
        assert(strings =~= Seq::<Seq<char>>::empty());
    } else {
        let header = headers[0];
        let text = strings[0];
        let head = encoded_text(header.is_utf16, text);
        let tail = encoded_names(headers.drop_first(), strings.drop_first());
        lemma_total_bytes_positive(headers.drop_first());
        assert(SerializedNameHeader::valid(header) && header.len == unit_count(
            header.is_utf16,
            text,
        ));
        assert(headers_fit(headers.drop_first(), strings.drop_first())) by {
            assert forall|i: int| 0 <= i < headers.drop_first().len() implies SerializedNameHeader::valid(
                #[trigger] headers.drop_first()[i],
            ) && headers.drop_first()[i].len == unit_count(
                headers.drop_first()[i].is_utf16,
                strings.drop_first()[i],
            ) by {
                assert(headers.drop_first()[i] == headers[i + 1]);
                assert(strings.drop_first()[i] == strings[i + 1]);
            }
        }
        assert((head + tail) + rest =~= head + (tail + rest));
        lemma_text_roundtrip(header.is_utf16, text, tail + rest);
        assert((head + (tail + rest)).skip(head.len() as int) =~= tail + rest);
        lemma_names_roundtrip(
            headers.drop_first(),
            strings.drop_first(),
            expected,
            running + header.spec_n_bytes(),
            rest,
        );
        assert(seq![text] + strings.drop_first() =~= strings);
    }
}

/// The names of a batch are only decoded where the bytes that their headers
/// account for, added to the `running` account, are exactly the `expected`
/// total.
pub proof fn lemma_names_account(
    bytes: Seq<u8>,
    headers: Seq<SerializedNameHeader>,
    expected: u32,
    running: int,
)
    ensures
        decoded_names(bytes, headers, expected, running) is Ok ==> running + total_bytes(headers)
            == expected,
    decreases headers.len(),
{
    if headers.len() > 0 {
        let header = headers[0];
        if let Ok((text, used)) = decoded_text(bytes, header.is_utf16, header.len as nat) {
            lemma_names_account(
                bytes.skip(used),
                headers.drop_first(),
                expected,
                running + header.spec_n_bytes(),
            );
        }
    }
}

/// The total of name bytes that the front of `bytes` declares as a batch:
/// its second 32-bit word.
pub open spec fn declared_string_bytes(bytes: Seq<u8>) -> u32 {
    le_u32(bytes.skip(4))
}

/// A batch is only decoded where the bytes that its headers account for are
/// exactly the total that the batch declares, one byte more or less is
/// rejected; and only where no header is of length zero.
pub proof fn lemma_byte_accounting(bytes: Seq<u8>)
    ensures
        NamesBatch::decoded(bytes) matches Ok((v, _)) ==> total_bytes(v.headers)
            == declared_string_bytes(bytes) && forall|i: int|
            0 <= i < v.headers.len() ==> (#[trigger] v.headers[i]).len != 0,
{
    if let Ok((v, _)) = NamesBatch::decoded(bytes) {
        let count = decoded_u32(bytes)->Ok_0.0;
        let expected = decoded_u32(bytes.skip(4))->Ok_0.0;
        let n1 = decoded_array::<u64>(bytes.skip(16), count as nat)->Ok_0.1;
        let n2 = decoded_array::<SerializedNameHeader>(bytes.skip(16 + n1), count as nat)->Ok_0.1;
        lemma_names_account(bytes.skip(16 + n1 + n2), v.headers, expected, 0);
        lemma_names_nonempty(bytes.skip(16 + n1 + n2), v.headers, expected, 0);
    }
}

/// The names of a batch are only decoded where no header is of length zero.
pub proof fn lemma_names_nonempty(
    bytes: Seq<u8>,
    headers: Seq<SerializedNameHeader>,
    expected: u32,
    running: int,
)
    ensures
        decoded_names(bytes, headers, expected, running) is Ok ==> forall|i: int|
            0 <= i < headers.len() ==> (#[trigger] headers[i]).len != 0,
    decreases headers.len(),
{
    if headers.len() > 0 {
        let header = headers[0];
        if let Ok((text, used)) = decoded_text(bytes, header.is_utf16, header.len as nat) {
            lemma_names_nonempty(
                bytes.skip(used),
                headers.drop_first(),
                expected,
                running + header.spec_n_bytes(),
            );
            if decoded_names(bytes, headers, expected, running) is Ok {
                assert forall|i: int| 0 <= i < headers.len() implies (#[trigger] headers[i]).len
                    != 0 by {
                    if i > 0 {
                        assert(headers[i] == headers.drop_first()[i - 1]);
                    }
                }
            }
        }
    }
}

/// The bytes of the names of a batch, cut short, are rejected for having
/// ended too soon.
pub proof fn lemma_names_truncated(
    headers: Seq<SerializedNameHeader>,
    strings: Seq<Seq<char>>,
    expected: u32,
    running: int,
    k: int,
)
    requires
        headers_fit(headers, strings),
        running >= 0,
        running + total_bytes(headers) == expected,
        0 <= k < encoded_names(headers, strings).len(),
    ensures
        decoded_names(encoded_names(headers, strings).take(k), headers, expected, running) == Err::<
            (Seq<Seq<char>>, int),
            DecodeError,
        >(DecodeError::UnexpectedEnd),
    decreases headers.len(),
{
    if headers.len() > 0 {
        let header = headers[0];
        let text = strings[0];
        let head = encoded_text(header.is_utf16, text);
        let tail = encoded_names(headers.drop_first(), strings.drop_first());
        lemma_total_bytes_positive(headers.drop_first());
        assert(SerializedNameHeader::valid(header) && header.len == unit_count(
            header.is_utf16,
            text,
        ));
        assert(headers_fit(headers.drop_first(), strings.drop_first())) by {
            assert forall|i: int| 0 <= i < headers.drop_first().len() implies SerializedNameHeader::valid(
                #[trigger] headers.drop_first()[i],
            ) && headers.drop_first()[i].len == unit_count(
                headers.drop_first()[i].is_utf16,
                strings.drop_first()[i],
            ) by {
                assert(headers.drop_first()[i] == headers[i + 1]);
                assert(strings.drop_first()[i] == strings[i + 1]);
            }
        }
        lemma_text_cut(header.is_utf16, text, tail, k);
        if k >= head.len() {
            lemma_names_truncated(
                headers.drop_first(),
                strings.drop_first(),
                expected,
                running + header.spec_n_bytes(),
                k - head.len(),
            );
        }
    }
}

impl Framed for NamesBatch {
    proof fn lemma_truncated(v: NamesBatchView, k: int) {
        let count = v.headers.len() as u32;
        let total = total_bytes(v.headers) as u32;
        lemma_total_bytes_positive(v.headers);
        let e0 = u32_le_bytes(count);
        let e1 = u32_le_bytes(total);
        let e2 = u64_le_bytes(v.hash_version);
        let e4 = encoded_array::<u64>(v.hashes);
        let e5 = encoded_array::<SerializedNameHeader>(v.headers);
        let e6 = encoded_names(v.headers, v.strings);
        let t5 = e5 + e6;
        let t4 = e4 + t5;
        let t3 = e2 + t4;
        let t2 = e1 + t3;
        let whole = e0 + t2;
        let cut = whole.take(k);
        let n1 = e4.len() as int;
        let n2 = e5.len() as int;
        lemma_concat_6(e0, e1, e2, e4, e5, e6);
        lemma_cut::<u32>(count, t2, k);
        if k >= 4 {
            lemma_cut::<u32>(total, t3, k - 4);
            if k >= 8 {
                assert(cut.skip(8) == t3.take(k - 8)) by {
                    lemma_skip_more(cut, 4, 4);
                }
                lemma_cut::<u64>(v.hash_version, t4, k - 8);
                if k >= 16 {
                    assert(cut.skip(16) == t4.take(k - 16)) by {
                        lemma_skip_more(cut, 8, 8);
                    }
                    lemma_array_cut::<u64>(v.hashes, t5, k - 16);
                    if k >= 16 + n1 {
                        assert(cut.skip(16 + n1) == t5.take(k - 16 - n1)) by {
                            lemma_skip_more(cut, 16, n1);
                        }
                        lemma_array_cut::<SerializedNameHeader>(v.headers, e6, k - 16 - n1);
                        if k >= 16 + n1 + n2 {
                            assert(cut.skip(16 + n1 + n2) == e6.take(k - 16 - n1 - n2)) by {
                                lemma_skip_more(cut, 16 + n1, n2);
                            }
                            lemma_names_truncated(
                                v.headers,
                                v.strings,
                                total,
                                0,
                                k - 16 - n1 - n2,
                            );
                        }
                    }
                }
            }
        }
    }
}

} // verus!
