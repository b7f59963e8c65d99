//! Opaque names: a track namespace and a full track name. On the wire a name
//! is one length byte followed by that many raw bytes, so a name has between
//! 1 and 255 bytes.

use vstd::prelude::*;
use vstd::seq_lib::{lemma_seq_skip_nothing, lemma_seq_skip_of_skip};
use crate::syntax::{bytes_decoding, decoded, end_of_stream, fail_after,
    lemma_bytes_decoding_of_prefix, lemma_take_skip, malformed, put_bytes, stop_at, take_bytes,
    Decode, Decoding, Encode, Error, Fault};

verus! {

/// The longest name that the one-byte length prefix can announce.
pub const MAX_NAME_LEN: usize = 255;

/// What encoding a name yields. `out_of_range` is the text of the fault for
/// a name that is empty or longer than [`MAX_NAME_LEN`].
pub open spec fn name_encoding(name: Seq<u8>, out_of_range: Seq<char>) -> Result<Seq<u8>, Fault> {
    if 1 <= name.len() <= MAX_NAME_LEN {
        Ok(seq![name.len() as u8] + name)
    } else {
        Err(Fault::Encoding(out_of_range))
    }
}

/// What decoding a name from `input` yields. `zero_length` is the text of
/// the fault for a length byte of zero, which is found with that one byte
/// read.
pub open spec fn name_decoding(input: Seq<u8>, zero_length: Seq<char>) -> Decoding<Seq<u8>> {
    if input.len() < 1 {
        end_of_stream()
    } else if input[0] == 0 {
        malformed(zero_length, 1)
    } else {
        match bytes_decoding(input.skip(1), input[0] as nat) {
            Ok((name, used)) => decoded(name, 1 + used),
            Err(failure) => fail_after(1, failure),
        }
    }
}

/// A name is read from the front alone: an input cut off inside the name is
/// an end of stream, one cut off behind it yields the same name.
pub proof fn lemma_name_decoding_of_prefix(input: Seq<u8>, zero_length: Seq<char>, k: int)
    requires
        name_decoding(input, zero_length) is Ok,
        0 <= k <= input.len(),
    ensures
        name_decoding(input, zero_length)->Ok_0.1 <= input.len(),
        k < name_decoding(input, zero_length)->Ok_0.1 ==> name_decoding(
            input.take(k),
            zero_length,
        ) == end_of_stream::<Seq<u8>>(),
        k >= name_decoding(input, zero_length)->Ok_0.1 ==> name_decoding(
            input.take(k),
            zero_length,
        ) == name_decoding(input, zero_length),
{
    if k >= 1 {
        lemma_take_skip(input, k, 1);
        lemma_bytes_decoding_of_prefix(input.skip(1), input[0] as nat, k - 1);
    }
}

/// Writes the length byte and the bytes of `name`.
pub fn encode_name(name: &Vec<u8>, writer: &mut Vec<u8>, out_of_range: &str) -> (r: Result<
    usize,
    Error,
>)
    ensures
        crate::syntax::encode_outcome(
            name_encoding(name@, out_of_range@),
            old(writer)@,
            final(writer)@,
            r,
        ),
{
    let len: usize = name.len();
    if len < 1 || len > MAX_NAME_LEN {
        return Err(Error::EncodingError(out_of_range.to_owned()));
    }
    let prefix: u8 = len as u8;
    let enc_len: usize = match prefix.encode(writer) {
        Ok(n) => n,
        Err(e) => {
            return Err(e);
        },
    };
    put_bytes(writer, name.as_slice());
    assert(writer@ =~= old(writer)@ + (seq![prefix] + name@));
    Ok(len + enc_len)
}

/// Reads a length byte and the name that it announces.
pub fn decode_name(reader: &mut &[u8], zero_length: &str) -> (r: Result<Vec<u8>, Error>)
    ensures
        crate::syntax::decode_outcome::<Vec<u8>>(
            name_decoding(old(reader)@, zero_length@),
            old(reader)@,
            final(reader)@,
            r,
        ),
{
    broadcast use {lemma_seq_skip_nothing, lemma_seq_skip_of_skip};

    let mut cursor: &[u8] = *reader;
    let len: u8 = match u8::decode(&mut cursor) {
        Ok(len) => len,
        Err(e) => {
            return Err(stop_at(reader, cursor, e));
        },
    };
    if len == 0 {
        return Err(stop_at(reader, cursor, Error::DecodingError(zero_length.to_owned())));
    }
    let bytes: Vec<u8> = match take_bytes(&mut cursor, len as usize) {
        Ok(bytes) => bytes,
        Err(e) => {
            return Err(stop_at(reader, cursor, e));
        },
    };
    *reader = cursor;
    Ok(bytes)
}

/// The namespace under which tracks are announced.
#[derive(Debug, Clone, PartialEq)]
pub struct TrackNamespace(pub Vec<u8>);

impl View for TrackNamespace {
    type V = Seq<u8>;

    open spec fn view(&self) -> Seq<u8> {
        self.0@
    }
}

impl Encode for TrackNamespace {
    open spec fn encoding(&self) -> Result<Seq<u8>, Fault> {
        name_encoding(self.0@, "TrackNamespace length out of range"@)
    }

    fn encode(&self, writer: &mut Vec<u8>) -> (r: Result<usize, Error>) {
        encode_name(&self.0, writer, "TrackNamespace length out of range")
    }
}

impl Decode for TrackNamespace {
    open spec fn decoding(input: Seq<u8>) -> Decoding<Seq<u8>> {
        name_decoding(input, "TrackNamespace of zero length"@)
    }

    proof fn lemma_decoding_of_prefix(input: Seq<u8>, k: int) {
        lemma_name_decoding_of_prefix(input, "TrackNamespace of zero length"@, k);
    }

    fn decode(reader: &mut &[u8]) -> (r: Result<Self, Error>) {
        match decode_name(reader, "TrackNamespace of zero length") {
            Ok(bytes) => Ok(TrackNamespace(bytes)),
            Err(e) => Err(e),
        }
    }
}

/// The name that identifies one track within its namespace.
#[derive(Debug, Clone, PartialEq)]
pub struct FullTrackName(pub Vec<u8>);

impl View for FullTrackName {
    type V = Seq<u8>;

    open spec fn view(&self) -> Seq<u8> {
        self.0@
    }
}

impl Encode for FullTrackName {
    open spec fn encoding(&self) -> Result<Seq<u8>, Fault> {
        name_encoding(self.0@, "FullTrackName length out of range"@)
    }

    fn encode(&self, writer: &mut Vec<u8>) -> (r: Result<usize, Error>) {
        encode_name(&self.0, writer, "FullTrackName length out of range")
    }
}

impl Decode for FullTrackName {
    open spec fn decoding(input: Seq<u8>) -> Decoding<Seq<u8>> {
        name_decoding(input, "FullTrackName of zero length"@)
    }

    proof fn lemma_decoding_of_prefix(input: Seq<u8>, k: int) {
        lemma_name_decoding_of_prefix(input, "FullTrackName of zero length"@, k);
    }

    fn decode(reader: &mut &[u8]) -> (r: Result<Self, Error>) {
        match decode_name(reader, "FullTrackName of zero length") {
            Ok(bytes) => Ok(FullTrackName(bytes)),
            Err(e) => Err(e),
        }
    }
}

/// A name of 1 to 255 bytes has an encoding, one byte longer than the name,
/// and that encoding, whatever follows it, decodes to the name.
pub proof fn lemma_name_round_trip(
    name: Seq<u8>,
    out_of_range: Seq<char>,
    zero_length: Seq<char>,
    rest: Seq<u8>,
)
    requires
        1 <= name.len() <= MAX_NAME_LEN,
    ensures
        name_encoding(name, out_of_range) is Ok,
        name_encoding(name, out_of_range)->Ok_0.len() == 1 + name.len(),
        name_decoding(name_encoding(name, out_of_range)->Ok_0 + rest, zero_length) == decoded(
            name,
            1 + name.len(),
        ),
{
    let bytes = seq![name.len() as u8] + name;
    let input = bytes + rest;
    assert(input[0] == name.len() as u8);
    assert(input.skip(1).take(name.len() as int) =~= name);
}

/// An empty name and a name of more than 255 bytes have no encoding, and a
/// length byte of zero is a decoding error found with that byte read.
pub proof fn lemma_name_length_limits(
    name: Seq<u8>,
    out_of_range: Seq<char>,
    zero_length: Seq<char>,
    input: Seq<u8>,
)
    ensures
        name.len() == 0 || name.len() > MAX_NAME_LEN ==> name_encoding(name, out_of_range) == Err::<
            Seq<u8>,
            Fault,
        >(Fault::Encoding(out_of_range)),
        input.len() >= 1 && input[0] == 0 ==> name_decoding(input, zero_length) == malformed::<
            Seq<u8>,
        >(zero_length, 1),
{
}

/// An input that ends before the announced number of name bytes is an end
/// of stream, never a decoding error.
pub proof fn lemma_truncated_name_is_end_of_stream(input: Seq<u8>, zero_length: Seq<char>)
    requires
        input.len() == 0 || (input[0] != 0 && input.len() < 1 + input[0]),
    ensures
        name_decoding(input, zero_length) == end_of_stream::<Seq<u8>>(),
{
}

/// A namespace that was written is read back, whatever follows it.
pub proof fn lemma_track_namespace_round_trip(name: TrackNamespace, rest: Seq<u8>)
    requires
        1 <= name@.len() <= MAX_NAME_LEN,
    ensures
        name.encoding() is Ok,
        TrackNamespace::decoding(name.encoding()->Ok_0 + rest) == decoded(name@, 1 + name@.len()),
{
    lemma_name_round_trip(
        name@,
        "TrackNamespace length out of range"@,
        "TrackNamespace of zero length"@,
        rest,
    );
}

/// A full track name that was written is read back, whatever follows it.
pub proof fn lemma_full_track_name_round_trip(name: FullTrackName, rest: Seq<u8>)
    requires
        1 <= name@.len() <= MAX_NAME_LEN,
    ensures
        name.encoding() is Ok,
        FullTrackName::decoding(name.encoding()->Ok_0 + rest) == decoded(name@, 1 + name@.len()),
{
    lemma_name_round_trip(
        name@,
        "FullTrackName length out of range"@,
        "FullTrackName of zero length"@,
        rest,
    );
}

} // verus!
