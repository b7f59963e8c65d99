//! Reason phrases: a UTF-8 string whose byte length travels in front of it as
//! a variable-length integer.

use vstd::prelude::*;
use vstd::seq_lib::{lemma_seq_skip_nothing, lemma_seq_skip_of_skip};
use vstd::utf8::{decode_utf8, encode_utf8, encode_utf8_decode_utf8, encode_utf8_valid_utf8,
    valid_utf8};
use crate::quic_varint::{lemma_varint_round_trip, too_big_text, varint_bytes, varint_decoding,
    varint_len, QUICVarint, VARINT_MAX};
use crate::syntax::{bytes_decoding, decoded, fail_after, lemma_bytes_decoding_of_prefix,
    lemma_take_skip, malformed, put_bytes, stop_at, take_bytes, Decode, Decoding, Encode, Error,
    Fault};

verus! {

/// The text of the fault for a reason phrase whose bytes are not UTF-8.
pub open spec fn invalid_utf8_text() -> Seq<char> {
    "Reason phrase is not valid UTF-8"@
}

/// What encoding a reason phrase yields: the length of its UTF-8 bytes as a
/// variable-length integer, then the bytes.
pub open spec fn reason_encoding(reason: Seq<char>) -> Result<Seq<u8>, Fault> {
    let bytes = encode_utf8(reason);
    if bytes.len() <= VARINT_MAX {
        Ok(varint_bytes(bytes.len() as u64) + bytes)
    } else {
        Err(Fault::Encoding(too_big_text()))
    }
}

/// What decoding a reason phrase from `input` yields. Bytes that are not
/// UTF-8 are a decoding error found with the length and the bytes read.
pub open spec fn reason_decoding(input: Seq<u8>) -> Decoding<Seq<char>> {
    match varint_decoding(input) {
        Err(failure) => Err(failure),
        Ok((len, used)) => match bytes_decoding(input.skip(used as int), len as nat) {
            Err(failure) => fail_after(used, failure),
            Ok((bytes, more)) => if valid_utf8(bytes) {
                decoded(decode_utf8(bytes), used + more)
            } else {
                malformed(invalid_utf8_text(), used + more)
            },
        },
    }
}

/// `String::from_utf8` of the standard library, with its error dropped.
/// Trusted: the call returns a string exactly when the bytes are well-formed
/// UTF-8, and the string then holds the characters that the bytes spell.
#[verifier::external_body]
fn string_from_utf8(bytes: Vec<u8>) -> (r: Option<String>)
    ensures
        r is Some <==> valid_utf8(bytes@),
        r is Some ==> r->Some_0@ == decode_utf8(bytes@),
{
    match String::from_utf8(bytes) {
        Ok(text) => Some(text),
        Err(_) => None,
    }
}

impl Encode for String {
    open spec fn encoding(&self) -> Result<Seq<u8>, Fault> {
        reason_encoding(self@)
    }

    /// Writes the byte length of the phrase and its bytes.
    fn encode(&self, writer: &mut Vec<u8>) -> (r: Result<usize, Error>) {
        let bytes: &[u8] = self.as_str().as_bytes();
        let len: usize = bytes.len();
        let prefix = QUICVarint(len as u64);
        let enc_len: usize = prefix.encode(writer)?;
        put_bytes(writer, bytes);
        assert(writer@ =~= old(writer)@ + (varint_bytes(len as u64) + bytes@));
        assert(enc_len + len <= writer.len());
        Ok(enc_len + len)
    }
}

impl Decode for String {
    open spec fn decoding(input: Seq<u8>) -> Decoding<Seq<char>> {
        reason_decoding(input)
    }

    proof fn lemma_decoding_of_prefix(input: Seq<u8>, k: int) {
        let (len, used) = varint_decoding(input)->Ok_0;
        QUICVarint::lemma_decoding_of_prefix(input, k);
        if k >= used {
            lemma_take_skip(input, k, used as int);
            lemma_bytes_decoding_of_prefix(input.skip(used as int), len as nat, k - used);
        }
    }

    /// Reads a length, then that many bytes, and checks that they are UTF-8.
    fn decode(reader: &mut &[u8]) -> (r: Result<Self, Error>) {
        broadcast use {lemma_seq_skip_nothing, lemma_seq_skip_of_skip};

        let mut cursor: &[u8] = *reader;
        let len: QUICVarint = match QUICVarint::decode(&mut cursor) {
            Ok(len) => len,
            Err(e) => {
                return Err(stop_at(reader, cursor, e));
            },
        };
        if len.0 > cursor.len() as u64 {
            return Err(Error::EndOfStream);
        }
        let bytes: Vec<u8> = match take_bytes(&mut cursor, len.0 as usize) {
            Ok(bytes) => bytes,
            Err(e) => {
                return Err(stop_at(reader, cursor, e));
            },
        };
        *reader = cursor;
        match string_from_utf8(bytes) {
            Some(text) => Ok(text),
            None => Err(Error::DecodingError("Reason phrase is not valid UTF-8".to_owned())),
        }
    }
}

/// A reason phrase that was written is read back, whatever follows it.
pub proof fn lemma_reason_round_trip(reason: Seq<char>, rest: Seq<u8>)
    requires
        encode_utf8(reason).len() <= VARINT_MAX,
    ensures
        reason_encoding(reason) is Ok,
        reason_decoding(reason_encoding(reason)->Ok_0 + rest) == decoded(
            reason,
            reason_encoding(reason)->Ok_0.len(),
        ),
{
    let bytes = encode_utf8(reason);
    let len = bytes.len() as u64;
    let prefix = varint_bytes(len);
    let input = (prefix + bytes) + rest;
    lemma_varint_round_trip(len, bytes + rest);
    assert(input =~= prefix + (bytes + rest));
    assert(input.skip(varint_len(len) as int) =~= bytes + rest);
    assert((bytes + rest).take(bytes.len() as int) =~= bytes);
    encode_utf8_valid_utf8(reason);
    encode_utf8_decode_utf8(reason);
}

/// Bytes that are not UTF-8 are never turned into a reason phrase: behind a
/// length that announces them, they are a decoding error, found with the
/// length and the bytes read.
pub proof fn lemma_invalid_utf8_is_decoding_error(bytes: Seq<u8>, rest: Seq<u8>)
    requires
        bytes.len() <= VARINT_MAX,
        !valid_utf8(bytes),
    ensures
        reason_decoding(varint_bytes(bytes.len() as u64) + bytes + rest) == malformed::<Seq<char>>(
            invalid_utf8_text(),
            varint_len(bytes.len() as u64) + bytes.len(),
        ),
{
    let len = bytes.len() as u64;
    let prefix = varint_bytes(len);
    let input = prefix + bytes + rest;
    lemma_varint_round_trip(len, bytes + rest);
    assert(input =~= prefix + (bytes + rest));
    assert(input.skip(varint_len(len) as int) =~= bytes + rest);
    assert((bytes + rest).take(bytes.len() as int) =~= bytes);
}

} // verus!
