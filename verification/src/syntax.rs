//! The contract shared by every codec: the error vocabulary, the `Encode` and
//! `Decode` traits, and the codecs of the fixed-width scalars.

use vstd::prelude::*;
use vstd::seq_lib::lemma_seq_skip_nothing;
use vstd::slice::{slice_subrange, slice_to_vec};
use crate::big_endian::{be_bytes, be_value, get_be, lemma_be_value_bound, lemma_be_value_of_bytes,
    lemma_be_bytes_len, lemma_pow256_values, put_be};

verus! {

/// Why a value could not be written or read.
#[derive(Debug, Eq, PartialEq, Clone)]
pub enum Error {
    /// The value has no representation on the wire.
    EncodingError(String),
    /// The bytes read break a structural rule of the format.
    DecodingError(String),
    /// The source ended before the expected number of bytes could be read.
    EndOfStream,
}

/// The mathematical content of an [`Error`]: its kind and the text it carries.
pub enum Fault {
    Encoding(Seq<char>),
    Decoding(Seq<char>),
    EndOfStream,
}

impl View for Error {
    type V = Fault;

    open spec fn view(&self) -> Fault {
        match self {
            Error::EncodingError(text) => Fault::Encoding(text@),
            Error::DecodingError(text) => Fault::Decoding(text@),
            Error::EndOfStream => Fault::EndOfStream,
        }
    }
}

/// What a call of `encode` owes, given what the value's encoding is.
///
/// Where the value has an encoding, its bytes are appended to the sink and
/// their number is returned. Where it has none, the sink is left as it was
/// and the fault is returned.
pub open spec fn encode_outcome(
    expected: Result<Seq<u8>, Fault>,
    before: Seq<u8>,
    after: Seq<u8>,
    r: Result<usize, Error>,
) -> bool {
    match expected {
        Ok(bytes) => r is Ok && r->Ok_0 as nat == bytes.len() && after == before + bytes,
        Err(fault) => r is Err && r->Err_0@ == fault && after == before,
    }
}

/// What decoding an input yields: the value that the input starts with and
/// the number of bytes that hold it, or the fault and the number of bytes
/// that were read when it was found.
pub type Decoding<V> = Result<(V, nat), (Fault, nat)>;

/// The input starts with `value`, held in `used` bytes.
pub open spec fn decoded<V>(value: V, used: nat) -> Decoding<V> {
    Ok((value, used))
}

/// The input ended inside a value. Nothing counts as read, so that the same
/// read can be tried again when more bytes have arrived.
pub open spec fn end_of_stream<V>() -> Decoding<V> {
    Err((Fault::EndOfStream, 0))
}

/// The bytes break a rule of the format: `text` says which, and `read`
/// bytes had been read when that was found.
pub open spec fn malformed<V>(text: Seq<char>, read: nat) -> Decoding<V> {
    Err((Fault::Decoding(text), read))
}

/// The failure of a whole value when one of its parts fails after `read`
/// bytes of the value had been read. An end of stream stays at no bytes
/// read; any other fault adds the bytes read before the part.
pub open spec fn fail_after<V>(read: nat, failure: (Fault, nat)) -> Decoding<V> {
    if failure.0 is EndOfStream {
        end_of_stream()
    } else {
        Err((failure.0, read + failure.1))
    }
}

/// What a call of `decode` owes, given what the input decodes to.
///
/// Where the input starts with a value, that value is returned and the bytes
/// that hold it are consumed. Otherwise the fault is returned and the source
/// stands behind the bytes that were read to find it: where it was for an
/// end of stream, further on for a decoding error.
pub open spec fn decode_outcome<T: View>(
    expected: Decoding<T::V>,
    before: Seq<u8>,
    after: Seq<u8>,
    r: Result<T, Error>,
) -> bool {
    match expected {
        Ok((value, used)) => r is Ok && r->Ok_0@ == value && used <= before.len() && after
            == before.skip(used as int),
        Err((fault, read)) => r is Err && r->Err_0@ == fault && read <= before.len() && after
            == before.skip(read as int),
    }
}

/// Puts one encoding behind another; the first fault wins.
pub open spec fn chain(
    first: Result<Seq<u8>, Fault>,
    second: Result<Seq<u8>, Fault>,
) -> Result<Seq<u8>, Fault> {
    match first {
        Err(fault) => Err(fault),
        Ok(head) => match second {
            Err(fault) => Err(fault),
            Ok(tail) => Ok(head + tail),
        },
    }
}

/// What reading exactly `n` raw bytes from `input` yields.
pub open spec fn bytes_decoding(input: Seq<u8>, n: nat) -> Decoding<Seq<u8>> {
    if input.len() < n {
        end_of_stream()
    } else {
        decoded(input.take(n as int), n)
    }
}

/// Raw bytes are read from the front alone: an input cut off inside the `n`
/// bytes is an end of stream, one cut off behind them yields the same bytes.
pub proof fn lemma_bytes_decoding_of_prefix(input: Seq<u8>, n: nat, k: int)
    requires
        bytes_decoding(input, n) is Ok,
        0 <= k <= input.len(),
    ensures
        k < n ==> bytes_decoding(input.take(k), n) == end_of_stream::<Seq<u8>>(),
        k >= n ==> bytes_decoding(input.take(k), n) == bytes_decoding(input, n),
{
    if k >= n {
        assert(input.take(k).take(n as int) =~= input.take(n as int));
    }
}

/// Cutting an input off at `k` and skipping `a` bytes is skipping `a` bytes
/// and cutting off at `k - a`.
pub proof fn lemma_take_skip(input: Seq<u8>, k: int, a: int)
    requires
        0 <= a <= k <= input.len(),
    ensures
        input.take(k).skip(a) == input.skip(a).take(k - a),
{
    assert(input.take(k).skip(a) =~= input.skip(a).take(k - a));
}

/// Appends all of `bytes` to `writer`.
pub fn put_bytes(writer: &mut Vec<u8>, bytes: &[u8])
    ensures
        final(writer)@ == old(writer)@ + bytes@,
{
    writer.extend_from_slice(bytes);
    assert(writer@ =~= old(writer)@ + bytes@);
}

/// Reads exactly `n` bytes from the front of `reader`, or none at all when
/// fewer are left.
pub fn take_bytes(reader: &mut &[u8], n: usize) -> (r: Result<Vec<u8>, Error>)
    ensures
        decode_outcome::<Vec<u8>>(
            bytes_decoding(old(reader)@, n as nat),
            old(reader)@,
            final(reader)@,
            r,
        ),
{
    broadcast use lemma_seq_skip_nothing;

    let buf: &[u8] = *reader;
    if buf.len() < n {
        return Err(Error::EndOfStream);
    }
    let bytes = slice_to_vec(slice_subrange(buf, 0, n));
    *reader = slice_subrange(buf, n, buf.len());
    assert(reader@ =~= old(reader)@.skip(n as int));
    assert(bytes@ =~= old(reader)@.take(n as int));
    Ok(bytes)
}

/// Ends a decoder on the error `e`, found with `cursor` still to read. An
/// end of stream leaves `reader` where it was; any other error leaves it at
/// `cursor`, behind the bytes that were read.
pub fn stop_at<'a>(reader: &mut &'a [u8], cursor: &'a [u8], e: Error) -> (r: Error)
    ensures
        r == e,
        final(reader)@ == (if e is EndOfStream {
            old(reader)@
        } else {
            cursor@
        }),
{
    match &e {
        Error::EndOfStream => {},
        _ => {
            *reader = cursor;
        },
    }
    e
}

/// A value that can be written to the wire.
pub trait Encode {
    /// The bytes that stand for this value on the wire, or the reason why
    /// there are none.
    spec fn encoding(&self) -> Result<Seq<u8>, Fault>;

    /// Appends the value's encoding to `writer` and returns its length.
    /// Nothing is written when the value has no encoding.
    fn encode(&self, writer: &mut Vec<u8>) -> (r: Result<usize, Error>)
        ensures
            encode_outcome(self.encoding(), old(writer)@, final(writer)@, r),
    ;
}

/// A value that can be read from the wire.
pub trait Decode: Sized + View {
    /// The value that `input` starts with and the number of bytes that hold
    /// it, or the reason why `input` does not start with one and the number
    /// of bytes read to find that out.
    spec fn decoding(input: Seq<u8>) -> Decoding<Self::V>;

    /// A decoder looks only at the bytes that hold the value. Where `input`
    /// starts with a value, an input cut off inside that value is an end of
    /// stream, and an input cut off anywhere behind it decodes as `input`
    /// does.
    proof fn lemma_decoding_of_prefix(input: Seq<u8>, k: int)
        requires
            Self::decoding(input) is Ok,
            0 <= k <= input.len(),
        ensures
            Self::decoding(input)->Ok_0.1 <= input.len(),
            k < Self::decoding(input)->Ok_0.1 ==> Self::decoding(input.take(k))
                == end_of_stream::<Self::V>(),
            k >= Self::decoding(input)->Ok_0.1 ==> Self::decoding(input.take(k))
                == Self::decoding(input),
    ;

    /// Reads one value from the front of `reader` and moves `reader` past
    /// it. An end of stream leaves `reader` where it was; a decoding error
    /// leaves it behind the bytes that were read to find the error.
    fn decode(reader: &mut &[u8]) -> (r: Result<Self, Error>)
        ensures
            decode_outcome(Self::decoding(old(reader)@), old(reader)@, final(reader)@, r),
    ;
}

/// Encodes `field` behind what was written to `writer` from position
/// `start` on. Where `field` has no encoding, `writer` is cut back to
/// `start`, so that a message is written whole or not at all.
pub fn append_field<T: Encode>(field: &T, writer: &mut Vec<u8>, start: usize) -> (r: Result<
    usize,
    Error,
>)
    ensures
        match field.encoding() {
            Ok(bytes) => r is Ok && r->Ok_0 as nat == bytes.len() && final(writer)@ == old(
                writer,
            )@ + bytes,
            Err(fault) => r is Err && r->Err_0@ == fault && final(writer)@ == if start <= old(
                writer,
            )@.len() {
                old(writer)@.take(start as int)
            } else {
                old(writer)@
            },
        },
{
    match field.encode(writer) {
        Ok(n) => Ok(n),
        Err(e) => {
            writer.truncate(start);
            assert(start <= old(writer)@.len() ==> writer@ =~= old(writer)@.take(start as int));
            Err(e)
        },
    }
}

impl Encode for u8 {
    open spec fn encoding(&self) -> Result<Seq<u8>, Fault> {
        Ok(seq![*self])
    }

    fn encode(&self, writer: &mut Vec<u8>) -> (r: Result<usize, Error>) {
        writer.push(*self);
        assert(writer@ =~= old(writer)@ + seq![*self]);
        Ok(1)
    }
}

impl Encode for u16 {
    open spec fn encoding(&self) -> Result<Seq<u8>, Fault> {
        Ok(be_bytes(*self as nat, 2))
    }

    fn encode(&self, writer: &mut Vec<u8>) -> (r: Result<usize, Error>) {
        put_be(writer, *self as u64, 2);
        proof {
            lemma_be_bytes_len(*self as nat, 2);
        }
        Ok(2)
    }
}

impl Decode for u8 {
    open spec fn decoding(input: Seq<u8>) -> Decoding<u8> {
        if input.len() < 1 {
            end_of_stream()
        } else {
            decoded(input[0], 1)
        }
    }

    proof fn lemma_decoding_of_prefix(input: Seq<u8>, k: int) {
    }

    fn decode(reader: &mut &[u8]) -> (r: Result<Self, Error>) {
        broadcast use lemma_seq_skip_nothing;

        let buf: &[u8] = *reader;
        if buf.len() < 1 {
            return Err(Error::EndOfStream);
        }
        let value: u8 = buf[0];
        *reader = slice_subrange(buf, 1, buf.len());
        assert(reader@ =~= old(reader)@.skip(1));
        Ok(value)
    }
}

impl Decode for u16 {
    open spec fn decoding(input: Seq<u8>) -> Decoding<u16> {
        if input.len() < 2 {
            end_of_stream()
        } else {
            decoded(be_value(input.take(2)) as u16, 2)
        }
    }

    proof fn lemma_decoding_of_prefix(input: Seq<u8>, k: int) {
        if k >= 2 {
            assert(input.take(k).take(2) =~= input.take(2));
        }
    }

    fn decode(reader: &mut &[u8]) -> (r: Result<Self, Error>) {
        broadcast use lemma_seq_skip_nothing;

        let buf: &[u8] = *reader;
        if buf.len() < 2 {
            return Err(Error::EndOfStream);
        }
        let value: u64 = get_be(buf, 2);
        proof {
            lemma_be_value_bound(buf@.take(2));
            lemma_pow256_values();
        }
        *reader = slice_subrange(buf, 2, buf.len());
        assert(reader@ =~= old(reader)@.skip(2));
        Ok(value as u16)
    }
}

/// A 16-bit number that was written is read back, whatever follows it.
pub proof fn lemma_u16_round_trip(x: u16, rest: Seq<u8>)
    ensures
        x.encoding() is Ok,
        u16::decoding(x.encoding()->Ok_0 + rest) == decoded(x, 2),
{
    let bytes = be_bytes(x as nat, 2);
    lemma_be_bytes_len(x as nat, 2);
    lemma_pow256_values();
    lemma_be_value_of_bytes(x as nat, 2);
    assert((bytes + rest).take(2) =~= bytes);
}

/// A byte that was written is read back, whatever follows it.
pub proof fn lemma_u8_round_trip(x: u8, rest: Seq<u8>)
    ensures
        x.encoding() is Ok,
        u8::decoding(x.encoding()->Ok_0 + rest) == decoded(x, 1),
{
}

} // verus!
