//! Variable-length integers: an unsigned number below `2^62` in 1, 2, 4 or 8
//! bytes. The two high bits of the first byte tell the length; the other bits
//! of the encoding hold the number, most significant byte first.

use vstd::prelude::*;
use vstd::seq_lib::lemma_seq_skip_nothing;
use vstd::slice::slice_subrange;
use crate::big_endian::{be_bytes, be_value, get_be, lemma_be_bytes_first, lemma_be_bytes_len,
    lemma_be_value_of_bytes, lemma_pow256_values, pow256, put_be};
use crate::syntax::{decoded, end_of_stream, Decode, Decoding, Encode, Error, Fault};

verus! {

/// The largest number that has an encoding: `2^62 - 1`.
pub const VARINT_MAX: u64 = 0x3fff_ffff_ffff_ffff;

/// A variable-length integer.
#[derive(Debug, Clone, PartialEq)]
pub struct QUICVarint(pub u64);

impl View for QUICVarint {
    type V = u64;

    open spec fn view(&self) -> u64 {
        self.0
    }
}

/// The four lengths, in bytes, that an encoding can have.
pub open spec fn is_varint_len(n: nat) -> bool {
    n == 1 || n == 2 || n == 4 || n == 8
}

/// The two-bit tag that announces an encoding of `n` bytes.
pub open spec fn len_tag(n: nat) -> nat {
    if n == 1 {
        0
    } else if n == 2 {
        1
    } else if n == 4 {
        2
    } else {
        3
    }
}

/// The number of values that fit an encoding of `n` bytes: `2^(8n - 2)`.
pub open spec fn capacity(n: nat) -> nat {
    if n == 1 {
        0x40
    } else if n == 2 {
        0x4000
    } else if n == 4 {
        0x4000_0000
    } else {
        0x4000_0000_0000_0000
    }
}

/// The length tag of an `n`-byte encoding, placed in the two highest of its
/// `8n` bits.
pub open spec fn tag_bits(n: nat) -> nat {
    if n == 1 {
        0
    } else if n == 2 {
        0x4000
    } else if n == 4 {
        0x8000_0000
    } else {
        0xc000_0000_0000_0000
    }
}

/// The length of the shortest encoding that holds `value`.
pub open spec fn varint_len(value: u64) -> nat {
    if value <= 0x3f {
        1
    } else if value <= 0x3fff {
        2
    } else if value <= 0x3fff_ffff {
        4
    } else {
        8
    }
}

/// The number that an encoding of `value` in `n` bytes spells out: the
/// length tag in the two high bits and `value` in the bits below.
pub open spec fn tagged(value: u64, n: nat) -> nat {
    (tag_bits(n) + value) as nat
}

/// The encoding of `value` in `n` bytes.
pub open spec fn varint_bytes_in(value: u64, n: nat) -> Seq<u8> {
    be_bytes(tagged(value, n), n)
}

/// The shortest encoding of `value`.
pub open spec fn varint_bytes(value: u64) -> Seq<u8> {
    varint_bytes_in(value, varint_len(value))
}

/// The text of the fault for a number that is too large to encode.
pub open spec fn too_big_text() -> Seq<char> {
    "Integer value too big"@
}

/// The length that a first byte announces.
pub open spec fn announced_len(first: u8) -> nat {
    if first / 64 == 0 {
        1
    } else if first / 64 == 1 {
        2
    } else if first / 64 == 2 {
        4
    } else {
        8
    }
}

/// What encoding a variable-length integer yields.
pub open spec fn varint_encoding(value: u64) -> Result<Seq<u8>, Fault> {
    if value <= VARINT_MAX {
        Ok(varint_bytes(value))
    } else {
        Err(Fault::Encoding(too_big_text()))
    }
}

/// What decoding a variable-length integer from `input` yields. Any of the
/// four lengths is accepted for any number it can hold.
pub open spec fn varint_decoding(input: Seq<u8>) -> Decoding<u64> {
    if input.len() < 1 {
        end_of_stream()
    } else {
        let n = announced_len(input[0]);
        if input.len() < n {
            end_of_stream()
        } else {
            decoded((be_value(input.take(n as int)) % capacity(n)) as u64, n)
        }
    }
}

/// The number of bytes that the encoding of `value` takes, or an encoding
/// error when `value` exceeds [`VARINT_MAX`].
pub fn compute_encode_length(value: u64) -> (r: Result<usize, Error>)
    ensures
        value <= VARINT_MAX ==> r is Ok && r->Ok_0 as nat == varint_len(value),
        value > VARINT_MAX ==> r is Err && r->Err_0@ == Fault::Encoding(too_big_text()),
{
    if value <= 0x3f {
        Ok(1)
    } else if value <= 0x3fff {
        Ok(2)
    } else if value <= 0x3fff_ffff {
        Ok(4)
    } else if value <= VARINT_MAX {
        Ok(8)
    } else {
        Err(Error::EncodingError("Integer value too big".to_owned()))
    }
}

impl Encode for QUICVarint {
    open spec fn encoding(&self) -> Result<Seq<u8>, Fault> {
        varint_encoding(self.0)
    }

    fn encode(&self, writer: &mut Vec<u8>) -> (r: Result<usize, Error>) {
        let num_bytes: usize = match compute_encode_length(self.0) {
            Ok(n) => n,
            Err(e) => {
                return Err(e);
            },
        };
        proof {
            lemma_pow256_values();
            lemma_be_bytes_len(tagged(self.0, num_bytes as nat), num_bytes as nat);
        }
        let header: u64 = if num_bytes == 1 {
            0
        } else if num_bytes == 2 {
            0x4000
        } else if num_bytes == 4 {
            0x8000_0000
        } else {
            0xc000_0000_0000_0000
        };
        put_be(writer, header + self.0, num_bytes);
        Ok(num_bytes)
    }
}

impl Decode for QUICVarint {
    open spec fn decoding(input: Seq<u8>) -> Decoding<u64> {
        varint_decoding(input)
    }

    proof fn lemma_decoding_of_prefix(input: Seq<u8>, k: int) {
        let n = announced_len(input[0]);
        if k >= n {
            assert(input.take(k).take(n as int) =~= input.take(n as int));
        }
    }

    fn decode(reader: &mut &[u8]) -> (r: Result<Self, Error>) {
        broadcast use lemma_seq_skip_nothing;

        let buf: &[u8] = *reader;
        if buf.len() < 1 {
            return Err(Error::EndOfStream);
        }
        let header: u8 = buf[0] / 64;
        let num_bytes: usize = if header == 0 {
            1
        } else if header == 1 {
            2
        } else if header == 2 {
            4
        } else {
            8
        };
        if buf.len() < num_bytes {
            return Err(Error::EndOfStream);
        }
        let raw: u64 = get_be(buf, num_bytes);
        let modulus: u64 = if num_bytes == 1 {
            0x40
        } else if num_bytes == 2 {
            0x4000
        } else if num_bytes == 4 {
            0x4000_0000
        } else {
            0x4000_0000_0000_0000
        };
        proof {
            lemma_pow256_values();
        }
        let value: u64 = raw % modulus;
        *reader = slice_subrange(buf, num_bytes, buf.len());
        assert(reader@ =~= old(reader)@.skip(num_bytes as int));
        Ok(QUICVarint(value))
    }
}

/// An `n`-byte encoding has `8n - 2` bits for the number, and its tag is the
/// number of the length class moved above them.
pub proof fn lemma_tag_layout(n: nat)
    requires
        is_varint_len(n),
    ensures
        capacity(n) == 64 * pow256((n - 1) as nat),
        tag_bits(n) == len_tag(n) * capacity(n),
        tag_bits(n) + capacity(n) <= pow256(n),
        len_tag(n) < 4,
{
    lemma_pow256_values();
}

/// The encoding of `value` takes the least of the four lengths that can hold
/// it, and a number above [`VARINT_MAX`] fits none of them.
pub proof fn lemma_varint_len_minimal(value: u64)
    ensures
        is_varint_len(varint_len(value)),
        value <= VARINT_MAX ==> value < capacity(varint_len(value)),
        forall|n: nat| is_varint_len(n) && value < capacity(n) ==> varint_len(value) <= n,
        value > VARINT_MAX ==> varint_encoding(value) is Err && forall|n: nat|
            is_varint_len(n) ==> value >= capacity(n),
{
    lemma_pow256_values();
}

/// A number written in any length that can hold it is read back as the same
/// number, with exactly the bytes of its encoding consumed.
pub proof fn lemma_varint_any_len_decodes(value: u64, n: nat, rest: Seq<u8>)
    requires
        is_varint_len(n),
        value < capacity(n),
    ensures
        varint_bytes_in(value, n).len() == n,
        varint_decoding(varint_bytes_in(value, n) + rest) == decoded(value, n),
{
    let t = tagged(value, n);
    let bytes = varint_bytes_in(value, n);
    let input = bytes + rest;
    lemma_pow256_values();
    lemma_be_bytes_first(t, n);
    assert(bytes[0] as nat / 64 == len_tag(n)) by {
        if n == 2 {
            assert(64 <= t / 0x100 < 128) by (nonlinear_arith)
                requires
                    0x4000 <= t < 0x8000,
            ;
        } else if n == 4 {
            assert(128 <= t / 0x100_0000 < 192) by (nonlinear_arith)
                requires
                    0x8000_0000 <= t < 0xc000_0000,
            ;
        } else if n == 8 {
            assert(192 <= t / 0x100_0000_0000_0000 < 256) by (nonlinear_arith)
                requires
                    0xc000_0000_0000_0000 <= t < 0x1_0000_0000_0000_0000,
            ;
        }
    }
    lemma_be_value_of_bytes(t, n);
    assert(input.take(n as int) =~= bytes);
    assert(input[0] == bytes[0]);
    assert(announced_len(input[0]) == n);
    assert(t % capacity(n) == value);
}

/// Decoding undoes encoding: every number up to [`VARINT_MAX`] has an
/// encoding, and that encoding, whatever follows it, decodes to the number.
pub proof fn lemma_varint_round_trip(value: u64, rest: Seq<u8>)
    requires
        value <= VARINT_MAX,
    ensures
        varint_encoding(value) == Ok::<Seq<u8>, Fault>(varint_bytes(value)),
        varint_bytes(value).len() == varint_len(value),
        varint_decoding(varint_bytes(value) + rest) == decoded(value, varint_len(value)),
{
    lemma_varint_len_minimal(value);
    lemma_varint_any_len_decodes(value, varint_len(value), rest);
}

/// Whatever is decoded lies in the range that can be encoded.
pub proof fn lemma_varint_decoded_in_range(input: Seq<u8>)
    requires
        varint_decoding(input) is Ok,
    ensures
        varint_decoding(input)->Ok_0.0 <= VARINT_MAX,
        is_varint_len(varint_decoding(input)->Ok_0.1),
        varint_decoding(input)->Ok_0.1 <= input.len(),
{
    lemma_pow256_values();
}

} // verus!
