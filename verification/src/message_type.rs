//! The kinds of control message and the one-byte tag that opens each of them
//! on the wire.
//!
//! Every kind has a tag of its own, so the first byte of a message tells its
//! kind. The subscribe family takes `0x3`, `0x4`, `0x5` and `0xa`, next to
//! the announce family at `0x6` to `0x9`. A peer that opens all subscribe
//! messages with one shared tag is not understood by these decoders.

use vstd::prelude::*;
use vstd::seq_lib::lemma_seq_skip_nothing;
use vstd::string::StringExecFns;
use crate::syntax::{decoded, end_of_stream, malformed, stop_at, Decode, Decoding, Error};

verus! {

/// A kind of control message.
#[derive(Debug, Clone, Copy, PartialEq, Eq)]
pub enum MessageType {
    Subscribe,
    SubscribeOk,
    SubscribeError,
    Announce,
    AnnounceOk,
    AnnounceError,
    /// Reserved: the tag is assigned, the message has no layout.
    Unannounce,
    Unsubscribe,
}

impl MessageType {
    /// The tag of this kind.
    pub open spec fn spec_tag(self) -> u8 {
        match self {
            MessageType::Subscribe => 0x3,
            MessageType::SubscribeOk => 0x4,
            MessageType::SubscribeError => 0x5,
            MessageType::Announce => 0x6,
            MessageType::AnnounceOk => 0x7,
            MessageType::AnnounceError => 0x8,
            MessageType::Unannounce => 0x9,
            MessageType::Unsubscribe => 0xa,
        }
    }

    /// The kind that `tag` stands for, if any.
    pub open spec fn spec_from_tag(tag: u8) -> Option<MessageType> {
        if tag == 0x3 {
            Some(MessageType::Subscribe)
        } else if tag == 0x4 {
            Some(MessageType::SubscribeOk)
        } else if tag == 0x5 {
            Some(MessageType::SubscribeError)
        } else if tag == 0x6 {
            Some(MessageType::Announce)
        } else if tag == 0x7 {
            Some(MessageType::AnnounceOk)
        } else if tag == 0x8 {
            Some(MessageType::AnnounceError)
        } else if tag == 0x9 {
            Some(MessageType::Unannounce)
        } else if tag == 0xa {
            Some(MessageType::Unsubscribe)
        } else {
            None
        }
    }

    /// The name of this kind as it appears in the text of a fault.
    pub open spec fn spec_name(self) -> Seq<char> {
        match self {
            MessageType::Subscribe => "subscribe"@,
            MessageType::SubscribeOk => "subscribe ok"@,
            MessageType::SubscribeError => "subscribe error"@,
            MessageType::Announce => "announce"@,
            MessageType::AnnounceOk => "announce ok"@,
            MessageType::AnnounceError => "announce error"@,
            MessageType::Unannounce => "unannounce"@,
            MessageType::Unsubscribe => "unsubscribe"@,
        }
    }

    /// The tag of this kind.
    pub fn tag(self) -> (t: u8)
        ensures
            t == self.spec_tag(),
    {
        match self {
            MessageType::Subscribe => 0x3,
            MessageType::SubscribeOk => 0x4,
            MessageType::SubscribeError => 0x5,
            MessageType::Announce => 0x6,
            MessageType::AnnounceOk => 0x7,
            MessageType::AnnounceError => 0x8,
            MessageType::Unannounce => 0x9,
            MessageType::Unsubscribe => 0xa,
        }
    }

    /// The kind that `tag` stands for, or `None` for a tag that no kind has.
    pub fn from_tag(tag: u8) -> (kind: Option<MessageType>)
        ensures
            kind == MessageType::spec_from_tag(tag),
    {
        if tag == 0x3 {
            Some(MessageType::Subscribe)
        } else if tag == 0x4 {
            Some(MessageType::SubscribeOk)
        } else if tag == 0x5 {
            Some(MessageType::SubscribeError)
        } else if tag == 0x6 {
            Some(MessageType::Announce)
        } else if tag == 0x7 {
            Some(MessageType::AnnounceOk)
        } else if tag == 0x8 {
            Some(MessageType::AnnounceError)
        } else if tag == 0x9 {
            Some(MessageType::Unannounce)
        } else if tag == 0xa {
            Some(MessageType::Unsubscribe)
        } else {
            None
        }
    }

    /// The name of this kind as it appears in the text of a fault.
    pub fn name(self) -> (text: &'static str)
        ensures
            text@ == self.spec_name(),
    {
        match self {
            MessageType::Subscribe => "subscribe",
            MessageType::SubscribeOk => "subscribe ok",
            MessageType::SubscribeError => "subscribe error",
            MessageType::Announce => "announce",
            MessageType::AnnounceOk => "announce ok",
            MessageType::AnnounceError => "announce error",
            MessageType::Unannounce => "unannounce",
            MessageType::Unsubscribe => "unsubscribe",
        }
    }
}

/// How a fault names the kind that a tag stands for.
pub open spec fn tag_name(tag: u8) -> Seq<char> {
    match MessageType::spec_from_tag(tag) {
        Some(kind) => kind.spec_name(),
        None => "unknown"@,
    }
}

/// The text of the fault for a message that opens with the tag `actual`
/// where a message of kind `expected` was to be read.
pub open spec fn mismatch_text(expected: MessageType, actual: u8) -> Seq<char> {
    "Invalid message type for "@ + expected.spec_name() + ": got "@ + tag_name(actual)
}

/// What reading the tag of an `expected` message from `input` yields. A tag
/// of another kind is a decoding error found with that one byte read.
pub open spec fn tag_decoding(input: Seq<u8>, expected: MessageType) -> Decoding<u8> {
    if input.len() < 1 {
        end_of_stream()
    } else if input[0] != expected.spec_tag() {
        malformed(mismatch_text(expected, input[0]), 1)
    } else {
        decoded(input[0], 1)
    }
}

/// A tag is read from the first byte alone.
pub proof fn lemma_tag_decoding_of_prefix(input: Seq<u8>, expected: MessageType, k: int)
    requires
        tag_decoding(input, expected) is Ok,
        0 <= k <= input.len(),
    ensures
        tag_decoding(input, expected)->Ok_0.1 == 1,
        k < 1 ==> tag_decoding(input.take(k), expected) == end_of_stream::<u8>(),
        k >= 1 ==> tag_decoding(input.take(k), expected) == tag_decoding(input, expected),
{
}

/// Reads one tag byte and checks that it opens a message of kind `expected`.
pub fn expect_tag(reader: &mut &[u8], expected: MessageType) -> (r: Result<u8, Error>)
    ensures
        crate::syntax::decode_outcome::<u8>(
            tag_decoding(old(reader)@, expected),
            old(reader)@,
            final(reader)@,
            r,
        ),
{
    broadcast use lemma_seq_skip_nothing;

    let mut cursor: &[u8] = *reader;
    let actual: u8 = match u8::decode(&mut cursor) {
        Ok(tag) => tag,
        Err(e) => {
            return Err(stop_at(reader, cursor, e));
        },
    };
    if actual != expected.tag() {
        let got: &str = match MessageType::from_tag(actual) {
            Some(kind) => kind.name(),
            None => "unknown",
        };
        let text = String::from_str("Invalid message type for ").concat(expected.name()).concat(
            ": got ",
        ).concat(got);
        return Err(stop_at(reader, cursor, Error::DecodingError(text)));
    }
    *reader = cursor;
    Ok(actual)
}

/// No two kinds share a tag: the kind of a message is read off its tag.
pub proof fn lemma_tags_distinct(a: MessageType, b: MessageType)
    ensures
        MessageType::spec_from_tag(a.spec_tag()) == Some(a),
        a.spec_tag() == b.spec_tag() ==> a == b,
{
}

/// A tag maps to a kind exactly when that kind has the tag.
pub proof fn lemma_from_tag_inverts_tag(tag: u8, kind: MessageType)
    ensures
        MessageType::spec_from_tag(tag) == Some(kind) <==> kind.spec_tag() == tag,
{
}

/// A first byte other than the tag of the expected kind is a decoding error
/// whose text names both kinds. The tag byte is read, nothing behind it.
pub proof fn lemma_wrong_tag_is_decoding_error(input: Seq<u8>, expected: MessageType)
    requires
        input.len() >= 1,
        input[0] != expected.spec_tag(),
    ensures
        tag_decoding(input, expected) == malformed::<u8>(mismatch_text(expected, input[0]), 1),
{
}

} // verus!
