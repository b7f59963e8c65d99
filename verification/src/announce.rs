//! The announce family: a publisher announces a track namespace, and the
//! receiver accepts or refuses it.

use vstd::prelude::*;
use vstd::seq_lib::{lemma_seq_skip_nothing, lemma_seq_skip_of_skip};
use vstd::utf8::valid_utf8;
use crate::message_type::{expect_tag, lemma_tag_decoding_of_prefix, mismatch_text, tag_decoding,
    MessageType};
use crate::quic_varint::{lemma_varint_round_trip, varint_bytes, varint_len, QUICVarint,
    VARINT_MAX};
use crate::reason::{invalid_utf8_text, lemma_invalid_utf8_is_decoding_error,
    lemma_reason_round_trip};
use crate::syntax::{append_field, chain, decoded, fail_after, lemma_take_skip, malformed, stop_at,
    Decode, Decoding, Encode, Error, Fault};
use crate::track::{lemma_track_namespace_round_trip, TrackNamespace};

verus! {

/// Announces a track namespace. On the wire: the tag, then the namespace.
#[derive(Debug, Clone, PartialEq)]
pub struct Announce {
    pub track_namespace: TrackNamespace,
}

/// The mathematical content of an [`Announce`].
pub struct AnnounceView {
    pub track_namespace: Seq<u8>,
}

impl View for Announce {
    type V = AnnounceView;

    open spec fn view(&self) -> AnnounceView {
        AnnounceView { track_namespace: self.track_namespace@ }
    }
}

impl Encode for Announce {
    open spec fn encoding(&self) -> Result<Seq<u8>, Fault> {
        chain(MessageType::Announce.spec_tag().encoding(), self.track_namespace.encoding())
    }

    fn encode(&self, writer: &mut Vec<u8>) -> (r: Result<usize, Error>) {
        let start: usize = writer.len();
        append_field(&MessageType::Announce.tag(), writer, start)?;
        assert(writer@.take(start as int) =~= old(writer)@);
        append_field(&self.track_namespace, writer, start)?;
        assert(writer@ =~= old(writer)@ + self.encoding()->Ok_0);
        Ok(writer.len() - start)
    }
}

impl Decode for Announce {
    open spec fn decoding(input: Seq<u8>) -> Decoding<AnnounceView> {
        match tag_decoding(input, MessageType::Announce) {
            Err(failure) => Err(failure),
            Ok((_, a)) => match TrackNamespace::decoding(input.skip(a as int)) {
                Err(failure) => fail_after(a, failure),
                Ok((track_namespace, b)) => decoded(AnnounceView { track_namespace }, a + b),
            },
        }
    }

    proof fn lemma_decoding_of_prefix(input: Seq<u8>, k: int) {
        lemma_tag_decoding_of_prefix(input, MessageType::Announce, k);
        if k >= 1 {
            lemma_take_skip(input, k, 1);
            TrackNamespace::lemma_decoding_of_prefix(input.skip(1), k - 1);
        }
    }

    fn decode(reader: &mut &[u8]) -> (r: Result<Self, Error>) {
        broadcast use {lemma_seq_skip_nothing, lemma_seq_skip_of_skip};

        let mut cursor: &[u8] = *reader;
        match expect_tag(&mut cursor, MessageType::Announce) {
            Ok(_) => {},
            Err(e) => {
                return Err(stop_at(reader, cursor, e));
            },
        }
        let track_namespace = match TrackNamespace::decode(&mut cursor) {
            Ok(track_namespace) => track_namespace,
            Err(e) => {
                return Err(stop_at(reader, cursor, e));
            },
        };
        *reader = cursor;
        Ok(Announce { track_namespace })
    }
}

/// Accepts an announced namespace. On the wire: the tag, then the namespace.
#[derive(Debug, Clone, PartialEq)]
pub struct AnnounceOk {
    pub track_namespace: TrackNamespace,
}

/// The mathematical content of an [`AnnounceOk`].
pub struct AnnounceOkView {
    pub track_namespace: Seq<u8>,
}

impl View for AnnounceOk {
    type V = AnnounceOkView;

    open spec fn view(&self) -> AnnounceOkView {
        AnnounceOkView { track_namespace: self.track_namespace@ }
    }
}

impl Encode for AnnounceOk {
    open spec fn encoding(&self) -> Result<Seq<u8>, Fault> {
        chain(MessageType::AnnounceOk.spec_tag().encoding(), self.track_namespace.encoding())
    }

    fn encode(&self, writer: &mut Vec<u8>) -> (r: Result<usize, Error>) {
        let start: usize = writer.len();
        append_field(&MessageType::AnnounceOk.tag(), writer, start)?;
        assert(writer@.take(start as int) =~= old(writer)@);
        append_field(&self.track_namespace, writer, start)?;
        assert(writer@ =~= old(writer)@ + self.encoding()->Ok_0);
        Ok(writer.len() - start)
    }
}

impl Decode for AnnounceOk {
    open spec fn decoding(input: Seq<u8>) -> Decoding<AnnounceOkView> {
        match tag_decoding(input, MessageType::AnnounceOk) {
            Err(failure) => Err(failure),
            Ok((_, a)) => match TrackNamespace::decoding(input.skip(a as int)) {
                Err(failure) => fail_after(a, failure),
                Ok((track_namespace, b)) => decoded(AnnounceOkView { track_namespace }, a + b),
            },
        }
    }

    proof fn lemma_decoding_of_prefix(input: Seq<u8>, k: int) {
        lemma_tag_decoding_of_prefix(input, MessageType::AnnounceOk, k);
        if k >= 1 {
            lemma_take_skip(input, k, 1);
            TrackNamespace::lemma_decoding_of_prefix(input.skip(1), k - 1);
        }
    }

    fn decode(reader: &mut &[u8]) -> (r: Result<Self, Error>) {
        broadcast use {lemma_seq_skip_nothing, lemma_seq_skip_of_skip};

        let mut cursor: &[u8] = *reader;
        match expect_tag(&mut cursor, MessageType::AnnounceOk) {
            Ok(_) => {},
            Err(e) => {
                return Err(stop_at(reader, cursor, e));
            },
        }
        let track_namespace = match TrackNamespace::decode(&mut cursor) {
            Ok(track_namespace) => track_namespace,
            Err(e) => {
                return Err(stop_at(reader, cursor, e));
            },
        };
        *reader = cursor;
        Ok(AnnounceOk { track_namespace })
    }
}

/// Refuses an announced namespace. On the wire: the tag, the namespace, the
/// error code, then the reason phrase.
#[derive(Debug, Clone, PartialEq)]
pub struct AnnounceError {
    pub track_namespace: TrackNamespace,
    pub error_code: QUICVarint,
    pub reason_phrase: String,
}

/// The mathematical content of an [`AnnounceError`].
pub struct AnnounceErrorView {
    pub track_namespace: Seq<u8>,
    pub error_code: u64,
    pub reason_phrase: Seq<char>,
}

impl View for AnnounceError {
    type V = AnnounceErrorView;

    open spec fn view(&self) -> AnnounceErrorView {
        AnnounceErrorView {
            track_namespace: self.track_namespace@,
            error_code: self.error_code@,
            reason_phrase: self.reason_phrase@,
        }
    }
}

impl Encode for AnnounceError {
    open spec fn encoding(&self) -> Result<Seq<u8>, Fault> {
        chain(
            chain(
                chain(
                    MessageType::AnnounceError.spec_tag().encoding(),
                    self.track_namespace.encoding(),
                ),
                self.error_code.encoding(),
            ),
            self.reason_phrase.encoding(),
        )
    }

    fn encode(&self, writer: &mut Vec<u8>) -> (r: Result<usize, Error>) {
        let start: usize = writer.len();
        append_field(&MessageType::AnnounceError.tag(), writer, start)?;
        assert(writer@.take(start as int) =~= old(writer)@);
        append_field(&self.track_namespace, writer, start)?;
        assert(writer@.take(start as int) =~= old(writer)@);
        append_field(&self.error_code, writer, start)?;
        assert(writer@.take(start as int) =~= old(writer)@);
        append_field(&self.reason_phrase, writer, start)?;
        assert(writer@ =~= old(writer)@ + self.encoding()->Ok_0);
        Ok(writer.len() - start)
    }
}

impl Decode for AnnounceError {
    open spec fn decoding(input: Seq<u8>) -> Decoding<AnnounceErrorView> {
        match tag_decoding(input, MessageType::AnnounceError) {
            Err(failure) => Err(failure),
            Ok((_, a)) => match TrackNamespace::decoding(input.skip(a as int)) {
                Err(failure) => fail_after(a, failure),
                Ok((track_namespace, b)) => match QUICVarint::decoding(input.skip((a + b) as int)) {
                    Err(failure) => fail_after(a + b, failure),
                    Ok((error_code, c)) => match String::decoding(input.skip((a + b + c) as int)) {
                        Err(failure) => fail_after(a + b + c, failure),
                        Ok((reason_phrase, d)) => decoded(
                            AnnounceErrorView { track_namespace, error_code, reason_phrase },
                            a + b + c + d,
                        ),
                    },
                },
            },
        }
    }

    proof fn lemma_decoding_of_prefix(input: Seq<u8>, k: int) {
        lemma_tag_decoding_of_prefix(input, MessageType::AnnounceError, k);
        if k >= 1 {
            let b = TrackNamespace::decoding(input.skip(1))->Ok_0.1;
            lemma_take_skip(input, k, 1);
            TrackNamespace::lemma_decoding_of_prefix(input.skip(1), k - 1);
            if k >= 1 + b {
                let c = QUICVarint::decoding(input.skip((1 + b) as int))->Ok_0.1;
                lemma_take_skip(input, k, (1 + b) as int);
                QUICVarint::lemma_decoding_of_prefix(input.skip((1 + b) as int), k - 1 - b);
                if k >= 1 + b + c {
                    lemma_take_skip(input, k, (1 + b + c) as int);
                    String::lemma_decoding_of_prefix(
                        input.skip((1 + b + c) as int),
                        k - 1 - b - c,
                    );
                }
            }
        }
    }

    fn decode(reader: &mut &[u8]) -> (r: Result<Self, Error>) {
        broadcast use {lemma_seq_skip_nothing, lemma_seq_skip_of_skip};

        let mut cursor: &[u8] = *reader;
        match expect_tag(&mut cursor, MessageType::AnnounceError) {
            Ok(_) => {},
            Err(e) => {
                return Err(stop_at(reader, cursor, e));
            },
        }
        let track_namespace = match TrackNamespace::decode(&mut cursor) {
            Ok(track_namespace) => track_namespace,
            Err(e) => {
                return Err(stop_at(reader, cursor, e));
            },
        };
        let error_code = match QUICVarint::decode(&mut cursor) {
            Ok(error_code) => error_code,
            Err(e) => {
                return Err(stop_at(reader, cursor, e));
            },
        };
        let reason_phrase = match String::decode(&mut cursor) {
            Ok(reason_phrase) => reason_phrase,
            Err(e) => {
                return Err(stop_at(reader, cursor, e));
            },
        };
        *reader = cursor;
        Ok(AnnounceError { track_namespace, error_code, reason_phrase })
    }
}

/// An announcement that was written is read back, whatever follows it.
pub proof fn lemma_announce_round_trip(msg: Announce, rest: Seq<u8>)
    requires
        msg.encoding() is Ok,
    ensures
        Announce::decoding(msg.encoding()->Ok_0 + rest) == decoded(msg@, msg.encoding()->Ok_0.len()),
{
    let name = msg.track_namespace.encoding()->Ok_0;
    let input = msg.encoding()->Ok_0 + rest;
    lemma_track_namespace_round_trip(msg.track_namespace, rest);
    assert(input.skip(1) =~= name + rest);
}

/// An acceptance that was written is read back, whatever follows it.
pub proof fn lemma_announce_ok_round_trip(msg: AnnounceOk, rest: Seq<u8>)
    requires
        msg.encoding() is Ok,
    ensures
        AnnounceOk::decoding(msg.encoding()->Ok_0 + rest) == decoded(msg@, msg.encoding()->Ok_0.len()),
{
    let name = msg.track_namespace.encoding()->Ok_0;
    let input = msg.encoding()->Ok_0 + rest;
    lemma_track_namespace_round_trip(msg.track_namespace, rest);
    assert(input.skip(1) =~= name + rest);
}

/// A refusal that was written is read back, whatever follows it: the same
/// namespace, the same error code and the same reason phrase.
pub proof fn lemma_announce_error_round_trip(msg: AnnounceError, rest: Seq<u8>)
    requires
        msg.encoding() is Ok,
    ensures
        AnnounceError::decoding(msg.encoding()->Ok_0 + rest) == decoded(msg@, msg.encoding()->Ok_0.len()),
{
    let name = msg.track_namespace.encoding()->Ok_0;
    let code = msg.error_code.encoding()->Ok_0;
    let reason = msg.reason_phrase.encoding()->Ok_0;
    let input = msg.encoding()->Ok_0 + rest;
    let b = name.len();
    let c = code.len();
    lemma_track_namespace_round_trip(msg.track_namespace, code + reason + rest);
    lemma_varint_round_trip(msg.error_code.0, reason + rest);
    lemma_reason_round_trip(msg.reason_phrase@, rest);
    assert(input.skip(1) =~= name + (code + reason + rest));
    assert(input.skip((1 + b) as int) =~= code + (reason + rest));
    assert(input.skip((1 + b + c) as int) =~= reason + rest);
}

/// A decoder of the announce family refuses every input that opens with
/// the tag of another kind, with a decoding error that names both kinds and
/// with that one byte read.
pub proof fn lemma_announce_family_rejects_other_tags(input: Seq<u8>)
    requires
        input.len() >= 1,
    ensures
        input[0] != MessageType::Announce.spec_tag() ==> Announce::decoding(input) == malformed::<AnnounceView>(mismatch_text(MessageType::Announce, input[0]), 1),
        input[0] != MessageType::AnnounceOk.spec_tag() ==> AnnounceOk::decoding(input) == malformed::<AnnounceOkView>(mismatch_text(MessageType::AnnounceOk, input[0]), 1),
        input[0] != MessageType::AnnounceError.spec_tag() ==> AnnounceError::decoding(input)
            == malformed::<AnnounceErrorView>(mismatch_text(MessageType::AnnounceError, input[0]), 1),
{
}

/// An acceptance handed to the announcement decoder is a decoding error that
/// names both kinds. The tag byte is read; the namespace behind it is not.
pub proof fn lemma_announce_rejects_announce_ok(msg: AnnounceOk, rest: Seq<u8>)
    requires
        msg.encoding() is Ok,
    ensures
        Announce::decoding(msg.encoding()->Ok_0 + rest) == malformed::<AnnounceView>(
            mismatch_text(MessageType::Announce, MessageType::AnnounceOk.spec_tag()),
            1,
        ),
{
    let input = msg.encoding()->Ok_0 + rest;
    assert(input[0] == MessageType::AnnounceOk.spec_tag());
}

/// A refusal whose reason bytes are not UTF-8 is a decoding error, whatever
/// the other fields hold, found with the whole message read.
pub proof fn lemma_announce_error_rejects_invalid_reason(
    track_namespace: TrackNamespace,
    error_code: QUICVarint,
    reason_bytes: Seq<u8>,
    rest: Seq<u8>,
)
    requires
        track_namespace.encoding() is Ok,
        error_code.encoding() is Ok,
        reason_bytes.len() <= VARINT_MAX,
        !valid_utf8(reason_bytes),
    ensures
        AnnounceError::decoding(
            seq![MessageType::AnnounceError.spec_tag()] + track_namespace.encoding()->Ok_0
                + error_code.encoding()->Ok_0 + varint_bytes(reason_bytes.len() as u64)
                + reason_bytes + rest,
        ) == malformed::<AnnounceErrorView>(
            invalid_utf8_text(),
            1 + track_namespace.encoding()->Ok_0.len() + error_code.encoding()->Ok_0.len()
                + varint_len(reason_bytes.len() as u64) + reason_bytes.len(),
        ),
{
    let name = track_namespace.encoding()->Ok_0;
    let code = error_code.encoding()->Ok_0;
    let reason = varint_bytes(reason_bytes.len() as u64) + reason_bytes;
    let input = seq![MessageType::AnnounceError.spec_tag()] + name + code + varint_bytes(
        reason_bytes.len() as u64,
    ) + reason_bytes + rest;
    let b = name.len();
    let c = code.len();
    lemma_track_namespace_round_trip(track_namespace, code + reason + rest);
    lemma_varint_round_trip(error_code.0, reason + rest);
    lemma_invalid_utf8_is_decoding_error(reason_bytes, rest);
    assert(input.skip(1) =~= name + (code + reason + rest));
    assert(input.skip((1 + b) as int) =~= code + (reason + rest));
    assert(input.skip((1 + b + c) as int) =~= varint_bytes(reason_bytes.len() as u64)
        + reason_bytes + rest);
}

} // verus!
