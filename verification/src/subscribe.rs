//! The subscribe family: a receiver asks for a track, the publisher accepts
//! or refuses, and the receiver ends the subscription.

use vstd::prelude::*;
use vstd::seq_lib::{lemma_seq_skip_nothing, lemma_seq_skip_of_skip};
use vstd::utf8::valid_utf8;
use crate::message_type::{expect_tag, lemma_tag_decoding_of_prefix, mismatch_text, tag_decoding,
    MessageType};
use crate::quic_varint::{lemma_varint_round_trip, varint_bytes, varint_len, QUICVarint,
    VARINT_MAX};
use crate::reason::{invalid_utf8_text, lemma_invalid_utf8_is_decoding_error,
    lemma_reason_round_trip};
use crate::syntax::{append_field, chain, decoded, fail_after, lemma_take_skip, malformed, stop_at,
    Decode, Decoding, Encode, Error, Fault};
use crate::track::{lemma_full_track_name_round_trip, FullTrackName};

verus! {

/// Asks for a track. On the wire: the tag, then the track name.
#[derive(Debug, Clone, PartialEq)]
pub struct Subscribe {
    pub track: FullTrackName,
}

/// The mathematical content of a [`Subscribe`].
pub struct SubscribeView {
    pub track: Seq<u8>,
}

impl View for Subscribe {
    type V = SubscribeView;

    open spec fn view(&self) -> SubscribeView {
        SubscribeView { track: self.track@ }
    }
}

impl Encode for Subscribe {
    open spec fn encoding(&self) -> Result<Seq<u8>, Fault> {
        chain(MessageType::Subscribe.spec_tag().encoding(), self.track.encoding())
    }

    fn encode(&self, writer: &mut Vec<u8>) -> (r: Result<usize, Error>) {
        let start: usize = writer.len();
        append_field(&MessageType::Subscribe.tag(), writer, start)?;
        assert(writer@.take(start as int) =~= old(writer)@);
        append_field(&self.track, writer, start)?;
        assert(writer@ =~= old(writer)@ + self.encoding()->Ok_0);
        Ok(writer.len() - start)
    }
}

impl Decode for Subscribe {
    open spec fn decoding(input: Seq<u8>) -> Decoding<SubscribeView> {
        match tag_decoding(input, MessageType::Subscribe) {
            Err(failure) => Err(failure),
            Ok((_, a)) => match FullTrackName::decoding(input.skip(a as int)) {
                Err(failure) => fail_after(a, failure),
                Ok((track, b)) => decoded(SubscribeView { track }, a + b),
            },
        }
    }

    proof fn lemma_decoding_of_prefix(input: Seq<u8>, k: int) {
        lemma_tag_decoding_of_prefix(input, MessageType::Subscribe, k);
        if k >= 1 {
            lemma_take_skip(input, k, 1);
            FullTrackName::lemma_decoding_of_prefix(input.skip(1), k - 1);
        }
    }

    fn decode(reader: &mut &[u8]) -> (r: Result<Self, Error>) {
        broadcast use {lemma_seq_skip_nothing, lemma_seq_skip_of_skip};

        let mut cursor: &[u8] = *reader;
        match expect_tag(&mut cursor, MessageType::Subscribe) {
            Ok(_) => {},
            Err(e) => {
                return Err(stop_at(reader, cursor, e));
            },
        }
        let track = match FullTrackName::decode(&mut cursor) {
            Ok(track) => track,
            Err(e) => {
                return Err(stop_at(reader, cursor, e));
            },
        };
        *reader = cursor;
        Ok(Subscribe { track })
    }
}

/// Accepts a subscription.
///
/// The encoder writes the tag, the track name, the track id, then the
/// expiry. The decoder reads the tag, the track id, the expiry, then the
/// track name. Both layouts are kept as deployed peers have them, so what
/// this encoder writes is not what this decoder reads.
#[derive(Debug, Clone, PartialEq)]
pub struct SubscribeOk {
    pub track: FullTrackName,
    pub track_id: QUICVarint,
    pub expires: QUICVarint,
}

/// The mathematical content of a [`SubscribeOk`].
pub struct SubscribeOkView {
    pub track: Seq<u8>,
    pub track_id: u64,
    pub expires: u64,
}

impl View for SubscribeOk {
    type V = SubscribeOkView;

    open spec fn view(&self) -> SubscribeOkView {
        SubscribeOkView { track: self.track@, track_id: self.track_id@, expires: self.expires@ }
    }
}

impl Encode for SubscribeOk {
    open spec fn encoding(&self) -> Result<Seq<u8>, Fault> {
        chain(
            chain(
                chain(MessageType::SubscribeOk.spec_tag().encoding(), self.track.encoding()),
                self.track_id.encoding(),
            ),
            self.expires.encoding(),
        )
    }

    fn encode(&self, writer: &mut Vec<u8>) -> (r: Result<usize, Error>) {
        let start: usize = writer.len();
        append_field(&MessageType::SubscribeOk.tag(), writer, start)?;
        assert(writer@.take(start as int) =~= old(writer)@);
        append_field(&self.track, writer, start)?;
        assert(writer@.take(start as int) =~= old(writer)@);
        append_field(&self.track_id, writer, start)?;
        assert(writer@.take(start as int) =~= old(writer)@);
        append_field(&self.expires, writer, start)?;
        assert(writer@ =~= old(writer)@ + self.encoding()->Ok_0);
        Ok(writer.len() - start)
    }
}

impl Decode for SubscribeOk {
    open spec fn decoding(input: Seq<u8>) -> Decoding<SubscribeOkView> {
        match tag_decoding(input, MessageType::SubscribeOk) {
            Err(failure) => Err(failure),
            Ok((_, a)) => match QUICVarint::decoding(input.skip(a as int)) {
                Err(failure) => fail_after(a, failure),
                Ok((track_id, b)) => match QUICVarint::decoding(input.skip((a + b) as int)) {
                    Err(failure) => fail_after(a + b, failure),
                    Ok((expires, c)) => match FullTrackName::decoding(input.skip((a + b + c) as int)) {
                        Err(failure) => fail_after(a + b + c, failure),
                        Ok((track, d)) => decoded(
                            SubscribeOkView { track, track_id, expires },
                            a + b + c + d,
                        ),
                    },
                },
            },
        }
    }

    proof fn lemma_decoding_of_prefix(input: Seq<u8>, k: int) {
        lemma_tag_decoding_of_prefix(input, MessageType::SubscribeOk, k);
        if k >= 1 {
            let b = QUICVarint::decoding(input.skip(1))->Ok_0.1;
            lemma_take_skip(input, k, 1);
            QUICVarint::lemma_decoding_of_prefix(input.skip(1), k - 1);
            if k >= 1 + b {
                let c = QUICVarint::decoding(input.skip((1 + b) as int))->Ok_0.1;
                lemma_take_skip(input, k, (1 + b) as int);
                QUICVarint::lemma_decoding_of_prefix(input.skip((1 + b) as int), k - 1 - b);
                if k >= 1 + b + c {
                    lemma_take_skip(input, k, (1 + b + c) as int);
                    FullTrackName::lemma_decoding_of_prefix(
                        input.skip((1 + b + c) as int),
                        k - 1 - b - c,
                    );
                }
            }
        }
    }

    fn decode(reader: &mut &[u8]) -> (r: Result<Self, Error>) {
        broadcast use {lemma_seq_skip_nothing, lemma_seq_skip_of_skip};

        let mut cursor: &[u8] = *reader;
        match expect_tag(&mut cursor, MessageType::SubscribeOk) {
            Ok(_) => {},
            Err(e) => {
                return Err(stop_at(reader, cursor, e));
            },
        }
        let track_id = match QUICVarint::decode(&mut cursor) {
            Ok(track_id) => track_id,
            Err(e) => {
                return Err(stop_at(reader, cursor, e));
            },
        };
        let expires = match QUICVarint::decode(&mut cursor) {
            Ok(expires) => expires,
            Err(e) => {
                return Err(stop_at(reader, cursor, e));
            },
        };
        let track = match FullTrackName::decode(&mut cursor) {
            Ok(track) => track,
            Err(e) => {
                return Err(stop_at(reader, cursor, e));
            },
        };
        *reader = cursor;
        Ok(SubscribeOk { track, track_id, expires })
    }
}

/// Refuses a subscription. On the wire: the tag, the track name, the error
/// code, then the reason phrase.
#[derive(Debug, Clone, PartialEq)]
pub struct SubscribeError {
    pub track: FullTrackName,
    pub error_code: QUICVarint,
    pub reason_phrase: String,
}

/// The mathematical content of a [`SubscribeError`].
pub struct SubscribeErrorView {
    pub track: Seq<u8>,
    pub error_code: u64,
    pub reason_phrase: Seq<char>,
}

impl View for SubscribeError {
    type V = SubscribeErrorView;

    open spec fn view(&self) -> SubscribeErrorView {
        SubscribeErrorView {
            track: self.track@,
            error_code: self.error_code@,
            reason_phrase: self.reason_phrase@,
        }
    }
}

impl Encode for SubscribeError {
    open spec fn encoding(&self) -> Result<Seq<u8>, Fault> {
        chain(
            chain(
                chain(MessageType::SubscribeError.spec_tag().encoding(), self.track.encoding()),
                self.error_code.encoding(),
            ),
            self.reason_phrase.encoding(),
        )
    }

    fn encode(&self, writer: &mut Vec<u8>) -> (r: Result<usize, Error>) {
        let start: usize = writer.len();
        append_field(&MessageType::SubscribeError.tag(), writer, start)?;
        assert(writer@.take(start as int) =~= old(writer)@);
        append_field(&self.track, writer, start)?;
        assert(writer@.take(start as int) =~= old(writer)@);
        append_field(&self.error_code, writer, start)?;
        assert(writer@.take(start as int) =~= old(writer)@);
        append_field(&self.reason_phrase, writer, start)?;
        assert(writer@ =~= old(writer)@ + self.encoding()->Ok_0);
        Ok(writer.len() - start)
    }
}

impl Decode for SubscribeError {
    open spec fn decoding(input: Seq<u8>) -> Decoding<SubscribeErrorView> {
        match tag_decoding(input, MessageType::SubscribeError) {
            Err(failure) => Err(failure),
            Ok((_, a)) => match FullTrackName::decoding(input.skip(a as int)) {
                Err(failure) => fail_after(a, failure),
                Ok((track, b)) => match QUICVarint::decoding(input.skip((a + b) as int)) {
                    Err(failure) => fail_after(a + b, failure),
                    Ok((error_code, c)) => match String::decoding(input.skip((a + b + c) as int)) {
                        Err(failure) => fail_after(a + b + c, failure),
                        Ok((reason_phrase, d)) => decoded(
                            SubscribeErrorView { track, error_code, reason_phrase },
                            a + b + c + d,
                        ),
                    },
                },
            },
        }
    }

    proof fn lemma_decoding_of_prefix(input: Seq<u8>, k: int) {
        lemma_tag_decoding_of_prefix(input, MessageType::SubscribeError, k);
        if k >= 1 {
            let b = FullTrackName::decoding(input.skip(1))->Ok_0.1;
            lemma_take_skip(input, k, 1);
            FullTrackName::lemma_decoding_of_prefix(input.skip(1), k - 1);
            if k >= 1 + b {
                let c = QUICVarint::decoding(input.skip((1 + b) as int))->Ok_0.1;
                lemma_take_skip(input, k, (1 + b) as int);
                QUICVarint::lemma_decoding_of_prefix(input.skip((1 + b) as int), k - 1 - b);
                if k >= 1 + b + c {
                    lemma_take_skip(input, k, (1 + b + c) as int);
                    String::lemma_decoding_of_prefix(
                        input.skip((1 + b + c) as int),
                        k - 1 - b - c,
                    );
                }
            }
        }
    }

    fn decode(reader: &mut &[u8]) -> (r: Result<Self, Error>) {
        broadcast use {lemma_seq_skip_nothing, lemma_seq_skip_of_skip};

        let mut cursor: &[u8] = *reader;
        match expect_tag(&mut cursor, MessageType::SubscribeError) {
            Ok(_) => {},
            Err(e) => {
                return Err(stop_at(reader, cursor, e));
            },
        }
        let track = match FullTrackName::decode(&mut cursor) {
            Ok(track) => track,
            Err(e) => {
                return Err(stop_at(reader, cursor, e));
            },
        };
        let error_code = match QUICVarint::decode(&mut cursor) {
            Ok(error_code) => error_code,
            Err(e) => {
                return Err(stop_at(reader, cursor, e));
            },
        };
        let reason_phrase = match String::decode(&mut cursor) {
            Ok(reason_phrase) => reason_phrase,
            Err(e) => {
                return Err(stop_at(reader, cursor, e));
            },
        };
        *reader = cursor;
        Ok(SubscribeError { track, error_code, reason_phrase })
    }
}

/// Ends a subscription. On the wire: the tag, then the track name.
#[derive(Debug, Clone, PartialEq)]
pub struct Unsubscribe {
    pub track: FullTrackName,
}

/// The mathematical content of an [`Unsubscribe`].
pub struct UnsubscribeView {
    pub track: Seq<u8>,
}

impl View for Unsubscribe {
    type V = UnsubscribeView;

    open spec fn view(&self) -> UnsubscribeView {
        UnsubscribeView { track: self.track@ }
    }
}

impl Encode for Unsubscribe {
    open spec fn encoding(&self) -> Result<Seq<u8>, Fault> {
        chain(MessageType::Unsubscribe.spec_tag().encoding(), self.track.encoding())
    }

    fn encode(&self, writer: &mut Vec<u8>) -> (r: Result<usize, Error>) {
        let start: usize = writer.len();
        append_field(&MessageType::Unsubscribe.tag(), writer, start)?;
        assert(writer@.take(start as int) =~= old(writer)@);
        append_field(&self.track, writer, start)?;
        assert(writer@ =~= old(writer)@ + self.encoding()->Ok_0);
        Ok(writer.len() - start)
    }
}

impl Decode for Unsubscribe {
    open spec fn decoding(input: Seq<u8>) -> Decoding<UnsubscribeView> {
        match tag_decoding(input, MessageType::Unsubscribe) {
            Err(failure) => Err(failure),
            Ok((_, a)) => match FullTrackName::decoding(input.skip(a as int)) {
                Err(failure) => fail_after(a, failure),
                Ok((track, b)) => decoded(UnsubscribeView { track }, a + b),
            },
        }
    }

    proof fn lemma_decoding_of_prefix(input: Seq<u8>, k: int) {
        lemma_tag_decoding_of_prefix(input, MessageType::Unsubscribe, k);
        if k >= 1 {
            lemma_take_skip(input, k, 1);
            FullTrackName::lemma_decoding_of_prefix(input.skip(1), k - 1);
        }
    }

    fn decode(reader: &mut &[u8]) -> (r: Result<Self, Error>) {
        broadcast use {lemma_seq_skip_nothing, lemma_seq_skip_of_skip};

        let mut cursor: &[u8] = *reader;
        match expect_tag(&mut cursor, MessageType::Unsubscribe) {
            Ok(_) => {},
            Err(e) => {
                return Err(stop_at(reader, cursor, e));
            },
        }
        let track = match FullTrackName::decode(&mut cursor) {
            Ok(track) => track,
            Err(e) => {
                return Err(stop_at(reader, cursor, e));
            },
        };
        *reader = cursor;
        Ok(Unsubscribe { track })
    }
}

/// A subscription request that was written is read back, whatever follows.
pub proof fn lemma_subscribe_round_trip(msg: Subscribe, rest: Seq<u8>)
    requires
        msg.encoding() is Ok,
    ensures
        Subscribe::decoding(msg.encoding()->Ok_0 + rest) == decoded(msg@, msg.encoding()->Ok_0.len()),
{
    let name = msg.track.encoding()->Ok_0;
    let input = msg.encoding()->Ok_0 + rest;
    lemma_full_track_name_round_trip(msg.track, rest);
    assert(input.skip(1) =~= name + rest);
}

/// The end of a subscription that was written is read back, whatever follows.
pub proof fn lemma_unsubscribe_round_trip(msg: Unsubscribe, rest: Seq<u8>)
    requires
        msg.encoding() is Ok,
    ensures
        Unsubscribe::decoding(msg.encoding()->Ok_0 + rest) == decoded(msg@, msg.encoding()->Ok_0.len()),
{
    let name = msg.track.encoding()->Ok_0;
    let input = msg.encoding()->Ok_0 + rest;
    lemma_full_track_name_round_trip(msg.track, rest);
    assert(input.skip(1) =~= name + rest);
}

/// A refusal that was written is read back, whatever follows it: the same
/// track, the same error code and the same reason phrase.
pub proof fn lemma_subscribe_error_round_trip(msg: SubscribeError, rest: Seq<u8>)
    requires
        msg.encoding() is Ok,
    ensures
        SubscribeError::decoding(msg.encoding()->Ok_0 + rest) == decoded(msg@, msg.encoding()->Ok_0.len()),
{
    let name = msg.track.encoding()->Ok_0;
    let code = msg.error_code.encoding()->Ok_0;
    let reason = msg.reason_phrase.encoding()->Ok_0;
    let input = msg.encoding()->Ok_0 + rest;
    let b = name.len();
    let c = code.len();
    lemma_full_track_name_round_trip(msg.track, code + reason + rest);
    lemma_varint_round_trip(msg.error_code.0, reason + rest);
    lemma_reason_round_trip(msg.reason_phrase@, rest);
    assert(input.skip(1) =~= name + (code + reason + rest));
    assert(input.skip((1 + b) as int) =~= code + (reason + rest));
    assert(input.skip((1 + b + c) as int) =~= reason + rest);
}

/// The layout that the `SubscribeOk` decoder understands: the tag, the track
/// id, the expiry and the track name, in this order, decode to the message
/// with these three fields.
pub proof fn lemma_subscribe_ok_reads_numbers_first(msg: SubscribeOk, rest: Seq<u8>)
    requires
        msg.encoding() is Ok,
    ensures
        SubscribeOk::decoding(
            seq![MessageType::SubscribeOk.spec_tag()] + msg.track_id.encoding()->Ok_0
                + msg.expires.encoding()->Ok_0 + msg.track.encoding()->Ok_0 + rest,
        ) == decoded(msg@, msg.encoding()->Ok_0.len()),
{
    let name = msg.track.encoding()->Ok_0;
    let id = msg.track_id.encoding()->Ok_0;
    let expires = msg.expires.encoding()->Ok_0;
    let input = seq![MessageType::SubscribeOk.spec_tag()] + id + expires + name + rest;
    let b = id.len();
    let c = expires.len();
    lemma_varint_round_trip(msg.track_id.0, expires + name + rest);
    lemma_varint_round_trip(msg.expires.0, name + rest);
    lemma_full_track_name_round_trip(msg.track, rest);
    assert(input.skip(1) =~= id + (expires + name + rest));
    assert(input.skip((1 + b) as int) =~= expires + (name + rest));
    assert(input.skip((1 + b + c) as int) =~= name + rest);
}

/// A decoder of the subscribe family refuses every input that opens with
/// the tag of another kind, with a decoding error that names both kinds and
/// with that one byte read.
pub proof fn lemma_subscribe_family_rejects_other_tags(input: Seq<u8>)
    requires
        input.len() >= 1,
    ensures
        input[0] != MessageType::Subscribe.spec_tag() ==> Subscribe::decoding(input) == malformed::<SubscribeView>(mismatch_text(MessageType::Subscribe, input[0]), 1),
        input[0] != MessageType::SubscribeOk.spec_tag() ==> SubscribeOk::decoding(input) == malformed::<SubscribeOkView>(mismatch_text(MessageType::SubscribeOk, input[0]), 1),
        input[0] != MessageType::SubscribeError.spec_tag() ==> SubscribeError::decoding(input)
            == malformed::<SubscribeErrorView>(mismatch_text(MessageType::SubscribeError, input[0]), 1),
        input[0] != MessageType::Unsubscribe.spec_tag() ==> Unsubscribe::decoding(input) == malformed::<UnsubscribeView>(mismatch_text(MessageType::Unsubscribe, input[0]), 1),
{
}

/// A refusal whose reason bytes are not UTF-8 is a decoding error, whatever
/// the other fields hold, found with the whole message read.
pub proof fn lemma_subscribe_error_rejects_invalid_reason(
    track: FullTrackName,
    error_code: QUICVarint,
    reason_bytes: Seq<u8>,
    rest: Seq<u8>,
)
    requires
        track.encoding() is Ok,
        error_code.encoding() is Ok,
        reason_bytes.len() <= VARINT_MAX,
        !valid_utf8(reason_bytes),
    ensures
        SubscribeError::decoding(
            seq![MessageType::SubscribeError.spec_tag()] + track.encoding()->Ok_0
                + error_code.encoding()->Ok_0 + varint_bytes(reason_bytes.len() as u64)
                + reason_bytes + rest,
        ) == malformed::<SubscribeErrorView>(
            invalid_utf8_text(),
            1 + track.encoding()->Ok_0.len() + error_code.encoding()->Ok_0.len() + varint_len(
                reason_bytes.len() as u64,
            ) + reason_bytes.len(),
        ),
{
    let name = track.encoding()->Ok_0;
    let code = error_code.encoding()->Ok_0;
    let reason = varint_bytes(reason_bytes.len() as u64) + reason_bytes;
    let input = seq![MessageType::SubscribeError.spec_tag()] + name + code + varint_bytes(
        reason_bytes.len() as u64,
    ) + reason_bytes + rest;
    let b = name.len();
    let c = code.len();
    lemma_full_track_name_round_trip(track, code + reason + rest);
    lemma_varint_round_trip(error_code.0, reason + rest);
    lemma_invalid_utf8_is_decoding_error(reason_bytes, rest);
    assert(input.skip(1) =~= name + (code + reason + rest));
    assert(input.skip((1 + b) as int) =~= code + (reason + rest));
    assert(input.skip((1 + b + c) as int) =~= varint_bytes(reason_bytes.len() as u64)
        + reason_bytes + rest);
}

} // verus!
