//! Probes by the site's name inside TLS.
//!
//! Modern blocking rarely goes by address. More often a filter reads the
//! site's name in the first packet of a TLS handshake and breaks the
//! connection if the name is on a list. From outside this looks like a site
//! that is down; only a comparison tells the two apart. The same address is
//! therefore tried several times, with exactly one thing changed.
//!
//! The handshake is put together by hand: what is in the first packet, and
//! when it leaves, has to be controlled to the byte.

use vstd::prelude::*;
use vstd::string::StringExecFns;
use vstd::utf8::encode_utf8;
use std::hash::{BuildHasher, RandomState};
use crate::bytes::{be16, be24, copied, lemma_be16, put, put16, put24, word, word_of};
use crate::text::{dec, decimal};
use crate::time::Duration;
use super::probe::ErrorKind;

verus! {

/// How an attempt to start a handshake ended.
#[derive(Debug, PartialEq, Eq)]
pub enum Outcome {
    /// The server answered with its part of the handshake.
    ServerHello { rtt: Duration },
    /// The server declined with a TLS alert: it did not like something, but it
    /// was the server that answered.
    Alert { rtt: Duration, code: u8 },
    /// The connection was reset, the main sign of interference.
    Reset { after: Duration },
    /// Closed without an answer and without a reset.
    Closed { after: Duration },
    /// Silence until the time ran out.
    Timeout,
    /// Not even a connection could be made.
    ConnectFailed { error: String },
}

#[verifier::ext_equal]
pub enum OutcomeView {
    ServerHello { rtt: Duration },
    Alert { rtt: Duration, code: u8 },
    Reset { after: Duration },
    Closed { after: Duration },
    Timeout,
    ConnectFailed { error: Seq<char> },
}

impl View for Outcome {
    type V = OutcomeView;

    open spec fn view(&self) -> OutcomeView {
        match self {
            Outcome::ServerHello { rtt } => OutcomeView::ServerHello { rtt: *rtt },
            Outcome::Alert { rtt, code } => OutcomeView::Alert { rtt: *rtt, code: *code },
            Outcome::Reset { after } => OutcomeView::Reset { after: *after },
            Outcome::Closed { after } => OutcomeView::Closed { after: *after },
            Outcome::Timeout => OutcomeView::Timeout,
            Outcome::ConnectFailed { error } => OutcomeView::ConnectFailed { error: error@ },
        }
    }
}

impl OutcomeView {
    /// Whether the server itself answered.
    pub open spec fn answered(self) -> bool {
        self is ServerHello || self is Alert
    }

    /// Whether the connection broke: by reset, closing or silence.
    pub open spec fn broken(self) -> bool {
        self is Reset || self is Closed || self is Timeout
    }

    /// How long the reaction took, if there was one.
    pub open spec fn delay(self) -> Option<Duration> {
        match self {
            OutcomeView::ServerHello { rtt } => Some(rtt),
            OutcomeView::Alert { rtt, code } => Some(rtt),
            OutcomeView::Reset { after } => Some(after),
            OutcomeView::Closed { after } => Some(after),
            _ => None,
        }
    }

    pub open spec fn description(self) -> Seq<char> {
        match self {
            OutcomeView::ServerHello { rtt } => "сервер ответил за "@ + dec(rtt.millis())
                + " мс"@,
            OutcomeView::Alert { rtt, code } => "сервер отклонил соединение за "@ + dec(
                rtt.millis(),
            ) + " мс (код "@ + dec(code as nat) + ")"@,
            OutcomeView::Reset { after } => "соединение сброшено через "@ + dec(
                after.millis(),
            ) + " мс"@,
            OutcomeView::Closed { after } => "соединение закрыто без ответа через "@ + dec(
                after.millis(),
            ) + " мс"@,
            OutcomeView::Timeout => "ответа нет"@,
            OutcomeView::ConnectFailed { error } => "не удалось соединиться: "@ + error,
        }
    }
}

/// An attempt that the server answered is not broken.
pub proof fn answered_is_not_broken(outcome: OutcomeView)
    ensures
        !(outcome.answered() && outcome.broken()),
        outcome.answered() ==> outcome.delay() is Some,
{
}

impl Outcome {
    pub fn is_answered(&self) -> (r: bool)
        ensures
            r == self@.answered(),
    {
        match self {
            Outcome::ServerHello { .. } => true,
            Outcome::Alert { .. } => true,
            _ => false,
        }
    }

    pub fn is_broken(&self) -> (r: bool)
        ensures
            r == self@.broken(),
    {
        match self {
            Outcome::Reset { .. } => true,
            Outcome::Closed { .. } => true,
            Outcome::Timeout => true,
            _ => false,
        }
    }

    pub fn latency(&self) -> (r: Option<Duration>)
        ensures
            r == self@.delay(),
    {
        match self {
            Outcome::ServerHello { rtt } => Some(*rtt),
            Outcome::Alert { rtt, .. } => Some(*rtt),
            Outcome::Reset { after } => Some(*after),
            Outcome::Closed { after } => Some(*after),
            _ => None,
        }
    }

    pub fn describe(&self) -> (r: String)
        ensures
            r@ == self@.description(),
    {
        match self {
            Outcome::ServerHello { rtt } => String::from_str("сервер ответил за ").concat(
                decimal(rtt.as_millis()).as_str(),
            ).concat(" мс"),
            Outcome::Alert { rtt, code } => String::from_str(
                "сервер отклонил соединение за ",
            ).concat(decimal(rtt.as_millis()).as_str()).concat(" мс (код ").concat(
                decimal(*code as u128).as_str(),
            ).concat(")"),
            Outcome::Reset { after } => String::from_str("соединение сброшено через ").concat(
                decimal(after.as_millis()).as_str(),
            ).concat(" мс"),
            Outcome::Closed { after } => String::from_str(
                "соединение закрыто без ответа через ",
            ).concat(decimal(after.as_millis()).as_str()).concat(" мс"),
            Outcome::Timeout => String::from_str("ответа нет"),
            Outcome::ConnectFailed { error } => String::from_str(
                "не удалось соединиться: ",
            ).concat(error.as_str()),
        }
    }
}

impl Clone for Outcome {
    fn clone(&self) -> (r: Self)
        ensures
            r@ == self@,
    {
        match self {
            Outcome::ServerHello { rtt } => Outcome::ServerHello { rtt: *rtt },
            Outcome::Alert { rtt, code } => Outcome::Alert { rtt: *rtt, code: *code },
            Outcome::Reset { after } => Outcome::Reset { after: *after },
            Outcome::Closed { after } => Outcome::Closed { after: *after },
            Outcome::Timeout => Outcome::Timeout,
            Outcome::ConnectFailed { error } => Outcome::ConnectFailed { error: error.clone() },
        }
    }
}

/// How the handshake is sent.
#[derive(Debug, Clone, Copy, PartialEq, Eq, Structural)]
pub enum Delivery {
    /// In one piece, as a browser does.
    Whole,
    /// In two parts with a pause.
    ///
    /// A difference between the two proves that equipment on the way reads the
    /// site's name: a real server does not care in how many pieces data comes.
    Split,
}

/// Where the name of the site begins in the first packet; its length stands in
/// the two bytes before.
pub const NAME_AT: usize = 77;

/// Where a split handshake is cut: in the middle, or in the middle of the name
/// where that would leave the name in one piece. A name in one piece would be
/// read by a filter all the same.
pub open spec fn cut_point(hello: Seq<u8>) -> int {
    let half = if hello.len() / 2 < 1 {
        1
    } else {
        (hello.len() / 2) as int
    };
    if hello.len() < NAME_AT {
        half
    } else {
        let name_len = word(hello[NAME_AT - 2], hello[NAME_AT - 1]);
        if name_len == 0 || NAME_AT + name_len > hello.len() || NAME_AT < half < NAME_AT
            + name_len {
            half
        } else {
            NAME_AT + name_len / 2
        }
    }
}

/// The pieces in which a handshake is written to the socket.
pub open spec fn portions_of(hello: Seq<u8>, delivery: Delivery) -> Seq<Seq<u8>> {
    match delivery {
        Delivery::Whole => seq![hello],
        Delivery::Split => seq![hello.take(cut_point(hello)), hello.skip(cut_point(hello))],
    }
}

pub open spec fn byte_views(pieces: Seq<Vec<u8>>) -> Seq<Seq<u8>> {
    pieces.map_values(|p: Vec<u8>| p@)
}

fn cut_of(hello: &[u8]) -> (r: usize)
    requires
        hello@.len() > 0,
    ensures
        r == cut_point(hello@),
        0 < r <= hello@.len(),
{
    let half: usize = if hello.len() / 2 < 1 {
        1
    } else {
        hello.len() / 2
    };
    if hello.len() < NAME_AT {
        return half;
    }
    let name_len: usize = word_of(hello[NAME_AT - 2], hello[NAME_AT - 1]) as usize;
    if name_len == 0 || name_len > hello.len() - NAME_AT || (NAME_AT < half && half - NAME_AT
        < name_len) {
        half
    } else {
        NAME_AT + name_len / 2
    }
}

/// The pieces in which a handshake is written to the socket, in order.
pub fn portions(hello: &[u8], delivery: Delivery) -> (r: Vec<Vec<u8>>)
    requires
        hello@.len() > 0,
    ensures
        byte_views(r@) == portions_of(hello@, delivery),
{
    let mut out: Vec<Vec<u8>> = Vec::new();
    match delivery {
        Delivery::Whole => {
            out.push(copied(hello, 0, hello.len()));
            assert(hello@.subrange(0, hello@.len() as int) =~= hello@);
        },
        Delivery::Split => {
            let cut = cut_of(hello);
            out.push(copied(hello, 0, cut));
            out.push(copied(hello, cut, hello.len()));
            assert(hello@.subrange(0, cut as int) =~= hello@.take(cut as int));
            assert(hello@.subrange(cut as int, hello@.len() as int) =~= hello@.skip(cut as int));
        },
    }
    assert(byte_views(out@) =~= portions_of(hello@, delivery));
    out
}

/// Cutting a handshake in two loses nothing: the server puts the parts
/// together again.
pub proof fn split_delivery_keeps_the_stream(hello: Seq<u8>)
    requires
        hello.len() > 0,
    ensures
        portions_of(hello, Delivery::Split).len() == 2,
        portions_of(hello, Delivery::Split)[0] + portions_of(hello, Delivery::Split)[1] == hello,
        portions_of(hello, Delivery::Split)[0].len() > 0,
{
    let c = cut_point(hello);
    assert(hello.take(c) + hello.skip(c) =~= hello);
}

/// The handshake payload of a stream of TLS records, as far as they are
/// complete.
pub open spec fn handshake_payload(bytes: Seq<u8>) -> Seq<u8>
    decreases bytes.len(),
{
    if bytes.len() < 5 {
        Seq::empty()
    } else {
        let end = 5 + word(bytes[3], bytes[4]);
        if end > bytes.len() {
            Seq::empty()
        } else {
            let inside = if bytes[0] == 0x16 {
                bytes.subrange(5, end as int)
            } else {
                Seq::empty()
            };
            inside + handshake_payload(bytes.skip(end as int))
        }
    }
}

/// The complete handshake messages of a payload: their types and contents.
pub open spec fn messages_of(payload: Seq<u8>) -> Seq<(u8, Seq<u8>)>
    decreases payload.len(),
{
    if payload.len() < 4 {
        Seq::empty()
    } else {
        let end = 4 + payload[1] * 65536 + word(payload[2], payload[3]);
        if end > payload.len() {
            Seq::empty()
        } else {
            seq![(payload[0], payload.subrange(4, end as int))] + messages_of(
                payload.skip(end as int),
            )
        }
    }
}

pub open spec fn message_views(messages: Seq<(u8, Vec<u8>)>) -> Seq<(u8, Seq<u8>)> {
    messages.map_values(|m: (u8, Vec<u8>)| (m.0, m.1@))
}

/// Collects the handshake messages of a stream of TLS records.
///
/// A message may be cut across records, and a record may hold several, so the
/// contents are joined first.
pub fn handshake_messages(bytes: &[u8]) -> (r: Vec<(u8, Vec<u8>)>)
    ensures
        message_views(r@) == messages_of(handshake_payload(bytes@)),
{
    let mut payload: Vec<u8> = Vec::new();
    let mut pos: usize = 0;
    let total: usize = bytes.len();
    let ghost whole = handshake_payload(bytes@);
    assert(bytes@.skip(0) =~= bytes@);
    assert(payload@ + whole =~= whole);
    loop
        invariant
            total == bytes@.len(),
            pos <= total,
            payload@ + handshake_payload(bytes@.skip(pos as int)) == whole,
        ensures
            payload@ == whole,
        decreases total - pos,
    {
        let ghost rest = bytes@.skip(pos as int);
        assert(payload@ + Seq::<u8>::empty() =~= payload@);
        if total - pos < 5 {
            break;
        }
        let len: usize = word_of(bytes[pos + 3], bytes[pos + 4]) as usize;
        if len > total - pos - 5 {
            break;
        }
        let end: usize = pos + 5 + len;
        proof {
            assert(rest.skip(5 + len) =~= bytes@.skip(end as int));
            assert(rest.subrange(5, 5 + len) =~= bytes@.subrange(pos + 5, end as int));
        }
        let ghost was = payload@;
        if bytes[pos] == 0x16 {
            let inside = copied(bytes, pos + 5, end);
            put(&mut payload, inside.as_slice());
            assert(payload@ + handshake_payload(bytes@.skip(end as int)) =~= was + (rest.subrange(
                5,
                5 + len,
            ) + handshake_payload(rest.skip(5 + len))));
        } else {
            assert(payload@ + handshake_payload(bytes@.skip(end as int)) =~= was + (
            Seq::<u8>::empty() + handshake_payload(rest.skip(5 + len))));
        }
        pos = end;
    }
    let mut messages: Vec<(u8, Vec<u8>)> = Vec::new();
    let mut i: usize = 0;
    let size: usize = payload.len();
    let ghost all = messages_of(whole);
    assert(whole.skip(0) =~= whole);
    assert(message_views(messages@) + all =~= all);
    loop
        invariant
            size == payload@.len(),
            i <= size,
            message_views(messages@) + messages_of(payload@.skip(i as int)) == all,
        ensures
            message_views(messages@) == all,
        decreases size - i,
    {
        let ghost rest = payload@.skip(i as int);
        assert(message_views(messages@) + Seq::<(u8, Seq<u8>)>::empty() =~= message_views(
            messages@,
        ));
        if size - i < 4 {
            break;
        }
        let len: usize = (payload[i + 1] as usize) * 65536 + word_of(
            payload[i + 2],
            payload[i + 3],
        ) as usize;
        if len > size - i - 4 {
            break;
        }
        let end: usize = i + 4 + len;
        let ghost was = messages@;
        let kind = payload[i];
        let inside = copied(payload.as_slice(), i + 4, end);
        messages.push((kind, inside));
        proof {
            assert(rest.skip(4 + len) =~= payload@.skip(end as int));
            assert(rest.subrange(4, 4 + len) =~= payload@.subrange(i + 4, end as int));
            assert(message_views(messages@) =~= message_views(was).push((kind, inside@)));
            assert(message_views(messages@) + messages_of(payload@.skip(end as int))
                =~= message_views(was) + (seq![(rest[0], rest.subrange(4, 4 + len))] + messages_of(
                rest.skip(4 + len),
            )));
        }
        i = end;
    }
    messages
}

/// Whether a list of messages holds a certificate.
pub open spec fn holds_certificate(messages: Seq<(u8, Seq<u8>)>) -> bool {
    exists|i: int| 0 <= i < messages.len() && (#[trigger] messages[i]).0 == 11
}

/// Whether the message with the certificate has come: there is nothing more
/// to read then.
pub fn has_certificate(bytes: &[u8]) -> (r: bool)
    ensures
        r == holds_certificate(messages_of(handshake_payload(bytes@))),
{
    let messages = handshake_messages(bytes);
    let ghost views = message_views(messages@);
    let mut i: usize = 0;
    while i < messages.len()
        invariant
            i <= messages@.len(),
            views == message_views(messages@),
            views == messages_of(handshake_payload(bytes@)),
            forall|j: int| 0 <= j < i ==> (#[trigger] views[j]).0 != 11,
        decreases messages@.len() - i,
    {
        assert(views[i as int] == (messages@[i as int].0, messages@[i as int].1@));
        if messages[i].0 == 11 {
            return true;
        }
        i += 1;
    }
    false
}

pub open spec fn error_outcome(kind: ErrorKind, after: Duration) -> OutcomeView {
    match kind {
        ErrorKind::ConnectionReset => OutcomeView::Reset { after },
        ErrorKind::ConnectionAborted => OutcomeView::Reset { after },
        ErrorKind::TimedOut => OutcomeView::Timeout,
        ErrorKind::WouldBlock => OutcomeView::Timeout,
        _ => OutcomeView::Closed { after },
    }
}

/// What a socket error says of the connection.
pub fn classify_error(kind: ErrorKind, after: Duration) -> (r: Outcome)
    ensures
        r@ == error_outcome(kind, after),
{
    match kind {
        ErrorKind::ConnectionReset => Outcome::Reset { after },
        ErrorKind::ConnectionAborted => Outcome::Reset { after },
        ErrorKind::TimedOut => Outcome::Timeout,
        ErrorKind::WouldBlock => Outcome::Timeout,
        _ => Outcome::Closed { after },
    }
}

pub open spec fn response_outcome(bytes: Seq<u8>, rtt: Duration) -> OutcomeView {
    if bytes.len() > 0 && bytes[0] == 0x16 {
        OutcomeView::ServerHello { rtt }
    } else if bytes.len() > 0 && bytes[0] == 0x15 {
        OutcomeView::Alert {
            rtt,
            code: if bytes.len() > 6 {
                bytes[6]
            } else {
                0
            },
        }
    } else {
        OutcomeView::Closed { after: rtt }
    }
}

/// What a response is. Its first byte tells a handshake from an alert; of an
/// alert the second byte of the contents, its code, is of interest.
pub fn classify_response(bytes: &[u8], rtt: Duration) -> (r: Outcome)
    ensures
        r@ == response_outcome(bytes@, rtt),
{
    if bytes.len() > 0 && bytes[0] == 0x16 {
        Outcome::ServerHello { rtt }
    } else if bytes.len() > 0 && bytes[0] == 0x15 {
        let code: u8 = if bytes.len() > 6 {
            bytes[6]
        } else {
            0
        };
        Outcome::Alert { rtt, code }
    } else {
        Outcome::Closed { after: rtt }
    }
}

/// The most that is read of a talkative server.
pub const READ_LIMIT: usize = 32768;

/// What happened on the socket of a probe.
#[derive(Debug)]
pub enum SocketEvent {
    ConnectFailed { error: String },
    SetupFailed,
    Connected,
    Sent,
    SendFailed { kind: ErrorKind },
    Data { bytes: Vec<u8> },
    End,
    ReadFailed { kind: ErrorKind },
}

/// What a probe does next.
#[derive(Debug)]
pub enum SocketAction {
    /// Write these pieces, with a pause between them, and flush.
    Send { pieces: Vec<Vec<u8>> },
    /// Read what has come.
    Read,
    /// Stop, with this outcome and this raw response.
    Done { outcome: Outcome, received: Vec<u8> },
}

#[verifier::ext_equal]
pub enum ActionView {
    Send { pieces: Seq<Seq<u8>> },
    Read,
    Done { outcome: OutcomeView, received: Seq<u8> },
}

impl View for SocketAction {
    type V = ActionView;

    open spec fn view(&self) -> ActionView {
        match self {
            SocketAction::Send { pieces } => ActionView::Send { pieces: byte_views(pieces@) },
            SocketAction::Read => ActionView::Read,
            SocketAction::Done { outcome, received } => ActionView::Done {
                outcome: outcome@,
                received: received@,
            },
        }
    }
}

/// One probe: a handshake to send, and what came back of it.
///
/// In TLS 1.3 the server's certificate is encrypted, so a probe that wants it
/// does not offer that version.
#[derive(Debug)]
pub struct Dialogue {
    pub hello: Vec<u8>,
    pub delivery: Delivery,
    pub allow_tls13: bool,
    pub received: Vec<u8>,
}

/// Whether enough of the response has come: the server waits for an answer
/// that it will not get.
pub open spec fn enough(received: Seq<u8>, allow_tls13: bool) -> bool {
    received.len() > READ_LIMIT || allow_tls13 || holds_certificate(
        messages_of(handshake_payload(received)),
    )
}

/// The conclusion from all that came.
pub open spec fn concluded(received: Seq<u8>, elapsed: Duration) -> ActionView {
    ActionView::Done {
        outcome: if received.len() == 0 {
            OutcomeView::Closed { after: elapsed }
        } else {
            response_outcome(received, elapsed)
        },
        received,
    }
}

impl Dialogue {
    pub fn new(sni: &str, delivery: Delivery, allow_tls13: bool) -> (r: Self)
        ensures
            r.delivery == delivery,
            r.allow_tls13 == allow_tls13,
            r.received@ == Seq::<u8>::empty(),
            r.hello@.len() > 0,
            exists|random: Seq<u8>, key: Seq<u8>|
                random.len() == 32 && key.len() == 32 && r.hello@ == #[trigger] hello_bytes(
                    encode_utf8(sni@),
                    allow_tls13,
                    random,
                    key,
                ),
    {
        Dialogue {
            hello: client_hello_versioned(sni, allow_tls13),
            delivery,
            allow_tls13,
            received: Vec::new(),
        }
    }

    pub open spec fn received_after(self, event: SocketEvent) -> Seq<u8> {
        match event {
            SocketEvent::Data { bytes } => self.received@ + bytes@,
            _ => self.received@,
        }
    }

    pub open spec fn answer(self, event: SocketEvent, elapsed: Duration) -> ActionView {
        let received = self.received_after(event);
        match event {
            SocketEvent::ConnectFailed { error } => ActionView::Done {
                outcome: OutcomeView::ConnectFailed { error: error@ },
                received: Seq::empty(),
            },
            SocketEvent::SetupFailed => ActionView::Done {
                outcome: OutcomeView::ConnectFailed { error: "не удалось настроить сокет"@ },
                received: Seq::empty(),
            },
            SocketEvent::Connected => ActionView::Send {
                pieces: portions_of(self.hello@, self.delivery),
            },
            SocketEvent::Sent => ActionView::Read,
            SocketEvent::SendFailed { kind } => ActionView::Done {
                outcome: error_outcome(kind, elapsed),
                received: Seq::empty(),
            },
            SocketEvent::Data { bytes } => if enough(received, self.allow_tls13) {
                concluded(received, elapsed)
            } else {
                ActionView::Read
            },
            SocketEvent::End => concluded(received, elapsed),
            SocketEvent::ReadFailed { kind } => if received.len() == 0 {
                ActionView::Done { outcome: error_outcome(kind, elapsed), received: Seq::empty() }
            } else {
                concluded(received, elapsed)
            },
        }
    }

    fn conclude(&self, elapsed: Duration) -> (r: SocketAction)
        ensures
            r@ == concluded(self.received@, elapsed),
    {
        let outcome = if self.received.len() == 0 {
            Outcome::Closed { after: elapsed }
        } else {
            classify_response(self.received.as_slice(), elapsed)
        };
        let received = copied(self.received.as_slice(), 0, self.received.len());
        assert(received@ =~= self.received@);
        SocketAction::Done { outcome, received }
    }

    /// What to do after something happened, `elapsed` after the handshake
    /// began to be sent.
    ///
    /// Not one packet is read but all that the server sends: a certificate does
    /// not fit in the first record.
    pub fn step(&mut self, event: SocketEvent, elapsed: Duration) -> (r: SocketAction)
        requires
            old(self).hello@.len() > 0,
        ensures
            r@ == old(self).answer(event, elapsed),
            final(self).received@ == old(self).received_after(event),
            final(self).hello@ == old(self).hello@,
            final(self).delivery == old(self).delivery,
            final(self).allow_tls13 == old(self).allow_tls13,
    {
        match event {
            SocketEvent::ConnectFailed { error } => SocketAction::Done {
                outcome: Outcome::ConnectFailed { error },
                received: Vec::new(),
            },
            SocketEvent::SetupFailed => SocketAction::Done {
                outcome: Outcome::ConnectFailed {
                    error: String::from_str("не удалось настроить сокет"),
                },
                received: Vec::new(),
            },
            SocketEvent::Connected => SocketAction::Send {
                pieces: portions(self.hello.as_slice(), self.delivery),
            },
            SocketEvent::Sent => SocketAction::Read,
            SocketEvent::SendFailed { kind } => SocketAction::Done {
                outcome: classify_error(kind, elapsed),
                received: Vec::new(),
            },
            SocketEvent::Data { bytes } => {
                put(&mut self.received, bytes.as_slice());
                if self.received.len() > READ_LIMIT || self.allow_tls13 || has_certificate(
                    self.received.as_slice(),
                ) {
                    self.conclude(elapsed)
                } else {
                    SocketAction::Read
                }
            },
            SocketEvent::End => self.conclude(elapsed),
            SocketEvent::ReadFailed { kind } => {
                if self.received.len() == 0 {
                    SocketAction::Done {
                        outcome: classify_error(kind, elapsed),
                        received: Vec::new(),
                    }
                } else {
                    self.conclude(elapsed)
                }
            },
        }
    }
}

/// A TLS extension.
pub open spec fn extension_bytes(kind: nat, payload: Seq<u8>) -> Seq<u8> {
    be16(kind) + be16(payload.len()) + payload
}

/// The extension with the name of the site.
pub open spec fn name_extension(name: Seq<u8>) -> Seq<u8> {
    extension_bytes(0, be16(name.len() + 3) + seq![0u8] + be16(name.len()) + name)
}

/// The extension with a key share for x25519.
pub open spec fn key_extension(key: Seq<u8>) -> Seq<u8> {
    extension_bytes(0x33, be16(key.len() + 4) + be16(0x1D) + be16(key.len()) + key)
}

/// The extensions of TLS 1.3: versions, key exchange modes and a key.
pub open spec fn tls13_extensions(key: Seq<u8>) -> Seq<u8> {
    extension_bytes(0x2B, seq![0x04u8, 0x03, 0x04, 0x03, 0x03]) + extension_bytes(
        0x2D,
        seq![0x01u8, 0x01],
    ) + key_extension(key)
}

pub open spec fn hello_extensions(name: Seq<u8>, allow_tls13: bool, key: Seq<u8>) -> Seq<u8> {
    let common = name_extension(name) + extension_bytes(
        0x0A,
        seq![0x00u8, 0x04, 0x00, 0x1D, 0x00, 0x17],
    ) + extension_bytes(0x0B, seq![0x01u8, 0x00]) + extension_bytes(
        0x0D,
        seq![0x00u8, 0x08, 0x04, 0x03, 0x08, 0x04, 0x04, 0x01, 0x02, 0x01],
    );
    if allow_tls13 {
        common + tls13_extensions(key)
    } else {
        common
    }
}

/// The cipher suites on offer, with their length in front: three of TLS 1.3,
/// four with ECDHE, two to fall back on.
pub open spec fn suite_bytes() -> Seq<u8> {
    seq![
        0x00u8, 0x12, 0x13, 0x01, 0x13, 0x02, 0x13, 0x03, 0xC0, 0x2B, 0xC0, 0x2F, 0xC0, 0x2C,
        0xC0, 0x30, 0x00, 0x9C, 0x00, 0x9D,
    ]
}

/// The body of a ClientHello.
pub open spec fn hello_body(
    name: Seq<u8>,
    allow_tls13: bool,
    random: Seq<u8>,
    key: Seq<u8>,
) -> Seq<u8> {
    let extensions = hello_extensions(name, allow_tls13, key);
    seq![0x03u8, 0x03] + random + seq![0u8] + suite_bytes() + seq![1u8, 0] + be16(
        extensions.len(),
    ) + extensions
}

/// A handshake message.
pub open spec fn handshake_bytes(kind: u8, body: Seq<u8>) -> Seq<u8> {
    seq![kind] + be24(body.len()) + body
}

/// A TLS record with a handshake in it.
pub open spec fn record_bytes(handshake: Seq<u8>) -> Seq<u8> {
    seq![0x16u8, 0x03, 0x01] + be16(handshake.len()) + handshake
}

/// The whole first packet.
pub open spec fn hello_bytes(
    name: Seq<u8>,
    allow_tls13: bool,
    random: Seq<u8>,
    key: Seq<u8>,
) -> Seq<u8> {
    record_bytes(handshake_bytes(1, hello_body(name, allow_tls13, random, key)))
}

fn extension(kind: u16, payload: &[u8]) -> (r: Vec<u8>)
    ensures
        r@ == extension_bytes(kind as nat, payload@),
{
    let mut out: Vec<u8> = Vec::new();
    put16(&mut out, kind as u128);
    put16(&mut out, payload.len() as u128);
    put(&mut out, payload);
    assert(out@ =~= extension_bytes(kind as nat, payload@));
    out
}

/// The key share. A server that agreed to TLS 1.3 would decline a hello
/// without it, and every site would look broken. A real key is not needed: it
/// never comes to an exchange of secrets.
fn extension_key_share(key: &[u8]) -> (r: Vec<u8>)
    requires
        key@.len() == 32,
    ensures
        r@ == key_extension(key@),
{
    let mut payload: Vec<u8> = Vec::new();
    put16(&mut payload, key.len() as u128 + 4);
    put16(&mut payload, 0x1D);
    put16(&mut payload, key.len() as u128);
    put(&mut payload, key);
    extension(0x33, payload.as_slice())
}

fn extension_sni(sni: &str) -> (r: Vec<u8>)
    ensures
        r@ == name_extension(encode_utf8(sni@)),
{
    let name = sni.as_bytes();
    let mut payload: Vec<u8> = Vec::new();
    put16(&mut payload, name.len() as u128 + 3);
    payload.push(0);
    put16(&mut payload, name.len() as u128);
    put(&mut payload, name);
    assert(payload@ =~= be16(name@.len() + 3) + seq![0u8] + be16(name@.len()) + name@);
    extension(0, payload.as_slice())
}

fn extensions_with(sni: &str, allow_tls13: bool, key: &[u8]) -> (r: Vec<u8>)
    requires
        key@.len() == 32,
    ensures
        r@ == hello_extensions(encode_utf8(sni@), allow_tls13, key@),
{
    let mut out: Vec<u8> = extension_sni(sni);
    let groups: [u8; 6] = [0x00, 0x04, 0x00, 0x1D, 0x00, 0x17];
    let points: [u8; 2] = [0x01, 0x00];
    let signatures: [u8; 10] = [0x00, 0x08, 0x04, 0x03, 0x08, 0x04, 0x04, 0x01, 0x02, 0x01];
    proof {
        assert(groups@ =~= seq![0x00u8, 0x04, 0x00, 0x1D, 0x00, 0x17]);
        assert(points@ =~= seq![0x01u8, 0x00]);
        assert(signatures@ =~= seq![
            0x00u8, 0x08, 0x04, 0x03, 0x08, 0x04, 0x04, 0x01, 0x02, 0x01,
        ]);
    }
    put(&mut out, extension(0x0A, &groups).as_slice());
    put(&mut out, extension(0x0B, &points).as_slice());
    put(&mut out, extension(0x0D, &signatures).as_slice());
    if allow_tls13 {
        let ghost common = out@;
        let versions: [u8; 5] = [0x04, 0x03, 0x04, 0x03, 0x03];
        let modes: [u8; 2] = [0x01, 0x01];
        proof {
            assert(versions@ =~= seq![0x04u8, 0x03, 0x04, 0x03, 0x03]);
            assert(modes@ =~= seq![0x01u8, 0x01]);
        }
        put(&mut out, extension(0x2B, &versions).as_slice());
        put(&mut out, extension(0x2D, &modes).as_slice());
        put(&mut out, extension_key_share(key).as_slice());
        assert(out@ =~= common + tls13_extensions(key@));
    }
    out
}

/// Puts together the first packet with the given name and random bytes.
pub fn client_hello_with(
    sni: &str,
    allow_tls13: bool,
    random: &[u8],
    key: &[u8],
) -> (r: Vec<u8>)
    requires
        random@.len() == 32,
        key@.len() == 32,
    ensures
        r@ == hello_bytes(encode_utf8(sni@), allow_tls13, random@, key@),
{
    let extensions = extensions_with(sni, allow_tls13, key);
    let suites: [u8; 20] = [
        0x00, 0x12, 0x13, 0x01, 0x13, 0x02, 0x13, 0x03, 0xC0, 0x2B, 0xC0, 0x2F, 0xC0, 0x2C, 0xC0,
        0x30, 0x00, 0x9C, 0x00, 0x9D,
    ];
    assert(suites@ =~= suite_bytes());
    let mut body: Vec<u8> = Vec::new();
    body.push(0x03);
    body.push(0x03);
    put(&mut body, random);
    body.push(0);
    put(&mut body, &suites);
    body.push(1);
    body.push(0);
    put16(&mut body, extensions.len() as u128);
    put(&mut body, extensions.as_slice());
    assert(body@ =~= hello_body(encode_utf8(sni@), allow_tls13, random@, key@));
    let mut handshake: Vec<u8> = Vec::new();
    handshake.push(1);
    put24(&mut handshake, body.len() as u128);
    put(&mut handshake, body.as_slice());
    assert(handshake@ =~= handshake_bytes(1, body@));
    let mut record: Vec<u8> = Vec::new();
    record.push(0x16);
    record.push(0x03);
    record.push(0x01);
    put16(&mut record, handshake.len() as u128);
    put(&mut record, handshake.as_slice());
    assert(record@ =~= record_bytes(handshake@));
    record
}

/// A `RandomState` with keys of its own, from `std::hash::RandomState::new`.
/// Nothing is claimed of the keys.
pub assume_specification[ RandomState::new ]() -> RandomState;

/// `std::hash::BuildHasher::hash_one` of a `RandomState`. The keys are chosen
/// at random in every process, so nothing is claimed of the result.
#[verifier::external_body]
fn hashed(state: &RandomState, value: u64) -> u64 {
    state.hash_one(value)
}

/// The random bytes of a handshake.
///
/// They need not be hard to guess: it never comes to an exchange of keys. They
/// only keep probes from looking like copies of each other.
fn client_random() -> (r: Vec<u8>)
    ensures
        r@.len() == 32,
{
    let mut out: Vec<u8> = Vec::new();
    let mut i: u64 = 0;
    while i < 4
        invariant
            i <= 4,
            out@.len() == 8 * i,
        decreases 4 - i,
    {
        let state = RandomState::new();
        let mut value: u64 = hashed(&state, i);
        let mut j: u64 = 0;
        while j < 8
            invariant
                i < 4,
                j <= 8,
                out@.len() == 8 * i + j,
            decreases 8 - j,
        {
            out.push((value % 256) as u8);
            value = value / 256;
            j += 1;
        }
        i += 1;
    }
    out
}

/// Puts together the first packet with the given name.
///
/// Without `allow_tls13` that version is not offered, so that the server sends
/// its certificate in the clear.
pub fn client_hello_versioned(sni: &str, allow_tls13: bool) -> (r: Vec<u8>)
    ensures
        exists|random: Seq<u8>, key: Seq<u8>|
            random.len() == 32 && key.len() == 32 && r@ == #[trigger] hello_bytes(
                encode_utf8(sni@),
                allow_tls13,
                random,
                key,
            ),
{
    let random = client_random();
    let key = client_random();
    client_hello_with(sni, allow_tls13, random.as_slice(), key.as_slice())
}

/// What stands in a part of bytes stands in the whole, further on.
proof fn lemma_behind(front: Seq<u8>, part: Seq<u8>, i: int, j: int)
    requires
        0 <= i <= j <= part.len(),
    ensures
        (front + part).subrange(front.len() + i, front.len() + j) == part.subrange(i, j),
{
    assert((front + part).subrange(front.len() + i, front.len() + j) =~= part.subrange(i, j));
}

/// The extensions: their length, and the name in the first of them.
proof fn lemma_extensions_len(name: Seq<u8>, allow_tls13: bool, key: Seq<u8>)
    requires
        key.len() == 32,
    ensures
        hello_extensions(name, allow_tls13, key).len() == (if allow_tls13 {
            96 + name.len()
        } else {
            39 + name.len()
        }),
        hello_extensions(name, allow_tls13, key).subrange(9, 9int + name.len()) == name,
        hello_extensions(name, allow_tls13, key).subrange(7, 9) == be16(name.len()),
{
    assert(name_extension(name).subrange(7, 9) =~= be16(name.len()));
    assert(hello_extensions(name, allow_tls13, key).subrange(7, 9) =~= name_extension(
        name,
    ).subrange(7, 9));
    assert(name_extension(name).subrange(9, 9int + name.len()) =~= name);
    assert(hello_extensions(name, allow_tls13, key).subrange(9, 9int + name.len())
        =~= name_extension(name).subrange(9, 9int + name.len()));
}

/// The length of the first packet: a fixed part and the name. The name stands
/// behind its length, at the same place in every packet.
#[verifier::spinoff_prover]
#[verifier::rlimit(60)]
proof fn lemma_hello_len(name: Seq<u8>, allow_tls13: bool, random: Seq<u8>, key: Seq<u8>)
    requires
        random.len() == 32,
        key.len() == 32,
    ensures
        hello_bytes(name, allow_tls13, random, key).len() == (if allow_tls13 {
            164 + name.len()
        } else {
            107 + name.len()
        }),
        hello_bytes(name, allow_tls13, random, key).subrange(77, 77int + name.len()) == name,
        hello_bytes(name, allow_tls13, random, key).subrange(75, 77) == be16(name.len()),
{
    let extensions = hello_extensions(name, allow_tls13, key);
    lemma_extensions_len(name, allow_tls13, key);
    let head = seq![0x03u8, 0x03] + random + seq![0u8] + suite_bytes() + seq![1u8, 0] + be16(
        extensions.len(),
    );
    let body = hello_body(name, allow_tls13, random, key);
    assert(suite_bytes().len() == 20);
    assert(head.len() == 59);
    assert(body == head + extensions);
    lemma_behind(head, extensions, 9, 9int + name.len());
    lemma_behind(head, extensions, 7, 9);
    let front = seq![1u8] + be24(body.len());
    assert(front.len() == 4);
    lemma_behind(front, body, 68, 68int + name.len());
    lemma_behind(front, body, 66, 68);
    let handshake = handshake_bytes(1, body);
    let start = seq![0x16u8, 0x03, 0x01] + be16(handshake.len());
    assert(start.len() == 5);
    lemma_behind(start, handshake, 72, 72int + name.len());
    lemma_behind(start, handshake, 70, 72);
}

/// The name of the site stands in the packet as it is.
pub proof fn hello_carries_the_name(
    name: Seq<u8>,
    allow_tls13: bool,
    random: Seq<u8>,
    key: Seq<u8>,
)
    requires
        random.len() == 32,
        key.len() == 32,
    ensures
        ({
            let hello = hello_bytes(name, allow_tls13, random, key);
            exists|at: int|
                0 <= at <= hello.len() - name.len() && #[trigger] hello.subrange(
                    at,
                    at + name.len(),
                ) == name
        }),
{
    lemma_hello_len(name, allow_tls13, random, key);
    let hello = hello_bytes(name, allow_tls13, random, key);
    assert(hello.subrange(77, 77int + name.len()) == name);
}

/// Packets for different names differ, whatever random bytes they carry.
pub proof fn different_names_differ(
    a: Seq<u8>,
    b: Seq<u8>,
    allow_tls13: bool,
    random_a: Seq<u8>,
    key_a: Seq<u8>,
    random_b: Seq<u8>,
    key_b: Seq<u8>,
)
    requires
        a != b,
        random_a.len() == 32,
        key_a.len() == 32,
        random_b.len() == 32,
        key_b.len() == 32,
    ensures
        hello_bytes(a, allow_tls13, random_a, key_a) != hello_bytes(
            b,
            allow_tls13,
            random_b,
            key_b,
        ),
{
    lemma_hello_len(a, allow_tls13, random_a, key_a);
    lemma_hello_len(b, allow_tls13, random_b, key_b);
}

/// A stream that is one record with one message is read back as that message.
pub proof fn record_is_read_back(kind: u8, body: Seq<u8>)
    requires
        body.len() + 4 < 65536,
    ensures
        messages_of(handshake_payload(record_bytes(handshake_bytes(kind, body)))) == seq![
            (kind, body),
        ],
{
    let message = handshake_bytes(kind, body);
    let record = record_bytes(message);
    lemma_be16(message.len());
    lemma_be16(body.len());
    let n = body.len();
    assert(message.len() == n + 4);
    assert(record.len() == n + 9);
    assert(record[3] == be16(message.len())[0]);
    assert(record[4] == be16(message.len())[1]);
    assert(word(record[3], record[4]) == message.len());
    assert(record.subrange(5, 5int + message.len()) =~= message);
    assert(record.skip(5 + message.len() as int) =~= Seq::<u8>::empty());
    assert(handshake_payload(Seq::<u8>::empty()) == Seq::<u8>::empty());
    assert(handshake_payload(record) =~= message);
    assert(message[1] == 0);
    assert(message[2] == be16(n)[0]);
    assert(message[3] == be16(n)[1]);
    assert(message.subrange(4, 4int + n) =~= body);
    assert(message.skip(4 + n as int) =~= Seq::<u8>::empty());
    assert(messages_of(Seq::<u8>::empty()) == Seq::<(u8, Seq<u8>)>::empty());
    assert(messages_of(message) =~= seq![(kind, body)]);
}

/// Every hello is a well-formed record: what is read back of it is one
/// ClientHello with the body that was put in.
pub proof fn hello_is_well_formed(
    name: Seq<u8>,
    allow_tls13: bool,
    random: Seq<u8>,
    key: Seq<u8>,
)
    requires
        random.len() == 32,
        key.len() == 32,
        hello_bytes(name, allow_tls13, random, key).len() <= 65540,
    ensures
        messages_of(handshake_payload(hello_bytes(name, allow_tls13, random, key))) == seq![
            (1u8, hello_body(name, allow_tls13, random, key)),
        ],
{
    lemma_hello_len(name, allow_tls13, random, key);
    let body = hello_body(name, allow_tls13, random, key);
    assert(hello_bytes(name, allow_tls13, random, key).len() == body.len() + 9);
    record_is_read_back(1, body);
}

/// The types of the extensions in a list of them.
pub open spec fn extension_kinds(bytes: Seq<u8>) -> Seq<nat>
    decreases bytes.len(),
{
    if bytes.len() < 4 {
        Seq::empty()
    } else {
        let end = 4 + word(bytes[2], bytes[3]);
        if end > bytes.len() {
            Seq::empty()
        } else {
            seq![word(bytes[0], bytes[1])] + extension_kinds(bytes.skip(end as int))
        }
    }
}

proof fn lemma_kinds_cons(kind: nat, payload: Seq<u8>, rest: Seq<u8>)
    requires
        kind < 65536,
        payload.len() < 65536,
    ensures
        extension_kinds(extension_bytes(kind, payload) + rest) == seq![kind] + extension_kinds(
            rest,
        ),
{
    let b = extension_bytes(kind, payload) + rest;
    lemma_be16(kind);
    lemma_be16(payload.len());
    assert(b[0] == be16(kind)[0]);
    assert(b[1] == be16(kind)[1]);
    assert(b[2] == be16(payload.len())[0]);
    assert(b[3] == be16(payload.len())[1]);
    assert(b.skip(4 + payload.len() as int) =~= rest);
}

/// A probe that offers TLS 1.3 carries a key share. A probe for the
/// certificate carries no extension of TLS 1.3 at all: a server would choose
/// that version and encrypt the certificate.
pub proof fn extensions_on_offer(name: Seq<u8>, key: Seq<u8>)
    requires
        name.len() + 5 < 65536,
        key.len() == 32,
    ensures
        extension_kinds(hello_extensions(name, true, key)) == seq![
            0x00nat, 0x0A, 0x0B, 0x0D, 0x2B, 0x2D, 0x33,
        ],
        extension_kinds(hello_extensions(name, false, key)) == seq![0x00nat, 0x0A, 0x0B, 0x0D],
{
    let none = Seq::<u8>::empty();
    let p0 = be16(name.len() + 3) + seq![0u8] + be16(name.len()) + name;
    let p1 = seq![0x00u8, 0x04, 0x00, 0x1D, 0x00, 0x17];
    let p2 = seq![0x01u8, 0x00];
    let p3 = seq![0x00u8, 0x08, 0x04, 0x03, 0x08, 0x04, 0x04, 0x01, 0x02, 0x01];
    let p4 = seq![0x04u8, 0x03, 0x04, 0x03, 0x03];
    let p5 = seq![0x01u8, 0x01];
    let p6 = be16(key.len() + 4) + be16(0x1D) + be16(key.len()) + key;
    assert(extension_kinds(none) == Seq::<nat>::empty());
    let t6 = extension_bytes(0x33, p6) + none;
    let t5 = extension_bytes(0x2D, p5) + t6;
    let t4 = extension_bytes(0x2B, p4) + t5;
    lemma_kinds_cons(0x33, p6, none);
    lemma_kinds_cons(0x2D, p5, t6);
    lemma_kinds_cons(0x2B, p4, t5);
    assert(extension_kinds(t4) =~= seq![0x2Bnat, 0x2D, 0x33]);
    lemma_common_kinds(p0, p1, p2, p3, t4);
    lemma_common_kinds(p0, p1, p2, p3, none);
    assert(hello_extensions(name, true, key) =~= extension_bytes(0, p0) + (extension_bytes(
        0x0A,
        p1,
    ) + (extension_bytes(0x0B, p2) + (extension_bytes(0x0D, p3) + t4))));
    assert(hello_extensions(name, false, key) =~= extension_bytes(0, p0) + (extension_bytes(
        0x0A,
        p1,
    ) + (extension_bytes(0x0B, p2) + (extension_bytes(0x0D, p3) + none))));
}

proof fn lemma_common_kinds(
    p0: Seq<u8>,
    p1: Seq<u8>,
    p2: Seq<u8>,
    p3: Seq<u8>,
    rest: Seq<u8>,
)
    requires
        p0.len() < 65536,
        p1.len() < 65536,
        p2.len() < 65536,
        p3.len() < 65536,
    ensures
        extension_kinds(
            extension_bytes(0, p0) + (extension_bytes(0x0A, p1) + (extension_bytes(0x0B, p2) + (
            extension_bytes(0x0D, p3) + rest))),
        ) == seq![0x00nat, 0x0A, 0x0B, 0x0D] + extension_kinds(rest),
{
    let t3 = extension_bytes(0x0D, p3) + rest;
    let t2 = extension_bytes(0x0B, p2) + t3;
    let t1 = extension_bytes(0x0A, p1) + t2;
    lemma_kinds_cons(0x0D, p3, rest);
    lemma_kinds_cons(0x0B, p2, t3);
    lemma_kinds_cons(0x0A, p1, t2);
    lemma_kinds_cons(0, p0, t1);
    assert(seq![0nat] + (seq![0x0Anat] + (seq![0x0Bnat] + (seq![0x0Dnat] + extension_kinds(rest))))
        =~= seq![0x00nat, 0x0A, 0x0B, 0x0D] + extension_kinds(rest));
}

/// Two bytes hold a number up to its low sixteen bits.
proof fn lemma_word_of_be16(n: nat)
    ensures
        word(be16(n)[0], be16(n)[1]) == n % 65536,
{
}

/// The cut of a packet that holds a name where every first packet does.
proof fn lemma_cut(hello: Seq<u8>, n: nat)
    requires
        n > 0,
        hello.len() == 164 + n || hello.len() == 107 + n,
        hello.subrange(75, 77) == be16(n),
    ensures
        portions_of(hello, Delivery::Split)[0].len() < NAME_AT + n,
        2 <= n < 65536 ==> portions_of(hello, Delivery::Split)[0].len() > NAME_AT,
{
    assert(hello.subrange(75, 77)[0] == hello[75]);
    assert(hello.subrange(75, 77)[1] == hello[76]);
    lemma_word_of_be16(n);
}

/// No name is ever wholly in the first part of a split packet: a filter that
/// does not put parts together cannot read it. Where the name has two bytes to
/// part and its length fits in its field, it is the name that is cut.
pub proof fn split_delivery_cuts_the_name(
    name: Seq<u8>,
    allow_tls13: bool,
    random: Seq<u8>,
    key: Seq<u8>,
)
    requires
        random.len() == 32,
        key.len() == 32,
        name.len() > 0,
    ensures
        ({
            let hello = hello_bytes(name, allow_tls13, random, key);
            let first = portions_of(hello, Delivery::Split)[0];
            &&& hello.subrange(NAME_AT as int, NAME_AT + name.len()) == name
            &&& first.len() < NAME_AT + name.len()
            &&& 2 <= name.len() < 65536 ==> first.len() > NAME_AT
        }),
{
    lemma_hello_len(name, allow_tls13, random, key);
    let hello = hello_bytes(name, allow_tls13, random, key);
    lemma_cut(hello, name.len());
}

/// A socket's error tells an interference from silence. A connection reset or
/// aborted from outside is a reset; time that ran out is silence; anything else
/// is a connection that was closed. The first and the last say after how long.
pub proof fn errors_tell_reset_from_silence(kind: ErrorKind, after: Duration)
    ensures
        kind is ConnectionReset || kind is ConnectionAborted ==> error_outcome(kind, after)
            == (OutcomeView::Reset { after }),
        kind is TimedOut || kind is WouldBlock ==> error_outcome(kind, after)
            == OutcomeView::Timeout,
        kind is ConnectionRefused || kind is Other ==> error_outcome(kind, after)
            == (OutcomeView::Closed { after }),
{
}

/// The first byte of an answer says what it is. A handshake record is the
/// server's; so is an alert, whose code is the seventh byte where there is one.
/// Any other answer is none.
pub proof fn the_first_byte_tells_the_answer(bytes: Seq<u8>, rtt: Duration)
    ensures
        bytes.len() > 0 && bytes[0] == 22 ==> response_outcome(bytes, rtt)
            == (OutcomeView::ServerHello { rtt }),
        bytes.len() > 6 && bytes[0] == 21 ==> response_outcome(bytes, rtt) == (OutcomeView::Alert {
            rtt,
            code: bytes[6],
        }),
        0 < bytes.len() <= 6 && bytes[0] == 21 ==> response_outcome(bytes, rtt)
            == (OutcomeView::Alert { rtt, code: 0 }),
        bytes.len() == 0 || (bytes[0] != 21 && bytes[0] != 22) ==> response_outcome(bytes, rtt)
            == (OutcomeView::Closed { after: rtt }),
{
}

/// A server that declines has answered all the same. Reset, closed and silent
/// connections are the broken ones; one that could not be made at all is
/// neither answered nor broken.
pub proof fn a_refusal_is_an_answer(outcome: OutcomeView)
    ensures
        outcome.answered() <==> outcome is ServerHello || outcome is Alert,
        outcome.broken() <==> outcome is Reset || outcome is Closed || outcome is Timeout,
        !outcome.answered() && !outcome.broken() <==> outcome is ConnectFailed,
        outcome is ServerHello ==> outcome.delay() == Some(outcome->ServerHello_rtt),
        outcome is Alert ==> outcome.delay() == Some(outcome->Alert_rtt),
        outcome is Reset ==> outcome.delay() == Some(outcome->Reset_after),
        outcome is Closed ==> outcome.delay() == Some(outcome->Closed_after),
        outcome is Timeout || outcome is ConnectFailed ==> outcome.delay() is None,
{
}

/// Records follow one another. A handshake record gives all that it holds; one
/// of another kind is passed over, and so is what has not wholly come.
pub proof fn records_are_put_together(head: Seq<u8>, inside: Seq<u8>, rest: Seq<u8>)
    requires
        head.len() == 5,
        head[3] * 256 + head[4] == inside.len(),
    ensures
        head[0] == 22 ==> handshake_payload(head + inside + rest) == inside + handshake_payload(
            rest,
        ),
        head[0] != 22 ==> handshake_payload(head + inside + rest) == handshake_payload(rest),
        inside.len() > 0 ==> handshake_payload(head + inside.drop_last()) == Seq::<u8>::empty(),
        handshake_payload(head.drop_last()) == Seq::<u8>::empty(),
{
    let all = head + inside + rest;
    let end = 5 + inside.len();
    assert(all.subrange(5, end as int) =~= inside);
    assert(all.skip(end as int) =~= rest);
    assert(Seq::<u8>::empty() + handshake_payload(rest) =~= handshake_payload(rest));
}

/// Messages follow one another inside the handshake, each with its kind and its
/// whole body; one that has not wholly come is left out.
pub proof fn messages_are_taken_one_by_one(head: Seq<u8>, body: Seq<u8>, rest: Seq<u8>)
    requires
        head.len() == 4,
        head[1] * 65536 + head[2] * 256 + head[3] == body.len(),
    ensures
        messages_of(head + body + rest) == seq![(head[0], body)] + messages_of(rest),
        body.len() > 0 ==> messages_of(head + body.drop_last()) == Seq::<(u8, Seq<u8>)>::empty(),
        messages_of(head.drop_last()) == Seq::<(u8, Seq<u8>)>::empty(),
{
    let all = head + body + rest;
    let end = 4 + body.len();
    assert(all.subrange(4, end as int) =~= body);
    assert(all.skip(end as int) =~= rest);
}

/// What a probe does next. Connected, it sends the whole hello and nothing else;
/// then it reads. It goes on reading while the certificate is wanted, has not
/// come, and no more than the limit has. What has come is kept, in order, and
/// handed over at the end.
pub proof fn a_probe_reads_until_it_knows(d: Dialogue, event: SocketEvent, elapsed: Duration)
    requires
        d.hello@.len() > 0,
    ensures
        event is Connected ==> ({
            let pieces = d.answer(event, elapsed)->pieces;
            &&& d.answer(event, elapsed) is Send
            &&& d.delivery is Whole ==> pieces.len() == 1 && pieces[0] == d.hello@
            &&& d.delivery is Split ==> pieces.len() == 2 && pieces[0] + pieces[1] == d.hello@
                && pieces[0].len() > 0
        }),
        event is Sent ==> d.answer(event, elapsed) is Read,
        event is ConnectFailed ==> d.answer(event, elapsed) == (ActionView::Done {
            outcome: OutcomeView::ConnectFailed { error: event->ConnectFailed_error@ },
            received: Seq::empty(),
        }),
        event is SetupFailed ==> d.answer(event, elapsed) is Done && d.answer(
            event,
            elapsed,
        )->outcome is ConnectFailed,
        event matches SocketEvent::Data { bytes } ==> ({
            let got = d.received@ + bytes@;
            let messages = messages_of(handshake_payload(got));
            &&& d.answer(event, elapsed) is Read <==> got.len() <= 32768 && !d.allow_tls13
                && forall|i: int| 0 <= i < messages.len() ==> (#[trigger] messages[i]).0 != 11
            &&& d.answer(event, elapsed) !is Read ==> d.answer(event, elapsed) is Done && d.answer(
                event,
                elapsed,
            )->received == got
        }),
        event is End ==> d.answer(event, elapsed) is Done && d.answer(event, elapsed)->received
            == d.received@ && (d.received@.len() == 0 ==> d.answer(event, elapsed)->outcome == (
        OutcomeView::Closed { after: elapsed })),
        event is ReadFailed && d.received@.len() > 0 ==> d.answer(event, elapsed) is Done
            && d.answer(event, elapsed)->received == d.received@ && (d.received@[0] == 22
            ==> d.answer(event, elapsed)->outcome == (OutcomeView::ServerHello { rtt: elapsed })),
        event is ReadFailed && d.received@.len() == 0 && event->ReadFailed_kind is ConnectionReset
            ==> d.answer(event, elapsed)->outcome == (OutcomeView::Reset { after: elapsed }),
        event is ReadFailed && d.received@.len() == 0 && event->ReadFailed_kind is TimedOut
            ==> d.answer(event, elapsed)->outcome == OutcomeView::Timeout,
        event is SendFailed && event->SendFailed_kind is ConnectionReset ==> d.answer(
            event,
            elapsed,
        )->outcome == (OutcomeView::Reset { after: elapsed }),
{
    split_delivery_keeps_the_stream(d.hello@);
}

/// How the first packet is laid out: a handshake record with a hello in it, the
/// version of TLS 1.2, the random bytes, no session, nine cipher suites, no
/// compression. Where TLS 1.3 is offered, the packet ends with the key.
pub proof fn a_hello_is_laid_out(name: Seq<u8>, allow_tls13: bool, random: Seq<u8>, key: Seq<u8>)
    requires
        random.len() == 32,
        key.len() == 32,
    ensures
        ({
            let hello = hello_bytes(name, allow_tls13, random, key);
            &&& hello.take(3) == seq![22u8, 3, 1]
            &&& hello[5] == 1
            &&& hello[9] == 3 && hello[10] == 3
            &&& hello.subrange(11, 43) == random
            &&& hello[43] == 0
            &&& hello.subrange(44, 66) == seq![
                0u8, 18, 0x13, 0x01, 0x13, 0x02, 0x13, 0x03, 0xC0, 0x2B, 0xC0, 0x2F, 0xC0, 0x2C,
                0xC0, 0x30, 0x00, 0x9C, 0x00, 0x9D, 1, 0,
            ]
            &&& hello.subrange(77, 77int + name.len()) == name
            &&& hello.subrange(77int + name.len(), 107int + name.len()) == seq![
                0u8, 10, 0, 6, 0, 4, 0, 0x1D, 0, 0x17, 0, 11, 0, 2, 1, 0, 0, 13, 0, 10, 0, 8, 4, 3,
                8, 4, 4, 1, 2, 1,
            ]
            &&& !allow_tls13 ==> hello.len() == 107 + name.len()
            &&& allow_tls13 ==> hello.subrange(107int + name.len(), 132int + name.len()) == seq![
                0u8, 0x2B, 0, 5, 4, 3, 4, 3, 3, 0, 0x2D, 0, 2, 1, 1, 0, 0x33, 0, 38, 0, 36, 0, 0x1D,
                0, 32,
            ]
            &&& allow_tls13 ==> hello.skip(132int + name.len()) == key
        }),
{
    lemma_hello_len(name, allow_tls13, random, key);
    lemma_behind_the_name(name, allow_tls13, key);
    let hello = hello_bytes(name, allow_tls13, random, key);
    let ext = hello_extensions(name, allow_tls13, key);
    lemma_before_the_extensions(ext, random);
    let front = hello_front(ext.len(), random);
    lemma_front_and_extensions(name, allow_tls13, random, key);
    lemma_parts_of_both(front, ext, name.len() as int);
}

proof fn lemma_front_and_extensions(
    name: Seq<u8>,
    allow_tls13: bool,
    random: Seq<u8>,
    key: Seq<u8>,
)
    requires
        random.len() == 32,
    ensures
        hello_bytes(name, allow_tls13, random, key) == hello_front(
            hello_extensions(name, allow_tls13, key).len(),
            random,
        ) + hello_extensions(name, allow_tls13, key),
{
    let ext = hello_extensions(name, allow_tls13, key);
    lemma_same_bytes(seq![0x03u8, 0x03] + random + seq![0u8] + suite_bytes() + seq![1u8, 0], ext);
}

proof fn lemma_same_bytes(start: Seq<u8>, ext: Seq<u8>)
    requires
        start.len() == 57,
    ensures
        record_bytes(handshake_bytes(1, start + be16(ext.len()) + ext)) == seq![0x16u8, 0x03, 0x01]
            + be16(ext.len() + 63) + (seq![1u8] + be24(ext.len() + 59)) + (start + be16(ext.len()))
            + ext,
{
    let body = start + be16(ext.len()) + ext;
    assert(body.len() == ext.len() + 59);
    assert(handshake_bytes(1, body).len() == ext.len() + 63);
    assert(record_bytes(handshake_bytes(1, body)) =~= seq![0x16u8, 0x03, 0x01] + be16(
        ext.len() + 63,
    ) + (seq![1u8] + be24(ext.len() + 59)) + (start + be16(ext.len())) + ext);
}

/// Parts of two runs of bytes are parts of both together.
proof fn lemma_parts_of_both(front: Seq<u8>, ext: Seq<u8>, n: int)
    requires
        front.len() == 68,
        n >= 0,
        ext.len() >= 39 + n,
    ensures
        ({
            let both = front + ext;
            &&& both.take(3) == front.take(3)
            &&& both.subrange(11, 43) == front.subrange(11, 43)
            &&& both.subrange(44, 66) == front.subrange(44, 66)
            &&& both[5] == front[5] && both[9] == front[9] && both[10] == front[10] && both[43]
                == front[43]
            &&& both.subrange(77 + n, 107 + n) == ext.skip(9 + n).take(30)
            &&& ext.len() >= 64 + n ==> both.subrange(107 + n, 132 + n) == ext.skip(39 + n).take(25)
            &&& ext.len() >= 64 + n ==> both.skip(132 + n) == ext.skip(39 + n).skip(25)
        }),
{
    let both = front + ext;
    assert(both.take(3) =~= front.take(3));
    assert(both.subrange(11, 43) =~= front.subrange(11, 43));
    assert(both.subrange(44, 66) =~= front.subrange(44, 66));
    assert(both.subrange(77 + n, 107 + n) =~= ext.skip(9 + n).take(30));
    if ext.len() >= 64 + n {
        assert(both.subrange(107 + n, 132 + n) =~= ext.skip(39 + n).take(25));
        assert(both.skip(132 + n) =~= ext.skip(39 + n).skip(25));
    }
}

/// What stands before the extensions of a hello.
spec fn hello_front(len: nat, random: Seq<u8>) -> Seq<u8> {
    seq![0x16u8, 0x03, 0x01] + be16(len + 63) + (seq![1u8] + be24(len + 59)) + (seq![0x03u8, 0x03]
        + random + seq![0u8] + suite_bytes() + seq![1u8, 0] + be16(len))
}

#[verifier::spinoff_prover]
#[verifier::rlimit(60)]
proof fn lemma_before_the_extensions(ext: Seq<u8>, random: Seq<u8>)
    requires
        random.len() == 32,
    ensures
        ({
            let front = hello_front(ext.len(), random);
            &&& front.len() == 68
            &&& front.take(3) == seq![22u8, 3, 1]
            &&& front[5] == 1
            &&& front[9] == 3 && front[10] == 3
            &&& front.subrange(11, 43) == random
            &&& front[43] == 0
            &&& front.subrange(44, 66) == seq![
                0u8, 18, 0x13, 0x01, 0x13, 0x02, 0x13, 0x03, 0xC0, 0x2B, 0xC0, 0x2F, 0xC0, 0x2C,
                0xC0, 0x30, 0x00, 0x9C, 0x00, 0x9D, 1, 0,
            ]
        }),
{
    let front = hello_front(ext.len(), random);
    let suites = suite_bytes() + seq![1u8, 0];
    assert(suites =~= seq![
        0u8, 18, 0x13, 0x01, 0x13, 0x02, 0x13, 0x03, 0xC0, 0x2B, 0xC0, 0x2F, 0xC0, 0x2C, 0xC0, 0x30,
        0x00, 0x9C, 0x00, 0x9D, 1, 0,
    ]);
    assert(front.take(3) =~= seq![22u8, 3, 1]);
    assert(front.subrange(11, 43) =~= random);
    assert(front.subrange(44, 66) =~= suites);
}

#[verifier::spinoff_prover]
#[verifier::rlimit(60)]
proof fn lemma_behind_the_name(name: Seq<u8>, allow_tls13: bool, key: Seq<u8>)
    requires
        key.len() == 32,
    ensures
        ({
            let ext = hello_extensions(name, allow_tls13, key);
            let n = name.len() as int;
            &&& ext.len() == 39 + n + (if allow_tls13 {
                57int
            } else {
                0
            })
            &&& ext.skip(9 + n).take(30) == seq![
                0u8, 10, 0, 6, 0, 4, 0, 0x1D, 0, 0x17, 0, 11, 0, 2, 1, 0, 0, 13, 0, 10, 0, 8, 4, 3,
                8, 4, 4, 1, 2, 1,
            ]
            &&& allow_tls13 ==> ext.skip(39 + n).take(25) == seq![
                0u8, 0x2B, 0, 5, 4, 3, 4, 3, 3, 0, 0x2D, 0, 2, 1, 1, 0, 0x33, 0, 38, 0, 36, 0, 0x1D,
                0, 32,
            ]
            &&& allow_tls13 ==> ext.skip(39 + n).skip(25) == key
        }),
{
    let ext = hello_extensions(name, allow_tls13, key);
    let n = name.len() as int;
    let e1 = extension_bytes(0x0A, seq![0x00u8, 0x04, 0x00, 0x1D, 0x00, 0x17]);
    let e2 = extension_bytes(0x0B, seq![0x01u8, 0x00]);
    let e3 = extension_bytes(
        0x0D,
        seq![0x00u8, 0x08, 0x04, 0x03, 0x08, 0x04, 0x04, 0x01, 0x02, 0x01],
    );
    assert(e1 =~= seq![0u8, 10, 0, 6, 0, 4, 0, 0x1D, 0, 0x17]);
    assert(e2 =~= seq![0u8, 11, 0, 2, 1, 0]);
    assert(e3 =~= seq![0u8, 13, 0, 10, 0, 8, 4, 3, 8, 4, 4, 1, 2, 1]);
    let three = seq![
        0u8, 10, 0, 6, 0, 4, 0, 0x1D, 0, 0x17, 0, 11, 0, 2, 1, 0, 0, 13, 0, 10, 0, 8, 4, 3, 8, 4, 4,
        1, 2, 1,
    ];
    assert(e1 + e2 + e3 =~= three);
    let first = name_extension(name);
    assert(first.len() == 9 + n);
    let common = first + e1 + e2 + e3;
    assert(common =~= first + three);
    assert(common.skip(9 + n) =~= three);
    if allow_tls13 {
        let new = tls13_extensions(key);
        assert(ext =~= common + new);
        let k1 = extension_bytes(0x2B, seq![0x04u8, 0x03, 0x04, 0x03, 0x03]);
        let k2 = extension_bytes(0x2D, seq![0x01u8, 0x01]);
        assert(k1 =~= seq![0u8, 0x2B, 0, 5, 4, 3, 4, 3, 3]);
        assert(k2 =~= seq![0u8, 0x2D, 0, 2, 1, 1]);
        let head = seq![0u8, 0x33, 0, 38, 0, 36, 0, 0x1D, 0, 32];
        assert(key_extension(key) =~= head + key);
        assert(new =~= k1 + k2 + head + key);
        assert(ext.skip(39 + n) =~= new);
        assert(new.take(25) =~= k1 + k2 + head);
        assert(new.skip(25) =~= key);
        assert(k1 + k2 + head =~= seq![
            0u8, 0x2B, 0, 5, 4, 3, 4, 3, 3, 0, 0x2D, 0, 2, 1, 1, 0, 0x33, 0, 38, 0, 36, 0, 0x1D, 0,
            32,
        ]);
    } else {
        assert(ext =~= common);
    }
    assert(ext.skip(9 + n).take(30) =~= three);
}

/// How a handshake is told: by what came of it, and after how long.
pub proof fn a_handshake_is_told(o: OutcomeView)
    ensures
        o matches OutcomeView::ServerHello { rtt } ==> o.description() == "сервер ответил за "@
            + dec(rtt.nanos as nat / 1_000_000) + " мс"@,
        o matches OutcomeView::Alert { rtt, code } ==> o.description()
            == "сервер отклонил соединение за "@ + dec(rtt.nanos as nat / 1_000_000) + " мс (код "@
            + dec(code as nat) + ")"@,
        o matches OutcomeView::Reset { after } ==> o.description() == "соединение сброшено через "@
            + dec(after.nanos as nat / 1_000_000) + " мс"@,
        o matches OutcomeView::Closed { after } ==> o.description()
            == "соединение закрыто без ответа через "@ + dec(after.nanos as nat / 1_000_000)
            + " мс"@,
        o is Timeout ==> o.description() == "ответа нет"@,
        o matches OutcomeView::ConnectFailed { error } ==> o.description()
            == "не удалось соединиться: "@ + error,
{
}

} // verus!
