//! ICMP echoes: putting requests together and reading replies.
//!
//! One type of reply serves all transports: who answered, how fast, and what
//! kind of answer it was. Telling "it got there" from "its time ran out on
//! the way" and from silence matters more than the timings: on this the search
//! for the place of a break is built.

use vstd::prelude::*;
use vstd::slice::slice_subrange;
use vstd::string::StringExecFns;
use crate::bytes::{be16, lemma_be16, put, put16, word, word_of};
use crate::model::opt_text;
use crate::net::{IpAddr, Ipv4Addr};
use crate::text::{dec, decimal};
use crate::time::Duration;

verus! {

/// What came back for an echo request.
#[derive(Debug, Clone, Copy, PartialEq, Eq, Structural)]
pub enum ReplyKind {
    /// It reached the target, and the target answered.
    Echo,
    /// A node on the way said that the time to live ran out.
    TtlExpired,
    /// The node or network cannot be reached.
    Unreachable,
    /// A router forbade the packet administratively.
    Prohibited,
    /// The packet was too big, and must not be cut up.
    TooBig,
    /// There was no answer.
    Timeout,
    /// It could not be sent: an error on this side.
    Error,
}

impl ReplyKind {
    pub open spec fn responded(self) -> bool {
        self != ReplyKind::Timeout && self != ReplyKind::Error
    }

    /// Whether the packet reached at least some node that made itself known.
    pub fn got_response(self) -> (r: bool)
        ensures
            r == self.responded(),
    {
        match self {
            ReplyKind::Timeout => false,
            ReplyKind::Error => false,
            _ => true,
        }
    }

    pub open spec fn description(self) -> Seq<char> {
        match self {
            ReplyKind::Echo => "ответ получен"@,
            ReplyKind::TtlExpired => "истёк TTL на промежуточном узле"@,
            ReplyKind::Unreachable => "узел недостижим"@,
            ReplyKind::Prohibited => "прохождение запрещено административно"@,
            ReplyKind::TooBig => "пакет слишком велик, фрагментация запрещена"@,
            ReplyKind::Timeout => "ответа нет"@,
            ReplyKind::Error => "не удалось отправить запрос"@,
        }
    }

    pub fn describe(self) -> (r: &'static str)
        ensures
            r@ == self.description(),
    {
        match self {
            ReplyKind::Echo => "ответ получен",
            ReplyKind::TtlExpired => "истёк TTL на промежуточном узле",
            ReplyKind::Unreachable => "узел недостижим",
            ReplyKind::Prohibited => "прохождение запрещено административно",
            ReplyKind::TooBig => "пакет слишком велик, фрагментация запрещена",
            ReplyKind::Timeout => "ответа нет",
            ReplyKind::Error => "не удалось отправить запрос",
        }
    }
}

/// The reply to one echo request.
#[derive(Debug, Clone)]
pub struct Reply {
    pub kind: ReplyKind,
    /// Who answered. Where the time to live ran out, a node on the way.
    pub from: Option<IpAddr>,
    pub rtt: Option<Duration>,
    /// A detail for a line of evidence, where something went wrong.
    pub detail: Option<String>,
}

#[verifier::ext_equal]
pub struct ReplyView {
    pub kind: ReplyKind,
    pub from: Option<IpAddr>,
    pub rtt: Option<Duration>,
    pub detail: Option<Seq<char>>,
}

impl View for Reply {
    type V = ReplyView;

    open spec fn view(&self) -> ReplyView {
        ReplyView {
            kind: self.kind,
            from: self.from,
            rtt: self.rtt,
            detail: opt_text(self.detail),
        }
    }
}

pub open spec fn silence() -> ReplyView {
    ReplyView { kind: ReplyKind::Timeout, from: None, rtt: None, detail: None }
}

pub open spec fn failure(detail: Seq<char>) -> ReplyView {
    ReplyView { kind: ReplyKind::Error, from: None, rtt: None, detail: Some(detail) }
}

impl Reply {
    pub fn timeout() -> (r: Self)
        ensures
            r@ == silence(),
    {
        Reply { kind: ReplyKind::Timeout, from: None, rtt: None, detail: None }
    }

    pub fn error(detail: &str) -> (r: Self)
        ensures
            r@ == failure(detail@),
    {
        Reply { kind: ReplyKind::Error, from: None, rtt: None, detail: Some(detail.to_owned()) }
    }
}

/// The payload: 32 bytes, as the system's `ping` sends, so that timings can be
/// compared with it.
pub open spec fn payload() -> Seq<u8> {
    seq![
        110u8, 101, 116, 99, 104, 101, 99, 107, 101, 114, 32, 105, 99, 109, 112, 32, 112, 114,
        111, 98, 101, 32, 48, 49, 50, 51, 52, 53, 54, 55, 56, 57,
    ]
}

/// The sum of the sixteen-bit words of some data; an odd byte at the end is
/// the upper half of a word.
pub open spec fn word_sum(data: Seq<u8>) -> nat
    decreases data.len(),
{
    if data.len() == 0 {
        0
    } else if data.len() == 1 {
        word(data[0], 0)
    } else {
        word(data[0], data[1]) + word_sum(data.skip(2))
    }
}

/// A sum in ones' complement arithmetic on sixteen bits: what is carried out
/// at the top is added in at the bottom.
pub open spec fn folded(sum: nat) -> nat {
    if sum == 0 {
        0
    } else {
        ((sum - 1) % 65535 + 1) as nat
    }
}

/// The internet checksum: the folded sum of the words, inverted.
pub open spec fn checksum_of(data: Seq<u8>) -> u16 {
    (65535 - folded(word_sum(data))) as u16
}

proof fn lemma_fold(sum: nat)
    ensures
        folded(sum) <= 65535,
        sum <= 65535 ==> folded(sum) == sum,
        folded(sum % 65536 + sum / 65536) == folded(sum),
{
    if sum > 0 {
        let q = sum / 65536;
        let r = sum % 65536;
        assert(sum == 65536 * q + r);
        assert(q + r > 0);
        vstd::arithmetic::div_mod::lemma_mod_multiples_vanish(q as int, q + r - 1, 65535);
        assert(65535 * q + (q + r - 1) == sum - 1);
    }
    if 0 < sum <= 65535 {
        assert((sum - 1) % 65535 == sum - 1);
    }
}

proof fn lemma_word_sum_bound(data: Seq<u8>)
    ensures
        word_sum(data) <= 65535 * data.len(),
    decreases data.len(),
{
    if data.len() >= 2 {
        lemma_word_sum_bound(data.skip(2));
    }
}

/// The internet checksum.
pub fn checksum(data: &[u8]) -> (r: u16)
    ensures
        r == checksum_of(data@),
{
    let total: usize = data.len();
    let mut sum: u128 = 0;
    let mut i: usize = 0;
    let ghost whole = word_sum(data@);
    assert(data@.skip(0) =~= data@);
    while total - i >= 2
        invariant
            total == data@.len(),
            i <= total,
            whole == word_sum(data@),
            sum + word_sum(data@.skip(i as int)) == whole,
            sum <= 65535 * i,
        decreases total - i,
    {
        proof {
            assert(data@.skip(i as int).skip(2) =~= data@.skip(i + 2));
            assert(65535 * (i + 2) <= 65535 * (total as int)) by (nonlinear_arith)
                requires
                    i + 2 <= total,
            ;
        }
        sum = sum + word_of(data[i], data[i + 1]) as u128;
        i = i + 2;
    }
    if total - i == 1 {
        sum = sum + word_of(data[i], 0) as u128;
    }
    assert(sum == whole);
    while sum > 65535
        invariant
            folded(sum as nat) == folded(whole),
        decreases sum,
    {
        proof {
            lemma_fold(sum as nat);
        }
        sum = sum % 65536 + sum / 65536;
    }
    proof {
        lemma_fold(sum as nat);
    }
    (65535 - sum) as u16
}

/// An echo request without its checksum.
pub open spec fn unsigned_request(id: u16, seq: u16) -> Seq<u8> {
    seq![8u8, 0, 0, 0] + be16(id as nat) + be16(seq as nat) + payload()
}

/// A packet with a checksum in the place for it.
pub open spec fn with_sum(packet: Seq<u8>, sum: u16) -> Seq<u8> {
    packet.update(2, be16(sum as nat)[0]).update(3, be16(sum as nat)[1])
}

/// An echo request.
pub open spec fn request_bytes(id: u16, seq: u16) -> Seq<u8> {
    with_sum(unsigned_request(id, seq), checksum_of(unsigned_request(id, seq)))
}

/// Puts an echo request together.
pub fn echo_request(id: u16, seq: u16) -> (r: Vec<u8>)
    ensures
        r@ == request_bytes(id, seq),
{
    let mut packet: Vec<u8> = Vec::new();
    packet.push(8);
    packet.push(0);
    packet.push(0);
    packet.push(0);
    put16(&mut packet, id as u128);
    put16(&mut packet, seq as u128);
    let body: [u8; 32] = [
        110, 101, 116, 99, 104, 101, 99, 107, 101, 114, 32, 105, 99, 109, 112, 32, 112, 114, 111,
        98, 101, 32, 48, 49, 50, 51, 52, 53, 54, 55, 56, 57,
    ];
    assert(body@ =~= payload());
    put(&mut packet, &body);
    assert(packet@ =~= unsigned_request(id, seq));
    let sum = checksum(packet.as_slice());
    packet.set(2, ((sum / 256) % 256) as u8);
    packet.set(3, (sum % 256) as u8);
    packet
}

/// A packet that carries its own checksum has the checksum zero.
pub proof fn own_checksum_gives_zero(packet: Seq<u8>)
    requires
        packet.len() >= 4,
        packet[2] == 0,
        packet[3] == 0,
    ensures
        checksum_of(with_sum(packet, checksum_of(packet))) == 0,
{
    let sum = checksum_of(packet);
    let full = with_sum(packet, sum);
    lemma_be16(sum as nat);
    assert(packet.skip(2).skip(2) =~= full.skip(2).skip(2));
    assert(word_sum(packet) == word(packet[0], packet[1]) + word_sum(packet.skip(2)));
    assert(word_sum(packet.skip(2)) == word(packet[2], packet[3]) + word_sum(
        packet.skip(2).skip(2),
    ));
    assert(word_sum(full) == word(full[0], full[1]) + word_sum(full.skip(2)));
    assert(word_sum(full.skip(2)) == word(full[2], full[3]) + word_sum(full.skip(2).skip(2)));
    let s = word_sum(packet);
    lemma_fold(s);
    assert(word_sum(full) == s + sum);
    if s > 0 {
        let k = (s - 1) / 65535;
        assert(s - 1 == 65535 * k + (s - 1) % 65535);
        assert(word_sum(full) - 1 == 65535 * k + 65534);
        vstd::arithmetic::div_mod::lemma_mod_multiples_vanish(k, 65534, 65535);
    }
}

/// Every echo request is valid: its checksum is zero.
pub proof fn request_is_valid(id: u16, seq: u16)
    ensures
        checksum_of(request_bytes(id, seq)) == 0,
{
    own_checksum_gives_zero(unsigned_request(id, seq));
}

/// The ICMP message in what a socket gave: without the IP header, where there
/// is one.
pub open spec fn message_in(bytes: Seq<u8>) -> Option<Seq<u8>> {
    if bytes.len() < 8 {
        None
    } else if bytes[0] / 16 == 4 {
        let header = (bytes[0] % 16) * 4;
        if bytes.len() <= header {
            None
        } else {
            Some(bytes.skip(header))
        }
    } else {
        Some(bytes)
    }
}

/// A raw socket gives the packet with its IP header, a datagram socket without
/// it. The version in the first half byte tells which.
pub fn strip_ip_header(bytes: &[u8]) -> (r: Option<&[u8]>)
    ensures
        match r {
            Some(message) => message_in(bytes@) == Some(message@) && message@.len() > 0,
            None => message_in(bytes@) is None,
        },
{
    let total: usize = bytes.len();
    if total < 8 {
        return None;
    }
    if bytes[0] / 16 == 4 {
        let header: usize = (bytes[0] % 16) as usize * 4;
        if total <= header {
            return None;
        }
        let rest = slice_subrange(bytes, header, total);
        assert(rest@ =~= bytes@.skip(header as int));
        return Some(rest);
    }
    Some(bytes)
}

/// What an ICMP message means.
pub open spec fn reply_for(bytes: Seq<u8>, from: IpAddr, rtt: Duration) -> ReplyView {
    match message_in(bytes) {
        None => failure("слишком короткий ответ"@),
        Some(message) => {
            let code = if message.len() > 1 {
                Some(message[1])
            } else {
                None
            };
            let known = ReplyView {
                kind: if message[0] == 0 {
                    ReplyKind::Echo
                } else if message[0] == 11 {
                    ReplyKind::TtlExpired
                } else if message[0] == 3 && code == Some(13u8) {
                    ReplyKind::Prohibited
                } else if message[0] == 3 && code == Some(4u8) {
                    ReplyKind::TooBig
                } else {
                    ReplyKind::Unreachable
                },
                from: Some(from),
                rtt: Some(rtt),
                detail: None,
            };
            if message[0] == 0 || message[0] == 11 || message[0] == 3 {
                known
            } else {
                ReplyView { detail: Some("тип ICMP "@ + dec(message[0] as nat)), ..known }
            }
        },
    }
}

/// Reads what a socket gave for an echo request. Where the sender is not
/// known, it is taken to be the target.
pub fn read_reply(
    bytes: &[u8],
    sender: Option<Ipv4Addr>,
    target: Ipv4Addr,
    rtt: Duration,
) -> (r: Reply)
    ensures
        r@ == reply_for(
            bytes@,
            IpAddr::V4(
                match sender {
                    Some(a) => a,
                    None => target,
                },
            ),
            rtt,
        ),
{
    let from = IpAddr::V4(
        match sender {
            Some(a) => a,
            None => target,
        },
    );
    let message = match strip_ip_header(bytes) {
        None => {
            return Reply::error("слишком короткий ответ");
        },
        Some(m) => m,
    };
    let code: Option<u8> = if message.len() > 1 {
        Some(message[1])
    } else {
        None
    };
    let mut detail: Option<String> = None;
    let kind = match message[0] {
        0 => ReplyKind::Echo,
        11 => ReplyKind::TtlExpired,
        3 => match code {
            Some(13) => ReplyKind::Prohibited,
            Some(4) => ReplyKind::TooBig,
            _ => ReplyKind::Unreachable,
        },
        other => {
            detail = Some(String::from_str("тип ICMP ").concat(decimal(other as u128).as_str()));
            ReplyKind::Unreachable
        },
    };
    Reply { kind, from: Some(from), rtt: Some(rtt), detail }
}

pub const IP_SUCCESS: u32 = 0;

pub const IP_DEST_NET_UNREACHABLE: u32 = 11002;

pub const IP_DEST_HOST_UNREACHABLE: u32 = 11003;

pub const IP_DEST_PROT_UNREACHABLE: u32 = 11004;

pub const IP_DEST_PORT_UNREACHABLE: u32 = 11005;

pub const IP_PACKET_TOO_BIG: u32 = 11009;

pub const IP_REQ_TIMED_OUT: u32 = 11010;

pub const IP_BAD_ROUTE: u32 = 11012;

pub const IP_TTL_EXPIRED_TRANSIT: u32 = 11013;

/// What an error code of `IcmpSendEcho` means, where it left no reply.
pub fn from_error_code(code: u32) -> (r: Reply)
    ensures
        r@ == (if code == IP_REQ_TIMED_OUT {
            silence()
        } else if code == IP_TTL_EXPIRED_TRANSIT {
            ReplyView { kind: ReplyKind::TtlExpired, from: None, rtt: None, detail: None }
        } else {
            failure("IcmpSendEcho: код "@ + dec(code as nat))
        }),
{
    if code == IP_REQ_TIMED_OUT {
        Reply::timeout()
    } else if code == IP_TTL_EXPIRED_TRANSIT {
        Reply { kind: ReplyKind::TtlExpired, from: None, rtt: None, detail: None }
    } else {
        Reply::error(
            String::from_str("IcmpSendEcho: код ").concat(decimal(code as u128).as_str()).as_str(),
        )
    }
}

/// What a status that `IcmpSendEcho` reports says of a packet's fate.
pub open spec fn status_kind(status: u32) -> Option<ReplyKind> {
    if status == IP_SUCCESS {
        Some(ReplyKind::Echo)
    } else if status == IP_TTL_EXPIRED_TRANSIT {
        Some(ReplyKind::TtlExpired)
    } else if status == IP_DEST_NET_UNREACHABLE || status == IP_DEST_HOST_UNREACHABLE || status
        == IP_DEST_PROT_UNREACHABLE || status == IP_DEST_PORT_UNREACHABLE || status
        == IP_BAD_ROUTE {
        Some(ReplyKind::Unreachable)
    } else if status == IP_PACKET_TOO_BIG {
        Some(ReplyKind::TooBig)
    } else {
        None
    }
}

/// What a reply of `IcmpSendEcho` means. A round trip of zero milliseconds
/// stands for less than one.
pub fn from_status(status: u32, from: Ipv4Addr, millis: u32) -> (r: Reply)
    ensures
        r@ == (match status_kind(status) {
            Some(kind) => ReplyView {
                kind,
                from: Some(IpAddr::V4(from)),
                rtt: Some(Duration { nanos: (millis * 1000000) as u128 }),
                detail: None,
            },
            None => if status == IP_REQ_TIMED_OUT {
                silence()
            } else {
                ReplyView {
                    kind: ReplyKind::Unreachable,
                    from: Some(IpAddr::V4(from)),
                    rtt: None,
                    detail: Some("код состояния "@ + dec(status as nat)),
                }
            },
        }),
{
    let kind = if status == IP_SUCCESS {
        ReplyKind::Echo
    } else if status == IP_TTL_EXPIRED_TRANSIT {
        ReplyKind::TtlExpired
    } else if status == IP_DEST_NET_UNREACHABLE || status == IP_DEST_HOST_UNREACHABLE || status
        == IP_DEST_PROT_UNREACHABLE || status == IP_DEST_PORT_UNREACHABLE || status
        == IP_BAD_ROUTE {
        ReplyKind::Unreachable
    } else if status == IP_PACKET_TOO_BIG {
        ReplyKind::TooBig
    } else if status == IP_REQ_TIMED_OUT {
        return Reply::timeout();
    } else {
        return Reply {
            kind: ReplyKind::Unreachable,
            from: Some(IpAddr::V4(from)),
            rtt: None,
            detail: Some(
                String::from_str("код состояния ").concat(decimal(status as u128).as_str()),
            ),
        };
    };
    Reply {
        kind,
        from: Some(IpAddr::V4(from)),
        rtt: Some(Duration::from_millis(millis as u64)),
        detail: None,
    }
}

/// What came back is known by the type and the code of the ICMP message, with or
/// without the header of IP in front: 0 is an echo, 11 a time to live that ran
/// out, 3 with code 13 a prohibition, 3 with code 4 a packet that is too big,
/// and anything else an unreachable node. Of an unknown type the number is told.
pub proof fn replies_are_known_by_type_and_code(
    header: Seq<u8>,
    message: Seq<u8>,
    from: IpAddr,
    rtt: Duration,
)
    requires
        message.len() >= 8,
        message[0] < 64 || message[0] >= 80,
        header.len() == 0 || (20 <= header.len() <= 60 && header.len() % 4 == 0 && header[0] == 64
            + header.len() / 4),
    ensures
        ({
            let r = reply_for(header + message, from, rtt);
            let kind = message[0];
            let code = message[1];
            &&& r.from == Some(from)
            &&& r.rtt == Some(rtt)
            &&& r.kind == ReplyKind::Echo <==> kind == 0
            &&& r.kind == ReplyKind::TtlExpired <==> kind == 11
            &&& r.kind == ReplyKind::Prohibited <==> kind == 3 && code == 13
            &&& r.kind == ReplyKind::TooBig <==> kind == 3 && code == 4
            &&& r.kind == ReplyKind::Unreachable <==> kind != 0 && kind != 11 && !(kind == 3 && (
            code == 13 || code == 4))
            &&& r.detail is None <==> kind == 0 || kind == 3 || kind == 11
        }),
{
    let bytes = header + message;
    if header.len() == 0 {
        assert(bytes =~= message);
    } else {
        assert(bytes[0] == header[0]);
        assert(bytes.skip(header.len() as int) =~= message);
    }
}

/// Less than eight bytes are no reply.
pub proof fn a_stump_is_no_reply(bytes: Seq<u8>, from: IpAddr, rtt: Duration)
    requires
        bytes.len() < 8,
    ensures
        reply_for(bytes, from, rtt).kind == ReplyKind::Error,
        reply_for(bytes, from, rtt).from is None,
        reply_for(bytes, from, rtt).rtt is None,
{
}

/// The statuses of the system's interface to echoes.
pub proof fn statuses_are_known_by_number(status: u32)
    ensures
        status_kind(status) == Some(ReplyKind::Echo) <==> status == 0,
        status_kind(status) == Some(ReplyKind::TtlExpired) <==> status == 11013,
        status_kind(status) == Some(ReplyKind::TooBig) <==> status == 11009,
        status_kind(status) == Some(ReplyKind::Unreachable) <==> 11002 <= status <= 11005 || status
            == 11012,
        status_kind(status) is Some ==> status_kind(status)->0 != ReplyKind::Prohibited
            && status_kind(status)->0 != ReplyKind::Timeout && status_kind(status)->0
            != ReplyKind::Error,
{
}

/// The sum goes over words of two bytes, the first of them the higher, and a
/// lone last byte is the higher one of a word. The checksum makes the sum up to
/// a multiple of 65535.
pub proof fn the_sum_is_over_words(a: Seq<u8>, b: Seq<u8>, hi: u8, lo: u8)
    requires
        a.len() % 2 == 0,
    ensures
        word_sum(a + b) == word_sum(a) + word_sum(b),
        word_sum(seq![hi, lo]) == 256 * hi + lo,
        word_sum(seq![hi]) == 256 * hi,
        (word_sum(a) + checksum_of(a)) % 65535 == 0,
    decreases a.len(),
{
    reveal_with_fuel(word_sum, 2);
    assert(seq![hi, lo].skip(2) =~= Seq::<u8>::empty());
    let s = word_sum(a);
    if s > 0 {
        let q = (s - 1) / 65535;
        assert(s - 1 == 65535 * q + (s - 1) % 65535) by (nonlinear_arith)
            requires
                q == (s - 1) / 65535,
        ;
        assert(s + checksum_of(a) == 65535 * (q + 1));
        assert((65535 * (q + 1)) % 65535 == 0) by (nonlinear_arith);
    } else {
        assert(checksum_of(a) == 65535);
    }
    if a.len() == 0 {
        assert(a + b =~= b);
    } else {
        the_sum_is_over_words(a.skip(2), b, hi, lo);
        assert((a + b).skip(2) =~= a.skip(2) + b);
        assert((a + b)[0] == a[0] && (a + b)[1] == a[1]);
    }
}

/// An echo request is forty bytes of type 8 and code 0, with the identifier and
/// the number in their places.
pub proof fn a_request_says_who_and_which(id: u16, seq: u16)
    ensures
        ({
            let p = request_bytes(id, seq);
            &&& p.len() == 40
            &&& p[0] == 8 && p[1] == 0
            &&& 256 * p[4] + p[5] == id
            &&& 256 * p[6] + p[7] == seq
        }),
{
}

/// Any word back is a response, also one that forbids. Silence is none, nor is
/// an error on this side.
pub proof fn any_word_back_is_a_response(kind: ReplyKind)
    ensures
        kind is Timeout || kind is Error ==> !kind.responded(),
        kind is Echo || kind is TtlExpired || kind is Unreachable || kind is Prohibited
            || kind is TooBig ==> kind.responded(),
{
}

/// The payload is 32 bytes of plain text.
pub proof fn the_payload_is_plain_text(i: int)
    requires
        0 <= i < 32,
    ensures
        payload().len() == 32,
        "netchecker icmp probe 0123456789"@.len() == 32,
        payload()[i] as int == "netchecker icmp probe 0123456789"@[i] as int,
{
    reveal_strlit("netchecker icmp probe 0123456789");
}

} // verus!
