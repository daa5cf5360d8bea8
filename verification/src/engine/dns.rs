//! DNS messages: putting queries together and reading answers.
//!
//! The system's resolver will not do. The point is not to learn an address
//! but to compare what different sources say: the system's resolver, public
//! servers asked directly, and DNS inside HTTPS. Where they disagree, someone
//! forges answers. So messages are written and read by hand, down to the
//! response code and the time to live.

use vstd::prelude::*;
use vstd::string::StringExecFns;
use vstd::utf8::encode_utf8;
use crate::bytes::{be16, put, put16, word, word_of};
use crate::net::Ipv4Addr;
use crate::scan::{
    join, joined, pieces, split, texts, trim_end, trimmed_end,
};
use crate::text::{dec, decimal};
use crate::time::Duration;

verus! {

/// The type of the record asked for: an IPv4 address.
pub const TYPE_A: u16 = 1;

pub const CLASS_IN: u16 = 1;

/// The answer to one query.
#[derive(Debug)]
pub struct Answer {
    pub addresses: Vec<Ipv4Addr>,
    /// The response code: 0 for success, 3 where the name does not exist.
    pub rcode: u8,
    /// The smallest time to live of the records. A very small or suspiciously
    /// round value is a sign of a forged answer.
    pub min_ttl: Option<u32>,
    pub elapsed: Duration,
}

#[verifier::ext_equal]
pub struct AnswerView {
    pub addresses: Seq<Ipv4Addr>,
    pub rcode: u8,
    pub min_ttl: Option<u32>,
    pub elapsed: Duration,
}

impl View for Answer {
    type V = AnswerView;

    open spec fn view(&self) -> AnswerView {
        AnswerView {
            addresses: self.addresses@,
            rcode: self.rcode,
            min_ttl: self.min_ttl,
            elapsed: self.elapsed,
        }
    }
}

pub open spec fn notations(list: Seq<Ipv4Addr>) -> Seq<Seq<char>> {
    list.map_values(|a: Ipv4Addr| a.notation())
}

/// The notations of addresses, with commas between them.
pub fn list_text(list: &Vec<Ipv4Addr>) -> (r: String)
    ensures
        r@ == joined(notations(list@), ", "@),
{
    let mut out: Vec<String> = Vec::new();
    let mut i: usize = 0;
    while i < list.len()
        invariant
            i <= list@.len(),
            out@.len() == i,
            forall|j: int| 0 <= j < i ==> (#[trigger] out@[j])@ == list@[j].notation(),
        decreases list@.len() - i,
    {
        out.push(list[i].text());
        i += 1;
    }
    assert(texts(out@) =~= notations(list@));
    join(&out, ", ")
}

impl AnswerView {
    /// An answer that is formally a success but leads nowhere.
    pub open spec fn blackhole(self) -> bool {
        self.addresses.len() > 0 && forall|i: int|
            0 <= i < self.addresses.len() ==> (#[trigger] self.addresses[i]).unspecified()
                || self.addresses[i].loopback()
    }

    pub open spec fn description(self) -> Seq<char> {
        if self.addresses.len() == 0 {
            "код ответа "@ + dec(self.rcode as nat) + " ("@ + rcode_text(self.rcode)
                + "), адресов нет"@
        } else {
            joined(notations(self.addresses), ", "@) + (match self.min_ttl {
                Some(t) => ", TTL "@ + dec(t as nat) + " с"@,
                None => Seq::empty(),
            }) + ", за "@ + dec(self.elapsed.millis()) + " мс"@
        }
    }
}

impl Answer {
    pub fn is_empty(&self) -> (r: bool)
        ensures
            r == (self@.addresses.len() == 0),
    {
        self.addresses.len() == 0
    }

    /// Whether the answer is of the kind that providers' stubs give.
    pub fn is_blackhole(&self) -> (r: bool)
        ensures
            r == self@.blackhole(),
    {
        if self.addresses.len() == 0 {
            return false;
        }
        let mut i: usize = 0;
        while i < self.addresses.len()
            invariant
                i <= self.addresses@.len(),
                forall|j: int|
                    0 <= j < i ==> (#[trigger] self.addresses@[j]).unspecified()
                        || self.addresses@[j].loopback(),
            decreases self.addresses@.len() - i,
        {
            let a = self.addresses[i];
            if !a.is_unspecified() && !a.is_loopback() {
                assert(!self@.addresses[i as int].unspecified());
                return false;
            }
            i += 1;
        }
        true
    }

    pub fn describe(&self) -> (r: String)
        ensures
            r@ == self@.description(),
    {
        if self.addresses.len() == 0 {
            return String::from_str("код ответа ").concat(
                decimal(self.rcode as u128).as_str(),
            ).concat(" (").concat(rcode_name(self.rcode)).concat("), адресов нет");
        }
        let ttl = match self.min_ttl {
            Some(t) => String::from_str(", TTL ").concat(decimal(t as u128).as_str()).concat(" с"),
            None => String::new(),
        };
        list_text(&self.addresses).concat(ttl.as_str()).concat(", за ").concat(
            decimal(self.elapsed.as_millis()).as_str(),
        ).concat(" мс")
    }
}

impl Clone for Answer {
    fn clone(&self) -> (r: Self)
        ensures
            r@ == self@,
    {
        let mut addresses: Vec<Ipv4Addr> = Vec::new();
        let mut i: usize = 0;
        while i < self.addresses.len()
            invariant
                i <= self.addresses@.len(),
                addresses@ == self.addresses@.take(i as int),
            decreases self.addresses@.len() - i,
        {
            assert(self.addresses@.take(i + 1) =~= self.addresses@.take(i as int).push(
                self.addresses@[i as int],
            ));
            addresses.push(self.addresses[i]);
            i += 1;
        }
        assert(self.addresses@.take(i as int) =~= self.addresses@);
        Answer { addresses, rcode: self.rcode, min_ttl: self.min_ttl, elapsed: self.elapsed }
    }
}

pub open spec fn rcode_text(rcode: u8) -> Seq<char> {
    match rcode {
        0 => "успех"@,
        1 => "ошибка формата запроса"@,
        2 => "сбой сервера"@,
        3 => "имя не существует"@,
        4 => "запрос не поддерживается"@,
        5 => "отказано"@,
        _ => "неизвестный код"@,
    }
}

pub fn rcode_name(rcode: u8) -> (r: &'static str)
    ensures
        r@ == rcode_text(rcode),
{
    match rcode {
        0 => "успех",
        1 => "ошибка формата запроса",
        2 => "сбой сервера",
        3 => "имя не существует",
        4 => "запрос не поддерживается",
        5 => "отказано",
        _ => "неизвестный код",
    }
}

/// The identifier of a query: it mixes the process with the name asked for.
pub fn query_id(process: u32, name: &str) -> (r: u16)
    ensures
        r == (process ^ (encode_utf8(name@).len() as usize as u32)) as u16,
{
    (process ^ (name.len() as u32)) as u16
}

/// The labels of a name; dots at its end do not count.
pub open spec fn labels(name: Seq<char>) -> Seq<Seq<char>> {
    pieces(trimmed_end(name, '.'), '.')
}

/// Whether a label can stand in a message.
pub open spec fn fits(label: Seq<char>) -> bool {
    0 < encode_utf8(label).len() <= 63
}

/// The first label that cannot stand in a message.
pub open spec fn first_misfit(list: Seq<Seq<char>>) -> Option<Seq<char>>
    decreases list.len(),
{
    if list.len() == 0 {
        None
    } else if !fits(list[0]) {
        Some(list[0])
    } else {
        first_misfit(list.drop_first())
    }
}

/// Labels on the wire: each with its length in front.
pub open spec fn label_bytes(list: Seq<Seq<char>>) -> Seq<u8>
    decreases list.len(),
{
    if list.len() == 0 {
        Seq::empty()
    } else {
        let last = encode_utf8(list.last());
        label_bytes(list.drop_last()) + seq![last.len() as u8] + last
    }
}

/// The header of a query: recursion is desired, there is one question.
pub open spec fn query_header(id: u16) -> Seq<u8> {
    be16(id as nat) + seq![1u8, 0, 0, 1, 0, 0, 0, 0, 0, 0]
}

/// A query on the wire.
pub open spec fn query_bytes(id: u16, list: Seq<Seq<char>>) -> Seq<u8> {
    query_header(id) + label_bytes(list) + seq![0u8, 0, 1, 0, 1]
}

pub open spec fn misfit_text(label: Seq<char>) -> Seq<char> {
    "недопустимая часть имени: «"@ + label + "»"@
}

/// Puts a query together, or says which part of the name is not allowed.
pub fn encode_query(id: u16, name: &str) -> (r: Result<Vec<u8>, String>)
    ensures
        match first_misfit(labels(name@)) {
            None => r matches Ok(packet) && packet@ == query_bytes(id, labels(name@)),
            Some(label) => r matches Err(error) && error@ == misfit_text(label),
        },
{
    let parts = split(trim_end(name, '.').as_str(), '.');
    let ghost list = labels(name@);
    let mut packet: Vec<u8> = Vec::new();
    put16(&mut packet, id as u128);
    let rest: [u8; 10] = [1, 0, 0, 1, 0, 0, 0, 0, 0, 0];
    assert(rest@ =~= seq![1u8, 0, 0, 1, 0, 0, 0, 0, 0, 0]);
    put(&mut packet, &rest);
    assert(packet@ =~= query_header(id));
    let mut i: usize = 0;
    proof {
        assert(list.take(0) =~= Seq::<Seq<char>>::empty());
        assert(list.skip(0) =~= list);
        assert(query_header(id) + label_bytes(list.take(0)) =~= query_header(id));
    }
    while i < parts.len()
        invariant
            i <= parts@.len(),
            list == labels(name@),
            list == texts(parts@),
            packet@ == query_header(id) + label_bytes(list.take(i as int)),
            first_misfit(list.skip(i as int)) == first_misfit(list),
        decreases parts@.len() - i,
    {
        proof {
            assert(list[i as int] == parts@[i as int]@);
            assert(list.skip(i as int)[0] == list[i as int]);
            assert(list.skip(i as int).drop_first() =~= list.skip(i + 1));
            assert(list.take(i + 1).drop_last() =~= list.take(i as int));
        }
        let label = parts[i].as_str();
        let bytes = label.as_bytes();
        if bytes.len() == 0 || bytes.len() > 63 {
            return Err(
                String::from_str("недопустимая часть имени: «").concat(label).concat("»"),
            );
        }
        let ghost was = packet@;
        packet.push(bytes.len() as u8);
        put(&mut packet, bytes);
        proof {
            assert(packet@ =~= query_header(id) + (label_bytes(list.take(i as int)) + seq![
                bytes@.len() as u8,
            ] + bytes@));
        }
        i += 1;
    }
    assert(list.take(i as int) =~= list);
    let tail: [u8; 5] = [0, 0, TYPE_A as u8, 0, CLASS_IN as u8];
    assert(tail@ =~= seq![0u8, 0, 1, 0, 1]);
    put(&mut packet, &tail);
    assert(list.skip(i as int) =~= Seq::<Seq<char>>::empty());
    Ok(packet)
}

/// Where a name in a message ends. A reference to another place takes two
/// bytes and ends the name, so it is never followed.
pub open spec fn name_end(packet: Seq<u8>, pos: int) -> Option<int>
    decreases packet.len() - pos,
{
    if pos < 0 || pos >= packet.len() {
        None
    } else if packet[pos] == 0 {
        Some(pos + 1)
    } else if packet[pos] >= 192 {
        Some(pos + 2)
    } else if pos + 1 + packet[pos] > packet.len() {
        None
    } else {
        name_end(packet, pos + 1 + packet[pos])
    }
}

/// Where the questions of a message end.
pub open spec fn questions_end(packet: Seq<u8>, pos: int, count: nat) -> Option<int>
    decreases count,
{
    if count == 0 {
        Some(pos)
    } else {
        match name_end(packet, pos) {
            None => None,
            Some(p) => questions_end(packet, p + 4, (count - 1) as nat),
        }
    }
}

/// A record of a message.
pub struct RecordView {
    pub kind: nat,
    pub ttl: u32,
    pub data: Seq<u8>,
}

/// The number that four bytes make, most significant first.
pub open spec fn word4(a: u8, b: u8, c: u8, d: u8) -> nat {
    word(a, b) * 65536 + word(c, d)
}

/// The records of a message from a position on, as far as they are complete.
/// There are none where a name runs out of the message.
pub open spec fn records_from(packet: Seq<u8>, pos: int, count: nat) -> Option<Seq<RecordView>>
    decreases count,
{
    if count == 0 {
        Some(Seq::empty())
    } else {
        match name_end(packet, pos) {
            None => None,
            Some(p) => if p + 10 > packet.len() {
                Some(Seq::empty())
            } else {
                let end = p + 10 + word(packet[p + 8], packet[p + 9]);
                if end > packet.len() {
                    Some(Seq::empty())
                } else {
                    match records_from(packet, end, (count - 1) as nat) {
                        None => None,
                        Some(rest) => Some(seq![record_at(packet, p)] + rest),
                    }
                }
            },
        }
    }
}

/// The record whose fixed part begins at a position.
pub open spec fn record_at(packet: Seq<u8>, p: int) -> RecordView {
    RecordView {
        kind: word(packet[p], packet[p + 1]),
        ttl: word4(packet[p + 4], packet[p + 5], packet[p + 6], packet[p + 7]) as u32,
        data: packet.subrange(p + 10, p + 10 + word(packet[p + 8], packet[p + 9])),
    }
}

/// Whether a record holds an IPv4 address.
pub open spec fn is_address(r: RecordView) -> bool {
    r.kind == TYPE_A && r.data.len() == 4
}

/// The addresses in records, in their order.
pub open spec fn addresses_in(records: Seq<RecordView>) -> Seq<Ipv4Addr>
    decreases records.len(),
{
    if records.len() == 0 {
        Seq::empty()
    } else {
        let r = records.last();
        let before = addresses_in(records.drop_last());
        if is_address(r) {
            before.push(Ipv4Addr { a: r.data[0], b: r.data[1], c: r.data[2], d: r.data[3] })
        } else {
            before
        }
    }
}

/// The smallest time to live of the records that hold an address.
pub open spec fn least_ttl(records: Seq<RecordView>) -> Option<u32>
    decreases records.len(),
{
    if records.len() == 0 {
        None
    } else {
        let r = records.last();
        let before = least_ttl(records.drop_last());
        if !is_address(r) {
            before
        } else {
            match before {
                Some(m) if m <= r.ttl => Some(m),
                _ => Some(r.ttl),
            }
        }
    }
}

/// The records of an answer.
pub open spec fn records_of(packet: Seq<u8>) -> Option<Seq<RecordView>> {
    match questions_end(packet, 12, word(packet[4], packet[5])) {
        None => None,
        Some(p) => records_from(packet, p, word(packet[6], packet[7])),
    }
}

/// What is read of a message.
pub open spec fn read_answer(packet: Seq<u8>, elapsed: Duration) -> Result<AnswerView, Seq<char>> {
    if packet.len() < 12 {
        Err("ответ короче заголовка"@)
    } else {
        match records_of(packet) {
            None => Err("имя выходит за границы пакета"@),
            Some(records) => Ok(
                AnswerView {
                    addresses: addresses_in(records),
                    rcode: packet[3] % 16,
                    min_ttl: least_ttl(records),
                    elapsed,
                },
            ),
        }
    }
}

/// Skips a name. None where it runs out of the message.
fn skip_name(packet: &[u8], start: usize) -> (r: Option<usize>)
    requires
        packet@.len() <= isize::MAX,
    ensures
        match r {
            Some(end) => name_end(packet@, start as int) == Some(end as int) && end
                <= packet@.len() + 1,
            None => name_end(packet@, start as int) is None,
        },
{
    let mut pos: usize = start;
    let total: usize = packet.len();
    loop
        invariant
            total == packet@.len(),
            total <= isize::MAX,
            name_end(packet@, pos as int) == name_end(packet@, start as int),
        decreases total - pos,
    {
        if pos >= total {
            return None;
        }
        let len = packet[pos];
        if len == 0 {
            return Some(pos + 1);
        }
        if len >= 192 {
            return Some(pos + 2);
        }
        if len as usize > total - pos - 1 {
            return None;
        }
        pos = pos + 1 + len as usize;
    }
}

fn skip_questions(packet: &[u8], count: u16) -> (r: Option<usize>)
    requires
        12 <= packet@.len() <= isize::MAX,
    ensures
        match r {
            Some(end) => questions_end(packet@, 12, count as nat) == Some(end as int),
            None => questions_end(packet@, 12, count as nat) is None,
        },
{
    let mut pos: usize = 12;
    let mut left: u16 = count;
    while left > 0
        invariant
            packet@.len() <= isize::MAX,
            left <= count,
            questions_end(packet@, pos as int, left as nat) == questions_end(
                packet@,
                12,
                count as nat,
            ),
        decreases left,
    {
        match skip_name(packet, pos) {
            None => {
                return None;
            },
            Some(end) => {
                pos = end + 4;
                left = left - 1;
            },
        }
    }
    Some(pos)
}

/// Reads an answer. A message that is cut short, or in which a name runs past
/// the end, is an error; a record that is cut short ends the reading.
pub fn decode_answer(packet: &[u8]) -> (r: Result<Answer, String>)
    requires
        packet@.len() <= isize::MAX,
    ensures
        match read_answer(packet@, (Duration { nanos: 0 })) {
            Ok(answer) => r matches Ok(a) && a@ == answer,
            Err(error) => r matches Err(e) && e@ == error,
        },
{
    if packet.len() < 12 {
        return Err(String::from_str("ответ короче заголовка"));
    }
    let rcode: u8 = packet[3] % 16;
    let qdcount = word_of(packet[4], packet[5]);
    let ancount = word_of(packet[6], packet[7]);
    let total: usize = packet.len();
    let begin = match skip_questions(packet, qdcount) {
        None => {
            return Err(String::from_str("имя выходит за границы пакета"));
        },
        Some(p) => p,
    };
    let mut pos: usize = begin;
    let mut addresses: Vec<Ipv4Addr> = Vec::new();
    let mut min_ttl: Option<u32> = None;
    let mut left: u16 = ancount;
    let ghost whole = records_of(packet@);
    let ghost mut done = Seq::<RecordView>::empty();
    proof {
        match records_from(packet@, pos as int, left as nat) {
            Some(rest) => assert(done + rest =~= rest),
            None => {},
        }
    }
    loop
        invariant
            12 <= packet@.len() <= isize::MAX,
            total == packet@.len(),
            rcode == packet@[3] % 16,
            whole == records_of(packet@),
            whole == (match records_from(packet@, pos as int, left as nat) {
                None => None::<Seq<RecordView>>,
                Some(rest) => Some(done + rest),
            }),
            addresses@ == addresses_in(done),
            min_ttl == least_ttl(done),
        ensures
            whole == Some(done),
            addresses@ == addresses_in(done),
            min_ttl == least_ttl(done),
        decreases left,
    {
        assert(done + Seq::<RecordView>::empty() =~= done);
        if left == 0 {
            break;
        }
        let p = match skip_name(packet, pos) {
            None => {
                return Err(String::from_str("имя выходит за границы пакета"));
            },
            Some(p) => p,
        };
        if p > total || total - p < 10 {
            break;
        }
        let kind = word_of(packet[p], packet[p + 1]);
        let ttl: u32 = word_of(packet[p + 4], packet[p + 5]) as u32 * 65536 + word_of(
            packet[p + 6],
            packet[p + 7],
        ) as u32;
        let len: usize = word_of(packet[p + 8], packet[p + 9]) as usize;
        let data: usize = p + 10;
        if len > total - data {
            break;
        }
        let ghost record = record_at(packet@, p as int);
        proof {
            assert(record.data.len() == len);
            assert(done.push(record).drop_last() =~= done);
            match records_from(packet@, data + len, (left - 1) as nat) {
                Some(rest) => {
                    assert(done + (seq![record] + rest) =~= done.push(record) + rest);
                },
                None => {},
            }
        }
        if kind == TYPE_A && len == 4 {
            addresses.push(
                Ipv4Addr::new(packet[data], packet[data + 1], packet[data + 2], packet[data + 3]),
            );
            min_ttl =
            match min_ttl {
                Some(m) => if m <= ttl {
                    Some(m)
                } else {
                    Some(ttl)
                },
                None => Some(ttl),
            };
        }
        proof {
            done = done.push(record);
        }
        pos = data + len;
        left = left - 1;
    }
    Ok(Answer { addresses, rcode, min_ttl, elapsed: Duration::zero() })
}

/// Reads an answer that came `elapsed` after the query.
pub fn read_reply(packet: &[u8], elapsed: Duration) -> (r: Result<Answer, String>)
    requires
        packet@.len() <= isize::MAX,
    ensures
        match read_answer(packet@, elapsed) {
            Ok(answer) => r matches Ok(a) && a@ == answer,
            Err(error) => r matches Err(e) && e@ == error,
        },
{
    match decode_answer(packet) {
        Ok(answer) => Ok(
            Answer {
                addresses: answer.addresses,
                rcode: answer.rcode,
                min_ttl: answer.min_ttl,
                elapsed,
            },
        ),
        Err(error) => Err(error),
    }
}

proof fn lemma_label_bytes_cons(list: Seq<Seq<char>>)
    requires
        list.len() > 0,
    ensures
        label_bytes(list) == seq![encode_utf8(list[0]).len() as u8] + encode_utf8(list[0])
            + label_bytes(list.drop_first()),
    decreases list.len(),
{
    if list.len() == 1 {
        assert(list.drop_last() =~= Seq::<Seq<char>>::empty());
        assert(list.drop_first() =~= Seq::<Seq<char>>::empty());
    } else {
        lemma_label_bytes_cons(list.drop_last());
        assert(list.drop_last().drop_first() =~= list.drop_first().drop_last());
    }
    assert(label_bytes(list) =~= seq![encode_utf8(list[0]).len() as u8] + encode_utf8(list[0])
        + label_bytes(list.drop_first()));
}

proof fn lemma_name_end(before: Seq<u8>, list: Seq<Seq<char>>, after: Seq<u8>)
    requires
        first_misfit(list) is None,
        after.len() > 0,
        after[0] == 0,
    ensures
        name_end(before + label_bytes(list) + after, before.len() as int) == Some(
            (before.len() + label_bytes(list).len() + 1) as int,
        ),
    decreases list.len(),
{
    let packet = before + label_bytes(list) + after;
    if list.len() > 0 {
        lemma_label_bytes_cons(list);
        let first = encode_utf8(list[0]);
        let next = before + (seq![first.len() as u8] + first);
        lemma_name_end(next, list.drop_first(), after);
        assert(next + label_bytes(list.drop_first()) + after =~= packet);
        assert(packet[before.len() as int] == first.len());
    }
}

/// The name in a query is read back: it ends where the type of the question
/// stands, four bytes before the end of the message.
pub proof fn query_name_is_read_back(id: u16, list: Seq<Seq<char>>)
    requires
        first_misfit(list) is None,
    ensures
        name_end(query_bytes(id, list), 12) == Some(query_bytes(id, list).len() - 4),
        questions_end(query_bytes(id, list), 12, 1) == Some(query_bytes(id, list).len() as int),
{
    let tail = seq![0u8, 0, 1, 0, 1];
    lemma_name_end(query_header(id), list, tail);
    reveal_with_fuel(questions_end, 2);
}

/// A query read as an answer is a success without addresses.
pub proof fn query_answers_nothing(id: u16, list: Seq<Seq<char>>, elapsed: Duration)
    requires
        first_misfit(list) is None,
    ensures
        read_answer(query_bytes(id, list), elapsed) == Ok::<AnswerView, Seq<char>>(
            AnswerView { addresses: Seq::empty(), rcode: 0, min_ttl: None, elapsed },
        ),
{
    query_name_is_read_back(id, list);
    let packet = query_bytes(id, list);
    assert(word(packet[4], packet[5]) == 1);
    assert(word(packet[6], packet[7]) == 0);
    assert(records_of(packet) == Some(Seq::<RecordView>::empty()));
}

proof fn lemma_addresses_ttl(records: Seq<RecordView>)
    ensures
        (addresses_in(records).len() == 0) == (least_ttl(records) is None),
        match least_ttl(records) {
            Some(t) => (exists|i: int|
                0 <= i < records.len() && is_address(#[trigger] records[i]) && records[i].ttl == t)
                && forall|i: int|
                0 <= i < records.len() && is_address(#[trigger] records[i]) ==> t
                    <= records[i].ttl,
            None => forall|i: int| 0 <= i < records.len() ==> !is_address(#[trigger] records[i]),
        },
    decreases records.len(),
{
    if records.len() > 0 {
        let q = records.drop_last();
        lemma_addresses_ttl(q);
        let n = records.len() - 1;
        assert(records[n] == records.last());
        assert forall|i: int| 0 <= i < n implies q[i] == #[trigger] records[i] by {}
        match least_ttl(records) {
            Some(t) => {
                if is_address(records.last()) && t == records.last().ttl {
                    assert(is_address(records[n]) && records[n].ttl == t);
                } else {
                    let i = choose|i: int|
                        0 <= i < q.len() && is_address(#[trigger] q[i]) && q[i].ttl == t;
                    assert(records[i] == q[i]);
                }
                assert forall|i: int|
                    0 <= i < records.len() && is_address(#[trigger] records[i]) implies t
                    <= records[i].ttl by {
                    if i < n {
                        assert(q[i] == records[i]);
                    }
                }
            },
            None => {
                assert forall|i: int| 0 <= i < records.len() implies !is_address(
                    #[trigger] records[i],
                ) by {
                    if i < n {
                        assert(q[i] == records[i]);
                    }
                }
            },
        }
    }
}

/// An answer has a time to live exactly where it has addresses, and it is the
/// smallest of theirs.
pub proof fn ttl_is_the_smallest(packet: Seq<u8>, elapsed: Duration)
    requires
        packet.len() >= 12,
        records_of(packet) is Some,
    ensures
        ({
            let records = records_of(packet)->0;
            let answer = read_answer(packet, elapsed)->Ok_0;
            &&& (answer.addresses.len() == 0) == (answer.min_ttl is None)
            &&& answer.min_ttl matches Some(t) ==> forall|i: int|
                0 <= i < records.len() && is_address(#[trigger] records[i]) ==> t
                    <= records[i].ttl
        }),
{
    lemma_addresses_ttl(records_of(packet)->0);
}

/// Which records give an address: those of type A in the Internet with exactly
/// four bytes of data, each in its place, byte for byte.
pub proof fn only_whole_addresses_count(records: Seq<RecordView>)
    ensures
        addresses_in(records) == records.filter(
            |r: RecordView| r.kind == 1 && r.data.len() == 4,
        ).map_values(
            |r: RecordView|
                Ipv4Addr { a: r.data[0], b: r.data[1], c: r.data[2], d: r.data[3] },
        ),
    decreases records.len(),
{
    reveal(Seq::filter);
    if records.len() > 0 {
        only_whole_addresses_count(records.drop_last());
    }
    assert(addresses_in(records) =~= records.filter(
        |r: RecordView| r.kind == 1 && r.data.len() == 4,
    ).map_values(
        |r: RecordView| Ipv4Addr { a: r.data[0], b: r.data[1], c: r.data[2], d: r.data[3] },
    ));
}

/// The time to live of an answer is that of one of its addresses, and none of
/// them lives shorter. Records of other types have no say in it.
pub proof fn the_shortest_life_is_one_of_them(records: Seq<RecordView>)
    ensures
        match least_ttl(records) {
            Some(t) => {
                &&& exists|i: int|
                    0 <= i < records.len() && (#[trigger] records[i]).kind == 1
                        && records[i].data.len() == 4 && records[i].ttl == t
                &&& forall|i: int|
                    0 <= i < records.len() && (#[trigger] records[i]).kind == 1
                        && records[i].data.len() == 4 ==> t <= records[i].ttl
            },
            None => forall|i: int|
                0 <= i < records.len() ==> !((#[trigger] records[i]).kind == 1
                    && records[i].data.len() == 4),
        },
    decreases records.len(),
{
    if records.len() > 0 {
        let n = records.len() - 1;
        let before = records.drop_last();
        the_shortest_life_is_one_of_them(before);
        assert forall|i: int| 0 <= i < n implies records[i] == before[i] by {}
        if least_ttl(before) is Some {
            let j = choose|j: int|
                0 <= j < before.len() && (#[trigger] before[j]).kind == 1 && before[j].data.len()
                    == 4 && before[j].ttl == least_ttl(before)->0;
            assert(records[j] == before[j]);
        }
        assert(records[n] == records.last());
    }
}

/// A record whose name points back stands in twelve bytes and its data: the
/// type, the class, the time to live and the length of the data follow the name,
/// most significant byte first. The next record stands right behind.
pub proof fn records_follow_one_another(packet: Seq<u8>, pos: int, count: nat)
    requires
        count > 0,
        0 <= pos,
        pos + 12 <= packet.len(),
        packet[pos] >= 192,
        pos + 12 + packet[pos + 10] * 256 + packet[pos + 11] <= packet.len(),
    ensures
        ({
            let len = packet[pos + 10] * 256 + packet[pos + 11];
            let rest = records_from(packet, pos + 12 + len, (count - 1) as nat);
            let all = records_from(packet, pos, count);
            &&& (all is Some) == (rest is Some)
            &&& all is Some ==> {
                &&& all->0.len() == rest->0.len() + 1
                &&& all->0.skip(1) == rest->0
                &&& all->0[0].kind == packet[pos + 2] * 256 + packet[pos + 3]
                &&& all->0[0].ttl == packet[pos + 6] * 16777216 + packet[pos + 7] * 65536
                    + packet[pos + 8] * 256 + packet[pos + 9]
                &&& all->0[0].data == packet.subrange(pos + 12, pos + 12 + len)
            }
        }),
{
    assert(name_end(packet, pos) == Some(pos + 2));
    let len = packet[pos + 10] * 256 + packet[pos + 11];
    match records_from(packet, pos + 12 + len, (count - 1) as nat) {
        Some(rest) => {
            assert(records_from(packet, pos, count)->0.skip(1) =~= rest);
        },
        None => {},
    }
}

/// An answer has no more addresses than it has records, and its code is in the
/// low half of the fourth byte. A packet shorter than a header is no answer.
pub proof fn an_answer_keeps_to_its_header(packet: Seq<u8>, elapsed: Duration)
    ensures
        packet.len() < 12 ==> read_answer(packet, elapsed) is Err,
        read_answer(packet, elapsed) matches Ok(a) ==> {
            &&& a.rcode == packet[3] % 16
            &&& a.elapsed == elapsed
            &&& a.addresses.len() <= packet[6] * 256 + packet[7]
        },
{
    if packet.len() >= 12 {
        match questions_end(packet, 12, word(packet[4], packet[5])) {
            Some(p) => {
                let count = word(packet[6], packet[7]);
                lemma_records_counted(packet, p, count);
                match records_from(packet, p, count) {
                    Some(records) => lemma_addresses_counted(records),
                    None => {},
                }
            },
            None => {},
        }
    }
}

proof fn lemma_records_counted(packet: Seq<u8>, pos: int, count: nat)
    ensures
        records_from(packet, pos, count) matches Some(records) ==> records.len() <= count,
    decreases count,
{
    if count > 0 {
        match name_end(packet, pos) {
            Some(p) => if p + 10 <= packet.len() {
                lemma_records_counted(
                    packet,
                    p + 10 + word(packet[p + 8], packet[p + 9]),
                    (count - 1) as nat,
                );
            },
            None => {},
        }
    }
}

proof fn lemma_addresses_counted(records: Seq<RecordView>)
    ensures
        addresses_in(records).len() <= records.len(),
    decreases records.len(),
{
    if records.len() > 0 {
        lemma_addresses_counted(records.drop_last());
    }
}

/// An answer that leads nowhere: it names addresses, and each of them is
/// 0.0.0.0 or begins with 127. One real address is enough for it to lead
/// somewhere.
pub proof fn one_real_address_is_enough(answer: AnswerView)
    ensures
        answer.addresses.len() == 0 ==> !answer.blackhole(),
        forall|i: int|
            0 <= i < answer.addresses.len() && (#[trigger] answer.addresses[i]).a != 127
                && answer.addresses[i] != (Ipv4Addr { a: 0, b: 0, c: 0, d: 0 })
                ==> !answer.blackhole(),
        answer.addresses.len() > 0 && (forall|i: int|
            0 <= i < answer.addresses.len() ==> (#[trigger] answer.addresses[i]).a == 127
                || answer.addresses[i] == (Ipv4Addr { a: 0, b: 0, c: 0, d: 0 }))
            ==> answer.blackhole(),
{
}

/// A query says which it is, that it wants the server to look further, and that
/// it asks one question: the name, then type A and class Internet.
pub proof fn a_query_asks_one_question(id: u16, list: Seq<Seq<char>>)
    ensures
        ({
            let q = query_bytes(id, list);
            &&& q[0] * 256 + q[1] == id
            &&& q.subrange(2, 12) == seq![1u8, 0, 0, 1, 0, 0, 0, 0, 0, 0]
            &&& q.skip(q.len() - 5) == seq![0u8, 0, 1, 0, 1]
            &&& q.subrange(12, q.len() - 5) == label_bytes(list)
        }),
{
    let q = query_bytes(id, list);
    assert(q.subrange(12, q.len() - 5) =~= label_bytes(list));
    assert(q.skip(q.len() - 5) =~= seq![0u8, 0, 1, 0, 1]);
    assert(q.subrange(2, 12) =~= seq![1u8, 0, 0, 1, 0, 0, 0, 0, 0, 0]);
    assert(id as nat % 256 + (id as nat / 256) * 256 == id);
}

/// A name is refused for its first label that is empty or longer than 63 bytes,
/// and for no other reason.
pub proof fn the_first_unfit_label_is_named(list: Seq<Seq<char>>)
    ensures
        match first_misfit(list) {
            Some(l) => exists|i: int|
                0 <= i < list.len() && #[trigger] list[i] == l && (encode_utf8(l).len() == 0
                    || encode_utf8(l).len() > 63) && forall|j: int|
                    0 <= j < i ==> 0 < encode_utf8(#[trigger] list[j]).len() <= 63,
            None => forall|i: int|
                0 <= i < list.len() ==> 0 < encode_utf8(#[trigger] list[i]).len() <= 63,
        },
    decreases list.len(),
{
    if list.len() > 0 {
        let rest = list.drop_first();
        if fits(list[0]) {
            the_first_unfit_label_is_named(rest);
            assert forall|i: int| 0 < i < list.len() implies list[i] == rest[i - 1] by {}
            match first_misfit(rest) {
                Some(l) => {
                    let i = choose|i: int|
                        0 <= i < rest.len() && #[trigger] rest[i] == l && (encode_utf8(l).len() == 0
                            || encode_utf8(l).len() > 63) && forall|j: int|
                            0 <= j < i ==> 0 < encode_utf8(#[trigger] rest[j]).len() <= 63;
                    assert(list[i + 1] == l);
                    assert forall|j: int| 0 <= j < i + 1 implies 0 < encode_utf8(
                        #[trigger] list[j],
                    ).len() <= 63 by {
                        if j > 0 {
                            assert(list[j] == rest[j - 1]);
                        }
                    }
                },
                None => {},
            }
        } else {
            assert(list[0] == first_misfit(list)->0);
        }
    }
}

/// The codes of an answer by their numbers.
pub proof fn codes_have_their_names(rcode: u8)
    ensures
        rcode_text(0) == "успех"@,
        rcode_text(1) == "ошибка формата запроса"@,
        rcode_text(2) == "сбой сервера"@,
        rcode_text(3) == "имя не существует"@,
        rcode_text(4) == "запрос не поддерживается"@,
        rcode_text(5) == "отказано"@,
        rcode > 5 ==> rcode_text(rcode) == "неизвестный код"@,
{
}

/// An answer is told by its addresses and how long they live; one without
/// addresses by its code.
pub proof fn an_answer_is_told(a: AnswerView)
    ensures
        a.addresses.len() == 0 ==> a.description() == "код ответа "@ + dec(a.rcode as nat) + " ("@
            + rcode_text(a.rcode) + "), адресов нет"@,
        a.addresses.len() > 0 && a.min_ttl is Some ==> a.description() == joined(
            notations(a.addresses),
            ", "@,
        ) + (", TTL "@ + dec(a.min_ttl->0 as nat) + " с"@) + ", за "@ + dec(
            a.elapsed.nanos as nat / 1_000_000,
        ) + " мс"@,
        a.addresses.len() > 0 && a.min_ttl is None ==> a.description() == joined(
            notations(a.addresses),
            ", "@,
        ) + Seq::empty() + ", за "@ + dec(a.elapsed.nanos as nat / 1_000_000) + " мс"@,
{
}

} // verus!
