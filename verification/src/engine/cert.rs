//! The server's certificate.
//!
//! Equipment that opens protected connections has to show a certificate of
//! its own in the place of the real one. That is what is looked for here: not
//! a bad certificate as such, but one that was issued for another site, or by
//! its owner to itself. Signatures are not checked; a name that does not match
//! is a simpler sign, and a plainer one for a person.
//!
//! The certificate is read from raw DER, because it comes out of a handshake
//! that is taken apart by hand.

use vstd::prelude::*;
use vstd::string::StringExecFns;
use crate::bytes::{alike, copied, word, word_of};
use crate::model::opt_text;
use crate::scan::{
    first_char, join, joined, lemma_first_char, lemma_first_char_bounds, part, parted,
    strip_prefix, stripped, texts, trim, trim_end, trimmed, trimmed_end,
};
use crate::text::{from_utf8_lossy, lossy_text, lower, lowercased, same};
use super::tls::{byte_views, message_views};

verus! {

/// What could be read in a certificate.
#[derive(Debug, Clone, PartialEq, Eq)]
pub struct Info {
    /// To whom it was issued: the common name of the subject.
    pub subject: Option<String>,
    /// By whom it was issued: the common name of the issuer.
    pub issuer: Option<String>,
    /// The names for which it is valid.
    pub names: Vec<String>,
}

#[verifier::ext_equal]
pub struct InfoView {
    pub subject: Option<Seq<char>>,
    pub issuer: Option<Seq<char>>,
    pub names: Seq<Seq<char>>,
}

impl View for Info {
    type V = InfoView;

    open spec fn view(&self) -> InfoView {
        InfoView {
            subject: opt_text(self.subject),
            issuer: opt_text(self.issuer),
            names: texts(self.names@),
        }
    }
}

impl InfoView {
    /// Whether subject and issuer are known and the same.
    pub open spec fn issued_to_itself(self) -> bool {
        self.subject is Some && self.subject == self.issuer
    }

    /// Whether one of the names, or the subject, is good for a domain.
    pub open spec fn good_for(self, domain: Seq<char>) -> bool {
        let wanted = lowercased(trimmed_end(domain, '.'));
        ||| exists|i: int|
            0 <= i < self.names.len() && fits_name(
                plain_pattern(#[trigger] self.names[i]),
                wanted,
            )
        ||| self.subject matches Some(s) && fits_name(plain_pattern(s), wanted)
    }

    pub open spec fn description(self) -> Seq<char> {
        "выдан «"@ + (match self.subject {
            Some(s) => s,
            None => "не указано"@,
        }) + "», кем выдан: «"@ + (match self.issuer {
            Some(s) => s,
            None => "не указан"@,
        }) + "»"@ + (if self.names.len() == 0 {
            Seq::empty()
        } else {
            ", действителен для: "@ + joined(self.names, ", "@)
        })
    }
}

impl Info {
    /// Whether the certificate was issued by its owner to itself. Real sites
    /// do not use such ones.
    pub fn self_signed(&self) -> (r: bool)
        ensures
            r == self@.issued_to_itself(),
    {
        match (&self.subject, &self.issuer) {
            (Some(s), Some(i)) => same(s.as_str(), i.as_str()),
            _ => false,
        }
    }

    /// Whether the certificate is good for a domain.
    pub fn covers(&self, domain: &str) -> (r: bool)
        ensures
            r == self@.good_for(domain@),
    {
        let wanted = lower(trim_end(domain, '.').as_str());
        let mut i: usize = 0;
        while i < self.names.len()
            invariant
                i <= self.names@.len(),
                wanted@ == lowercased(trimmed_end(domain@, '.')),
                forall|j: int|
                    0 <= j < i ==> !fits_name(
                        plain_pattern(#[trigger] self@.names[j]),
                        wanted@,
                    ),
            decreases self.names@.len() - i,
        {
            assert(self@.names[i as int] == self.names@[i as int]@);
            if matches_name(self.names[i].as_str(), wanted.as_str()) {
                return true;
            }
            i += 1;
        }
        match &self.subject {
            Some(s) => matches_name(s.as_str(), wanted.as_str()),
            None => false,
        }
    }

    pub fn describe(&self) -> (r: String)
        ensures
            r@ == self@.description(),
    {
        let subject = match &self.subject {
            Some(s) => s.clone(),
            None => String::from_str("не указано"),
        };
        let issuer = match &self.issuer {
            Some(s) => s.clone(),
            None => String::from_str("не указан"),
        };
        let names = if self.names.len() == 0 {
            String::new()
        } else {
            String::from_str(", действителен для: ").concat(join(&self.names, ", ").as_str())
        };
        String::from_str("выдан «").concat(subject.as_str()).concat("», кем выдан: «").concat(
            issuer.as_str(),
        ).concat("»").concat(names.as_str())
    }
}

/// A name in a certificate without spaces round it, dots behind it and
/// capital letters in it.
pub open spec fn plain_pattern(pattern: Seq<char>) -> Seq<char> {
    lowercased(trimmed_end(trimmed(pattern), '.'))
}

/// Whether a plain pattern is good for a domain. An asterisk stands for
/// exactly one label.
pub open spec fn fits_name(pattern: Seq<char>, domain: Seq<char>) -> bool {
    match stripped(pattern, "*."@) {
        None => pattern == domain,
        Some(suffix) => match parted(domain, '.') {
            Some(p) => p.1 == suffix,
            None => false,
        },
    }
}

pub fn fits(pattern: &str, domain: &str) -> (r: bool)
    ensures
        r == fits_name(pattern@, domain@),
{
    match strip_prefix(pattern, "*.") {
        None => same(pattern, domain),
        Some(suffix) => match part(domain, '.') {
            Some(p) => same(p.1.as_str(), suffix.as_str()),
            None => false,
        },
    }
}

/// Whether a name in a certificate is good for a domain, with asterisks taken
/// into account: `*.example.com` is good for `www.example.com`, but neither
/// for `a.b.example.com` nor for `example.com` itself.
pub fn matches_name(pattern: &str, domain: &str) -> (r: bool)
    ensures
        r == fits_name(plain_pattern(pattern@), domain@),
{
    let plain = lower(trim_end(trim(pattern).as_str(), '.').as_str());
    fits(plain.as_str(), domain)
}

/// An asterisk is good for exactly the domains that have one label more than
/// what follows it, and never for that itself.
pub proof fn wildcard_covers_one_level(suffix: Seq<char>, domain: Seq<char>)
    ensures
        fits_name("*."@ + suffix, domain) <==> exists|label: Seq<char>|
            !label.contains('.') && domain == #[trigger] (label + seq!['.'] + suffix),
        !fits_name("*."@ + suffix, suffix),
{
    let pattern = "*."@ + suffix;
    assert("*."@.is_prefix_of(pattern)) by {
        assert(pattern.take("*."@.len() as int) =~= "*."@);
    }
    assert(pattern.skip("*."@.len() as int) =~= suffix);
    assert(stripped(pattern, "*."@) == Some(suffix));
    lemma_first_char_bounds(domain, '.');
    let i = first_char(domain, '.');
    if fits_name(pattern, domain) {
        let label = domain.take(i);
        assert(!label.contains('.'));
        assert(domain =~= label + seq!['.'] + suffix);
    }
    if exists|label: Seq<char>|
        !label.contains('.') && domain == #[trigger] (label + seq!['.'] + suffix) {
        let label = choose|label: Seq<char>|
            !label.contains('.') && domain == #[trigger] (label + seq!['.'] + suffix);
        assert forall|j: int| 0 <= j < label.len() implies #[trigger] domain[j] != '.' by {
            assert(label[j] == domain[j]);
            assert(label.contains(label[j]));
        }
        lemma_first_char(domain, '.', label.len() as int);
        assert(domain.skip(label.len() + 1int) =~= suffix);
    }
    lemma_first_char_bounds(suffix, '.');
    if fits_name(pattern, suffix) {
        let k = first_char(suffix, '.');
        assert(suffix.skip(k + 1).len() < suffix.len());
    }
}

/// The length field of a DER element: its value and the size of the header,
/// where it is complete and of at most four bytes.
pub open spec fn der_length(der: Seq<u8>, pos: int) -> Option<(nat, int)> {
    let first = der[pos + 1];
    if first < 128 {
        Some((first as nat, 2))
    } else if first == 128 || first > 132 || pos + 2 + (first - 128) > der.len() {
        None
    } else {
        Some((big_endian(der.subrange(pos + 2, pos + 2 + (first - 128))), 2 + (first - 128)))
    }
}

/// The number that bytes make, most significant first.
pub open spec fn big_endian(bytes: Seq<u8>) -> nat
    decreases bytes.len(),
{
    if bytes.len() == 0 {
        0
    } else {
        big_endian(bytes.drop_last()) * 256 + bytes.last() as nat
    }
}

/// One DER element: its tag and where its contents begin and end.
pub open spec fn element(der: Seq<u8>, pos: int) -> Option<(u8, int, int)> {
    if pos < 0 || pos + 1 >= der.len() {
        None
    } else {
        match der_length(der, pos) {
            None => None,
            Some((len, header)) => if pos + header + len > der.len() {
                None
            } else {
                Some((der[pos], pos + header, pos + header + len))
            },
        }
    }
}

/// A DER element: its tag and the bounds of its contents.
#[derive(Debug, Clone, Copy, PartialEq, Eq, Structural)]
pub struct Element {
    pub tag: u8,
    pub start: usize,
    pub end: usize,
}

impl Element {
    pub open spec fn bounds(self) -> (u8, int, int) {
        (self.tag, self.start as int, self.end as int)
    }
}

/// Reads one DER element.
pub fn tlv(der: &[u8], pos: usize) -> (r: Option<Element>)
    ensures
        match r {
            Some(e) => element(der@, pos as int) == Some(e.bounds()) && pos < e.start <= e.end
                <= der@.len(),
            None => element(der@, pos as int) is None,
        },
{
    let total: usize = der.len();
    if pos >= total || total - pos < 2 {
        return None;
    }
    let tag = der[pos];
    let first = der[pos + 1];
    let mut len: u64 = first as u64;
    let mut start: usize = pos + 2;
    if first >= 128 {
        if first == 128 || first > 132 {
            return None;
        }
        let count: usize = (first - 128) as usize;
        if count > total - pos - 2 {
            return None;
        }
        let ghost field = der@.subrange(pos + 2, pos + 2 + count);
        len = 0;
        let mut i: usize = 0;
        let ghost mut limit: int = 1;
        assert(field.take(0) =~= Seq::<u8>::empty());
        while i < count
            invariant
                count <= 4,
                pos + 2 + count <= total,
                total == der@.len(),
                field == der@.subrange(pos + 2, pos + 2 + count),
                i <= count,
                len == big_endian(field.take(i as int)),
                len < limit,
                limit == (if i == 0 {
                    1int
                } else if i == 1 {
                    256
                } else if i == 2 {
                    65536
                } else if i == 3 {
                    16777216
                } else {
                    4294967296
                }),
            decreases count - i,
        {
            proof {
                assert(field.take(i + 1).drop_last() =~= field.take(i as int));
                assert(field.take(i + 1).last() == der@[pos + 2 + i]);
                limit = limit * 256;
            }
            len = len * 256 + der[pos + 2 + i] as u64;
            i += 1;
        }
        assert(field.take(count as int) =~= field);
        start = pos + 2 + count;
    }
    if len > (total - start) as u64 {
        return None;
    }
    Some(Element { tag, start, end: start + len as usize })
}

/// The identifier of a common name.
pub open spec fn common_name_id() -> Seq<u8> {
    seq![0x55u8, 0x04, 0x03]
}

/// What a search in a malformed or ordinary structure comes to.
pub enum Search {
    /// The structure is broken; nothing more is to be found.
    Broken,
    /// What was looked for is not there.
    Absent,
    Found(Seq<u8>),
}

/// The common name in one set of a name, from a position on.
pub open spec fn name_in_set(der: Seq<u8>, pos: int, end: int) -> Search
    decreases der.len() - pos,
{
    if pos >= end {
        Search::Absent
    } else {
        match element(der, pos) {
            None => Search::Broken,
            Some((_, pair_start, pair_end)) => match element(der, pair_start) {
                None => Search::Broken,
                Some((tag, oid_start, oid_end)) => if tag == 0x06 && der.subrange(
                    oid_start,
                    oid_end,
                ) == common_name_id() {
                    match element(der, oid_end) {
                        None => Search::Broken,
                        Some((_, start, stop)) => Search::Found(der.subrange(start, stop)),
                    }
                } else {
                    name_in_set(der, pair_end, end)
                },
            },
        }
    }
}

/// The common name in a name, from a position on: the first one in its sets.
pub open spec fn name_in(der: Seq<u8>, pos: int, end: int) -> Option<Seq<u8>>
    decreases der.len() - pos,
{
    if pos >= end {
        None
    } else {
        match element(der, pos) {
            None => None,
            Some((_, set_start, set_end)) => match name_in_set(der, set_start, set_end) {
                Search::Broken => None,
                Search::Found(value) => Some(value),
                Search::Absent => name_in(der, set_end, end),
            },
        }
    }
}

pub open spec fn opt_bytes(b: Option<Vec<u8>>) -> Option<Seq<u8>> {
    match b {
        Some(v) => Some(v@),
        None => None,
    }
}

enum Hit {
    Broken,
    Absent,
    Found(Vec<u8>),
}

impl Hit {
    spec fn meaning(self) -> Search {
        match self {
            Hit::Broken => Search::Broken,
            Hit::Absent => Search::Absent,
            Hit::Found(v) => Search::Found(v@),
        }
    }
}

fn search_set(der: &[u8], from: usize, end: usize) -> (r: Hit)
    ensures
        r.meaning() == name_in_set(der@, from as int, end as int),
{
    let id: [u8; 3] = [0x55, 0x04, 0x03];
    assert(id@ =~= common_name_id());
    let mut pos: usize = from;
    while pos < end
        invariant
            id@ == common_name_id(),
            name_in_set(der@, pos as int, end as int) == name_in_set(
                der@,
                from as int,
                end as int,
            ),
        decreases der@.len() - pos,
    {
        let pair = match tlv(der, pos) {
            None => {
                return Hit::Broken;
            },
            Some(e) => e,
        };
        let oid = match tlv(der, pair.start) {
            None => {
                return Hit::Broken;
            },
            Some(e) => e,
        };
        let found = copied(der, oid.start, oid.end);
        if oid.tag == 0x06 && alike(found.as_slice(), &id) {
            return match tlv(der, oid.end) {
                None => Hit::Broken,
                Some(value) => Hit::Found(copied(der, value.start, value.end)),
            };
        }
        pos = pair.end;
    }
    Hit::Absent
}

/// Finds the common name in a name: a sequence of sets of pairs of an
/// identifier and a value.
fn common_name(der: &[u8], from: usize, end: usize) -> (r: Option<Vec<u8>>)
    ensures
        opt_bytes(r) == name_in(der@, from as int, end as int),
{
    let mut pos: usize = from;
    while pos < end
        invariant
            name_in(der@, pos as int, end as int) == name_in(der@, from as int, end as int),
        decreases der@.len() - pos,
    {
        let set = match tlv(der, pos) {
            None => {
                return None;
            },
            Some(e) => e,
        };
        match search_set(der, set.start, set.end) {
            Hit::Broken => {
                return None;
            },
            Hit::Found(value) => {
                return Some(value);
            },
            Hit::Absent => {},
        }
        pos = set.end;
    }
    None
}

/// The identifier of the extension with further names, as it is encoded.
pub open spec fn alt_names_id() -> Seq<u8> {
    seq![0x06u8, 0x03, 0x55, 0x1D, 0x11]
}

/// Where the extension with further names begins, from a position on.
pub open spec fn alt_names_at(der: Seq<u8>, i: int) -> Option<int>
    decreases der.len() - i,
{
    if i + 5 > der.len() {
        None
    } else if der.subrange(i, i + 5) == alt_names_id() {
        Some(i)
    } else {
        alt_names_at(der, i + 1)
    }
}

/// The domain names in a list of names, from a position on.
pub open spec fn domains_in(der: Seq<u8>, pos: int, end: int) -> Seq<Seq<u8>>
    decreases der.len() - pos,
{
    if pos >= end {
        Seq::empty()
    } else {
        match element(der, pos) {
            None => Seq::empty(),
            Some((tag, start, stop)) => {
                let first = if tag == 0x82 {
                    seq![der.subrange(start, stop)]
                } else {
                    Seq::empty()
                };
                first + domains_in(der, stop, end)
            },
        }
    }
}

/// The domain names in the extension with further names. The extension is
/// looked for by its identifier in the whole certificate: the way to it is
/// long and optional, the identifier is unique.
pub open spec fn alt_names_in(der: Seq<u8>) -> Seq<Seq<u8>> {
    match alt_names_at(der, 0) {
        None => Seq::empty(),
        Some(at) => alt_names_after(der, at + 5),
    }
}

/// The domain names in an extension, from where its identifier ends. A mark
/// that the extension is critical may stand in front of its contents.
pub open spec fn alt_names_after(der: Seq<u8>, at: int) -> Seq<Seq<u8>> {
    let marked = at < der.len() && der[at] == 0x01;
    let from = if marked {
        match element(der, at) {
            None => None,
            Some((_, _, stop)) => Some(stop),
        }
    } else {
        Some(at)
    };
    match from {
        None => Seq::empty(),
        Some(p) => match element(der, p) {
            None => Seq::empty(),
            Some((tag, octets, _)) => if tag != 0x04 {
                Seq::empty()
            } else {
                match element(der, octets) {
                    None => Seq::empty(),
                    Some((_, start, stop)) => domains_in(der, start, stop),
                }
            },
        },
    }
}

fn find_alt_names(der: &[u8]) -> (r: Option<usize>)
    ensures
        match r {
            Some(at) => alt_names_at(der@, 0) == Some(at as int) && at + 5 <= der@.len(),
            None => alt_names_at(der@, 0) is None,
        },
{
    let id: [u8; 5] = [0x06, 0x03, 0x55, 0x1D, 0x11];
    assert(id@ =~= alt_names_id());
    let total: usize = der.len();
    let mut i: usize = 0;
    while i <= total && total - i >= 5
        invariant
            id@ == alt_names_id(),
            total == der@.len(),
            i <= total,
            alt_names_at(der@, i as int) == alt_names_at(der@, 0),
        decreases total - i,
    {
        let window = copied(der, i, i + 5);
        if alike(window.as_slice(), &id) {
            return Some(i);
        }
        i += 1;
    }
    None
}

fn alt_names(der: &[u8]) -> (r: Vec<Vec<u8>>)
    ensures
        byte_views(r@) == alt_names_in(der@),
{
    let mut names: Vec<Vec<u8>> = Vec::new();
    assert(byte_views(names@) =~= Seq::<Seq<u8>>::empty());
    let total: usize = der.len();
    let at = match find_alt_names(der) {
        None => {
            return names;
        },
        Some(at) => at + 5,
    };
    let mut pos: usize = at;
    if pos < total && der[pos] == 0x01 {
        match tlv(der, pos) {
            None => {
                return names;
            },
            Some(critical) => {
                pos = critical.end;
            },
        }
    }
    let octets = match tlv(der, pos) {
        None => {
            return names;
        },
        Some(e) => e,
    };
    if octets.tag != 0x04 {
        return names;
    }
    let list = match tlv(der, octets.start) {
        None => {
            return names;
        },
        Some(e) => e,
    };
    let ghost whole = domains_in(der@, list.start as int, list.end as int);
    let mut item: usize = list.start;
    assert(byte_views(names@) + whole =~= whole);
    loop
        invariant
            byte_views(names@) + domains_in(der@, item as int, list.end as int) == whole,
        ensures
            byte_views(names@) == whole,
        decreases der@.len() - item,
    {
        assert(byte_views(names@) + Seq::<Seq<u8>>::empty() =~= byte_views(names@));
        if item >= list.end {
            break;
        }
        let entry = match tlv(der, item) {
            None => {
                break;
            },
            Some(e) => e,
        };
        let ghost was = names@;
        let ghost rest = domains_in(der@, entry.end as int, list.end as int);
        if entry.tag == 0x82 {
            let bytes = copied(der, entry.start, entry.end);
            names.push(bytes);
            proof {
                assert(byte_views(names@) =~= byte_views(was).push(bytes@));
                assert(byte_views(names@) + rest =~= byte_views(was) + (seq![bytes@] + rest));
            }
        } else {
            assert(byte_views(names@) + rest =~= byte_views(was) + (Seq::<Seq<u8>>::empty()
                + rest));
        }
        item = entry.end;
    }
    names
}

/// What stands in a certificate, in bytes.
#[derive(Debug)]
pub struct Raw {
    pub subject: Option<Vec<u8>>,
    pub issuer: Option<Vec<u8>>,
    pub names: Vec<Vec<u8>>,
}

#[verifier::ext_equal]
pub struct RawView {
    pub subject: Option<Seq<u8>>,
    pub issuer: Option<Seq<u8>>,
    pub names: Seq<Seq<u8>>,
}

impl View for Raw {
    type V = RawView;

    open spec fn view(&self) -> RawView {
        RawView {
            subject: opt_bytes(self.subject),
            issuer: opt_bytes(self.issuer),
            names: byte_views(self.names@),
        }
    }
}

/// Where an element ends, if there is one.
pub open spec fn after(der: Seq<u8>, pos: Option<int>) -> Option<int> {
    match pos {
        None => None,
        Some(p) => match element(der, p) {
            None => None,
            Some((_, _, stop)) => Some(stop),
        },
    }
}

/// Where the serial number of a certificate stands: inside two sequences,
/// behind an optional version.
pub open spec fn serial_at(der: Seq<u8>) -> Option<int> {
    match element(der, 0) {
        Some((0x30, certificate, _)) => match element(der, certificate) {
            Some((0x30, body, _)) => match element(der, body) {
                None => None,
                Some((tag, _, stop)) => if tag == 0xA0 {
                    Some(stop)
                } else {
                    Some(body)
                },
            },
            _ => None,
        },
        _ => None,
    }
}

/// What is read of a certificate: behind the serial number come the
/// algorithm, the issuer, the dates and the subject.
pub open spec fn certificate(der: Seq<u8>) -> Option<RawView> {
    let issuer_at = after(der, after(der, serial_at(der)));
    let subject_at = after(der, after(der, issuer_at));
    match subject_at {
        None => None,
        Some(s) => match element(der, s) {
            None => None,
            Some((_, subject_start, subject_end)) => {
                let issuer = element(der, issuer_at->0)->0;
                Some(
                    RawView {
                        subject: name_in(der, subject_start, subject_end),
                        issuer: name_in(der, issuer.1, issuer.2),
                        names: alt_names_in(der),
                    },
                )
            },
        },
    }
}

fn step_over(der: &[u8], pos: usize) -> (r: Option<usize>)
    ensures
        match r {
            Some(p) => after(der@, Some(pos as int)) == Some(p as int),
            None => after(der@, Some(pos as int)) is None,
        },
{
    match tlv(der, pos) {
        None => None,
        Some(e) => Some(e.end),
    }
}

fn find_serial(der: &[u8]) -> (r: Option<usize>)
    ensures
        match r {
            Some(p) => serial_at(der@) == Some(p as int),
            None => serial_at(der@) is None,
        },
{
    let outer = match tlv(der, 0) {
        None => {
            return None;
        },
        Some(e) => e,
    };
    if outer.tag != 0x30 {
        return None;
    }
    let body = match tlv(der, outer.start) {
        None => {
            return None;
        },
        Some(e) => e,
    };
    if body.tag != 0x30 {
        return None;
    }
    match tlv(der, body.start) {
        None => None,
        Some(version) => if version.tag == 0xA0 {
            Some(version.end)
        } else {
            Some(body.start)
        },
    }
}

/// Reads a certificate in DER, leaving its names as bytes.
pub fn read(der: &[u8]) -> (r: Option<Raw>)
    ensures
        match r {
            Some(raw) => certificate(der@) == Some(raw@),
            None => certificate(der@) is None,
        },
{
    let serial = match find_serial(der) {
        None => {
            return None;
        },
        Some(p) => p,
    };
    let algorithm = match step_over(der, serial) {
        None => {
            return None;
        },
        Some(p) => p,
    };
    let issuer_at = match step_over(der, algorithm) {
        None => {
            return None;
        },
        Some(p) => p,
    };
    let issuer = match tlv(der, issuer_at) {
        None => {
            return None;
        },
        Some(e) => e,
    };
    let subject_at = match step_over(der, issuer.end) {
        None => {
            return None;
        },
        Some(p) => p,
    };
    let subject = match tlv(der, subject_at) {
        None => {
            return None;
        },
        Some(e) => e,
    };
    Some(
        Raw {
            subject: common_name(der, subject.start, subject.end),
            issuer: common_name(der, issuer.start, issuer.end),
            names: alt_names(der),
        },
    )
}

pub open spec fn opt_lossy(b: Option<Seq<u8>>) -> Option<Seq<char>> {
    match b {
        Some(bytes) => Some(lossy_text(bytes)),
        None => None,
    }
}

/// The text of a certificate's names.
pub open spec fn in_text(raw: RawView) -> InfoView {
    InfoView {
        subject: opt_lossy(raw.subject),
        issuer: opt_lossy(raw.issuer),
        names: raw.names.map_values(|b: Seq<u8>| lossy_text(b)),
    }
}

fn opt_to_text(b: &Option<Vec<u8>>) -> (r: Option<String>)
    ensures
        opt_text(r) == opt_lossy(opt_bytes(*b)),
{
    match b {
        Some(bytes) => Some(from_utf8_lossy(bytes.as_slice())),
        None => None,
    }
}

/// Reads a certificate in DER.
pub fn parse(der: &[u8]) -> (r: Option<Info>)
    ensures
        match r {
            Some(info) => certificate(der@) matches Some(raw) && info@ == in_text(raw),
            None => certificate(der@) is None,
        },
{
    let raw = match read(der) {
        None => {
            return None;
        },
        Some(raw) => raw,
    };
    let mut names: Vec<String> = Vec::new();
    let mut i: usize = 0;
    while i < raw.names.len()
        invariant
            i <= raw.names@.len(),
            names@.len() == i,
            forall|j: int| 0 <= j < i ==> (#[trigger] names@[j])@ == lossy_text(raw.names@[j]@),
        decreases raw.names@.len() - i,
    {
        names.push(from_utf8_lossy(raw.names[i].as_slice()));
        i += 1;
    }
    assert(texts(names@) =~= in_text(raw@).names);
    Some(Info { subject: opt_to_text(&raw.subject), issuer: opt_to_text(&raw.issuer), names })
}

/// The body of the first message with certificates.
pub open spec fn first_certificates(messages: Seq<(u8, Seq<u8>)>) -> Option<Seq<u8>>
    decreases messages.len(),
{
    if messages.len() == 0 {
        None
    } else if messages[0].0 == 11 {
        Some(messages[0].1)
    } else {
        first_certificates(messages.drop_first())
    }
}

/// The first certificate in such a body: behind the length of the list come
/// the length of the certificate and the certificate.
pub open spec fn first_der(body: Seq<u8>) -> Option<Seq<u8>> {
    if body.len() < 6 {
        None
    } else {
        let len = body[3] * 65536 + word(body[4], body[5]);
        if 6 + len > body.len() {
            None
        } else {
            Some(body.subrange(6, 6 + len))
        }
    }
}

/// Finds the first certificate in the messages of a handshake and reads it.
pub fn from_handshake(messages: &[(u8, Vec<u8>)]) -> (r: Option<Info>)
    ensures
        ({
            let der = match first_certificates(message_views(messages@)) {
                None => None,
                Some(body) => first_der(body),
            };
            match r {
                Some(info) => der matches Some(d) && certificate(d) matches Some(raw) && info@
                    == in_text(raw),
                None => der is None || certificate(der->0) is None,
            }
        }),
{
    let ghost list = message_views(messages@);
    let mut i: usize = 0;
    assert(list.skip(0) =~= list);
    while i < messages.len() && messages[i].0 != 11
        invariant
            i <= messages@.len(),
            list == message_views(messages@),
            first_certificates(list.skip(i as int)) == first_certificates(list),
        decreases messages@.len() - i,
    {
        proof {
            assert(list.skip(i as int)[0] == (messages@[i as int].0, messages@[i as int].1@));
            assert(list.skip(i as int).drop_first() =~= list.skip(i + 1));
        }
        i += 1;
    }
    if i >= messages.len() {
        assert(list.skip(i as int) =~= Seq::<(u8, Seq<u8>)>::empty());
        return None;
    }
    assert(list.skip(i as int)[0] == (messages@[i as int].0, messages@[i as int].1@));
    let body = messages[i].1.as_slice();
    let total: usize = body.len();
    if total < 6 {
        return None;
    }
    let len: usize = body[3] as usize * 65536 + word_of(body[4], body[5]) as usize;
    if len > total - 6 {
        return None;
    }
    let der = copied(body, 6, 6 + len);
    parse(der.as_slice())
}

/// An element written in DER is read back where it stands: with its tag, and
/// with the bounds of its contents. Up to 127 bytes the length is one byte; a
/// longer one says first in how many bytes it stands.
pub proof fn an_element_is_read_back(front: Seq<u8>, tag: u8, inside: Seq<u8>, rest: Seq<u8>)
    requires
        inside.len() < 65536,
    ensures
        ({
            let at = front.len() as int;
            let n = inside.len() as int;
            &&& n < 128 ==> element(front + seq![tag, n as u8] + inside + rest, at) == Some(
                (tag, at + 2, at + 2 + n),
            )
            &&& n < 256 ==> element(front + seq![tag, 0x81u8, n as u8] + inside + rest, at) == Some(
                (tag, at + 3, at + 3 + n),
            )
            &&& element(
                front + seq![tag, 0x82u8, (n / 256) as u8, (n % 256) as u8] + inside + rest,
                at,
            ) == Some((tag, at + 4, at + 4 + n))
        }),
{
    let at = front.len() as int;
    let n = inside.len() as int;
    reveal_with_fuel(big_endian, 3);
    let two = front + seq![tag, 0x81u8, n as u8] + inside + rest;
    let three = front + seq![tag, 0x82u8, (n / 256) as u8, (n % 256) as u8] + inside + rest;
    if n < 256 {
        let field = two.subrange(at + 2, at + 3);
        assert(field =~= seq![n as u8]);
        assert(field.drop_last().len() == 0);
    }
    let field = three.subrange(at + 2, at + 4);
    assert(field =~= seq![(n / 256) as u8, (n % 256) as u8]);
    assert(field.drop_last() =~= seq![(n / 256) as u8]);
    assert(field.drop_last().drop_last().len() == 0);
    assert((n / 256) * 256 + n % 256 == n);
}

/// An element that does not wholly stand in its bytes, or whose length is of no
/// known form, is none.
pub proof fn a_cut_element_is_none(der: Seq<u8>, pos: int)
    ensures
        element(der, pos) matches Some((tag, start, stop)) ==> {
            &&& 0 <= pos
            &&& tag == der[pos]
            &&& pos + 2 <= start <= pos + 6
            &&& start <= stop <= der.len()
        },
        pos < 0 || pos + 1 >= der.len() ==> element(der, pos) is None,
        0 <= pos && pos + 1 < der.len() && der[pos + 1] < 128 && pos + 2 + der[pos + 1] > der.len()
            ==> element(der, pos) is None,
        0 <= pos && pos + 1 < der.len() && (der[pos + 1] == 0x80 || der[pos + 1] > 0x84) ==> element(
            der,
            pos,
        ) is None,
{
}

/// A certificate's fields come in their order: the version where there is one,
/// the serial number, the algorithm, the issuer, the term, the subject. The
/// names are read from the fourth and the sixth of these.
pub proof fn fields_come_in_their_order(der: Seq<u8>)
    ensures
        ({
            let whole = element(der, 0);
            let body = element(der, (whole->0).1);
            let first = element(der, (body->0).1);
            let second = element(der, (first->0).2);
            let third = element(der, (second->0).2);
            let fourth = element(der, (third->0).2);
            let fifth = element(der, (fourth->0).2);
            let sixth = element(der, (fifth->0).2);
            &&& (whole is None || (whole->0).0 != 0x30 || body is None || (body->0).0 != 0x30
                || first is None) ==> certificate(der) is None
            &&& whole is Some && (whole->0).0 == 0x30 && body is Some && (body->0).0 == 0x30
                && first is Some && second is Some && third is Some && fourth is Some && fifth is Some
                ==> {
                &&& (first->0).0 != 0xA0 ==> certificate(der) is Some && (certificate(
                    der,
                )->0).issuer == name_in(der, (third->0).1, (third->0).2) && (certificate(
                    der,
                )->0).subject == name_in(der, (fifth->0).1, (fifth->0).2)
                &&& (first->0).0 == 0xA0 && sixth is Some ==> certificate(der) is Some && (
                certificate(der)->0).issuer == name_in(der, (fourth->0).1, (fourth->0).2) && (
                certificate(der)->0).subject == name_in(der, (sixth->0).1, (sixth->0).2)
            }
        }),
{
}

/// A name is the value that stands behind the identifier of the common name in
/// the first pair that has it. A pair with another identifier is passed over.
pub proof fn the_common_name_is_taken(der: Seq<u8>, pos: int, end: int)
    requires
        pos < end,
        element(der, pos) is Some,
        element(der, (element(der, pos)->0).1) is Some,
        element(der, (element(der, (element(der, pos)->0).1)->0).1) is Some,
    ensures
        ({
            let set = element(der, pos)->0;
            let pair = element(der, set.1)->0;
            let oid = element(der, pair.1)->0;
            let value = element(der, oid.2);
            let common = oid.0 == 6 && der.subrange(oid.1, oid.2) == seq![0x55u8, 4, 3];
            &&& set.1 < set.2 && common && value is Some ==> name_in(der, pos, end) == Some(
                der.subrange((value->0).1, (value->0).2),
            )
            &&& set.1 < set.2 && !common && pair.2 >= set.2 ==> name_in(der, pos, end) == name_in(
                der,
                set.2,
                end,
            )
        }),
{
    reveal_with_fuel(name_in_set, 2);
}

/// The other names of a certificate stand behind the first mark of their
/// extension.
pub proof fn the_first_mark_counts(der: Seq<u8>, i: int)
    requires
        0 <= i,
    ensures
        match alt_names_at(der, i) {
            Some(k) => i <= k && k + 5 <= der.len() && der.subrange(k, k + 5) == seq![
                6u8, 3, 0x55, 0x1D, 0x11,
            ] && forall|j: int|
                i <= j < k ==> #[trigger] der.subrange(j, j + 5) != seq![6u8, 3, 0x55, 0x1D, 0x11],
            None => forall|j: int|
                i <= j && j + 5 <= der.len() ==> #[trigger] der.subrange(j, j + 5) != seq![
                    6u8, 3, 0x55, 0x1D, 0x11,
                ],
        },
    decreases der.len() - i,
{
    if i + 5 <= der.len() && der.subrange(i, i + 5) != alt_names_id() {
        the_first_mark_counts(der, i + 1);
    }
}

/// Of the other names the domains are taken, in order; names of another form are
/// passed over.
pub proof fn only_domains_are_taken(der: Seq<u8>, pos: int, end: int)
    requires
        element(der, pos) is Some,
    ensures
        ({
            let (tag, start, stop) = element(der, pos)->0;
            &&& pos < end && tag == 0x82 ==> domains_in(der, pos, end) == seq![
                der.subrange(start, stop),
            ] + domains_in(der, stop, end)
            &&& pos < end && tag != 0x82 ==> domains_in(der, pos, end) == domains_in(der, stop, end)
            &&& pos >= end ==> domains_in(der, pos, end).len() == 0
        }),
{
    let (tag, start, stop) = element(der, pos)->0;
    assert(Seq::<Seq<u8>>::empty() + domains_in(der, stop, end) =~= domains_in(der, stop, end));
}

/// The names stand in an octet string behind the mark, whether or not a flag
/// stands between them.
pub proof fn names_stand_behind_the_mark(der: Seq<u8>, at: int)
    requires
        0 <= at < der.len(),
    ensures
        ({
            let next = element(der, at);
            let octets = if der[at] == 1 {
                element(der, (next->0).2)
            } else {
                next
            };
            let list = element(der, (octets->0).1);
            &&& next is Some && octets is Some && (octets->0).0 == 4 && list is Some
                ==> alt_names_after(der, at) == domains_in(der, (list->0).1, (list->0).2)
            &&& next is Some && octets is Some && (octets->0).0 != 4 ==> alt_names_after(
                der,
                at,
            ).len() == 0
        }),
{
}

/// A certificate is good for a domain where one of its names, or its subject,
/// is that domain, or an asterisk in the place of its first label; the case of
/// letters, dots at the end and white space around a name do not matter.
pub proof fn one_name_is_enough(info: InfoView, domain: Seq<char>, name: Seq<char>)
    requires
        info.names.contains(name) || info.subject == Some(name),
    ensures
        lowercased(trimmed_end(trimmed(name), '.')) == lowercased(trimmed_end(domain, '.'))
            && !"*."@.is_prefix_of(lowercased(trimmed_end(trimmed(name), '.'))) ==> info.good_for(
            domain,
        ),
        (exists|label: Seq<char>, suffix: Seq<char>|
            !label.contains('.') && lowercased(trimmed_end(trimmed(name), '.')) == "*."@ + suffix
                && lowercased(trimmed_end(domain, '.')) == #[trigger] (label + seq!['.'] + suffix))
            ==> info.good_for(domain),
{
    let pattern = lowercased(trimmed_end(trimmed(name), '.'));
    let wanted = lowercased(trimmed_end(domain, '.'));
    if info.names.contains(name) {
        let i = choose|i: int| 0 <= i < info.names.len() && info.names[i] == name;
        assert(info.names[i] == name);
        if fits_name(plain_pattern(info.names[i]), wanted) {
            assert(info.good_for(domain));
        }
    }
    if exists|label: Seq<char>, suffix: Seq<char>|
        !label.contains('.') && pattern == "*."@ + suffix && wanted == #[trigger] (label + seq!['.']
            + suffix) {
        let (label, suffix) = choose|label: Seq<char>, suffix: Seq<char>|
            !label.contains('.') && pattern == "*."@ + suffix && wanted == #[trigger] (label
                + seq!['.'] + suffix);
        wildcard_covers_one_level(suffix, wanted);
        assert(fits_name(pattern, wanted));
    }
}

/// A certificate without a name that fits is good for nothing: where it is good
/// for a domain, one of its names or its subject says so.
pub proof fn a_stranger_is_not_covered(info: InfoView, domain: Seq<char>)
    ensures
        info.names.len() == 0 && info.subject is None ==> !info.good_for(domain),
        info.good_for(domain) ==> exists|name: Seq<char>|
            (info.names.contains(name) || info.subject == Some(name)) && ({
                let pattern = lowercased(trimmed_end(#[trigger] trimmed(name), '.'));
                let wanted = lowercased(trimmed_end(domain, '.'));
                pattern == wanted || ("*."@.is_prefix_of(pattern) && parted(wanted, '.') is Some && (
                parted(wanted, '.')->0).1 == pattern.skip("*."@.len() as int))
            }),
{
    let wanted = lowercased(trimmed_end(domain, '.'));
    if info.good_for(domain) {
        if exists|i: int|
            0 <= i < info.names.len() && fits_name(plain_pattern(#[trigger] info.names[i]), wanted) {
            let i = choose|i: int|
                0 <= i < info.names.len() && fits_name(
                    plain_pattern(#[trigger] info.names[i]),
                    wanted,
                );
            assert(info.names.contains(info.names[i]));
            assert(plain_pattern(info.names[i]) == lowercased(
                trimmed_end(trimmed(info.names[i]), '.'),
            ));
        } else {
            let s = info.subject->0;
            assert(plain_pattern(s) == lowercased(trimmed_end(trimmed(s), '.')));
        }
    }
}

/// The certificate is in the first message of its kind, behind the length of the
/// list and its own.
pub proof fn the_first_certificate_is_read(messages: Seq<(u8, Seq<u8>)>)
    ensures
        match first_certificates(messages) {
            Some(body) => exists|i: int|
                0 <= i < messages.len() && #[trigger] messages[i] == (11u8, body) && forall|j: int|
                    0 <= j < i ==> (#[trigger] messages[j]).0 != 11,
            None => forall|i: int| 0 <= i < messages.len() ==> (#[trigger] messages[i]).0 != 11,
        },
    decreases messages.len(),
{
    if messages.len() > 0 {
        let rest = messages.drop_first();
        if messages[0].0 == 11 {
            assert(messages[0] == (11u8, messages[0].1));
        } else {
            the_first_certificate_is_read(rest);
            assert forall|i: int| 0 < i < messages.len() implies messages[i] == rest[i - 1] by {}
            match first_certificates(rest) {
                Some(body) => {
                    let i = choose|i: int|
                        0 <= i < rest.len() && #[trigger] rest[i] == (11u8, body) && forall|j: int|
                            0 <= j < i ==> (#[trigger] rest[j]).0 != 11;
                    assert(messages[i + 1] == (11u8, body));
                    assert forall|j: int| 0 <= j < i + 1 implies (#[trigger] messages[j]).0
                        != 11 by {
                        if j > 0 {
                            assert(messages[j] == rest[j - 1]);
                        }
                    }
                },
                None => {},
            }
        }
    }
}

/// A certificate written into its message, behind three bytes for the list and
/// three for itself, is read back from there.
pub proof fn a_certificate_is_read_back(list: Seq<u8>, len: Seq<u8>, der: Seq<u8>, rest: Seq<u8>)
    requires
        list.len() == 3,
        len.len() == 3,
        len[0] * 65536 + len[1] * 256 + len[2] == der.len(),
    ensures
        first_der(list + len + der + rest) == Some(der),
        der.len() > 0 ==> first_der(list + len + der.drop_last()) is None,
        first_der(list + len.drop_last()) is None,
{
    let body = list + len + der + rest;
    assert(body.subrange(6, 6 + der.len() as int) =~= der);
}

/// A certificate is issued to itself where its subject and its issuer are one
/// and the same; one without a subject is not.
pub proof fn a_stranger_issues_to_others(info: InfoView)
    ensures
        info.subject is None || info.issuer is None ==> !info.issued_to_itself(),
        info.subject is Some && info.issuer is Some ==> (info.issued_to_itself() <==> info.subject->0
            == info.issuer->0),
{
}

/// A certificate is told by whom it was issued, to whom, and for which domains
/// where it names any.
pub proof fn a_certificate_is_told(info: InfoView)
    ensures
        info.subject is Some && info.issuer is Some && info.names.len() == 0 ==> info.description()
            == "выдан «"@ + info.subject->0 + "», кем выдан: «"@ + info.issuer->0 + "»"@
            + Seq::empty(),
        info.subject is Some && info.issuer is Some && info.names.len() > 0 ==> info.description()
            == "выдан «"@ + info.subject->0 + "», кем выдан: «"@ + info.issuer->0 + "»"@ + (
        ", действителен для: "@ + joined(info.names, ", "@)),
{
}

} // verus!
