//! Plain HTTP: is a stub page put in the place of the site?
//!
//! Over plain HTTP the site's name goes in the open, in the `Host` header, so
//! equipment on the way can easily answer for the server with a page of its
//! own. Such a page is told not by a list of providers, which would be out of
//! date in a month, but by what it says and where it leads.

use vstd::prelude::*;
use vstd::string::StringExecFns;
use crate::model::opt_text;
use crate::net::lemma_pieces_cons;
use crate::scan::{
    after_last, before_any, before_first, contains, first_char, has_text,
    lemma_first_char_bounds, lemma_found_from, lines, lines_end_at_their_feeds, lines_of,
    occurs_at, part, part_by, parted, parted_by, pieces, pieces_make_the_text, since_last, split,
    starts_with, strip_prefix, stripped, texts, texts_are_parted_at_the_first, trim, trim_end,
    trimmed, trimmed_end, until_any, until_first, words, words_come_in_order, words_of,
};
use crate::text::{
    as_u16, chars_of, cut, dec, decimal, from_utf8_lossy, is_white, lossy_text, lower, lowercased,
    parse_u16, same,
};
use crate::time::Duration;

verus! {

/// A response over HTTP.
#[derive(Debug, Clone)]
pub struct Response {
    pub status: u16,
    /// Where it redirects to, if it does.
    pub location: Option<String>,
    /// The beginning of the body: stubs are short.
    pub body: String,
    pub elapsed: Duration,
}

#[verifier::ext_equal]
pub struct ResponseView {
    pub status: u16,
    pub location: Option<Seq<char>>,
    pub body: Seq<char>,
    pub elapsed: Duration,
}

impl View for Response {
    type V = ResponseView;

    open spec fn view(&self) -> ResponseView {
        ResponseView {
            status: self.status,
            location: opt_text(self.location),
            body: self.body@,
            elapsed: self.elapsed,
        }
    }
}

impl ResponseView {
    pub open spec fn description(self) -> Seq<char> {
        "код "@ + dec(self.status as nat) + (match self.location {
            Some(l) => ", перенаправление на "@ + l,
            None => Seq::empty(),
        }) + ", ответ за "@ + dec(self.elapsed.millis()) + " мс"@
    }
}

impl Response {
    pub fn describe(&self) -> (r: String)
        ensures
            r@ == self@.description(),
    {
        let redirect = match &self.location {
            Some(l) => String::from_str(", перенаправление на ").concat(l.as_str()),
            None => String::new(),
        };
        String::from_str("код ").concat(decimal(self.status as u128).as_str()).concat(
            redirect.as_str(),
        ).concat(", ответ за ").concat(decimal(self.elapsed.as_millis()).as_str()).concat(" мс")
    }
}

/// Words that stand on stub pages and hardly ever on real sites.
pub open spec fn stub_markers() -> Seq<Seq<char>> {
    seq![
        "доступ ограничен"@,
        "доступ к запрашиваемому ресурсу"@,
        "ограничение доступа"@,
        "ресурс заблокирован"@,
        "сайт заблокирован"@,
        "единый реестр"@,
        "реестр запрещённой информации"@,
        "роскомнадзор"@,
        "eais.rkn.gov.ru"@,
        "zapret-info"@,
        "blocked by"@,
        "access denied by"@,
    ]
}

fn marker_list() -> (r: [&'static str; 12])
    ensures
        forall|i: int| 0 <= i < 12 ==> (#[trigger] r@[i])@ == stub_markers()[i],
{
    [
        "доступ ограничен",
        "доступ к запрашиваемому ресурсу",
        "ограничение доступа",
        "ресурс заблокирован",
        "сайт заблокирован",
        "единый реестр",
        "реестр запрещённой информации",
        "роскомнадзор",
        "eais.rkn.gov.ru",
        "zapret-info",
        "blocked by",
        "access denied by",
    ]
}

/// The request. The connection is closed at once: a server that is not told
/// so waits for another request.
pub fn request(host: &str) -> (r: String)
    ensures
        r@ == "GET / HTTP/1.1\r\nHost: "@ + host@
            + "\r\nUser-Agent: netchecker\r\nAccept: text/html\r\nConnection: close\r\n\r\n"@,
{
    String::from_str("GET / HTTP/1.1\r\nHost: ").concat(host).concat(
        "\r\nUser-Agent: netchecker\r\nAccept: text/html\r\nConnection: close\r\n\r\n",
    )
}

/// The most that is read of a page.
pub const READ_LIMIT: usize = 16384;

/// Whether enough of the response has come: a stub fits in a few kilobytes.
pub fn enough(received: usize) -> (r: bool)
    ensures
        r == (received > READ_LIMIT),
{
    received > READ_LIMIT
}

/// The status code in the first line of the head, or 0.
pub open spec fn status_in(head: Seq<char>) -> u16 {
    let all = lines_of(head);
    if all.len() == 0 || words_of(all[0]).len() < 2 {
        0
    } else {
        match as_u16(words_of(all[0])[1]) {
            Some(code) => code,
            None => 0,
        }
    }
}

/// Whether a line of the head is the header `Location`.
pub open spec fn is_location(line: Seq<char>) -> bool {
    "location:"@.is_prefix_of(lowercased(line))
}

/// The value of the first header `Location` among lines.
pub open spec fn location_in(all: Seq<Seq<char>>) -> Option<Seq<char>>
    decreases all.len(),
{
    if all.len() == 0 {
        None
    } else if is_location(all[0]) {
        match parted(all[0], ':') {
            Some(p) => Some(trimmed(p.1)),
            None => None,
        }
    } else {
        location_in(all.drop_first())
    }
}

/// How much of the body is kept.
pub const BODY_LIMIT: usize = 4096;

/// What a response says, from its text.
pub open spec fn response_of(text: Seq<char>, elapsed: Duration) -> ResponseView {
    let (head, body) = match parted_by(text, "\r\n\r\n"@) {
        Some(p) => p,
        None => (text, Seq::empty()),
    };
    ResponseView {
        status: status_in(head),
        location: location_in(lines_of(head)),
        body: if body.len() > BODY_LIMIT {
            body.take(BODY_LIMIT as int)
        } else {
            body
        },
        elapsed,
    }
}

fn status_of(head: &str) -> (r: u16)
    ensures
        r == status_in(head@),
{
    let all = lines(head);
    if all.len() == 0 {
        return 0;
    }
    assert(texts(all@)[0] == all@[0]@);
    let parts = words(all[0].as_str());
    if parts.len() < 2 {
        return 0;
    }
    assert(texts(parts@)[1] == parts@[1]@);
    match parse_u16(parts[1].as_str()) {
        Some(code) => code,
        None => 0,
    }
}

fn location_of(head: &str) -> (r: Option<String>)
    ensures
        opt_text(r) == location_in(lines_of(head@)),
{
    let all = lines(head);
    let ghost list = texts(all@);
    let mut i: usize = 0;
    assert(list.skip(0) =~= list);
    while i < all.len()
        invariant
            i <= all@.len(),
            list == texts(all@),
            list == lines_of(head@),
            location_in(list.skip(i as int)) == location_in(list),
        decreases all@.len() - i,
    {
        proof {
            assert(list[i as int] == all@[i as int]@);
            assert(list.skip(i as int)[0] == list[i as int]);
            assert(list.skip(i as int).drop_first() =~= list.skip(i + 1));
        }
        let line = all[i].as_str();
        if starts_with(lower(line).as_str(), "location:") {
            return match part(line, ':') {
                Some(p) => Some(trim(p.1.as_str())),
                None => None,
            };
        }
        i += 1;
    }
    assert(list.skip(i as int) =~= Seq::<Seq<char>>::empty());
    None
}

/// Reads a response from its text.
pub fn parse_text(text: &str, elapsed: Duration) -> (r: Response)
    ensures
        r@ == response_of(text@, elapsed),
{
    let (head, body) = match part_by(text, "\r\n\r\n") {
        Some(p) => p,
        None => (text.to_owned(), String::new()),
    };
    let chars = chars_of(body.as_str());
    let kept = if chars.len() > BODY_LIMIT {
        cut(&chars, 0, BODY_LIMIT)
    } else {
        body
    };
    proof {
        if chars@.len() > BODY_LIMIT {
            assert(chars@.subrange(0, BODY_LIMIT as int) =~= chars@.take(BODY_LIMIT as int));
        }
    }
    Response {
        status: status_of(head.as_str()),
        location: location_of(head.as_str()),
        body: kept,
        elapsed,
    }
}

/// Reads a response from its bytes.
pub fn parse(raw: &[u8], elapsed: Duration) -> (r: Response)
    ensures
        r@ == response_of(lossy_text(raw@), elapsed),
{
    let text = from_utf8_lossy(raw);
    parse_text(text.as_str(), elapsed)
}

/// What came of a request: a response, or an error where nothing came.
pub fn finish(raw: &[u8], elapsed: Duration) -> (r: Result<Response, String>)
    ensures
        raw@.len() == 0 ==> (r matches Err(e) && e@ == "ответа нет"@),
        raw@.len() > 0 ==> (r matches Ok(v) && v@ == response_of(lossy_text(raw@), elapsed)),
{
    if raw.len() == 0 {
        Err(String::from_str("ответа нет"))
    } else {
        Ok(parse(raw, elapsed))
    }
}

/// The text in which the words of a stub are looked for.
pub open spec fn searched(response: ResponseView) -> Seq<char> {
    response.body + " "@ + (match response.location {
        Some(l) => l,
        None => Seq::empty(),
    })
}

/// The first of some markers that a text holds.
pub open spec fn first_marker(text: Seq<char>, markers: Seq<Seq<char>>) -> Option<Seq<char>>
    decreases markers.len(),
{
    if markers.len() == 0 {
        None
    } else if has_text(text, markers[0]) {
        Some(markers[0])
    } else {
        first_marker(text, markers.drop_first())
    }
}

/// Why a response looks like a stub: from the text in lower case and the
/// domain to which it redirects.
pub open spec fn stub_reason(
    text: Seq<char>,
    target: Option<Seq<char>>,
    host: Seq<char>,
) -> Option<Seq<char>> {
    match first_marker(text, stub_markers()) {
        Some(marker) => Some("в ответе есть слова «"@ + marker + "»"@),
        None => match target {
            Some(t) if !akin(t, host) => Some("перенаправление на чужой домен "@ + t),
            _ => None,
        },
    }
}

fn find_marker(text: &str) -> (r: Option<&'static str>)
    ensures
        match r {
            Some(m) => first_marker(text@, stub_markers()) == Some(m@),
            None => first_marker(text@, stub_markers()) is None,
        },
{
    let markers = marker_list();
    let ghost list = stub_markers();
    let mut i: usize = 0;
    assert(list.skip(0) =~= list);
    while i < 12
        invariant
            i <= 12,
            list == stub_markers(),
            forall|j: int| 0 <= j < 12 ==> (#[trigger] markers@[j])@ == list[j],
            first_marker(text@, list.skip(i as int)) == first_marker(text@, list),
        decreases 12 - i,
    {
        proof {
            assert(list.skip(i as int)[0] == list[i as int]);
            assert(list.skip(i as int).drop_first() =~= list.skip(i + 1));
        }
        let marker = markers[i];
        if contains(text, marker) {
            return Some(marker);
        }
        i += 1;
    }
    assert(list.skip(i as int) =~= Seq::<Seq<char>>::empty());
    None
}

/// Whether a response looks like a stub, from its text in lower case and the
/// domain to which it redirects.
///
/// A redirect to another's domain is the second sign of one: a real site leads
/// to itself, a stub to a page of the provider.
pub fn stub_sign(text: &str, target: Option<String>, host: &str) -> (r: Option<String>)
    ensures
        opt_text(r) == stub_reason(text@, opt_text(target), host@),
{
    match find_marker(text) {
        Some(marker) => {
            return Some(String::from_str("в ответе есть слова «").concat(marker).concat("»"));
        },
        None => {},
    }
    match target {
        Some(t) => if !related(t.as_str(), host) {
            Some(String::from_str("перенаправление на чужой домен ").concat(t.as_str()))
        } else {
            None
        },
        None => None,
    }
}

/// The domain to which a response redirects.
pub open spec fn target_of(response: ResponseView) -> Option<Seq<char>> {
    match response.location {
        Some(l) => domain_of(l),
        None => None,
    }
}

/// Whether a response looks like a stub page, and why.
pub fn looks_like_stub(response: &Response, host: &str) -> (r: Option<String>)
    ensures
        opt_text(r) == stub_reason(
            lowercased(searched(response@)),
            target_of(response@),
            host@,
        ),
{
    let location = match &response.location {
        Some(l) => l.clone(),
        None => String::new(),
    };
    let text = response.body.clone().concat(" ").concat(location.as_str());
    let target = match &response.location {
        Some(l) => host_of(l.as_str()),
        None => None,
    };
    stub_sign(lower(text.as_str()).as_str(), target, host)
}

/// The domain in a link, as it is written there.
pub open spec fn written_domain(url: Seq<char>) -> Option<Seq<char>> {
    let rest = match stripped(trimmed(url), "http://"@) {
        Some(r) => Some(r),
        None => stripped(trimmed(url), "https://"@),
    };
    match rest {
        None => None,
        Some(r) => {
            let host = before_first(after_last(before_any(r, seq!['/', '?', '#']), '@'), ':');
            if host.len() == 0 {
                None
            } else {
                Some(host)
            }
        },
    }
}

/// The domain in a link, in lower case.
pub open spec fn domain_of(url: Seq<char>) -> Option<Seq<char>> {
    match written_domain(url) {
        Some(host) => Some(lowercased(host)),
        None => None,
    }
}

/// Finds the domain in a link: what stands between the scheme and the path,
/// without user and port.
pub fn written_host(url: &str) -> (r: Option<String>)
    ensures
        opt_text(r) == written_domain(url@),
{
    let bare = trim(url);
    let rest = match strip_prefix(bare.as_str(), "http://") {
        Some(rest) => rest,
        None => match strip_prefix(bare.as_str(), "https://") {
            Some(rest) => rest,
            None => {
                return None;
            },
        },
    };
    let ends: [char; 3] = ['/', '?', '#'];
    assert(ends@ =~= seq!['/', '?', '#']);
    let place = until_any(rest.as_str(), &ends);
    let site = since_last(place.as_str(), '@');
    let host = until_first(site.as_str(), ':');
    if chars_of(host.as_str()).len() == 0 {
        None
    } else {
        Some(host)
    }
}

pub fn host_of(url: &str) -> (r: Option<String>)
    ensures
        opt_text(r) == domain_of(url@),
{
    match written_host(url) {
        Some(host) => Some(lower(host.as_str())),
        None => None,
    }
}

/// The last two labels of a domain, the last one first.
pub open spec fn root_of(host: Seq<char>) -> Seq<char> {
    let parts = pieces(trimmed_end(host, '.'), '.');
    if parts.len() >= 2 {
        parts[parts.len() - 1] + "."@ + parts[parts.len() - 2]
    } else if parts.len() == 1 {
        parts[0]
    } else {
        Seq::empty()
    }
}

/// Whether two domains are akin: their last two labels are the same.
pub open spec fn akin(a: Seq<char>, b: Seq<char>) -> bool {
    root_of(a) == root_of(b)
}

fn root(host: &str) -> (r: String)
    ensures
        r@ == root_of(host@),
{
    let parts = split(trim_end(host, '.').as_str(), '.');
    let n: usize = parts.len();
    let ghost list = texts(parts@);
    if n >= 2 {
        assert(list[n - 1] == parts@[n - 1]@);
        assert(list[n - 2] == parts@[n - 2]@);
        parts[n - 1].clone().concat(".").concat(parts[n - 2].as_str())
    } else if n == 1 {
        assert(list[0] == parts@[0]@);
        parts[0].clone()
    } else {
        String::new()
    }
}

/// Whether two domains are akin: a redirect from `example.com` to
/// `www.example.com` is nothing unusual.
pub fn related(a: &str, b: &str) -> (r: bool)
    ensures
        r == akin(a@, b@),
{
    same(root(a).as_str(), root(b).as_str())
}

/// A site may lead to itself: a domain of two or more labels and every domain
/// under it are akin. So a redirect there is never called a redirect to
/// another's domain.
pub proof fn subdomain_is_akin(sub: Seq<char>, host: Seq<char>)
    requires
        pieces(trimmed_end(host, '.'), '.').len() >= 2,
    ensures
        akin(sub + "."@ + host, host),
        akin(host, sub + "."@ + host),
{
    reveal_strlit(".");
    assert("."@ =~= seq!['.']);
    let bare = trimmed_end(host, '.');
    let whole = sub + "."@ + host;
    if bare.len() == 0 {
        assert(pieces(bare, '.').len() == 1);
    }
    lemma_trimmed_end_keeps(sub + "."@, host, '.');
    lemma_pieces_of_both(sub, bare, '.');
    let (front, back) = (pieces(sub, '.'), pieces(bare, '.'));
    let parts = front + back;
    assert(parts[parts.len() - 1] == back[back.len() - 1]);
    assert(parts[parts.len() - 2] == back[back.len() - 2]);
}

/// What stands in front of a text does not change what is trimmed off its end.
proof fn lemma_trimmed_end_keeps(front: Seq<char>, s: Seq<char>, c: char)
    requires
        trimmed_end(s, c).len() > 0,
    ensures
        trimmed_end(front + s, c) == front + trimmed_end(s, c),
    decreases s.len(),
{
    if s.last() == c {
        lemma_trimmed_end_keeps(front, s.drop_last(), c);
        assert((front + s).drop_last() =~= front + s.drop_last());
    }
}

/// The pieces of two texts with the separator between them.
proof fn lemma_pieces_of_both(a: Seq<char>, b: Seq<char>, c: char)
    ensures
        pieces(a + seq![c] + b, c) == pieces(a, c) + pieces(b, c),
    decreases a.len(),
{
    let i = first_char(a, c);
    lemma_first_char_bounds(a, c);
    if i >= a.len() {
        lemma_pieces_cons(a, b, c);
    } else {
        let (head, tail) = (a.take(i), a.skip(i + 1));
        assert forall|j: int| 0 <= j < head.len() implies head[j] != c by {
            assert(head[j] == a[j]);
        }
        assert(a + seq![c] + b =~= head + seq![c] + (tail + seq![c] + b));
        lemma_pieces_cons(head, tail + seq![c] + b, c);
        lemma_pieces_of_both(tail, b, c);
        assert(seq![head] + (pieces(tail, c) + pieces(b, c)) =~= pieces(a, c) + pieces(b, c));
    }
}

/// The first marker that stands in a text is named; where none does, none is.
pub proof fn the_first_marker_is_named(text: Seq<char>, markers: Seq<Seq<char>>)
    ensures
        match first_marker(text, markers) {
            Some(m) => exists|i: int|
                0 <= i < markers.len() && #[trigger] markers[i] == m && has_text(text, m)
                    && forall|j: int| 0 <= j < i ==> !has_text(text, #[trigger] markers[j]),
            None => forall|i: int|
                0 <= i < markers.len() ==> !has_text(text, #[trigger] markers[i]),
        },
    decreases markers.len(),
{
    if markers.len() > 0 {
        let rest = markers.drop_first();
        assert(markers[0] == markers[0]);
        if !has_text(text, markers[0]) {
            the_first_marker_is_named(text, rest);
            assert forall|i: int| 0 < i < markers.len() implies markers[i] == rest[i - 1] by {}
            match first_marker(text, rest) {
                Some(m) => {
                    let i = choose|i: int|
                        0 <= i < rest.len() && #[trigger] rest[i] == m && has_text(text, m)
                            && forall|j: int| 0 <= j < i ==> !has_text(text, #[trigger] rest[j]);
                    assert(markers[i + 1] == m);
                    assert forall|j: int| 0 <= j < i + 1 implies !has_text(
                        text,
                        #[trigger] markers[j],
                    ) by {
                        if j > 0 {
                            assert(markers[j] == rest[j - 1]);
                        }
                    }
                },
                None => {},
            }
        }
    }
}

/// Two names are akin where their last two labels are the same ones, dots at
/// the end aside.
pub proof fn the_last_two_labels_make_kin(a: Seq<char>, b: Seq<char>)
    requires
        pieces(trimmed_end(a, '.'), '.').len() >= 2,
        pieces(trimmed_end(b, '.'), '.').len() >= 2,
    ensures
        ({
            let p = pieces(trimmed_end(a, '.'), '.');
            let q = pieces(trimmed_end(b, '.'), '.');
            akin(a, b) <==> p[p.len() - 1] == q[q.len() - 1] && p[p.len() - 2] == q[q.len() - 2]
        }),
{
    let p = pieces(trimmed_end(a, '.'), '.');
    let q = pieces(trimmed_end(b, '.'), '.');
    pieces_make_the_text(trimmed_end(a, '.'), '.');
    pieces_make_the_text(trimmed_end(b, '.'), '.');
    let (x, y) = (p[p.len() - 1], q[q.len() - 1]);
    let (u, v) = (p[p.len() - 2], q[q.len() - 2]);
    reveal_strlit(".");
    assert("."@ =~= seq!['.']);
    if akin(a, b) {
        let r = root_of(a);
        assert forall|j: int| 0 <= j < x.len() implies r[j] != '.' by {
            assert(r[j] == x[j]);
            assert(x.contains(x[j]));
        }
        assert forall|j: int| 0 <= j < y.len() implies r[j] != '.' by {
            assert(r[j] == y[j]);
            assert(y.contains(y[j]));
        }
        assert(r[x.len() as int] == '.');
        assert(r[y.len() as int] == '.');
        assert(x.len() == y.len());
        assert(x =~= r.take(x.len() as int));
        assert(y =~= r.take(x.len() as int));
        assert(u =~= r.skip(x.len() + 1int));
        assert(v =~= r.skip(x.len() + 1int));
    }
}

/// A page is called a stub for words of one in it, or for leading to a name
/// that is not akin, and for nothing else.
pub proof fn a_stub_has_a_reason(text: Seq<char>, target: Option<Seq<char>>, host: Seq<char>)
    ensures
        stub_reason(text, target, host) is Some <==> (exists|i: int|
            0 <= i < stub_markers().len() && has_text(text, #[trigger] stub_markers()[i])) || (
        target is Some && root_of(target->0) != root_of(host)),
        target is None && (forall|i: int|
            0 <= i < stub_markers().len() ==> !has_text(text, #[trigger] stub_markers()[i]))
            ==> stub_reason(text, target, host) is None,
{
    the_first_marker_is_named(text, stub_markers());
}

/// A response is parted at its first blank line. What follows is the body, of
/// which no more than 4096 characters are kept; what stands before gives the
/// status and the place to go to.
pub proof fn a_response_is_parted_at_the_blank_line(text: Seq<char>, elapsed: Duration)
    ensures
        ({
            let r = response_of(text, elapsed);
            &&& r.elapsed == elapsed
            &&& r.body.len() <= 4096
            &&& !has_text(text, "\r\n\r\n"@) ==> r.body.len() == 0 && r.status == status_in(text)
            &&& has_text(text, "\r\n\r\n"@) ==> exists|head: Seq<char>, body: Seq<char>|
                {
                    &&& text == #[trigger] (head + "\r\n\r\n"@ + body)
                    &&& forall|k: int| 0 <= k < head.len() ==> !occurs_at(text, "\r\n\r\n"@, k)
                    &&& r.status == status_in(head)
                    &&& r.location == location_in(lines_of(head))
                    &&& body.len() <= 4096 ==> r.body == body
                    &&& body.len() > 4096 ==> r.body == body.take(4096)
                }
        }),
{
    texts_are_parted_at_the_first(text, "\r\n\r\n"@);
    lemma_found_from(text, "\r\n\r\n"@, 0);
    match parted_by(text, "\r\n\r\n"@) {
        Some((head, body)) => {
            assert(text == head + "\r\n\r\n"@ + body);
        },
        None => {},
    }
}

/// The place to go to stands in the first line that begins with its header,
/// behind the first colon, without the white space around it. A response
/// without such a line leads nowhere.
pub proof fn the_first_location_counts(all: Seq<Seq<char>>)
    ensures
        (forall|i: int|
            0 <= i < all.len() ==> !"location:"@.is_prefix_of(lowercased(#[trigger] all[i])))
            ==> location_in(all) is None,
        forall|i: int|
            0 <= i < all.len() && "location:"@.is_prefix_of(lowercased(#[trigger] all[i])) && (
            forall|j: int|
                0 <= j < i ==> !"location:"@.is_prefix_of(lowercased(#[trigger] all[j])))
                && parted(all[i], ':') is Some ==> location_in(all) == Some(
                trimmed((parted(all[i], ':')->0).1),
            ),
    decreases all.len(),
{
    if all.len() > 0 && !is_location(all[0]) {
        let rest = all.drop_first();
        the_first_location_counts(rest);
        assert forall|i: int| 0 < i < all.len() implies all[i] == rest[i - 1] by {}
        assert forall|i: int|
            0 <= i < all.len() && "location:"@.is_prefix_of(lowercased(#[trigger] all[i])) && (
            forall|j: int|
                0 <= j < i ==> !"location:"@.is_prefix_of(lowercased(#[trigger] all[j])))
                && parted(all[i], ':') is Some implies location_in(all) == Some(
            trimmed((parted(all[i], ':')->0).1),
        ) by {
            assert(i > 0);
            assert(all[i] == rest[i - 1]);
            assert forall|j: int| 0 <= j < i - 1 implies !"location:"@.is_prefix_of(
                lowercased(#[trigger] rest[j]),
            ) by {
                assert(rest[j] == all[j + 1]);
            }
        }
        if forall|i: int|
            0 <= i < all.len() ==> !"location:"@.is_prefix_of(lowercased(#[trigger] all[i])) {
            assert forall|j: int| 0 <= j < rest.len() implies !"location:"@.is_prefix_of(
                lowercased(#[trigger] rest[j]),
            ) by {
                assert(rest[j] == all[j + 1]);
            }
        }
    }
}

/// A response is told by its code, the place it leads to and its delay.
pub proof fn a_response_is_told(r: ResponseView)
    ensures
        r.location is None ==> r.description() == "код "@ + dec(r.status as nat) + Seq::empty()
            + ", ответ за "@ + dec(r.elapsed.nanos as nat / 1_000_000) + " мс"@,
        r.location matches Some(l) ==> r.description() == "код "@ + dec(r.status as nat) + (
        ", перенаправление на "@ + l) + ", ответ за "@ + dec(r.elapsed.nanos as nat / 1_000_000)
            + " мс"@,
{
}

/// The status is the second word of the first line, where that is a number.
pub proof fn the_status_is_the_second_word(
    version: Seq<char>,
    code: Seq<char>,
    reason: Seq<char>,
    rest: Seq<char>,
)
    requires
        version.len() > 0,
        code.len() > 0,
        forall|i: int| 0 <= i < version.len() ==> !is_white(#[trigger] version[i]),
        forall|i: int| 0 <= i < code.len() ==> !is_white(#[trigger] code[i]),
        !reason.contains('\n'),
    ensures
        ({
            let head = version + seq![' '] + (code + seq![' '] + reason) + seq!['\r', '\n'] + rest;
            status_in(head) == (match as_u16(code) {
                Some(n) => n,
                None => 0u16,
            })
        }),
        status_in(Seq::empty()) == 0,
{
    let tail = code + seq![' '] + reason;
    let line = version + seq![' '] + tail;
    assert(!line.contains('\n')) by {
        assert forall|i: int| 0 <= i < line.len() implies line[i] != '\n' by {
            if i < version.len() {
                assert(line[i] == version[i]);
            } else if i > version.len() && i <= version.len() + code.len() {
                assert(line[i] == code[i - version.len() - 1]);
            } else if i > version.len() + code.len() + 1 {
                assert(line[i] == reason[i - version.len() - code.len() - 2]);
                assert(reason.contains(reason[i - version.len() - code.len() - 2]));
            }
        }
    }
    lines_end_at_their_feeds(line, rest);
    let none = Seq::<char>::empty();
    words_come_in_order(none, version, ' ', tail);
    words_come_in_order(none, code, ' ', reason);
    assert(none + version + seq![' '] + tail =~= line);
    assert(none + code + seq![' '] + reason =~= tail);
    let words = words_of(line);
    assert(words == seq![version] + (seq![code] + words_of(reason)));
    assert(words[1] == code);
    let head = line + seq!['\r', '\n'] + rest;
    assert(lines_of(head)[0] == line);
}

/// The domain of an address is what stands between the scheme and the first
/// slash, question mark or hash, without a user before it or a port behind it,
/// in small letters. Without a scheme there is none.
pub proof fn a_domain_stands_behind_its_scheme(url: Seq<char>)
    ensures
        !"http://"@.is_prefix_of(trimmed(url)) && !"https://"@.is_prefix_of(trimmed(url))
            ==> domain_of(url) is None,
        "https://"@.is_prefix_of(trimmed(url)) && !"http://"@.is_prefix_of(trimmed(url)) ==> ({
            let rest = trimmed(url).skip("https://"@.len() as int);
            let host = before_first(after_last(before_any(rest, seq!['/', '?', '#']), '@'), ':');
            &&& host.len() > 0 ==> domain_of(url) == Some(lowercased(host))
            &&& host.len() == 0 ==> domain_of(url) is None
        }),
        "http://"@.is_prefix_of(trimmed(url)) ==> ({
            let rest = trimmed(url).skip("http://"@.len() as int);
            let host = before_first(after_last(before_any(rest, seq!['/', '?', '#']), '@'), ':');
            &&& host.len() > 0 ==> domain_of(url) == Some(lowercased(host))
            &&& host.len() == 0 ==> domain_of(url) is None
        }),
{
}

} // verus!
