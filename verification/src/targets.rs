//! The list of targets: domains and addresses to check.
//!
//! The list belongs to the user and not to the program. Everybody has other
//! sites that do not open, and a list fixed in the code would answer someone
//! else's question. So targets are edited as plain lines and kept between
//! runs.

use vstd::prelude::*;
use crate::net::{lemma_notation_chars, lemma_notation_injective, Ipv4Addr};
use crate::scan::{
    after_last, before_any, join, joined, last_char, lemma_first_of, lemma_last_char,
    lemma_lines_of_joined, lemma_texts_empty, lemma_texts_push, lines, lines_of,
    part_back, parted_back, since_last, strip_prefix, stripped, texts, trim, trim_end, trimmed,
    trimmed_back, trimmed_end, trimmed_front, until_any,
};
use crate::text::{
    all_digits, ascii_lowered, chars_of, is_alphanumeric, is_capital, is_digit, is_white,
    lower, lowercased, same,
};

verus! {

/// What is checked.
#[derive(Debug, Clone, Copy, PartialEq, Eq, Structural)]
pub enum Kind {
    /// The name of a site: forged DNS and filtering by name can be checked.
    Domain,
    /// A bare address: only whether it can be reached is checked.
    Address(Ipv4Addr),
}

impl Kind {
    pub open spec fn title_text(self) -> Seq<char> {
        match self {
            Kind::Domain => "домен"@,
            Kind::Address(_) => "адрес"@,
        }
    }

    pub fn title(&self) -> (r: &'static str)
        ensures
            r@ == self.title_text(),
    {
        match self {
            Kind::Domain => "домен",
            Kind::Address(_) => "адрес",
        }
    }
}

/// One target.
#[derive(Debug, PartialEq, Eq)]
pub struct Target {
    /// The text as the user sees it.
    pub value: String,
    pub kind: Kind,
}

#[verifier::ext_equal]
pub struct TargetView {
    pub value: Seq<char>,
    pub kind: Kind,
}

impl View for Target {
    type V = TargetView;

    open spec fn view(&self) -> TargetView {
        TargetView { value: self.value@, kind: self.kind }
    }
}

impl Target {
    pub fn is_domain(&self) -> (r: bool)
        ensures
            r == (self@.kind == Kind::Domain),
    {
        match self.kind {
            Kind::Domain => true,
            Kind::Address(_) => false,
        }
    }
}

impl Clone for Target {
    fn clone(&self) -> (r: Self)
        ensures
            r@ == self@,
    {
        Target { value: self.value.clone(), kind: self.kind }
    }
}

/// Sites that work for everybody, and after them sites that are often blocked.
///
/// Without the former the list would be useless: "the site does not open" says
/// nothing by itself. If these open and the others do not, it is certainly not
/// the connection. The latter are samples to compare with, not a register.
pub open spec fn default_lines() -> Seq<Seq<char>> {
    seq![
        "ya.ru"@,
        "vk.com"@,
        "gosuslugi.ru"@,
        "example.com"@,
        "cloudflare.com"@,
        "www.youtube.com"@,
        "discord.com"@,
        "instagram.com"@,
        "www.facebook.com"@,
        "x.com"@,
        "telegram.org"@,
        "chatgpt.com"@,
        "www.linkedin.com"@,
        "medium.com"@,
        "signal.org"@,
        "soundcloud.com"@,
        "rutracker.org"@,
    ]
}

/// How many sites of the default list work for everybody.
pub const CONTROLS: usize = 5;

/// How many targets the default list has.
pub const DEFAULTS_LEN: usize = 17;

/// The default list, one line for each target.
pub fn defaults() -> (r: Vec<String>)
    ensures
        texts(r@) == default_lines(),
        r@.len() == DEFAULTS_LEN,
{
    let names: [&'static str; 17] = [
        "ya.ru",
        "vk.com",
        "gosuslugi.ru",
        "example.com",
        "cloudflare.com",
        "www.youtube.com",
        "discord.com",
        "instagram.com",
        "www.facebook.com",
        "x.com",
        "telegram.org",
        "chatgpt.com",
        "www.linkedin.com",
        "medium.com",
        "signal.org",
        "soundcloud.com",
        "rutracker.org",
    ];
    assert(forall|i: int| 0 <= i < 17 ==> (#[trigger] names@[i])@ == default_lines()[i]);
    let mut out: Vec<String> = Vec::new();
    let mut i: usize = 0;
    while i < 17
        invariant
            i <= 17,
            forall|k: int| 0 <= k < 17 ==> (#[trigger] names@[k])@ == default_lines()[k],
            out@.len() == i,
            forall|k: int| 0 <= k < i ==> (#[trigger] out@[k])@ == default_lines()[k],
        decreases 17 - i,
    {
        out.push(names[i].to_owned());
        i += 1;
    }
    assert(texts(out@) =~= default_lines());
    out
}

/// How many targets are allowed. The limit is one of time: every target takes
/// several probes.
pub const MAX: usize = 40;

/// Whether a text looks like a domain.
pub open spec fn domain_like(value: Seq<char>) -> bool {
    &&& value.len() >= 4
    &&& value.contains('.')
    &&& value[0] != '.'
    &&& forall|i: int|
        0 <= i < value.len() ==> is_alphanumeric(#[trigger] value[i]) || value[i] == '.'
            || value[i] == '-'
}

/// What a text is: an address, a domain or neither.
pub open spec fn kind_of(value: Seq<char>) -> Option<Kind> {
    if exists|a: Ipv4Addr| value == #[trigger] a.notation() {
        Some(Kind::Address(choose|a: Ipv4Addr| value == #[trigger] a.notation()))
    } else if domain_like(value) {
        Some(Kind::Domain)
    } else {
        None
    }
}

fn is_domain_like(value: &str) -> (r: bool)
    ensures
        r == domain_like(value@),
{
    let chars = chars_of(value);
    if chars.len() < 4 || chars[0] == '.' {
        return false;
    }
    let mut dot: bool = false;
    let mut i: usize = 0;
    while i < chars.len()
        invariant
            i <= chars@.len(),
            chars@ == value@,
            dot == (exists|k: int| 0 <= k < i && chars@[k] == '.'),
            forall|k: int|
                0 <= k < i ==> is_alphanumeric(#[trigger] chars@[k]) || chars@[k] == '.'
                    || chars@[k] == '-',
        decreases chars@.len() - i,
    {
        let c = chars[i];
        let plain = ('0' <= c && c <= '9') || ('A' <= c && c <= 'Z') || ('a' <= c && c <= 'z');
        if c == '.' {
            dot = true;
        } else if !plain && c != '-' {
            assert(!is_alphanumeric(value@[i as int]));
            return false;
        }
        i += 1;
    }
    proof {
        if dot {
            let k = choose|k: int| 0 <= k < i && chars@[k] == '.';
            assert(value@[k] == '.');
        }
    }
    dot
}

/// Tells an address from a name. What looks like neither is rejected: better to
/// say that a line was not understood than to show an obscure network error.
pub fn classify(value: &str) -> (r: Option<Kind>)
    ensures
        r == kind_of(value@),
{
    match Ipv4Addr::parse(value) {
        Some(addr) => {
            proof {
                assert(value@ == addr.notation());
                let a = choose|a: Ipv4Addr| value@ == #[trigger] a.notation();
                lemma_notation_injective(addr, a);
            }
            return Some(Kind::Address(addr));
        },
        None => {},
    }
    if is_domain_like(value) {
        Some(Kind::Domain)
    } else {
        None
    }
}

/// A text without a prefix, if it has it.
pub open spec fn without(s: Seq<char>, prefix: Seq<char>) -> Seq<char> {
    match stripped(s, prefix) {
        Some(rest) => rest,
        None => s,
    }
}

/// A text without a port at its end.
pub open spec fn without_port(s: Seq<char>) -> Seq<char> {
    match parted_back(s, ':') {
        Some(p) => if all_digits(p.1) {
            p.0
        } else {
            s
        },
        None => s,
    }
}

/// What is left of a line without protocol, path, parameters, credentials and
/// port. Of a comment nothing is left.
pub open spec fn bare(line: Seq<char>) -> Seq<char> {
    let s = trimmed(line);
    if s.len() > 0 && s[0] == '#' {
        Seq::empty()
    } else {
        let t = without(without(without(s, "https://"@), "http://"@), "//"@);
        let host = without_port(after_last(before_any(t, seq!['/', '?', '#']), '@'));
        trimmed(trimmed_end(host, '.'))
    }
}

/// A line in the form in which it is checked.
pub open spec fn cleaned(line: Seq<char>) -> Seq<char> {
    lowercased(bare(line))
}

fn drop_prefix(s: String, prefix: &str) -> (r: String)
    ensures
        r@ == without(s@, prefix@),
{
    match strip_prefix(s.as_str(), prefix) {
        Some(rest) => rest,
        None => s,
    }
}

fn digits_only(s: &str) -> (r: bool)
    ensures
        r == all_digits(s@),
{
    let chars = chars_of(s);
    let mut i: usize = 0;
    while i < chars.len()
        invariant
            i <= chars@.len(),
            chars@ == s@,
            forall|k: int| 0 <= k < i ==> is_digit(#[trigger] s@[k]),
        decreases chars@.len() - i,
    {
        let c = chars[i];
        if c < '0' || c > '9' {
            assert(!is_digit(s@[i as int]));
            return false;
        }
        i += 1;
    }
    true
}

/// Reduces a line to what it names. People paste whole links, with protocol,
/// path and punctuation; asking for a clean name would leave them work that the
/// program does itself.
pub fn reduce(line: &str) -> (r: String)
    ensures
        r@ == bare(line@),
{
    let s = trim(line);
    let chars = chars_of(s.as_str());
    if chars.len() > 0 && chars[0] == '#' {
        return String::new();
    }
    let t = drop_prefix(drop_prefix(drop_prefix(s, "https://"), "http://"), "//");
    let ends: [char; 3] = ['/', '?', '#'];
    assert(ends@ =~= seq!['/', '?', '#']);
    let place = until_any(t.as_str(), &ends);
    let mut host = since_last(place.as_str(), '@');
    match part_back(host.as_str(), ':') {
        Some(p) => {
            if digits_only(p.1.as_str()) {
                host = p.0;
            }
        },
        None => {},
    }
    trim(trim_end(host.as_str(), '.').as_str())
}

/// A line in the form in which it is checked: reduced, in lower case.
pub fn clean(line: &str) -> (r: String)
    ensures
        r@ == cleaned(line@),
        forall|i: int| 0 <= i < r@.len() ==> !is_capital(#[trigger] r@[i]),
{
    lower(reduce(line).as_str())
}

/// Whether a list holds a value.
pub open spec fn holds(list: Seq<TargetView>, value: Seq<char>) -> bool {
    exists|i: int| 0 <= i < list.len() && (#[trigger] list[i]).value == value
}

/// A list with one more target, unless it has it already or is full.
pub open spec fn with_target(list: Seq<TargetView>, target: TargetView) -> Seq<TargetView> {
    if holds(list, target.value) || list.len() >= MAX {
        list
    } else {
        list.push(target)
    }
}

/// The targets in lines, given in the form in which they are checked.
pub open spec fn accepted(plain: Seq<Seq<char>>) -> Seq<TargetView>
    decreases plain.len(),
{
    if plain.len() == 0 {
        Seq::empty()
    } else {
        let before = accepted(plain.drop_last());
        match kind_of(plain.last()) {
            Some(kind) => with_target(before, TargetView { value: plain.last(), kind }),
            None => before,
        }
    }
}

/// The lines that were not understood, without white space round them.
pub open spec fn rejected(plain: Seq<Seq<char>>, lines: Seq<Seq<char>>) -> Seq<Seq<char>>
    decreases plain.len(),
{
    if plain.len() == 0 {
        Seq::empty()
    } else {
        let before = rejected(plain.drop_last(), lines.drop_last());
        if plain.last().len() > 0 && kind_of(plain.last()) is None {
            before.push(trimmed(lines.last()))
        } else {
            before
        }
    }
}

pub open spec fn all_cleaned(lines: Seq<Seq<char>>) -> Seq<Seq<char>> {
    lines.map_values(|line: Seq<char>| cleaned(line))
}

/// Whether a list is one that lines can give: not too long, without
/// repetitions, and each target known for what it is, in lower case.
pub open spec fn well_formed(list: Seq<TargetView>) -> bool {
    &&& list.len() <= MAX
    &&& forall|i: int, j: int|
        0 <= i < j < list.len() ==> (#[trigger] list[i]).value != (#[trigger] list[j]).value
    &&& forall|i: int|
        0 <= i < list.len() ==> kind_of((#[trigger] list[i]).value) == Some(list[i].kind)
            && lowercased(list[i].value) == list[i].value
}

pub open spec fn target_views(items: Seq<Target>) -> Seq<TargetView> {
    items.map_values(|t: Target| t@)
}

pub open spec fn values_of(list: Seq<TargetView>) -> Seq<Seq<char>> {
    list.map_values(|t: TargetView| t.value)
}

/// The user's list of targets.
#[derive(Debug, PartialEq, Eq)]
pub struct TargetList {
    items: Vec<Target>,
}

impl View for TargetList {
    type V = Seq<TargetView>;

    closed spec fn view(&self) -> Seq<TargetView> {
        target_views(self.items@)
    }
}

/// An accepted text is plain ASCII: letters, digits, dots and hyphens.
proof fn lemma_accepted_chars(value: Seq<char>)
    requires
        kind_of(value) is Some,
    ensures
        value.len() > 0,
        value[0] != '.',
        forall|i: int|
            0 <= i < value.len() ==> is_alphanumeric(#[trigger] value[i]) || value[i] == '.'
                || value[i] == '-',
{
    if exists|a: Ipv4Addr| value == #[trigger] a.notation() {
        let a = choose|a: Ipv4Addr| value == #[trigger] a.notation();
        lemma_notation_chars(a);
    }
}

proof fn lemma_lowered_fixed(value: Seq<char>)
    requires
        forall|i: int| 0 <= i < value.len() ==> !is_capital(#[trigger] value[i]),
    ensures
        ascii_lowered(value) == value,
{
    assert(ascii_lowered(value) =~= value);
}

proof fn lemma_texts_split(lines: Seq<String>, i: int)
    requires
        0 <= i < lines.len(),
    ensures
        texts(lines).take(i + 1).drop_last() == texts(lines).take(i),
        texts(lines).take(i + 1).last() == lines[i]@,
{
    assert(texts(lines).take(i + 1).drop_last() =~= texts(lines).take(i));
}

impl TargetList {
    #[verifier::type_invariant]
    spec fn inv(self) -> bool {
        well_formed(target_views(self.items@))
    }

    /// The targets, in their order.
    pub fn items(&self) -> (r: &[Target])
        ensures
            target_views(r@) == self@,
            well_formed(self@),
    {
        proof {
            use_type_invariant(self);
        }
        self.items.as_slice()
    }

    pub fn is_empty(&self) -> (r: bool)
        ensures
            r == (self@.len() == 0),
    {
        self.items.len() == 0
    }

    /// Makes a list of lines in the form in which they are checked; `lines` are
    /// the lines as they were written.
    ///
    /// Repetitions are common where lists are pasted together; nothing is
    /// checked twice.
    pub fn sort_out(plain: &Vec<String>, lines: &[String]) -> (r: (Self, Vec<String>))
        requires
            plain@.len() == lines@.len(),
            forall|i: int, j: int|
                0 <= i < plain@.len() && 0 <= j < plain@[i]@.len() ==> !is_capital(
                    #[trigger] plain@[i]@[j],
                ),
        ensures
            r.0@ == accepted(texts(plain@)),
            texts(r.1@) == rejected(texts(plain@), texts(lines@)),
            well_formed(r.0@),
    {
        let ghost all = texts(plain@);
        let ghost written = texts(lines@);
        let mut items: Vec<Target> = Vec::new();
        let mut refused: Vec<String> = Vec::new();
        let mut i: usize = 0;
        proof {
            assert(all.take(0) =~= Seq::<Seq<char>>::empty());
            assert(target_views(items@) =~= Seq::<TargetView>::empty());
            lemma_texts_empty(refused@);
        }
        while i < plain.len()
            invariant
                i <= plain@.len(),
                plain@.len() == lines@.len(),
                all == texts(plain@),
                written == texts(lines@),
                forall|k: int, j: int|
                    0 <= k < plain@.len() && 0 <= j < plain@[k]@.len() ==> !is_capital(
                        #[trigger] plain@[k]@[j],
                    ),
                target_views(items@) == accepted(all.take(i as int)),
                texts(refused@) == rejected(all.take(i as int), written.take(i as int)),
                well_formed(target_views(items@)),
            decreases plain@.len() - i,
        {
            proof {
                lemma_texts_split(plain@, i as int);
                lemma_texts_split(lines@, i as int);
            }
            let text = plain[i].as_str();
            match classify(text) {
                Some(kind) => {
                    let value = lower(text);
                    proof {
                        lemma_accepted_chars(text@);
                        lemma_lowered_fixed(text@);
                        assert(vstd::utf8::is_ascii_chars(text@));
                        assert(value@ == text@);
                    }
                    let target = Target { value, kind };
                    let ghost was = items@;
                    if !Self::has(&items, target.value.as_str()) && items.len() < MAX {
                        items.push(target);
                        assert(target_views(items@) =~= target_views(was).push(target@));
                    }
                },
                None => {
                    if chars_of(text).len() > 0 {
                        let line = trim(lines[i].as_str());
                        proof {
                            lemma_texts_push(refused@, line);
                        }
                        refused.push(line);
                    }
                },
            }
            i += 1;
        }
        proof {
            assert(all.take(i as int) =~= all);
            assert(written.take(i as int) =~= written);
        }
        (TargetList { items }, refused)
    }

    fn has(items: &Vec<Target>, value: &str) -> (r: bool)
        ensures
            r == holds(target_views(items@), value@),
    {
        let ghost list = target_views(items@);
        let mut i: usize = 0;
        while i < items.len()
            invariant
                i <= items@.len(),
                list == target_views(items@),
                forall|k: int| 0 <= k < i ==> (#[trigger] list[k]).value != value@,
            decreases items@.len() - i,
        {
            assert(list[i as int] == items@[i as int]@);
            if same(items[i].value.as_str(), value) {
                return true;
            }
            i += 1;
        }
        false
    }

    pub fn from_lines(lines: &[String]) -> (r: (Self, Vec<String>))
        ensures
            r.0@ == accepted(all_cleaned(texts(lines@))),
            texts(r.1@) == rejected(all_cleaned(texts(lines@)), texts(lines@)),
            well_formed(r.0@),
    {
        let mut plain: Vec<String> = Vec::new();
        let mut i: usize = 0;
        while i < lines.len()
            invariant
                i <= lines@.len(),
                plain@.len() == i,
                forall|k: int| 0 <= k < i ==> (#[trigger] plain@[k])@ == cleaned(lines@[k]@),
                forall|k: int, j: int|
                    0 <= k < plain@.len() && 0 <= j < plain@[k]@.len() ==> !is_capital(
                        #[trigger] plain@[k]@[j],
                    ),
            decreases lines@.len() - i,
        {
            plain.push(clean(lines[i].as_str()));
            i += 1;
        }
        assert(texts(plain@) =~= all_cleaned(texts(lines@)));
        Self::sort_out(&plain, lines)
    }

    /// Reads the text of an input field, one target on a line.
    ///
    /// Returns the list and the lines that were not understood: nothing that
    /// the user wrote is dropped silently.
    pub fn parse(text: &str) -> (r: (Self, Vec<String>))
        ensures
            r.0@ == parsed(text@),
            texts(r.1@) == rejected(all_cleaned(lines_of(text@)), lines_of(text@)),
            well_formed(r.0@),
    {
        let all = lines(text);
        Self::from_lines(all.as_slice())
    }

    /// The text for an input field. Reading it gives the list back, unless a
    /// target ends in a dot.
    pub fn to_text(&self) -> (r: String)
        ensures
            r@ == list_text(self@),
            no_dot_at_end(self@) ==> parsed(r@) == self@,
            no_dot_at_end(self@) ==> rejected(all_cleaned(lines_of(r@)), lines_of(r@)).len() == 0,
    {
        proof {
            use_type_invariant(self);
        }
        let mut out: Vec<String> = Vec::new();
        let mut i: usize = 0;
        while i < self.items.len()
            invariant
                i <= self.items@.len(),
                out@.len() == i,
                forall|k: int| 0 <= k < i ==> (#[trigger] out@[k])@ == self.items@[k].value@,
            decreases self.items@.len() - i,
        {
            out.push(self.items[i].value.clone());
            i += 1;
        }
        proof {
            reveal_strlit("\n");
            assert("\n"@ =~= seq!['\n']);
            assert(texts(out@) =~= values_of(self@));
            if no_dot_at_end(self@) {
                text_round_trips(self@);
            }
        }
        join(&out, "\n")
    }
}

impl Default for TargetList {
    fn default() -> (r: Self)
        ensures
            r@ == accepted(all_cleaned(default_lines())),
    {
        let lines = defaults();
        TargetList::from_lines(lines.as_slice()).0
    }
}

impl Clone for TargetList {
    fn clone(&self) -> (r: Self)
        ensures
            r@ == self@,
    {
        proof {
            use_type_invariant(self);
        }
        let mut items: Vec<Target> = Vec::new();
        let mut i: usize = 0;
        while i < self.items.len()
            invariant
                i <= self.items@.len(),
                items@.len() == i,
                forall|k: int| 0 <= k < i ==> (#[trigger] items@[k])@ == self.items@[k]@,
            decreases self.items@.len() - i,
        {
            items.push(self.items[i].clone());
            i += 1;
        }
        assert(target_views(items@) =~= target_views(self.items@));
        TargetList { items }
    }
}

/// The targets in a text.
pub open spec fn parsed(text: Seq<char>) -> Seq<TargetView> {
    accepted(all_cleaned(lines_of(text)))
}

/// The text of a list.
pub open spec fn list_text(list: Seq<TargetView>) -> Seq<char> {
    joined(values_of(list), seq!['\n'])
}

pub open spec fn no_dot_at_end(list: Seq<TargetView>) -> bool {
    forall|i: int|
        0 <= i < list.len() ==> (#[trigger] list[i]).value.len() > 0 && list[i].value.last()
            != '.'
}

/// An accepted value that does not end in a dot is already in the form in which
/// it is checked.
proof fn lemma_value_is_clean(value: Seq<char>)
    requires
        kind_of(value) is Some,
        lowercased(value) == value,
        value.last() != '.',
    ensures
        cleaned(value) == value,
{
    lemma_accepted_chars(value);
    let n = value.len();
    assert(is_alphanumeric(value[0]) || value[0] == '-');
    assert(is_alphanumeric(value[n - 1]) || value[n - 1] == '-');
    assert(trimmed_front(value) == value);
    assert(trimmed_back(value) == value);
    reveal_strlit("https://");
    reveal_strlit("http://");
    reveal_strlit("//");
    lemma_no_prefix(value, "https://"@, 6);
    lemma_no_prefix(value, "http://"@, 5);
    lemma_no_prefix(value, "//"@, 0);
    let any = seq!['/', '?', '#'];
    assert forall|j: int| 0 <= j < n implies !any.contains(#[trigger] value[j]) by {}
    lemma_first_of(value, any, n as int);
    assert(before_any(value, any) =~= value);
    assert(last_char(value, '@') == -1) by {
        lemma_last_char(value, '@', -1);
    }
    assert(after_last(value, '@') =~= value);
    assert(last_char(value, ':') == -1) by {
        lemma_last_char(value, ':', -1);
    }
    assert(trimmed_end(value, '.') == value);
}

/// A text of letters, digits, dots and hyphens does not begin with a prefix
/// that holds a slash.
proof fn lemma_no_prefix(value: Seq<char>, prefix: Seq<char>, at: int)
    requires
        forall|i: int|
            0 <= i < value.len() ==> is_alphanumeric(#[trigger] value[i]) || value[i] == '.'
                || value[i] == '-',
        0 <= at < prefix.len(),
        prefix[at] == '/',
    ensures
        without(value, prefix) == value,
{
    if prefix.is_prefix_of(value) {
        assert(value[at] == prefix[at]);
    }
}

/// What was written as text is read back: a list, written one target on a
/// line, gives the same list, and no line is rejected.
pub proof fn text_round_trips(list: Seq<TargetView>)
    requires
        well_formed(list),
        no_dot_at_end(list),
    ensures
        parsed(list_text(list)) == list,
        rejected(all_cleaned(lines_of(list_text(list))), lines_of(list_text(list))).len() == 0,
{
    let values = values_of(list);
    assert forall|i: int| 0 <= i < values.len() implies (#[trigger] values[i]).len() > 0 by {
        assert(values[i] == list[i].value);
    }
    assert forall|i: int, j: int|
        0 <= i < values.len() && 0 <= j < values[i].len() implies #[trigger] values[i][j] != '\n'
        && values[i][j] != '\r' by {
        assert(values[i] == list[i].value);
        lemma_accepted_chars(list[i].value);
        assert(is_alphanumeric(list[i].value[j]) || list[i].value[j] == '.' || list[i].value[j]
            == '-');
    }
    lemma_lines_of_joined(values);
    values_round_trip(list);
    lemma_none_rejected(list, values);
}

/// The values of a list, taken as lines, give the same list.
pub proof fn values_round_trip(list: Seq<TargetView>)
    requires
        well_formed(list),
        no_dot_at_end(list),
    ensures
        all_cleaned(values_of(list)) == values_of(list),
        accepted(all_cleaned(values_of(list))) == list,
{
    let values = values_of(list);
    assert(all_cleaned(values) =~= values) by {
        assert forall|i: int| 0 <= i < values.len() implies cleaned(#[trigger] values[i])
            == values[i] by {
            assert(values[i] == list[i].value);
            lemma_value_is_clean(list[i].value);
        }
    }
    lemma_all_accepted(list);
}

proof fn lemma_all_accepted(list: Seq<TargetView>)
    requires
        well_formed(list),
    ensures
        accepted(values_of(list)) == list,
    decreases list.len(),
{
    if list.len() == 0 {
        assert(accepted(values_of(list)) =~= list);
    } else {
        let q = list.drop_last();
        assert forall|i: int| 0 <= i < q.len() implies q[i] == #[trigger] list[i] by {}
        assert(well_formed(q)) by {
            assert forall|i: int, j: int| 0 <= i < j < q.len() implies (#[trigger] q[i]).value != (
            #[trigger] q[j]).value by {
                assert(list[i].value != list[j].value);
            }
            assert forall|i: int| 0 <= i < q.len() implies kind_of((#[trigger] q[i]).value)
                == Some(q[i].kind) && lowercased(q[i].value) == q[i].value by {
                assert(q[i] == list[i]);
            }
        }
        lemma_all_accepted(q);
        assert(values_of(list).drop_last() =~= values_of(q));
        let last = list.last();
        assert(values_of(list).last() == last.value);
        assert(list[list.len() - 1] == last);
        assert(!holds(q, last.value)) by {
            assert forall|i: int| 0 <= i < q.len() implies (#[trigger] q[i]).value
                != last.value by {
                assert(list[i].value != list[list.len() - 1].value);
            }
        }
        assert(accepted(values_of(list)) =~= list);
    }
}

proof fn lemma_none_rejected(list: Seq<TargetView>, lines: Seq<Seq<char>>)
    requires
        forall|i: int| 0 <= i < list.len() ==> kind_of((#[trigger] list[i]).value) is Some,
        lines.len() == list.len(),
    ensures
        rejected(values_of(list), lines).len() == 0,
    decreases list.len(),
{
    if list.len() > 0 {
        let q = list.drop_last();
        assert forall|i: int| 0 <= i < q.len() implies kind_of(
            (#[trigger] q[i]).value,
        ) is Some by {
            assert(q[i] == list[i]);
        }
        lemma_none_rejected(q, lines.drop_last());
        assert(values_of(list).drop_last() =~= values_of(q));
        assert(values_of(list).last() == list[list.len() - 1].value);
    }
}

/// Nothing that the user wrote is dropped silently: a line that is neither
/// blank nor understood is among the rejected ones.
pub proof fn unparsable_lines_are_reported(
    plain: Seq<Seq<char>>,
    lines: Seq<Seq<char>>,
    i: int,
)
    requires
        plain.len() == lines.len(),
        0 <= i < plain.len(),
        plain[i].len() > 0,
        kind_of(plain[i]) is None,
    ensures
        rejected(plain, lines).contains(trimmed(lines[i])),
    decreases plain.len(),
{
    let q = rejected(plain.drop_last(), lines.drop_last());
    let all = rejected(plain, lines);
    if i == plain.len() - 1 {
        assert(all[all.len() - 1] == trimmed(lines[i]));
    } else {
        assert(plain.drop_last()[i] == plain[i]);
        unparsable_lines_are_reported(plain.drop_last(), lines.drop_last(), i);
        assert(lines.drop_last()[i] == lines[i]);
        let k = choose|k: int| 0 <= k < q.len() && q[k] == trimmed(lines[i]);
        assert(all[k] == q[k]);
    }
}

/// As long as the list is not full, every target that was written is in it.
pub proof fn targets_are_kept(plain: Seq<Seq<char>>, i: int)
    requires
        0 <= i < plain.len(),
        kind_of(plain[i]) is Some,
        accepted(plain).len() < MAX,
    ensures
        holds(accepted(plain), plain[i]),
    decreases plain.len(),
{
    let q = accepted(plain.drop_last());
    let all = accepted(plain);
    if i == plain.len() - 1 {
        if !holds(q, plain[i]) {
            assert(all[all.len() - 1].value == plain[i]);
        }
    } else {
        assert(plain.drop_last()[i] == plain[i]);
        targets_are_kept(plain.drop_last(), i);
        let k = choose|k: int| 0 <= k < q.len() && (#[trigger] q[k]).value == plain[i];
        assert(all[k] == q[k]);
    }
}

/// However much is written, a list has at most so many targets, and none of
/// them twice.
pub proof fn list_is_capped_without_repetition(plain: Seq<Seq<char>>)
    ensures
        accepted(plain).len() <= MAX,
        forall|i: int, j: int|
            0 <= i < j < accepted(plain).len() ==> (#[trigger] accepted(plain)[i]).value != (
            #[trigger] accepted(plain)[j]).value,
    decreases plain.len(),
{
    if plain.len() > 0 {
        list_is_capped_without_repetition(plain.drop_last());
    }
}

/// What is accepted is a target that was written, of the kind that it looks
/// like: an address where it is written as one, else a domain. What is reported
/// as not understood is a line that was written and is neither.
pub proof fn nothing_is_made_up(plain: Seq<Seq<char>>, lines: Seq<Seq<char>>)
    requires
        plain.len() == lines.len(),
    ensures
        forall|k: int|
            0 <= k < accepted(plain).len() ==> plain.contains((#[trigger] accepted(plain)[k]).value)
                && kind_of(accepted(plain)[k].value) == Some(accepted(plain)[k].kind),
        forall|k: int|
            0 <= k < rejected(plain, lines).len() ==> exists|i: int|
                0 <= i < plain.len() && (#[trigger] plain[i]).len() > 0 && kind_of(plain[i]) is None
                    && #[trigger] rejected(plain, lines)[k] == trimmed(lines[i]),
    decreases plain.len(),
{
    if plain.len() > 0 {
        let n = plain.len() - 1;
        let rest = plain.drop_last();
        let rest_lines = lines.drop_last();
        nothing_is_made_up(rest, rest_lines);
        assert forall|k: int| 0 <= k < accepted(plain).len() implies plain.contains(
            (#[trigger] accepted(plain)[k]).value,
        ) && kind_of(accepted(plain)[k].value) == Some(accepted(plain)[k].kind) by {
            if k < accepted(rest).len() {
                assert(accepted(plain)[k] == accepted(rest)[k]);
                let i = choose|i: int|
                    0 <= i < rest.len() && rest[i] == accepted(rest)[k].value;
                assert(plain[i] == accepted(plain)[k].value);
            } else {
                assert(plain[n] == accepted(plain)[k].value);
            }
        }
        assert forall|k: int| 0 <= k < rejected(plain, lines).len() implies exists|i: int|
            0 <= i < plain.len() && (#[trigger] plain[i]).len() > 0 && kind_of(plain[i]) is None
                && #[trigger] rejected(plain, lines)[k] == trimmed(lines[i]) by {
            let before = rejected(rest, rest_lines);
            if k < before.len() {
                assert(rejected(plain, lines)[k] == before[k]);
                let i = choose|i: int|
                    0 <= i < rest.len() && (#[trigger] rest[i]).len() > 0 && kind_of(
                        rest[i],
                    ) is None && before[k] == trimmed(rest_lines[i]);
                assert(plain[i] == rest[i] && lines[i] == rest_lines[i]);
                assert(plain[i].len() > 0);
            } else {
                assert(plain[n].len() > 0);
            }
        }
    }
}

/// A domain has at least four characters, none but Latin letters, digits, dots
/// and hyphens, a dot among them and not in front. Everything that is neither
/// that nor an address in four decimals is rejected.
pub proof fn a_target_looks_like_one(value: Seq<char>)
    ensures
        ({
            let plain = |c: char|
                ('a' <= c <= 'z') || ('A' <= c <= 'Z') || ('0' <= c <= '9') || c == '.' || c
                    == '-';
            let dotted = value.len() >= 4 && value[0] != '.' && (exists|i: int|
                0 <= i < value.len() && #[trigger] value[i] == '.') && (forall|i: int|
                0 <= i < value.len() ==> plain(#[trigger] value[i]));
            let written = exists|a: Ipv4Addr| value == #[trigger] a.notation();
            &&& kind_of(value) is None <==> !written && !dotted
            &&& kind_of(value) == Some(Kind::Domain) <==> !written && dotted
            &&& kind_of(value) matches Some(Kind::Address(a)) ==> value == a.notation()
        }),
{
    let dotted = exists|i: int| 0 <= i < value.len() && #[trigger] value[i] == '.';
    if value.contains('.') {
        let i = choose|i: int| 0 <= i < value.len() && value[i] == '.';
        assert(value[i] == '.');
    }
    if dotted {
        let i = choose|i: int| 0 <= i < value.len() && #[trigger] value[i] == '.';
        assert(value.contains(value[i]));
    }
}

/// Targets stand in the order in which they were first written: a list that is
/// continued keeps its beginning.
pub proof fn a_longer_list_begins_the_same(plain: Seq<Seq<char>>, more: Seq<char>)
    ensures
        accepted(plain).is_prefix_of(accepted(plain.push(more))),
        accepted(plain.push(more)).len() <= accepted(plain).len() + 1,
        accepted(plain.push(more)).len() > accepted(plain).len() ==> accepted(
            plain.push(more),
        ).last().value == more,
        accepted(plain).len() < 40 && kind_of(more) is Some && !holds(accepted(plain), more)
            ==> accepted(plain.push(more)).len() == accepted(plain).len() + 1,
        accepted(plain).len() >= 40 ==> accepted(plain.push(more)) == accepted(plain),
{
    assert(plain.push(more).drop_last() =~= plain);
}

/// A port is taken off the end of an address, and only a port: what follows the
/// last colon must be all digits.
pub proof fn only_a_port_is_taken_off(host: Seq<char>, tail: Seq<char>)
    requires
        !tail.contains(':'),
    ensures
        all_digits(tail) ==> without_port(host + seq![':'] + tail) == host,
        !all_digits(tail) ==> without_port(host + seq![':'] + tail) == host + seq![':'] + tail,
        without_port(tail) == tail,
{
    let s = host + seq![':'] + tail;
    let n = host.len() as int;
    assert forall|j: int| n < j < s.len() implies s[j] != ':' by {
        assert(s[j] == tail[j - n - 1]);
        assert(tail.contains(tail[j - n - 1]));
    }
    lemma_last_char(s, ':', n);
    assert(s.take(n) =~= host);
    assert(s.skip(n + 1) =~= tail);
    assert forall|j: int| -1 < j < tail.len() implies tail[j] != ':' by {
        assert(tail.contains(tail[j]));
    }
    lemma_last_char(tail, ':', -1);
}

/// A link is reduced to its host, whether it is one of `https` or of `http`: the
/// port and the path behind it do not matter. A comment is reduced to nothing.
pub proof fn links_are_reduced_to_their_hosts(host: Seq<char>, port: Seq<char>, path: Seq<char>)
    requires
        host.len() > 0,
        host.last() != '.',
        forall|i: int|
            0 <= i < host.len() ==> is_alphanumeric(#[trigger] host[i]) || host[i] == '.' || host[i]
                == '-',
        port.len() > 0,
        all_digits(port),
        path.len() > 0,
        !is_white(path.last()),
    ensures
        bare("https://"@ + (host + seq![':'] + port + seq!['/'] + path)) == host,
        bare("http://"@ + (host + seq![':'] + port + seq!['/'] + path)) == host,
        bare(seq!['#'] + path).len() == 0,
{
    reveal_strlit("https://");
    reveal_strlit("http://");
    reveal_strlit("//");
    let rest = host + seq![':'] + port + seq!['/'] + path;
    let (secure, plain) = ("https://"@ + rest, "http://"@ + rest);
    assert(secure.last() == path.last());
    assert(plain.last() == path.last());
    assert(trimmed_back(trimmed_front(secure)) == secure);
    assert(trimmed_back(trimmed_front(plain)) == plain);
    assert("https://"@.is_prefix_of(secure)) by {
        assert(secure.take(8) =~= "https://"@);
    }
    assert(secure.skip(8) =~= rest);
    assert("http://"@.is_prefix_of(plain)) by {
        assert(plain.take(7) =~= "http://"@);
    }
    assert(plain.skip(7) =~= rest);
    assert(!"https://"@.is_prefix_of(plain)) by {
        assert(plain[4] == ':');
        if "https://"@.is_prefix_of(plain) {
            assert(plain[4] == "https://"@[4]);
        }
    }
    lemma_host_of_rest(host, port, path);
    let remark = seq!['#'] + path;
    assert(remark[0] == '#');
    assert(remark.last() == path.last());
    assert(trimmed_back(trimmed_front(remark)) == remark);
}

proof fn lemma_host_of_rest(host: Seq<char>, port: Seq<char>, path: Seq<char>)
    requires
        host.len() > 0,
        host.last() != '.',
        forall|i: int|
            0 <= i < host.len() ==> is_alphanumeric(#[trigger] host[i]) || host[i] == '.' || host[i]
                == '-',
        port.len() > 0,
        all_digits(port),
    ensures
        ({
            let rest = host + seq![':'] + port + seq!['/'] + path;
            let t = without(without(rest, "http://"@), "//"@);
            &&& t == rest
            &&& trimmed(
                trimmed_end(
                    without_port(after_last(before_any(t, seq!['/', '?', '#']), '@')),
                    '.',
                ),
            ) == host
        }),
{
    reveal_strlit("http://");
    reveal_strlit("//");
    let rest = host + seq![':'] + port + seq!['/'] + path;
    let n = host.len() as int;
    assert(rest[0] == host[0]);
    assert(rest[n] == ':');
    assert(rest[n + 1] == port[0]);
    if "http://"@.is_prefix_of(rest) {
        assert forall|k: int| 0 <= k < 7 implies rest[k] == "http://"@[k] by {}
        assert(rest[0] == 'h' && rest[1] == 't' && rest[2] == 't' && rest[3] == 'p' && rest[4] == ':'
            && rest[5] == '/');
        if n > 4 {
            assert(rest[4] == host[4]);
        }
        assert(n == 4);
        assert(is_digit(port[0]));
    }
    if "//"@.is_prefix_of(rest) {
        assert(rest[0] == "//"@[0]);
    }
    let any = seq!['/', '?', '#'];
    let named = host + seq![':'] + port;
    let m = named.len() as int;
    assert(any[0] == '/');
    assert(any.contains('/'));
    assert(rest[m] == '/');
    assert forall|j: int| 0 <= j < m implies !any.contains(#[trigger] rest[j]) && rest[j]
        != '@' by {
        if j < n {
            assert(rest[j] == host[j]);
        } else if j > n {
            assert(rest[j] == port[j - n - 1]);
            assert(is_digit(port[j - n - 1]));
        }
    }
    lemma_first_of(rest, any, m);
    assert(before_any(rest, any) =~= named);
    assert forall|j: int| -1 < j < m implies named[j] != '@' by {
        assert(named[j] == rest[j]);
    }
    lemma_last_char(named, '@', -1);
    assert(after_last(named, '@') =~= named);
    assert(!port.contains(':')) by {
        assert forall|j: int| 0 <= j < port.len() implies port[j] != ':' by {
            assert(is_digit(port[j]));
        }
    }
    only_a_port_is_taken_off(host, port);
    assert(trimmed_end(host, '.') == host);
    assert(is_alphanumeric(host[n - 1]) || host[n - 1] == '-');
    assert(trimmed_front(host) == host);
    assert(trimmed_back(host) == host);
}

} // verus!
