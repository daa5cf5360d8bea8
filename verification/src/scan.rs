//! Searching in text and cutting it into pieces.

use vstd::prelude::*;
use vstd::string::StringExecFns;
use crate::text::{chars_of, cut, is_white};

verus! {

/// The texts that a list of strings holds.
pub open spec fn texts(v: Seq<String>) -> Seq<Seq<char>> {
    v.map_values(|s: String| s@)
}

/// Adding a string to a list adds its text to the list's texts.
pub broadcast proof fn lemma_texts_push(v: Seq<String>, s: String)
    ensures
        #[trigger] texts(v.push(s)) == texts(v).push(s@),
{
    assert(texts(v.push(s)) =~= texts(v).push(s@));
}

/// An empty list holds no text.
pub broadcast proof fn lemma_texts_empty(v: Seq<String>)
    requires
        v.len() == 0,
    ensures
        #[trigger] texts(v) == Seq::<Seq<char>>::empty(),
{
    assert(texts(v) =~= Seq::<Seq<char>>::empty());
}

// ---------------------------------------------------------------------------
// Single characters
// ---------------------------------------------------------------------------

/// Where a character first occurs in a text, or the text's length.
pub open spec fn first_char(s: Seq<char>, c: char) -> int
    decreases s.len(),
{
    if s.len() == 0 || s[0] == c {
        0
    } else {
        1 + first_char(s.drop_first(), c)
    }
}

/// Where a character last occurs in a text, or -1.
pub open spec fn last_char(s: Seq<char>, c: char) -> int
    decreases s.len(),
{
    if s.len() == 0 {
        -1
    } else if s.last() == c {
        s.len() - 1
    } else {
        last_char(s.drop_last(), c)
    }
}

/// Where one of several characters first occurs in a text, or its length.
pub open spec fn first_of(s: Seq<char>, any: Seq<char>) -> int
    decreases s.len(),
{
    if s.len() == 0 || any.contains(s[0]) {
        0
    } else {
        1 + first_of(s.drop_first(), any)
    }
}

/// Where white space first occurs in a text, or the text's length.
pub open spec fn first_white(s: Seq<char>) -> int
    decreases s.len(),
{
    if s.len() == 0 || is_white(s[0]) {
        0
    } else {
        1 + first_white(s.drop_first())
    }
}

pub proof fn lemma_first_char(s: Seq<char>, c: char, i: int)
    requires
        0 <= i <= s.len(),
        forall|j: int| 0 <= j < i ==> s[j] != c,
        i < s.len() ==> s[i] == c,
    ensures
        first_char(s, c) == i,
    decreases s.len(),
{
    if i > 0 {
        assert(s[0] != c);
        assert forall|j: int| 0 <= j < i - 1 implies s.drop_first()[j] != c by {
            assert(s.drop_first()[j] == s[j + 1]);
        }
        lemma_first_char(s.drop_first(), c, i - 1);
    }
}

/// What the first position says of the characters round it.
pub proof fn lemma_first_char_bounds(s: Seq<char>, c: char)
    ensures
        0 <= first_char(s, c) <= s.len(),
        forall|j: int| 0 <= j < first_char(s, c) ==> s[j] != c,
        first_char(s, c) < s.len() ==> s[first_char(s, c)] == c,
    decreases s.len(),
{
    if s.len() > 0 && s[0] != c {
        let t = s.drop_first();
        lemma_first_char_bounds(t, c);
        assert forall|j: int| 0 <= j < first_char(s, c) implies s[j] != c by {
            if j > 0 {
                assert(t[j - 1] == s[j]);
            }
        }
    }
}

pub proof fn lemma_last_char(s: Seq<char>, c: char, i: int)
    requires
        -1 <= i < s.len(),
        forall|j: int| i < j < s.len() ==> s[j] != c,
        i >= 0 ==> s[i] == c,
    ensures
        last_char(s, c) == i,
    decreases s.len(),
{
    if s.len() > 0 && i < s.len() - 1 {
        assert(s.last() != c);
        lemma_last_char(s.drop_last(), c, i);
    }
}

pub proof fn lemma_last_char_bounds(s: Seq<char>, c: char)
    ensures
        -1 <= last_char(s, c) < s.len(),
        forall|j: int| last_char(s, c) < j < s.len() ==> s[j] != c,
        last_char(s, c) >= 0 ==> s[last_char(s, c)] == c,
    decreases s.len(),
{
    if s.len() > 0 && s.last() != c {
        lemma_last_char_bounds(s.drop_last(), c);
        assert forall|j: int| last_char(s, c) < j < s.len() implies s[j] != c by {
            if j < s.len() - 1 {
                assert(s.drop_last()[j] == s[j]);
            }
        }
    }
}

pub proof fn lemma_first_of(s: Seq<char>, any: Seq<char>, i: int)
    requires
        0 <= i <= s.len(),
        forall|j: int| 0 <= j < i ==> !any.contains(#[trigger] s[j]),
        i < s.len() ==> any.contains(s[i]),
    ensures
        first_of(s, any) == i,
    decreases s.len(),
{
    if i > 0 {
        assert(!any.contains(s[0]));
        assert forall|j: int| 0 <= j < i - 1 implies !any.contains(
            #[trigger] s.drop_first()[j],
        ) by {
            assert(s.drop_first()[j] == s[j + 1]);
        }
        lemma_first_of(s.drop_first(), any, i - 1);
    }
}

pub proof fn lemma_first_white(s: Seq<char>, i: int)
    requires
        0 <= i <= s.len(),
        forall|j: int| 0 <= j < i ==> !is_white(#[trigger] s[j]),
        i < s.len() ==> is_white(s[i]),
    ensures
        first_white(s) == i,
    decreases s.len(),
{
    if i > 0 {
        assert(!is_white(s[0]));
        assert forall|j: int| 0 <= j < i - 1 implies !is_white(#[trigger] s.drop_first()[j]) by {
            assert(s.drop_first()[j] == s[j + 1]);
        }
        lemma_first_white(s.drop_first(), i - 1);
    }
}

fn find_char(chars: &Vec<char>, from: usize, c: char) -> (r: usize)
    requires
        from <= chars@.len(),
    ensures
        from <= r <= chars@.len(),
        r - from == first_char(chars@.skip(from as int), c),
{
    let mut i: usize = from;
    while i < chars.len() && chars[i] != c
        invariant
            from <= i <= chars@.len(),
            forall|j: int| from <= j < i ==> chars@[j] != c,
        decreases chars@.len() - i,
    {
        i += 1;
    }
    proof {
        let s = chars@.skip(from as int);
        assert forall|j: int| 0 <= j < i - from implies s[j] != c by {
            assert(s[j] == chars@[from + j]);
        }
        lemma_first_char(s, c, i - from);
    }
    i
}

/// The text before the first occurrence of a character; all of it where the
/// character does not occur.
pub open spec fn before_first(s: Seq<char>, c: char) -> Seq<char> {
    s.take(first_char(s, c))
}

pub fn until_first(s: &str, c: char) -> (r: String)
    ensures
        r@ == before_first(s@, c),
{
    let chars = chars_of(s);
    let i = find_char(&chars, 0, c);
    assert(chars@.skip(0) == chars@);
    cut(&chars, 0, i)
}

/// The text before the first of several characters.
pub open spec fn before_any(s: Seq<char>, any: Seq<char>) -> Seq<char> {
    s.take(first_of(s, any))
}

pub fn until_any(s: &str, any: &[char]) -> (r: String)
    ensures
        r@ == before_any(s@, any@),
{
    let chars = chars_of(s);
    let mut i: usize = 0;
    while i < chars.len() && !holds(any, chars[i])
        invariant
            i <= chars@.len(),
            forall|j: int| 0 <= j < i ==> !any@.contains(#[trigger] chars@[j]),
        decreases chars@.len() - i,
    {
        i += 1;
    }
    proof {
        lemma_first_of(chars@, any@, i as int);
    }
    cut(&chars, 0, i)
}

fn holds(any: &[char], c: char) -> (r: bool)
    ensures
        r == any@.contains(c),
{
    let mut i: usize = 0;
    while i < any.len()
        invariant
            i <= any@.len(),
            forall|j: int| 0 <= j < i ==> any@[j] != c,
        decreases any@.len() - i,
    {
        if any[i] == c {
            return true;
        }
        i += 1;
    }
    false
}

/// The text behind the last occurrence of a character; all of it where the
/// character does not occur.
pub open spec fn after_last(s: Seq<char>, c: char) -> Seq<char> {
    s.skip(last_char(s, c) + 1)
}

fn find_char_back(chars: &Vec<char>, c: char) -> (r: usize)
    ensures
        r <= chars@.len(),
        r == last_char(chars@, c) + 1,
{
    let mut i: usize = chars.len();
    while i > 0 && chars[i - 1] != c
        invariant
            i <= chars@.len(),
            forall|j: int| i <= j < chars@.len() ==> chars@[j] != c,
        decreases i,
    {
        i -= 1;
    }
    proof {
        lemma_last_char(chars@, c, i - 1);
    }
    i
}

pub fn since_last(s: &str, c: char) -> (r: String)
    ensures
        r@ == after_last(s@, c),
{
    let chars = chars_of(s);
    let i = find_char_back(&chars, c);
    cut(&chars, i, chars.len())
}

/// The two texts round the first occurrence of a character.
pub open spec fn parted(s: Seq<char>, c: char) -> Option<(Seq<char>, Seq<char>)> {
    let i = first_char(s, c);
    if i < s.len() {
        Some((s.take(i), s.skip(i + 1)))
    } else {
        None
    }
}

pub fn part(s: &str, c: char) -> (r: Option<(String, String)>)
    ensures
        match r {
            Some(p) => parted(s@, c) == Some((p.0@, p.1@)),
            None => parted(s@, c) is None,
        },
{
    let chars = chars_of(s);
    let i = find_char(&chars, 0, c);
    assert(chars@.skip(0) == chars@);
    if i < chars.len() {
        Some((cut(&chars, 0, i), cut(&chars, i + 1, chars.len())))
    } else {
        None
    }
}

/// The two texts round the last occurrence of a character.
pub open spec fn parted_back(s: Seq<char>, c: char) -> Option<(Seq<char>, Seq<char>)> {
    let i = last_char(s, c);
    if i >= 0 {
        Some((s.take(i), s.skip(i + 1)))
    } else {
        None
    }
}

pub fn part_back(s: &str, c: char) -> (r: Option<(String, String)>)
    ensures
        match r {
            Some(p) => parted_back(s@, c) == Some((p.0@, p.1@)),
            None => parted_back(s@, c) is None,
        },
{
    let chars = chars_of(s);
    let i = find_char_back(&chars, c);
    if i > 0 {
        Some((cut(&chars, 0, i - 1), cut(&chars, i, chars.len())))
    } else {
        None
    }
}

/// The pieces of a text between the occurrences of a character.
pub open spec fn pieces(s: Seq<char>, c: char) -> Seq<Seq<char>>
    decreases s.len(),
    via pieces_decreases
{
    let i = first_char(s, c);
    if i >= s.len() {
        seq![s]
    } else {
        seq![s.take(i)] + pieces(s.skip(i + 1), c)
    }
}

#[via_fn]
proof fn pieces_decreases(s: Seq<char>, c: char) {
    lemma_first_char_bounds(s, c);
}

pub fn split(s: &str, c: char) -> (r: Vec<String>)
    ensures
        texts(r@) == pieces(s@, c),
{
    let chars = chars_of(s);
    let mut out: Vec<String> = Vec::new();
    let mut pos: usize = 0;
    assert(texts(out@) + pieces(s@, c) =~= pieces(s@, c));
    assert(chars@.skip(0) == s@);
    loop
        invariant
            chars@ == s@,
            pos <= chars@.len(),
            texts(out@) + pieces(s@.skip(pos as int), c) == pieces(s@, c),
        decreases chars@.len() - pos,
    {
        let i = find_char(&chars, pos, c);
        let ghost rest = s@.skip(pos as int);
        let ghost before = texts(out@);
        let piece = cut(&chars, pos, i);
        assert(piece@ == rest.take(i - pos));
        out.push(piece);
        proof {
            lemma_texts_push(out@.drop_last(), piece);
            assert(out@.drop_last().push(piece) == out@);
        }
        if i >= chars.len() {
            assert(rest.take(i - pos) == rest);
            assert(before.push(rest) =~= before + seq![rest]);
            return out;
        }
        assert(rest.skip(i - pos + 1) =~= s@.skip(i + 1));
        assert(before + (seq![rest.take(i - pos)] + pieces(s@.skip(i + 1), c)) =~= before.push(
            rest.take(i - pos),
        ) + pieces(s@.skip(i + 1), c));
        pos = i + 1;
    }
}

// ---------------------------------------------------------------------------
// Ends
// ---------------------------------------------------------------------------

pub open spec fn trimmed_front(s: Seq<char>) -> Seq<char>
    decreases s.len(),
{
    if s.len() > 0 && is_white(s[0]) {
        trimmed_front(s.drop_first())
    } else {
        s
    }
}

pub open spec fn trimmed_back(s: Seq<char>) -> Seq<char>
    decreases s.len(),
{
    if s.len() > 0 && is_white(s.last()) {
        trimmed_back(s.drop_last())
    } else {
        s
    }
}

/// A text without the white space at its two ends.
pub open spec fn trimmed(s: Seq<char>) -> Seq<char> {
    trimmed_back(trimmed_front(s))
}

pub fn trim(s: &str) -> (r: String)
    ensures
        r@ == trimmed(s@),
{
    let chars = chars_of(s);
    let mut from: usize = 0;
    assert(chars@.skip(0) == s@);
    while from < chars.len() && chars[from].is_whitespace()
        invariant
            chars@ == s@,
            from <= chars@.len(),
            trimmed_front(s@.skip(from as int)) == trimmed_front(s@),
        decreases chars@.len() - from,
    {
        assert(s@.skip(from as int).drop_first() =~= s@.skip(from + 1));
        from += 1;
    }
    let ghost front = trimmed_front(s@);
    assert(front == s@.skip(from as int));
    let mut to: usize = chars.len();
    assert(s@.subrange(from as int, to as int) =~= front);
    while to > from && chars[to - 1].is_whitespace()
        invariant
            chars@ == s@,
            from <= to <= chars@.len(),
            trimmed_back(s@.subrange(from as int, to as int)) == trimmed_back(front),
        decreases to,
    {
        assert(s@.subrange(from as int, to as int).drop_last() =~= s@.subrange(
            from as int,
            to - 1,
        ));
        to -= 1;
    }
    cut(&chars, from, to)
}

/// A text without the given character at its end, however often it stands
/// there.
pub open spec fn trimmed_end(s: Seq<char>, c: char) -> Seq<char>
    decreases s.len(),
{
    if s.len() > 0 && s.last() == c {
        trimmed_end(s.drop_last(), c)
    } else {
        s
    }
}

pub fn trim_end(s: &str, c: char) -> (r: String)
    ensures
        r@ == trimmed_end(s@, c),
{
    let chars = chars_of(s);
    let mut to: usize = chars.len();
    assert(s@.take(to as int) =~= s@);
    while to > 0 && chars[to - 1] == c
        invariant
            chars@ == s@,
            to <= chars@.len(),
            trimmed_end(s@.take(to as int), c) == trimmed_end(s@, c),
        decreases to,
    {
        assert(s@.take(to as int).drop_last() =~= s@.take(to - 1));
        to -= 1;
    }
    cut(&chars, 0, to)
}

/// Whether a text begins with another.
pub fn starts_with(s: &str, prefix: &str) -> (r: bool)
    ensures
        r == prefix@.is_prefix_of(s@),
{
    let chars = chars_of(s);
    let head = chars_of(prefix);
    occurs(&chars, &head, 0)
}

/// The rest of a text behind a prefix.
pub open spec fn stripped(s: Seq<char>, prefix: Seq<char>) -> Option<Seq<char>> {
    if prefix.is_prefix_of(s) {
        Some(s.skip(prefix.len() as int))
    } else {
        None
    }
}

pub fn strip_prefix(s: &str, prefix: &str) -> (r: Option<String>)
    ensures
        match r {
            Some(rest) => stripped(s@, prefix@) == Some(rest@),
            None => stripped(s@, prefix@) is None,
        },
{
    let chars = chars_of(s);
    let head = chars_of(prefix);
    if occurs(&chars, &head, 0) {
        Some(cut(&chars, head.len(), chars.len()))
    } else {
        None
    }
}

// ---------------------------------------------------------------------------
// Text in text
// ---------------------------------------------------------------------------

/// Whether a text stands in another at a position.
pub open spec fn occurs_at(s: Seq<char>, part: Seq<char>, i: int) -> bool {
    0 <= i && i + part.len() <= s.len() && s.subrange(i, i + part.len()) == part
}

/// Whether a text stands somewhere in another.
pub open spec fn has_text(s: Seq<char>, part: Seq<char>) -> bool {
    exists|i: int| occurs_at(s, part, i)
}

fn occurs(s: &Vec<char>, part: &Vec<char>, at: usize) -> (r: bool)
    requires
        at <= s@.len(),
    ensures
        r == occurs_at(s@, part@, at as int),
        at == 0 ==> r == part@.is_prefix_of(s@),
{
    let len: usize = s.len();
    if part.len() > len - at {
        return false;
    }
    let mut i: usize = 0;
    while i < part.len()
        invariant
            i <= part@.len(),
            len == s@.len(),
            at + part@.len() <= len,
            forall|j: int| 0 <= j < i ==> s@[at + j] == part@[j],
        decreases part@.len() - i,
    {
        if s[at + i] != part[i] {
            assert(s@.subrange(at as int, at + part@.len())[i as int] != part@[i as int]);
            return false;
        }
        i += 1;
    }
    assert(s@.subrange(at as int, at + part@.len()) =~= part@);
    true
}

/// Where a text first stands in another, from a position on.
pub open spec fn found_from(s: Seq<char>, part: Seq<char>, i: int) -> Option<int>
    decreases s.len() - i + 1,
{
    if i + part.len() > s.len() {
        None
    } else if occurs_at(s, part, i) {
        Some(i)
    } else {
        found_from(s, part, i + 1)
    }
}

pub proof fn lemma_found_from(s: Seq<char>, part: Seq<char>, i: int)
    requires
        0 <= i,
    ensures
        match found_from(s, part, i) {
            Some(k) => i <= k && occurs_at(s, part, k),
            None => forall|k: int| i <= k ==> !occurs_at(s, part, k),
        },
    decreases s.len() - i + 1,
{
    if i + part.len() <= s.len() && !occurs_at(s, part, i) {
        lemma_found_from(s, part, i + 1);
    }
}

fn find_text(s: &Vec<char>, part: &Vec<char>) -> (r: Option<usize>)
    ensures
        match r {
            Some(k) => found_from(s@, part@, 0) == Some(k as int) && occurs_at(s@, part@, k as int),
            None => found_from(s@, part@, 0) is None,
        },
{
    let mut i: usize = 0;
    while i <= s.len() && part.len() <= s.len() - i
        invariant
            i <= s@.len() + 1,
            found_from(s@, part@, i as int) == found_from(s@, part@, 0),
        decreases s@.len() + 1 - i,
    {
        if occurs(s, part, i) {
            return Some(i);
        }
        if i == s.len() {
            assert(found_from(s@, part@, i + 1) is None);
            return None;
        }
        i += 1;
    }
    None
}

pub fn contains(s: &str, part: &str) -> (r: bool)
    ensures
        r == has_text(s@, part@),
{
    let chars = chars_of(s);
    let needle = chars_of(part);
    proof {
        lemma_found_from(chars@, needle@, 0);
    }
    match find_text(&chars, &needle) {
        Some(_) => true,
        None => {
            assert forall|k: int| !occurs_at(chars@, needle@, k) by {
                if k < 0 {
                }
            }
            false
        },
    }
}

/// The two texts round the first occurrence of another text.
pub open spec fn parted_by(s: Seq<char>, sep: Seq<char>) -> Option<(Seq<char>, Seq<char>)> {
    match found_from(s, sep, 0) {
        Some(i) => Some((s.take(i), s.skip(i + sep.len()))),
        None => None,
    }
}

pub fn part_by(s: &str, sep: &str) -> (r: Option<(String, String)>)
    ensures
        match r {
            Some(p) => parted_by(s@, sep@) == Some((p.0@, p.1@)),
            None => parted_by(s@, sep@) is None,
        },
{
    let chars = chars_of(s);
    let needle = chars_of(sep);
    let len: usize = chars.len();
    match find_text(&chars, &needle) {
        Some(i) => Some((cut(&chars, 0, i), cut(&chars, i + needle.len(), len))),
        None => None,
    }
}

/// Where a text last stands in another, at a position or before it.
pub open spec fn found_back(s: Seq<char>, part: Seq<char>, i: int) -> Option<int>
    decreases i + 1,
{
    if i < 0 {
        None
    } else if occurs_at(s, part, i) {
        Some(i)
    } else {
        found_back(s, part, i - 1)
    }
}

/// The text behind the last occurrence of another text; all of it where that
/// does not occur.
pub open spec fn after_text(s: Seq<char>, part: Seq<char>) -> Seq<char> {
    match found_back(s, part, s.len() as int) {
        Some(i) => s.skip(i + part.len()),
        None => s,
    }
}

pub fn since_text(s: &str, part: &str) -> (r: String)
    ensures
        r@ == after_text(s@, part@),
{
    let chars = chars_of(s);
    let needle = chars_of(part);
    let len: usize = chars.len();
    let mut i: usize = len;
    loop
        invariant
            chars@ == s@,
            needle@ == part@,
            len == chars@.len(),
            i <= len,
            found_back(s@, part@, i as int) == found_back(s@, part@, s@.len() as int),
        decreases i,
    {
        if occurs(&chars, &needle, i) {
            return cut(&chars, i + needle.len(), len);
        }
        if i == 0 {
            assert(found_back(s@, part@, -1) is None);
            return s.to_owned();
        }
        i -= 1;
    }
}

// ---------------------------------------------------------------------------
// Lines and words
// ---------------------------------------------------------------------------

/// A line without a carriage return at its end.
pub open spec fn without_return(s: Seq<char>) -> Seq<char> {
    if s.len() > 0 && s.last() == '\r' {
        s.drop_last()
    } else {
        s
    }
}

/// The lines of a text. A line ends at a line feed, with or without a
/// carriage return before it; the last line may go without one.
pub open spec fn lines_of(s: Seq<char>) -> Seq<Seq<char>>
    decreases s.len(),
    via lines_of_decreases
{
    let i = first_char(s, '\n');
    if s.len() == 0 {
        Seq::empty()
    } else if i >= s.len() {
        seq![s]
    } else {
        seq![without_return(s.take(i))] + lines_of(s.skip(i + 1))
    }
}

#[via_fn]
proof fn lines_of_decreases(s: Seq<char>) {
    lemma_first_char_bounds(s, '\n');
}

pub fn lines(s: &str) -> (r: Vec<String>)
    ensures
        texts(r@) == lines_of(s@),
{
    let chars = chars_of(s);
    let mut out: Vec<String> = Vec::new();
    let mut pos: usize = 0;
    assert(texts(out@) + lines_of(s@) =~= lines_of(s@));
    assert(chars@.skip(0) == s@);
    while pos < chars.len()
        invariant
            chars@ == s@,
            pos <= chars@.len(),
            texts(out@) + lines_of(s@.skip(pos as int)) == lines_of(s@),
        decreases chars@.len() - pos,
    {
        let i = find_char(&chars, pos, '\n');
        let ghost rest = s@.skip(pos as int);
        let ghost before = texts(out@);
        let mut end: usize = i;
        if i < chars.len() && i > pos && chars[i - 1] == '\r' {
            end = i - 1;
        }
        let line = cut(&chars, pos, end);
        proof {
            lemma_texts_push(out@, line);
            if i < chars@.len() {
                assert(line@ =~= without_return(rest.take(i - pos)));
                assert(rest.skip(i - pos + 1) =~= s@.skip(i + 1));
                assert(before + (seq![line@] + lines_of(s@.skip(i + 1))) =~= before.push(line@)
                    + lines_of(s@.skip(i + 1)));
            } else {
                assert(line@ =~= rest);
                assert(lines_of(rest) == seq![rest]);
                assert(before.push(line@) =~= before + seq![rest]);
            }
        }
        out.push(line);
        if i >= chars.len() {
            return out;
        }
        pos = i + 1;
    }
    assert(s@.skip(pos as int).len() == 0);
    assert(texts(out@) + Seq::<Seq<char>>::empty() =~= texts(out@));
    out
}

/// The words of a text: its pieces between white space.
pub open spec fn words_of(s: Seq<char>) -> Seq<Seq<char>>
    decreases s.len(),
    via words_of_decreases
{
    let t = trimmed_front(s);
    let i = first_white(t);
    if t.len() == 0 {
        Seq::empty()
    } else {
        seq![t.take(i)] + words_of(t.skip(i))
    }
}

#[via_fn]
proof fn words_of_decreases(s: Seq<char>) {
    lemma_trimmed_front(s);
    lemma_first_white_bounds(trimmed_front(s));
}

proof fn lemma_trimmed_front(s: Seq<char>)
    ensures
        trimmed_front(s).len() <= s.len(),
        trimmed_front(s).len() > 0 ==> !is_white(trimmed_front(s)[0]),
    decreases s.len(),
{
    if s.len() > 0 && is_white(s[0]) {
        lemma_trimmed_front(s.drop_first());
    }
}

proof fn lemma_first_white_bounds(s: Seq<char>)
    ensures
        0 <= first_white(s) <= s.len(),
        s.len() > 0 && !is_white(s[0]) ==> first_white(s) > 0,
    decreases s.len(),
{
    if s.len() > 0 && !is_white(s[0]) {
        lemma_first_white_bounds(s.drop_first());
    }
}

pub fn words(s: &str) -> (r: Vec<String>)
    ensures
        texts(r@) == words_of(s@),
{
    let chars = chars_of(s);
    let mut out: Vec<String> = Vec::new();
    let mut pos: usize = 0;
    assert(texts(out@) + words_of(s@) =~= words_of(s@));
    assert(chars@.skip(0) == s@);
    loop
        invariant
            chars@ == s@,
            pos <= chars@.len(),
            texts(out@) + words_of(s@.skip(pos as int)) == words_of(s@),
        decreases chars@.len() - pos,
    {
        let ghost rest = s@.skip(pos as int);
        let ghost before = texts(out@);
        let mut from: usize = pos;
        while from < chars.len() && chars[from].is_whitespace()
            invariant
                chars@ == s@,
                pos <= from <= chars@.len(),
                trimmed_front(s@.skip(from as int)) == trimmed_front(s@.skip(pos as int)),
            decreases chars@.len() - from,
        {
            assert(s@.skip(from as int).drop_first() =~= s@.skip(from + 1));
            from += 1;
        }
        let ghost t = s@.skip(from as int);
        assert(t == trimmed_front(rest));
        if from >= chars.len() {
            assert(t.len() == 0);
            assert(texts(out@) + Seq::<Seq<char>>::empty() =~= texts(out@));
            return out;
        }
        let mut to: usize = from;
        while to < chars.len() && !chars[to].is_whitespace()
            invariant
                chars@ == s@,
                from <= to <= chars@.len(),
                forall|j: int| from <= j < to ==> !is_white(#[trigger] chars@[j]),
            decreases chars@.len() - to,
        {
            to += 1;
        }
        proof {
            assert forall|j: int| 0 <= j < to - from implies !is_white(#[trigger] t[j]) by {
                assert(t[j] == chars@[from + j]);
            }
            lemma_first_white(t, to - from);
        }
        let word = cut(&chars, from, to);
        proof {
            lemma_texts_push(out@, word);
            assert(word@ =~= t.take(to - from));
            assert(t.skip(to - from) =~= s@.skip(to as int));
            assert(before + (seq![word@] + words_of(s@.skip(to as int))) =~= before.push(word@)
                + words_of(s@.skip(to as int)));
        }
        out.push(word);
        pos = to;
    }
}

// ---------------------------------------------------------------------------
// Joining and aligning
// ---------------------------------------------------------------------------

/// Texts one after another, with a separator between each two.
pub open spec fn joined(list: Seq<Seq<char>>, sep: Seq<char>) -> Seq<char>
    decreases list.len(),
{
    if list.len() == 0 {
        Seq::empty()
    } else if list.len() == 1 {
        list[0]
    } else {
        joined(list.drop_last(), sep) + sep + list.last()
    }
}

pub fn join(list: &Vec<String>, sep: &str) -> (r: String)
    ensures
        r@ == joined(texts(list@), sep@),
{
    let mut out = String::new();
    let mut i: usize = 0;
    assert(texts(list@).take(0) =~= Seq::<Seq<char>>::empty());
    while i < list.len()
        invariant
            i <= list@.len(),
            out@ == joined(texts(list@).take(i as int), sep@),
        decreases list@.len() - i,
    {
        let ghost all = texts(list@);
        let ghost grown = all.take(i + 1);
        assert(grown.drop_last() =~= all.take(i as int));
        assert(grown.last() == list@[i as int]@);
        if i > 0 {
            out.append(sep);
        }
        out.append(list[i].as_str());
        if i == 0 {
            assert(grown[0] == list@[0]@);
            assert(Seq::<char>::empty() + list@[0]@ =~= list@[0]@);
        }
        i += 1;
    }
    assert(texts(list@).take(i as int) =~= texts(list@));
    out
}

pub open spec fn spaces(n: int) -> Seq<char> {
    Seq::new(n as nat, |i: int| ' ')
}

/// A text moved to the right edge of a column.
pub open spec fn right_in(s: Seq<char>, width: int) -> Seq<char> {
    if s.len() < width {
        spaces(width - s.len()) + s
    } else {
        s
    }
}

/// A text at the left edge of a column.
pub open spec fn left_in(s: Seq<char>, width: int) -> Seq<char> {
    if s.len() < width {
        s + spaces(width - s.len())
    } else {
        s
    }
}

fn blank(n: usize) -> (r: String)
    ensures
        r@ == spaces(n as int),
{
    let mut out = String::new();
    for i in 0..n
        invariant
            out@ == spaces(i as int),
    {
        out.push(' ');
        assert(out@ =~= spaces(i + 1));
    }
    out
}

pub fn pad_left(s: &str, width: usize) -> (r: String)
    ensures
        r@ == right_in(s@, width as int),
{
    let len = chars_of(s).len();
    if len < width {
        blank(width - len).concat(s)
    } else {
        s.to_owned()
    }
}

pub fn pad_right(s: &str, width: usize) -> (r: String)
    ensures
        r@ == left_in(s@, width as int),
{
    let len = chars_of(s).len();
    if len < width {
        s.to_owned().concat(blank(width - len).as_str())
    } else {
        s.to_owned()
    }
}

/// Texts without line breaks in them are read back, line by line, from what
/// joining them by line feeds gives.
pub proof fn lemma_lines_of_joined(list: Seq<Seq<char>>)
    requires
        forall|i: int| 0 <= i < list.len() ==> (#[trigger] list[i]).len() > 0,
        forall|i: int, j: int|
            0 <= i < list.len() && 0 <= j < list[i].len() ==> #[trigger] list[i][j] != '\n'
                && list[i][j] != '\r',
    ensures
        lines_of(joined(list, seq!['\n'])) == list,
    decreases list.len(),
{
    let sep = seq!['\n'];
    if list.len() == 0 {
        assert(lines_of(joined(list, sep)) =~= list);
    } else if list.len() == 1 {
        let s = list[0];
        lemma_first_char(s, '\n', s.len() as int);
        assert(lines_of(s) =~= list);
    } else {
        let rest = list.drop_first();
        lemma_joined_front(list, sep);
        assert forall|i: int| 0 <= i < rest.len() implies (#[trigger] rest[i]).len() > 0 by {
            assert(rest[i] == list[i + 1]);
        }
        assert forall|i: int, j: int|
            0 <= i < rest.len() && 0 <= j < rest[i].len() implies #[trigger] rest[i][j] != '\n'
            && rest[i][j] != '\r' by {
            assert(rest[i] == list[i + 1]);
            assert(list[i + 1][j] != '\n');
        }
        lemma_lines_of_joined(rest);
        let first = list[0];
        let s = joined(list, sep);
        assert(s == first + sep + joined(rest, sep));
        assert forall|j: int| 0 <= j < first.len() implies #[trigger] s[j] != '\n' by {
            assert(list[0][j] != '\n');
            assert(s[j] == first[j]);
        }
        lemma_first_char(s, '\n', first.len() as int);
        assert(s.take(first.len() as int) =~= first);
        assert(s.skip(first.len() + 1int) =~= joined(rest, sep));
        assert(list[0][first.len() - 1] != '\r');
        assert(lines_of(s) =~= seq![first] + rest);
        assert(seq![first] + rest =~= list);
    }
}

/// Joining can also be read from the front.
pub proof fn lemma_joined_front(list: Seq<Seq<char>>, sep: Seq<char>)
    requires
        list.len() > 1,
    ensures
        joined(list, sep) == list[0] + sep + joined(list.drop_first(), sep),
    decreases list.len(),
{
    reveal_with_fuel(joined, 2);
    if list.len() == 2 {
        assert(list.drop_last()[0] == list[0]);
        assert(list.drop_first()[0] == list[1]);
        assert(list.drop_last().len() == 1);
    } else {
        lemma_joined_front(list.drop_last(), sep);
        assert(list.drop_last().drop_first() =~= list.drop_first().drop_last());
        assert(joined(list, sep) =~= list[0] + sep + joined(list.drop_first(), sep));
    }
}

/// A text parted into pieces is made of them: none holds the separator, and
/// joined by it they give the text back.
pub proof fn pieces_make_the_text(s: Seq<char>, c: char)
    ensures
        pieces(s, c).len() > 0,
        joined(pieces(s, c), seq![c]) == s,
        forall|i: int| 0 <= i < pieces(s, c).len() ==> !(#[trigger] pieces(s, c)[i]).contains(c),
    decreases s.len(),
{
    lemma_first_char_bounds(s, c);
    let i = first_char(s, c);
    if i < s.len() {
        let (head, tail) = (s.take(i), s.skip(i + 1));
        let rest = pieces(tail, c);
        pieces_make_the_text(tail, c);
        let all = seq![head] + rest;
        assert(pieces(s, c) == all);
        assert(all.drop_first() =~= rest);
        lemma_joined_front(all, seq![c]);
        assert(s =~= head + seq![c] + tail);
        assert forall|k: int| 0 <= k < all.len() implies !(#[trigger] all[k]).contains(c) by {
            if k > 0 {
                assert(all[k] == rest[k - 1]);
            }
        }
    } else {
        assert(pieces(s, c) == seq![s]);
    }
}

/// Trimming takes white space off both ends and nothing else.
pub proof fn trimming_takes_only_the_ends(s: Seq<char>)
    ensures
        exists|a: int, b: int|
            {
                &&& 0 <= a <= b <= s.len()
                &&& trimmed(s) == #[trigger] s.subrange(a, b)
                &&& forall|i: int| 0 <= i < a || b <= i < s.len() ==> is_white(#[trigger] s[i])
            },
        trimmed(s).len() > 0 ==> !is_white(trimmed(s)[0]) && !is_white(trimmed(s).last()),
{
    let t = trimmed_front(s);
    let a = s.len() - t.len();
    lemma_trimmed_front_part(s);
    lemma_trimmed_back_part(t);
    let u = trimmed_back(t);
    let b = a + u.len();
    assert(t == s.subrange(a, s.len() as int));
    assert(u =~= s.subrange(a, b));
    assert forall|i: int| 0 <= i < a || b <= i < s.len() implies is_white(#[trigger] s[i]) by {
        if i >= b {
            assert(s[i] == t[i - a]);
        }
    }
    if u.len() > 0 {
        assert(u[0] == t[0]);
    }
}

proof fn lemma_trimmed_front_part(s: Seq<char>)
    ensures
        trimmed_front(s).len() <= s.len(),
        trimmed_front(s) == s.subrange(s.len() - trimmed_front(s).len(), s.len() as int),
        forall|i: int| 0 <= i < s.len() - trimmed_front(s).len() ==> is_white(#[trigger] s[i]),
        trimmed_front(s).len() > 0 ==> !is_white(trimmed_front(s)[0]),
    decreases s.len(),
{
    if s.len() > 0 && is_white(s[0]) {
        let r = s.drop_first();
        lemma_trimmed_front_part(r);
        let n = trimmed_front(s).len();
        assert(r.subrange(r.len() - n, r.len() as int) =~= s.subrange(s.len() - n, s.len() as int));
        assert forall|i: int| 0 <= i < s.len() - n implies is_white(#[trigger] s[i]) by {
            if i > 0 {
                assert(s[i] == r[i - 1]);
            }
        }
    } else {
        assert(s.subrange(0, s.len() as int) =~= s);
    }
}

proof fn lemma_trimmed_back_part(s: Seq<char>)
    ensures
        trimmed_back(s).len() <= s.len(),
        trimmed_back(s) == s.take(trimmed_back(s).len() as int),
        forall|i: int| trimmed_back(s).len() <= i < s.len() ==> is_white(#[trigger] s[i]),
        trimmed_back(s).len() > 0 ==> !is_white(trimmed_back(s).last()),
    decreases s.len(),
{
    if s.len() > 0 && is_white(s.last()) {
        let r = s.drop_last();
        lemma_trimmed_back_part(r);
        let n = trimmed_back(s).len() as int;
        assert(r.take(n) =~= s.take(n));
        assert forall|i: int| n <= i < s.len() implies is_white(#[trigger] s[i]) by {
            if i < r.len() {
                assert(s[i] == r[i]);
            }
        }
    } else {
        assert(s.take(s.len() as int) =~= s);
    }
}

/// A character trimmed off the end is taken off as often as it stands there.
pub proof fn trimming_takes_all_at_the_end(s: Seq<char>, c: char)
    ensures
        trimmed_end(s, c).len() <= s.len(),
        trimmed_end(s, c) == s.take(trimmed_end(s, c).len() as int),
        forall|i: int| trimmed_end(s, c).len() <= i < s.len() ==> #[trigger] s[i] == c,
        trimmed_end(s, c).len() > 0 ==> trimmed_end(s, c).last() != c,
    decreases s.len(),
{
    if s.len() > 0 && s.last() == c {
        let r = s.drop_last();
        trimming_takes_all_at_the_end(r, c);
        let n = trimmed_end(s, c).len() as int;
        assert(r.take(n) =~= s.take(n));
        assert forall|i: int| n <= i < s.len() implies #[trigger] s[i] == c by {
            if i < r.len() {
                assert(s[i] == r[i]);
            }
        }
    } else {
        assert(s.take(s.len() as int) =~= s);
    }
}

/// A text is parted at the first place where the separator stands, and the two
/// parts with it between them are the text. Without it nothing is parted.
pub proof fn texts_are_parted_at_the_first(s: Seq<char>, sep: Seq<char>)
    ensures
        match parted_by(s, sep) {
            Some((head, tail)) => s == head + sep + tail && forall|k: int|
                0 <= k < head.len() ==> !occurs_at(s, sep, k),
            None => !has_text(s, sep),
        },
{
    lemma_found_from(s, sep, 0);
    lemma_found_first(s, sep, 0);
    match found_from(s, sep, 0) {
        Some(i) => {
            assert(s =~= s.take(i) + sep + s.skip(i + sep.len())) by {
                assert(s.subrange(i, i + sep.len()) == sep);
                assert(s =~= s.take(i) + s.subrange(i, i + sep.len()) + s.skip(i + sep.len()));
            }
        },
        None => {},
    }
}

proof fn lemma_found_first(s: Seq<char>, part: Seq<char>, i: int)
    requires
        0 <= i,
    ensures
        found_from(s, part, i) matches Some(k) ==> forall|j: int|
            i <= j < k ==> !occurs_at(s, part, j),
    decreases s.len() - i + 1,
{
    if i + part.len() <= s.len() && !occurs_at(s, part, i) {
        lemma_found_first(s, part, i + 1);
    }
}

/// What stands after the last occurrence of a text; all of it, where there is
/// none.
pub proof fn the_last_occurrence_counts(s: Seq<char>, part: Seq<char>)
    ensures
        !has_text(s, part) ==> after_text(s, part) == s,
        has_text(s, part) ==> exists|i: int|
            {
                &&& #[trigger] occurs_at(s, part, i)
                &&& after_text(s, part) == s.skip(i + part.len())
                &&& forall|k: int| i < k ==> !occurs_at(s, part, k)
            },
{
    lemma_found_back(s, part, s.len() as int);
}

proof fn lemma_found_back(s: Seq<char>, part: Seq<char>, i: int)
    ensures
        match found_back(s, part, i) {
            Some(k) => k <= i && occurs_at(s, part, k) && forall|j: int|
                k < j <= i ==> !occurs_at(s, part, j),
            None => forall|j: int| j <= i ==> !occurs_at(s, part, j),
        },
    decreases i + 1,
{
    if i >= 0 && !occurs_at(s, part, i) {
        lemma_found_back(s, part, i - 1);
    }
}

/// Words are what white space leaves: no word is empty or holds any.
pub proof fn words_hold_no_space(s: Seq<char>)
    ensures
        forall|i: int|
            0 <= i < words_of(s).len() ==> (#[trigger] words_of(s)[i]).len() > 0 && forall|j: int|
                0 <= j < words_of(s)[i].len() ==> !is_white(#[trigger] words_of(s)[i][j]),
        words_of(s).len() == 0 ==> forall|i: int| 0 <= i < s.len() ==> is_white(#[trigger] s[i]),
    decreases s.len(),
{
    let t = trimmed_front(s);
    let i = first_white(t);
    lemma_trimmed_front_part(s);
    lemma_first_white_bounds(t);
    if t.len() > 0 {
        lemma_before_white(t);
        let head = t.take(i);
        let rest = words_of(t.skip(i));
        words_hold_no_space(t.skip(i));
        let all = seq![head] + rest;
        assert(words_of(s) == all);
        assert(head.len() > 0);
        assert forall|k: int| 0 <= k < all.len() implies (#[trigger] all[k]).len() > 0 && forall|
            j: int,
        | 0 <= j < all[k].len() ==> !is_white(#[trigger] all[k][j]) by {
            if k > 0 {
                assert(all[k] == rest[k - 1]);
            } else {
                assert forall|j: int| 0 <= j < head.len() implies !is_white(
                    #[trigger] head[j],
                ) by {
                    assert(head[j] == t[j]);
                }
            }
        }
    }
}

proof fn lemma_before_white(s: Seq<char>)
    ensures
        forall|j: int| 0 <= j < first_white(s) ==> !is_white(#[trigger] s[j]),
    decreases s.len(),
{
    if s.len() > 0 && !is_white(s[0]) {
        let r = s.drop_first();
        lemma_before_white(r);
        lemma_first_white_bounds(r);
        assert forall|j: int| 0 <= j < first_white(s) implies !is_white(#[trigger] s[j]) by {
            if j > 0 {
                assert(s[j] == r[j - 1]);
            }
        }
    }
}

/// A word in front is the first word, whatever white space is around it.
pub proof fn words_come_in_order(front: Seq<char>, word: Seq<char>, gap: char, rest: Seq<char>)
    requires
        forall|i: int| 0 <= i < front.len() ==> is_white(#[trigger] front[i]),
        word.len() > 0,
        forall|i: int| 0 <= i < word.len() ==> !is_white(#[trigger] word[i]),
        is_white(gap),
    ensures
        words_of(front + word + seq![gap] + rest) == seq![word] + words_of(rest),
        words_of(front + word) == seq![word],
{
    let tail = seq![gap] + rest;
    let all = front + word + seq![gap] + rest;
    lemma_trimmed_front_skips(front, word + tail);
    assert(all =~= front + (word + tail));
    lemma_first_white(word + tail, word.len() as int);
    assert((word + tail).take(word.len() as int) =~= word);
    assert((word + tail).skip(word.len() as int) =~= tail);
    assert(trimmed_front(tail) == trimmed_front(rest)) by {
        assert(tail.drop_first() =~= rest);
    }
    assert(words_of(tail) == words_of(rest));
    lemma_trimmed_front_skips(front, word);
    lemma_first_white(word, word.len() as int);
    assert(word.take(word.len() as int) =~= word);
    let none = word.skip(word.len() as int);
    assert(none.len() == 0);
    assert(words_of(none) == Seq::<Seq<char>>::empty());
    assert(words_of(front + word) =~= seq![word]);
}

proof fn lemma_trimmed_front_skips(front: Seq<char>, s: Seq<char>)
    requires
        forall|i: int| 0 <= i < front.len() ==> is_white(#[trigger] front[i]),
        s.len() > 0,
        !is_white(s[0]),
    ensures
        trimmed_front(front + s) == s,
    decreases front.len(),
{
    if front.len() > 0 {
        let f = front.drop_first();
        assert forall|i: int| 0 <= i < f.len() implies is_white(#[trigger] f[i]) by {
            assert(f[i] == front[i + 1]);
        }
        lemma_trimmed_front_skips(f, s);
        assert((front + s)[0] == front[0]);
        assert((front + s).drop_first() =~= f + s);
    } else {
        assert(front + s =~= s);
    }
}

/// A line ends at its line feed; a carriage return right before that belongs to
/// the ending, not to the line.
pub proof fn lines_end_at_their_feeds(line: Seq<char>, rest: Seq<char>)
    requires
        !line.contains('\n'),
    ensures
        line.len() == 0 || line.last() != '\r' ==> lines_of(line + seq!['\n'] + rest) == seq![line]
            + lines_of(rest),
        lines_of(line + seq!['\r', '\n'] + rest) == seq![line] + lines_of(rest),
        line.len() > 0 ==> lines_of(line) == seq![line],
        lines_of(Seq::empty()) == Seq::<Seq<char>>::empty(),
{
    let a = line + seq!['\n'] + rest;
    let n = line.len() as int;
    assert forall|j: int| 0 <= j < n implies line[j] != '\n' by {
        if line[j] == '\n' {
            assert(line.contains(line[j]));
        }
    }
    lemma_first_char(a, '\n', n);
    assert(a.take(n) =~= line);
    assert(a.skip(n + 1) =~= rest);
    let b = line + seq!['\r', '\n'] + rest;
    lemma_first_char(b, '\n', n + 1);
    assert(b.take(n + 1) =~= line.push('\r'));
    assert(line.push('\r').drop_last() =~= line);
    assert(b.skip(n + 2) =~= rest);
    lemma_first_char(line, '\n', n);
}

/// A text set to one side of a column is followed or led by spaces alone, and
/// is never cut.
pub proof fn columns_are_filled_with_spaces(s: Seq<char>, width: int)
    ensures
        s.len() >= width ==> left_in(s, width) == s && right_in(s, width) == s,
        s.len() < width ==> {
            &&& left_in(s, width).len() == width && right_in(s, width).len() == width
            &&& left_in(s, width).take(s.len() as int) == s
            &&& right_in(s, width).skip(width - s.len()) == s
            &&& forall|i: int| s.len() <= i < width ==> #[trigger] left_in(s, width)[i] == ' '
            &&& forall|i: int| 0 <= i < width - s.len() ==> #[trigger] right_in(s, width)[i] == ' '
        },
{
    if s.len() < width {
        assert(left_in(s, width).take(s.len() as int) =~= s);
        assert(right_in(s, width).skip(width - s.len()) =~= s);
    }
}

/// A text is cut at a character. Before its first place stands what holds none;
/// behind its last place too; and the two sides of either place, with the
/// character between them, are the text. Without the character the text stays
/// whole.
pub proof fn texts_are_cut_at_a_character(s: Seq<char>, c: char)
    ensures
        !before_first(s, c).contains(c),
        before_first(s, c).is_prefix_of(s),
        !after_last(s, c).contains(c),
        !s.contains(c) ==> before_first(s, c) == s && after_last(s, c) == s && parted(s, c) is None
            && parted_back(s, c) is None,
        s.contains(c) ==> {
            &&& s[before_first(s, c).len() as int] == c
            &&& parted(s, c) matches Some((head, tail)) && head == before_first(s, c) && s == head
                + seq![c] + tail
            &&& parted_back(s, c) matches Some((front, back)) && back == after_last(s, c) && s
                == front + seq![c] + back
        },
{
    lemma_first_char_bounds(s, c);
    lemma_last_char_bounds(s, c);
    let (i, j) = (first_char(s, c), last_char(s, c));
    let (head, back) = (before_first(s, c), after_last(s, c));
    assert forall|k: int| 0 <= k < head.len() implies head[k] != c by {
        assert(head[k] == s[k]);
    }
    assert forall|k: int| 0 <= k < back.len() implies back[k] != c by {
        assert(back[k] == s[k + j + 1]);
    }
    if s.contains(c) {
        let k = choose|k: int| 0 <= k < s.len() && s[k] == c;
        assert(i <= k <= j);
        assert(s =~= s.take(i) + seq![c] + s.skip(i + 1));
        assert(s =~= s.take(j) + seq![c] + s.skip(j + 1));
    } else {
        if i < s.len() {
            assert(s.contains(s[i]));
        }
        if j >= 0 {
            assert(s.contains(s[j]));
        }
        assert(s.take(s.len() as int) =~= s);
        assert(s.skip(0) =~= s);
    }
}

/// A text is cut at the first of several characters.
pub proof fn texts_are_cut_at_the_first_of_them(s: Seq<char>, any: Seq<char>)
    ensures
        before_any(s, any).is_prefix_of(s),
        forall|i: int|
            0 <= i < before_any(s, any).len() ==> !any.contains(#[trigger] before_any(s, any)[i]),
        before_any(s, any).len() < s.len() ==> any.contains(s[before_any(s, any).len() as int]),
    decreases s.len(),
{
    if s.len() > 0 && !any.contains(s[0]) {
        let r = s.drop_first();
        texts_are_cut_at_the_first_of_them(r, any);
        lemma_first_of_bounds(r, any);
        let n = first_of(r, any);
        assert forall|i: int| 0 <= i < before_any(s, any).len() implies !any.contains(
            #[trigger] before_any(s, any)[i],
        ) by {
            if i > 0 {
                assert(before_any(s, any)[i] == before_any(r, any)[i - 1]);
            }
        }
        if n + 1 < s.len() {
            assert(s[n + 1] == r[n]);
        }
    }
}

proof fn lemma_first_of_bounds(s: Seq<char>, any: Seq<char>)
    ensures
        0 <= first_of(s, any) <= s.len(),
    decreases s.len(),
{
    if s.len() > 0 && !any.contains(s[0]) {
        lemma_first_of_bounds(s.drop_first(), any);
    }
}

/// A beginning is taken off where it is one, and with it in front the rest is
/// the text.
pub proof fn beginnings_are_taken_off(s: Seq<char>, prefix: Seq<char>)
    ensures
        stripped(prefix + s, prefix) == Some(s),
        stripped(s, prefix) matches Some(rest) ==> s == prefix + rest,
        stripped(s, prefix) is None ==> s.len() < prefix.len() || s.take(prefix.len() as int)
            != prefix,
{
    assert((prefix + s).take(prefix.len() as int) =~= prefix);
    assert(prefix.is_prefix_of(prefix + s));
    assert((prefix + s).skip(prefix.len() as int) =~= s);
    if prefix.is_prefix_of(s) {
        assert(s =~= prefix + s.skip(prefix.len() as int));
    } else if s.len() >= prefix.len() && s.take(prefix.len() as int) == prefix {
        assert(prefix.is_prefix_of(s));
    }
}

} // verus!
