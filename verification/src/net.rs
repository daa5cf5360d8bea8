//! Network addresses as plain values, with their notation.

use vstd::prelude::*;
use vstd::string::StringExecFns;
use crate::scan::{lemma_first_char, lemma_first_char_bounds, first_char, pieces, split, texts};
use crate::text::{all_digits, chars_of, dec, decimal, is_digit, lemma_dec, value_of, lemma_value_grows};

verus! {

/// An IPv4 address.
#[derive(Debug, Clone, Copy, PartialEq, Eq, Structural)]
pub struct Ipv4Addr {
    pub a: u8,
    pub b: u8,
    pub c: u8,
    pub d: u8,
}

/// An IP address. Of an IPv6 address only the notation is ever needed.
#[derive(Debug, PartialEq, Eq)]
pub enum IpAddr {
    V4(Ipv4Addr),
    V6(String),
}

impl Clone for IpAddr {
    fn clone(&self) -> (r: Self)
        ensures
            r == *self,
    {
        match self {
            IpAddr::V4(v4) => IpAddr::V4(*v4),
            IpAddr::V6(text) => IpAddr::V6(text.clone()),
        }
    }
}

impl Ipv4Addr {
    pub fn new(a: u8, b: u8, c: u8, d: u8) -> (r: Self)
        ensures
            r == (Ipv4Addr { a, b, c, d }),
    {
        Ipv4Addr { a, b, c, d }
    }

    /// The address in dotted decimal notation.
    pub open spec fn notation(self) -> Seq<char> {
        dec(self.a as nat) + seq!['.'] + dec(self.b as nat) + seq!['.'] + dec(self.c as nat)
            + seq!['.'] + dec(self.d as nat)
    }

    pub fn text(self) -> (r: String)
        ensures
            r@ == self.notation(),
    {
        let mut out = decimal(self.a as u128);
        out.push('.');
        out.append(decimal(self.b as u128).as_str());
        out.push('.');
        out.append(decimal(self.c as u128).as_str());
        out.push('.');
        out.append(decimal(self.d as u128).as_str());
        assert(out@ =~= self.notation());
        out
    }

    /// 0.0.0.0
    pub open spec fn unspecified(self) -> bool {
        self.a == 0 && self.b == 0 && self.c == 0 && self.d == 0
    }

    pub fn is_unspecified(self) -> (r: bool)
        ensures
            r == self.unspecified(),
    {
        self.a == 0 && self.b == 0 && self.c == 0 && self.d == 0
    }

    /// 127.0.0.0/8
    pub open spec fn loopback(self) -> bool {
        self.a == 127
    }

    pub fn is_loopback(self) -> (r: bool)
        ensures
            r == self.loopback(),
    {
        self.a == 127
    }

    /// 10.0.0.0/8, 172.16.0.0/12 and 192.168.0.0/16
    pub open spec fn private(self) -> bool {
        ||| self.a == 10
        ||| self.a == 172 && 16 <= self.b <= 31
        ||| self.a == 192 && self.b == 168
    }

    pub fn is_private(self) -> (r: bool)
        ensures
            r == self.private(),
    {
        self.a == 10 || (self.a == 172 && 16 <= self.b && self.b <= 31) || (self.a == 192
            && self.b == 168)
    }

    /// 169.254.0.0/16
    pub open spec fn link_local(self) -> bool {
        self.a == 169 && self.b == 254
    }

    pub fn is_link_local(self) -> (r: bool)
        ensures
            r == self.link_local(),
    {
        self.a == 169 && self.b == 254
    }

    /// Reads an address in dotted decimal notation. Only the notation that
    /// [`Ipv4Addr::text`] writes is understood: no leading zeros, no spaces.
    pub fn parse(s: &str) -> (r: Option<Self>)
        ensures
            match r {
                Some(addr) => s@ == addr.notation(),
                None => forall|addr: Self| s@ != #[trigger] addr.notation(),
            },
    {
        let parts = split(s, '.');
        proof {
            assert forall|addr: Self| s@ == #[trigger] addr.notation() implies texts(parts@)
                == octet_texts(addr) by {
                lemma_notation_pieces(addr);
            }
        }
        assert(texts(parts@).len() == parts@.len());
        if parts.len() != 4 {
            return None;
        }
        let a = parse_octet(parts[0].as_str());
        let b = parse_octet(parts[1].as_str());
        let c = parse_octet(parts[2].as_str());
        let d = parse_octet(parts[3].as_str());
        proof {
            assert forall|addr: Self| s@ == #[trigger] addr.notation() implies parts@[0]@ == dec(
                addr.a as nat,
            ) && parts@[1]@ == dec(addr.b as nat) && parts@[2]@ == dec(addr.c as nat)
                && parts@[3]@ == dec(addr.d as nat) by {
                let t = texts(parts@);
                assert(t == octet_texts(addr));
                assert(t[0] == parts@[0]@ && t[1] == parts@[1]@ && t[2] == parts@[2]@ && t[3]
                    == parts@[3]@);
            }
        }
        match (a, b, c, d) {
            (Some(a), Some(b), Some(c), Some(d)) => {
                let addr = Ipv4Addr { a, b, c, d };
                proof {
                    lemma_four_pieces(s@, '.');
                    let t = texts(parts@);
                    assert(t[0] == parts@[0]@ && t[1] == parts@[1]@ && t[2] == parts@[2]@ && t[3]
                        == parts@[3]@);
                    assert(s@ =~= addr.notation());
                }
                Some(addr)
            },
            _ => None,
        }
    }
}

pub open spec fn octet_texts(addr: Ipv4Addr) -> Seq<Seq<char>> {
    seq![dec(addr.a as nat), dec(addr.b as nat), dec(addr.c as nat), dec(addr.d as nat)]
}

/// A run of digits without a leading zero is the notation of its value.
pub proof fn lemma_dec_of_value(s: Seq<char>)
    requires
        s.len() > 0,
        all_digits(s),
        s.len() == 1 || s[0] != '0',
    ensures
        dec(value_of(s)) == s,
    decreases s.len(),
{
    reveal_with_fuel(value_of, 3);
    reveal_with_fuel(dec, 2);
    if s.len() == 1 {
        assert(s.drop_last() =~= Seq::<char>::empty());
        assert(is_digit(s[0]));
        assert(dec(value_of(s)) =~= s);
    } else {
        let q = s.drop_last();
        assert(q[0] == s[0]);
        assert(all_digits(q)) by {
            assert forall|i: int| 0 <= i < q.len() implies is_digit(#[trigger] q[i]) by {
                assert(q[i] == s[i]);
            }
        }
        lemma_dec_of_value(q);
        lemma_dec(value_of(q));
        assert(is_digit(s[s.len() - 1]));
        if value_of(q) == 0 {
            assert(dec(0) =~= seq!['0']);
        }
        assert(dec(value_of(s)) =~= s);
    }
}

fn parse_octet(s: &str) -> (r: Option<u8>)
    ensures
        match r {
            Some(v) => s@ == dec(v as nat),
            None => forall|v: u8| s@ != #[trigger] dec(v as nat),
        },
{
    let chars = chars_of(s);
    proof {
        assert forall|v: u8| s@ == #[trigger] dec(v as nat) implies chars@.len() > 0 && all_digits(
            chars@,
        ) && (chars@.len() == 1 || chars@[0] != '0') && value_of(chars@) == v by {
            lemma_dec(v as nat);
        }
    }
    if chars.len() == 0 || (chars.len() > 1 && chars[0] == '0') {
        return None;
    }
    let mut value: u32 = 0;
    let mut i: usize = 0;
    assert(chars@.take(0) =~= Seq::<char>::empty());
    while i < chars.len()
        invariant
            i <= chars@.len(),
            value == value_of(chars@.take(i as int)),
            value <= 255,
            forall|j: int| 0 <= j < i ==> is_digit(#[trigger] chars@[j]),
            chars@ == s@,
            forall|v: u8|
                s@ == #[trigger] dec(v as nat) ==> all_digits(chars@) && value_of(chars@) == v,
        decreases chars@.len() - i,
    {
        let c = chars[i];
        if c < '0' || c > '9' {
            return None;
        }
        assert(chars@.take(i + 1).drop_last() =~= chars@.take(i as int));
        value = value * 10 + (c as u32 - 48);
        proof {
            assert(value == value_of(chars@.take(i + 1)));
            if value > 255 {
                assert(chars@.take(chars@.len() as int) =~= chars@);
                if all_digits(chars@) {
                    lemma_value_grows(chars@, i + 1);
                }
            }
        }
        if value > 255 {
            return None;
        }
        i += 1;
    }
    proof {
        assert(chars@.take(i as int) =~= chars@);
        lemma_dec_of_value(chars@);
    }
    Some(value as u8)
}

/// A piece and a separator in front of a text come off as its first piece.
pub proof fn lemma_pieces_cons(p: Seq<char>, rest: Seq<char>, c: char)
    requires
        forall|i: int| 0 <= i < p.len() ==> p[i] != c,
    ensures
        pieces(p + seq![c] + rest, c) == seq![p] + pieces(rest, c),
{
    let s = p + seq![c] + rest;
    assert forall|i: int| 0 <= i < p.len() implies s[i] != c by {
        assert(s[i] == p[i]);
    }
    lemma_first_char(s, c, p.len() as int);
    assert(s.take(p.len() as int) =~= p);
    assert(s.skip(p.len() as int + 1) =~= rest);
}

/// A text without the separator is its only piece.
pub proof fn lemma_pieces_single(p: Seq<char>, c: char)
    requires
        forall|i: int| 0 <= i < p.len() ==> p[i] != c,
    ensures
        pieces(p, c) == seq![p],
{
    lemma_first_char(p, c, p.len() as int);
}

proof fn lemma_dec_has_no_dot(n: nat)
    ensures
        forall|i: int| 0 <= i < dec(n).len() ==> dec(n)[i] != '.',
{
    lemma_dec(n);
    assert forall|i: int| 0 <= i < dec(n).len() implies dec(n)[i] != '.' by {
        assert(is_digit(dec(n)[i]));
    }
}

proof fn lemma_notation_pieces(addr: Ipv4Addr)
    ensures
        pieces(addr.notation(), '.') == octet_texts(addr),
{
    let (a, b, c, d) = (
        dec(addr.a as nat),
        dec(addr.b as nat),
        dec(addr.c as nat),
        dec(addr.d as nat),
    );
    lemma_dec_has_no_dot(addr.a as nat);
    lemma_dec_has_no_dot(addr.b as nat);
    lemma_dec_has_no_dot(addr.c as nat);
    lemma_dec_has_no_dot(addr.d as nat);
    lemma_pieces_single(d, '.');
    lemma_pieces_cons(c, d, '.');
    lemma_pieces_cons(b, c + seq!['.'] + d, '.');
    lemma_pieces_cons(a, b + seq!['.'] + (c + seq!['.'] + d), '.');
    assert(addr.notation() =~= a + seq!['.'] + (b + seq!['.'] + (c + seq!['.'] + d)));
    assert(pieces(addr.notation(), '.') =~= octet_texts(addr));
}

/// Different addresses are written differently.
pub proof fn lemma_notation_injective(x: Ipv4Addr, y: Ipv4Addr)
    requires
        x.notation() == y.notation(),
    ensures
        x == y,
{
    lemma_notation_pieces(x);
    lemma_notation_pieces(y);
    let (p, q) = (octet_texts(x), octet_texts(y));
    assert(p[0] == q[0] && p[1] == q[1] && p[2] == q[2] && p[3] == q[3]);
    lemma_dec(x.a as nat);
    lemma_dec(x.b as nat);
    lemma_dec(x.c as nat);
    lemma_dec(x.d as nat);
    lemma_dec(y.a as nat);
    lemma_dec(y.b as nat);
    lemma_dec(y.c as nat);
    lemma_dec(y.d as nat);
}

/// An address is written with digits and dots, a digit first and last.
pub proof fn lemma_notation_chars(addr: Ipv4Addr)
    ensures
        addr.notation().len() > 0,
        is_digit(addr.notation()[0]),
        is_digit(addr.notation().last()),
        forall|i: int|
            0 <= i < addr.notation().len() ==> is_digit(#[trigger] addr.notation()[i])
                || addr.notation()[i] == '.',
{
    let (a, b, c, d) = (
        dec(addr.a as nat),
        dec(addr.b as nat),
        dec(addr.c as nat),
        dec(addr.d as nat),
    );
    lemma_dec(addr.a as nat);
    lemma_dec(addr.b as nat);
    lemma_dec(addr.c as nat);
    lemma_dec(addr.d as nat);
    let n = addr.notation();
    assert(n =~= a + seq!['.'] + b + seq!['.'] + c + seq!['.'] + d);
    assert(n[0] == a[0]);
    assert(n.last() == d[d.len() - 1]);
    assert forall|i: int| 0 <= i < n.len() implies is_digit(#[trigger] n[i]) || n[i] == '.' by {
        let la = a.len();
        let lb = la + 1 + b.len();
        let lc = lb + 1 + c.len();
        if i < la {
            assert(n[i] == a[i]);
        } else if la < i < lb {
            assert(n[i] == b[i - la - 1]);
        } else if lb < i < lc {
            assert(n[i] == c[i - lb - 1]);
        } else if lc < i {
            assert(n[i] == d[i - lc - 1]);
        }
    }
}

/// A text of four pieces is these with the separator between them.
proof fn lemma_four_pieces(s: Seq<char>, c: char)
    requires
        pieces(s, c).len() == 4,
    ensures
        s == pieces(s, c)[0] + seq![c] + pieces(s, c)[1] + seq![c] + pieces(s, c)[2] + seq![c]
            + pieces(s, c)[3],
{
    lemma_unfold_pieces(s, c);
    let s1 = s.skip(first_char(s, c) + 1);
    lemma_unfold_pieces(s1, c);
    let s2 = s1.skip(first_char(s1, c) + 1);
    lemma_unfold_pieces(s2, c);
    let s3 = s2.skip(first_char(s2, c) + 1);
    lemma_unfold_pieces(s3, c);
    assert(pieces(s, c)[1] == pieces(s1, c)[0]);
    assert(pieces(s1, c)[1] == pieces(s2, c)[0]);
    assert(pieces(s2, c)[1] == pieces(s3, c)[0]);
    assert(pieces(s, c)[2] == pieces(s1, c)[1]);
    assert(pieces(s1, c)[2] == pieces(s2, c)[1]);
    assert(pieces(s, c)[3] == pieces(s1, c)[2]);
    assert(s =~= pieces(s, c)[0] + seq![c] + pieces(s, c)[1] + seq![c] + pieces(s, c)[2] + seq![c]
        + pieces(s, c)[3]);
}

proof fn lemma_unfold_pieces(s: Seq<char>, c: char)
    ensures
        pieces(s, c).len() >= 1,
        pieces(s, c).len() == 1 ==> pieces(s, c)[0] == s,
        pieces(s, c).len() > 1 ==> {
            let i = first_char(s, c);
            &&& 0 <= i < s.len()
            &&& s == s.take(i) + seq![c] + s.skip(i + 1)
            &&& pieces(s, c)[0] == s.take(i)
            &&& pieces(s, c) == seq![s.take(i)] + pieces(s.skip(i + 1), c)
            &&& pieces(s.skip(i + 1), c).len() == pieces(s, c).len() - 1
        },
    decreases s.len(),
{
    lemma_first_char_bounds(s, c);
    let i = first_char(s, c);
    if i < s.len() {
        assert(s =~= s.take(i) + seq![c] + s.skip(i + 1));
        lemma_unfold_pieces(s.skip(i + 1), c);
    }
}

impl IpAddr {
    pub open spec fn notation(self) -> Seq<char> {
        match self {
            IpAddr::V4(v4) => v4.notation(),
            IpAddr::V6(text) => text@,
        }
    }

    pub fn text(&self) -> (r: String)
        ensures
            r@ == self.notation(),
    {
        match self {
            IpAddr::V4(v4) => v4.text(),
            IpAddr::V6(text) => text.clone(),
        }
    }
}

/// Which addresses belong to a network of one's own, by their octets.
pub proof fn networks_of_ones_own(a: Ipv4Addr)
    ensures
        a.private() <==> a.a == 10 || (a.a == 172 && a.b >= 16 && a.b < 32) || (a.a == 192 && a.b
            == 168),
        a.loopback() <==> a.a == 127,
        a.link_local() <==> a.a == 169 && a.b == 254,
        a.unspecified() <==> a == (Ipv4Addr { a: 0, b: 0, c: 0, d: 0 }),
{
}

} // verus!
