//! Bytes on the wire: big-endian numbers, copying and comparing.

use vstd::prelude::*;
use vstd::slice::slice_subrange;

verus! {

/// The low sixteen bits of a number, most significant byte first.
pub open spec fn be16(n: nat) -> Seq<u8> {
    seq![((n / 256) % 256) as u8, (n % 256) as u8]
}

/// The low twenty-four bits of a number, most significant byte first.
pub open spec fn be24(n: nat) -> Seq<u8> {
    seq![((n / 65536) % 256) as u8, ((n / 256) % 256) as u8, (n % 256) as u8]
}

/// The number that two bytes make, most significant first.
pub open spec fn word(hi: u8, lo: u8) -> nat {
    (hi * 256 + lo) as nat
}

pub fn word_of(hi: u8, lo: u8) -> (r: u16)
    ensures
        r == word(hi, lo),
{
    (hi as u16) * 256 + lo as u16
}

/// Writes the low sixteen bits of a number.
pub fn put16(out: &mut Vec<u8>, n: u128)
    ensures
        final(out)@ == old(out)@ + be16(n as nat),
{
    let ghost was = out@;
    out.push(((n / 256) % 256) as u8);
    out.push((n % 256) as u8);
    assert(out@ =~= was + be16(n as nat));
}

/// Writes the low twenty-four bits of a number.
pub fn put24(out: &mut Vec<u8>, n: u128)
    ensures
        final(out)@ == old(out)@ + be24(n as nat),
{
    let ghost was = out@;
    out.push(((n / 65536) % 256) as u8);
    out.push(((n / 256) % 256) as u8);
    out.push((n % 256) as u8);
    assert(out@ =~= was + be24(n as nat));
}

/// Appends bytes.
pub fn put(out: &mut Vec<u8>, bytes: &[u8])
    ensures
        final(out)@ == old(out)@ + bytes@,
{
    let ghost was = out@;
    let mut i: usize = 0;
    assert(was + bytes@.take(0) =~= was);
    while i < bytes.len()
        invariant
            i <= bytes@.len(),
            out@ == was + bytes@.take(i as int),
        decreases bytes@.len() - i,
    {
        assert(bytes@.take(i + 1) =~= bytes@.take(i as int).push(bytes@[i as int]));
        out.push(bytes[i]);
        assert(out@ =~= was + bytes@.take(i + 1));
        i += 1;
    }
    assert(bytes@.take(i as int) =~= bytes@);
}

/// A copy of the bytes from one position up to another.
pub fn copied(bytes: &[u8], from: usize, to: usize) -> (r: Vec<u8>)
    requires
        from <= to <= bytes@.len(),
    ensures
        r@ == bytes@.subrange(from as int, to as int),
{
    let mut out: Vec<u8> = Vec::new();
    put(&mut out, slice_subrange(bytes, from, to));
    assert(out@ =~= bytes@.subrange(from as int, to as int));
    out
}

/// Whether two runs of bytes are the same.
pub fn alike(a: &[u8], b: &[u8]) -> (r: bool)
    ensures
        r == (a@ == b@),
{
    if a.len() != b.len() {
        return false;
    }
    let mut i: usize = 0;
    while i < a.len()
        invariant
            i <= a@.len(),
            a@.len() == b@.len(),
            forall|j: int| 0 <= j < i ==> a@[j] == b@[j],
        decreases a@.len() - i,
    {
        if a[i] != b[i] {
            return false;
        }
        i += 1;
    }
    assert(a@ =~= b@);
    true
}

/// A number below 65536 is read back from its two bytes.
pub proof fn lemma_be16(n: nat)
    ensures
        be16(n).len() == 2,
        word(be16(n)[0], be16(n)[1]) == n % 65536,
{
    assert(((n / 256) % 256) * 256 + n % 256 == n % 65536) by (nonlinear_arith);
}

/// Numbers on the wire are read back from their bytes.
pub proof fn numbers_on_the_wire_are_read_back(n: nat)
    ensures
        n < 65536 ==> be16(n).len() == 2 && be16(n)[0] * 256 + be16(n)[1] == n,
        n < 16777216 ==> be24(n).len() == 3 && be24(n)[0] * 65536 + be24(n)[1] * 256 + be24(n)[2]
            == n,
        n < 65536 ==> word(be16(n)[0], be16(n)[1]) == n,
{
    assert(n < 65536 ==> (n / 256) % 256 == n / 256);
    assert(n < 16777216 ==> (n / 65536) % 256 == n / 65536);
    assert((n / 256) / 256 == n / 65536);
    assert((n / 256) == 256 * ((n / 256) / 256) + (n / 256) % 256);
    assert(n == 256 * (n / 256) + n % 256);
}

} // verus!
