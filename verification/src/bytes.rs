//! Runs of bytes, and whole numbers in them with the most significant byte first.
use vstd::prelude::*;

verus! {

/// Appends the bytes.
pub fn extend(out: &mut Vec<u8>, more: &[u8])
    ensures
        final(out)@ == old(out)@ + more@,
{
    out.extend_from_slice(more);
    assert(out@ =~= old(out)@ + more@);
}

/// The bytes from one place up to another.
pub fn part(bytes: &[u8], from: usize, to: usize) -> (part: &[u8])
    requires
        from <= to <= bytes@.len(),
    ensures
        part@ == bytes@.subrange(from as int, to as int),
{
    vstd::slice::slice_subrange(bytes, from, to)
}

/// A copy of the bytes.
pub fn copy(bytes: &[u8]) -> (copy: Vec<u8>)
    ensures
        copy@ == bytes@,
{
    let mut copy: Vec<u8> = Vec::new();
    extend(&mut copy, bytes);
    assert(copy@ =~= bytes@);
    copy
}

/// The number that four bytes spell, the most significant first.
pub open spec fn be32_value(bytes: Seq<u8>) -> nat {
    (bytes[0] as nat) * 0x1000000 + (bytes[1] as nat) * 0x10000 + (bytes[2] as nat) * 0x100
        + bytes[3] as nat
}

/// A number in four bytes, the most significant first.
pub open spec fn be32_bytes(number: u32) -> Seq<u8> {
    seq![
        (number / 0x1000000) as u8,
        (number / 0x10000 % 0x100) as u8,
        (number / 0x100 % 0x100) as u8,
        (number % 0x100) as u8,
    ]
}

/// Four bytes that were made of a number spell that number.
pub proof fn lemma_be32_round_trip(number: u32)
    ensures
        be32_bytes(number).len() == 4,
        be32_value(be32_bytes(number)) == number,
{
    assert(number / 0x1000000 < 0x100) by (bit_vector);
    assert(number == number / 0x1000000 * 0x1000000 + number / 0x10000 % 0x100 * 0x10000 + number
        / 0x100 % 0x100 * 0x100 + number % 0x100) by (bit_vector);
}

/// The number that the four bytes at a place spell, the most significant first.
pub fn be32_at(bytes: &[u8], at: usize) -> (number: u32)
    requires
        at + 4 <= bytes@.len(),
    ensures
        number == be32_value(bytes@.subrange(at as int, at + 4)),
{
    let len = bytes.len();
    (bytes[at] as u32) * 0x1000000 + (bytes[at + 1] as u32) * 0x10000 + (bytes[at + 2] as u32)
        * 0x100 + bytes[at + 3] as u32
}

/// Appends the number in four bytes, the most significant first.
pub fn push_be32(out: &mut Vec<u8>, number: u32)
    ensures
        final(out)@ == old(out)@ + be32_bytes(number),
{
    out.push((number / 0x1000000) as u8);
    out.push((number / 0x10000 % 0x100) as u8);
    out.push((number / 0x100 % 0x100) as u8);
    out.push((number % 0x100) as u8);
    assert(out@ =~= old(out)@ + be32_bytes(number));
}

/// The order of byte runs, first difference first.
pub open spec fn bytes_le(a: Seq<u8>, b: Seq<u8>) -> bool
    decreases a.len(),
{
    if a.len() == 0 {
        true
    } else if b.len() == 0 {
        false
    } else if a[0] != b[0] {
        a[0] < b[0]
    } else {
        bytes_le(a.drop_first(), b.drop_first())
    }
}

/// Two byte runs stand in order one way round or the other, and both ways only where they are the
/// same.
pub proof fn lemma_bytes_le_total(a: Seq<u8>, b: Seq<u8>)
    ensures
        bytes_le(a, b) || bytes_le(b, a),
        bytes_le(a, b) && bytes_le(b, a) ==> a == b,
    decreases a.len(),
{
    if a.len() > 0 && b.len() > 0 && a[0] == b[0] {
        lemma_bytes_le_total(a.drop_first(), b.drop_first());
        if bytes_le(a, b) && bytes_le(b, a) {
            assert(a =~= seq![a[0]] + a.drop_first());
            assert(b =~= seq![b[0]] + b.drop_first());
        }
    } else if a.len() == 0 && b.len() == 0 {
        assert(a =~= b);
    }
}

/// Tells whether the first byte run stands before the second or is the same.
pub fn not_after(a: &[u8], b: &[u8]) -> (le: bool)
    ensures
        le == bytes_le(a@, b@),
{
    let mut i: usize = 0;
    assert(a@.skip(0) =~= a@);
    assert(b@.skip(0) =~= b@);
    while i < a.len()
        invariant
            i <= a@.len(),
            i <= b@.len(),
            bytes_le(a@.skip(i as int), b@.skip(i as int)) == bytes_le(a@, b@),
        decreases a@.len() - i,
    {
        if i == b.len() {
            return false;
        }
        if a[i] != b[i] {
            return a[i] < b[i];
        }
        assert(a@.skip(i as int).drop_first() =~= a@.skip(i + 1));
        assert(b@.skip(i as int).drop_first() =~= b@.skip(i + 1));
        i += 1;
    }
    true
}

/// A number in eight bytes, the most significant first.
pub open spec fn be64_bytes(number: u64) -> Seq<u8> {
    be32_bytes((number / 0x1_0000_0000) as u32) + be32_bytes((number % 0x1_0000_0000) as u32)
}

/// Appends the number in eight bytes, the most significant first.
pub fn push_be64(out: &mut Vec<u8>, number: u64)
    ensures
        final(out)@ == old(out)@ + be64_bytes(number),
{
    push_be32(out, (number / 0x1_0000_0000) as u32);
    push_be32(out, (number % 0x1_0000_0000) as u32);
    assert(out@ =~= old(out)@ + be64_bytes(number));
}

/// Of two byte runs the first stands before the second where, at the first place at which they
/// differ, its byte is the lesser or it is at its end; the second then stands before the first only
/// where both are the same.
pub proof fn law_order(a: Seq<u8>, b: Seq<u8>, place: int)
    requires
        0 <= place <= a.len(),
        place <= b.len(),
        forall|i: int| 0 <= i < place ==> a[i] == b[i],
        place == a.len() || (place < b.len() && a[place] < b[place]),
    ensures
        bytes_le(a, b),
        bytes_le(b, a) <==> a == b,
    decreases place,
{
    lemma_bytes_le_total(a, b);
    if place > 0 {
        assert forall|i: int| 0 <= i < place - 1 implies a.drop_first()[i] == b.drop_first()[i] by {
            assert(a[i + 1] == b[i + 1]);
        }
        law_order(a.drop_first(), b.drop_first(), place - 1);
    }
}

/// A number in four bytes goes by its value: each byte weighs 256 times the next.
pub proof fn law_be32(number: u32, bytes: Seq<u8>)
    requires
        bytes.len() == 4,
    ensures
        be32_bytes(number) == bytes <==> number == ((bytes[0] * 256 + bytes[1]) * 256 + bytes[2])
            * 256 + bytes[3],
        be32_value(bytes) == ((bytes[0] * 256 + bytes[1]) * 256 + bytes[2]) * 256 + bytes[3],
{
    lemma_be32_round_trip(number);
    let value = ((bytes[0] * 256 + bytes[1]) * 256 + bytes[2]) * 256 + bytes[3];
    if number == value {
        let (a, b, c, d) = (bytes[0] as u32, bytes[1] as u32, bytes[2] as u32, bytes[3] as u32);
        assert(number / 0x1000000 == a && number / 0x10000 % 0x100 == b && number / 0x100 % 0x100
            == c && number % 0x100 == d) by (nonlinear_arith)
            requires
                number == ((a * 256 + b) * 256 + c) * 256 + d,
                a < 256,
                b < 256,
                c < 256,
                d < 256,
        ;
        assert(be32_bytes(number) =~= bytes);
    }
}

/// A number in eight bytes goes by its value: the first four weigh 2^32 times the last four.
pub proof fn law_be64(number: u64)
    ensures
        be64_bytes(number).len() == 8,
        number == be32_value(be64_bytes(number).take(4)) * 0x1_0000_0000 + be32_value(
            be64_bytes(number).skip(4),
        ),
{
    let high = (number / 0x1_0000_0000) as u32;
    let low = (number % 0x1_0000_0000) as u32;
    lemma_be32_round_trip(high);
    lemma_be32_round_trip(low);
    assert(be64_bytes(number).take(4) =~= be32_bytes(high));
    assert(be64_bytes(number).skip(4) =~= be32_bytes(low));
    assert(number / 0x1_0000_0000 <= 0xffff_ffff) by (bit_vector);
}

} // verus!
