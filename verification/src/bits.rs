//! Bits packed into bytes, eight at a time.

use vstd::prelude::*;

verus! {

/// The number whose binary digits are given, lowest first.
pub open spec fn bits_value(bits: Seq<bool>) -> nat
    decreases bits.len(),
{
    if bits.len() == 0 {
        0
    } else {
        (if bits[0] {
            1nat
        } else {
            0nat
        }) + 2 * bits_value(bits.drop_first())
    }
}

/// The binary digit of a number at the given place, counted from the lowest.
pub open spec fn bit_of(n: nat, place: nat) -> bool
    decreases place,
{
    if place == 0 {
        n % 2 == 1
    } else {
        bit_of(n / 2, (place - 1) as nat)
    }
}

/// The eight bits from place `8 * i` on, or as many as there are.
pub open spec fn chunk(bits: Seq<bool>, i: int) -> Seq<bool> {
    bits.subrange(
        8 * i,
        if 8 * i + 8 <= bits.len() {
            8 * i + 8
        } else {
            bits.len() as int
        },
    )
}

/// The bytes into which bits are packed, eight at a time, lowest bit first.
pub open spec fn packed(bits: Seq<bool>) -> Seq<u8> {
    Seq::new((bits.len() + 7) as nat / 8, |i: int| bits_value(chunk(bits, i)) as u8)
}

/// The first `n` bits of some bytes.
pub open spec fn unpacked(bytes: Seq<u8>, n: nat) -> Seq<bool> {
    Seq::new(n, |i: int| bit_of(bytes[i / 8] as nat, (i % 8) as nat))
}

/// Eight bits are less than 256.
proof fn lemma_bits_value(bits: Seq<bool>)
    ensures
        bits.len() <= 8 ==> bits_value(bits) < 256,
        bits.len() <= 7 ==> bits_value(bits) < 128,
        bits.len() <= 6 ==> bits_value(bits) < 64,
        bits.len() <= 5 ==> bits_value(bits) < 32,
        bits.len() <= 4 ==> bits_value(bits) < 16,
        bits.len() <= 3 ==> bits_value(bits) < 8,
        bits.len() <= 2 ==> bits_value(bits) < 4,
        bits.len() <= 1 ==> bits_value(bits) < 2,
        bits.len() == 0 ==> bits_value(bits) == 0,
    decreases bits.len(),
{
    if bits.len() > 0 {
        lemma_bits_value(bits.drop_first());
    }
}

/// The bits of a number are those that it was made of.
proof fn lemma_bit_of_value(bits: Seq<bool>, i: int)
    requires
        0 <= i < bits.len(),
    ensures
        bit_of(bits_value(bits), i as nat) == bits[i],
    decreases bits.len(),
{
    let rest = bits.drop_first();
    if i > 0 {
        lemma_bit_of_value(rest, i - 1);
        assert(bits_value(bits) / 2 == bits_value(rest));
    }
}

/// What is packed can be unpacked.
pub proof fn lemma_packed_round_trip(bits: Seq<bool>)
    ensures
        unpacked(packed(bits), bits.len()) == bits,
{
    assert forall|i: int| 0 <= i < bits.len() implies unpacked(packed(bits), bits.len())[i]
        == bits[i] by {
        let c = chunk(bits, i / 8);
        lemma_bits_value(c);
        lemma_bit_of_value(c, i % 8);
        assert(c[i % 8] == bits[i]);
    }
    assert(unpacked(packed(bits), bits.len()) =~= bits);
}

/// Packs up to eight bits into a byte, lowest bit first.
pub fn pack(bits: &[bool]) -> (byte: u8)
    requires
        bits@.len() <= 8,
    ensures
        byte == bits_value(bits@),
{
    let mut value: u8 = 0;
    let mut i: usize = bits.len();
    assert(bits@.skip(i as int) =~= seq![]);
    while i > 0
        invariant
            i <= bits@.len() <= 8,
            value == bits_value(bits@.skip(i as int)),
        decreases i,
    {
        proof {
            lemma_bits_value(bits@.skip(i as int));
            lemma_bits_value(bits@.skip(i - 1));
            assert(bits@.skip(i - 1).drop_first() =~= bits@.skip(i as int));
        }
        i = i - 1;
        value = 2 * value + if bits[i] {
            1
        } else {
            0
        };
    }
    assert(bits@.skip(0) =~= bits@);
    value
}

/// Returns a bit of a byte.
fn bit(byte: u8, place: usize) -> (b: bool)
    ensures
        b == bit_of(byte as nat, place as nat),
{
    let mut rest: u8 = byte;
    let mut i: usize = place;
    while i > 0
        invariant
            bit_of(rest as nat, i as nat) == bit_of(byte as nat, place as nat),
        decreases i,
    {
        rest = rest / 2;
        i = i - 1;
    }
    rest % 2 == 1
}

/// Appends bits, packed eight at a time.
pub fn write_bits(writer: &mut Vec<u8>, bits: &Vec<bool>)
    ensures
        final(writer)@ == old(writer)@ + packed(bits@),
{
    let ghost start = writer@;
    let ghost bytes = packed(bits@);
    let len = bits.len();
    let n = len / 8 + if len % 8 == 0 {
        0usize
    } else {
        1usize
    };
    let mut i: usize = 0;
    assert(start =~= start + bytes.take(0));
    while i < n
        invariant
            i <= n,
            n == bytes.len(),
            bytes == packed(bits@),
            len == bits@.len(),
            n == (len + 7) as nat / 8,
            writer@ == start + bytes.take(i as int),
        decreases n - i,
    {
        let from: usize = 8 * i;
        let to: usize = if len - from >= 8 {
            from + 8
        } else {
            len
        };
        let byte = pack(vstd::slice::slice_subrange(bits.as_slice(), from, to));
        writer.push(byte);
        proof {
            assert(bits@.subrange(from as int, to as int) =~= chunk(bits@, i as int));
            assert(writer@ =~= start + bytes.take(i + 1));
        }
        i = i + 1;
    }
    assert(bytes.take(i as int) =~= bytes);
}

/// Returns the first `n` bits of some bytes.
pub fn unpack(bytes: &[u8], n: usize) -> (bits: Vec<bool>)
    requires
        n <= 8 * bytes@.len(),
    ensures
        bits@ == unpacked(bytes@, n as nat),
{
    let mut bits: Vec<bool> = Vec::new();
    let mut i: usize = 0;
    while i < n
        invariant
            i <= n <= 8 * bytes@.len(),
            bits@ == unpacked(bytes@, n as nat).take(i as int),
        decreases n - i,
    {
        bits.push(bit(bytes[i / 8], i % 8));
        i = i + 1;
        assert(bits@ =~= unpacked(bytes@, n as nat).take(i as int));
    }
    assert(bits@ =~= unpacked(bytes@, n as nat));
    bits
}

} // verus!
