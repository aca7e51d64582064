use vstd::prelude::*;
use vstd::std_specs::iter::IteratorSpec;

verus! {

/// The polynomial that is folded in whenever a one is shifted out.
pub const POLYNOMIAL: u8 = 0x8C;

/// The checksum after bit `bit` of `byte` has been taken into `crc`.
pub open spec fn crc8_bit(crc: u8, byte: u8, bit: u8) -> u8 {
    if (crc ^ (byte >> bit)) & 0x01 != 0 {
        (crc >> 1) ^ POLYNOMIAL
    } else {
        crc >> 1
    }
}

/// The checksum after the bits of `byte` below `bits` have been taken into
/// `crc`, least significant bit first.
pub open spec fn crc8_bits(crc: u8, byte: u8, bits: nat) -> u8
    decreases bits,
{
    if bits == 0 {
        crc
    } else {
        crc8_bit(crc8_bits(crc, byte, (bits - 1) as nat), byte, (bits - 1) as u8)
    }
}

/// The checksum after all eight bits of `byte` have been taken into `crc`.
pub open spec fn crc8_byte(crc: u8, byte: u8) -> u8 {
    crc8_bits(crc, byte, 8)
}

/// The checksum after every byte of `bytes` has been taken into `crc`, in order.
pub open spec fn crc8_fold(crc: u8, bytes: Seq<u8>) -> u8
    decreases bytes.len(),
{
    if bytes.len() == 0 {
        crc
    } else {
        crc8_byte(crc8_fold(crc, bytes.drop_last()), bytes.last())
    }
}

/// The CRC8 of `bytes`: the fold from an accumulator of zero.
pub open spec fn crc8_of(bytes: Seq<u8>) -> u8 {
    crc8_fold(0, bytes)
}

/// `crc8_byte` written out bit by bit.
spec fn crc8_byte_unrolled(crc: u8, byte: u8) -> u8 {
    let c1 = crc8_bit(crc, byte, 0);
    let c2 = crc8_bit(c1, byte, 1);
    let c3 = crc8_bit(c2, byte, 2);
    let c4 = crc8_bit(c3, byte, 3);
    let c5 = crc8_bit(c4, byte, 4);
    let c6 = crc8_bit(c5, byte, 5);
    let c7 = crc8_bit(c6, byte, 6);
    crc8_bit(c7, byte, 7)
}

proof fn lemma_crc8_byte_unrolled(crc: u8, byte: u8)
    ensures
        crc8_byte(crc, byte) == crc8_byte_unrolled(crc, byte),
{
    reveal_with_fuel(crc8_bits, 9);
}

/// Taking a byte into two different checksums gives two different
/// checksums, and so does taking two different bytes into one checksum.
pub proof fn lemma_crc8_byte_injective(crc_a: u8, byte_a: u8, crc_b: u8, byte_b: u8)
    ensures
        byte_a == byte_b && crc_a != crc_b ==> crc8_byte(crc_a, byte_a) != crc8_byte(crc_b, byte_b),
        crc_a == crc_b && byte_a != byte_b ==> crc8_byte(crc_a, byte_a) != crc8_byte(crc_b, byte_b),
{
    lemma_crc8_byte_unrolled(crc_a, byte_a);
    lemma_crc8_byte_unrolled(crc_b, byte_b);
    assert(byte_a == byte_b && crc_a != crc_b ==> crc8_byte_unrolled(crc_a, byte_a)
        != crc8_byte_unrolled(crc_b, byte_b)) by (bit_vector);
    assert(crc_a == crc_b && byte_a != byte_b ==> crc8_byte_unrolled(crc_a, byte_a)
        != crc8_byte_unrolled(crc_b, byte_b)) by (bit_vector);
}

/// Folding the same bytes into two different checksums gives two different
/// checksums.
pub proof fn lemma_crc8_fold_injective(crc_a: u8, crc_b: u8, bytes: Seq<u8>)
    requires
        crc_a != crc_b,
    ensures
        crc8_fold(crc_a, bytes) != crc8_fold(crc_b, bytes),
    decreases bytes.len(),
{
    if bytes.len() > 0 {
        lemma_crc8_fold_injective(crc_a, crc_b, bytes.drop_last());
        lemma_crc8_byte_injective(
            crc8_fold(crc_a, bytes.drop_last()),
            bytes.last(),
            crc8_fold(crc_b, bytes.drop_last()),
            bytes.last(),
        );
    }
}

/// Folding `head + tail` is folding `tail` into the fold of `head`.
pub proof fn lemma_crc8_fold_concat(crc: u8, head: Seq<u8>, tail: Seq<u8>)
    ensures
        crc8_fold(crc, head + tail) == crc8_fold(crc8_fold(crc, head), tail),
    decreases tail.len(),
{
    if tail.len() == 0 {
        assert(head + tail =~= head);
    } else {
        assert((head + tail).drop_last() =~= head + tail.drop_last());
        lemma_crc8_fold_concat(crc, head, tail.drop_last());
    }
}

/// Changing one byte of a byte string changes its CRC8.
pub proof fn lemma_crc8_detects_byte_change(bytes: Seq<u8>, at: int, other: u8)
    requires
        0 <= at < bytes.len(),
        other != bytes[at],
    ensures
        crc8_of(bytes.update(at, other)) != crc8_of(bytes),
{
    let head = bytes.take(at);
    let tail = bytes.skip(at + 1);
    let changed = bytes.update(at, other);
    assert(bytes =~= head.push(bytes[at]) + tail);
    assert(changed =~= head.push(other) + tail);
    assert(head.push(bytes[at]).drop_last() =~= head);
    assert(head.push(other).drop_last() =~= head);
    lemma_crc8_byte_injective(crc8_fold(0, head), bytes[at], crc8_fold(0, head), other);
    lemma_crc8_fold_concat(0, head.push(bytes[at]), tail);
    lemma_crc8_fold_concat(0, head.push(other), tail);
    lemma_crc8_fold_injective(
        crc8_fold(0, head.push(bytes[at])),
        crc8_fold(0, head.push(other)),
        tail,
    );
}

/// Takes one byte into a running checksum.
pub fn crc8_update(crc: u8, byte: u8) -> (next: u8)
    ensures
        next == crc8_byte(crc, byte),
{
    let mut acc: u8 = crc;
    let mut bit: u8 = 0;
    while bit < 8
        invariant
            bit <= 8,
            acc == crc8_bits(crc, byte, bit as nat),
        decreases 8 - bit,
    {
        let sum: u8 = (acc ^ (byte >> bit)) & 0x01;
        acc = acc >> 1;
        if sum != 0 {
            acc = acc ^ POLYNOMIAL;
        }
        bit = bit + 1;
    }
    acc
}

/// The CRC8 of the bytes that an iterator yields, in the order it yields
/// them. The iterator has to come to an end.
pub fn crc8<I: Iterator<Item = u8>>(input: I) -> (crc: u8)
    requires
        input.obeys_prophetic_iter_laws(),
        input.decrease() is Some,
    ensures
        crc == crc8_of(input.remaining()),
{
    let ghost all = input.remaining();
    let mut rest = input;
    let mut crc: u8 = 0;
    let ghost mut taken: Seq<u8> = Seq::empty();
    loop
        invariant
            rest.obeys_prophetic_iter_laws(),
            rest.decrease() is Some,
            taken + rest.remaining() == all,
            crc == crc8_of(taken),
        ensures
            crc == crc8_of(all),
        decreases rest.decrease()->0,
    {
        let ghost before = rest.remaining();
        match rest.next() {
            Some(byte) => {
                proof {
                    assert(taken.push(byte).drop_last() =~= taken);
                    assert(taken.push(byte) + before.drop_first() =~= taken + before);
                    taken = taken.push(byte);
                }
                crc = crc8_update(crc, byte);
            },
            None => {
                proof {
                    assert(taken + before =~= taken);
                }
                break;
            },
        }
    }
    crc
}

/// The CRC8 of a byte slice.
pub fn crc8_slice(input: &[u8]) -> (crc: u8)
    ensures
        crc == crc8_of(input@),
{
    let mut crc: u8 = 0;
    let mut i: usize = 0;
    while i < input.len()
        invariant
            i <= input.len(),
            crc == crc8_of(input@.take(i as int)),
        decreases input.len() - i,
    {
        assert(input@.take(i as int + 1).drop_last() =~= input@.take(i as int));
        crc = crc8_update(crc, input[i]);
        i = i + 1;
    }
    assert(input@.take(i as int) =~= input@);
    crc
}

} // verus!
