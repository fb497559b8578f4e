//! Bit fields, most significant bit first.
use symphonia_core::io::{BitReaderLtr, ReadBitsLtr};
use vstd::arithmetic::div_mod::{lemma_div_denominator, lemma_mod_breakdown};
use vstd::arithmetic::power2::{lemma2_to64, lemma_pow2_pos, lemma_pow2_unfold, pow2};
use vstd::prelude::*;

verus! {

/// Bit `i` of `bytes`, counted from the most significant bit of the first byte.
pub open spec fn bit_at(bytes: Seq<u8>, i: int) -> bool {
    (bytes[i / 8] as nat / pow2((7 - i % 8) as nat)) % 2 == 1
}

/// All bits of `bytes`, most significant bit of the first byte first.
pub open spec fn bits_of(bytes: Seq<u8>) -> Seq<bool> {
    Seq::new(8 * bytes.len(), |i: int| bit_at(bytes, i))
}

/// The number that `bits` spell, the first bit being the most significant.
pub open spec fn bits_value(bits: Seq<bool>) -> nat
    decreases bits.len(),
{
    if bits.len() == 0 {
        0
    } else {
        2 * bits_value(bits.drop_last()) + if bits.last() { 1nat } else { 0nat }
    }
}

/// `symphonia_core::io::BitReaderLtr`, a cursor over the bits of a byte slice.
#[verifier::external_type_specification]
#[verifier::external_body]
pub struct ExBitReaderLtr<'a>(BitReaderLtr<'a>);

/// The bits that a `BitReaderLtr` still holds, in the order in which it hands them out.
pub uninterp spec fn unread_bits(reader: BitReaderLtr<'_>) -> Seq<bool>;

/// `BitReaderLtr::new`: a new reader holds all bits of the slice, most significant bit of the
/// first byte first.
#[verifier::external_body]
pub(crate) fn bit_reader<'a>(buf: &'a [u8]) -> (reader: BitReaderLtr<'a>)
    ensures
        unread_bits(reader) == bits_of(buf@),
{
    BitReaderLtr::new(buf)
}

/// `ReadBitsLtr::read_bits_leq32` on a `BitReaderLtr`: takes the next `width` bits out of the
/// reader and returns the number that they spell. The reader must hold that many bits: the call
/// then succeeds.
#[verifier::external_body]
pub(crate) fn read_bits(reader: &mut BitReaderLtr<'_>, width: u32) -> (value: u32)
    requires
        width <= 32,
        width <= unread_bits(*old(reader)).len(),
    ensures
        value == bits_value(unread_bits(*old(reader)).take(width as int)),
        unread_bits(*final(reader)) == unread_bits(*old(reader)).skip(width as int),
{
    reader.read_bits_leq32(width).unwrap()
}

/// `ReadBitsLtr::ignore_bits` on a `BitReaderLtr`: drops the next `width` bits. The reader must
/// hold that many bits: the call then succeeds. A width of 64 can overflow a shift in it.
#[verifier::external_body]
pub(crate) fn ignore_bits(reader: &mut BitReaderLtr<'_>, width: u32)
    requires
        width < 64,
        width <= unread_bits(*old(reader)).len(),
    ensures
        unread_bits(*final(reader)) == unread_bits(*old(reader)).skip(width as int),
{
    reader.ignore_bits(width).unwrap()
}

/// A run of bits is its first part, shifted left by the length of its second part, plus its
/// second part.
pub(crate) proof fn lemma_bits_value_concat(bits: Seq<bool>, a: int, b: int, c: int)
    requires
        0 <= a <= b <= c <= bits.len(),
    ensures
        bits_value(bits.subrange(a, c)) == bits_value(bits.subrange(a, b)) * pow2((c - b) as nat)
            + bits_value(bits.subrange(b, c)),
    decreases c - b,
{
    let low = bits_value(bits.subrange(b, c));
    let high = bits_value(bits.subrange(a, b));
    if b == c {
        lemma2_to64();
        assert(bits.subrange(b, c).len() == 0);
        assert(high * pow2(0) == high) by (nonlinear_arith)
            requires
                pow2(0) == 1,
        ;
    } else {
        lemma_bits_value_concat(bits, a, b, c - 1);
        assert(bits.subrange(a, c).drop_last() =~= bits.subrange(a, c - 1));
        assert(bits.subrange(b, c).drop_last() =~= bits.subrange(b, c - 1));
        lemma_pow2_unfold((c - b) as nat);
        let p = pow2((c - b - 1) as nat);
        assert(2 * (high * p) == high * (2 * p)) by (nonlinear_arith);
    }
}

/// The bits `a` up to `c` of the byte at `q` spell that byte's value without its low `8 - c` bits,
/// reduced to `c - a` bits.
pub(crate) proof fn lemma_bits_value_in_byte(bytes: Seq<u8>, q: int, a: int, c: int)
    requires
        0 <= q < bytes.len(),
        0 <= a <= c <= 8,
    ensures
        bits_value(bits_of(bytes).subrange(8 * q + a, 8 * q + c)) == (bytes[q] as nat / pow2(
            (8 - c) as nat,
        )) % pow2((c - a) as nat),
    decreases c - a,
{
    let bits = bits_of(bytes);
    let x = bytes[q] as nat;
    lemma2_to64();
    if a == c {
        assert(bits.subrange(8 * q + a, 8 * q + c).len() == 0);
    } else {
        lemma_bits_value_in_byte(bytes, q, a, c - 1);
        assert(bits.subrange(8 * q + a, 8 * q + c).drop_last() =~= bits.subrange(
            8 * q + a,
            8 * q + c - 1,
        ));
        let last = 8 * q + c - 1;
        assert(last / 8 == q && last % 8 == c - 1);
        assert(bits.subrange(8 * q + a, 8 * q + c).last() == bit_at(bytes, last));
        let d = pow2((8 - c) as nat);
        let e = pow2((c - a - 1) as nat);
        lemma_pow2_unfold((9 - c) as nat);
        lemma_pow2_unfold((c - a) as nat);
        lemma_pow2_pos((8 - c) as nat);
        lemma_pow2_pos((c - a - 1) as nat);
        let y = x / d;
        assert(x / (2 * d) == y / 2) by {
            lemma_div_denominator(x as int, d as int, 2);
            assert(d * 2 == 2 * d);
        }
        assert(y % (2 * e) == 2 * ((y / 2) % e) + y % 2) by {
            lemma_mod_breakdown(y as int, 2, e as int);
        }
    }
}

} // verus!
