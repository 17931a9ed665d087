//! Numbers as bytes.
use byteorder::LittleEndian;
use byteorder::WriteBytesExt;
use vstd::arithmetic::power::*;
use vstd::prelude::*;

verus! {

/// The lowest `width` base-256 digits of a number, the least significant first.
pub open spec fn little_endian(n: nat, width: nat) -> Seq<u8>
    decreases width,
{
    if width == 0 {
        Seq::empty()
    } else {
        seq![(n % 256) as u8] + little_endian(n / 256, (width - 1) as nat)
    }
}

/// The lowest `width` base-256 digits of a number, the most significant first.
pub open spec fn big_endian(n: nat, width: nat) -> Seq<u8> {
    little_endian(n, width).reverse()
}

/// The number whose base-256 digits are given, the least significant first.
pub open spec fn number_of(bytes: Seq<u8>) -> nat
    decreases bytes.len(),
{
    if bytes.len() == 0 {
        0
    } else {
        bytes[0] as nat + 256 * number_of(bytes.drop_first())
    }
}

/// A number that fits comes back from its digits.
pub proof fn law_little_endian_round_trip(n: nat, width: nat)
    requires
        n < pow(256, width),
    ensures
        little_endian(n, width).len() == width,
        number_of(little_endian(n, width)) == n,
    decreases width,
{
    reveal(pow);
    if width > 0 {
        law_little_endian_round_trip(n / 256, (width - 1) as nat);
        let bytes = little_endian(n, width);
        assert(bytes.drop_first() =~= little_endian(n / 256, (width - 1) as nat));
    }
}

/// The number of digits is the width.
pub proof fn lemma_little_endian_len(n: nat, width: nat)
    ensures
        little_endian(n, width).len() == width,
    decreases width,
{
    if width > 0 {
        lemma_little_endian_len(n / 256, (width - 1) as nat);
    }
}

/// Every 64-bit number fits in eight digits, every 128-bit number in sixteen.
pub proof fn lemma_widths()
    ensures
        pow(256, 8) == 0x1_0000_0000_0000_0000,
        pow(256, 16) == 0x1_0000_0000_0000_0000_0000_0000_0000_0000,
{
    assert(pow(256, 8) == 0x1_0000_0000_0000_0000) by {
        reveal_with_fuel(pow, 9);
    }
    lemma_pow_adds(256, 8, 8);
}

/// Appends the eight bytes of a number, the least significant first.
///
/// Calls `write_u64` of `byteorder::WriteBytesExt` with the order
/// `LittleEndian`, which hands the eight bytes of `u64::to_le_bytes` to the
/// writer. The contract claims that a vector, as a writer, takes them all and
/// puts them at its end.
#[verifier::external_body]
pub(crate) fn append_u64(buf: &mut Vec<u8>, value: u64)
    requires
        old(buf)@.len() + 8 <= isize::MAX,
    ensures
        final(buf)@ == old(buf)@ + little_endian(value as nat, 8),
{
    buf.write_u64::<LittleEndian>(value).expect("a vector takes every write");
}

/// Appends the sixteen bytes of a number, the most significant first.
pub(crate) fn append_u128_big_endian(buf: &mut Vec<u8>, value: u128)
    requires
        old(buf)@.len() + 16 <= usize::MAX,
    ensures
        final(buf)@ == old(buf)@ + big_endian(value as nat, 16),
{
    let ghost before = buf@;
    let mut digits: Vec<u8> = Vec::new();
    let mut rest: u128 = value;
    let mut i: usize = 0;
    assert(digits@ + little_endian(value as nat, 16) =~= little_endian(value as nat, 16));
    while i < 16
        invariant
            i <= 16,
            digits@.len() == i,
            digits@ + little_endian(rest as nat, (16 - i) as nat) == little_endian(
                value as nat,
                16,
            ),
        decreases 16 - i,
    {
        let ghost known = digits@;
        let ghost last = rest;
        digits.push((rest % 256) as u8);
        rest = rest / 256;
        i = i + 1;
        assert(known + little_endian(last as nat, (17 - i) as nat) =~= digits@ + little_endian(
            rest as nat,
            (16 - i) as nat,
        ));
    }
    assert(digits@ =~= little_endian(value as nat, 16));
    while i > 0
        invariant
            i <= 16,
            digits@.len() == 16,
            buf@ =~= before + digits@.reverse().take(16 - i),
        decreases i,
    {
        i = i - 1;
        buf.push(digits[i]);
        assert(digits@.reverse().take(16 - i) =~= digits@.reverse().take(15 - i).push(
            digits@[i as int],
        ));
    }
    assert(digits@.reverse().take(16) =~= digits@.reverse());
}

} // verus!
