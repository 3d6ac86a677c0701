//! How EVM values are written: addresses in their checksummed form, 256-bit
//! numbers in decimal, bytes in lowercase hexadecimal.

use vstd::prelude::*;

use crate::arena::{Address, U256};
use crate::text::{decimal, push_char};

verus! {

/// The EIP-55 checksummed form of an address (`0x` and forty hex digits
/// whose letter case is taken from the Keccak-256 hash of the lowercase form).
pub uninterp spec fn checksummed(address: Seq<u8>) -> Seq<char>;

/// Writes an address in its EIP-55 checksummed form, as
/// `alloy_primitives::Address::to_checksum(None)` does (which is also how
/// the address displays). The contract names the result only; nothing is
/// claimed of its characters.
#[verifier::external_body]
pub(crate) fn address_to_checksum(address: &Address) -> (r: String)
    ensures
        r@ == checksummed(address@),
{
    alloy_primitives::Address::from(*address).to_checksum(None)
}

/// The number that four little-endian 64-bit limbs stand for.
pub open spec fn u256_value(limbs: U256) -> nat {
    limbs[0] as nat + limbs[1] as nat * 0x1_0000_0000_0000_0000 + limbs[2] as nat
        * 0x1_0000_0000_0000_0000_0000_0000_0000_0000 + limbs[3] as nat
        * 0x1_0000_0000_0000_0000_0000_0000_0000_0000_0000_0000_0000_0000
}

/// Writes a 256-bit number in decimal, as the `Display` of
/// `alloy_primitives::U256` (built from the same limbs) does.
#[verifier::external_body]
pub(crate) fn u256_to_decimal(value: &U256) -> (r: String)
    ensures
        r@ == decimal(u256_value(*value)),
{
    alloy_primitives::U256::from_limbs(*value).to_string()
}

/// Whether a 256-bit number is zero.
pub fn u256_is_zero(value: &U256) -> (r: bool)
    ensures
        r == (u256_value(*value) == 0),
{
    value[0] == 0 && value[1] == 0 && value[2] == 0 && value[3] == 0
}

/// The lowercase hexadecimal digit of a value below 16.
pub open spec fn hex_digit(d: nat) -> char {
    if d < 10 {
        (d + 48) as char
    } else {
        (d + 87) as char
    }
}

/// Bytes in lowercase hexadecimal, two digits per byte.
pub open spec fn hex_of(bytes: Seq<u8>) -> Seq<char>
    decreases bytes.len(),
{
    if bytes.len() == 0 {
        seq![]
    } else {
        hex_of(bytes.drop_last()) + seq![
            hex_digit(bytes.last() as nat / 16),
            hex_digit(bytes.last() as nat % 16),
        ]
    }
}

/// Bytes in hex are two digits per byte, in order: the byte's high nibble,
/// then its low nibble, each a digit `0`-`9` or a lowercase `a`-`f`.
pub proof fn law_hex_of(bytes: Seq<u8>)
    ensures
        hex_of(bytes).len() == 2 * bytes.len(),
        forall|i: int|
            0 <= i < bytes.len() ==> hex_of(bytes)[2 * i] == hex_digit(#[trigger] bytes[i] as nat / 16)
                && hex_of(bytes)[2 * i + 1] == hex_digit(bytes[i] as nat % 16),
        forall|d: nat|
            d < 16 ==> (#[trigger] hex_digit(d) == if d < 10 {
                ('0' as nat + d) as char
            } else {
                ('a' as nat + d - 10) as char
            }),
    decreases bytes.len(),
{
    if bytes.len() > 0 {
        law_hex_of(bytes.drop_last());
        let h = hex_of(bytes.drop_last());
        assert forall|i: int| 0 <= i < bytes.len() implies hex_of(bytes)[2 * i] == hex_digit(
            #[trigger] bytes[i] as nat / 16,
        ) && hex_of(bytes)[2 * i + 1] == hex_digit(bytes[i] as nat % 16) by {
            if i < bytes.len() - 1 {
                assert(bytes.drop_last()[i] == bytes[i]);
            }
        }
    }
}

/// The lowercase hexadecimal digit of a value below 16.
fn hex_char(d: u8) -> (c: char)
    requires
        d < 16,
    ensures
        c == hex_digit(d as nat),
{
    if d < 10 {
        (48u8 + d) as char
    } else {
        (87u8 + d) as char
    }
}

/// Appends the bytes `from..to` in lowercase hexadecimal.
pub fn push_hex_range(s: &mut String, bytes: &[u8], from: usize, to: usize)
    requires
        from <= to <= bytes@.len(),
    ensures
        final(s)@ == old(s)@ + hex_of(bytes@.subrange(from as int, to as int)),
{
    let ghost start = s@;
    let mut i: usize = from;
    while i < to
        invariant
            from <= i <= to <= bytes@.len(),
            s@ == start + hex_of(bytes@.subrange(from as int, i as int)),
        decreases to - i,
    {
        proof {
            assert(bytes@.subrange(from as int, i + 1).drop_last() =~= bytes@.subrange(
                from as int,
                i as int,
            ));
        }
        let b = bytes[i];
        push_char(s, hex_char(b / 16));
        push_char(s, hex_char(b % 16));
        i = i + 1;
        proof {
            assert(s@ =~= start + hex_of(bytes@.subrange(from as int, i as int)));
        }
    }
}

/// Appends bytes in lowercase hexadecimal.
pub fn push_hex(s: &mut String, bytes: &[u8])
    ensures
        final(s)@ == old(s)@ + hex_of(bytes@),
{
    push_hex_range(s, bytes, 0, bytes.len());
    proof {
        assert(bytes@.subrange(0, bytes@.len() as int) =~= bytes@);
    }
}

/// Bytes in lowercase hexadecimal (`hex::encode`).
pub fn hex_encode(bytes: &[u8]) -> (r: String)
    ensures
        r@ == hex_of(bytes@),
{
    let mut s = String::new();
    push_hex(&mut s, bytes);
    s
}

/// Bytes as `0x` and lowercase hexadecimal, the way `Bytes` and fixed-size
/// byte strings display.
pub fn hex_prefixed(bytes: &[u8]) -> (r: String)
    ensures
        r@ == seq!['0', 'x'] + hex_of(bytes@),
{
    let mut s = String::new();
    push_char(&mut s, '0');
    push_char(&mut s, 'x');
    push_hex(&mut s, bytes);
    s
}

} // verus!
