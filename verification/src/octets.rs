//! Numbers and texts in octets.
use vstd::prelude::*;

verus! {

/// The number whose octets are `octets`, most significant first.
pub open spec fn big_endian(octets: Seq<u8>) -> nat
    decreases octets.len(),
{
    if octets.len() == 0 {
        0
    } else {
        big_endian(octets.drop_last()) * 256 + octets.last() as nat
    }
}

/// The big-endian number in `length` octets of `octets` from `start` on.
pub open spec fn big_endian_at(octets: Seq<u8>, start: int, length: int) -> nat {
    big_endian(octets.subrange(start, start + length))
}

proof fn lemma_big_endian_push(octets: Seq<u8>, start: int, length: int)
    requires
        0 <= start,
        0 <= length,
        start + length < octets.len(),
    ensures
        big_endian_at(octets, start, length + 1) == big_endian_at(octets, start, length) * 256
            + octets[start + length],
{
    let longer = octets.subrange(start, start + length + 1);
    assert(longer.drop_last() =~= octets.subrange(start, start + length));
    assert(longer.last() == octets[start + length]);
}

/// The two octets of `octets` from `start` on, as a number.
pub fn be_u16(octets: &[u8], start: usize) -> (number: u16)
    requires
        start + 2 <= octets@.len(),
    ensures
        number == big_endian_at(octets@, start as int, 2),
{
    proof {
        assert(big_endian_at(octets@, start as int, 0) == 0);
        lemma_big_endian_push(octets@, start as int, 0);
        lemma_big_endian_push(octets@, start as int, 1);
    }
    (octets[start] as u16) * 256 + octets[start + 1] as u16
}

/// The four octets of `octets` from `start` on, as a number.
pub fn be_u32(octets: &[u8], start: usize) -> (number: u32)
    requires
        start + 4 <= octets@.len(),
    ensures
        number == big_endian_at(octets@, start as int, 4),
{
    proof {
        assert(big_endian_at(octets@, start as int, 0) == 0);
        lemma_big_endian_push(octets@, start as int, 0);
        lemma_big_endian_push(octets@, start as int, 1);
        lemma_big_endian_push(octets@, start as int, 2);
        lemma_big_endian_push(octets@, start as int, 3);
    }
    (octets[start] as u32) * 0x100_0000 + (octets[start + 1] as u32) * 0x1_0000 + (octets[start + 2]
        as u32) * 0x100 + octets[start + 3] as u32
}

/// `256` to the power of `exponent`.
pub open spec fn octet_power(exponent: nat) -> nat
    decreases exponent,
{
    if exponent == 0 {
        1
    } else {
        octet_power((exponent - 1) as nat) * 256
    }
}

/// A number of so many octets is below the power of `256` with that exponent.
pub proof fn lemma_big_endian_bound(octets: Seq<u8>)
    ensures
        big_endian(octets) < octet_power(octets.len()),
    decreases octets.len(),
{
    if octets.len() > 0 {
        lemma_big_endian_bound(octets.drop_last());
    }
}

/// Octets that are put behind others move those up.
pub proof fn lemma_big_endian_concat(high: Seq<u8>, low: Seq<u8>)
    ensures
        big_endian(high + low) == big_endian(high) * octet_power(low.len()) + big_endian(low),
    decreases low.len(),
{
    if low.len() == 0 {
        assert(high + low =~= high);
        assert(octet_power(low.len()) == 1);
        assert(big_endian(high) * octet_power(low.len()) == big_endian(high));
    } else {
        let shorter = low.drop_last();
        lemma_big_endian_concat(high, shorter);
        assert((high + low).drop_last() =~= high + shorter);
        assert((big_endian(high) * octet_power(shorter.len()) + big_endian(shorter)) * 256
            == big_endian(high) * (octet_power(shorter.len()) * 256) + big_endian(shorter) * 256)
            by (nonlinear_arith);
        assert(big_endian(high + low) == big_endian(high + shorter) * 256 + low.last() as nat);
        assert(octet_power(low.len()) == octet_power(shorter.len()) * 256);
        assert(big_endian(high) * octet_power(low.len()) == big_endian(high) * (octet_power(
            shorter.len(),
        ) * 256));
        assert(big_endian(low) == big_endian(shorter) * 256 + low.last() as nat);
    }
}

/// The sixteen octets of `octets` from `start` on, as a number.
pub fn be_u128(octets: &[u8], start: usize) -> (number: u128)
    requires
        start + 16 <= octets@.len(),
    ensures
        number == big_endian_at(octets@, start as int, 16),
{
    let mut number: u128 = 0;
    let mut read: usize = 0;
    while read < 16
        invariant
            read <= 16,
            start + 16 <= octets@.len() == octets.len(),
            number == big_endian_at(octets@, start as int, read as int),
        decreases 16 - read,
    {
        proof {
            lemma_big_endian_push(octets@, start as int, read as int);
            lemma_big_endian_bound(octets@.subrange(start as int, start + read));
            reveal_with_fuel(octet_power, 17);
            lemma_octet_power_grows(read as nat, 15);
        }
        number = number * 256 + octets[start + read] as u128;
        read = read + 1;
    }
    number
}

proof fn lemma_octet_power_grows(lower: nat, upper: nat)
    requires
        lower <= upper,
    ensures
        octet_power(lower) <= octet_power(upper),
    decreases upper - lower,
{
    if lower < upper {
        lemma_octet_power_grows(lower + 1, upper);
    }
}

/// What `u32::from_ne_bytes` makes of four octets on the machine at hand. It is a relation: machines
/// differ in the order in which they read octets.
pub uninterp spec fn native_reading(octets: Seq<u8>, number: u32) -> bool;

/// `u32::from_ne_bytes` reads four octets in the order of the machine, which is either the
/// network order or its reverse.
#[verifier::external_body]
pub(crate) fn native_u32(octets: [u8; 4]) -> (number: u32)
    ensures
        native_reading(octets@, number),
        number == big_endian(octets@) || number == big_endian(octets@.reverse()),
{
    u32::from_ne_bytes(octets)
}

/// Whether the machine at hand reads the octet that counts least first, or last.
pub open spec fn is_native(little: bool) -> bool {
    native_reading(
        seq![1, 0, 0, 0],
        if little {
            1
        } else {
            0x100_0000
        },
    )
}

/// Whether the machine at hand reads the octet that counts least first.
pub fn native_is_little() -> (little: bool)
    ensures
        is_native(little),
{
    let octets: [u8; 4] = [1, 0, 0, 0];
    let number: u32 = native_u32(octets);
    proof {
        let listed: Seq<u8> = seq![1, 0, 0, 0];
        let turned: Seq<u8> = seq![0, 0, 0, 1];
        assert(octets@ =~= listed);
        assert(listed.reverse() =~= turned);
        reveal_with_fuel(big_endian, 5);
        assert(listed.drop_last() =~= seq![1u8, 0, 0]);
        assert(seq![1u8, 0, 0].drop_last() =~= seq![1u8, 0]);
        assert(seq![1u8, 0].drop_last() =~= seq![1u8]);
        assert(seq![1u8].drop_last() =~= Seq::<u8>::empty());
        assert(turned.drop_last() =~= seq![0u8, 0, 0]);
        assert(seq![0u8, 0, 0].drop_last() =~= seq![0u8, 0]);
        assert(seq![0u8, 0].drop_last() =~= seq![0u8]);
        assert(seq![0u8].drop_last() =~= Seq::<u8>::empty());
        assert(big_endian(listed) == 0x100_0000);
        assert(big_endian(turned) == 1);
    }
    number == 1
}

/// Whether octets start with those of a text.
pub open spec fn starts_with_text(octets: Seq<u8>, text: Seq<char>) -> bool {
    vstd::utf8::encode_utf8(text).is_prefix_of(octets)
}

/// Whether octets start with those of a text.
pub fn starts_with(octets: &[u8], text: &str) -> (starts: bool)
    ensures
        starts == starts_with_text(octets@, text@),
{
    let prefix = text.as_bytes();
    if octets.len() < prefix.len() {
        return false;
    }
    let mut index: usize = 0;
    while index < prefix.len()
        invariant
            index <= prefix.len() <= octets.len(),
            prefix@ == vstd::utf8::encode_utf8(text@),
            forall|earlier: int|
                0 <= earlier < index ==> #[trigger] prefix@[earlier] == octets@[earlier],
        decreases prefix.len() - index,
    {
        if octets[index] != prefix[index] {
            assert(prefix@[index as int] != octets@.take(prefix.len() as int)[index as int]);
            return false;
        }
        index = index + 1;
    }
    assert(octets@.take(prefix.len() as int) =~= prefix@);
    true
}

} // verus!
