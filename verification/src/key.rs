//! The DES keys of a session.

use vstd::prelude::*;

use crate::error::NewcamdError;

verus! {

use crate::error::ErrorView;

/// `key1` with the bytes of `key2` folded in by exclusive or, one after the
/// other, starting over after fourteen bytes.
pub open spec fn folded(key1: Seq<u8>, key2: Seq<u8>) -> Seq<u8>
    decreases key2.len(),
{
    if key2.len() == 0 {
        key1
    } else {
        let before = folded(key1, key2.drop_last());
        let i = (key2.len() - 1) % 14;
        before.update(i, before[i] ^ key2.last())
    }
}

/// Seven bytes as one number of 56 bits, the first byte uppermost.
pub open spec fn bits_of(half: Seq<u8>) -> u64 {
    bits_of_bytes(half[0], half[1], half[2], half[3], half[4], half[5], half[6])
}

/// Seven bytes as one number of 56 bits, `b0` uppermost.
pub open spec fn bits_of_bytes(
    b0: u8,
    b1: u8,
    b2: u8,
    b3: u8,
    b4: u8,
    b5: u8,
    b6: u8,
) -> u64 {
    ((b0 as u64) << 48) | ((b1 as u64) << 40) | ((b2 as u64) << 32) | ((b3 as u64) << 24) | ((
    b4 as u64) << 16) | ((b5 as u64) << 8) | (b6 as u64)
}

/// The seven bits of a number of 56 bits that start `index` times seven bits
/// below its upper end.
pub open spec fn seven_bits(bits: u64, index: int) -> u8 {
    ((bits >> ((49 - 7 * index) as u64)) & 0x7F) as u8
}

/// How many bits of a byte are set.
pub open spec fn count_ones(byte: u8) -> int {
    byte % 2 + byte / 2 % 2 + byte / 4 % 2 + byte / 8 % 2 + byte / 16 % 2 + byte / 32 % 2 + byte
        / 64 % 2 + byte / 128 % 2
}

/// `byte` with its lowest bit set or cleared so that an odd number of bits is
/// set.
pub open spec fn with_odd_parity(byte: u8) -> u8 {
    let even = (byte / 2 * 2) as u8;
    if count_ones(even) % 2 == 0 {
        (even + 1) as u8
    } else {
        even
    }
}

/// The DES key bytes that carry the 112 bits of fourteen bytes: seven bits in
/// the upper part of each byte, and odd parity.
pub open spec fn spread(normal: Seq<u8>) -> Seq<u8> {
    Seq::new(
        16,
        |i: int|
            with_odd_parity(
                (seven_bits(bits_of(normal.subrange(i / 8 * 7, i / 8 * 7 + 7)), i % 8) * 2) as u8,
            ),
    )
}

/// The key of sixteen bytes that fourteen bytes and a salt of any length give.
pub open spec fn login_key(key1: Seq<u8>, key2: Seq<u8>) -> Seq<u8> {
    spread(folded(key1, key2))
}

proof fn lemma_spread_half(b0: u8, b1: u8, b2: u8, b3: u8, b4: u8, b5: u8, b6: u8)
    ensures
        ({
            let n = bits_of_bytes(b0, b1, b2, b3, b4, b5, b6);
            &&& (b0 & 0xFEu8) == seven_bits(n, 0) * 2
            &&& ((((b0 << 7u8) | (b1 >> 1u8)) & 0xFEu8)) == seven_bits(n, 1) * 2
            &&& ((((b1 << 6u8) | (b2 >> 2u8)) & 0xFEu8)) == seven_bits(n, 2) * 2
            &&& ((((b2 << 5u8) | (b3 >> 3u8)) & 0xFEu8)) == seven_bits(n, 3) * 2
            &&& ((((b3 << 4u8) | (b4 >> 4u8)) & 0xFEu8)) == seven_bits(n, 4) * 2
            &&& ((((b4 << 3u8) | (b5 >> 5u8)) & 0xFEu8)) == seven_bits(n, 5) * 2
            &&& ((((b5 << 2u8) | (b6 >> 6u8)) & 0xFEu8)) == seven_bits(n, 6) * 2
            &&& (b6 << 1u8) == seven_bits(n, 7) * 2
        }),
{
    let n = bits_of_bytes(b0, b1, b2, b3, b4, b5, b6);
    assert(({
        &&& (b0 & 0xFEu8) == ((n >> 49u64) & 0x7F) * 2
        &&& ((((b0 << 7u8) | (b1 >> 1u8)) & 0xFEu8)) == ((n >> 42u64) & 0x7F) * 2
        &&& ((((b1 << 6u8) | (b2 >> 2u8)) & 0xFEu8)) == ((n >> 35u64) & 0x7F) * 2
        &&& ((((b2 << 5u8) | (b3 >> 3u8)) & 0xFEu8)) == ((n >> 28u64) & 0x7F) * 2
        &&& ((((b3 << 4u8) | (b4 >> 4u8)) & 0xFEu8)) == ((n >> 21u64) & 0x7F) * 2
        &&& ((((b4 << 3u8) | (b5 >> 5u8)) & 0xFEu8)) == ((n >> 14u64) & 0x7F) * 2
        &&& ((((b5 << 2u8) | (b6 >> 6u8)) & 0xFEu8)) == ((n >> 7u64) & 0x7F) * 2
        &&& (b6 << 1u8) == ((n >> 0u64) & 0x7F) * 2
    })) by (bit_vector)
        requires
            n == (((b0 as u64) << 48) | ((b1 as u64) << 40) | ((b2 as u64) << 32) | ((b3 as u64)
                << 24) | ((b4 as u64) << 16) | ((b5 as u64) << 8) | (b6 as u64)),
    ;
    lemma_seven_bits_small(n);
}

proof fn lemma_seven_bits_small(n: u64)
    ensures
        forall|s: u64| #![trigger n >> s] (n >> s) & 0x7F <= 0x7F,
{
    assert(forall|s: u64| #![trigger n >> s] (n >> s) & 0x7F <= 0x7F) by (bit_vector);
}

/// The key that a server and a client share once `key2` is known to both.
pub fn derive_login_key(key1: &[u8], key2: &[u8]) -> (r: Result<[u8; 16], NewcamdError>)
    ensures
        r is Ok <==> key1@.len() == 14,
        r matches Ok(key) ==> key@ == login_key(key1@, key2@),
        r matches Err(err) ==> err@ == ErrorView::InvalidData(
            "newcamd key must be exactly 14 bytes"@,
        ),
{
    if key1.len() != 14 {
        return Err(NewcamdError::InvalidData("newcamd key must be exactly 14 bytes".to_string()));
    }
    let mut des14 = [0u8; 14];
    for i in 0..14usize
        invariant
            key1@.len() == 14,
            forall|j: int| 0 <= j < i ==> des14@[j] == key1@[j],
    {
        des14[i] = key1[i];
    }
    assert(des14@ =~= key1@);
    assert(key2@.take(0) =~= Seq::<u8>::empty());
    for i in 0..key2.len()
        invariant
            des14@ == folded(key1@, key2@.take(i as int)),
    {
        assert(key2@.take(i + 1).drop_last() =~= key2@.take(i as int));
        des14[i % 14] = des14[i % 14] ^ key2[i];
    }
    assert(key2@.take(key2@.len() as int) =~= key2@);
    Ok(key_spread(&des14))
}

/// Spreads fourteen bytes over the sixteen bytes of two DES keys.
pub fn key_spread(normal: &[u8; 14]) -> (r: [u8; 16])
    ensures
        r@ == spread(normal@),
{
    let mut key: [u8; 16] = [
        normal[0] & 0xFE,
        ((normal[0] << 7) | (normal[1] >> 1)) & 0xFE,
        ((normal[1] << 6) | (normal[2] >> 2)) & 0xFE,
        ((normal[2] << 5) | (normal[3] >> 3)) & 0xFE,
        ((normal[3] << 4) | (normal[4] >> 4)) & 0xFE,
        ((normal[4] << 3) | (normal[5] >> 5)) & 0xFE,
        ((normal[5] << 2) | (normal[6] >> 6)) & 0xFE,
        normal[6] << 1,
        normal[7] & 0xFE,
        ((normal[7] << 7) | (normal[8] >> 1)) & 0xFE,
        ((normal[8] << 6) | (normal[9] >> 2)) & 0xFE,
        ((normal[9] << 5) | (normal[10] >> 3)) & 0xFE,
        ((normal[10] << 4) | (normal[11] >> 4)) & 0xFE,
        ((normal[11] << 3) | (normal[12] >> 5)) & 0xFE,
        ((normal[12] << 2) | (normal[13] >> 6)) & 0xFE,
        normal[13] << 1,
    ];
    let ghost unadjusted = key@;
    adjust_odd_parity(&mut key);
    proof {
        let n = normal@;
        lemma_spread_half(n[0], n[1], n[2], n[3], n[4], n[5], n[6]);
        lemma_spread_half(n[7], n[8], n[9], n[10], n[11], n[12], n[13]);
        assert(bits_of(n.subrange(0, 7)) == bits_of_bytes(
            n[0],
            n[1],
            n[2],
            n[3],
            n[4],
            n[5],
            n[6],
        ));
        assert(bits_of(n.subrange(7, 14)) == bits_of_bytes(
            n[7],
            n[8],
            n[9],
            n[10],
            n[11],
            n[12],
            n[13],
        ));
        assert(key@ =~= spread(n));
    }
    key
}

/// Gives every byte odd parity by its lowest bit.
pub fn adjust_odd_parity(key: &mut [u8])
    ensures
        final(key)@ == old(key)@.map_values(|byte: u8| with_odd_parity(byte)),
{
    let ghost before = key@;
    let len: usize = key.len();
    for i in 0..len
        invariant
            len == before.len(),
            key@.len() == len,
            forall|j: int|
                0 <= j < len ==> key@[j] == (if j < i {
                    with_odd_parity(before[j])
                } else {
                    before[j]
                }),
    {
        let byte: u8 = key[i];
        let ones: u8 = byte / 2 % 2 + byte / 4 % 2 + byte / 8 % 2 + byte / 16 % 2 + byte / 32 % 2
            + byte / 64 % 2 + byte / 128 % 2;
        let parity: u8 = if ones % 2 == 0 { 1 } else { 0 };
        proof {
            let even = (byte / 2 * 2) as u8;
            assert(count_ones(even) == ones);
        }
        key[i] = byte / 2 * 2 + parity;
    }
    assert(key@ =~= before.map_values(|byte: u8| with_odd_parity(byte)));
}

proof fn lemma_parity(byte: u8)
    ensures
        count_ones(with_odd_parity(byte)) % 2 == 1,
        with_odd_parity(byte) / 2 == byte / 2,
        with_odd_parity(with_odd_parity(byte)) == with_odd_parity(byte),
{
    let even = (byte / 2 * 2) as u8;
    assert(even % 2 == 0 && even / 2 == byte / 2);
    let adjusted = with_odd_parity(byte);
    assert(adjusted / 2 == even / 2);
    assert(count_ones(adjusted) == count_ones(even) + adjusted % 2);
}

/// The keys that a login derives are DES keys: sixteen bytes, each with an odd
/// number of bits set.
pub proof fn law_key_has_odd_parity(key1: Seq<u8>, key2: Seq<u8>)
    ensures
        login_key(key1, key2).len() == 16,
        forall|i: int| 0 <= i < 16 ==> count_ones(#[trigger] login_key(key1, key2)[i]) % 2 == 1,
{
    let normal = folded(key1, key2);
    assert forall|i: int| 0 <= i < 16 implies count_ones(#[trigger] login_key(key1, key2)[i]) % 2
        == 1 by {
        lemma_parity(
            (seven_bits(bits_of(normal.subrange(i / 8 * 7, i / 8 * 7 + 7)), i % 8) * 2) as u8,
        );
    }
}

/// Adjusting the parity of a byte makes it odd and leaves the upper seven bits
/// alone. Doing it again changes nothing.
pub proof fn law_parity_is_in_the_lowest_bit(byte: u8)
    ensures
        count_ones(with_odd_parity(byte)) % 2 == 1,
        with_odd_parity(byte) / 2 == byte / 2,
        with_odd_parity(with_odd_parity(byte)) == with_odd_parity(byte),
{
    lemma_parity(byte);
}

proof fn lemma_seven_bits_equal(a: u64, b: u64, index: int)
    requires
        0 <= index < 8,
        with_odd_parity((seven_bits(a, index) * 2) as u8) == with_odd_parity(
            (seven_bits(b, index) * 2) as u8,
        ),
    ensures
        (a >> ((49 - 7 * index) as u64)) & 0x7F == (b >> ((49 - 7 * index) as u64)) & 0x7F,
{
    lemma_seven_bits_small(a);
    lemma_seven_bits_small(b);
    lemma_parity((seven_bits(a, index) * 2) as u8);
    lemma_parity((seven_bits(b, index) * 2) as u8);
}

proof fn lemma_bits_determine_bytes(
    a: u64,
    b: u64,
    a0: u8,
    a1: u8,
    a2: u8,
    a3: u8,
    a4: u8,
    a5: u8,
    a6: u8,
    b0: u8,
    b1: u8,
    b2: u8,
    b3: u8,
    b4: u8,
    b5: u8,
    b6: u8,
)
    by (bit_vector)
    requires
        a == (((a0 as u64) << 48) | ((a1 as u64) << 40) | ((a2 as u64) << 32) | ((a3 as u64)
            << 24) | ((a4 as u64) << 16) | ((a5 as u64) << 8) | (a6 as u64)),
        b == (((b0 as u64) << 48) | ((b1 as u64) << 40) | ((b2 as u64) << 32) | ((b3 as u64)
            << 24) | ((b4 as u64) << 16) | ((b5 as u64) << 8) | (b6 as u64)),
        (a >> 49u64) & 0x7F == (b >> 49u64) & 0x7F,
        (a >> 42u64) & 0x7F == (b >> 42u64) & 0x7F,
        (a >> 35u64) & 0x7F == (b >> 35u64) & 0x7F,
        (a >> 28u64) & 0x7F == (b >> 28u64) & 0x7F,
        (a >> 21u64) & 0x7F == (b >> 21u64) & 0x7F,
        (a >> 14u64) & 0x7F == (b >> 14u64) & 0x7F,
        (a >> 7u64) & 0x7F == (b >> 7u64) & 0x7F,
        (a >> 0u64) & 0x7F == (b >> 0u64) & 0x7F,
    ensures
        a0 == b0 && a1 == b1 && a2 == b2 && a3 == b3 && a4 == b4 && a5 == b5 && a6 == b6,
{
}

proof fn lemma_half_is_kept(a: Seq<u8>, b: Seq<u8>)
    requires
        a.len() == 7,
        b.len() == 7,
        forall|i: int|
            #![trigger seven_bits(bits_of(a), i)]
            0 <= i < 8 ==> with_odd_parity((seven_bits(bits_of(a), i) * 2) as u8)
                == with_odd_parity((seven_bits(bits_of(b), i) * 2) as u8),
    ensures
        a == b,
{
    let x = bits_of(a);
    let y = bits_of(b);
    lemma_seven_bits_equal(x, y, 0);
    lemma_seven_bits_equal(x, y, 1);
    lemma_seven_bits_equal(x, y, 2);
    lemma_seven_bits_equal(x, y, 3);
    lemma_seven_bits_equal(x, y, 4);
    lemma_seven_bits_equal(x, y, 5);
    lemma_seven_bits_equal(x, y, 6);
    lemma_seven_bits_equal(x, y, 7);
    lemma_bits_determine_bytes(
        x,
        y,
        a[0],
        a[1],
        a[2],
        a[3],
        a[4],
        a[5],
        a[6],
        b[0],
        b[1],
        b[2],
        b[3],
        b[4],
        b[5],
        b[6],
    );
    assert(a =~= b);
}

proof fn lemma_spread_at(normal: Seq<u8>, half: int, i: int)
    requires
        0 <= half < 2,
        0 <= i < 8,
    ensures
        spread(normal)[half * 8 + i] == with_odd_parity(
            (seven_bits(bits_of(normal.subrange(half * 7, half * 7 + 7)), i) * 2) as u8,
        ),
{
    let j = half * 8 + i;
    assert(j / 8 == half && j % 8 == i);
}

/// No bit of fourteen bytes is lost when they are spread over a key: different
/// bytes give different keys.
pub proof fn law_spread_loses_nothing(a: Seq<u8>, b: Seq<u8>)
    requires
        a.len() == 14,
        b.len() == 14,
        spread(a) == spread(b),
    ensures
        a == b,
{
    assert forall|i: int| #![trigger seven_bits(bits_of(a.subrange(0, 7)), i)] 0 <= i
        < 8 implies with_odd_parity((seven_bits(bits_of(a.subrange(0, 7)), i) * 2) as u8)
        == with_odd_parity((seven_bits(bits_of(b.subrange(0, 7)), i) * 2) as u8) by {
        lemma_spread_at(a, 0, i);
        lemma_spread_at(b, 0, i);
    }
    assert forall|i: int| #![trigger seven_bits(bits_of(a.subrange(7, 14)), i)] 0 <= i
        < 8 implies with_odd_parity((seven_bits(bits_of(a.subrange(7, 14)), i) * 2) as u8)
        == with_odd_parity((seven_bits(bits_of(b.subrange(7, 14)), i) * 2) as u8) by {
        lemma_spread_at(a, 1, i);
        lemma_spread_at(b, 1, i);
    }
    lemma_half_is_kept(a.subrange(0, 7), b.subrange(0, 7));
    lemma_half_is_kept(a.subrange(7, 14), b.subrange(7, 14));
    assert(a =~= a.subrange(0, 7) + a.subrange(7, 14));
    assert(b =~= b.subrange(0, 7) + b.subrange(7, 14));
}

/// What a salt folds into each byte of a key.
spec fn fold_of(key2: Seq<u8>) -> Seq<u8> {
    folded(Seq::new(14, |i: int| 0u8), key2)
}

proof fn lemma_fold(key1: Seq<u8>, key2: Seq<u8>)
    requires
        key1.len() == 14,
    ensures
        folded(key1, key2).len() == 14,
        fold_of(key2).len() == 14,
        forall|i: int|
            0 <= i < 14 ==> #[trigger] folded(key1, key2)[i] == key1[i] ^ fold_of(key2)[i],
    decreases key2.len(),
{
    if key2.len() == 0 {
        assert forall|i: int| 0 <= i < 14 implies #[trigger] folded(key1, key2)[i] == key1[i]
            ^ fold_of(key2)[i] by {
            let byte = key1[i];
            assert(byte ^ 0 == byte) by (bit_vector);
        }
    } else {
        let rest = key2.drop_last();
        lemma_fold(key1, rest);
        assert forall|i: int| 0 <= i < 14 implies #[trigger] folded(key1, key2)[i] == key1[i]
            ^ fold_of(key2)[i] by {
            let byte = key1[i];
            let fold = fold_of(rest)[i];
            let last = key2.last();
            assert(folded(key1, rest)[i] == byte ^ fold);
            assert((byte ^ fold) ^ last == byte ^ (fold ^ last)) by (bit_vector);
        }
    }
}

/// Folding the same salt in twice gives the key back.
pub proof fn law_folding_twice_cancels(key1: Seq<u8>, key2: Seq<u8>)
    requires
        key1.len() == 14,
    ensures
        folded(folded(key1, key2), key2) == key1,
{
    lemma_fold(key1, key2);
    lemma_fold(folded(key1, key2), key2);
    assert forall|i: int| 0 <= i < 14 implies #[trigger] folded(folded(key1, key2), key2)[i]
        == key1[i] by {
        let byte = key1[i];
        let fold = fold_of(key2)[i];
        assert(folded(key1, key2)[i] == byte ^ fold);
        assert((byte ^ fold) ^ fold == byte) by (bit_vector);
    }
    assert(folded(folded(key1, key2), key2) =~= key1);
}

/// Under one salt, different keys of a user derive different keys.
pub proof fn law_login_key_depends_on_every_bit(a: Seq<u8>, b: Seq<u8>, key2: Seq<u8>)
    requires
        a.len() == 14,
        b.len() == 14,
        login_key(a, key2) == login_key(b, key2),
    ensures
        a == b,
{
    lemma_fold(a, key2);
    lemma_fold(b, key2);
    law_spread_loses_nothing(folded(a, key2), folded(b, key2));
    law_folding_twice_cancels(a, key2);
    law_folding_twice_cancels(b, key2);
}

/// A salt is folded into a key byte by byte: each byte goes into the place that
/// its index has modulo fourteen, by exclusive or, and changes no other place.
pub proof fn law_folding(key1: Seq<u8>, key2: Seq<u8>, byte: u8)
    requires
        key1.len() == 14,
    ensures
        folded(key1, Seq::empty()) == key1,
        ({
            let before = folded(key1, key2);
            let after = folded(key1, key2.push(byte));
            &&& before.len() == 14 && after.len() == 14
            &&& forall|i: int|
                0 <= i < 14 ==> #[trigger] after[i] == if i == key2.len() % 14 {
                    before[i] ^ byte
                } else {
                    before[i]
                }
        }),
{
    lemma_fold(key1, key2);
    assert(key2.push(byte).drop_last() =~= key2);
}

proof fn lemma_seven_bits_number(n: u64)
    requires
        n < 0x100_0000_0000_0000,
    ensures
        seven_bits(n, 0) * 0x2_0000_0000_0000 + seven_bits(n, 1) * 0x400_0000_0000 + seven_bits(
            n,
            2,
        ) * 0x8_0000_0000 + seven_bits(n, 3) * 0x1000_0000 + seven_bits(n, 4) * 0x20_0000
            + seven_bits(n, 5) * 0x4000 + seven_bits(n, 6) * 0x80 + seven_bits(n, 7) == n,
{
    assert(((n >> 49u64) & 0x7F) * 0x2_0000_0000_0000 + ((n >> 42u64) & 0x7F) * 0x400_0000_0000 + ((
    n >> 35u64) & 0x7F) * 0x8_0000_0000 + ((n >> 28u64) & 0x7F) * 0x1000_0000 + ((n >> 21u64)
        & 0x7F) * 0x20_0000 + ((n >> 14u64) & 0x7F) * 0x4000 + ((n >> 7u64) & 0x7F) * 0x80 + ((n
        >> 0u64) & 0x7F) == n) by (bit_vector)
        requires
            n < 0x100_0000_0000_0000,
    ;
    lemma_seven_bits_small(n);
}

proof fn lemma_bytes_number(b0: u8, b1: u8, b2: u8, b3: u8, b4: u8, b5: u8, b6: u8)
    ensures
        bits_of_bytes(b0, b1, b2, b3, b4, b5, b6) == b0 * 0x1_0000_0000_0000 + b1
            * 0x100_0000_0000 + b2 * 0x1_0000_0000 + b3 * 0x100_0000 + b4 * 0x1_0000 + b5 * 0x100
            + b6,
{
    let n = bits_of_bytes(b0, b1, b2, b3, b4, b5, b6);
    assert(n == b0 * 0x1_0000_0000_0000 + b1 * 0x100_0000_0000 + b2 * 0x1_0000_0000 + b3
        * 0x100_0000 + b4 * 0x1_0000 + b5 * 0x100 + b6) by (bit_vector)
        requires
            n == (((b0 as u64) << 48) | ((b1 as u64) << 40) | ((b2 as u64) << 32) | ((b3 as u64)
                << 24) | ((b4 as u64) << 16) | ((b5 as u64) << 8) | (b6 as u64)),
    ;
}

/// Seven bytes and the eight bytes that they are spread over hold the same
/// number: in base 256 there, in base 128 here, above the lowest bit of each
/// byte. The lowest bits make the parity odd.
pub proof fn law_spread_is_the_same_number(normal: Seq<u8>, half: int)
    requires
        normal.len() == 14,
        half == 0 || half == 1,
    ensures
        ({
            let key = spread(normal);
            let k = 8 * half;
            let n = 7 * half;
            &&& key.len() == 16
            &&& (key[k] / 2) * 0x2_0000_0000_0000 + (key[k + 1] / 2) * 0x400_0000_0000 + (key[k + 2]
                / 2) * 0x8_0000_0000 + (key[k + 3] / 2) * 0x1000_0000 + (key[k + 4] / 2)
                * 0x20_0000 + (key[k + 5] / 2) * 0x4000 + (key[k + 6] / 2) * 0x80 + key[k + 7] / 2
                == normal[n] * 0x1_0000_0000_0000 + normal[n + 1] * 0x100_0000_0000 + normal[n
                + 2] * 0x1_0000_0000 + normal[n + 3] * 0x100_0000 + normal[n + 4] * 0x1_0000
                + normal[n + 5] * 0x100 + normal[n + 6]
            &&& forall|i: int| 0 <= i < 16 ==> count_ones(#[trigger] key[i]) % 2 == 1
        }),
{
    let key = spread(normal);
    let k = 8 * half;
    let n = 7 * half;
    let part = normal.subrange(n, n + 7);
    let bits = bits_of(part);
    lemma_bytes_number(
        normal[n],
        normal[n + 1],
        normal[n + 2],
        normal[n + 3],
        normal[n + 4],
        normal[n + 5],
        normal[n + 6],
    );
    lemma_seven_bits_number(bits);
    lemma_seven_bits_small(bits);
    assert forall|i: int| 0 <= i < 8 implies #[trigger] key[k + i] / 2 == seven_bits(bits, i) by {
        lemma_spread_at(normal, half, i);
        lemma_parity((seven_bits(bits, i) * 2) as u8);
    }
    assert(key[k + 0] / 2 == seven_bits(bits, 0));
    assert(key[k + 1] / 2 == seven_bits(bits, 1));
    assert(key[k + 2] / 2 == seven_bits(bits, 2));
    assert(key[k + 3] / 2 == seven_bits(bits, 3));
    assert(key[k + 4] / 2 == seven_bits(bits, 4));
    assert(key[k + 5] / 2 == seven_bits(bits, 5));
    assert(key[k + 6] / 2 == seven_bits(bits, 6));
    assert(key[k + 7] / 2 == seven_bits(bits, 7));
    assert forall|i: int| 0 <= i < 16 implies count_ones(#[trigger] key[i]) % 2 == 1 by {
        lemma_spread_at(normal, i / 8, i % 8);
        lemma_parity(
            (seven_bits(bits_of(normal.subrange(i / 8 * 7, i / 8 * 7 + 7)), i % 8) * 2) as u8,
        );
    }
}

/// A login key is the spread of the key with the salt folded in.
pub proof fn law_login_key(key1: Seq<u8>, key2: Seq<u8>, byte: u8)
    requires
        key1.len() == 14,
    ensures
        login_key(key1, Seq::empty()) == spread(key1),
        ({
            let place = (key2.len() % 14) as int;
            let before = folded(key1, key2);
            login_key(key1, key2.push(byte)) == spread(
                before.update(place, before[place] ^ byte),
            )
        }),
{
    law_folding(key1, key2, byte);
    let place = (key2.len() % 14) as int;
    let before = folded(key1, key2);
    assert(folded(key1, key2.push(byte)) =~= before.update(place, before[place] ^ byte));
}

/// The number of bits that are set is counted bit by bit.
pub proof fn law_count_ones(byte: u8)
    ensures
        count_ones(0) == 0,
        count_ones(byte) == count_ones((byte / 2) as u8) + byte % 2,
{
}

} // verus!
