//! DES, two-key triple DES and cipher block chaining.

use des::cipher::generic_array::GenericArray;
use des::cipher::{BlockDecrypt, BlockEncrypt, KeyInit};
use des::Des;
use vstd::prelude::*;

verus! {

/// What `Des::encrypt_block` of the crate `des` makes of a block of eight
/// bytes, under a key of eight bytes.
pub uninterp spec fn des_encrypted(key: Seq<u8>, block: Seq<u8>) -> Seq<u8>;

/// What `Des::decrypt_block` of the crate `des` makes of a block of eight
/// bytes, under a key of eight bytes.
pub uninterp spec fn des_decrypted(key: Seq<u8>, block: Seq<u8>) -> Seq<u8>;

/// Encrypts one block with DES.
///
/// Trusted: `BlockEncrypt::encrypt_block` of `des::Des`, for the cipher that
/// `KeyInit::new` makes from `key`. The result depends on the key and the block
/// alone, and decrypting it under the same key gives the block back.
#[verifier::external_body]
fn des_encrypt_block(key: &[u8; 8], block: &[u8; 8]) -> (r: [u8; 8])
    ensures
        r@ == des_encrypted(key@, block@),
        des_decrypted(key@, r@) == block@,
{
    let mut data = GenericArray::from(*block);
    Des::new(&GenericArray::from(*key)).encrypt_block(&mut data);
    data.into()
}

/// Decrypts one block with DES.
///
/// Trusted: `BlockDecrypt::decrypt_block` of `des::Des`, for the cipher that
/// `KeyInit::new` makes from `key`. The result depends on the key and the block
/// alone, and encrypting it under the same key gives the block back.
#[verifier::external_body]
fn des_decrypt_block(key: &[u8; 8], block: &[u8; 8]) -> (r: [u8; 8])
    ensures
        r@ == des_decrypted(key@, block@),
        des_encrypted(key@, r@) == block@,
{
    let mut data = GenericArray::from(*block);
    Des::new(&GenericArray::from(*key)).decrypt_block(&mut data);
    data.into()
}

/// Triple DES with the two halves of a key of sixteen bytes: encrypt under the
/// first, decrypt under the second, encrypt under the first.
pub open spec fn triple_des_encrypted(key: Seq<u8>, block: Seq<u8>) -> Seq<u8> {
    let k1 = key.subrange(0, 8);
    let k2 = key.subrange(8, 16);
    des_encrypted(k1, des_decrypted(k2, des_encrypted(k1, block)))
}

/// The three steps of `triple_des_encrypted` taken back.
pub open spec fn triple_des_decrypted(key: Seq<u8>, block: Seq<u8>) -> Seq<u8> {
    let k1 = key.subrange(0, 8);
    let k2 = key.subrange(8, 16);
    des_decrypted(k1, des_encrypted(k2, des_decrypted(k1, block)))
}

/// The bitwise exclusive or of two blocks.
pub open spec fn xor_blocks(a: Seq<u8>, b: Seq<u8>) -> Seq<u8> {
    Seq::new(8, |i: int| a[i] ^ b[i])
}

/// The block with this index.
pub open spec fn block_of(data: Seq<u8>, index: int) -> Seq<u8> {
    data.subrange(index * 8, index * 8 + 8)
}

/// What a block with this index is chained to: the cipher text block before
/// it, or the initial vector.
pub open spec fn chained_to(ivec: Seq<u8>, cipher: Seq<u8>, index: int) -> Seq<u8> {
    if index == 0 {
        ivec
    } else {
        block_of(cipher, index - 1)
    }
}

/// The first `count` blocks of `plain`, encrypted in cipher block chaining.
pub open spec fn cbc_encrypted(key: Seq<u8>, ivec: Seq<u8>, plain: Seq<u8>, count: nat) -> Seq<u8>
    decreases count,
{
    if count == 0 {
        Seq::empty()
    } else {
        let before = cbc_encrypted(key, ivec, plain, (count - 1) as nat);
        before + triple_des_encrypted(
            key,
            xor_blocks(block_of(plain, count - 1), chained_to(ivec, before, count - 1)),
        )
    }
}

/// `cipher`, decrypted in cipher block chaining.
pub open spec fn cbc_decrypted(key: Seq<u8>, ivec: Seq<u8>, cipher: Seq<u8>) -> Seq<u8> {
    Seq::new(
        cipher.len(),
        |j: int|
            triple_des_decrypted(key, block_of(cipher, j / 8))[j % 8] ^ chained_to(
                ivec,
                cipher,
                j / 8,
            )[j % 8],
    )
}

proof fn lemma_xor_twice(a: u8, b: u8)
    ensures
        (a ^ b) ^ b == a,
{
    assert((a ^ b) ^ b == a) by (bit_vector);
}

/// Copies eight bytes out of `data`.
pub(crate) fn block_at(data: &[u8], pos: usize) -> (r: [u8; 8])
    requires
        pos + 8 <= data@.len(),
    ensures
        r@ == data@.subrange(pos as int, pos + 8),
{
    let mut block = [0u8; 8];
    for i in 0..8usize
        invariant
            pos + 8 <= data.len(),
            forall|j: int| 0 <= j < i ==> block@[j] == data@[pos + j],
    {
        block[i] = data[pos + i];
    }
    assert(block@ =~= data@.subrange(pos as int, pos + 8));
    block
}

/// Encrypts one block with triple DES.
pub fn triple_des_hash_encrypt_block(block: &[u8; 8], key: &[u8; 16]) -> (r: [u8; 8])
    ensures
        r@ == triple_des_encrypted(key@, block@),
        triple_des_decrypted(key@, r@) == block@,
{
    let k1 = block_at(key, 0);
    let k2 = block_at(key, 8);
    let once = des_encrypt_block(&k1, block);
    let twice = des_decrypt_block(&k2, &once);
    des_encrypt_block(&k1, &twice)
}

/// Decrypts one block with triple DES.
pub fn triple_des_crypt_decrypt_block(block: &[u8; 8], key: &[u8; 16]) -> (r: [u8; 8])
    ensures
        r@ == triple_des_decrypted(key@, block@),
        triple_des_encrypted(key@, r@) == block@,
{
    let k1 = block_at(key, 0);
    let k2 = block_at(key, 8);
    let once = des_decrypt_block(&k1, block);
    let twice = des_encrypt_block(&k2, &once);
    des_decrypt_block(&k1, &twice)
}

/// The bitwise exclusive or of two blocks.
pub fn xor_block(a: &[u8; 8], b: &[u8; 8]) -> (r: [u8; 8])
    ensures
        r@ == xor_blocks(a@, b@),
{
    let mut block = [0u8; 8];
    for i in 0..8usize
        invariant
            forall|j: int| 0 <= j < i ==> block@[j] == a@[j] ^ b@[j],
    {
        block[i] = a[i] ^ b[i];
    }
    assert(block@ =~= xor_blocks(a@, b@));
    block
}

/// Encrypts whole blocks in cipher block chaining. Decrypting gives them back.
pub fn cbc_encrypt(plain: &[u8], key: &[u8; 16], ivec: &[u8; 8]) -> (cipher: Vec<u8>)
    requires
        plain@.len() % 8 == 0,
    ensures
        cipher@.len() == plain@.len(),
        cipher@ == cbc_encrypted(key@, ivec@, plain@, (plain@.len() / 8) as nat),
        cbc_decrypted(key@, ivec@, cipher@) == plain@,
        forall|i: nat|
            i <= plain@.len() / 8 ==> #[trigger] cbc_encrypted(key@, ivec@, plain@, i).len() == i
                * 8,
{
    let mut cipher: Vec<u8> = Vec::new();
    let mut previous = *ivec;
    let mut index: usize = 0;
    while index < plain.len() / 8
        invariant
            plain@.len() % 8 == 0,
            index <= plain@.len() / 8,
            cipher@.len() == index * 8,
            cipher@ == cbc_encrypted(key@, ivec@, plain@, index as nat),
            previous@ == chained_to(ivec@, cipher@, index as int),
            forall|i: nat|
                i <= index ==> #[trigger] cbc_encrypted(key@, ivec@, plain@, i).len() == i * 8,
            forall|j: int|
                0 <= j < index * 8 ==> #[trigger] cbc_decrypted(key@, ivec@, cipher@)[j]
                    == plain@[j],
        decreases plain@.len() / 8 - index,
    {
        let ghost before = cipher@;
        let block = block_at(plain, index * 8);
        let chained = xor_block(&block, &previous);
        let encrypted = triple_des_hash_encrypt_block(&chained, key);
        cipher.extend_from_slice(&encrypted);
        proof {
            assert(cipher@ =~= before + encrypted@);
            assert(block_of(cipher@, index as int) =~= encrypted@);
            assert(chained_to(ivec@, cipher@, index as int) =~= chained_to(
                ivec@,
                before,
                index as int,
            ));
            assert forall|j: int| 0 <= j < (index + 1) * 8 implies #[trigger] cbc_decrypted(
                key@,
                ivec@,
                cipher@,
            )[j] == plain@[j] by {
                if j < index * 8 {
                    assert(block_of(cipher@, j / 8) =~= block_of(before, j / 8));
                    assert(chained_to(ivec@, cipher@, j / 8) =~= chained_to(ivec@, before, j / 8));
                    assert(cbc_decrypted(key@, ivec@, before)[j] == plain@[j]);
                } else {
                    assert(j / 8 == index && j % 8 == j - index * 8);
                    assert(triple_des_decrypted(key@, encrypted@) == chained@);
                    lemma_xor_twice(block@[j % 8], previous@[j % 8]);
                }
            }
        }
        previous = encrypted;
        index = index + 1;
    }
    assert(cbc_decrypted(key@, ivec@, cipher@) =~= plain@);
    cipher
}

/// Decrypts whole blocks in cipher block chaining.
pub fn cbc_decrypt(cipher: &[u8], key: &[u8; 16], ivec: &[u8; 8]) -> (plain: Vec<u8>)
    requires
        cipher@.len() % 8 == 0,
    ensures
        plain@ == cbc_decrypted(key@, ivec@, cipher@),
{
    let mut plain: Vec<u8> = Vec::new();
    let mut previous = *ivec;
    let mut index: usize = 0;
    while index < cipher.len() / 8
        invariant
            cipher@.len() % 8 == 0,
            index <= cipher@.len() / 8,
            plain@.len() == index * 8,
            previous@ == chained_to(ivec@, cipher@, index as int),
            forall|j: int|
                0 <= j < index * 8 ==> plain@[j] == #[trigger] cbc_decrypted(
                    key@,
                    ivec@,
                    cipher@,
                )[j],
        decreases cipher@.len() / 8 - index,
    {
        let ghost before = plain@;
        let block = block_at(cipher, index * 8);
        let decrypted = triple_des_crypt_decrypt_block(&block, key);
        let chained = xor_block(&decrypted, &previous);
        plain.extend_from_slice(&chained);
        proof {
            assert(plain@ =~= before + chained@);
            assert(block@ =~= block_of(cipher@, index as int));
            assert forall|j: int| 0 <= j < (index + 1) * 8 implies plain@[j]
                == #[trigger] cbc_decrypted(key@, ivec@, cipher@)[j] by {
                if j >= index * 8 {
                    assert(j / 8 == index && j % 8 == j - index * 8);
                }
            }
        }
        previous = block;
        index = index + 1;
    }
    assert(plain@ =~= cbc_decrypted(key@, ivec@, cipher@));
    plain
}

/// Triple DES with two keys encrypts under the first eight bytes of a key,
/// decrypts under the last eight and encrypts under the first again. Decryption
/// takes the same steps back.
pub proof fn law_triple_des(key: Seq<u8>, block: Seq<u8>)
    requires
        key.len() == 16,
    ensures
        triple_des_encrypted(key, block) == des_encrypted(
            key.take(8),
            des_decrypted(key.skip(8), des_encrypted(key.take(8), block)),
        ),
        triple_des_decrypted(key, block) == des_decrypted(
            key.take(8),
            des_encrypted(key.skip(8), des_decrypted(key.take(8), block)),
        ),
{
    assert(key.subrange(0, 8) =~= key.take(8));
    assert(key.subrange(8, 16) =~= key.skip(8));
}

/// Each block of plain text is the decryption of its block of cipher text,
/// exclusive or the block of cipher text just before it. For the first block
/// the initial vector stands in.
pub proof fn law_cbc_decryption(key: Seq<u8>, ivec: Seq<u8>, cipher: Seq<u8>)
    requires
        key.len() == 16,
        ivec.len() == 8,
        cipher.len() % 8 == 0,
    ensures
        ({
            let k1 = key.take(8);
            let k2 = key.skip(8);
            let plain = cbc_decrypted(key, ivec, cipher);
            &&& plain.len() == cipher.len()
            &&& forall|j: int|
                0 <= j < 8 && j < plain.len() ==> #[trigger] plain[j] == des_decrypted(
                    k1,
                    des_encrypted(k2, des_decrypted(k1, cipher.take(8))),
                )[j] ^ ivec[j]
            &&& forall|j: int|
                8 <= j < plain.len() ==> #[trigger] plain[j] == des_decrypted(
                    k1,
                    des_encrypted(
                        k2,
                        des_decrypted(k1, cipher.subrange(j - j % 8, j - j % 8 + 8)),
                    ),
                )[j % 8] ^ cipher[j - 8]
        }),
{
    let k1 = key.take(8);
    let k2 = key.skip(8);
    let plain = cbc_decrypted(key, ivec, cipher);
    assert forall|j: int| 0 <= j < 8 && j < plain.len() implies #[trigger] plain[j]
        == des_decrypted(k1, des_encrypted(k2, des_decrypted(k1, cipher.take(8))))[j]
        ^ ivec[j] by {
        assert(j / 8 == 0 && j % 8 == j);
        law_triple_des(key, block_of(cipher, 0));
        assert(block_of(cipher, 0) =~= cipher.take(8));
    }
    assert forall|j: int| 8 <= j < plain.len() implies #[trigger] plain[j] == des_decrypted(
        k1,
        des_encrypted(k2, des_decrypted(k1, cipher.subrange(j - j % 8, j - j % 8 + 8))),
    )[j % 8] ^ cipher[j - 8] by {
        let i = j / 8;
        assert(i * 8 == j - j % 8);
        law_triple_des(key, block_of(cipher, i));
        assert(block_of(cipher, i - 1)[j % 8] == cipher[j - 8]);
    }
}

/// Each block of cipher text is the encryption of its block of plain text,
/// exclusive or the block of cipher text just before it. For the first block
/// the initial vector stands in. That encryption gives whole blocks is what
/// `cbc_encrypt` ensures.
pub proof fn law_cbc_encryption(key: Seq<u8>, ivec: Seq<u8>, plain: Seq<u8>)
    requires
        key.len() == 16,
        ivec.len() == 8,
        plain.len() % 8 == 0,
    ensures
        ({
            let k1 = key.take(8);
            let k2 = key.skip(8);
            let cipher = cbc_encrypted(key, ivec, plain, (plain.len() / 8) as nat);
            (forall|i: nat|
                i <= plain.len() / 8 ==> #[trigger] cbc_encrypted(key, ivec, plain, i).len() == i
                    * 8) ==> {
                &&& cipher.len() == plain.len()
                &&& plain.len() >= 8 ==> cipher.take(8) == des_encrypted(
                    k1,
                    des_decrypted(
                        k2,
                        des_encrypted(k1, Seq::new(8, |k: int| plain[k] ^ ivec[k])),
                    ),
                )
                &&& forall|i: int|
                    1 <= i < plain.len() / 8 ==> #[trigger] cipher.subrange(i * 8, i * 8 + 8)
                        == des_encrypted(
                        k1,
                        des_decrypted(
                            k2,
                            des_encrypted(
                                k1,
                                Seq::new(
                                    8,
                                    |k: int| plain[i * 8 + k] ^ cipher[(i - 1) * 8 + k],
                                ),
                            ),
                        ),
                    )
            }
        }),
{
    let n = (plain.len() / 8) as nat;
    let k1 = key.take(8);
    let k2 = key.skip(8);
    let cipher = cbc_encrypted(key, ivec, plain, n);
    if forall|i: nat|
        i <= n ==> #[trigger] cbc_encrypted(key, ivec, plain, i).len() == i * 8 {
        assert(cbc_encrypted(key, ivec, plain, n).len() == n * 8);
        if n > 0 {
            let chained = Seq::new(8, |k: int| plain[k] ^ ivec[k]);
            lemma_cbc_block(key, ivec, plain, n, 0);
            assert(xor_blocks(block_of(plain, 0), ivec) =~= chained);
            law_triple_des(key, chained);
            assert(block_of(cipher, 0) =~= cipher.take(8));
        }
        assert forall|i: int| 1 <= i < n implies #[trigger] cipher.subrange(i * 8, i * 8 + 8)
            == des_encrypted(
            k1,
            des_decrypted(
                k2,
                des_encrypted(
                    k1,
                    Seq::new(8, |k: int| plain[i * 8 + k] ^ cipher[(i - 1) * 8 + k]),
                ),
            ),
        ) by {
            let chained = Seq::new(8, |k: int| plain[i * 8 + k] ^ cipher[(i - 1) * 8 + k]);
            lemma_cbc_block(key, ivec, plain, n, i);
            assert(xor_blocks(block_of(plain, i), block_of(cipher, i - 1)) =~= chained);
            law_triple_des(key, chained);
        }
    }
}

proof fn lemma_cbc_block(key: Seq<u8>, ivec: Seq<u8>, plain: Seq<u8>, count: nat, index: int)
    requires
        ivec.len() == 8,
        0 <= index < count,
        count * 8 <= plain.len(),
        forall|i: nat|
            i <= count ==> #[trigger] cbc_encrypted(key, ivec, plain, i).len() == i * 8,
    ensures
        ({
            let cipher = cbc_encrypted(key, ivec, plain, count);
            block_of(cipher, index) == triple_des_encrypted(
                key,
                xor_blocks(
                    block_of(plain, index),
                    if index == 0 {
                        ivec
                    } else {
                        block_of(cipher, index - 1)
                    },
                ),
            )
        }),
    decreases count,
{
    let cipher = cbc_encrypted(key, ivec, plain, count);
    let before = cbc_encrypted(key, ivec, plain, (count - 1) as nat);
    assert(before.len() == (count - 1) * 8);
    assert(cipher.len() == count * 8);
    if index == count - 1 {
        assert(block_of(cipher, index) =~= cipher.skip(before.len() as int));
        assert(block_of(cipher, index) =~= triple_des_encrypted(
            key,
            xor_blocks(block_of(plain, count - 1), chained_to(ivec, before, count - 1)),
        ));
        if index > 0 {
            assert(block_of(cipher, index - 1) =~= block_of(before, index - 1));
        }
    } else {
        lemma_cbc_block(key, ivec, plain, (count - 1) as nat, index);
        assert(block_of(cipher, index) =~= block_of(before, index));
        if index > 0 {
            assert(block_of(cipher, index - 1) =~= block_of(before, index - 1));
        }
    }
}

/// Two blocks are combined byte by byte.
pub proof fn law_blocks_are_combined(a: Seq<u8>, b: Seq<u8>)
    ensures
        xor_blocks(a, b).len() == 8,
        forall|i: int| 0 <= i < 8 ==> #[trigger] xor_blocks(a, b)[i] == a[i] ^ b[i],
{
}

} // verus!
