use vstd::prelude::*;

use crate::block::{aes128_decrypt_block, aes128_encrypt_block, aes_dec, aes_enc};
use crate::error::StegoError;
use crate::padding::{pad, spec_pad, spec_pad_len, spec_unpad, unpad};

verus! {

/// The concatenation of the AES encryptions of the consecutive 16-byte
/// blocks of `data`, each block encrypted independently (no chaining state
/// between blocks). A trailing fragment shorter than 16 bytes contributes
/// nothing; callers only apply this to data whose length is a multiple
/// of 16.
pub open spec fn spec_encrypt_blocks(key: Seq<u8>, data: Seq<u8>) -> Seq<u8>
    decreases data.len(),
{
    if data.len() < 16 {
        Seq::empty()
    } else {
        aes_enc(key, data.take(16)) + spec_encrypt_blocks(key, data.skip(16))
    }
}

/// The concatenation of the AES decryptions of the consecutive 16-byte
/// blocks of `data`, each block decrypted independently.
pub open spec fn spec_decrypt_blocks(key: Seq<u8>, data: Seq<u8>) -> Seq<u8>
    decreases data.len(),
{
    if data.len() < 16 {
        Seq::empty()
    } else {
        aes_dec(key, data.take(16)) + spec_decrypt_blocks(key, data.skip(16))
    }
}

/// Length of the ciphertext produced for a plaintext of length `n`: the
/// padded length, a multiple of 16 and at least `n + 1`.
pub open spec fn spec_ciphertext_len(n: nat) -> nat {
    n + spec_pad_len(n)
}

/// A whole-message encryption result, seen abstractly: the bytes of an `Ok`
/// through their view, an `Err` unchanged.
pub open spec fn bytes_result_view(r: Result<Vec<u8>, StegoError>) -> Result<
    Seq<u8>,
    StegoError,
> {
    match r {
        Ok(v) => Ok(v@),
        Err(e) => Err(e),
    }
}

/// What `decrypt` returns for a given ciphertext and key.
pub open spec fn spec_decrypt_result(ct: Seq<u8>, key: Seq<u8>) -> Result<Seq<u8>, StegoError> {
    if key.len() != 16 {
        Err(StegoError::InvalidKeyLength)
    } else if ct.len() == 0 || ct.len() % 16 != 0 {
        Err(StegoError::InvalidCiphertextLength)
    } else {
        match spec_unpad(spec_decrypt_blocks(key, ct)) {
            Some(p) => Ok(p),
            None => Err(StegoError::InvalidPadding),
        }
    }
}

/// What `encrypt` returns for a given plaintext and key.
pub open spec fn spec_encrypt_result(p: Seq<u8>, key: Seq<u8>) -> Result<Seq<u8>, StegoError> {
    if key.len() != 16 {
        Err(StegoError::InvalidKeyLength)
    } else {
        Ok(spec_encrypt_blocks(key, spec_pad(p)))
    }
}

proof fn lemma_encrypt_blocks_snoc(key: Seq<u8>, a: Seq<u8>, b: Seq<u8>)
    requires
        a.len() % 16 == 0,
        b.len() == 16,
    ensures
        spec_encrypt_blocks(key, a + b) == spec_encrypt_blocks(key, a) + aes_enc(key, b),
    decreases a.len(),
{
    if a.len() == 0 {
        assert(a + b =~= b);
        assert(b.take(16) =~= b);
        assert(b.skip(16) =~= Seq::<u8>::empty());
        assert(spec_encrypt_blocks(key, b.skip(16)) == Seq::<u8>::empty());
        assert(spec_encrypt_blocks(key, a) == Seq::<u8>::empty());
        assert(spec_encrypt_blocks(key, a + b) =~= spec_encrypt_blocks(key, a) + aes_enc(
            key,
            b,
        ));
    } else {
        assert((a + b).take(16) =~= a.take(16));
        assert((a + b).skip(16) =~= a.skip(16) + b);
        assert(a.skip(16).len() % 16 == 0);
        lemma_encrypt_blocks_snoc(key, a.skip(16), b);
        assert(aes_enc(key, a.take(16)) + (spec_encrypt_blocks(key, a.skip(16)) + aes_enc(
            key,
            b,
        )) =~= (aes_enc(key, a.take(16)) + spec_encrypt_blocks(key, a.skip(16))) + aes_enc(
            key,
            b,
        ));
        assert(spec_encrypt_blocks(key, a + b) =~= spec_encrypt_blocks(key, a) + aes_enc(
            key,
            b,
        ));
    }
}

proof fn lemma_decrypt_blocks_snoc(key: Seq<u8>, a: Seq<u8>, b: Seq<u8>)
    requires
        a.len() % 16 == 0,
        b.len() == 16,
    ensures
        spec_decrypt_blocks(key, a + b) == spec_decrypt_blocks(key, a) + aes_dec(key, b),
    decreases a.len(),
{
    if a.len() == 0 {
        assert(a + b =~= b);
        assert(b.take(16) =~= b);
        assert(b.skip(16) =~= Seq::<u8>::empty());
        assert(spec_decrypt_blocks(key, b.skip(16)) == Seq::<u8>::empty());
        assert(spec_decrypt_blocks(key, a) == Seq::<u8>::empty());
        assert(spec_decrypt_blocks(key, a + b) =~= spec_decrypt_blocks(key, a) + aes_dec(
            key,
            b,
        ));
    } else {
        assert((a + b).take(16) =~= a.take(16));
        assert((a + b).skip(16) =~= a.skip(16) + b);
        assert(a.skip(16).len() % 16 == 0);
        lemma_decrypt_blocks_snoc(key, a.skip(16), b);
        assert(aes_dec(key, a.take(16)) + (spec_decrypt_blocks(key, a.skip(16)) + aes_dec(
            key,
            b,
        )) =~= (aes_dec(key, a.take(16)) + spec_decrypt_blocks(key, a.skip(16))) + aes_dec(
            key,
            b,
        ));
        assert(spec_decrypt_blocks(key, a + b) =~= spec_decrypt_blocks(key, a) + aes_dec(
            key,
            b,
        ));
    }
}

/// Pads the plaintext, encrypts each 16-byte block independently, and
/// concatenates the encrypted blocks in order. Fails exactly when the key
/// is not 16 bytes, before anything is computed; the ciphertext's length is
/// a multiple of 16 and exceeds the plaintext's.
pub fn encrypt(plaintext: &Vec<u8>, key: &Vec<u8>) -> (r: Result<Vec<u8>, StegoError>)
    requires
        plaintext@.len() + 16 <= usize::MAX,
    ensures
        bytes_result_view(r) == spec_encrypt_result(plaintext@, key@),
        r is Err <==> key@.len() != 16,
        r matches Ok(ct) ==> ct@.len() == spec_ciphertext_len(plaintext@.len())
            && ct@.len() % 16 == 0 && ct@.len() >= plaintext@.len() + 1 && spec_decrypt_blocks(
            key@,
            ct@,
        ) == spec_pad(plaintext@),
{
    if key.len() != 16 {
        return Err(StegoError::InvalidKeyLength);
    }
    let padded = pad(plaintext);
    proof {
        vstd::arithmetic::div_mod::lemma_fundamental_div_mod(plaintext@.len() as int, 16);
        vstd::arithmetic::div_mod::lemma_mod_multiples_basic(
            plaintext@.len() as int / 16 + 1,
            16,
        );
        assert(padded@.len() % 16 == 0);
        vstd::arithmetic::div_mod::lemma_fundamental_div_mod(padded@.len() as int, 16);
    }
    let nblocks = padded.len() / 16;
    assert(16 * nblocks == padded@.len());
    let mut ct: Vec<u8> = Vec::new();
    let mut bi: usize = 0;
    while bi < nblocks
        invariant
            key@.len() == 16,
            padded@ == spec_pad(plaintext@),
            padded@.len() % 16 == 0,
            16 * nblocks == padded@.len(),
            padded@.len() <= usize::MAX,
            bi <= nblocks,
            ct@.len() == 16 * bi,
            ct@ == spec_encrypt_blocks(key@, padded@.take(16 * bi as int)),
            spec_decrypt_blocks(key@, ct@) == padded@.take(16 * bi as int),
        decreases nblocks - bi,
    {
        let base = 16 * bi;
        let mut blockv: Vec<u8> = Vec::new();
        let mut t: usize = 0;
        while t < 16
            invariant
                t <= 16,
                base == 16 * bi,
                base + 16 <= padded@.len(),
                blockv@ == padded@.subrange(base as int, base as int + t),
            decreases 16 - t,
        {
            blockv.push(padded[base + t]);
            proof {
                assert(padded@.subrange(base as int, base as int + t + 1) =~= padded@.subrange(
                    base as int,
                    base as int + t,
                ).push(padded@[base as int + t]));
            }
            t += 1;
        }
        let mut eb = aes128_encrypt_block(&blockv, key);
        proof {
            let prefix = padded@.take(16 * bi as int);
            assert(padded@.take(16 * (bi + 1) as int) =~= prefix + blockv@);
            lemma_encrypt_blocks_snoc(key@, prefix, blockv@);
            lemma_decrypt_blocks_snoc(key@, ct@, eb@);
        }
        ct.append(&mut eb);
        bi += 1;
    }
    proof {
        assert(padded@.take(padded@.len() as int) =~= padded@);
    }
    Ok(ct)
}

/// Splits the ciphertext into 16-byte blocks, decrypts each independently,
/// concatenates, and strips the padding. Fails with `InvalidKeyLength` when
/// the key is not 16 bytes, with `InvalidCiphertextLength` when the
/// ciphertext is empty or its length is not a multiple of 16, and with
/// `InvalidPadding` when the decrypted buffer's padding is malformed.
pub fn decrypt(ciphertext: &Vec<u8>, key: &Vec<u8>) -> (r: Result<Vec<u8>, StegoError>)
    ensures
        bytes_result_view(r) == spec_decrypt_result(ciphertext@, key@),
        r == Err::<Vec<u8>, StegoError>(StegoError::InvalidKeyLength) <==> key@.len() != 16,
{
    if key.len() != 16 {
        return Err(StegoError::InvalidKeyLength);
    }
    if ciphertext.len() == 0 || ciphertext.len() % 16 != 0 {
        return Err(StegoError::InvalidCiphertextLength);
    }
    let nblocks = ciphertext.len() / 16;
    proof {
        vstd::arithmetic::div_mod::lemma_fundamental_div_mod(ciphertext@.len() as int, 16);
    }
    assert(16 * nblocks == ciphertext@.len());
    let mut pt: Vec<u8> = Vec::new();
    let mut bi: usize = 0;
    while bi < nblocks
        invariant
            key@.len() == 16,
            16 * nblocks == ciphertext@.len(),
            ciphertext@.len() <= usize::MAX,
            bi <= nblocks,
            pt@.len() == 16 * bi,
            pt@ == spec_decrypt_blocks(key@, ciphertext@.take(16 * bi as int)),
        decreases nblocks - bi,
    {
        let base = 16 * bi;
        let mut blockv: Vec<u8> = Vec::new();
        let mut t: usize = 0;
        while t < 16
            invariant
                t <= 16,
                base == 16 * bi,
                base + 16 <= ciphertext@.len(),
                blockv@ == ciphertext@.subrange(base as int, base as int + t),
            decreases 16 - t,
        {
            blockv.push(ciphertext[base + t]);
            proof {
                assert(ciphertext@.subrange(base as int, base as int + t + 1)
                    =~= ciphertext@.subrange(base as int, base as int + t).push(
                    ciphertext@[base as int + t],
                ));
            }
            t += 1;
        }
        let mut db = aes128_decrypt_block(&blockv, key);
        proof {
            let prefix = ciphertext@.take(16 * bi as int);
            assert(ciphertext@.take(16 * (bi + 1) as int) =~= prefix + blockv@);
            lemma_decrypt_blocks_snoc(key@, prefix, blockv@);
        }
        pt.append(&mut db);
        bi += 1;
    }
    proof {
        assert(ciphertext@.take(ciphertext@.len() as int) =~= ciphertext@);
    }
    match unpad(&pt) {
        Ok(d) => Ok(d),
        Err(e) => Err(e),
    }
}

/// Law: decrypting any ciphertext that `encrypt` produced, under the same
/// key, returns the original plaintext. The two premises are exactly what
/// `encrypt` ensures of its result.
pub proof fn lemma_encrypt_decrypt_round_trip(plaintext: Seq<u8>, key: Seq<u8>, ct: Seq<u8>)
    requires
        key.len() == 16,
        ct.len() == spec_ciphertext_len(plaintext.len()),
        spec_decrypt_blocks(key, ct) == spec_pad(plaintext),
    ensures
        spec_decrypt_result(ct, key) == Ok::<Seq<u8>, StegoError>(plaintext),
{
    let n = plaintext.len();
    vstd::arithmetic::div_mod::lemma_fundamental_div_mod(n as int, 16);
    assert(ct.len() == 16 * (n / 16) + 16);
    vstd::arithmetic::div_mod::lemma_mod_multiples_basic(n as int / 16 + 1, 16);
    assert(ct.len() % 16 == 0);
    crate::padding::lemma_unpad_of_pad(plaintext);
}

} // verus!
