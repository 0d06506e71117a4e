use vstd::prelude::*;

use aes::cipher::generic_array::GenericArray;
use aes::{Aes128, BlockDecrypt, BlockEncrypt, NewBlockCipher};

use crate::error::StegoError;

verus! {

/// The AES-128 encryption of one 16-byte block under a 16-byte key.
/// Uninterpreted: the trusted wrappers below are the only source of facts
/// about it.
pub uninterp spec fn aes_enc(key: Seq<u8>, block: Seq<u8>) -> Seq<u8>;

/// The AES-128 decryption of one 16-byte block under a 16-byte key.
/// Uninterpreted, like `aes_enc`.
pub uninterp spec fn aes_dec(key: Seq<u8>, block: Seq<u8>) -> Seq<u8>;

/// Relies on aes::Aes128 (NewBlockCipher::new, BlockEncrypt::encrypt_block):
/// a pure, deterministic function of key and block yielding one 16-byte
/// block, which BlockDecrypt::decrypt_block inverts, as the crate's
/// documentation states and its doc example asserts.
#[verifier::external_body]
pub(crate) fn aes128_encrypt_block(block: &Vec<u8>, key: &Vec<u8>) -> (r: Vec<u8>)
    requires
        key@.len() == 16,
        block@.len() == 16,
    ensures
        r@.len() == 16,
        r@ == aes_enc(key@, block@),
        aes_dec(key@, r@) == block@,
{
    let cipher = Aes128::new(GenericArray::from_slice(key.as_slice()));
    let mut b = GenericArray::clone_from_slice(block.as_slice());
    cipher.encrypt_block(&mut b);
    b.to_vec()
}

/// Relies on aes::Aes128 (NewBlockCipher::new, BlockDecrypt::decrypt_block):
/// a pure, deterministic function of key and block yielding one 16-byte
/// block.
#[verifier::external_body]
pub(crate) fn aes128_decrypt_block(block: &Vec<u8>, key: &Vec<u8>) -> (r: Vec<u8>)
    requires
        key@.len() == 16,
        block@.len() == 16,
    ensures
        r@.len() == 16,
        r@ == aes_dec(key@, block@),
{
    let cipher = Aes128::new(GenericArray::from_slice(key.as_slice()));
    let mut b = GenericArray::clone_from_slice(block.as_slice());
    cipher.decrypt_block(&mut b);
    b.to_vec()
}

/// Encrypts a single 16-byte block under a 16-byte key; pure and
/// deterministic, with no side effects.
pub fn encrypt_block(block: &Vec<u8>, key: &Vec<u8>) -> (r: Result<Vec<u8>, StegoError>)
    ensures
        key@.len() != 16 ==> r == Err::<Vec<u8>, StegoError>(StegoError::InvalidKeyLength),
        key@.len() == 16 && block@.len() != 16 ==> r == Err::<Vec<u8>, StegoError>(
            StegoError::InvalidBlockSize,
        ),
        key@.len() == 16 && block@.len() == 16 ==> (r matches Ok(c) && c@ == aes_enc(
            key@,
            block@,
        ) && c@.len() == 16 && aes_dec(key@, c@) == block@),
{
    if key.len() != 16 {
        return Err(StegoError::InvalidKeyLength);
    }
    if block.len() != 16 {
        return Err(StegoError::InvalidBlockSize);
    }
    Ok(aes128_encrypt_block(block, key))
}

/// Decrypts a single 16-byte block under a 16-byte key; pure and
/// deterministic, with no side effects.
pub fn decrypt_block(block: &Vec<u8>, key: &Vec<u8>) -> (r: Result<Vec<u8>, StegoError>)
    ensures
        key@.len() != 16 ==> r == Err::<Vec<u8>, StegoError>(StegoError::InvalidKeyLength),
        key@.len() == 16 && block@.len() != 16 ==> r == Err::<Vec<u8>, StegoError>(
            StegoError::InvalidBlockSize,
        ),
        key@.len() == 16 && block@.len() == 16 ==> (r matches Ok(p) && p@ == aes_dec(
            key@,
            block@,
        ) && p@.len() == 16),
{
    if key.len() != 16 {
        return Err(StegoError::InvalidKeyLength);
    }
    if block.len() != 16 {
        return Err(StegoError::InvalidBlockSize);
    }
    Ok(aes128_decrypt_block(block, key))
}

} // verus!
