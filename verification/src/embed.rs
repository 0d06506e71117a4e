use vstd::prelude::*;

use rand::Rng;

use vstd::arithmetic::div_mod::{lemma_fundamental_div_mod, lemma_fundamental_div_mod_converse};
use vstd::pervasive::VecAdditionalExecFns;

use crate::codec::{
    bytes_result_view, decrypt, encrypt, lemma_encrypt_decrypt_round_trip, spec_ciphertext_len,
    spec_decrypt_blocks, spec_decrypt_result, spec_encrypt_blocks,
};
use crate::error::StegoError;
use crate::padding::spec_pad;

verus! {

/// Bit `j` of payload byte `b`, with bit 0 the least significant; 0 or 1.
pub open spec fn payload_bit(b: u8, j: int) -> u8 {
    (b >> (j as u8)) & 1
}

/// A carrier byte with its least-significant bit replaced by `bit`; the
/// other seven bits keep their value.
pub open spec fn stego_byte(c: u8, bit: u8) -> u8 {
    (c & 0xfe) | bit
}

/// The carrier after the bits of payload `p` are written into the
/// least-significant bits of the window of `8 * p.len()` bytes starting at
/// `off`: bit `j` of payload byte `i` lands in carrier byte
/// `off + 8 * i + j`, and every byte outside the window keeps its value.
pub open spec fn spec_embed(c: Seq<u8>, p: Seq<u8>, off: int) -> Seq<u8> {
    Seq::new(
        c.len(),
        |idx: int|
            if off <= idx && idx < off + 8 * p.len() {
                stego_byte(c[idx], payload_bit(p[(idx - off) / 8], (idx - off) % 8))
            } else {
                c[idx]
            },
    )
}

/// The payload byte reassembled from the least-significant bits of the
/// eight carrier bytes starting at `s`, least-significant bit first;
/// mirrors the embedding order exactly.
pub open spec fn spec_extracted_byte(c: Seq<u8>, s: int) -> u8 {
    (c[s] & 1) | ((c[s + 1] & 1) << 1u8) | ((c[s + 2] & 1) << 2u8) | ((c[s + 3] & 1) << 3u8) | ((
    c[s + 4] & 1) << 4u8) | ((c[s + 5] & 1) << 5u8) | ((c[s + 6] & 1) << 6u8) | ((c[s + 7]
        & 1) << 7u8)
}

/// The `n` payload bytes read back from the carrier's least-significant
/// bits starting at `off`, one byte per eight carrier bytes.
pub open spec fn spec_extract(c: Seq<u8>, off: int, n: nat) -> Seq<u8> {
    Seq::new(n, |i: int| spec_extracted_byte(c, off + 8 * i))
}

/// Whether a carrier of length `carrier_len` can hold the ciphertext of a
/// message of length `message_len` at eight carrier bytes per payload byte.
pub open spec fn spec_fits(carrier_len: nat, message_len: nat) -> bool {
    8 * spec_ciphertext_len(message_len) <= carrier_len
}

/// The ciphertext that hiding a message under a key embeds.
pub open spec fn spec_hide_ciphertext(m: Seq<u8>, key: Seq<u8>) -> Seq<u8> {
    spec_encrypt_blocks(key, spec_pad(m))
}

/// Relies on rand::Rng::gen_range over rand::thread_rng: the result lies
/// below the given bound; nothing else is assumed of a random value.
#[verifier::external_body]
fn random_below(bound: usize) -> (r: usize)
    requires
        bound >= 1,
    ensures
        r < bound,
{
    let mut rng = rand::thread_rng();
    rng.gen_range(0..bound)
}

/// Overwrites the least-significant bit position of one carrier byte.
fn write_lsb(carrier: &mut Vec<u8>, idx: usize, bit: u8)
    requires
        idx < old(carrier)@.len(),
    ensures
        final(carrier)@ == old(carrier)@.update(
            idx as int,
            stego_byte(old(carrier)@[idx as int], bit),
        ),
{
    let v: u8 = carrier[idx];
    carrier.set(idx, (v & 0xfe) | bit);
}

/// Writes the bits of `payload` into the least-significant bits of
/// `carrier`, eight carrier bytes per payload byte, starting at `offset`;
/// every other bit of the carrier keeps its value.
pub fn embed_bits(carrier: &mut Vec<u8>, payload: &Vec<u8>, offset: usize)
    requires
        offset + 8 * payload@.len() <= old(carrier)@.len(),
    ensures
        final(carrier)@ == spec_embed(old(carrier)@, payload@, offset as int),
{
    let n: usize = payload.len();
    let total: usize = carrier.len();
    let mut i: usize = 0;
    while i < n
        invariant
            n == payload@.len(),
            offset + 8 * n <= old(carrier)@.len(),
            old(carrier)@.len() == total,
            carrier@.len() == old(carrier)@.len(),
            i <= n,
            carrier@ == spec_embed(old(carrier)@, payload@.take(i as int), offset as int),
        decreases n - i,
    {
        let b: u8 = payload[i];
        let s: usize = offset + 8 * i;
        write_lsb(carrier, s, b & 1);
        write_lsb(carrier, s + 1, (b >> 1u8) & 1);
        write_lsb(carrier, s + 2, (b >> 2u8) & 1);
        write_lsb(carrier, s + 3, (b >> 3u8) & 1);
        write_lsb(carrier, s + 4, (b >> 4u8) & 1);
        write_lsb(carrier, s + 5, (b >> 5u8) & 1);
        write_lsb(carrier, s + 6, (b >> 6u8) & 1);
        write_lsb(carrier, s + 7, (b >> 7u8) & 1);
        proof {
            let oc = old(carrier)@;
            let p = payload@;
            let off = offset as int;
            let si = off + 8 * (i as int);
            assert(payload_bit(b, 0) == b & 1) by (bit_vector);
            assert forall|idx: int| 0 <= idx < carrier@.len() implies carrier@[idx] == spec_embed(
                oc,
                p.take(i as int + 1),
                off,
            )[idx] by {
                if si <= idx < si + 8 {
                    lemma_fundamental_div_mod_converse(idx - off, 8, i as int, idx - si);
                } else if off <= idx < si {
                    lemma_fundamental_div_mod(idx - off, 8);
                }
            }
            assert(carrier@ =~= spec_embed(oc, p.take(i as int + 1), off));
        }
        i += 1;
    }
    proof {
        assert(payload@.take(n as int) =~= payload@);
    }
}

/// Reads `count` payload bytes back from the least-significant bits of the
/// carrier, starting at `offset`, in the same order in which `embed_bits`
/// wrote them.
pub fn extract_bits(carrier: &Vec<u8>, offset: usize, count: usize) -> (r: Vec<u8>)
    requires
        offset + 8 * count <= carrier@.len(),
    ensures
        r@ == spec_extract(carrier@, offset as int, count as nat),
{
    let mut r: Vec<u8> = Vec::new();
    let total: usize = carrier.len();
    let mut i: usize = 0;
    while i < count
        invariant
            offset + 8 * count <= carrier@.len(),
            carrier@.len() == total,
            i <= count,
            r@ == spec_extract(carrier@, offset as int, i as nat),
        decreases count - i,
    {
        let s: usize = offset + 8 * i;
        let byte: u8 = (carrier[s] & 1) | ((carrier[s + 1] & 1) << 1u8) | ((carrier[s + 2] & 1)
            << 2u8) | ((carrier[s + 3] & 1) << 3u8) | ((carrier[s + 4] & 1) << 4u8) | ((carrier[s
            + 5] & 1) << 5u8) | ((carrier[s + 6] & 1) << 6u8) | ((carrier[s + 7] & 1) << 7u8);
        proof {
            assert(byte == spec_extracted_byte(carrier@, offset as int + 8 * (i as int)));
            assert(r@.push(byte) =~= spec_extract(
                carrier@,
                offset as int,
                (i + 1) as nat,
            ));
        }
        r.push(byte);
        i += 1;
    }
    r
}

/// Law: reading back the window that `spec_embed` wrote returns the
/// payload, whatever the carrier's prior contents.
pub proof fn lemma_extract_of_embed(c: Seq<u8>, p: Seq<u8>, off: int)
    requires
        0 <= off,
        off + 8 * p.len() <= c.len(),
    ensures
        spec_extract(spec_embed(c, p, off), off, p.len()) == p,
{
    let e = spec_embed(c, p, off);
    assert forall|i: int| 0 <= i < p.len() implies spec_extracted_byte(e, off + 8 * i) == p[i] by {
        let s = off + 8 * i;
        let b = p[i];
        lemma_fundamental_div_mod_converse(8 * i, 8, i, 0);
        lemma_fundamental_div_mod_converse(8 * i + 1, 8, i, 1);
        lemma_fundamental_div_mod_converse(8 * i + 2, 8, i, 2);
        lemma_fundamental_div_mod_converse(8 * i + 3, 8, i, 3);
        lemma_fundamental_div_mod_converse(8 * i + 4, 8, i, 4);
        lemma_fundamental_div_mod_converse(8 * i + 5, 8, i, 5);
        lemma_fundamental_div_mod_converse(8 * i + 6, 8, i, 6);
        lemma_fundamental_div_mod_converse(8 * i + 7, 8, i, 7);
        let c0 = c[s];
        let c1 = c[s + 1];
        let c2 = c[s + 2];
        let c3 = c[s + 3];
        let c4 = c[s + 4];
        let c5 = c[s + 5];
        let c6 = c[s + 6];
        let c7 = c[s + 7];
        assert(e[s] == stego_byte(c0, payload_bit(b, 0)));
        assert(e[s + 1] == stego_byte(c1, payload_bit(b, 1)));
        assert(e[s + 2] == stego_byte(c2, payload_bit(b, 2)));
        assert(e[s + 3] == stego_byte(c3, payload_bit(b, 3)));
        assert(e[s + 4] == stego_byte(c4, payload_bit(b, 4)));
        assert(e[s + 5] == stego_byte(c5, payload_bit(b, 5)));
        assert(e[s + 6] == stego_byte(c6, payload_bit(b, 6)));
        assert(e[s + 7] == stego_byte(c7, payload_bit(b, 7)));
        assert((((c0 & 0xfe) | ((b >> 0u8) & 1)) & 1) | ((((c1 & 0xfe) | ((b >> 1u8) & 1)) & 1)
            << 1u8) | ((((c2 & 0xfe) | ((b >> 2u8) & 1)) & 1) << 2u8) | ((((c3 & 0xfe) | ((b
            >> 3u8) & 1)) & 1) << 3u8) | ((((c4 & 0xfe) | ((b >> 4u8) & 1)) & 1) << 4u8) | ((((c5
            & 0xfe) | ((b >> 5u8) & 1)) & 1) << 5u8) | ((((c6 & 0xfe) | ((b >> 6u8) & 1)) & 1)
            << 6u8) | ((((c7 & 0xfe) | ((b >> 7u8) & 1)) & 1) << 7u8) == b) by (bit_vector);
        assert(spec_extracted_byte(e, s) == b);
    }
    assert(spec_extract(spec_embed(c, p, off), off, p.len()) =~= p);
}

/// Encrypts the message under the key, draws a random offset at which the
/// ciphertext's bits fit, and writes them into the carrier's
/// least-significant bits. Fails with `InvalidKeyLength` when the key is
/// not 16 bytes and with `CarrierTooSmall` when eight carrier bytes per
/// ciphertext byte do not fit; on failure the carrier keeps its exact
/// prior contents. Returns the chosen offset, which the caller must keep
/// to extract the message again.
pub fn hide_data(carrier: &mut Vec<u8>, message: &Vec<u8>, key: &Vec<u8>) -> (r: Result<
    usize,
    StegoError,
>)
    ensures
        final(carrier)@.len() == old(carrier)@.len(),
        key@.len() != 16 ==> r == Err::<usize, StegoError>(StegoError::InvalidKeyLength)
            && final(carrier)@ == old(carrier)@,
        key@.len() == 16 && !spec_fits(old(carrier)@.len(), message@.len()) ==> r == Err::<
            usize,
            StegoError,
        >(StegoError::CarrierTooSmall) && final(carrier)@ == old(carrier)@,
        key@.len() == 16 && spec_fits(old(carrier)@.len(), message@.len()) ==> (r matches Ok(off)
            && off + 8 * spec_ciphertext_len(message@.len()) <= old(carrier)@.len()
            && final(carrier)@ == spec_embed(
            old(carrier)@,
            spec_hide_ciphertext(message@, key@),
            off as int,
        )
            && spec_hide_ciphertext(message@, key@).len() == spec_ciphertext_len(message@.len())
            && spec_decrypt_blocks(key@, spec_hide_ciphertext(message@, key@)) == spec_pad(
            message@,
        )),
{
    if key.len() != 16 {
        return Err(StegoError::InvalidKeyLength);
    }
    let cap: usize = carrier.len() / 8;
    proof {
        lemma_fundamental_div_mod(old(carrier)@.len() as int, 8);
    }
    if message.len() >= cap {
        return Err(StegoError::CarrierTooSmall);
    }
    let ct: Vec<u8> = match encrypt(message, key) {
        Ok(v) => v,
        Err(e) => {
            proof {
                assert(false);
            }
            return Err(e);
        },
    };
    if ct.len() > cap {
        return Err(StegoError::CarrierTooSmall);
    }
    let bound: usize = carrier.len() - 8 * ct.len();
    let off: usize = random_below(bound + 1);
    embed_bits(carrier, &ct, off);
    Ok(off)
}

/// Reads `ciphertext_len` payload bytes from the carrier's
/// least-significant bits starting at `offset` and decrypts them. The
/// offset and length come from the caller: the carrier itself does not
/// record them. Fails with `InvalidKeyLength` when the key is not 16
/// bytes, with `CarrierTooSmall` when the window overruns the carrier, and
/// otherwise exactly as decryption of the recovered ciphertext fails.
pub fn extract_data(carrier: &Vec<u8>, key: &Vec<u8>, offset: usize, ciphertext_len: usize) -> (r:
    Result<Vec<u8>, StegoError>)
    ensures
        key@.len() != 16 ==> r == Err::<Vec<u8>, StegoError>(StegoError::InvalidKeyLength),
        key@.len() == 16 && offset + 8 * (ciphertext_len as int) > carrier@.len() ==> r == Err::<
            Vec<u8>,
            StegoError,
        >(StegoError::CarrierTooSmall),
        key@.len() == 16 && offset + 8 * (ciphertext_len as int) <= carrier@.len() ==>
            bytes_result_view(r) == spec_decrypt_result(
            spec_extract(carrier@, offset as int, ciphertext_len as nat),
            key@,
        ),
{
    if key.len() != 16 {
        return Err(StegoError::InvalidKeyLength);
    }
    if offset > carrier.len() {
        return Err(StegoError::CarrierTooSmall);
    }
    proof {
        lemma_fundamental_div_mod(carrier@.len() - offset, 8);
    }
    if ciphertext_len > (carrier.len() - offset) / 8 {
        return Err(StegoError::CarrierTooSmall);
    }
    let ct: Vec<u8> = extract_bits(carrier, offset, ciphertext_len);
    decrypt(&ct, key)
}

/// Law: extracting at the offset that hiding chose, over the ciphertext's
/// length, recovers the ciphertext bit for bit, and decrypting it under
/// the same key returns the original message. The premises are exactly
/// what `hide_data` ensures of a successful call.
pub proof fn lemma_hide_extract_round_trip(
    carrier: Seq<u8>,
    message: Seq<u8>,
    key: Seq<u8>,
    ct: Seq<u8>,
    off: int,
)
    requires
        key.len() == 16,
        ct.len() == spec_ciphertext_len(message.len()),
        spec_decrypt_blocks(key, ct) == spec_pad(message),
        0 <= off,
        off + 8 * ct.len() <= carrier.len(),
    ensures
        spec_extract(spec_embed(carrier, ct, off), off, ct.len()) == ct,
        spec_decrypt_result(spec_extract(spec_embed(carrier, ct, off), off, ct.len()), key)
            == Ok::<Seq<u8>, StegoError>(message),
{
    lemma_extract_of_embed(carrier, ct, off);
    lemma_encrypt_decrypt_round_trip(message, key, ct);
}

} // verus!
