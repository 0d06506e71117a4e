use stego::block::{decrypt_block, encrypt_block};
use stego::codec::{decrypt, encrypt};
use stego::embed::{embed_bits, extract_bits, extract_data, hide_data};
use stego::padding::{pad, unpad};
use stego::StegoError;

fn key16() -> Vec<u8> {
    vec![
        0x00, 0x01, 0x02, 0x03, 0x04, 0x05, 0x06, 0x07, 0x08, 0x09, 0x0a, 0x0b, 0x0c, 0x0d, 0x0e,
        0x0f,
    ]
}

fn ciphertext_len_for(message_len: usize) -> usize {
    message_len + (16 - message_len % 16)
}

#[test]
fn round_trip_codec() {
    let key = key16();
    let cases: Vec<Vec<u8>> = vec![
        Vec::new(),
        vec![0x41],
        b"fifteen bytes..".to_vec(),
        b"exactly sixteen!".to_vec(),
        b"a somewhat longer message spanning blocks".to_vec(),
        vec![0x00; 64],
        vec![0xff; 33],
    ];
    for p in cases {
        let ct = encrypt(&p, &key).unwrap();
        let back = decrypt(&ct, &key).unwrap();
        assert_eq!(back, p);
    }
}

#[test]
fn ciphertext_length_is_padded_multiple() {
    let key = key16();
    for n in [0usize, 1, 15, 16, 17, 31, 32, 100] {
        let p = vec![0xabu8; n];
        let ct = encrypt(&p, &key).unwrap();
        assert_eq!(ct.len() % 16, 0);
        assert!(ct.len() >= n + 1);
        assert_eq!(ct.len(), ciphertext_len_for(n));
    }
}

#[test]
fn bad_key_length_everywhere() {
    let bad = b"hacker".to_vec();
    let msg = b"secret message".to_vec();
    let mut carrier = vec![0u8; 4096];
    let before = carrier.clone();
    assert_eq!(encrypt(&msg, &bad), Err(StegoError::InvalidKeyLength));
    assert_eq!(decrypt(&vec![0u8; 16], &bad), Err(StegoError::InvalidKeyLength));
    assert_eq!(hide_data(&mut carrier, &msg, &bad), Err(StegoError::InvalidKeyLength));
    assert_eq!(carrier, before);
    assert_eq!(extract_data(&carrier, &bad, 0, 16), Err(StegoError::InvalidKeyLength));
    assert_eq!(encrypt_block(&vec![0u8; 16], &bad), Err(StegoError::InvalidKeyLength));
    assert_eq!(decrypt_block(&vec![0u8; 16], &bad), Err(StegoError::InvalidKeyLength));
}

#[test]
fn aes_known_vector() {
    let key = key16();
    let plain: Vec<u8> = vec![
        0x00, 0x11, 0x22, 0x33, 0x44, 0x55, 0x66, 0x77, 0x88, 0x99, 0xaa, 0xbb, 0xcc, 0xdd, 0xee,
        0xff,
    ];
    let expected: Vec<u8> = vec![
        0x69, 0xc4, 0xe0, 0xd8, 0x6a, 0x7b, 0x04, 0x30, 0xd8, 0xcd, 0xb7, 0x80, 0x70, 0xb4, 0xc5,
        0x5a,
    ];
    let ct = encrypt_block(&plain, &key).unwrap();
    assert_eq!(ct, expected);
    let back = decrypt_block(&ct, &key).unwrap();
    assert_eq!(back, plain);
}

#[test]
fn block_size_is_checked() {
    let key = key16();
    assert_eq!(encrypt_block(&vec![0u8; 5], &key), Err(StegoError::InvalidBlockSize));
    assert_eq!(decrypt_block(&vec![0u8; 17], &key), Err(StegoError::InvalidBlockSize));
}

#[test]
fn pad_appends_indicator_bytes() {
    let empty: Vec<u8> = Vec::new();
    let p0 = pad(&empty);
    assert_eq!(p0, vec![16u8; 16]);

    let fifteen = vec![9u8; 15];
    let p15 = pad(&fifteen);
    assert_eq!(p15.len(), 16);
    assert_eq!(p15[15], 1);
    assert_eq!(&p15[..15], &fifteen[..]);

    let sixteen = vec![7u8; 16];
    let p16 = pad(&sixteen);
    assert_eq!(p16.len(), 32);
    assert_eq!(&p16[..16], &sixteen[..]);
    assert_eq!(&p16[16..], &vec![16u8; 16][..]);
}

#[test]
fn unpad_accepts_exact_padding() {
    assert_eq!(unpad(&vec![1, 2, 3, 3, 3]), Ok(vec![1, 2]));
    assert_eq!(unpad(&vec![3, 3, 3]), Ok(Vec::new()));
    assert_eq!(unpad(&vec![16u8; 16]), Ok(Vec::new()));
}

#[test]
fn unpad_rejects_malformed_padding() {
    assert_eq!(unpad(&Vec::new()), Err(StegoError::InvalidPadding));
    assert_eq!(unpad(&vec![5, 5, 0]), Err(StegoError::InvalidPadding));
    assert_eq!(unpad(&vec![0u8; 16]), Err(StegoError::InvalidPadding));
    assert_eq!(unpad(&vec![17u8; 17]), Err(StegoError::InvalidPadding));
    assert_eq!(unpad(&vec![2, 4]), Err(StegoError::InvalidPadding));
    assert_eq!(unpad(&vec![3, 1, 3, 3]), Err(StegoError::InvalidPadding));
}

#[test]
fn decrypt_rejects_bad_lengths() {
    let key = key16();
    assert_eq!(decrypt(&Vec::new(), &key), Err(StegoError::InvalidCiphertextLength));
    assert_eq!(decrypt(&vec![0u8; 15], &key), Err(StegoError::InvalidCiphertextLength));
    assert_eq!(decrypt(&vec![0u8; 33], &key), Err(StegoError::InvalidCiphertextLength));
}

#[test]
fn decrypt_rejects_bad_padding() {
    let key = key16();
    // A buffer whose final byte is 0 is never valid padding; encrypt it as
    // one raw block so decryption deterministically uncovers it.
    let mut raw = vec![9u8; 16];
    raw[15] = 0;
    let ct = encrypt_block(&raw, &key).unwrap();
    assert_eq!(decrypt(&ct, &key), Err(StegoError::InvalidPadding));
}

#[test]
fn embed_extract_bits_round_trip() {
    let mut carrier: Vec<u8> = (0..64).map(|i| (i * 37 % 256) as u8).collect();
    let before = carrier.clone();
    let payload = vec![0x5a, 0xff, 0x00];
    let offset = 5;
    embed_bits(&mut carrier, &payload, offset);
    assert_eq!(extract_bits(&carrier, offset, payload.len()), payload);
    for idx in 0..carrier.len() {
        if idx < offset || idx >= offset + 8 * payload.len() {
            assert_eq!(carrier[idx], before[idx]);
        } else {
            assert_eq!(carrier[idx] & 0xfe, before[idx] & 0xfe);
        }
    }
}

#[test]
fn lsb_bit_order_is_least_significant_first() {
    let mut carrier = vec![0u8; 16];
    // 0b1000_0011: bits 0, 1 and 7 are set.
    embed_bits(&mut carrier, &vec![0x83], 0);
    assert_eq!(carrier, vec![1, 1, 0, 0, 0, 0, 0, 1, 0, 0, 0, 0, 0, 0, 0, 0]);
}

#[test]
fn hide_then_extract_round_trip() {
    let key = key16();
    let message = b"attack at dawn".to_vec();
    let mut carrier: Vec<u8> = (0..2048).map(|i| (i * 131 % 256) as u8).collect();
    let offset = hide_data(&mut carrier, &message, &key).unwrap();
    let ct_len = ciphertext_len_for(message.len());
    assert!(offset + 8 * ct_len <= carrier.len());
    let back = extract_data(&carrier, &key, offset, ct_len).unwrap();
    assert_eq!(back, message);
}

#[test]
fn hide_boundary_exact_fit() {
    let key = key16();
    let message = vec![4u8; 15];
    // Ciphertext is one block: 16 bytes, needing exactly 128 carrier bytes.
    let mut exact = vec![0xaau8; 128];
    let offset = hide_data(&mut exact, &message, &key).unwrap();
    assert_eq!(offset, 0);
    assert_eq!(extract_data(&exact, &key, 0, 16).unwrap(), message);

    let mut short = vec![0xaau8; 127];
    let before = short.clone();
    assert_eq!(hide_data(&mut short, &message, &key), Err(StegoError::CarrierTooSmall));
    assert_eq!(short, before);
}

#[test]
fn concrete_scenario_zero_carrier() {
    let key = key16();
    let message = b"secret message".to_vec();
    let ct = encrypt(&message, &key).unwrap();
    assert_eq!(ct.len(), 16);

    let mut carrier = vec![0u8; 4096];
    let offset = hide_data(&mut carrier, &message, &key).unwrap();
    assert!(offset + 128 <= 4096);
    for idx in 0..carrier.len() {
        if idx < offset || idx >= offset + 128 {
            assert_eq!(carrier[idx], 0);
        } else {
            assert!(carrier[idx] <= 1);
        }
    }
    assert_eq!(extract_bits(&carrier, offset, 16), ct);
    assert_eq!(extract_data(&carrier, &key, offset, 16).unwrap(), message);
}

#[test]
fn oversized_message_leaves_carrier_untouched() {
    let key = key16();
    // 256-byte carrier: at most 32 ciphertext bytes fit, so a message that
    // pads past two blocks must be refused without touching a byte.
    let mut carrier: Vec<u8> = (0..256).map(|i| (i % 256) as u8).collect();
    let before = carrier.clone();
    let message = vec![1u8; 100];
    assert_eq!(hide_data(&mut carrier, &message, &key), Err(StegoError::CarrierTooSmall));
    assert_eq!(carrier, before);
}

#[test]
fn extract_window_bounds_are_checked() {
    let key = key16();
    let carrier = vec![0u8; 100];
    assert_eq!(extract_data(&carrier, &key, 101, 0), Err(StegoError::CarrierTooSmall));
    assert_eq!(extract_data(&carrier, &key, 0, 13), Err(StegoError::CarrierTooSmall));
    assert_eq!(extract_data(&carrier, &key, 40, 8), Err(StegoError::CarrierTooSmall));
    // An in-bounds window of length zero reaches decryption, which rejects
    // an empty ciphertext.
    assert_eq!(extract_data(&carrier, &key, 100, 0), Err(StegoError::InvalidCiphertextLength));
}

#[test]
fn encrypt_is_deterministic_and_not_identity() {
    let key = key16();
    let message = b"same input, same output".to_vec();
    let a = encrypt(&message, &key).unwrap();
    let b = encrypt(&message, &key).unwrap();
    assert_eq!(a, b);
    assert_ne!(&a[..message.len()], &message[..]);
}
