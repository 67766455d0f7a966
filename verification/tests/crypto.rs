//! Channel hashes, keys and the cipher.

use meshtastic::crypto::{
    build_nonce, channel_hash, decrypt_packet, encrypt_packet, expand_psk, ChannelKey, CryptoError,
    DEFAULT_PSK, EVENT_PSK, MAX_PACKET_PAYLOAD,
};

#[test]
fn channel_hash_empty() {
    assert_eq!(channel_hash("", &[]), 0);
}

#[test]
fn channel_hash_default_longfast() {
    let h = channel_hash("LongFast", &DEFAULT_PSK);
    let mut x = 0u8;
    for &b in b"LongFast" {
        x ^= b;
    }
    for &b in &DEFAULT_PSK {
        x ^= b;
    }
    assert_eq!(h, x);
}

#[test]
fn expand_empty_and_zero() {
    assert!(expand_psk(&[]).is_empty());
    assert!(expand_psk(&[0]).is_empty());
}

#[test]
fn expand_short_index_1_is_default_psk() {
    assert_eq!(expand_psk(&[1]), DEFAULT_PSK.to_vec());
}

#[test]
fn expand_short_index_bumps_last_byte() {
    let mut expected = DEFAULT_PSK.to_vec();
    let last = expected.len() - 1;
    expected[last] = expected[last].wrapping_add(9);
    assert_eq!(expand_psk(&[10]), expected);
}

#[test]
fn expand_short_index_255_wraps() {
    let mut expected = DEFAULT_PSK.to_vec();
    let last = expected.len() - 1;
    expected[last] = expected[last].wrapping_add(254);
    assert_eq!(expand_psk(&[255]), expected);
}

#[test]
fn expand_pads_subkey_to_16() {
    let got = expand_psk(&[1, 2, 3]);
    assert_eq!(got.len(), 16);
    assert_eq!(&got[..3], &[1, 2, 3]);
    assert!(got[3..].iter().all(|&b| b == 0));
}

#[test]
fn expand_pads_subkey_to_32() {
    let input = vec![0xaau8; 17];
    let got = expand_psk(&input);
    assert_eq!(got.len(), 32);
    assert_eq!(&got[..17], &input[..]);
    assert!(got[17..].iter().all(|&b| b == 0));
}

#[test]
fn expand_passthrough_16_and_32() {
    assert_eq!(expand_psk(&DEFAULT_PSK), DEFAULT_PSK.to_vec());
    assert_eq!(expand_psk(&EVENT_PSK), EVENT_PSK.to_vec());
}

#[test]
fn build_nonce_layout() {
    let n = build_nonce(0x12345678, 0x0123_4567_89ab_cdef);
    assert_eq!(&n[..8], &0x0123_4567_89ab_cdef_u64.to_le_bytes());
    assert_eq!(&n[8..12], &0x12345678_u32.to_le_bytes());
    assert_eq!(&n[12..], &[0, 0, 0, 0]);
}

#[test]
fn encrypt_roundtrip_aes128() {
    let mut payload = b"hello world".to_vec();
    let original = payload.clone();
    encrypt_packet(&DEFAULT_PSK, 42, 99, &mut payload).unwrap();
    assert_ne!(payload, original);
    decrypt_packet(&DEFAULT_PSK, 42, 99, &mut payload).unwrap();
    assert_eq!(payload, original);
}

#[test]
fn encrypt_roundtrip_aes256() {
    let mut payload = vec![0x5au8; 100];
    let original = payload.clone();
    encrypt_packet(&EVENT_PSK, 7, 11, &mut payload).unwrap();
    assert_ne!(payload, original);
    decrypt_packet(&EVENT_PSK, 7, 11, &mut payload).unwrap();
    assert_eq!(payload, original);
}

#[test]
fn encrypt_rejects_bad_key_length() {
    let mut payload = [0u8; 1];
    assert_eq!(
        encrypt_packet(&[0u8; 15], 0, 0, &mut payload),
        Err(CryptoError::InvalidKeyLength(15))
    );
    assert_eq!(
        encrypt_packet(&[0u8; 24], 0, 0, &mut payload),
        Err(CryptoError::InvalidKeyLength(24))
    );
}

#[test]
fn encrypt_rejects_oversize_payload() {
    let mut payload = vec![0u8; MAX_PACKET_PAYLOAD + 1];
    assert_eq!(
        encrypt_packet(&DEFAULT_PSK, 0, 0, &mut payload),
        Err(CryptoError::PayloadTooLarge(MAX_PACKET_PAYLOAD + 1))
    );
}

#[test]
fn encrypt_empty_payload_is_noop() {
    let mut payload: [u8; 0] = [];
    encrypt_packet(&DEFAULT_PSK, 0, 0, &mut payload).unwrap();
}

#[test]
fn channel_key_wrapper() {
    let k = ChannelKey::from_expanded(&DEFAULT_PSK).unwrap();
    assert_eq!(k.as_bytes(), &DEFAULT_PSK);
    assert!(ChannelKey::from_expanded(&[0u8; 8]).is_err());
    assert!(ChannelKey::from_stored_psk(&[]).is_none());
    assert!(ChannelKey::from_stored_psk(&[0]).is_none());
    let k2 = ChannelKey::from_stored_psk(&[1]).unwrap();
    assert_eq!(k2.as_bytes(), &DEFAULT_PSK);
    let dbg = k.describe();
    assert!(dbg.contains("redacted"));
    assert!(!dbg.contains("d4f1bb"));
}
