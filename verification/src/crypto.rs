//! Channel-packet cryptography.
//!
//! Three primitives: [`channel_hash`], the 8-bit tag by which receivers filter
//! packets; [`expand_psk`], which turns a stored key into an AES key; and
//! [`encrypt_packet`] / [`decrypt_packet`], AES in counter mode under the nonce
//! of [`build_nonce`].
//!
//! Counter mode gives confidentiality, not integrity: every ciphertext decrypts
//! to something.

use crate::text;
use crate::wire::{self, le32_bytes};
use cipher::{KeyIvInit, StreamCipher};
use vstd::prelude::*;
use zeroize::Zeroize;

verus! {

/// The AES-128 key of the default public channel.
pub const DEFAULT_PSK: [u8; 16] = [
    0xd4, 0xf1, 0xbb, 0x3a, 0x20, 0x29, 0x07, 0x59, 0xf0, 0xbc, 0xff, 0xab, 0xcf, 0x4e, 0x69, 0x01,
];

/// The AES-256 key of event-mode builds.
pub const EVENT_PSK: [u8; 32] = [
    0x38, 0x4b, 0xbc, 0xc0, 0x1d, 0xc0, 0x22, 0xd1, 0x81, 0xbf, 0x36, 0xb8, 0x61, 0x21, 0xe1, 0xfb,
    0x96, 0xb7, 0x2e, 0x55, 0xbf, 0x74, 0x22, 0x7e, 0x9d, 0x6a, 0xfb, 0x48, 0xd6, 0x4c, 0xb1, 0xa1,
];

/// The most bytes that one packet's payload may have.
pub const MAX_PACKET_PAYLOAD: usize = 256;

/// Why a payload was not encrypted or decrypted.
#[derive(Debug, Clone, Copy, PartialEq, Eq)]
pub enum CryptoError {
    /// The key has neither 16 nor 32 bytes; it has this many.
    InvalidKeyLength(usize),
    /// The payload has more than [`MAX_PACKET_PAYLOAD`] bytes; it has this many.
    PayloadTooLarge(usize),
}

impl CryptoError {
    /// The error in words.
    pub open spec fn text(self) -> Seq<char> {
        match self {
            CryptoError::InvalidKeyLength(n) => "invalid AES key length: "@ + text::decimal(
                n as nat,
            ) + " (expected 16 or 32)"@,
            CryptoError::PayloadTooLarge(n) => "packet payload "@ + text::decimal(n as nat)
                + " exceeds MAX_PACKET_PAYLOAD=256"@,
        }
    }

    /// The error in words.
    pub fn describe(&self) -> (r: String)
        ensures
            r@ == self.text(),
    {
        match self {
            CryptoError::InvalidKeyLength(n) => text::number_between(
                "invalid AES key length: ",
                *n as u64,
                " (expected 16 or 32)",
            ),
            CryptoError::PayloadTooLarge(n) => text::number_between(
                "packet payload ",
                *n as u64,
                " exceeds MAX_PACKET_PAYLOAD=256",
            ),
        }
    }
}

// ---------------------------------------------------------------------------
// Channel hash
// ---------------------------------------------------------------------------

/// The exclusive or of all bytes of a string.
pub open spec fn xor_bytes(s: Seq<u8>) -> u8
    decreases s.len(),
{
    if s.len() == 0 {
        0
    } else {
        xor_bytes(s.drop_last()) ^ s.last()
    }
}

/// The hash of a concatenation is the exclusive or of the two hashes, so the
/// hash of a channel depends on its name and its key only through theirs.
pub proof fn lemma_xor_bytes_concat(a: Seq<u8>, b: Seq<u8>)
    ensures
        xor_bytes(a + b) == xor_bytes(a) ^ xor_bytes(b),
    decreases b.len(),
{
    if b.len() == 0 {
        assert(a + b =~= a);
        let x = xor_bytes(a);
        assert(x ^ 0 == x) by (bit_vector);
    } else {
        lemma_xor_bytes_concat(a, b.drop_last());
        assert((a + b).drop_last() =~= a + b.drop_last());
        let x = xor_bytes(a);
        let y = xor_bytes(b.drop_last());
        let z = b.last();
        assert((x ^ y) ^ z == x ^ (y ^ z)) by (bit_vector);
    }
}

fn xor_onto(h: u8, s: &[u8]) -> (r: u8)
    ensures
        r == h ^ xor_bytes(s@),
{
    let mut r: u8 = h;
    let mut i: usize = 0;
    assert(h ^ 0 == h) by (bit_vector);
    while i < s.len()
        invariant
            i <= s.len(),
            r == h ^ xor_bytes(s@.take(i as int)),
        decreases s.len() - i,
    {
        let ghost y = xor_bytes(s@.take(i as int));
        let b: u8 = s[i];
        assert((h ^ y) ^ b == h ^ (y ^ b)) by (bit_vector);
        assert(s@.take(i + 1).drop_last() =~= s@.take(i as int));
        r = r ^ b;
        i += 1;
    }
    assert(s@.take(i as int) =~= s@);
    r
}

/// The 8-bit hash of a channel: the exclusive or of the bytes of its name and
/// of its expanded key.
pub fn channel_hash(name: &str, expanded_psk: &[u8]) -> (h: u8)
    ensures
        h == xor_bytes(text::utf8(name@) + expanded_psk@),
{
    let h: u8 = xor_onto(xor_onto(0, name.as_bytes()), expanded_psk);
    proof {
        lemma_xor_bytes_concat(text::utf8(name@), expanded_psk@);
        let x = xor_bytes(text::utf8(name@));
        assert(0 ^ x == x) by (bit_vector);
    }
    h
}

// ---------------------------------------------------------------------------
// Key expansion
// ---------------------------------------------------------------------------

/// `s`, filled up with zeros to `n` bytes.
pub open spec fn zero_padded(s: Seq<u8>, n: nat) -> Seq<u8> {
    s + Seq::new((n - s.len()) as nat, |i: int| 0u8)
}

/// The AES key that a stored key stands for. The empty key and the single byte
/// zero mean no encryption; another single byte picks a variant of
/// [`DEFAULT_PSK`]; everything else up to 32 bytes is filled up to the next key
/// size.
pub open spec fn expanded(psk: Seq<u8>) -> Seq<u8> {
    if psk.len() == 0 || psk =~= seq![0u8] {
        Seq::empty()
    } else if psk.len() == 1 {
        DEFAULT_PSK@.update(15, ((DEFAULT_PSK@[15] + psk[0] - 1) % 256) as u8)
    } else if psk.len() < 16 {
        zero_padded(psk, 16)
    } else if 16 < psk.len() < 32 {
        zero_padded(psk, 32)
    } else {
        psk
    }
}

/// Expands a stored key into an AES key; the result is empty where the channel
/// is unencrypted.
pub fn expand_psk(psk: &[u8]) -> (key: Vec<u8>)
    ensures
        key@ == expanded(psk@),
{
    if psk.len() == 0 {
        return Vec::new();
    }
    if psk.len() == 1 {
        let idx: u8 = psk[0];
        if idx == 0 {
            assert(psk@ =~= seq![0u8]);
            return Vec::new();
        }
        let mut out = vstd::slice::slice_to_vec(DEFAULT_PSK.as_slice());
        let last: u8 = out[15];
        out.set(15, last.wrapping_add(idx - 1));
        assert(psk@ != seq![0u8]);
        return out;
    }
    let mut out = vstd::slice::slice_to_vec(psk);
    if psk.len() < 16 {
        out.resize(16, 0);
        assert(out@ =~= zero_padded(psk@, 16));
    } else if psk.len() < 32 && psk.len() != 16 {
        out.resize(32, 0);
        assert(out@ =~= zero_padded(psk@, 32));
    }
    out
}

/// An expanded key is empty, has the size of an AES key, or is a stored key of
/// more than 32 bytes as it was.
pub proof fn lemma_expanded_len(psk: Seq<u8>)
    ensures
        psk.len() <= 32 ==> expanded(psk).len() == 0 || expanded(psk).len() == 16 || expanded(
            psk,
        ).len() == 32,
        psk.len() > 32 ==> expanded(psk) == psk,
        expanded(psk).len() == 0 <==> psk.len() == 0 || psk == seq![0u8],
{
}

/// Expansion leaves an expanded key as it is.
pub proof fn lemma_expanded_idempotent(psk: Seq<u8>)
    ensures
        expanded(expanded(psk)) == expanded(psk),
{
}

// ---------------------------------------------------------------------------
// Nonce
// ---------------------------------------------------------------------------

/// The nonce of a packet: its id in eight bytes and its sender in four, both
/// little-endian, and four zero bytes for the block counter.
pub open spec fn nonce(from_node: u32, packet_id: u64) -> Seq<u8> {
    wire::le64(packet_id) + wire::le32(from_node) + seq![0u8, 0u8, 0u8, 0u8]
}

/// Builds the nonce of a packet.
pub fn build_nonce(from_node: u32, packet_id: u64) -> (r: [u8; 16])
    ensures
        r@ == nonce(from_node, packet_id),
{
    let lo = le32_bytes((packet_id % 0x1_0000_0000) as u32);
    let hi = le32_bytes((packet_id / 0x1_0000_0000) as u32);
    let node = le32_bytes(from_node);
    let r: [u8; 16] = [
        lo[0],
        lo[1],
        lo[2],
        lo[3],
        hi[0],
        hi[1],
        hi[2],
        hi[3],
        node[0],
        node[1],
        node[2],
        node[3],
        0,
        0,
        0,
        0,
    ];
    assert(r@ =~= nonce(from_node, packet_id));
    r
}

/// Two packets share a nonce only if they share their sender and their id.
pub proof fn lemma_nonce_injective(from1: u32, id1: u64, from2: u32, id2: u64)
    requires
        nonce(from1, id1) == nonce(from2, id2),
    ensures
        from1 == from2,
        id1 == id2,
{
    wire::lemma_le64(id1);
    wire::lemma_le64(id2);
    wire::lemma_le32(from1);
    wire::lemma_le32(from2);
    let a = nonce(from1, id1);
    assert(a.take(8) =~= wire::le64(id1));
    assert(a.take(8) =~= wire::le64(id2));
    assert(a.subrange(8, 12) =~= wire::le32(from1));
    assert(a.subrange(8, 12) =~= wire::le32(from2));
}

// ---------------------------------------------------------------------------
// AES in counter mode
// ---------------------------------------------------------------------------

/// Byte `i` of the stream that AES-128 in counter mode, with a big-endian
/// counter in the last four bytes of the block, generates from `key` and `iv`.
pub uninterp spec fn aes128_keystream(key: Seq<u8>, iv: Seq<u8>, i: int) -> u8;

/// Byte `i` of the stream that AES-256 in counter mode, with a big-endian
/// counter in the last four bytes of the block, generates from `key` and `iv`.
pub uninterp spec fn aes256_keystream(key: Seq<u8>, iv: Seq<u8>, i: int) -> u8;

/// Calls `StreamCipher::apply_keystream` of `ctr::Ctr32BE<aes::Aes128>`, made
/// by `KeyIvInit::new` from the key and the nonce. It combines each byte of the
/// data with the byte of the key stream at the same position by exclusive or;
/// the key stream depends on the key, the nonce and the position alone.
/// Construction panics for a key of another length, and the call for data
/// beyond the end of the counter.
#[verifier::external_body]
fn aes128_apply(key: &[u8], iv: &[u8; 16], data: &mut [u8])
    requires
        key@.len() == 16,
        old(data)@.len() <= MAX_PACKET_PAYLOAD,
    ensures
        final(data)@ == Seq::new(
            old(data)@.len(),
            |i: int| old(data)@[i] ^ aes128_keystream(key@, iv@, i),
        ),
{
    let mut c = ctr::Ctr32BE::<aes::Aes128>::new(key.into(), iv.into());
    c.apply_keystream(data);
}

/// Calls `StreamCipher::apply_keystream` of `ctr::Ctr32BE<aes::Aes256>`, made
/// by `KeyIvInit::new` from the key and the nonce. It combines each byte of the
/// data with the byte of the key stream at the same position by exclusive or;
/// the key stream depends on the key, the nonce and the position alone.
/// Construction panics for a key of another length, and the call for data
/// beyond the end of the counter.
#[verifier::external_body]
fn aes256_apply(key: &[u8], iv: &[u8; 16], data: &mut [u8])
    requires
        key@.len() == 32,
        old(data)@.len() <= MAX_PACKET_PAYLOAD,
    ensures
        final(data)@ == Seq::new(
            old(data)@.len(),
            |i: int| old(data)@[i] ^ aes256_keystream(key@, iv@, i),
        ),
{
    let mut c = ctr::Ctr32BE::<aes::Aes256>::new(key.into(), iv.into());
    c.apply_keystream(data);
}

/// Whether a key has one of the two sizes of an AES key.
pub open spec fn is_aes_key(key: Seq<u8>) -> bool {
    key.len() == 16 || key.len() == 32
}

/// Byte `i` of the key stream of a packet.
pub open spec fn keystream(key: Seq<u8>, from_node: u32, packet_id: u64, i: int) -> u8 {
    if key.len() == 16 {
        aes128_keystream(key, nonce(from_node, packet_id), i)
    } else {
        aes256_keystream(key, nonce(from_node, packet_id), i)
    }
}

/// The payload `data` of a packet, encrypted or decrypted.
pub open spec fn ciphered(key: Seq<u8>, from_node: u32, packet_id: u64, data: Seq<u8>) -> Seq<
    u8,
> {
    Seq::new(data.len(), |i: int| data[i] ^ keystream(key, from_node, packet_id, i))
}

/// What encryption and decryption answer.
pub open spec fn cipher_result(key: Seq<u8>, data: Seq<u8>) -> Result<(), CryptoError> {
    if data.len() > MAX_PACKET_PAYLOAD {
        Err(CryptoError::PayloadTooLarge(data.len() as usize))
    } else if !is_aes_key(key) {
        Err(CryptoError::InvalidKeyLength(key.len() as usize))
    } else {
        Ok(())
    }
}

/// Encrypts the payload of a packet in place. `key` is an expanded key; where
/// the call fails the payload stays as it was.
pub fn encrypt_packet(key: &[u8], from_node: u32, packet_id: u64, data: &mut [u8]) -> (r: Result<
    (),
    CryptoError,
>)
    ensures
        r == cipher_result(key@, old(data)@),
        r is Ok ==> final(data)@ == ciphered(key@, from_node, packet_id, old(data)@),
        r is Err ==> final(data)@ == old(data)@,
{
    if data.len() > MAX_PACKET_PAYLOAD {
        return Err(CryptoError::PayloadTooLarge(data.len()));
    }
    let iv = build_nonce(from_node, packet_id);
    if key.len() == 16 {
        aes128_apply(key, &iv, data);
    } else if key.len() == 32 {
        aes256_apply(key, &iv, data);
    } else {
        return Err(CryptoError::InvalidKeyLength(key.len()));
    }
    assert(data@ =~= ciphered(key@, from_node, packet_id, old(data)@));
    Ok(())
}

/// Decrypts the payload of a packet in place: the same operation as
/// [`encrypt_packet`].
pub fn decrypt_packet(key: &[u8], from_node: u32, packet_id: u64, data: &mut [u8]) -> (r: Result<
    (),
    CryptoError,
>)
    ensures
        r == cipher_result(key@, old(data)@),
        r is Ok ==> final(data)@ == ciphered(key@, from_node, packet_id, old(data)@),
        r is Err ==> final(data)@ == old(data)@,
{
    encrypt_packet(key, from_node, packet_id, data)
}

/// Decryption undoes encryption: applying the key stream twice gives back the
/// payload, which keeps its length.
pub proof fn lemma_decrypt_of_encrypt(key: Seq<u8>, from_node: u32, packet_id: u64, data: Seq<u8>)
    ensures
        ciphered(key, from_node, packet_id, data).len() == data.len(),
        ciphered(key, from_node, packet_id, ciphered(key, from_node, packet_id, data)) == data,
        cipher_result(key, ciphered(key, from_node, packet_id, data)) == cipher_result(key, data),
{
    let once = ciphered(key, from_node, packet_id, data);
    let twice = ciphered(key, from_node, packet_id, once);
    assert forall|i: int| 0 <= i < data.len() implies twice[i] == data[i] by {
        let x = data[i];
        let k = keystream(key, from_node, packet_id, i);
        assert((x ^ k) ^ k == x) by (bit_vector);
    }
    assert(twice =~= data);
}

// ---------------------------------------------------------------------------
// Keys
// ---------------------------------------------------------------------------

/// Calls `Zeroize::zeroize` of `zeroize`, which overwrites the bytes of the
/// vector with zeros and leaves it empty. That the memory is overwritten is not
/// stated: no value holds it any more.
#[verifier::external_body]
fn wipe(bytes: &mut Vec<u8>)
    ensures
        final(bytes)@.len() == 0,
    opens_invariants none
    no_unwind
{
    bytes.zeroize();
}

/// A key that overwrites itself when it is dropped.
pub struct ChannelKey(Vec<u8>);

impl View for ChannelKey {
    type V = Seq<u8>;

    closed spec fn view(&self) -> Seq<u8> {
        self.0@
    }
}

impl ChannelKey {
    /// A key from an expanded key of 16 or 32 bytes.
    pub fn from_expanded(bytes: &[u8]) -> (r: Result<Self, CryptoError>)
        ensures
            is_aes_key(bytes@) ==> (r matches Ok(k) && k@ == bytes@),
            !is_aes_key(bytes@) ==> r == Err::<Self, _>(
                CryptoError::InvalidKeyLength(bytes@.len() as usize),
            ),
    {
        if bytes.len() == 16 || bytes.len() == 32 {
            Ok(ChannelKey(vstd::slice::slice_to_vec(bytes)))
        } else {
            Err(CryptoError::InvalidKeyLength(bytes.len()))
        }
    }

    /// The key that a stored key stands for, or `None` where the channel is
    /// unencrypted.
    pub fn from_stored_psk(psk: &[u8]) -> (r: Option<Self>)
        ensures
            r is None <==> expanded(psk@).len() == 0,
            r matches Some(k) ==> k@ == expanded(psk@),
    {
        let key = expand_psk(psk);
        if key.len() == 0 {
            None
        } else {
            Some(ChannelKey(key))
        }
    }

    /// The bytes of the key.
    pub fn as_bytes(&self) -> (r: &[u8])
        ensures
            r@ == self@,
    {
        self.0.as_slice()
    }

    /// The key in words, which tell its length and nothing else of it.
    pub fn describe(&self) -> (r: String)
        ensures
            r@ == "ChannelKey(<"@ + text::decimal(self@.len()) + " bytes redacted>)"@,
    {
        text::number_between("ChannelKey(<", self.0.len() as u64, " bytes redacted>)")
    }
}

impl Clone for ChannelKey {
    fn clone(&self) -> (r: Self)
        ensures
            r@ == self@,
    {
        ChannelKey(self.0.clone())
    }
}

impl Drop for ChannelKey {
    fn drop(&mut self)
        opens_invariants none
        no_unwind
    {
        wipe(&mut self.0);
    }
}

// ---------------------------------------------------------------------------
// Laws
// ---------------------------------------------------------------------------

/// The hash of nothing is zero and that of one byte is the byte. With
/// [`lemma_xor_bytes_concat`] this fixes the hash of every string.
pub proof fn lemma_xor_bytes_one(b: u8)
    ensures
        xor_bytes(Seq::empty()) == 0,
        xor_bytes(seq![b]) == b,
{
    assert(seq![b].drop_last() =~= Seq::empty());
    assert(0 ^ b == b) by (bit_vector);
}

/// Changing one byte of a string changes its hash by the difference.
pub proof fn lemma_xor_bytes_changed(s: Seq<u8>, i: int, b: u8)
    requires
        0 <= i < s.len(),
    ensures
        xor_bytes(s.update(i, b)) == xor_bytes(s) ^ s[i] ^ b,
{
    let t = s.update(i, b);
    let front = s.take(i);
    let back = s.skip(i + 1);
    assert(s =~= front + seq![s[i]] + back);
    assert(t =~= front + seq![b] + back);
    lemma_xor_bytes_concat(front, seq![s[i]]);
    lemma_xor_bytes_concat(front, seq![b]);
    lemma_xor_bytes_concat(front + seq![s[i]], back);
    lemma_xor_bytes_concat(front + seq![b], back);
    lemma_xor_bytes_one(s[i]);
    lemma_xor_bytes_one(b);
    let x = xor_bytes(front);
    let y = s[i];
    let z = xor_bytes(back);
    assert((x ^ b) ^ z == ((x ^ y) ^ z) ^ y ^ b) by (bit_vector);
}

/// A single byte that is not zero picks the default key with that byte at its end,
/// so the byte 1 picks the default key itself and no two bytes pick the same key.
pub proof fn lemma_expanded_short(b: u8, c: u8)
    requires
        b != 0,
    ensures
        expanded(seq![b]).len() == 16,
        expanded(seq![b])[15] == b,
        forall|i: int| 0 <= i < 15 ==> #[trigger] expanded(seq![b])[i] == DEFAULT_PSK@[i],
        expanded(seq![1u8]) == DEFAULT_PSK@,
        b != c ==> expanded(seq![b]) != expanded(seq![c]),
        expanded(seq![0u8]).len() == 0,
        expanded(Seq::empty()).len() == 0,
{
    assert(seq![b][0] == b);
    assert(seq![b] != seq![0u8]);
    assert(seq![1u8][0] == 1);
    assert(expanded(seq![1u8]) =~= DEFAULT_PSK@);
    if c != 0 {
        assert(seq![c][0] == c);
        assert(expanded(seq![c])[15] == c);
    } else {
        assert(seq![c] =~= seq![0u8]);
    }
}

/// A key of two bytes or more is kept: its expansion starts with it, goes on with
/// zeros, and is no longer than the next key size asks. A key of 16 bytes, of 32 or
/// of more is its own expansion.
pub proof fn lemma_expanded_long(psk: Seq<u8>)
    requires
        psk.len() >= 2,
    ensures
        psk.is_prefix_of(expanded(psk)),
        forall|i: int| psk.len() <= i < expanded(psk).len() ==> #[trigger] expanded(psk)[i] == 0,
        psk.len() <= 16 ==> expanded(psk).len() == 16,
        16 < psk.len() <= 32 ==> expanded(psk).len() == 32,
        psk.len() == 16 || psk.len() >= 32 ==> expanded(psk) == psk,
{
    assert(expanded(psk).take(psk.len() as int) =~= psk);
}

/// The bytes of a nonce: the id, its lowest byte first, then the sender in the same
/// way, then zeros.
pub proof fn lemma_nonce_bytes(from_node: u32, packet_id: u64)
    ensures
        ({
            let n = nonce(from_node, packet_id);
            &&& n.len() == 16
            &&& packet_id == n[0] + 0x100 * n[1] + 0x1_0000 * n[2] + 0x100_0000 * n[3]
                + 0x1_0000_0000 * (n[4] + 0x100 * n[5] + 0x1_0000 * n[6] + 0x100_0000 * n[7])
            &&& from_node == n[8] + 0x100 * n[9] + 0x1_0000 * n[10] + 0x100_0000 * n[11]
            &&& n[12] == 0 && n[13] == 0 && n[14] == 0 && n[15] == 0
        }),
{
    let n = nonce(from_node, packet_id);
    let lo = (packet_id % 0x1_0000_0000) as u32;
    let hi = (packet_id / 0x1_0000_0000) as u32;
    assert(n =~= wire::le32(lo) + wire::le32(hi) + wire::le32(from_node) + seq![
        0u8,
        0u8,
        0u8,
        0u8,
    ]);
    assert(lo == n[0] + 0x100 * n[1] + 0x1_0000 * n[2] + 0x100_0000 * n[3]) by {
        lemma_four_bytes(lo);
    }
    assert(hi == n[4] + 0x100 * n[5] + 0x1_0000 * n[6] + 0x100_0000 * n[7]) by {
        lemma_four_bytes(hi);
    }
    assert(from_node == n[8] + 0x100 * n[9] + 0x1_0000 * n[10] + 0x100_0000 * n[11]) by {
        lemma_four_bytes(from_node);
    }
}

proof fn lemma_four_bytes(v: u32)
    ensures
        wire::le32(v).len() == 4,
        v == wire::le32(v)[0] + 0x100 * wire::le32(v)[1] + 0x1_0000 * wire::le32(v)[2] + 0x100_0000
            * wire::le32(v)[3],
{
}

/// The cipher takes exactly what it can: a payload of at most 256 bytes, under a key
/// of 16 or of 32 bytes. A payload that is too large is refused for that, whatever
/// the key.
pub proof fn lemma_cipher_result(key: Seq<u8>, data: Seq<u8>)
    ensures
        cipher_result(key, data) is Ok <==> data.len() <= 256 && (key.len() == 16 || key.len()
            == 32),
        data.len() > 256 ==> cipher_result(key, data) == Err::<(), CryptoError>(
            CryptoError::PayloadTooLarge(data.len() as usize),
        ),
        data.len() <= 256 && key.len() != 16 && key.len() != 32 ==> cipher_result(key, data)
            == Err::<(), CryptoError>(CryptoError::InvalidKeyLength(key.len() as usize)),
{
}

/// Each byte of a payload is combined by exclusive or with the byte of the AES stream
/// at its own position, under the whole key and the nonce of the packet, and with
/// nothing else.
pub proof fn lemma_ciphered(key: Seq<u8>, from_node: u32, packet_id: u64, data: Seq<u8>, i: int)
    requires
        0 <= i < data.len(),
    ensures
        ciphered(key, from_node, packet_id, data).len() == data.len(),
        key.len() == 16 ==> ciphered(key, from_node, packet_id, data)[i] ^ data[i]
            == aes128_keystream(key, nonce(from_node, packet_id), i),
        key.len() == 32 ==> ciphered(key, from_node, packet_id, data)[i] ^ data[i]
            == aes256_keystream(key, nonce(from_node, packet_id), i),
{
    let x = data[i];
    let k = keystream(key, from_node, packet_id, i);
    assert((x ^ k) ^ x == k) by (bit_vector);
}

} // verus!
