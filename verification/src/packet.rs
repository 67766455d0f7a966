//! Encryption and decryption of mesh packets.
//!
//! [`encrypt`] turns the decoded payload of a packet into an encrypted one,
//! [`decrypt`] the other way. The `channel` field of a packet changes its
//! meaning with the payload: it is a channel index while the packet is decoded
//! and a channel hash while it is encrypted.
//!
//! Counter mode does not authenticate: a packet is taken to be on the first
//! channel with its hash under whose key the plaintext parses.

use crate::channels::{self, Channels, ChannelsView};
use crate::crypto::{self, decrypt_packet, encrypt_packet, CryptoError, MAX_PACKET_PAYLOAD};
use crate::message::{self, Message};
use crate::proto::packet::{
    Data, DataView, MeshPacket, MeshPacketOf, MeshPacketView, PayloadVariantOf,
};
use crate::text;
use vstd::prelude::*;
use vstd::string::StringExecFns;

verus! {

/// Why a packet was not encrypted or decrypted.
#[derive(Debug, Clone, Copy, PartialEq, Eq)]
pub enum PacketError {
    /// The channel index is outside the table.
    InvalidChannelIndex(u8),
    /// The channel is disabled or has no key.
    ChannelUnencrypted(u8),
    /// The packet to encrypt has no decoded payload.
    NotDecoded,
    /// The packet to decrypt has no encrypted payload.
    NotEncrypted,
    /// No channel has the hash of the packet, or none that has it opens the
    /// packet.
    NoMatchingChannel { hash: u8 },
    /// The encoded payload has more than [`MAX_PACKET_PAYLOAD`] bytes; it has
    /// this many.
    PayloadTooLarge(usize),
    /// The cipher refused.
    Crypto(CryptoError),
}

impl PacketError {
    /// The error in words.
    pub open spec fn text(self) -> Seq<char> {
        match self {
            PacketError::InvalidChannelIndex(i) => "channel index "@ + text::decimal(i as nat)
                + " is out of range"@,
            PacketError::ChannelUnencrypted(i) => "channel "@ + text::decimal(i as nat)
                + " has no usable key"@,
            PacketError::NotDecoded => "packet is not in Decoded(Data) state"@,
            PacketError::NotEncrypted => "packet is not in Encrypted(bytes) state"@,
            PacketError::NoMatchingChannel { hash } => "no channel matches hash 0x"@ + text::hex(
                hash as nat,
                2,
            ),
            PacketError::PayloadTooLarge(n) => "serialised Data is "@ + text::decimal(n as nat)
                + " bytes, over MAX_PACKET_PAYLOAD=256"@,
            PacketError::Crypto(e) => "crypto error: "@ + e.text(),
        }
    }

    /// The error in words.
    pub fn describe(&self) -> (r: String)
        ensures
            r@ == self.text(),
    {
        match self {
            PacketError::InvalidChannelIndex(i) => text::number_between(
                "channel index ",
                *i as u64,
                " is out of range",
            ),
            PacketError::ChannelUnencrypted(i) => text::number_between(
                "channel ",
                *i as u64,
                " has no usable key",
            ),
            PacketError::NotDecoded => String::from_str("packet is not in Decoded(Data) state"),
            PacketError::NotEncrypted => String::from_str(
                "packet is not in Encrypted(bytes) state",
            ),
            PacketError::NoMatchingChannel { hash } => {
                let mut r = String::from_str("no channel matches hash 0x");
                let digits = text::hex_string(*hash as u32, 2);
                r.append(digits.as_str());
                r
            },
            PacketError::PayloadTooLarge(n) => text::number_between(
                "serialised Data is ",
                *n as u64,
                " bytes, over MAX_PACKET_PAYLOAD=256",
            ),
            PacketError::Crypto(e) => {
                let mut r = String::from_str("crypto error: ");
                let cause = e.describe();
                r.append(cause.as_str());
                r
            },
        }
    }
}

impl From<CryptoError> for PacketError {
    fn from(e: CryptoError) -> (r: PacketError) {
        match e {
            CryptoError::PayloadTooLarge(n) => PacketError::PayloadTooLarge(n),
            CryptoError::InvalidKeyLength(n) => PacketError::Crypto(
                CryptoError::InvalidKeyLength(n),
            ),
        }
    }
}

impl vstd::std_specs::convert::FromSpecImpl<CryptoError> for PacketError {
    open spec fn obeys_from_spec() -> bool {
        true
    }

    open spec fn from_spec(e: CryptoError) -> PacketError {
        match e {
            CryptoError::PayloadTooLarge(n) => PacketError::PayloadTooLarge(n),
            CryptoError::InvalidKeyLength(n) => PacketError::Crypto(
                CryptoError::InvalidKeyLength(n),
            ),
        }
    }
}

// ---------------------------------------------------------------------------
// Encryption
// ---------------------------------------------------------------------------

/// What [`encrypt`] answers.
pub open spec fn encrypt_result(t: ChannelsView, i: u8, p: MeshPacketView) -> Result<
    (),
    PacketError,
> {
    match p.payload_variant {
        Some(PayloadVariantOf::Decoded(data)) => if i >= t.slots.len() {
            Err(PacketError::InvalidChannelIndex(i))
        } else if t.slots[i as int].hash is None || t.key(i as int) is None {
            Err(PacketError::ChannelUnencrypted(i))
        } else {
            match crypto::cipher_result(t.key(i as int)->0, message::encoded::<Data>(data)) {
                Ok(()) => Ok(()),
                Err(CryptoError::PayloadTooLarge(n)) => Err(PacketError::PayloadTooLarge(n)),
                Err(e) => Err(PacketError::Crypto(e)),
            }
        },
        _ => Err(PacketError::NotDecoded),
    }
}

/// What [`encrypt`] makes of a packet. A refused packet stays as it was.
pub open spec fn encrypted(t: ChannelsView, i: u8, p: MeshPacketView) -> MeshPacketView {
    match (encrypt_result(t, i, p), p.payload_variant) {
        (Ok(()), Some(PayloadVariantOf::Decoded(data))) => MeshPacketOf {
            channel: t.slots[i as int].hash->0 as u32,
            payload_variant: Some(
                PayloadVariantOf::Encrypted(
                    crypto::ciphered(
                        t.key(i as int)->0,
                        p.from,
                        p.id as u64,
                        message::encoded::<Data>(data),
                    ),
                ),
            ),
            ..p
        },
        _ => p,
    }
}

/// Encrypts the decoded payload of a packet for a channel, in place.
pub fn encrypt(channels: &Channels, channel_index: u8, packet: &mut MeshPacket) -> (r: Result<
    (),
    PacketError,
>)
    ensures
        r == encrypt_result(channels@, channel_index, old(packet)@),
        final(packet)@ == encrypted(channels@, channel_index, old(packet)@),
        r is Err ==> final(packet)@ == old(packet)@,
{
    let data = match packet.payload_variant.take() {
        Some(PayloadVariantOf::Decoded(d)) => d,
        Some(other) => {
            packet.payload_variant = Some(other);
            return Err(PacketError::NotDecoded);
        },
        None => return Err(PacketError::NotDecoded),
    };
    let slot = match channels.by_index(channel_index) {
        Some(s) => s,
        None => {
            packet.payload_variant = Some(PayloadVariantOf::Decoded(data));
            return Err(PacketError::InvalidChannelIndex(channel_index));
        },
    };
    let hash: u8 = match slot.hash {
        Some(h) => h,
        None => {
            packet.payload_variant = Some(PayloadVariantOf::Decoded(data));
            return Err(PacketError::ChannelUnencrypted(channel_index));
        },
    };
    let key = match channels.effective_key(channel_index) {
        Some(k) => k,
        None => {
            packet.payload_variant = Some(PayloadVariantOf::Decoded(data));
            return Err(PacketError::ChannelUnencrypted(channel_index));
        },
    };
    let mut buf = data.encode_to_vec();
    if buf.len() > MAX_PACKET_PAYLOAD {
        packet.payload_variant = Some(PayloadVariantOf::Decoded(data));
        return Err(PacketError::PayloadTooLarge(buf.len()));
    }
    match encrypt_packet(key, packet.from, packet.id as u64, &mut buf) {
        Ok(()) => {},
        Err(e) => {
            packet.payload_variant = Some(PayloadVariantOf::Decoded(data));
            return Err(PacketError::from(e));
        },
    }
    packet.channel = hash as u32;
    packet.payload_variant = Some(PayloadVariantOf::Encrypted(buf));
    Ok(())
}

// ---------------------------------------------------------------------------
// Decryption
// ---------------------------------------------------------------------------

/// The hash that an encrypted packet carries.
pub open spec fn hash_of(p: MeshPacketView) -> u8 {
    (p.channel % 256) as u8
}

/// What channel `i` makes of the encrypted payload `bytes` of `p`: the payload
/// in the clear, if the channel has a key, the cipher takes the payload and the
/// plaintext parses.
pub open spec fn opened(t: ChannelsView, i: int, p: MeshPacketView, bytes: Seq<u8>) -> Option<
    DataView,
> {
    match t.key(i) {
        Some(key) if crypto::cipher_result(key, bytes) is Ok => message::decoded::<Data>(
            crypto::ciphered(key, p.from, p.id as u64, bytes),
        ),
        _ => None,
    }
}

/// The first of the channels `is`, from position `k` on, that opens `p`, with
/// the payload in the clear.
pub open spec fn first_opened(
    t: ChannelsView,
    is: Seq<int>,
    k: nat,
    p: MeshPacketView,
    bytes: Seq<u8>,
) -> Option<(int, DataView)>
    decreases is.len() - k,
{
    if k >= is.len() {
        None
    } else {
        match opened(t, is[k as int], p, bytes) {
            Some(data) => Some((is[k as int], data)),
            None => first_opened(t, is, k + 1, p, bytes),
        }
    }
}

/// The first channel with the hash of `p` that opens it, with the payload in
/// the clear.
pub open spec fn opening(t: ChannelsView, p: MeshPacketView, bytes: Seq<u8>) -> Option<
    (int, DataView),
> {
    first_opened(
        t,
        channels::hash_matches(t.slots, hash_of(p), t.slots.len()),
        0,
        p,
        bytes,
    )
}

/// What [`decrypt`] answers.
pub open spec fn decrypt_result(t: ChannelsView, p: MeshPacketView) -> Result<u8, PacketError> {
    match p.payload_variant {
        Some(PayloadVariantOf::Encrypted(bytes)) => match opening(t, p, bytes) {
            Some((i, _)) => Ok(i as u8),
            None => Err(PacketError::NoMatchingChannel { hash: hash_of(p) }),
        },
        _ => Err(PacketError::NotEncrypted),
    }
}

/// What [`decrypt`] makes of a packet. A refused packet stays as it was.
pub open spec fn decrypted(t: ChannelsView, p: MeshPacketView) -> MeshPacketView {
    match p.payload_variant {
        Some(PayloadVariantOf::Encrypted(bytes)) => match opening(t, p, bytes) {
            Some((i, data)) => MeshPacketOf {
                channel: i as u32,
                payload_variant: Some(PayloadVariantOf::Decoded(data)),
                ..p
            },
            None => p,
        },
        _ => p,
    }
}

/// Decrypts the encrypted payload of a packet in place, and returns the index
/// of the channel that it came on.
pub fn decrypt(channels: &Channels, packet: &mut MeshPacket) -> (r: Result<u8, PacketError>)
    ensures
        r == decrypt_result(channels@, old(packet)@),
        final(packet)@ == decrypted(channels@, old(packet)@),
{
    let ciphertext = match packet.payload_variant.take() {
        Some(PayloadVariantOf::Encrypted(bytes)) => bytes,
        Some(other) => {
            packet.payload_variant = Some(other);
            return Err(PacketError::NotEncrypted);
        },
        None => return Err(PacketError::NotEncrypted),
    };
    let hash: u8 = (packet.channel % 256) as u8;
    let candidates = channels.find_by_hash(hash);
    let ghost t = channels@;
    let ghost p = old(packet)@;
    let ghost is = channels::hash_matches(t.slots, hash, t.slots.len());
    let mut k: usize = 0;
    while k < candidates.len()
        invariant
            k <= candidates@.len() == is.len(),
            t == channels@,
            is == channels::hash_matches(t.slots, hash_of(p), t.slots.len()),
            forall|j: int| 0 <= j < is.len() ==> (#[trigger] candidates@[j]).0 == is[j],
            p == old(packet)@,
            p.payload_variant == Some(PayloadVariantOf::<Seq<u8>>::Encrypted(ciphertext@)),
            packet@ == (MeshPacketOf { payload_variant: None, ..p }),
            first_opened(t, is, 0, p, ciphertext@) == first_opened(t, is, k as nat, p, ciphertext@),
        decreases candidates.len() - k,
    {
        let ch_index: u8 = candidates[k].0;
        k += 1;
        let key = match channels.effective_key(ch_index) {
            Some(key) => key,
            None => continue,
        };
        let mut scratch = ciphertext.clone();
        if decrypt_packet(key, packet.from, packet.id as u64, &mut scratch).is_err() {
            continue;
        }
        if let Ok(data) = message::decode::<Data>(&scratch) {
            packet.channel = ch_index as u32;
            packet.payload_variant = Some(PayloadVariantOf::Decoded(data));
            return Ok(ch_index);
        }
    }
    packet.payload_variant = Some(PayloadVariantOf::Encrypted(ciphertext));
    Err(PacketError::NoMatchingChannel { hash })
}

// ---------------------------------------------------------------------------
// Laws
// ---------------------------------------------------------------------------

/// Encryption touches nothing but the payload and the `channel` field.
pub proof fn lemma_encrypt_keeps_header(t: ChannelsView, i: u8, p: MeshPacketView)
    ensures
        (MeshPacketOf {
            channel: p.channel,
            payload_variant: p.payload_variant,
            ..encrypted(t, i, p)
        }) == p,
{
}

/// Decryption touches nothing but the payload and the `channel` field.
pub proof fn lemma_decrypt_keeps_header(t: ChannelsView, p: MeshPacketView)
    ensures
        (MeshPacketOf {
            channel: p.channel,
            payload_variant: p.payload_variant,
            ..decrypted(t, p)
        }) == p,
{
}

/// A refused packet stays as it was.
pub proof fn lemma_refused_packet_unchanged(t: ChannelsView, i: u8, p: MeshPacketView)
    ensures
        encrypt_result(t, i, p) is Err ==> encrypted(t, i, p) == p,
        decrypt_result(t, p) is Err ==> decrypted(t, p) == p,
{
}

/// Where every channel before position `j` of `is` fails and the one at `j`
/// opens the packet, that one is the first.
proof fn lemma_first_opened(
    t: ChannelsView,
    is: Seq<int>,
    k: nat,
    j: nat,
    p: MeshPacketView,
    bytes: Seq<u8>,
)
    requires
        k <= j < is.len(),
        forall|l: int| k <= l < j ==> opened(t, #[trigger] is[l], p, bytes) is None,
        opened(t, is[j as int], p, bytes) is Some,
    ensures
        first_opened(t, is, k, p, bytes) == Some(
            (is[j as int], opened(t, is[j as int], p, bytes)->0),
        ),
    decreases j - k,
{
    if k < j {
        assert(opened(t, is[k as int], p, bytes) is None);
        lemma_first_opened(t, is, k + 1, j, p, bytes);
    }
}

/// Decryption undoes encryption. A packet that the table `s` encrypted on
/// channel `i` is opened by the table `r` on its channel `j` if that has the
/// same hash and the same key and no earlier channel of `r` with that hash
/// opens it by chance. The packet is then what it was before, with the index
/// `j` in its `channel` field.
pub proof fn lemma_decrypt_of_encrypt(
    s: ChannelsView,
    i: u8,
    r: ChannelsView,
    j: u8,
    p: MeshPacketView,
)
    requires
        encrypt_result(s, i, p) is Ok,
        j < r.slots.len(),
        r.slots[j as int].hash == s.slots[i as int].hash,
        r.key(j as int) == s.key(i as int),
        encrypted(s, i, p).payload_variant matches Some(PayloadVariantOf::Encrypted(bytes))
            ==> forall|k: int|
            0 <= k < j && #[trigger] r.slots[k].hash == r.slots[j as int].hash ==> opened(
                r,
                k,
                encrypted(s, i, p),
                bytes,
            ) is None,
    ensures
        decrypt_result(r, encrypted(s, i, p)) == Ok::<u8, PacketError>(j),
        decrypted(r, encrypted(s, i, p)) == (MeshPacketOf { channel: j as u32, ..p }),
{
    let data = match p.payload_variant {
        Some(PayloadVariantOf::Decoded(data)) => data,
        _ => arbitrary(),
    };
    let e = encrypted(s, i, p);
    let plain = message::encoded::<Data>(data);
    let key = s.key(i as int)->0;
    let bytes = crypto::ciphered(key, p.from, p.id as u64, plain);
    crypto::lemma_decrypt_of_encrypt(key, p.from, p.id as u64, plain);
    message::lemma_decode_of_encode::<Data>(data);
    assert(opened(r, j as int, e, bytes) == Some(data));
    let hash = r.slots[j as int].hash->0;
    assert(hash_of(e) == hash);
    let is = channels::hash_matches(r.slots, hash, r.slots.len());
    channels::lemma_hash_matches(r.slots, hash, r.slots.len());
    assert(is.contains(j as int));
    let l = choose|l: int| 0 <= l < is.len() && is[l] == j;
    assert forall|m: int| 0 <= m < l implies opened(r, #[trigger] is[m], e, bytes) is None by {
        assert(is[m] < is[l]);
        assert(r.slots[is[m]].hash == Some(hash));
    }
    lemma_first_opened(r, is, 0, l as nat, e, bytes);
}

/// Where the hash of no other channel of the table is that of channel `i`, a
/// packet that was encrypted on it comes back as it was.
pub proof fn lemma_decrypt_of_encrypt_unique_hash(t: ChannelsView, i: u8, p: MeshPacketView)
    requires
        encrypt_result(t, i, p) is Ok,
        forall|k: int|
            0 <= k < t.slots.len() && #[trigger] t.slots[k].hash == t.slots[i as int].hash ==> k
                == i,
    ensures
        decrypt_result(t, encrypted(t, i, p)) == Ok::<u8, PacketError>(i),
        decrypted(t, encrypted(t, i, p)) == (MeshPacketOf { channel: i as u32, ..p }),
{
    lemma_decrypt_of_encrypt(t, i, t, i, p);
}

/// A packet whose hash is that of no channel is refused.
pub proof fn lemma_unknown_hash_refused(t: ChannelsView, p: MeshPacketView)
    requires
        p.payload_variant matches Some(PayloadVariantOf::Encrypted(_)),
        forall|k: int|
            0 <= k < t.slots.len() ==> #[trigger] t.slots[k].hash != Some(hash_of(p)),
    ensures
        decrypt_result(t, p) == Err::<u8, PacketError>(
            PacketError::NoMatchingChannel { hash: hash_of(p) },
        ),
        decrypted(t, p) == p,
{
    channels::lemma_hash_matches(t.slots, hash_of(p), t.slots.len());
    let is = channels::hash_matches(t.slots, hash_of(p), t.slots.len());
    if is.len() > 0 {
        assert(t.slots[is[0]].hash == Some(hash_of(p)));
    }
}

/// When encryption is owed: a decoded packet whose payload fits is encrypted on every
/// channel that is enabled, has settings, and has a key of 16 or 32 bytes, its own or
/// that of the primary channel. It is then encrypted under that key, for its own
/// sender and id, and carries the hash of the channel.
pub proof fn lemma_encrypt_succeeds(
    t: ChannelsView,
    i: u8,
    p: MeshPacketView,
    data: DataView,
    key: Seq<u8>,
)
    requires
        t.consistent(),
        i < t.slots.len(),
        t.slots[i as int].channel.role == 1 || t.slots[i as int].channel.role == 2,
        t.slots[i as int].channel.settings is Some,
        t.key(i as int) == Some(key),
        key.len() == 16 || key.len() == 32,
        p.payload_variant == Some(PayloadVariantOf::<Seq<u8>>::Decoded(data)),
        message::encoded::<Data>(data).len() <= 256,
    ensures
        encrypt_result(t, i, p) is Ok,
        encrypted(t, i, p).payload_variant == Some(
            PayloadVariantOf::<Seq<u8>>::Encrypted(
                crypto::ciphered(key, p.from, p.id as u64, message::encoded::<Data>(data)),
            ),
        ),
        t.slots[i as int].hash == Some(encrypted(t, i, p).channel as u8),
        encrypted(t, i, p).channel < 256,
{
    assert(t.slots[i as int].in_sync());
    channels::lemma_slot_of(t.slots[i as int].channel);
}

/// A channel that stores a key of up to 32 bytes, other than the one byte 0, encrypts
/// every packet that fits, under the expansion of that key.
pub proof fn lemma_stored_key_encrypts(t: ChannelsView, i: u8, p: MeshPacketView, data: DataView)
    requires
        t.consistent(),
        i < t.slots.len(),
        t.slots[i as int].channel.role == 1 || t.slots[i as int].channel.role == 2,
        t.slots[i as int].channel.settings matches Some(s) && 1 <= s.psk.len() <= 32 && s.psk
            != seq![0u8],
        p.payload_variant == Some(PayloadVariantOf::<Seq<u8>>::Decoded(data)),
        message::encoded::<Data>(data).len() <= 256,
    ensures
        encrypt_result(t, i, p) is Ok,
        encrypted(t, i, p).payload_variant == Some(
            PayloadVariantOf::<Seq<u8>>::Encrypted(
                crypto::ciphered(
                    crypto::expanded(t.slots[i as int].channel.settings->0.psk),
                    p.from,
                    p.id as u64,
                    message::encoded::<Data>(data),
                ),
            ),
        ),
{
    let psk = t.slots[i as int].channel.settings->0.psk;
    channels::lemma_effective_key(t, i as int);
    crypto::lemma_expanded_len(psk);
    lemma_encrypt_succeeds(t, i, p, data, crypto::expanded(psk));
}

/// A secondary channel that stores no key encrypts exactly what the primary channel
/// encrypts, and to the same bytes; only the hash that the packet carries is its own.
pub proof fn lemma_secondary_encrypts(t: ChannelsView, i: u8, p: MeshPacketView)
    requires
        t.consistent(),
        i < t.slots.len(),
        t.slots[i as int].channel.role == 2,
        t.slots[i as int].channel.settings matches Some(s) && s.psk.len() == 0,
    ensures
        encrypt_result(t, i, p) is Ok <==> encrypt_result(t, t.primary_index, p) is Ok,
        encrypted(t, i, p).payload_variant == encrypted(t, t.primary_index, p).payload_variant,
        encrypt_result(t, i, p) is Ok ==> Some(encrypted(t, i, p).channel as u8)
            == t.slots[i as int].hash && Some(encrypted(t, t.primary_index, p).channel as u8)
            == t.slots[t.primary_index as int].hash,
{
    let k = t.primary_index as int;
    assert(t.slots[i as int].in_sync());
    assert(t.slots[k].in_sync());
    assert(channels::channels_of(t.slots)[k].role == 1);
    channels::lemma_effective_key(t, i as int);
    channels::lemma_effective_key(t, k);
    channels::lemma_slot_of(t.slots[i as int].channel);
    channels::lemma_slot_of(t.slots[k].channel);
}

/// Why encryption is refused, in this order: the packet is not decoded, the channel is
/// not there, it has no hash or no key, the payload has more than 256 bytes, or the key
/// has neither 16 nor 32.
pub proof fn lemma_encrypt_refused(t: ChannelsView, i: u8, p: MeshPacketView)
    ensures
        !(p.payload_variant matches Some(PayloadVariantOf::Decoded(_))) ==> encrypt_result(t, i, p)
            == Err::<(), PacketError>(PacketError::NotDecoded),
        p.payload_variant matches Some(PayloadVariantOf::Decoded(data)) ==> {
            let n = message::encoded::<Data>(data).len();
            &&& i >= t.slots.len() ==> encrypt_result(t, i, p) == Err::<(), PacketError>(
                PacketError::InvalidChannelIndex(i),
            )
            &&& i < t.slots.len() && (t.slots[i as int].hash is None || t.key(i as int) is None)
                ==> encrypt_result(t, i, p) == Err::<(), PacketError>(
                PacketError::ChannelUnencrypted(i),
            )
            &&& i < t.slots.len() && t.slots[i as int].hash is Some ==> (t.key(i as int) matches Some(
                key,
            ) ==> {
                &&& n > 256 ==> encrypt_result(t, i, p) == Err::<(), PacketError>(
                    PacketError::PayloadTooLarge(n as usize),
                )
                &&& n <= 256 && key.len() != 16 && key.len() != 32 ==> encrypt_result(t, i, p)
                    == Err::<(), PacketError>(
                    PacketError::Crypto(CryptoError::InvalidKeyLength(key.len() as usize)),
                )
                &&& n <= 256 && (key.len() == 16 || key.len() == 32) ==> encrypt_result(t, i, p)
                    is Ok
            })
        },
{
}

/// Whether channel `i` opens a packet with the encrypted payload `bytes`, to `data`: it
/// has the hash of the packet, and under its key the payload decrypts to something
/// that decodes.
pub open spec fn opens(
    t: ChannelsView,
    i: int,
    p: MeshPacketView,
    bytes: Seq<u8>,
    data: DataView,
) -> bool {
    &&& 0 <= i < t.slots.len()
    &&& t.slots[i].hash == Some((p.channel % 256) as u8)
    &&& bytes.len() <= 256
    &&& t.key(i) matches Some(key) && (key.len() == 16 || key.len() == 32)
        && message::decoded::<Data>(crypto::ciphered(key, p.from, p.id as u64, bytes)) == Some(data)
}

proof fn lemma_first_opened_is_first(
    t: ChannelsView,
    is: Seq<int>,
    k: nat,
    p: MeshPacketView,
    bytes: Seq<u8>,
)
    ensures
        match first_opened(t, is, k, p, bytes) {
            Some((i, data)) => exists|l: int|
                k <= l < is.len() && #[trigger] is[l] == i && opened(t, i, p, bytes) == Some(data)
                    && forall|m: int| k <= m < l ==> opened(t, #[trigger] is[m], p, bytes) is None,
            None => forall|m: int|
                k <= m < is.len() ==> opened(t, #[trigger] is[m], p, bytes) is None,
        },
    decreases is.len() - k,
{
    if k < is.len() {
        if opened(t, is[k as int], p, bytes) is Some {
            assert(is[k as int] == is[k as int]);
        } else {
            lemma_first_opened_is_first(t, is, k + 1, p, bytes);
            if let Some((i, data)) = first_opened(t, is, k + 1, p, bytes) {
                let l = choose|l: int|
                    k + 1 <= l < is.len() && #[trigger] is[l] == i && opened(t, i, p, bytes) == Some(
                        data,
                    ) && forall|m: int|
                        k + 1 <= m < l ==> opened(t, #[trigger] is[m], p, bytes) is None;
                assert(is[l] == i && forall|m: int|
                    k <= m < l ==> opened(t, #[trigger] is[m], p, bytes) is None);
            }
        }
    }
}

/// What decryption comes to. An encrypted packet comes out on the first channel that
/// opens it, with what that channel opened and the index of that channel, and it is
/// refused only if no channel opens it. A packet that is not encrypted is refused.
pub proof fn lemma_decrypt_result(t: ChannelsView, p: MeshPacketView)
    requires
        t.slots.len() <= 255,
    ensures
        !(p.payload_variant matches Some(PayloadVariantOf::Encrypted(_))) ==> decrypt_result(t, p)
            == Err::<u8, PacketError>(PacketError::NotEncrypted),
        p.payload_variant matches Some(PayloadVariantOf::Encrypted(bytes)) ==> match decrypt_result(
            t,
            p,
        ) {
            Ok(i) => {
                &&& decrypted(t, p).channel == i
                &&& decrypted(t, p).payload_variant matches Some(PayloadVariantOf::Decoded(data))
                    && opens(t, i as int, p, bytes, data)
                &&& forall|k: int, data: DataView| 0 <= k < i ==> !#[trigger] opens(
                    t,
                    k,
                    p,
                    bytes,
                    data,
                )
            },
            Err(e) => {
                &&& e == PacketError::NoMatchingChannel { hash: (p.channel % 256) as u8 }
                &&& decrypted(t, p) == p
                &&& forall|k: int, data: DataView| !#[trigger] opens(t, k, p, bytes, data)
            },
        },
{
    if let Some(PayloadVariantOf::Encrypted(bytes)) = p.payload_variant {
        let hash = (p.channel % 256) as u8;
        let is = channels::hash_matches(t.slots, hash, t.slots.len());
        channels::lemma_hash_matches(t.slots, hash, t.slots.len());
        lemma_first_opened_is_first(t, is, 0, p, bytes);
        match opening(t, p, bytes) {
            Some((i, data)) => {
                let l = choose|l: int|
                    0 <= l < is.len() && #[trigger] is[l] == i && opened(t, i, p, bytes) == Some(
                        data,
                    ) && forall|m: int| 0 <= m < l ==> opened(t, #[trigger] is[m], p, bytes) is None;
                assert(opens(t, is[l], p, bytes, data));
                assert forall|k: int, d: DataView| 0 <= k < i implies !#[trigger] opens(
                    t,
                    k,
                    p,
                    bytes,
                    d,
                ) by {
                    if opens(t, k, p, bytes, d) {
                        assert(is.contains(k));
                        let m = choose|m: int| 0 <= m < is.len() && is[m] == k;
                        if m >= l {
                            assert(m == l || is[l] < is[m]);
                        }
                        assert(opened(t, is[m], p, bytes) is None);
                    }
                }
            },
            None => {
                assert forall|k: int, d: DataView| !#[trigger] opens(t, k, p, bytes, d) by {
                    if opens(t, k, p, bytes, d) {
                        assert(is.contains(k));
                        let m = choose|m: int| 0 <= m < is.len() && is[m] == k;
                        assert(opened(t, is[m], p, bytes) is None);
                    }
                }
            },
        }
    }
}

/// Sending on a channel and receiving with the same table: a decoded packet that fits
/// comes back whole, on the channel that it was sent on, if no other channel has the
/// same hash.
pub proof fn lemma_sent_and_received(
    t: ChannelsView,
    i: u8,
    p: MeshPacketView,
    data: DataView,
    key: Seq<u8>,
)
    requires
        t.consistent(),
        i < t.slots.len(),
        t.slots[i as int].channel.role == 1 || t.slots[i as int].channel.role == 2,
        t.slots[i as int].channel.settings is Some,
        t.key(i as int) == Some(key),
        key.len() == 16 || key.len() == 32,
        p.payload_variant == Some(PayloadVariantOf::<Seq<u8>>::Decoded(data)),
        message::encoded::<Data>(data).len() <= 256,
        forall|k: int|
            0 <= k < t.slots.len() && #[trigger] t.slots[k].hash == t.slots[i as int].hash ==> k
                == i,
    ensures
        encrypt_result(t, i, p) is Ok,
        decrypt_result(t, encrypted(t, i, p)) == Ok::<u8, PacketError>(i),
        decrypted(t, encrypted(t, i, p)) == (MeshPacketOf { channel: i as u32, ..p }),
{
    lemma_encrypt_succeeds(t, i, p, data, key);
    lemma_decrypt_of_encrypt_unique_hash(t, i, p);
}

} // verus!
