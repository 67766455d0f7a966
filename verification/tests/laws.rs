//! What holds of the library as a whole, on samples.

use meshtastic::channels::Channels;
use meshtastic::config::{
    stamp_current_version, version_of, ConfigKind, ConfigStore, MemoryConfigStore,
    DEVICESTATE_CUR_VER,
};
use meshtastic::crypto::{
    build_nonce, channel_hash, decrypt_packet, encrypt_packet, expand_psk, DEFAULT_PSK, EVENT_PSK,
    MAX_PACKET_PAYLOAD,
};
use meshtastic::message::{decode, Message};
use meshtastic::nodedb::NodeDb;
use meshtastic::packet::{decrypt, encrypt, PacketError};
use meshtastic::packet_history::PacketHistory;
use meshtastic::proto::channel::{Channel, ChannelFile, ChannelSettings, Role};
use meshtastic::proto::node::{NodeDatabase, NodeInfoLite};
use meshtastic::proto::packet::{Data, MeshPacket, PayloadVariant};

/// A cheap sequence of numbers to take samples from.
struct Samples(u64);

impl Samples {
    fn next(&mut self) -> u64 {
        self.0 ^= self.0 << 13;
        self.0 ^= self.0 >> 7;
        self.0 ^= self.0 << 17;
        self.0
    }

    fn word(&mut self) -> u32 {
        (self.next() >> 16) as u32
    }

    fn bytes(&mut self, most: u64) -> Vec<u8> {
        let n = self.next() % (most + 1);
        (0..n).map(|_| (self.next() >> 24) as u8).collect()
    }
}

fn channel(index: i32, role: Role, name: &str, psk: &[u8]) -> Channel {
    Channel {
        index,
        role: role.number(),
        settings: Some(ChannelSettings {
            name: name.to_string(),
            psk: psk.to_vec(),
            ..Default::default()
        }),
    }
}

fn table(channels: Vec<Channel>) -> Channels {
    Channels::from_channel_file(&ChannelFile { channels, version: 0 }).unwrap()
}

#[test]
fn aes_key_streams() {
    let mut data = [0u8; 48];
    encrypt_packet(&[0; 16], 0, 0, &mut data).unwrap();
    assert_eq!(
        data[..16],
        [
            0x66, 0xe9, 0x4b, 0xd4, 0xef, 0x8a, 0x2c, 0x3b, 0x88, 0x4c, 0xfa, 0x59, 0xca, 0x34,
            0x2b, 0x2e
        ]
    );
    assert_eq!(
        data[16..32],
        [
            0x58, 0xe2, 0xfc, 0xce, 0xfa, 0x7e, 0x30, 0x61, 0x36, 0x7f, 0x1d, 0x57, 0xa4, 0xe7,
            0x45, 0x5a
        ]
    );
    assert_eq!(
        data[32..],
        [
            0x03, 0x88, 0xda, 0xce, 0x60, 0xb6, 0xa3, 0x92, 0xf3, 0x28, 0xc2, 0xb9, 0x71, 0xb2,
            0xfe, 0x78
        ]
    );
    let mut data = [0u8; 32];
    encrypt_packet(&[0; 32], 0, 0, &mut data).unwrap();
    assert_eq!(
        data[..16],
        [
            0xdc, 0x95, 0xc0, 0x78, 0xa2, 0x40, 0x89, 0x89, 0xad, 0x48, 0xa2, 0x14, 0x92, 0x84,
            0x20, 0x87
        ]
    );
    assert_eq!(
        data[16..],
        [
            0x53, 0x0f, 0x8a, 0xfb, 0xc7, 0x45, 0x36, 0xb9, 0xa9, 0x63, 0xb4, 0xf1, 0xc4, 0xcb,
            0x73, 0x8b
        ]
    );
}

#[test]
fn decryption_undoes_encryption() {
    let mut s = Samples(1);
    for _ in 0..64 {
        let (from, id) = (s.word(), s.next());
        let payload = s.bytes(MAX_PACKET_PAYLOAD as u64);
        for key in [&DEFAULT_PSK[..], &EVENT_PSK[..]] {
            let mut data = payload.clone();
            encrypt_packet(key, from, id, &mut data).unwrap();
            decrypt_packet(key, from, id, &mut data).unwrap();
            assert_eq!(data, payload);
        }
    }
}

#[test]
fn hash_is_the_exclusive_or_of_all_bytes() {
    let mut s = Samples(2);
    for _ in 0..64 {
        let name: String = s.bytes(12).iter().map(|b| char::from(b % 95 + 32)).collect();
        let psk = s.bytes(32);
        let folded = name.bytes().chain(psk.iter().copied()).fold(0u8, |x, b| x ^ b);
        assert_eq!(channel_hash(&name, &psk), folded);
    }
}

#[test]
fn expanded_keys_have_a_size_of_aes() {
    let mut s = Samples(3);
    for _ in 0..200 {
        let psk = s.bytes(48);
        let n = expand_psk(&psk).len();
        assert!(n == 0 || n == 16 || n == 32 || (n > 32 && n == psk.len()));
        if n == 16 || n == 32 {
            assert_eq!(expand_psk(&expand_psk(&psk)), expand_psk(&psk));
        }
    }
}

#[test]
fn nonces_tell_packets_apart() {
    assert_ne!(build_nonce(1, 2), build_nonce(2, 1));
    assert_ne!(build_nonce(1, 2), build_nonce(1, 3));
    assert_ne!(build_nonce(1, 2), build_nonce(2, 2));
    assert_eq!(build_nonce(1, 2), build_nonce(1, 2));
}

#[test]
fn packets_come_back_as_they_were() {
    let mut s = Samples(4);
    for _ in 0..40 {
        let key = s.bytes(0).into_iter().chain((0..32).map(|i| (s.word() >> i) as u8));
        let channels = table(vec![channel(0, Role::Primary, "ch", &key.collect::<Vec<u8>>())]);
        let data = Data {
            portnum: (s.word() % 257) as i32,
            payload: s.bytes(200),
            ..Default::default()
        };
        let packet = MeshPacket {
            from: s.word(),
            to: u32::MAX,
            id: s.word(),
            hop_limit: 3,
            payload_variant: Some(PayloadVariant::Decoded(data)),
            ..Default::default()
        };
        let mut on_air = packet.clone();
        encrypt(&channels, 0, &mut on_air).unwrap();
        let mut received = decode::<MeshPacket>(&on_air.encode_to_vec()).unwrap();
        assert_eq!(decrypt(&channels, &mut received), Ok(0));
        assert_eq!(received, packet);
    }
}

#[test]
fn packet_of_an_unknown_channel_stays_as_it_is() {
    let ours = table(vec![channel(0, Role::Primary, "ours", &[1])]);
    let theirs = table(vec![channel(0, Role::Primary, "theirs", &[1])]);
    let mut packet = MeshPacket {
        from: 5,
        id: 6,
        payload_variant: Some(PayloadVariant::Decoded(Data::default())),
        ..Default::default()
    };
    encrypt(&theirs, 0, &mut packet).unwrap();
    let before = packet.clone();
    let hash = theirs.by_index(0).unwrap().hash.unwrap();
    assert_eq!(decrypt(&ours, &mut packet), Err(PacketError::NoMatchingChannel { hash }));
    assert_eq!(packet, before);
}

#[test]
fn channel_table_is_what_its_stored_form_loads_as() {
    let channels = table(vec![
        channel(0, Role::Secondary, "a", &[]),
        channel(1, Role::Primary, "b", &[7; 16]),
        channel(2, Role::Disabled, "", &[]),
    ]);
    let again = Channels::from_channel_file(&channels.to_channel_file()).unwrap();
    assert_eq!(again.primary_index(), 1);
    assert_eq!(again.num_enabled(), 2);
    for i in 0..3 {
        assert_eq!(again.by_index(i).unwrap().channel, channels.by_index(i).unwrap().channel);
        assert_eq!(again.by_index(i).unwrap().hash, channels.by_index(i).unwrap().hash);
        assert_eq!(again.effective_key(i), channels.effective_key(i));
    }
    assert_eq!(again.effective_key(0), Some(&[7u8; 16][..]));
    assert!(again.by_index(3).is_none());
}

#[test]
fn refreshed_channel_is_consistent() {
    let mut channels = table(vec![channel(0, Role::Primary, "a", &[1])]);
    channels.by_index_mut(0).unwrap().channel.settings.as_mut().unwrap().psk = vec![9; 32];
    channels.refresh_slot(0);
    let slot = channels.by_index(0).unwrap();
    assert_eq!(slot.expanded_psk, vec![9; 32]);
    assert_eq!(slot.hash, Some(channel_hash("a", &[9; 32])));
    channels.refresh_slot(5);
    assert_eq!(channels.find_by_hash(0).len(), usize::from(slot_hash(&channels) == 0));
}

fn slot_hash(channels: &Channels) -> u8 {
    channels.by_index(0).unwrap().hash.unwrap()
}

#[test]
fn node_table_is_what_its_stored_form_loads_as() {
    let mut db = NodeDb::with_capacity(7, 4);
    for num in [3, 7, 5] {
        db.insert(NodeInfoLite { num, last_heard: num, ..Default::default() });
    }
    let again = NodeDb::from_proto(7, 4, db.to_proto()).unwrap();
    assert_eq!(again.iter(), db.iter());
    assert_eq!(again.iter()[0].num, 7);
    let bytes = db.to_proto().encode_to_vec();
    assert_eq!(decode::<NodeDatabase>(&bytes).unwrap(), db.to_proto());
}

#[test]
fn node_that_was_heard_last_in_time_can_be_evicted() {
    let mut db = NodeDb::with_capacity(7, 1);
    db.insert(NodeInfoLite { num: 3, last_heard: u32::MAX, ..Default::default() });
    db.insert(NodeInfoLite { num: 4, ..Default::default() });
    assert_eq!(db.len(), 1);
    assert!(db.get(3).is_none());
    assert!(db.get(4).is_some());
}

#[test]
fn insertion_takes_at_most_the_place_of_the_oldest() {
    let mut db = NodeDb::with_capacity(1, 3);
    for (num, last_heard) in [(2, 20), (3, 10), (4, 10)] {
        db.insert(NodeInfoLite { num, last_heard, ..Default::default() });
    }
    db.insert(NodeInfoLite { num: 5, last_heard: 1, ..Default::default() });
    let nums: Vec<u32> = db.iter().iter().map(|n| n.num).collect();
    assert_eq!(nums, vec![2, 4, 5]);
    db.insert(NodeInfoLite { num: 1, ..Default::default() });
    let nums: Vec<u32> = db.iter().iter().map(|n| n.num).collect();
    assert_eq!(nums, vec![1, 2, 4]);
}

fn seen(h: &mut PacketHistory, p: &MeshPacket, now: u64) -> meshtastic::packet_history::SeenInfo {
    h.was_seen_recently(p, now, true, 0x99, 0x99)
}

#[test]
fn history_remembers_and_forgets() {
    let mut h = PacketHistory::with_capacity(4);
    for id in 1..=5u32 {
        let p = MeshPacket { from: 8, id, ..Default::default() };
        assert!(!seen(&mut h, &p, u64::from(id)).seen_recently);
        assert!(seen(&mut h, &p, u64::from(id)).seen_recently);
    }
    assert!(h.find(8, 1).is_none());
    for id in 2..=5u32 {
        assert!(h.find(8, id).is_some());
    }
    let ids: Vec<u32> = h.iter().iter().map(|r| r.id()).collect();
    assert_eq!(ids, vec![5, 2, 3, 4]);
}

#[test]
fn highest_hop_limit_never_falls_and_next_hop_stays() {
    let mut h = PacketHistory::with_capacity(4);
    let mut p = MeshPacket { from: 8, id: 1, hop_limit: 2, next_hop: 0x55, ..Default::default() };
    seen(&mut h, &p, 1);
    p.hop_limit = 6;
    p.next_hop = 0;
    assert!(seen(&mut h, &p, 2).was_upgraded);
    p.hop_limit = 4;
    assert!(!seen(&mut h, &p, 3).was_upgraded);
    let r = h.find(8, 1).unwrap();
    assert_eq!(r.highest_hop_limit(), 6);
    assert_eq!(r.next_hop(), 0x55);
    assert_eq!(r.rx_time_ms(), 3);
    assert_eq!(r.sender(), 8);
}

#[test]
fn fallback_to_flooding_is_noticed() {
    let mut h = PacketHistory::with_capacity(4);
    let mut p = MeshPacket {
        from: 8,
        id: 1,
        hop_limit: 3,
        next_hop: 0x55,
        relay_node: 0x44,
        ..Default::default()
    };
    seen(&mut h, &p, 1);
    h.add_relayer(8, 1, 0x44);
    p.next_hop = 0;
    assert!(seen(&mut h, &p, 2).was_fallback);
    h.add_relayer(8, 1, 0x55);
    assert!(!seen(&mut h, &p, 3).was_fallback);
}

#[test]
fn relayers_are_kept_up_to_six() {
    let mut h = PacketHistory::with_capacity(4);
    let ours = MeshPacket { from: 8, id: 1, hop_limit: 3, relay_node: 0x99, ..Default::default() };
    seen(&mut h, &ours, 1);
    assert_eq!(h.find(8, 1).unwrap().our_tx_hop_limit(), 3);
    for b in [1, 2, 3, 4, 5, 6] {
        h.add_relayer(8, 1, b);
    }
    assert_eq!(h.find(8, 1).unwrap().relayers(), vec![0x99, 1, 2, 3, 4, 5]);
    let heard = MeshPacket { relay_node: 0x77, hop_limit: 2, ..ours.clone() };
    seen(&mut h, &heard, 2);
    assert_eq!(h.find(8, 1).unwrap().relayers(), vec![0x77, 0x99, 1, 2, 3, 4]);
    h.remove_relayer(8, 1, 1);
    h.add_relayer(8, 1, 9);
    assert_eq!(h.find(8, 1).unwrap().relayers(), vec![0x77, 0x99, 9, 2, 3, 4]);
    assert!(h.find(8, 1).unwrap().was_relayer(9));
    assert!(!h.find(8, 1).unwrap().was_relayer(0));
}

#[test]
fn what_is_saved_is_loaded() {
    let mut store = MemoryConfigStore::new();
    let db = NodeDatabase {
        nodes: vec![NodeInfoLite { num: 5, snr: (6.5f32).to_bits(), ..Default::default() }],
        version: 3,
    };
    store.save_versioned(ConfigKind::NodeDatabase, &db.encode_to_vec()).unwrap();
    let bytes = store.load_versioned(ConfigKind::NodeDatabase).unwrap().unwrap();
    let again = decode::<NodeDatabase>(&bytes).unwrap();
    assert_eq!(again, NodeDatabase { version: DEVICESTATE_CUR_VER, ..db });
    let copy = store.clone();
    store.delete(ConfigKind::NodeDatabase).unwrap();
    assert!(store.load(ConfigKind::NodeDatabase).unwrap().is_none());
    assert_eq!(copy.load(ConfigKind::NodeDatabase).unwrap().unwrap(), bytes);
}

#[test]
fn stamped_message_carries_the_current_version() {
    for kind in ConfigKind::ALL {
        match stamp_current_version(kind, &[]) {
            Ok(bytes) => assert_eq!(version_of(kind, &bytes).unwrap(), DEVICESTATE_CUR_VER),
            Err(_) => assert_eq!(kind, ConfigKind::DeviceUiConfig),
        }
    }
    let bytes = stamp_current_version(ConfigKind::LocalConfig, &[0x0a, 0x00, 0x32, 0x00]).unwrap();
    assert_eq!(bytes, vec![0x0a, 0x00, 0x32, 0x00, 0x40, 24]);
}

#[test]
fn store_behind_a_box() {
    let mut store: Box<dyn ConfigStore> = Box::new(MemoryConfigStore::default());
    store.save_versioned(ConfigKind::ChannelFile, &[]).unwrap();
    assert!(store.load_versioned(ConfigKind::ChannelFile).unwrap().is_some());
    store.delete(ConfigKind::ChannelFile).unwrap();
    assert!(store.load(ConfigKind::ChannelFile).unwrap().is_none());
}
