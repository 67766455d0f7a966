//! Messages that are held in their wire form.

use meshtastic::config::{stamp_current_version, version_of, ConfigKind, DEVICESTATE_CUR_VER};
use meshtastic::message::{decode, Message};
use meshtastic::proto::config::Config;
use meshtastic::proto::node::NodeInfo;
use meshtastic::proto::packet::{Routing, RoutingVariant};
use meshtastic::proto::stored::{DeviceState, LocalConfig};

use prost::bytes::{Buf, BufMut};
use prost::encoding::{self, DecodeContext, WireType};
use prost::DecodeError;

const CUR: u8 = DEVICESTATE_CUR_VER as u8;

fn stamped(bytes: &[u8]) -> Vec<u8> {
    let once = stamp_current_version(ConfigKind::LocalConfig, bytes).unwrap();
    assert_eq!(stamp_current_version(ConfigKind::LocalConfig, &once).unwrap(), once);
    assert_eq!(version_of(ConfigKind::LocalConfig, &once).unwrap(), DEVICESTATE_CUR_VER);
    once
}

#[test]
fn repeated_section_is_merged() {
    let bytes = [0x0a, 0x02, 0x08, 0x02, 0x32, 0x00, 0x0a, 0x02, 0x20, 0x07];
    assert_eq!(stamped(&bytes), vec![0x0a, 0x04, 0x08, 0x02, 0x20, 0x07, 0x32, 0x00, 0x40, CUR]);
    let config = decode::<LocalConfig>(&bytes).unwrap();
    assert_eq!(config.rest.len(), 2);
}

#[test]
fn last_value_of_a_field_stays() {
    assert_eq!(
        stamped(&[0x0a, 0x04, 0x08, 0x02, 0x08, 0x03]),
        vec![0x0a, 0x02, 0x08, 0x03, 0x40, CUR]
    );
    assert_eq!(
        stamped(&[0x0a, 0x02, 0x08, 0x02, 0x0a, 0x02, 0x08, 0x00]),
        vec![0x0a, 0x00, 0x40, CUR]
    );
}

#[test]
fn fields_are_put_in_order() {
    let bytes = [0x4a, 0x00, 0x40, 0x03, 0x32, 0x04, 0x40, 0x03, 0x38, 0x01, 0x0a, 0x00];
    assert_eq!(
        stamped(&bytes),
        vec![0x0a, 0x00, 0x32, 0x04, 0x38, 0x01, 0x40, 0x03, 0x40, CUR, 0x4a, 0x00]
    );
}

#[test]
fn zero_is_left_out_unless_it_is_optional() {
    assert_eq!(stamped(&[0x0a, 0x02, 0x08, 0x00]), vec![0x0a, 0x00, 0x40, CUR]);
    let zeros = [0x1a, 0x0b, 0x0d, 0, 0, 0, 0, 0x18, 0x00, 0x28, 0x00, 0x48, 0x00];
    let info = decode::<NodeInfo>(&zeros).unwrap();
    assert_eq!(info.position, Some(vec![0x0d, 0, 0, 0, 0, 0x18, 0x00, 0x48, 0x00]));
    let metrics = [0x32, 0x07, 0x08, 0x00, 0x15, 0, 0, 0, 0];
    let info = decode::<NodeInfo>(&metrics).unwrap();
    assert_eq!(info.device_metrics, Some(vec![0x08, 0x00, 0x15, 0, 0, 0, 0]));
}

#[test]
fn float_is_zero_with_either_sign() {
    let lora = |bits: [u8; 4]| [vec![0x32, 0x05, 0x35], bits.to_vec()].concat();
    assert_eq!(stamped(&lora([0, 0, 0, 0])), vec![0x32, 0x00, 0x40, CUR]);
    assert_eq!(stamped(&lora([0, 0, 0, 0x80])), vec![0x32, 0x00, 0x40, CUR]);
    assert_eq!(
        stamped(&lora([0, 0, 0x80, 0x3f])),
        vec![0x32, 0x05, 0x35, 0, 0, 0x80, 0x3f, 0x40, CUR]
    );
}

#[test]
fn numbers_are_written_in_one_form() {
    let long_one = [0x0a, 0x04, 0x08, 0x81, 0x80, 0x00];
    assert_eq!(stamped(&long_one), vec![0x0a, 0x02, 0x08, 0x01, 0x40, CUR]);
    let true_as_seven = [0x32, 0x02, 0x08, 0x07];
    assert_eq!(stamped(&true_as_seven), vec![0x32, 0x02, 0x08, 0x01, 0x40, CUR]);
    let short_minus_one = [0x32, 0x06, 0x50, 0xff, 0xff, 0xff, 0xff, 0x0f];
    let mut expected = vec![0x32, 0x0b, 0x50];
    encoding::encode_varint(-1i32 as u64, &mut expected);
    expected.extend([0x40, CUR]);
    assert_eq!(stamped(&short_minus_one), expected);
    let wide = [0x32, 0x06, 0x40, 0x83, 0x80, 0x80, 0x80, 0x10];
    assert_eq!(stamped(&wide), vec![0x32, 0x02, 0x40, 0x03, 0x40, CUR]);
}

#[test]
fn numbers_of_64_bits_are_kept_whole() {
    let mut power = vec![0x80, 0x02];
    encoding::encode_varint(u64::MAX, &mut power);
    let mut bytes = vec![0x1a, power.len() as u8];
    bytes.extend(&power);
    let mut expected = bytes.clone();
    expected.extend([0x40, CUR]);
    assert_eq!(stamped(&bytes), expected);
}

#[test]
fn lists_of_numbers_are_written_in_one_field() {
    let lora = [0xb8, 0x06, 0x05, 0xba, 0x06, 0x03, 0x81, 0x00, 0x02, 0xb8, 0x06, 0x09];
    let mut bytes = vec![0x32, lora.len() as u8];
    bytes.extend(lora);
    assert_eq!(
        stamped(&bytes),
        vec![0x32, 0x07, 0xba, 0x06, 0x04, 0x05, 0x01, 0x02, 0x09, 0x40, CUR]
    );
    assert_eq!(stamped(&[0x32, 0x03, 0xba, 0x06, 0x00]), vec![0x32, 0x00, 0x40, CUR]);
    let route = [0x0a, 0x0b, 0x0d, 1, 0, 0, 0, 0x0a, 0x04, 2, 0, 0, 0];
    assert_eq!(
        decode::<Routing>(&route).unwrap().variant,
        Some(RoutingVariant::RouteRequest(vec![0x0a, 0x08, 1, 0, 0, 0, 2, 0, 0, 0]))
    );
}

#[test]
fn lists_of_byte_strings_keep_their_order() {
    let security = [0x1a, 0x01, 0x09, 0x0a, 0x01, 0x05, 0x1a, 0x00, 0x1a, 0x01, 0x03];
    let mut bytes = vec![0x4a, security.len() as u8];
    bytes.extend(security);
    let mut expected = vec![0x40, CUR, 0x4a, security.len() as u8];
    expected.extend([0x0a, 0x01, 0x05, 0x1a, 0x01, 0x09, 0x1a, 0x00, 0x1a, 0x01, 0x03]);
    assert_eq!(stamped(&bytes), expected);
}

#[test]
fn packet_has_one_payload() {
    let queue = |packet: &[u8]| {
        let bytes = [vec![0x2a, packet.len() as u8], packet.to_vec()].concat();
        decode::<DeviceState>(&bytes).unwrap().encode_to_vec()
    };
    let decoded = [0x22, 0x02, 0x08, 0x01];
    let encrypted = [0x2a, 0x01, 0x07];
    assert_eq!(
        queue(&[&decoded[..], &encrypted[..]].concat()),
        [&[0x2a, 0x03][..], &encrypted[..]].concat()
    );
    assert_eq!(
        queue(&[&encrypted[..], &decoded[..]].concat()),
        [&[0x2a, 0x04][..], &decoded[..]].concat()
    );
    assert_eq!(
        queue(&[0x22, 0x02, 0x08, 0x01, 0x22, 0x02, 0x18, 0x01]),
        vec![0x2a, 0x06, 0x22, 0x04, 0x08, 0x01, 0x18, 0x01]
    );
    assert_eq!(queue(&[0x2a, 0x00, 0x18, 0x04]), vec![0x2a, 0x04, 0x18, 0x04, 0x2a, 0x00]);
}

#[test]
fn lists_of_messages_are_not_merged() {
    let bytes = [0x2a, 0x02, 0x18, 0x04, 0x3a, 0x02, 0x18, 0x01, 0x2a, 0x02, 0x18, 0x05];
    let state = decode::<DeviceState>(&bytes).unwrap();
    assert_eq!(
        state.encode_to_vec(),
        vec![0x2a, 0x02, 0x18, 0x04, 0x2a, 0x02, 0x18, 0x05, 0x3a, 0x02, 0x18, 0x01]
    );
}

#[test]
fn section_frame_is_merged_or_replaced() {
    let merged = decode::<Config>(&[0x0a, 0x02, 0x20, 0x07, 0x0a, 0x02, 0x08, 0x02]).unwrap();
    assert_eq!(merged.encode_to_vec(), vec![0x0a, 0x04, 0x08, 0x02, 0x20, 0x07]);
    let replaced = decode::<Config>(&[0x0a, 0x02, 0x20, 0x07, 0x32, 0x02, 0x40, 0x03]).unwrap();
    assert_eq!(replaced.encode_to_vec(), vec![0x32, 0x02, 0x40, 0x03]);
}

#[derive(Debug, Default)]
struct LoRa {
    use_preset: bool,
    modem_preset: i32,
    bandwidth: u32,
    spread_factor: u32,
    coding_rate: u32,
    frequency_offset: f32,
    region: i32,
    hop_limit: u32,
    tx_enabled: bool,
    tx_power: i32,
    channel_num: u32,
    override_duty_cycle: bool,
    rx_boosted_gain: bool,
    override_frequency: f32,
    pa_fan_disabled: bool,
    ignore_incoming: Vec<u32>,
    ignore_mqtt: bool,
    config_ok_to_mqtt: bool,
}

impl prost::Message for LoRa {
    fn encode_raw(&self, buf: &mut impl BufMut) {
        if self.use_preset {
            encoding::bool::encode(1, &self.use_preset, buf);
        }
        if self.modem_preset != 0 {
            encoding::int32::encode(2, &self.modem_preset, buf);
        }
        if self.bandwidth != 0 {
            encoding::uint32::encode(3, &self.bandwidth, buf);
        }
        if self.spread_factor != 0 {
            encoding::uint32::encode(4, &self.spread_factor, buf);
        }
        if self.coding_rate != 0 {
            encoding::uint32::encode(5, &self.coding_rate, buf);
        }
        if self.frequency_offset != 0.0 {
            encoding::float::encode(6, &self.frequency_offset, buf);
        }
        if self.region != 0 {
            encoding::int32::encode(7, &self.region, buf);
        }
        if self.hop_limit != 0 {
            encoding::uint32::encode(8, &self.hop_limit, buf);
        }
        if self.tx_enabled {
            encoding::bool::encode(9, &self.tx_enabled, buf);
        }
        if self.tx_power != 0 {
            encoding::int32::encode(10, &self.tx_power, buf);
        }
        if self.channel_num != 0 {
            encoding::uint32::encode(11, &self.channel_num, buf);
        }
        if self.override_duty_cycle {
            encoding::bool::encode(12, &self.override_duty_cycle, buf);
        }
        if self.rx_boosted_gain {
            encoding::bool::encode(13, &self.rx_boosted_gain, buf);
        }
        if self.override_frequency != 0.0 {
            encoding::float::encode(14, &self.override_frequency, buf);
        }
        if self.pa_fan_disabled {
            encoding::bool::encode(15, &self.pa_fan_disabled, buf);
        }
        encoding::uint32::encode_packed(103, &self.ignore_incoming, buf);
        if self.ignore_mqtt {
            encoding::bool::encode(104, &self.ignore_mqtt, buf);
        }
        if self.config_ok_to_mqtt {
            encoding::bool::encode(105, &self.config_ok_to_mqtt, buf);
        }
    }

    fn merge_field(
        &mut self,
        tag: u32,
        wire_type: WireType,
        buf: &mut impl Buf,
        ctx: DecodeContext,
    ) -> Result<(), DecodeError> {
        match tag {
            1 => encoding::bool::merge(wire_type, &mut self.use_preset, buf, ctx),
            2 => encoding::int32::merge(wire_type, &mut self.modem_preset, buf, ctx),
            3 => encoding::uint32::merge(wire_type, &mut self.bandwidth, buf, ctx),
            4 => encoding::uint32::merge(wire_type, &mut self.spread_factor, buf, ctx),
            5 => encoding::uint32::merge(wire_type, &mut self.coding_rate, buf, ctx),
            6 => encoding::float::merge(wire_type, &mut self.frequency_offset, buf, ctx),
            7 => encoding::int32::merge(wire_type, &mut self.region, buf, ctx),
            8 => encoding::uint32::merge(wire_type, &mut self.hop_limit, buf, ctx),
            9 => encoding::bool::merge(wire_type, &mut self.tx_enabled, buf, ctx),
            10 => encoding::int32::merge(wire_type, &mut self.tx_power, buf, ctx),
            11 => encoding::uint32::merge(wire_type, &mut self.channel_num, buf, ctx),
            12 => encoding::bool::merge(wire_type, &mut self.override_duty_cycle, buf, ctx),
            13 => encoding::bool::merge(wire_type, &mut self.rx_boosted_gain, buf, ctx),
            14 => encoding::float::merge(wire_type, &mut self.override_frequency, buf, ctx),
            15 => encoding::bool::merge(wire_type, &mut self.pa_fan_disabled, buf, ctx),
            103 => encoding::uint32::merge_repeated(wire_type, &mut self.ignore_incoming, buf, ctx),
            104 => encoding::bool::merge(wire_type, &mut self.ignore_mqtt, buf, ctx),
            105 => encoding::bool::merge(wire_type, &mut self.config_ok_to_mqtt, buf, ctx),
            _ => encoding::skip_field(wire_type, tag, buf, ctx),
        }
    }

    fn encoded_len(&self) -> usize {
        let mut bytes = Vec::new();
        self.encode_raw(&mut bytes);
        bytes.len()
    }

    fn clear(&mut self) {
        *self = LoRa::default();
    }
}

#[derive(Debug, Default)]
struct Stored {
    lora: Option<LoRa>,
    version: u32,
}

impl prost::Message for Stored {
    fn encode_raw(&self, buf: &mut impl BufMut) {
        if let Some(lora) = &self.lora {
            encoding::message::encode(6, lora, buf);
        }
        if self.version != 0 {
            encoding::uint32::encode(8, &self.version, buf);
        }
    }

    fn merge_field(
        &mut self,
        tag: u32,
        wire_type: WireType,
        buf: &mut impl Buf,
        ctx: DecodeContext,
    ) -> Result<(), DecodeError> {
        match tag {
            6 => encoding::message::merge(
                wire_type,
                self.lora.get_or_insert_with(LoRa::default),
                buf,
                ctx,
            ),
            8 => encoding::uint32::merge(wire_type, &mut self.version, buf, ctx),
            _ => encoding::skip_field(wire_type, tag, buf, ctx),
        }
    }

    fn encoded_len(&self) -> usize {
        let mut bytes = Vec::new();
        self.encode_raw(&mut bytes);
        bytes.len()
    }

    fn clear(&mut self) {
        *self = Stored::default();
    }
}

/// Bytes that are often, but not always, fields of the messages above.
fn scrambled(seed: u64) -> Vec<u8> {
    let mut state = seed.wrapping_mul(0x9e37_79b9_7f4a_7c15) | 1;
    let mut next = || {
        state ^= state << 13;
        state ^= state >> 7;
        state ^= state << 17;
        state
    };
    let mut bytes = Vec::new();
    for _ in 0..1 + next() % 3 {
        let mut body = Vec::new();
        for _ in 0..next() % 6 {
            let tag = [1, 2, 4, 6, 7, 8, 10, 14, 103, 104, 200][(next() % 11) as usize];
            let kind = match (tag, next() % 8) {
                (_, 0) => next() % 8,
                (6 | 14, _) => 5,
                (103, n) if n < 4 => 2,
                _ => 0,
            };
            encoding::encode_varint(tag << 3 | kind, &mut body);
            match kind {
                0 => encoding::encode_varint(next() >> (next() % 64), &mut body),
                5 => body.extend(((next() as u32) & (0x8000_0000 | next() as u32)).to_le_bytes()),
                2 => {
                    let n = next() % 4;
                    body.push(n as u8);
                    body.extend((0..n).map(|_| (next() % 128) as u8));
                },
                _ => body.push(next() as u8),
            }
        }
        if next() % 4 == 0 {
            encoding::encode_varint(8 << 3, &mut bytes);
            encoding::encode_varint(next() >> (next() % 64), &mut bytes);
        }
        bytes.push(0x32);
        encoding::encode_varint(body.len() as u64, &mut bytes);
        bytes.extend(body);
    }
    bytes
}

#[test]
fn stored_bytes_are_those_of_prost() {
    let mut read = 0;
    for seed in 0..20_000 {
        let bytes = scrambled(seed);
        let ours = stamp_current_version(ConfigKind::LocalConfig, &bytes);
        match <Stored as prost::Message>::decode(&bytes[..]) {
            Ok(mut m) => {
                m.version = DEVICESTATE_CUR_VER;
                assert_eq!(ours.unwrap(), prost::Message::encode_to_vec(&m), "{bytes:02x?}");
                read += 1;
            },
            Err(_) => assert!(ours.is_err(), "{bytes:02x?}"),
        }
    }
    assert!(read > 2_000);
}
