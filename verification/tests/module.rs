//! The dispatcher of modules.

use meshtastic::mesh::{NodeNum, NODENUM_BROADCAST};
use meshtastic::module::{
    is_interested, DispatchOutcome, MeshModule, ModuleContext, ModuleDispatcher, ProcessMessage,
    RxSource,
};
use meshtastic::proto::channel::{Channel, ChannelSettings};
use meshtastic::proto::packet::{Data, MeshPacket, PayloadVariant};
use meshtastic::proto::ports::PORT_TEXT_MESSAGE;

struct Spy {
    name: String,
    port: i32,
    promiscuous: bool,
    loopback: bool,
    encrypted: bool,
    bound_channel: Option<String>,
    stop: bool,
    reply_with: Option<Vec<u8>>,
    seen: Vec<u32>,
}

impl Spy {
    fn new(name: &str, port: i32) -> Self {
        Self {
            name: name.to_string(),
            port,
            promiscuous: false,
            loopback: false,
            encrypted: false,
            bound_channel: None,
            stop: false,
            reply_with: None,
            seen: Vec::new(),
        }
    }
}

impl MeshModule for Spy {
    fn name(&self) -> &str {
        &self.name
    }
    fn is_promiscuous(&self) -> bool {
        self.promiscuous
    }
    fn loopback_ok(&self) -> bool {
        self.loopback
    }
    fn encrypted_ok(&self) -> bool {
        self.encrypted
    }
    fn bound_channel(&self) -> Option<&str> {
        self.bound_channel.as_deref()
    }
    fn want_packet(&self, p: &MeshPacket) -> bool {
        match &p.payload_variant {
            Some(PayloadVariant::Decoded(d)) => d.portnum == self.port,
            _ => self.encrypted,
        }
    }
    fn handle_received(&mut self, p: &MeshPacket, _ctx: &ModuleContext<'_>) -> ProcessMessage {
        self.seen.push(p.id);
        if self.stop {
            ProcessMessage::Stop
        } else {
            ProcessMessage::Continue
        }
    }
    fn alloc_reply(&mut self, request: &MeshPacket) -> Option<MeshPacket> {
        let body = self.reply_with.clone()?;
        Some(MeshPacket {
            from: 0,
            to: 0,
            id: request.id.wrapping_add(0x1000),
            payload_variant: Some(PayloadVariant::Decoded(Data {
                portnum: self.port,
                payload: body,
                ..Default::default()
            })),
            ..Default::default()
        })
    }
}

const OUR: NodeNum = 0x1000_0000;

fn text_pkt(from: NodeNum, to: NodeNum, id: u32, want_response: bool) -> MeshPacket {
    MeshPacket {
        from,
        to,
        id,
        payload_variant: Some(PayloadVariant::Decoded(Data {
            portnum: PORT_TEXT_MESSAGE,
            payload: b"hi".to_vec(),
            want_response,
            ..Default::default()
        })),
        ..Default::default()
    }
}

fn encrypted_pkt(from: NodeNum, to: NodeNum, id: u32) -> MeshPacket {
    MeshPacket {
        from,
        to,
        id,
        payload_variant: Some(PayloadVariant::Encrypted(Vec::new())),
        ..Default::default()
    }
}

#[test]
fn dispatch_fans_out_and_stops_on_stop() {
    let mut disp = ModuleDispatcher::new();
    disp.register(Spy::new("a", PORT_TEXT_MESSAGE));
    disp.register({
        let mut s = Spy::new("b", PORT_TEXT_MESSAGE);
        s.stop = true;
        s
    });
    disp.register(Spy::new("c", PORT_TEXT_MESSAGE));
    let p = text_pkt(1, OUR, 10, false);
    let out = disp.dispatch(&p, RxSource::Radio, OUR, None);
    assert!(out.module_found);
    assert_eq!(out.stopped_by, Some(1));
    assert!(out.reply.is_none());
}

#[test]
fn encrypted_packets_skipped_unless_opted_in() {
    let mut disp = ModuleDispatcher::new();
    disp.register(Spy::new("no", PORT_TEXT_MESSAGE));
    let mut yes = Spy::new("yes", PORT_TEXT_MESSAGE);
    yes.encrypted = true;
    yes.promiscuous = true;
    disp.register(yes);
    let p = encrypted_pkt(1, OUR, 10);
    let out = disp.dispatch(&p, RxSource::Radio, OUR, None);
    assert!(out.module_found, "encrypted-ok module should have run");
}

#[test]
fn packets_not_addressed_to_us_are_skipped_unless_promiscuous() {
    let mut disp = ModuleDispatcher::new();
    disp.register(Spy::new("quiet", PORT_TEXT_MESSAGE));
    let mut prom = Spy::new("prom", PORT_TEXT_MESSAGE);
    prom.promiscuous = true;
    disp.register(prom);
    let p = text_pkt(1, 0x2222_2222, 10, false);
    let out = disp.dispatch(&p, RxSource::Radio, OUR, None);
    assert!(out.module_found);
}

#[test]
fn broadcasts_reach_non_promiscuous_modules() {
    let mut disp = ModuleDispatcher::new();
    disp.register(Spy::new("x", PORT_TEXT_MESSAGE));
    let p = text_pkt(1, NODENUM_BROADCAST, 10, false);
    let out = disp.dispatch(&p, RxSource::Radio, OUR, None);
    assert!(out.module_found);
}

#[test]
fn local_source_skipped_unless_loopback_ok() {
    let mut disp = ModuleDispatcher::new();
    disp.register(Spy::new("no-loop", PORT_TEXT_MESSAGE));
    let mut loopmod = Spy::new("loop", PORT_TEXT_MESSAGE);
    loopmod.loopback = true;
    disp.register(loopmod);
    let p = text_pkt(OUR, 0x2222_2222, 10, false);
    let out = disp.dispatch(&p, RxSource::Local, OUR, None);
    assert!(!out.module_found);
}

#[test]
fn bound_channel_drops_mismatched_channel() {
    let mut disp = ModuleDispatcher::new();
    let mut bound = Spy::new("admin", PORT_TEXT_MESSAGE);
    bound.bound_channel = Some("admin".to_string());
    disp.register(bound);

    let ch = Channel {
        settings: Some(ChannelSettings {
            name: "default".into(),
            ..Default::default()
        }),
        ..Default::default()
    };
    let p = text_pkt(1, OUR, 10, false);
    let out = disp.dispatch(&p, RxSource::Radio, OUR, Some(&ch));
    assert!(!out.module_found, "mismatched bound-channel must drop the module");

    let ch_ok = Channel {
        settings: Some(ChannelSettings {
            name: "ADMIN".into(),
            ..Default::default()
        }),
        ..Default::default()
    };
    let out2 = disp.dispatch(&p, RxSource::Radio, OUR, Some(&ch_ok));
    assert!(out2.module_found);
}

#[test]
fn bound_channel_allows_local_packets() {
    let mut disp = ModuleDispatcher::new();
    let mut bound = Spy::new("admin", PORT_TEXT_MESSAGE);
    bound.bound_channel = Some("admin".to_string());
    disp.register(bound);
    let p = text_pkt(0, OUR, 10, false);
    let out = disp.dispatch(&p, RxSource::Radio, OUR, None);
    assert!(out.module_found);
}

#[test]
fn alloc_reply_populated_when_want_response_set() {
    let mut disp = ModuleDispatcher::new();
    let mut replier = Spy::new("r", PORT_TEXT_MESSAGE);
    replier.reply_with = Some(b"pong".to_vec());
    disp.register(replier);
    let p = text_pkt(0x1234, OUR, 0x99, true);
    let out = disp.dispatch(&p, RxSource::Radio, OUR, None);
    let reply = out.reply.expect("expected a reply");
    assert_eq!(reply.to, 0x1234);
    assert_eq!(reply.id, 0x99u32.wrapping_add(0x1000));
    match reply.payload_variant {
        Some(PayloadVariant::Decoded(d)) => {
            assert_eq!(d.payload, b"pong");
            assert_eq!(d.request_id, 0x99);
        }
        _ => panic!("reply should be decoded"),
    }
}

#[test]
fn alloc_reply_ignored_when_want_response_clear() {
    let mut disp = ModuleDispatcher::new();
    let mut replier = Spy::new("r", PORT_TEXT_MESSAGE);
    replier.reply_with = Some(b"pong".to_vec());
    disp.register(replier);
    let p = text_pkt(0x1234, OUR, 0x99, false);
    let out = disp.dispatch(&p, RxSource::Radio, OUR, None);
    assert!(out.reply.is_none());
}

#[test]
fn only_first_reply_kept() {
    let mut disp = ModuleDispatcher::new();
    let mut a = Spy::new("a", PORT_TEXT_MESSAGE);
    a.reply_with = Some(b"first".to_vec());
    disp.register(a);
    let mut b = Spy::new("b", PORT_TEXT_MESSAGE);
    b.reply_with = Some(b"second".to_vec());
    disp.register(b);
    let p = text_pkt(0x1234, OUR, 0x99, true);
    let out = disp.dispatch(&p, RxSource::Radio, OUR, None);
    match out.reply.unwrap().payload_variant {
        Some(PayloadVariant::Decoded(d)) => assert_eq!(d.payload, b"first"),
        _ => panic!(),
    }
}

#[test]
fn answers_are_recorded_in_order() {
    let request = text_pkt(0x1234, OUR, 0x99, true);
    let reply = MeshPacket { id: 1, ..Default::default() };
    let later = MeshPacket { id: 2, ..Default::default() };
    let mut outcome = DispatchOutcome::default();
    outcome.record(0, ProcessMessage::Continue, None, &request, OUR);
    assert!(outcome.module_found && outcome.reply.is_none() && outcome.stopped_by.is_none());
    outcome.record(1, ProcessMessage::Continue, Some(reply), &request, OUR);
    outcome.record(2, ProcessMessage::Stop, Some(later), &request, OUR);
    let kept = outcome.reply.unwrap();
    assert_eq!((kept.id, kept.to), (1, 0x1234));
    assert_eq!(outcome.stopped_by, Some(2));
}

#[test]
fn local_request_is_answered_without_acknowledgement() {
    let mut disp = ModuleDispatcher::default();
    let mut replier = Spy::new("r", PORT_TEXT_MESSAGE);
    replier.reply_with = Some(b"pong".to_vec());
    replier.loopback = true;
    disp.register(replier);
    assert_eq!(disp.len(), 1);
    assert!(!disp.is_empty());
    let mut p = text_pkt(0, OUR, 0x99, true);
    p.want_ack = true;
    p.channel = 3;
    let reply = disp.dispatch(&p, RxSource::Local, OUR, None).reply.unwrap();
    assert_eq!(reply.to, OUR);
    assert_eq!(reply.channel, 3);
    assert!(!reply.want_ack);
    p.from = 0x1234;
    assert!(disp.dispatch(&p, RxSource::Radio, OUR, None).reply.unwrap().want_ack);
}

#[test]
fn own_broadcast_is_not_answered() {
    let mut disp = ModuleDispatcher::new();
    let mut replier = Spy::new("r", PORT_TEXT_MESSAGE);
    replier.reply_with = Some(b"pong".to_vec());
    disp.register(replier);
    let p = text_pkt(OUR, NODENUM_BROADCAST, 0x99, true);
    let out = disp.dispatch(&p, RxSource::Radio, OUR, None);
    assert!(out.module_found);
    assert!(out.reply.is_none());
}

#[test]
fn interest_can_be_asked() {
    let m = Spy::new("a", PORT_TEXT_MESSAGE);
    let ctx = ModuleContext { our_node_num: OUR, src: RxSource::Radio, channel: None };
    assert!(is_interested(&m, &text_pkt(1, OUR, 2, false), &ctx));
    assert!(!is_interested(&m, &text_pkt(1, 0x2222_2222, 2, false), &ctx));
    let local = ModuleContext { src: RxSource::Local, ..ctx };
    assert!(!is_interested(&m, &text_pkt(1, OUR, 2, false), &local));
}
