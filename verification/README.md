# meshtastic

The logic of a Meshtastic node, written and proved in Verus: what a node makes of
the packets on its mesh, of the phone that is connected to it, and of the
configuration that it stores.

## Layout

- `src/wire.rs`, `src/message.rs`, `src/text.rs`: the wire format, messages over
  it, and strings.
- `src/proto/`: the messages themselves; `src/shape.rs`, `src/held.rs`: the messages
  that are held in their wire form.
- `src/crypto.rs`: channel hashes, keys, and packet encryption.
- `src/channels.rs`, `src/packet.rs`: the channel table, and packets on a channel.
- `src/mesh.rs`, `src/nodedb.rs`, `src/packet_history.rs`, `src/routing.rs`: who is
  on the mesh, which packets were seen, and what is sent on.
- `src/module.rs`, `src/node_info.rs`, `src/text_message.rs`: feature modules and
  their dispatcher.
- `src/phone_api.rs`: the dialogue with the phone.
- `src/config.rs`, `src/files.rs`: stored configuration, and its files.
- `src/hal.rs`, `src/sim.rs`: clocks, random numbers and radios, and simulated ones.
- `app/`: the file store, clocks and radios that threads share, and printable
  errors.

## Reading the contracts

Each type has a view, and each contract says what a call does to the views. A
function named `lemma_…` that is public states a law that holds across calls; its
comment says it in words.

The few calls that are not proved stand behind small functions whose comments say
what is taken for granted of the call: of other crates AES in counter mode,
ChaCha8, the varints and the decoding error of prost, and the wiping of keys; of
the standard library the decoding of UTF-8, the clock, and the text of an error;
and the call of an observer of text messages.
