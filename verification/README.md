# siar

The verified core of a peer-to-peer messenger, written in Verus. Verus
proves every function in `src/` against its contract, except the small
trusted wrappers through which calls into outside crates (BLAKE3,
ChaCha20-Poly1305, zstd, uuid, rand_core, data-encoding) and into std's
clocks and text routines go; what each of them is trusted to do is stated
in its doc comment.

## Layout

- `src/capability/` — capability negotiation: identifiers and versions,
  descriptors with bounded parameters, canonical sets, the registry and its
  validation, policy layers, the pure `negotiate` pipeline, canonical
  encoding and hashing, the transcript hash, and the `files/1` and `dtn/1`
  extension negotiators. Laws: negotiation is symmetric, negotiated ids are
  offered by both sides and allowed by policy, a required capability the
  peer lacks fails negotiation, set order does not depend on insertion
  order, and the transcript hash does not depend on which peer is local.
  The policy keeps, as its invariant, that it disables exactly the ids some
  disable call named.
- `src/blob/` — chunked, ciphertext-addressed blobs: fixed-size chunking
  (chunks reassemble to the data), manifests with enforced limits (a built
  manifest verifies against its ciphertext), chunk and blob verification,
  resume bitmaps with maximal missing ranges, the transfer state machine
  (terminal states are exactly those without transitions), and whole-blob
  AEAD sealing (opening a seal gives the plaintext back). File metadata is
  sealed under the blob's key with its own associated data (content has
  none); the contracts state which associated data each seal and open
  uses, and the tests show that a content ciphertext does not open as
  metadata and the reverse. Laws: the received count
  plus the missing-run lengths is the chunk count.
- `src/calls/` — call media: the jitter buffer, codec choice and the plans
  both ends of a call derive (which agree), call signalling messages,
  integer audio downmix, upmix and fixed-point resampling, RGB/I420
  conversion, IVF headers, the video wire messages, camera-error text, and
  the signalling decisions of each end (`flow`: ring, answer, connect,
  cancel, decline, no answer in time, failed connection, end) as step
  functions from phase and event to phase and action. The jitter buffer
  keeps, as its invariant, exactly the frames pushed and not yet handed
  back, never over capacity.
- `src/protocol/` — message envelopes, their serialized form and the
  adaptive-compression frame around it.
- `src/mesh/` — the offline mesh: the flooded envelope's wire form (which
  decodes back), the dedup cache, flood decisions, LAN broadcast targets and
  the recent-peer count. The dedup cache keeps the history of what it
  recorded: while its clock has not gone back, a check reports an id as new
  exactly when it was not recorded inside the window, and recording one id
  leaves every other id's answer alone.
- `src/radix.rs` — base32 and base64 as RFC 4648 states them, with base32
  shown one-to-one (so ticket text decodes back to its payload).
- `src/routes.rs`, `src/paths.rs` — device-to-endpoint hints with their
  reverse index, and what a peer's advertised addresses say about the
  path to it, with each transport's capability baseline.
- `src/store.rs`, `src/registry.rs`, `src/transfer.rs`, `src/ticket.rs`,
  `src/conv_docs.rs`, `src/contacts.rs` — stored names, username records
  and claims, file-transfer helpers, ticket text and derived identifiers,
  synced records and contact updates.
- `src/varint.rs`, `src/wire.rs`, `src/text.rs`, `src/digest.rs`, `src/random.rs`,
  `src/clock.rs`, `src/util.rs` — shared wire, text, hashing, randomness,
  clock and byte helpers.
- `tests/` — executable tests of the library.
- `app/` — plain Rust around the library: message stamping, the async
  transport traits, drivers that run the call-signalling steps over
  caller-supplied I/O, the floating-point audio adapters, and the serde
  step of file-metadata sealing.

## What is not here

Parts of the messenger depend on workspace crates that are not part of
this tree (the domain types, the routing policy with its link-health
scoring, the iroh-based transport and Wi-Fi Direct bridge, and the media
and UI layers). So the transport manager's candidate table and health
updates, the connectivity monitor, the contact and mesh event loops,
camera and audio device I/O, and the typed `FileMetadata` (whose media
type comes from the domain crate) are left out; the library keeps
the decisions they make (signalling steps, routes, path classification,
metadata sealing on bytes) so such loops can drive it.

Every wire or stored form here (envelopes, mesh envelopes, video frames
and clips, call and contact messages, username claims, synced records)
follows postcard's layout, and each comes with a proof that decoding gives
back what was encoded; the tests compare each of them byte for byte with
postcard's own output.
