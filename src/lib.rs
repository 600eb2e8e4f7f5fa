//! A channel protocol for authenticated, partly confidential messages over an untrusted
//! append-only transport: one author announces a channel, subscribers enrol, keyloads deliver
//! session keys to chosen recipients, and packets are published on a linked chain of messages.
//!
//! Every message is built and read by a sequence of operations on a sponge (`sponge`); the
//! contracts describe the sponge by the operations applied to it, so that a reader that applies
//! the same operations as the writer provably reads back what was written.
//!
//! - `sponge`: the sponge interface and its model.
//! - `keyload`, `tagged_packet`, `signed_packet`, `subscribe`, `message`: the message contents
//!   and the framing, each with its byte-level specification and round-trip laws
//!   (`keyload_laws` for keyloads).
//! - `key_store`, `link_store`: sequencing cursors and committed message states.
//! - `author`: the author's engine over a `Transport`; `laws` for its sequencing laws.
//! - `signature`: Ed25519 from ed25519-dalek; `key_exchange`: X25519 from x25519-dalek.

pub mod author;
pub mod bytes;
pub mod error;
pub mod key_store;
pub mod key_exchange;
pub mod keyload;
pub mod keyload_laws;
pub mod laws;
pub mod link_store;
pub mod message;
pub mod signature;
pub mod signed_packet;
pub mod sponge;
pub mod subscribe;
pub mod tagged_packet;
