//! The streams between a streamer and a headset, and what the headset decides about them.
//!
//! A message is cut into shards that each fit in a datagram ([`sender`], [`wire`]), the
//! datagrams are sorted into the queues of their streams ([`socket`]), and the shards are put
//! together again ([`receiver`]). [`laws`] states what the two ends promise together,
//! [`provenance`] where the messages come from that a receiver delivers, and [`steps`] what each
//! step of a receiver changes.
//!
//! [`connection`], [`negotiation`], [`video`], [`battery`] and [`hud`] hold the decisions of the
//! client that receives the streams. They are told what happened and say what to do about it.
pub mod battery;
pub mod buffer;
pub mod clock;
pub mod connection;
pub mod hud;
pub mod laws;
pub mod negotiation;
pub mod provenance;
pub mod receiver;
pub mod sender;
pub mod socket;
pub mod steps;
pub mod video;
pub mod wire;
