//! Local service discovery for BitTorrent (BEP 14): peers on the local network announce their
//! torrents to a multicast group.
//!
//! `service` decides what is done with each datagram and what is sent; `announce` writes
//! announcements and `message` reads them; `receivers` and `limiter` hold what is looked for
//! and how often it is answered. `message_laws`, `value_laws` and `equivalence` state
//! what holds of every message. Sockets, tasks and channels are left to the caller.

pub mod addr;
pub mod announce;
pub mod equivalence;
pub mod id20;
pub mod limiter;
pub mod message;
pub mod message_laws;
pub mod receivers;
pub mod request;
pub mod service;
pub mod text;
pub mod value_laws;
