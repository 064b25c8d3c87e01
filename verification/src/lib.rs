//! Verified core of a layer 2/3/4 passthrough network load balancer:
//! round-robin backend selection, a sticky 5-tuple flow table, an ARP
//! cache, the ageing of both tables, and the Ethernet/IPv4/TCP/ARP frame
//! handling of the data plane.

pub mod addr;
pub mod clock;
pub mod state;
pub mod health;
pub mod wire;
pub mod passthrough;
pub mod arp;
pub mod laws;
