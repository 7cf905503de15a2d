//! A peer-to-peer game networking library using iroh, for the Bevy game engine.
//!
//! This is the synchronous side: the state of servers, clients and their
//! connections, and the decisions of the async tasks that talk to the network.
//! The two sides are joined by queues. Whether a queue takes or gives a message
//! rests on the tasks; each contract says what holds whichever way it goes.

pub mod client;
pub mod config;
pub mod server;
pub mod shared;
