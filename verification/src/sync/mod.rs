//! Syncing with phones and other computers on the local network: the pair
//! code, the server-sent event broadcaster, the HTTP API and the peer
//! protocol, each as the decisions that the network code in the program
//! carries out.
pub mod broadcast;
pub mod http;
pub mod pairing;
pub mod peer;
