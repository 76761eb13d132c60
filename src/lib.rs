//! Decoding of Pro DJ Link keep-alive datagrams and discovery of the devices
//! that send them.
pub mod protocol;
pub mod keepalive;
pub mod network;
pub mod status;
