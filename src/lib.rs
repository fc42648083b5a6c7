//! Link protocol to a wrist-worn display device: demultiplexing of its byte
//! stream into log text and screen captures, decoding of the packed screen
//! bitmap, the decisions of a serial session, the routing state of a relay,
//! and the state of a controller front-end.
pub mod controller;
pub mod frame;
pub mod logs;
pub mod protocol;
pub mod relay;
pub mod screen;
pub mod session;
