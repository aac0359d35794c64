//! The core of a small game-streaming host, verified.
//!
//! The library holds what the host decides and computes: how a client pairs with
//! it, how its requests are read and answered, how video and audio become packets,
//! and how captured pictures are chosen, converted and handed to an encoder. It
//! does no input and output; a program around it owns sockets, files and devices,
//! hands what it reads to the library and carries out what the library decides.
//!
//! - `text` and `bytes` hold the primitives that everything else is stated with.
//! - `config`, `identity` and `certificate` are about who the host is.
//! - `pairing` is the exchange by which a client becomes a known one.
//! - `protocol` and `http` are the documents and the requests of clients.
//! - `rtsp` and `session` set up and tear down streams.
//! - `h264`, `video` and `rtp` cut video into frames and packets.
//! - `audio`, `opus` and `crypto` do the same for audio, and encrypt it.
//! - `control` reads the control channel.
//! - `capture`, `pixels` and `encoder` choose, convert and encode pictures;
//!   `pixel_laws` says what their bytes tell.
//! - `cli` reads the command line.

pub mod audio;
pub mod bytes;
pub mod capture;
pub mod certificate;
pub mod cli;
pub mod config;
pub mod control;
pub mod crypto;
pub mod encoder;
pub mod h264;
pub mod http;
pub mod identity;
pub mod opus;
pub mod pairing;
pub mod pixel_laws;
pub mod pixels;
pub mod protocol;
pub mod rtp;
pub mod rtsp;
pub mod session;
pub mod text;
pub mod video;
