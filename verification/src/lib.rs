//! A BitTorrent client library: bencoding, torrent metadata, peer and tracker
//! messages, and the bookkeeping that decides which peer fetches which piece.

pub mod be;
pub mod bencode;
pub mod bytes;
pub mod collate;
pub mod commands;
pub mod corkboard;
pub mod data_proxy;
pub mod decode;
pub mod download;
pub mod error;
pub mod handshake;
pub mod info;
pub mod json;
pub mod keymap;
pub mod magnet;
pub mod multimodal_tracker;
pub mod multithread;
pub mod net;
pub mod peer;
pub mod pool;
pub mod text;
pub mod torrent_source;
pub mod tracker;
pub mod types;
pub mod util;
