//! Handshakes that announce no extensions.

use vstd::prelude::*;
use vstd::slice::slice_subrange;
use vstd::utf8::encode_utf8;

use crate::bencode::encoded;
use crate::error::BitTorrentError;
use crate::info::{info_benc, MetaInfo, MetaInfoView};
use crate::text::bytes_to_vec;
use crate::util::sha1;

verus! {

#[derive(Debug)]
pub struct HandshakeMessage {
    pub info_hash: Vec<u8>,
    pub peer_id: Vec<u8>,
}

/// What a `HandshakeMessage` says.
pub struct PlainHandshake {
    pub info_hash: Seq<u8>,
    pub peer_id: Seq<u8>,
}

impl View for HandshakeMessage {
    type V = PlainHandshake;

    open spec fn view(&self) -> PlainHandshake {
        PlainHandshake { info_hash: self.info_hash@, peer_id: self.peer_id@ }
    }
}

/// A handshake in bytes.
pub open spec fn plain_handshake_bytes(handshake: PlainHandshake) -> Seq<u8> {
    seq![19u8] + encode_utf8("BitTorrent protocol"@) + Seq::new(8, |i: int| 0u8)
        + handshake.info_hash + handshake.peer_id
}

/// The handshake in sixty-eight bytes.
pub open spec fn plain_handshake_of(bytes: Seq<u8>) -> PlainHandshake {
    PlainHandshake { info_hash: bytes.subrange(28, 48), peer_id: bytes.subrange(48, 68) }
}

/// The handshake for a torrent and a peer id.
pub open spec fn plain_handshake_for(meta_info: MetaInfoView, peer_id: Seq<char>) -> PlainHandshake {
    PlainHandshake {
        info_hash: sha1(encoded(info_benc(meta_info.info))),
        peer_id: encode_utf8(peer_id),
    }
}

impl HandshakeMessage {
    pub fn new(meta_info: &MetaInfo, peer_id: &str) -> (result: Result<
        HandshakeMessage,
        BitTorrentError,
    >)
        ensures
            result is Ok,
            result->Ok_0@ == plain_handshake_for(meta_info@, peer_id@),
    {
        match meta_info.info_hash() {
            Ok(info_hash) => Ok(
                HandshakeMessage {
                    info_hash: bytes_to_vec(info_hash.as_slice()),
                    peer_id: bytes_to_vec(peer_id.as_bytes()),
                },
            ),
            Err(error) => Err(error),
        }
    }

    pub fn decode(bytes: &[u8]) -> (result: Result<HandshakeMessage, BitTorrentError>)
        requires
            bytes@.len() >= 68,
        ensures
            result is Ok,
            result->Ok_0@ == plain_handshake_of(bytes@),
    {
        Ok(
            HandshakeMessage {
                info_hash: bytes_to_vec(slice_subrange(bytes, 28, 48)),
                peer_id: bytes_to_vec(slice_subrange(bytes, 48, 68)),
            },
        )
    }

    pub fn encode(&self) -> (bytes: Vec<u8>)
        ensures
            bytes@ == plain_handshake_bytes(self@),
    {
        let mut out: Vec<u8> = vec![19];
        out.extend_from_slice("BitTorrent protocol".as_bytes());
        let reserved = [0u8, 0u8, 0u8, 0u8, 0u8, 0u8, 0u8, 0u8];
        assert(reserved@ =~= Seq::new(8, |i: int| 0u8));
        out.extend_from_slice(reserved.as_slice());
        out.extend_from_slice(self.info_hash.as_slice());
        out.extend_from_slice(self.peer_id.as_slice());
        assert(out@ =~= plain_handshake_bytes(self@));
        out
    }
}

/// A handshake with a hash and a peer id of twenty bytes reads back from its bytes.
pub proof fn plain_handshake_reads_back(handshake: PlainHandshake)
    requires
        handshake.info_hash.len() == 20,
        handshake.peer_id.len() == 20,
    ensures
        plain_handshake_bytes(handshake).len() == 68,
        plain_handshake_of(plain_handshake_bytes(handshake)) == handshake,
{
    reveal_strlit("BitTorrent protocol");
    let text = "BitTorrent protocol"@;
    crate::text::lemma_ascii(text);
    vstd::utf8::is_ascii_chars_encode_utf8(text);
    let bytes = plain_handshake_bytes(handshake);
    assert(bytes.subrange(28, 48) =~= handshake.info_hash);
    assert(bytes.subrange(48, 68) =~= handshake.peer_id);
}

} // verus!
