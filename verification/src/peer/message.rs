//! Messages of the peer protocol.

use vstd::prelude::*;
use vstd::slice::slice_subrange;

use crate::be::{be_bytes, be_value, lemma_be_limits, read_be_u16, read_be_u32, write_be};
use crate::bencode::encode::{joined, written};
use crate::error::{bterror, bterror_with, outcome, BitTorrentError};
use crate::json::{object_view, Json, Object, Value};
use crate::text::{array_of_20, bytes_to_vec, decimal_nat, decimal_string_u64};
use crate::torrent_source::{source_hash, SourceView, TorrentSource};
use crate::util::{bits_of, byte_of, decode_bitfield_be, encode_bitfield_be};

pub mod extension;
pub mod laws;
pub mod layout;

pub use crate::peer::message::extension::{
    ExtensionHandshake, ExtensionMessage, ExtensionMessageCodec, ExtensionMetadata,
};
use crate::peer::message::extension::{extension_bytes, extension_of, name_codes, ExtensionView};

verus! {

/// What can be written as bytes and read from them.
pub trait Codec: Sized {
    type Error;

    /// Whether bytes are of a form that can be read at all.
    spec fn decodable(bytes: Seq<u8>) -> bool;

    fn encode(&self) -> (result: Result<Vec<u8>, Self::Error>);

    fn decode(bytes: &[u8]) -> (result: Result<Self, Self::Error>)
        requires
            Self::decodable(bytes@),
    ;
}

#[derive(Debug)]
pub enum PeerMessage {
    // base protocol messages
    Handshake(HandshakeMessage),
    Keepalive,
    Choke,
    Unchoke,
    Interested,
    NotInterested,
    Have(u32),
    Bitfield(Vec<bool>),
    Request(RequestMessage),
    Piece(PieceMessage),
    Cancel(RequestMessage),
    // extension messages
    Port(u16),
    HaveAll,
    HaveNone,
    RejectRequest(RequestMessage),
    AllowFast(u32),
    Extension(ExtensionMessage),
}

#[derive(Debug, Clone, Copy, PartialEq, Eq, Structural)]
pub struct RequestMessage {
    pub index: u32,
    pub begin: u32,
    pub length: u32,
}

#[derive(Debug)]
pub struct PieceMessage {
    pub index: u32,
    pub begin: u32,
    pub block: Vec<u8>,
}

#[derive(Debug)]
pub struct HandshakeMessage {
    pub info_hash: [u8; 20],
    pub peer_id: Vec<u8>,
}

/// What a `PieceMessage` says.
pub struct PieceView {
    pub index: u32,
    pub begin: u32,
    pub block: Seq<u8>,
}

/// What a `HandshakeMessage` says.
pub struct HandshakeView {
    pub info_hash: Seq<u8>,
    pub peer_id: Seq<u8>,
}

/// What a `PeerMessage` says.
pub enum MessageView {
    Handshake(HandshakeView),
    Keepalive,
    Choke,
    Unchoke,
    Interested,
    NotInterested,
    Have(u32),
    Bitfield(Seq<bool>),
    Request(RequestMessage),
    Piece(PieceView),
    Cancel(RequestMessage),
    Port(u16),
    HaveAll,
    HaveNone,
    RejectRequest(RequestMessage),
    AllowFast(u32),
    Extension(ExtensionView),
}

impl View for RequestMessage {
    type V = RequestMessage;

    open spec fn view(&self) -> RequestMessage {
        *self
    }
}

impl View for PieceMessage {
    type V = PieceView;

    open spec fn view(&self) -> PieceView {
        PieceView { index: self.index, begin: self.begin, block: self.block@ }
    }
}

impl View for HandshakeMessage {
    type V = HandshakeView;

    open spec fn view(&self) -> HandshakeView {
        HandshakeView { info_hash: self.info_hash@, peer_id: self.peer_id@ }
    }
}

impl View for PeerMessage {
    type V = MessageView;

    open spec fn view(&self) -> MessageView {
        match self {
            PeerMessage::Handshake(handshake) => MessageView::Handshake(handshake@),
            PeerMessage::Keepalive => MessageView::Keepalive,
            PeerMessage::Choke => MessageView::Choke,
            PeerMessage::Unchoke => MessageView::Unchoke,
            PeerMessage::Interested => MessageView::Interested,
            PeerMessage::NotInterested => MessageView::NotInterested,
            PeerMessage::Have(index) => MessageView::Have(*index),
            PeerMessage::Bitfield(bits) => MessageView::Bitfield(bits@),
            PeerMessage::Request(request) => MessageView::Request(*request),
            PeerMessage::Piece(piece) => MessageView::Piece(piece@),
            PeerMessage::Cancel(request) => MessageView::Cancel(*request),
            PeerMessage::Port(port) => MessageView::Port(*port),
            PeerMessage::HaveAll => MessageView::HaveAll,
            PeerMessage::HaveNone => MessageView::HaveNone,
            PeerMessage::RejectRequest(request) => MessageView::RejectRequest(*request),
            PeerMessage::AllowFast(index) => MessageView::AllowFast(*index),
            PeerMessage::Extension(message) => MessageView::Extension(message@),
        }
    }
}

/// A request in bytes.
pub open spec fn request_bytes(request: RequestMessage) -> Seq<u8> {
    be_bytes(request.index as nat, 4) + be_bytes(request.begin as nat, 4) + be_bytes(
        request.length as nat,
        4,
    )
}

/// The request that bytes hold.
pub open spec fn request_of(bytes: Seq<u8>) -> Result<RequestMessage, Seq<char>> {
    if bytes.len() < 12 {
        Err("Insufficient bytes"@)
    } else {
        Ok(
            RequestMessage {
                index: be_value(bytes.subrange(0, 4)) as u32,
                begin: be_value(bytes.subrange(4, 8)) as u32,
                length: be_value(bytes.subrange(8, 12)) as u32,
            },
        )
    }
}

/// A block of a piece in bytes.
pub open spec fn piece_bytes(piece: PieceView) -> Seq<u8> {
    be_bytes(piece.index as nat, 4) + be_bytes(piece.begin as nat, 4) + piece.block
}

/// The block of a piece that bytes hold.
pub open spec fn piece_of(bytes: Seq<u8>) -> Result<PieceView, Seq<char>> {
    if bytes.len() < 8 {
        Err("Insufficient bytes"@)
    } else {
        Ok(
            PieceView {
                index: be_value(bytes.subrange(0, 4)) as u32,
                begin: be_value(bytes.subrange(4, 8)) as u32,
                block: bytes.skip(8),
            },
        )
    }
}

impl Codec for RequestMessage {
    type Error = BitTorrentError;

    open spec fn decodable(bytes: Seq<u8>) -> bool {
        true
    }

    fn encode(&self) -> (result: Result<Vec<u8>, BitTorrentError>)
        ensures
            result is Ok,
            result->Ok_0@ == request_bytes(*self),
    {
        proof {
            lemma_be_limits();
        }
        let mut out = write_be(self.index as u128, 4);
        let mut begin = write_be(self.begin as u128, 4);
        let mut length = write_be(self.length as u128, 4);
        out.append(&mut begin);
        out.append(&mut length);
        Ok(out)
    }

    fn decode(bytes: &[u8]) -> (result: Result<Self, BitTorrentError>)
        ensures
            outcome(result) == request_of(bytes@),
    {
        if bytes.len() < 12 {
            return Err(bterror("Insufficient bytes"));
        }
        Ok(
            RequestMessage {
                index: read_be_u32(slice_subrange(bytes, 0, 4)),
                begin: read_be_u32(slice_subrange(bytes, 4, 8)),
                length: read_be_u32(slice_subrange(bytes, 8, 12)),
            },
        )
    }
}

impl Codec for PieceMessage {
    type Error = BitTorrentError;

    open spec fn decodable(bytes: Seq<u8>) -> bool {
        true
    }

    fn encode(&self) -> (result: Result<Vec<u8>, BitTorrentError>)
        ensures
            result is Ok,
            result->Ok_0@ == piece_bytes(self@),
    {
        proof {
            lemma_be_limits();
        }
        let mut out = write_be(self.index as u128, 4);
        let mut begin = write_be(self.begin as u128, 4);
        out.append(&mut begin);
        out.extend_from_slice(self.block.as_slice());
        Ok(out)
    }

    fn decode(bytes: &[u8]) -> (result: Result<Self, BitTorrentError>)
        ensures
            outcome(result) == piece_of(bytes@),
    {
        if bytes.len() < 8 {
            return Err(bterror("Insufficient bytes"));
        }
        let block = slice_subrange(bytes, 8, bytes.len());
        assert(block@ =~= bytes@.skip(8));
        Ok(
            PieceMessage {
                index: read_be_u32(slice_subrange(bytes, 0, 4)),
                begin: read_be_u32(slice_subrange(bytes, 4, 8)),
                block: bytes_to_vec(block),
            },
        )
    }
}

/// The bytes of a handshake before the info hash: the name of the protocol after its
/// length, and eight bytes that say which extensions are supported.
pub open spec fn handshake_prefix() -> Seq<u8> {
    seq![19u8] + vstd::utf8::encode_utf8("BitTorrent protocol"@) + seq![
        0u8, 0u8, 0u8, 0u8, 0u8, 0x18u8, 0u8, 0x05u8,
    ]
}

/// A handshake in bytes.
pub open spec fn handshake_bytes(handshake: HandshakeView) -> Seq<u8> {
    handshake_prefix() + handshake.info_hash + handshake.peer_id
}

/// The handshake in sixty-eight bytes.
pub open spec fn handshake_in(bytes: Seq<u8>) -> HandshakeView {
    HandshakeView { info_hash: bytes.subrange(28, 48), peer_id: bytes.subrange(48, 68) }
}

/// The handshake for a torrent and a peer id.
pub open spec fn handshake_for(source: SourceView, peer_id: Seq<char>) -> HandshakeView {
    HandshakeView {
        info_hash: source_hash(source),
        peer_id: vstd::utf8::encode_utf8(peer_id),
    }
}

impl HandshakeMessage {
    /// Create a new HandshakeMessage.
    pub fn new(torrent_source: &TorrentSource, peer_id: &str) -> (result: Result<
        HandshakeMessage,
        BitTorrentError,
    >)
        ensures
            result is Ok,
            result->Ok_0@ == handshake_for(torrent_source@, peer_id@),
    {
        match torrent_source.hash() {
            Ok(info_hash) => Ok(
                HandshakeMessage { info_hash, peer_id: bytes_to_vec(peer_id.as_bytes()) },
            ),
            Err(error) => Err(error),
        }
    }

    /// Decode a handshake message from a byte array.
    pub fn decode(bytes: &[u8]) -> (result: Result<HandshakeMessage, BitTorrentError>)
        requires
            bytes@.len() >= 68,
        ensures
            result is Ok,
            result->Ok_0@ == handshake_in(bytes@),
    {
        match array_of_20(slice_subrange(bytes, 28, 48)) {
            Ok(info_hash) => Ok(
                HandshakeMessage {
                    info_hash,
                    peer_id: bytes_to_vec(slice_subrange(bytes, 48, 68)),
                },
            ),
            Err(complaint) => Err(BitTorrentError::new(complaint)),
        }
    }

    /// Encode a handshake message into a byte array.
    pub fn encode(&self) -> (bytes: Vec<u8>)
        ensures
            bytes@ == handshake_bytes(self@),
    {
        let mut out: Vec<u8> = vec![19];
        out.extend_from_slice("BitTorrent protocol".as_bytes());
        out.push(0);
        out.push(0);
        out.push(0);
        out.push(0);
        out.push(0);
        out.push(0x18);
        out.push(0);
        out.push(0x05);
        assert(out@ =~= handshake_prefix());
        out.extend_from_slice(self.info_hash.as_slice());
        out.extend_from_slice(self.peer_id.as_slice());
        out
    }
}

/// Bits as bytes, the first bit of each the most significant.
pub open spec fn bitfield_bytes(bits: Seq<bool>) -> Seq<u8> {
    Seq::new(bits.len() / 8, |i: int| byte_of(bits.subrange(8 * i, 8 * i + 8)) as u8)
}

/// The bits of bytes.
pub open spec fn bitfield_of(bytes: Seq<u8>) -> Seq<bool> {
    Seq::new(8 * bytes.len(), |i: int| bits_of(bytes[i / 8])[i % 8])
}

/// Bits as bytes.
fn write_bitfield(bits: &Vec<bool>) -> (bytes: Vec<u8>)
    requires
        bits@.len() % 8 == 0,
    ensures
        bytes@ == bitfield_bytes(bits@),
{
    let mut out: Vec<u8> = Vec::new();
    let n: usize = bits.len();
    let mut at: usize = 0;
    while at < n
        invariant
            at <= n,
            n == bits@.len(),
            n % 8 == 0,
            at % 8 == 0,
            out@.len() == at / 8,
            forall|i: int|
                0 <= i < at / 8 ==> #[trigger] out@[i] == byte_of(
                    bits@.subrange(8 * i, 8 * i + 8),
                ) as u8,
        decreases n - at,
    {
        let group = [
            bits[at],
            bits[at + 1],
            bits[at + 2],
            bits[at + 3],
            bits[at + 4],
            bits[at + 5],
            bits[at + 6],
            bits[at + 7],
        ];
        assert(group@ =~= bits@.subrange(at as int, at + 8));
        assert(8 * (at / 8) == at);
        out.push(encode_bitfield_be(group));
        at = at + 8;
    }
    assert(out@ =~= bitfield_bytes(bits@));
    out
}

/// The bits of bytes.
fn read_bitfield(bytes: &[u8]) -> (bits: Vec<bool>)
    ensures
        bits@ == bitfield_of(bytes@),
{
    let mut out: Vec<bool> = Vec::new();
    let mut i: usize = 0;
    while i < bytes.len()
        invariant
            0 <= i <= bytes.len(),
            out@.len() == 8 * i,
            forall|j: int| 0 <= j < 8 * i ==> #[trigger] out@[j] == bits_of(bytes@[j / 8])[j % 8],
        decreases bytes.len() - i,
    {
        let group = decode_bitfield_be(bytes[i]);
        let ghost before = out@;
        out.extend_from_slice(group.as_slice());
        i = i + 1;
        assert forall|j: int| 0 <= j < 8 * i implies #[trigger] out@[j] == bits_of(bytes@[j / 8])[j
            % 8] by {
            if j < before.len() {
                assert(out@[j] == before[j]);
            } else {
                assert(out@[j] == group@[j - before.len()]);
                assert(j / 8 == i - 1 && j % 8 == j - before.len());
            }
        }
    }
    assert(out@ =~= bitfield_of(bytes@));
    out
}

/// A message other than a handshake in bytes, without its length.
pub open spec fn message_body(names: Seq<(Seq<char>, u8)>, message: MessageView) -> Result<
    Seq<u8>,
    Seq<char>,
> {
    match message {
        MessageView::Keepalive | MessageView::Handshake(_) => Ok(seq![]),
        MessageView::Choke => Ok(seq![0u8]),
        MessageView::Unchoke => Ok(seq![1u8]),
        MessageView::Interested => Ok(seq![2u8]),
        MessageView::NotInterested => Ok(seq![3u8]),
        MessageView::Have(index) => Ok(seq![4u8] + be_bytes(index as nat, 4)),
        MessageView::Bitfield(bits) => Ok(seq![5u8] + bitfield_bytes(bits)),
        MessageView::Request(request) => Ok(seq![6u8] + request_bytes(request)),
        MessageView::Piece(piece) => Ok(seq![7u8] + piece_bytes(piece)),
        MessageView::Cancel(request) => Ok(seq![8u8] + request_bytes(request)),
        MessageView::Port(port) => Ok(seq![9u8] + be_bytes(port as nat, 2)),
        MessageView::HaveAll => Ok(seq![14u8]),
        MessageView::HaveNone => Ok(seq![15u8]),
        MessageView::RejectRequest(request) => Ok(seq![16u8] + request_bytes(request)),
        MessageView::AllowFast(index) => Ok(seq![17u8] + be_bytes(index as nat, 4)),
        MessageView::Extension(message) => joined(
            written(seq![20u8]),
            extension_bytes(names, message),
        ),
    }
}

/// Bytes after their number, modulo 2 to the 32nd.
pub open spec fn with_length(body: Seq<u8>) -> Seq<u8> {
    be_bytes((body.len() % 0x1_0000_0000) as nat, 4) + body
}

/// A message in bytes.
pub open spec fn message_bytes(names: Seq<(Seq<char>, u8)>, message: MessageView) -> Result<
    Seq<u8>,
    Seq<char>,
> {
    match message {
        MessageView::Handshake(handshake) => Ok(handshake_bytes(handshake)),
        _ => match message_body(names, message) {
            Ok(body) => Ok(with_length(body)),
            Err(complaint) => Err(complaint),
        },
    }
}

/// Whether a message is long enough for the number that its first byte announces.
pub open spec fn complete(bytes: Seq<u8>) -> bool {
    bytes.len() > 0 ==> {
        &&& bytes[0] == 4 || bytes[0] == 17 ==> bytes.len() >= 5
        &&& bytes[0] == 9 ==> bytes.len() >= 3
    }
}

/// Whether a message is long enough for the number that its first byte announces.
pub fn is_complete(bytes: &[u8]) -> (whole: bool)
    ensures
        whole == complete(bytes@),
{
    if bytes.len() == 0 {
        true
    } else {
        match bytes[0] {
            4 | 17 => bytes.len() >= 5,
            9 => bytes.len() >= 3,
            _ => true,
        }
    }
}

/// Whether a message can be written: a bitfield has to have whole bytes.
pub fn can_encode(message: &PeerMessage) -> (can: bool)
    ensures
        can == (message@ matches MessageView::Bitfield(bits) ==> bits.len() % 8 == 0),
{
    match message {
        PeerMessage::Bitfield(bits) => bits.len() % 8 == 0,
        _ => true,
    }
}

/// The message that bytes hold, without their number.
pub open spec fn message_of(names: Seq<(Seq<char>, u8)>, bytes: Seq<u8>) -> Result<
    MessageView,
    Seq<char>,
> {
    if bytes.len() == 0 {
        Ok(MessageView::Keepalive)
    } else if bytes[0] == 0 {
        Ok(MessageView::Choke)
    } else if bytes[0] == 1 {
        Ok(MessageView::Unchoke)
    } else if bytes[0] == 2 {
        Ok(MessageView::Interested)
    } else if bytes[0] == 3 {
        Ok(MessageView::NotInterested)
    } else if bytes[0] == 4 {
        Ok(MessageView::Have(be_value(bytes.subrange(1, 5)) as u32))
    } else if bytes[0] == 5 {
        Ok(MessageView::Bitfield(bitfield_of(bytes.skip(1))))
    } else if bytes[0] == 6 {
        match request_of(bytes.skip(1)) {
            Ok(request) => Ok(MessageView::Request(request)),
            Err(complaint) => Err(complaint),
        }
    } else if bytes[0] == 7 {
        match piece_of(bytes.skip(1)) {
            Ok(piece) => Ok(MessageView::Piece(piece)),
            Err(complaint) => Err(complaint),
        }
    } else if bytes[0] == 8 {
        match request_of(bytes.skip(1)) {
            Ok(request) => Ok(MessageView::Cancel(request)),
            Err(complaint) => Err(complaint),
        }
    } else if bytes[0] == 9 {
        Ok(MessageView::Port(be_value(bytes.subrange(1, 3)) as u16))
    } else if bytes[0] == 14 {
        Ok(MessageView::HaveAll)
    } else if bytes[0] == 15 {
        Ok(MessageView::HaveNone)
    } else if bytes[0] == 16 {
        match request_of(bytes.skip(1)) {
            Ok(request) => Ok(MessageView::RejectRequest(request)),
            Err(complaint) => Err(complaint),
        }
    } else if bytes[0] == 17 {
        Ok(MessageView::AllowFast(be_value(bytes.subrange(1, 5)) as u32))
    } else if bytes[0] == 20 {
        match extension_of(names, bytes.skip(1)) {
            Ok(message) => Ok(MessageView::Extension(message)),
            Err(complaint) => Err(complaint),
        }
    } else {
        Err("Invalid peer message: "@ + decimal_nat(bytes[0] as nat))
    }
}

/// Writes and reads the messages of the peer protocol.
#[derive(Debug)]
pub struct PeerMessageCodec {
    extension_codec: ExtensionMessageCodec,
}

impl View for PeerMessageCodec {
    type V = Seq<(Seq<char>, u8)>;

    /// The names of extensions with their codes.
    closed spec fn view(&self) -> Seq<(Seq<char>, u8)> {
        self.extension_codec@
    }
}

impl Clone for PeerMessageCodec {
    fn clone(&self) -> (copy: Self)
        ensures
            copy@ == self@,
    {
        PeerMessageCodec { extension_codec: self.extension_codec.clone() }
    }
}

impl Default for PeerMessageCodec {
    /// A codec that knows no extension but the handshake.
    fn default() -> (codec: Self)
        ensures
            codec@ == seq![("handshake"@, 0u8)],
    {
        PeerMessageCodec { extension_codec: ExtensionMessageCodec::default() }
    }
}

/// The codes that an extension handshake gives to names, in the order of the names.
pub open spec fn handshake_codes(pairs: Seq<(Seq<u8>, Json)>) -> Result<
    Seq<(Seq<char>, u8)>,
    Seq<char>,
>
    decreases pairs.len(),
{
    if pairs.len() == 0 {
        Ok(seq![])
    } else {
        match handshake_codes(pairs.drop_last()) {
            Err(complaint) => Err(complaint),
            Ok(codes) => match pairs.last().1 {
                Json::Number(n) if 0 <= n <= u64::MAX => Ok(
                    codes.push((vstd::utf8::decode_utf8(pairs.last().0), (n % 256) as u8)),
                ),
                _ => Err("Invalid extension handshake format"@),
            },
        }
    }
}

proof fn lemma_codes_error_stays(pairs: Seq<(Seq<u8>, Json)>, n: int, m: int)
    requires
        0 <= n <= m <= pairs.len(),
        handshake_codes(pairs.take(n)) is Err,
    ensures
        handshake_codes(pairs.take(m)) == handshake_codes(pairs.take(n)),
    decreases m,
{
    if n < m {
        lemma_codes_error_stays(pairs, n, m - 1);
        assert(pairs.take(m).drop_last() =~= pairs.take(m - 1));
    }
}

/// The codes that an object gives to names.
fn read_codes(object: &Object) -> (result: Result<Vec<(String, u8)>, BitTorrentError>)
    ensures
        match result {
            Ok(map) => handshake_codes(object_view(*object)) == Ok::<
                Seq<(Seq<char>, u8)>,
                Seq<char>,
            >(name_codes(map@)),
            Err(error) => handshake_codes(object_view(*object)) == Err::<
                Seq<(Seq<char>, u8)>,
                Seq<char>,
            >(error@),
        },
{
    let mut map: Vec<(String, u8)> = Vec::new();
    let ghost pairs = object_view(*object);
    let mut i: usize = 0;
    proof {
        crate::json::lemma_object_entries(*object);
        assert(name_codes(map@) =~= seq![]);
        assert(pairs.take(0) =~= seq![]);
    }
    while i < object.entries.len()
        invariant
            0 <= i <= object.entries.len(),
            pairs == object_view(*object),
            pairs.len() == object.entries@.len(),
            handshake_codes(pairs.take(i as int)) == Ok::<Seq<(Seq<char>, u8)>, Seq<char>>(
                name_codes(map@),
            ),
        decreases object.entries.len() - i,
    {
        let entry = &object.entries[i];
        proof {
            crate::json::lemma_object_entries(*object);
            vstd::utf8::encode_utf8_decode_utf8(entry.0@);
            assert(pairs.take(i + 1).drop_last() =~= pairs.take(i as int));
            assert(pairs.take(i + 1).last() == pairs[i as int]);
        }
        let code: Option<u64> = match &entry.1 {
            Value::Number(n) => n.as_u64(),
            _ => None,
        };
        match code {
            Some(code) => {
                let ghost before = map@;
                map.push((entry.0.clone(), (code % 256) as u8));
                assert(name_codes(map@) =~= name_codes(before).push(
                    (entry.0@, (code % 256) as u8),
                ));
            },
            None => {
                proof {
                    lemma_codes_error_stays(pairs, i + 1, pairs.len() as int);
                    assert(pairs.take(pairs.len() as int) =~= pairs);
                }
                return Err(bterror("Invalid extension handshake format"));
            },
        }
        i = i + 1;
    }
    assert(pairs.take(i as int) =~= pairs);
    Ok(map)
}

impl PeerMessageCodec {
    pub fn new(extensions_map: Vec<(String, u8)>) -> (codec: Self)
        ensures
            codec@ == seq![("handshake"@, 0u8)] + name_codes(extensions_map@),
    {
        PeerMessageCodec { extension_codec: ExtensionMessageCodec::new(extensions_map) }
    }

    /// A codec with the codes that an extension handshake gives.
    pub fn from_handshake(handshake: &ExtensionHandshake) -> (result: Result<
        Self,
        BitTorrentError,
    >)
        ensures
            outcome(result) == match handshake_codes(
                match handshake@.messages {
                    Some(pairs) => pairs,
                    None => seq![],
                },
            ) {
                Ok(codes) => Ok(seq![("handshake"@, 0u8)] + codes),
                Err(complaint) => Err(complaint),
            },
    {
        match &handshake.messages {
            Some(object) => match read_codes(object) {
                Ok(map) => Ok(PeerMessageCodec::new(map)),
                Err(error) => Err(error),
            },
            None => {
                let map: Vec<(String, u8)> = Vec::new();
                assert(name_codes(map@) =~= seq![]);
                Ok(PeerMessageCodec::new(map))
            },
        }
    }

    /// Decode a peer message from a byte array.
    pub fn decode(&self, bytes: &[u8]) -> (result: Result<PeerMessage, BitTorrentError>)
        requires
            complete(bytes@),
        ensures
            outcome(result) == message_of(self@, bytes@),
    {
        if bytes.len() == 0 {
            return Ok(PeerMessage::Keepalive);
        }
        let rest = slice_subrange(bytes, 1, bytes.len());
        assert(rest@ =~= bytes@.skip(1));
        match bytes[0] {
            0 => Ok(PeerMessage::Choke),
            1 => Ok(PeerMessage::Unchoke),
            2 => Ok(PeerMessage::Interested),
            3 => Ok(PeerMessage::NotInterested),
            4 => Ok(PeerMessage::Have(read_be_u32(slice_subrange(bytes, 1, 5)))),
            5 => Ok(PeerMessage::Bitfield(read_bitfield(rest))),
            6 => match RequestMessage::decode(rest) {
                Ok(request) => Ok(PeerMessage::Request(request)),
                Err(error) => Err(error),
            },
            7 => match PieceMessage::decode(rest) {
                Ok(piece) => Ok(PeerMessage::Piece(piece)),
                Err(error) => Err(error),
            },
            8 => match RequestMessage::decode(rest) {
                Ok(request) => Ok(PeerMessage::Cancel(request)),
                Err(error) => Err(error),
            },
            9 => Ok(PeerMessage::Port(read_be_u16(slice_subrange(bytes, 1, 3)))),
            14 => Ok(PeerMessage::HaveAll),
            15 => Ok(PeerMessage::HaveNone),
            16 => match RequestMessage::decode(rest) {
                Ok(request) => Ok(PeerMessage::RejectRequest(request)),
                Err(error) => Err(error),
            },
            17 => Ok(PeerMessage::AllowFast(read_be_u32(slice_subrange(bytes, 1, 5)))),
            20 => match self.extension_codec.decode(rest) {
                Ok(message) => Ok(PeerMessage::Extension(message)),
                Err(error) => Err(error),
            },
            byte => Err(
                bterror_with(
                    "Invalid peer message: ",
                    decimal_string_u64(byte as u64).as_str(),
                ),
            ),
        }
    }

    /// A message other than a handshake, without its length.
    fn encode_body(&self, message: &PeerMessage) -> (result: Result<Vec<u8>, BitTorrentError>)
        requires
            message matches PeerMessage::Bitfield(bits) ==> bits@.len() % 8 == 0,
        ensures
            outcome(result) == message_body(self@, message@),
    {
        proof {
            lemma_be_limits();
        }
        let mut code: u8 = 0;
        let mut rest: Vec<u8> = Vec::new();
        match message {
            PeerMessage::Keepalive | PeerMessage::Handshake(_) => {
                assert(rest@ =~= seq![]);
                return Ok(rest);
            },
            PeerMessage::Choke => {},
            PeerMessage::Unchoke => {
                code = 1;
            },
            PeerMessage::Interested => {
                code = 2;
            },
            PeerMessage::NotInterested => {
                code = 3;
            },
            PeerMessage::Have(index) => {
                code = 4;
                rest = write_be(*index as u128, 4);
            },
            PeerMessage::Bitfield(bits) => {
                code = 5;
                rest = write_bitfield(bits);
            },
            PeerMessage::Request(request) => {
                code = 6;
                match request.encode() {
                    Ok(bytes) => {
                        rest = bytes;
                    },
                    Err(error) => return Err(error),
                }
            },
            PeerMessage::Piece(piece) => {
                code = 7;
                match piece.encode() {
                    Ok(bytes) => {
                        rest = bytes;
                    },
                    Err(error) => return Err(error),
                }
            },
            PeerMessage::Cancel(request) => {
                code = 8;
                match request.encode() {
                    Ok(bytes) => {
                        rest = bytes;
                    },
                    Err(error) => return Err(error),
                }
            },
            PeerMessage::Port(port) => {
                code = 9;
                rest = write_be(*port as u128, 2);
            },
            PeerMessage::HaveAll => {
                code = 14;
            },
            PeerMessage::HaveNone => {
                code = 15;
            },
            PeerMessage::RejectRequest(request) => {
                code = 16;
                match request.encode() {
                    Ok(bytes) => {
                        rest = bytes;
                    },
                    Err(error) => return Err(error),
                }
            },
            PeerMessage::AllowFast(index) => {
                code = 17;
                rest = write_be(*index as u128, 4);
            },
            PeerMessage::Extension(message) => {
                code = 20;
                match self.extension_codec.encode(message) {
                    Ok(bytes) => {
                        rest = bytes;
                    },
                    Err(error) => return Err(error),
                }
            },
        }
        let mut out: Vec<u8> = vec![code];
        let ghost tail = rest@;
        out.append(&mut rest);
        assert(out@ =~= seq![code] + tail);
        assert(tail.len() == 0 ==> out@ =~= seq![code]);
        Ok(out)
    }

    /// Encode a peer message into a byte array.
    pub fn encode(&self, message: &PeerMessage) -> (result: Result<Vec<u8>, BitTorrentError>)
        requires
            message matches PeerMessage::Bitfield(bits) ==> bits@.len() % 8 == 0,
        ensures
            outcome(result) == message_bytes(self@, message@),
    {
        match message {
            PeerMessage::Handshake(handshake) => {
                return Ok(handshake.encode());
            },
            _ => {},
        }
        let mut body = match self.encode_body(message) {
            Ok(body) => body,
            Err(error) => return Err(error),
        };
        proof {
            lemma_be_limits();
        }
        let mut out = write_be(body.len() as u128 % 0x1_0000_0000, 4);
        out.append(&mut body);
        Ok(out)
    }
}

} // verus!
