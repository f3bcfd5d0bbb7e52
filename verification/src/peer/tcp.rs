//! What is said over a TCP connection to a peer: how messages are framed, how a
//! connection is opened, and how a piece is downloaded.

use vstd::prelude::*;
use vstd::utf8::encode_utf8;

use crate::be::{be_value, read_be_u32};
use crate::bencode::{ingested, BencodedValue};
use crate::bytes::Bytes;
use crate::bencode::encode::{bencoded, bytes_of_text};
use crate::decode::{marked_string, marked_text};
use crate::error::{bterror, BitTorrentError};
use crate::info::{info_of, Info, MetaInfo, MetaInfoView};
use crate::json::{object_view, set_member, Json, Number, Object, Value};
use crate::keymap::{with_entry, KeyMap};
use crate::net::IpAddr;
use crate::peer::message::extension::{
    extension_json, name_codes, ExtensionHandshakeView, ExtensionView,
};
use crate::peer::message::{
    handshake_codes, handshake_in, ExtensionHandshake, ExtensionMessage, ExtensionMetadata,
    HandshakeMessage, MessageView, PeerMessage, PeerMessageCodec,
};
use crate::text::{bytes_to_vec, same_bytes};
use crate::torrent_source::{SourceView, TorrentSource};

pub mod chunks;
pub mod laws;
pub mod metadata;
pub mod piece;

verus! {

/// connection timeout when attempting to connect to a peer's tcp socket (milliseconds)
pub const TCP_CONNECTION_TIMEOUT: u64 = 1_000;

/// timeout while waiting for a peer message to arrive, or while attempting to write to
/// a peer's buffer (milliseconds)
pub const TCP_READWRITE_TIMEOUT: u64 = 60_000;

/// Supported extension message codes.
pub open spec fn supported_codes() -> Seq<(Seq<char>, u8)> {
    seq![("ut_metadata"@, 2u8)]
}

/// Supported extension message codes.
pub fn codec_extension_config() -> (map: Vec<(String, u8)>)
    ensures
        name_codes(map@) == supported_codes(),
{
    let map = vec![("ut_metadata".to_string(), 2u8)];
    assert(name_codes(map@) =~= supported_codes());
    map
}

/// The supported extensions as an extension handshake names them.
pub open spec fn handshake_config() -> Seq<(Seq<u8>, Json)> {
    with_entry(seq![], encode_utf8("ut_metadata"@), Json::Number(2))
}

/// The supported extensions as an extension handshake names them.
pub fn handshake_extension_config() -> (object: Object)
    ensures
        object_view(object) == handshake_config(),
{
    let mut object: Object = KeyMap::new();
    proof {
        crate::json::lemma_object_view(object);
        assert(object_view(object) =~= seq![]);
    }
    set_member(&mut object, "ut_metadata".to_string(), Value::Number(Number::from_u64(2)));
    object
}

/// The first four bytes of a handshake.
pub open spec fn handshake_head() -> Seq<u8> {
    seq![0x13u8, 'B' as u8, 'i' as u8, 't' as u8]
}

/// What the first four bytes of a message announce: how many bytes follow, or nothing
/// for a handshake, which has a fixed length.
pub open spec fn announced_length(head: Seq<u8>) -> Option<nat> {
    if head == handshake_head() {
        None
    } else {
        Some(be_value(head))
    }
}

/// What the first four bytes of a message announce: how many bytes follow, or nothing
/// for a handshake.
pub fn body_length(head: &[u8]) -> (length: Option<u32>)
    requires
        head@.len() == 4,
    ensures
        match length {
            Some(length) => announced_length(head@) == Some(length as nat),
            None => announced_length(head@) is None,
        },
{
    let opening = [0x13u8, 'B' as u8, 'i' as u8, 't' as u8];
    assert(opening@ =~= handshake_head());
    if same_bytes(head, opening.as_slice()) {
        None
    } else {
        Some(read_be_u32(head))
    }
}

/// How many bytes of a handshake follow the first four.
pub const HANDSHAKE_REST: usize = 64;

/// The handshake made of its first four bytes and the rest.
pub fn handshake_message(head: &[u8], rest: &[u8]) -> (result: Result<PeerMessage, BitTorrentError>)
    requires
        head@.len() == 4,
        rest@.len() == HANDSHAKE_REST,
    ensures
        result is Ok,
        result->Ok_0@ == MessageView::Handshake(handshake_in(head@ + rest@)),
{
    let mut bytes = bytes_to_vec(head);
    bytes.extend_from_slice(rest);
    assert(bytes@ =~= head@ + rest@);
    match HandshakeMessage::decode(bytes.as_slice()) {
        Ok(handshake) => Ok(PeerMessage::Handshake(handshake)),
        Err(error) => Err(error),
    }
}

/// Where a peer's pieces are known from.
#[derive(Debug)]
pub enum BitfieldSource {
    Bits(Vec<bool>),
    All,
}

/// What a `BitfieldSource` says.
pub enum BitsView {
    Bits(Seq<bool>),
    All,
}

impl View for BitfieldSource {
    type V = BitsView;

    open spec fn view(&self) -> BitsView {
        match self {
            BitfieldSource::Bits(bits) => BitsView::Bits(bits@),
            BitfieldSource::All => BitsView::All,
        }
    }
}

/// Which of some number of pieces a peer has.
pub open spec fn first_bits(source: BitsView, n: nat) -> Seq<bool> {
    match source {
        BitsView::Bits(bits) => if bits.len() <= n {
            bits
        } else {
            bits.take(n as int)
        },
        BitsView::All => Seq::new(n, |i: int| true),
    }
}

impl BitfieldSource {
    /// Which of the first `n` pieces the peer has.
    pub fn take(&self, n: usize) -> (bits: Vec<bool>)
        ensures
            bits@ == first_bits(self@, n as nat),
    {
        let mut out: Vec<bool> = Vec::new();
        let mut i: usize = 0;
        match self {
            BitfieldSource::Bits(bits) => {
                while i < n && i < bits.len()
                    invariant
                        0 <= i <= bits.len(),
                        i <= n,
                        out@ == bits@.take(i as int),
                    decreases n - i,
                {
                    out.push(bits[i]);
                    i = i + 1;
                }
                assert(bits@.len() <= n ==> bits@.take(i as int) =~= bits@);
            },
            BitfieldSource::All => {
                while i < n
                    invariant
                        i <= n,
                        out@ == Seq::new(i as nat, |j: int| true),
                    decreases n - i,
                {
                    out.push(true);
                    i = i + 1;
                    assert(out@ =~= Seq::new(i as nat, |j: int| true));
                }
            },
        }
        out
    }
}

/// How far the opening of a connection has come.
#[derive(Debug)]
pub struct Opening {
    /// the metainfo, if it was known beforehand
    pub meta_info: Option<MetaInfo>,
    pub bitfield_source: Option<BitfieldSource>,
    /// the parts of the info dictionary that the peer has sent
    pub meta_info_pieces: Vec<Vec<u8>>,
    pub meta_info_acquired: bool,
    pub received_extension_handshake: bool,
    pub sent_initial_metadata_request: bool,
    pub choked: bool,
    pub decoder: PeerMessageCodec,
    /// the address of the peer
    pub ip: IpAddr,
}

/// What an `Opening` says.
pub struct OpeningView {
    pub meta_info: Option<MetaInfoView>,
    pub bitfield_source: Option<BitsView>,
    pub meta_info_pieces: Seq<Seq<u8>>,
    pub meta_info_acquired: bool,
    pub received_extension_handshake: bool,
    pub sent_initial_metadata_request: bool,
    pub choked: bool,
    pub decoder: Seq<(Seq<char>, u8)>,
    pub ip: IpAddr,
}

/// Parts as sequences of bytes.
pub open spec fn parts(list: Seq<Vec<u8>>) -> Seq<Seq<u8>> {
    list.map_values(|part: Vec<u8>| part@)
}

impl View for Opening {
    type V = OpeningView;

    open spec fn view(&self) -> OpeningView {
        OpeningView {
            meta_info: match self.meta_info {
                Some(meta_info) => Some(meta_info@),
                None => None,
            },
            bitfield_source: match self.bitfield_source {
                Some(source) => Some(source@),
                None => None,
            },
            meta_info_pieces: parts(self.meta_info_pieces@),
            meta_info_acquired: self.meta_info_acquired,
            received_extension_handshake: self.received_extension_handshake,
            sent_initial_metadata_request: self.sent_initial_metadata_request,
            choked: self.choked,
            decoder: self.decoder@,
            ip: self.ip,
        }
    }
}

/// How a step of an opening ends.
#[derive(Debug)]
pub enum Progress {
    /// more messages are needed
    Continue,
    /// the connection is open
    Done,
    /// the connection is given up
    Failed(BitTorrentError),
}

/// What a `Progress` says.
pub enum ProgressView {
    Continue,
    Done,
    Failed(Seq<char>),
}

impl View for Progress {
    type V = ProgressView;

    open spec fn view(&self) -> ProgressView {
        match self {
            Progress::Continue => ProgressView::Continue,
            Progress::Done => ProgressView::Done,
            Progress::Failed(error) => ProgressView::Failed(error@),
        }
    }
}

/// The extension handshake that is sent to a peer.
pub open spec fn our_handshake(ip: IpAddr) -> ExtensionHandshakeView {
    ExtensionHandshakeView {
        messages: Some(handshake_config()),
        port: None,
        version: Some("MaurdekyeBitTorrent/1.0.0"@),
        yourip: Some(marked_text(ip.octets())),
        ipv6: None,
        ipv4: None,
        reqq: Some(500),
        metadata_size: None,
    }
}

/// The extension handshake that is sent to a peer. The address in it stands for the octets
/// of the peer's address.
pub fn extension_handshake(ip: IpAddr) -> (handshake: ExtensionHandshake)
    ensures
        handshake@ == our_handshake(ip),
        bytes_of_text(handshake@.yourip->0) == Ok::<Seq<u8>, Seq<char>>(ip.octets()),
        bencoded(extension_json(ExtensionView::Handshake(handshake@))) is Ok,
{
    let octets = Bytes::from_ip_addr(ip);
    let handshake = ExtensionHandshake {
        messages: Some(handshake_extension_config()),
        port: None,
        version: Some("MaurdekyeBitTorrent/1.0.0".to_string()),
        yourip: Some(marked_string(octets.0.as_slice())),
        ipv6: None,
        ipv4: None,
        reqq: Some(Number::from_u64(500)),
        metadata_size: None,
    };
    proof {
        crate::peer::tcp::laws::our_handshake_is_written(ip);
    }
    handshake
}

/// The request for a part of the info dictionary.
pub open spec fn metadata_request(piece: int) -> MessageView {
    MessageView::Extension(
        ExtensionView::Metadata(
            ExtensionMetadata { msg_type: 0, piece: piece as usize, total_size: None },
            None,
        ),
    )
}

/// What one message from the peer changes, what is sent in return, and what it makes
/// fail.
pub open spec fn reaction(state: OpeningView, message: MessageView) -> (
    OpeningView,
    Seq<MessageView>,
    Option<Seq<char>>,
) {
    match message {
        MessageView::Handshake(_) => (
            state,
            seq![MessageView::Extension(ExtensionView::Handshake(our_handshake(state.ip)))],
            None,
        ),
        MessageView::Extension(ExtensionView::Handshake(handshake)) => match handshake_codes(
            match handshake.messages {
                Some(pairs) => pairs,
                None => seq![],
            },
        ) {
            Ok(codes) => (
                OpeningView {
                    decoder: seq![("handshake"@, 0u8)] + codes,
                    received_extension_handshake: true,
                    ..state
                },
                seq![],
                None,
            ),
            Err(complaint) => (state, seq![], Some(complaint)),
        },
        MessageView::Bitfield(bits) => (
            OpeningView { bitfield_source: Some(BitsView::Bits(bits)), ..state },
            seq![],
            None,
        ),
        MessageView::HaveAll => (
            OpeningView { bitfield_source: Some(BitsView::All), ..state },
            seq![],
            None,
        ),
        MessageView::HaveNone => (
            state,
            seq![MessageView::NotInterested],
            Some("Peer has no data"@),
        ),
        MessageView::Extension(ExtensionView::Metadata(metadata, Some(data))) => if metadata.msg_type
            == 1 && metadata.total_size is Some {
            let pieces = state.meta_info_pieces.push(data);
            if pieces.flatten().len() < metadata.total_size->0 {
                (
                    OpeningView { meta_info_pieces: pieces, ..state },
                    seq![metadata_request(pieces.len() as int)],
                    None,
                )
            } else {
                (
                    OpeningView { meta_info_pieces: pieces, meta_info_acquired: true, ..state },
                    seq![],
                    None,
                )
            }
        } else {
            (state, seq![], None)
        },
        MessageView::Choke => (OpeningView { choked: true, ..state }, seq![], None),
        MessageView::Unchoke => (OpeningView { choked: false, ..state }, seq![], None),
        _ => (state, seq![], None),
    }
}

/// Whether the info dictionary is to be asked for.
pub open spec fn asks_for_metadata(state: OpeningView) -> bool {
    state.received_extension_handshake && state.meta_info is None
        && !state.sent_initial_metadata_request
}

/// Whether all that is needed is known.
pub open spec fn is_open(state: OpeningView) -> bool {
    state.bitfield_source is Some && state.meta_info_acquired
}

/// One step of an opening: the new state, what is sent, and how it ends.
pub open spec fn opening_step(state: OpeningView, message: MessageView) -> (
    OpeningView,
    Seq<MessageView>,
    ProgressView,
) {
    let (state, sent, failure) = reaction(state, message);
    match failure {
        Some(complaint) => (state, sent, ProgressView::Failed(complaint)),
        None => {
            let asks = asks_for_metadata(state);
            let state = OpeningView {
                sent_initial_metadata_request: state.sent_initial_metadata_request || asks,
                ..state
            };
            let sent = if asks {
                sent.push(metadata_request(0))
            } else {
                sent
            };
            if is_open(state) {
                (state, sent.push(MessageView::Interested), ProgressView::Done)
            } else {
                (state, sent, ProgressView::Continue)
            }
        },
    }
}

/// What messages say.
pub open spec fn messages(list: Seq<PeerMessage>) -> Seq<MessageView> {
    list.map_values(|message: PeerMessage| message@)
}

/// Parts one after the other.
fn flatten_parts(list: &Vec<Vec<u8>>) -> (bytes: Vec<u8>)
    ensures
        bytes@ == parts(list@).flatten(),
{
    let mut out: Vec<u8> = Vec::new();
    let ghost all = parts(list@);
    let mut i: usize = 0;
    assert(all.take(0).flatten() =~= seq![]);
    while i < list.len()
        invariant
            0 <= i <= list.len(),
            all == parts(list@),
            out@ == all.take(i as int).flatten(),
        decreases list.len() - i,
    {
        out.extend_from_slice(list[i].as_slice());
        proof {
            assert(all.take(i + 1).drop_last() =~= all.take(i as int));
            all.take(i + 1).lemma_flatten_and_flatten_alt_are_equivalent();
            all.take(i as int).lemma_flatten_and_flatten_alt_are_equivalent();
        }
        i = i + 1;
    }
    assert(all.take(i as int) =~= all);
    out
}

/// A request for a part of the info dictionary.
fn request_metadata(piece: usize) -> (message: PeerMessage)
    ensures
        message@ == metadata_request(piece as int),
{
    PeerMessage::Extension(
        ExtensionMessage::Metadata(
            ExtensionMetadata { msg_type: 0, piece, total_size: None },
            None,
        ),
    )
}

/// The metainfo that a finished opening comes to.
pub open spec fn opened_meta_info(state: OpeningView) -> Result<MetaInfoView, Seq<char>> {
    match state.meta_info {
        Some(meta_info) => Ok(meta_info),
        None => match ingested(state.meta_info_pieces.flatten()).0 {
            Err(complaint) => Err(complaint),
            Ok(value) => match info_of(value) {
                Err(complaint) => Err(complaint),
                Ok(info) => Ok(MetaInfoView { announce_list: seq![], info }),
            },
        },
    }
}

/// The state before any message has arrived.
pub open spec fn opening_at_first(source: SourceView, ip: IpAddr) -> OpeningView {
    OpeningView {
        meta_info: match source {
            SourceView::File(meta_info) => Some(meta_info),
            SourceView::Magnet(_) => None,
        },
        bitfield_source: None,
        meta_info_pieces: seq![],
        meta_info_acquired: source is File,
        received_extension_handshake: false,
        sent_initial_metadata_request: false,
        choked: true,
        decoder: seq![("handshake"@, 0u8)],
        ip,
    }
}

impl Opening {
    /// The state before any message has arrived.
    pub fn new(torrent_source: &TorrentSource, ip: IpAddr) -> (opening: Self)
        ensures
            opening@ == opening_at_first(torrent_source@, ip),
    {
        let meta_info = match torrent_source {
            TorrentSource::File(meta_info) => Some(meta_info.clone()),
            TorrentSource::Magnet(_) => None,
        };
        let meta_info_acquired = meta_info.is_some();
        let meta_info_pieces: Vec<Vec<u8>> = Vec::new();
        assert(parts(meta_info_pieces@) =~= seq![]);
        Opening {
            meta_info,
            bitfield_source: None,
            meta_info_pieces,
            meta_info_acquired,
            received_extension_handshake: false,
            sent_initial_metadata_request: false,
            choked: true,
            decoder: PeerMessageCodec::default(),
            ip,
        }
    }

    /// React to one message, before anything else is looked at.
    fn react(&mut self, message: PeerMessage) -> (result: (
        Vec<PeerMessage>,
        Option<BitTorrentError>,
    ))
        ensures
            ({
                let (state, sent, failure) = reaction(old(self)@, message@);
                &&& final(self)@ == state
                &&& messages(result.0@) == sent
                &&& match result.1 {
                    Some(error) => failure == Some(error@),
                    None => failure is None,
                }
            }),
            message@ is Handshake ==> bytes_of_text(our_handshake(old(self)@.ip).yourip->0) == Ok::<
                Seq<u8>,
                Seq<char>,
            >(old(self)@.ip.octets()),
    {
        let mut sent: Vec<PeerMessage> = Vec::new();
        assert(messages(sent@) =~= seq![]);
        let mut failure: Option<BitTorrentError> = None;
        match message {
            PeerMessage::Handshake(_) => {
                let handshake = extension_handshake(self.ip);
                sent.push(PeerMessage::Extension(ExtensionMessage::Handshake(handshake)));
                assert(messages(sent@) =~= reaction(old(self)@, message@).1);
            },
            PeerMessage::Extension(ExtensionMessage::Handshake(handshake)) => {
                match PeerMessageCodec::from_handshake(&handshake) {
                    Ok(decoder) => {
                        self.decoder = decoder;
                        self.received_extension_handshake = true;
                    },
                    Err(error) => {
                        failure = Some(error);
                    },
                }
            },
            PeerMessage::Bitfield(bitfield) => {
                self.bitfield_source = Some(BitfieldSource::Bits(bitfield));
            },
            PeerMessage::HaveAll => {
                self.bitfield_source = Some(BitfieldSource::All);
            },
            PeerMessage::HaveNone => {
                sent.push(PeerMessage::NotInterested);
                assert(messages(sent@) =~= reaction(old(self)@, message@).1);
                failure = Some(bterror("Peer has no data"));
            },
            PeerMessage::Extension(ExtensionMessage::Metadata(metadata, Some(data))) => {
                match metadata.total_size {
                    Some(total_size) => {
                        if metadata.msg_type == 1 {
                            let ghost before = self.meta_info_pieces@;
                            self.meta_info_pieces.push(data);
                            assert(parts(self.meta_info_pieces@) =~= parts(before).push(data@));
                            if flatten_parts(&self.meta_info_pieces).len() < total_size {
                                // not all pieces acquired, ask for more
                                sent.push(request_metadata(self.meta_info_pieces.len()));
                                assert(messages(sent@) =~= reaction(old(self)@, message@).1);
                            } else {
                                // mark meta_info as acquired
                                self.meta_info_acquired = true;
                            }
                        }
                    },
                    None => {},
                }
            },
            PeerMessage::Choke => {
                self.choked = true;
            },
            PeerMessage::Unchoke => {
                self.choked = false;
            },
            _ => {},
        }
        (sent, failure)
    }

    /// React to a message from the peer: what is to be sent in return, in this order, and
    /// whether the connection is open then.
    pub fn receive(&mut self, message: PeerMessage) -> (step: (Vec<PeerMessage>, Progress))
        ensures
            ({
                let (state, sent, progress) = opening_step(old(self)@, message@);
                &&& final(self)@ == state
                &&& messages(step.0@) == sent
                &&& step.1@ == progress
            }),
            message@ is Handshake ==> bytes_of_text(our_handshake(old(self)@.ip).yourip->0) == Ok::<
                Seq<u8>,
                Seq<char>,
            >(old(self)@.ip.octets()),
    {
        let (mut sent, failure) = self.react(message);
        if let Some(error) = failure {
            return (sent, Progress::Failed(error));
        }
        // request meta_info
        if self.received_extension_handshake && self.meta_info.is_none()
            && !self.sent_initial_metadata_request {
            let ghost before = sent@;
            sent.push(request_metadata(0));
            assert(messages(sent@) =~= messages(before).push(metadata_request(0)));
            self.sent_initial_metadata_request = true;
        }
        // send interested & stop listening
        if self.bitfield_source.is_some() && self.meta_info_acquired {
            let ghost before = sent@;
            sent.push(PeerMessage::Interested);
            assert(messages(sent@) =~= messages(before).push(MessageView::Interested));
            return (sent, Progress::Done);
        }
        (sent, Progress::Continue)
    }

    /// The metainfo and the pieces that the peer has, once the connection is open.
    pub fn finish(self) -> (result: Result<(MetaInfo, Vec<bool>), BitTorrentError>)
        requires
            self@.bitfield_source is Some,
        ensures
            match result {
                Ok((meta_info, bitfield)) => {
                    &&& opened_meta_info(self@) == Ok::<MetaInfoView, Seq<char>>(meta_info@)
                    &&& bitfield@ == first_bits(
                        self@.bitfield_source->0,
                        meta_info@.info.pieces.len(),
                    )
                },
                Err(error) => opened_meta_info(self@) == Err::<MetaInfoView, Seq<char>>(error@),
            },
    {
        let bytes = flatten_parts(&self.meta_info_pieces);
        let meta_info = match self.meta_info {
            Some(meta_info) => meta_info,
            None => {
                let mut rest: &[u8] = bytes.as_slice();
                let value = match BencodedValue::ingest(&mut rest) {
                    Ok(value) => value,
                    Err(error) => return Err(error),
                };
                let info = match Info::from_bencoded(&value) {
                    Ok(info) => info,
                    Err(error) => return Err(error),
                };
                let announce_list: Vec<String> = Vec::new();
                assert(crate::text::texts(announce_list@) =~= seq![]);
                MetaInfo { announce_list, info }
            },
        };
        match self.bitfield_source {
            Some(source) => {
                let bitfield = source.take(meta_info.info.pieces.len());
                Ok((meta_info, bitfield))
            },
            None => Ok((meta_info, Vec::new())),
        }
    }
}

} // verus!
