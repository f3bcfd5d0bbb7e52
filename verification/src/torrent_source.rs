//! Where a torrent is known from: its metainfo file or a magnet link.

use vstd::prelude::*;

use crate::bencode::{encoded, ingested};
use crate::error::{outcome, BitTorrentError};
use crate::info::{info_benc, meta_info_of, MetaInfo, MetaInfoView};
use crate::magnet::{is_magnet_uri, magnet_of_uri, uri_can_be_cut, Magnet, MagnetView};
use crate::text::{chars_of, chars_start_with, copy_texts, texts};
use crate::util::{bytes_to_hex, hex_text, sha1};

pub mod laws;

verus! {

#[derive(Debug)]
pub enum TorrentSource {
    File(MetaInfo),
    Magnet(Magnet),
}

/// What a `TorrentSource` says.
pub enum SourceView {
    File(MetaInfoView),
    Magnet(MagnetView),
}

impl View for TorrentSource {
    type V = SourceView;

    open spec fn view(&self) -> SourceView {
        match self {
            TorrentSource::File(meta_info) => SourceView::File(meta_info@),
            TorrentSource::Magnet(magnet) => SourceView::Magnet(magnet@),
        }
    }
}

impl Clone for TorrentSource {
    fn clone(&self) -> (copy: Self)
        ensures
            copy@ == self@,
    {
        match self {
            TorrentSource::File(meta_info) => TorrentSource::File(meta_info.clone()),
            TorrentSource::Magnet(magnet) => TorrentSource::Magnet(magnet.clone()),
        }
    }
}

/// The torrent that a text names: a magnet link, or the name of a file with what
/// reading that file came to.
pub open spec fn source_of(
    s: Seq<char>,
    read: Result<Vec<u8>, BitTorrentError>,
) -> Result<SourceView, Seq<char>> {
    if is_magnet_uri(s) {
        match magnet_of_uri(s) {
            Ok(magnet) => Ok(SourceView::Magnet(magnet)),
            Err(complaint) => Err(complaint),
        }
    } else {
        match read {
            Ok(content) => match ingested(content@).0 {
                Ok(value) => match meta_info_of(value) {
                    Ok(meta_info) => Ok(SourceView::File(meta_info)),
                    Err(complaint) => Err(complaint),
                },
                Err(complaint) => Err(complaint),
            },
            Err(error) => Err("Error reading file: "@ + error@),
        }
    }
}

/// The info hash of a torrent.
pub open spec fn source_hash(source: SourceView) -> Seq<u8> {
    match source {
        SourceView::File(meta_info) => sha1(encoded(info_benc(meta_info.info))),
        SourceView::Magnet(magnet) => magnet.xt,
    }
}

/// The name of a torrent.
pub open spec fn source_name(source: SourceView) -> Seq<char> {
    match source {
        SourceView::File(meta_info) => meta_info.info.name,
        SourceView::Magnet(magnet) => match magnet.dn {
            Some(name) => name,
            None => hex_text(magnet.xt),
        },
    }
}

/// The trackers of a torrent.
pub open spec fn source_trackers(source: SourceView) -> Seq<Seq<char>> {
    match source {
        SourceView::File(meta_info) => meta_info.announce_list,
        SourceView::Magnet(magnet) => magnet.tr,
    }
}

impl TorrentSource {
    /// Whether a text is a magnet link rather than the name of a file.
    pub fn is_magnet(s: &str) -> (magnet: bool)
        ensures
            magnet == is_magnet_uri(s@),
    {
        chars_start_with(chars_of(s).as_slice(), "magnet:?")
    }

    /// The torrent that a text names. What reading a file of that name came to is looked
    /// at only if the text is no magnet link.
    pub fn from_string(s: &str, read: Result<Vec<u8>, BitTorrentError>) -> (result: Result<
        Self,
        BitTorrentError,
    >)
        requires
            uri_can_be_cut(s@),
        ensures
            outcome(result) == source_of(s@, read),
    {
        if Self::is_magnet(s) {
            match Magnet::from_uri(s.to_string()) {
                Ok(magnet) => Ok(TorrentSource::Magnet(magnet)),
                Err(error) => Err(error),
            }
        } else {
            match MetaInfo::from_file(read) {
                Ok(meta_info) => Ok(TorrentSource::File(meta_info)),
                Err(error) => Err(error),
            }
        }
    }

    /// The torrent that a text names, unless it is a magnet link with a topic that is too
    /// short to hold a scheme.
    pub fn try_from_string(s: &str, read: Result<Vec<u8>, BitTorrentError>) -> (result: Option<
        Result<Self, BitTorrentError>,
    >)
        ensures
            match result {
                Some(result) => uri_can_be_cut(s@) && outcome(result) == source_of(s@, read),
                None => !uri_can_be_cut(s@),
            },
    {
        match Magnet::try_from_uri(s.to_string()) {
            Some(_) => Some(Self::from_string(s, read)),
            None => None,
        }
    }

    /// The info hash.
    pub fn hash(&self) -> (result: Result<[u8; 20], BitTorrentError>)
        ensures
            result is Ok,
            result->Ok_0@ == source_hash(self@),
    {
        match self {
            TorrentSource::File(meta_info) => meta_info.info_hash(),
            TorrentSource::Magnet(magnet) => Ok(magnet.xt),
        }
    }

    /// The trackers.
    pub fn trackers(&self) -> (list: Vec<String>)
        ensures
            texts(list@) == source_trackers(self@),
    {
        match self {
            TorrentSource::File(meta_info) => copy_texts(&meta_info.announce_list),
            TorrentSource::Magnet(magnet) => copy_texts(&magnet.tr),
        }
    }

    /// The name: the hash in hexadecimal digits where a magnet link gives none.
    pub fn name(&self) -> (name: String)
        ensures
            name@ == source_name(self@),
    {
        match self {
            TorrentSource::File(meta_info) => meta_info.info.name.clone(),
            TorrentSource::Magnet(magnet) => match &magnet.dn {
                Some(name) => name.clone(),
                None => bytes_to_hex(magnet.xt.as_slice()),
            },
        }
    }
}

} // verus!
