//! What a torrent is called and found by.

use vstd::prelude::*;

use crate::bencode::standard::{standard, standard_is_read, standardizable};
use crate::bencode::{encoded, Benc};
use crate::error::BitTorrentError;
use crate::info::{info_benc, meta_info_of, MetaInfoView};
use crate::magnet::laws::{fits_link, link_of, link_says_its_fields, trackers_among, LinkField};
use crate::magnet::{is_magnet_uri, MagnetView};
use crate::torrent_source::{source_hash, source_name, source_of, source_trackers, SourceView};
use crate::util::{hex_decoded, hex_text_reads_back, sha1};

verus! {

/// A link without a name is called by its hash, from which the hash reads back.
pub proof fn nameless_link_is_called_by_hash(magnet: MagnetView)
    requires
        magnet.dn is None,
    ensures
        hex_decoded(source_name(SourceView::Magnet(magnet))) == Some(magnet.xt),
        source_hash(SourceView::Magnet(magnet)) == magnet.xt,
{
    hex_text_reads_back(magnet.xt);
}

/// A file that holds metainfo in the standard form gives that metainfo, whatever follows
/// it.
pub proof fn file_gives_metainfo(
    name: Seq<char>,
    content: Vec<u8>,
    value: Benc,
    more: Seq<u8>,
    meta_info: MetaInfoView,
)
    requires
        !is_magnet_uri(name),
        standardizable(value),
        content@ == standard(value) + more,
        meta_info_of(value) == Ok::<MetaInfoView, Seq<char>>(meta_info),
    ensures
        source_of(name, Ok(content)) == Ok::<SourceView, Seq<char>>(SourceView::File(meta_info)),
        source_name(SourceView::File(meta_info)) == meta_info.info.name,
        source_trackers(SourceView::File(meta_info)) == meta_info.announce_list,
{
    standard_is_read(value, more);
}

/// A link with a hash is that torrent, whatever files there are; it is found by the last
/// hash and called by the last name in the link, and its trackers are those in the link.
pub proof fn link_names_torrent(
    fields: Seq<LinkField>,
    hash: int,
    read: Result<Vec<u8>, BitTorrentError>,
)
    requires
        forall|i: int| 0 <= i < fields.len() ==> fits_link(#[trigger] fields[i]),
        0 <= hash < fields.len(),
        fields[hash] is Topic,
        forall|i: int| hash < i < fields.len() ==> !((#[trigger] fields[i]) is Topic),
    ensures
        source_of(link_of(fields), read) is Ok,
        source_hash(source_of(link_of(fields), read)->Ok_0) == fields[hash]->Topic_0,
        source_trackers(source_of(link_of(fields), read)->Ok_0) == trackers_among(fields),
        forall|i: int|
            0 <= i < fields.len() && (#[trigger] fields[i]) is Name && (forall|j: int|
                i < j < fields.len() ==> !((#[trigger] fields[j]) is Name)) ==> source_name(
                source_of(link_of(fields), read)->Ok_0,
            ) == fields[i]->Name_0,
{
    link_says_its_fields(fields);
    reveal_strlit("magnet:?");
    assert(link_of(fields).take(8) =~= "magnet:?"@);
}

/// A torrent is found by the hash of its info dictionary, whatever its trackers are.
pub proof fn torrent_is_found_by_info(a: MetaInfoView, b: MetaInfoView)
    ensures
        source_hash(SourceView::File(a)) == sha1(encoded(info_benc(a.info))),
        a.info == b.info ==> source_hash(SourceView::File(a)) == source_hash(SourceView::File(b)),
{
}

} // verus!
