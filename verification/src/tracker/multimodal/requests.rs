//! What trackers are asked, field by field.

use vstd::prelude::*;
use vstd::utf8::encode_utf8;

use crate::be::{be_bytes, be_bytes_read_back, be_value, lemma_be_bytes_len, lemma_be_limits};
use crate::bencode::standard::{standard, standard_is_read, standardizable};
use crate::bencode::{entry, Benc};
use crate::bytes::{is_plain_text, plain_text_shown_as_itself};
use crate::info::{total_length, MetaInfoView};
use crate::net::SocketAddr;
use crate::text::laws::{has_char, joined_by, joined_parts_are_split, split_once_at_first};
use crate::text::{
    decimal, decimal_nat, decimal_nat_reads_back, decimal_reads_back, split_once_text, split_text,
    unsigned_of_text,
};
use crate::torrent_source::{source_hash, SourceView};
use crate::tracker::multimodal::{
    announce_answer, announce_request, connect_answer, connect_request, http_answer, http_query_of,
    is_outdated, left_of, starts_with, tracker_address_of, AnnounceView, TrackerAddressView,
};
use crate::tracker::{addresses_read_back, compact_all};
use crate::util::laws::{percent_decoded, querystring_has_plain_characters, querystring_reads_back};
use crate::util::querystring_text;

verus! {

/// A request for a connection is the number that stands for the protocol in eight bytes,
/// action zero in four, the transaction in four.
pub proof fn connect_request_fields(transaction_id: u32)
    ensures
        ({
            let bytes = connect_request(transaction_id);
            &&& bytes.len() == 16
            &&& be_value(bytes.subrange(0, 8)) == 0x417_2710_1980
            &&& be_value(bytes.subrange(8, 12)) == 0
            &&& be_value(bytes.subrange(12, 16)) == transaction_id
        }),
{
    let bytes = connect_request(transaction_id);
    lemma_be_limits();
    be_bytes_read_back(0x417_2710_1980, 8);
    be_bytes_read_back(0, 4);
    be_bytes_read_back(transaction_id as nat, 4);
    assert(bytes.subrange(0, 8) =~= be_bytes(0x417_2710_1980, 8));
    assert(bytes.subrange(8, 12) =~= be_bytes(0, 4));
    assert(bytes.subrange(12, 16) =~= be_bytes(transaction_id as nat, 4));
}

/// An announcement is the connection in eight bytes, action one in four, the transaction in
/// four, the hash and the peer id, three counts of bytes in eight each, event and address in
/// four each, the key in four, as many peers as there are in four, the port in two.
pub proof fn announce_request_fields(
    connection_id: u64,
    transaction_id: u32,
    source: SourceView,
    peer_id: Seq<char>,
    key: u32,
    port: u16,
)
    requires
        source_hash(source).len() == 20,
        encode_utf8(peer_id).len() == 20,
    ensures
        ({
            let bytes = announce_request(
                connection_id,
                transaction_id,
                source,
                peer_id,
                key,
                port,
            );
            &&& bytes.len() == 98
            &&& be_value(bytes.subrange(0, 8)) == connection_id
            &&& be_value(bytes.subrange(8, 12)) == 1
            &&& be_value(bytes.subrange(12, 16)) == transaction_id
            &&& bytes.subrange(16, 36) == source_hash(source)
            &&& bytes.subrange(36, 56) == encode_utf8(peer_id)
            &&& be_value(bytes.subrange(56, 64)) == 0
            &&& be_value(bytes.subrange(64, 72)) == 0
            &&& be_value(bytes.subrange(72, 80)) == 0
            &&& be_value(bytes.subrange(80, 84)) == 0
            &&& be_value(bytes.subrange(84, 88)) == 0
            &&& be_value(bytes.subrange(88, 92)) == key
            &&& be_value(bytes.subrange(92, 96)) == 0xffff_ffff
            &&& be_value(bytes.subrange(96, 98)) == port
        }),
{
    let bytes = announce_request(connection_id, transaction_id, source, peer_id, key, port);
    lemma_be_limits();
    be_bytes_read_back(connection_id as nat, 8);
    be_bytes_read_back(1, 4);
    be_bytes_read_back(transaction_id as nat, 4);
    be_bytes_read_back(0, 8);
    be_bytes_read_back(0, 4);
    be_bytes_read_back(key as nat, 4);
    be_bytes_read_back(0xffff_ffff, 4);
    be_bytes_read_back(port as nat, 2);
    assert(bytes.subrange(0, 8) =~= be_bytes(connection_id as nat, 8));
    assert(bytes.subrange(8, 12) =~= be_bytes(1, 4));
    assert(bytes.subrange(12, 16) =~= be_bytes(transaction_id as nat, 4));
    assert(bytes.subrange(16, 36) =~= source_hash(source));
    assert(bytes.subrange(36, 56) =~= encode_utf8(peer_id));
    assert(bytes.subrange(56, 64) =~= be_bytes(0, 8));
    assert(bytes.subrange(64, 72) =~= be_bytes(0, 8));
    assert(bytes.subrange(72, 80) =~= be_bytes(0, 8));
    assert(bytes.subrange(80, 84) =~= be_bytes(0, 4));
    assert(bytes.subrange(84, 88) =~= be_bytes(0, 4));
    assert(bytes.subrange(88, 92) =~= be_bytes(key as nat, 4));
    assert(bytes.subrange(92, 96) =~= be_bytes(0xffff_ffff, 4));
    assert(bytes.subrange(96, 98) =~= be_bytes(port as nat, 2));
}

/// An answer that names another transaction is refused.
pub proof fn other_transactions_are_refused(transaction_id: u32, other: u32, rest: Seq<u8>)
    requires
        transaction_id != other,
    ensures
        forall|action: u32| #[trigger]
            connect_answer(
                transaction_id,
                be_bytes(action as nat, 4) + be_bytes(other as nat, 4) + rest,
            ) is Err,
        forall|action: u32| #[trigger]
            announce_answer(
                transaction_id,
                be_bytes(action as nat, 4) + be_bytes(other as nat, 4) + rest,
            ) is Err,
{
    lemma_be_limits();
    be_bytes_read_back(other as nat, 4);
    assert forall|action: u32| #[trigger]
        connect_answer(
            transaction_id,
            be_bytes(action as nat, 4) + be_bytes(other as nat, 4) + rest,
        ) is Err by {
        lemma_be_bytes_len(action as nat, 4);
        assert((be_bytes(action as nat, 4) + be_bytes(other as nat, 4) + rest).subrange(4, 8)
            =~= be_bytes(other as nat, 4));
    }
    assert forall|action: u32| #[trigger]
        announce_answer(
            transaction_id,
            be_bytes(action as nat, 4) + be_bytes(other as nat, 4) + rest,
        ) is Err by {
        lemma_be_bytes_len(action as nat, 4);
        assert((be_bytes(action as nat, 4) + be_bytes(other as nat, 4) + rest).subrange(4, 8)
            =~= be_bytes(other as nat, 4));
    }
}

/// A tracker whose address begins with `http` is asked at that address, all of it.
pub proof fn http_address_is_kept(rest: Seq<char>)
    ensures
        tracker_address_of("http"@ + rest) == Ok::<TrackerAddressView, Seq<char>>(
            TrackerAddressView::Http("http"@ + rest),
        ),
{
    assert(("http"@ + rest).take("http"@.len() as int) =~= "http"@);
}

/// An address that begins with neither `http` nor `udp` is refused.
pub proof fn other_protocols_are_refused(url: Seq<char>)
    requires
        !starts_with(url, "http"@),
        !starts_with(url, "udp"@),
    ensures
        tracker_address_of(url) is Err,
{
}

/// A field of a query.
spec fn query_field(name: Seq<char>, value: Seq<char>) -> Seq<char> {
    name + seq!['='] + value
}

proof fn lemma_query_names()
    ensures
        "?info_hash="@ == seq!['?'] + "info_hash"@ + seq!['='],
        "&peer_id="@ == seq!['&'] + "peer_id"@ + seq!['='],
        "&port="@ == seq!['&'] + "port"@ + seq!['='],
        "&compact=1"@ == seq!['&'] + "compact"@ + seq!['='] + "1"@,
        !has_char("info_hash"@, '&') && !has_char("info_hash"@, '='),
        !has_char("peer_id"@, '&') && !has_char("peer_id"@, '='),
        !has_char("port"@, '&') && !has_char("port"@, '='),
        !has_char("compact"@, '&') && !has_char("compact"@, '='),
        !has_char("1"@, '&'),
{
    reveal_strlit("?info_hash=");
    reveal_strlit("info_hash");
    reveal_strlit("&peer_id=");
    reveal_strlit("peer_id");
    reveal_strlit("&port=");
    reveal_strlit("port");
    reveal_strlit("&compact=1");
    reveal_strlit("compact");
    reveal_strlit("1");
    assert("?info_hash="@ =~= seq!['?'] + "info_hash"@ + seq!['=']);
    assert("&peer_id="@ =~= seq!['&'] + "peer_id"@ + seq!['=']);
    assert("&port="@ =~= seq!['&'] + "port"@ + seq!['=']);
    assert("&compact=1"@ =~= seq!['&'] + "compact"@ + seq!['='] + "1"@);
}

proof fn lemma_count_names()
    ensures
        "&uploaded=0&downloaded=0&left="@ == seq!['&'] + ("uploaded"@ + seq!['='] + "0"@) + seq![
            '&',
        ] + ("downloaded"@ + seq!['='] + "0"@) + seq!['&'] + "left"@ + seq!['='],
        !has_char("uploaded"@, '&') && !has_char("uploaded"@, '='),
        !has_char("downloaded"@, '&') && !has_char("downloaded"@, '='),
        !has_char("left"@, '&') && !has_char("left"@, '='),
        !has_char("0"@, '&'),
{
    reveal_strlit("&uploaded=0&downloaded=0&left=");
    reveal_strlit("uploaded");
    reveal_strlit("downloaded");
    reveal_strlit("left");
    reveal_strlit("0");
    assert("&uploaded=0&downloaded=0&left="@ =~= seq!['&'] + ("uploaded"@ + seq!['='] + "0"@)
        + seq!['&'] + ("downloaded"@ + seq!['='] + "0"@) + seq!['&'] + "left"@ + seq!['=']);
}

proof fn lemma_digits_are_plain(n: nat)
    ensures
        !has_char(decimal_nat(n), '&'),
        unsigned_of_text(decimal_nat(n)) == Some(n as int),
{
    decimal_nat_reads_back(n);
    decimal_reads_back(n as int);
    assert(decimal(n as int) == decimal_nat(n));
    let text = decimal_nat(n);
    if has_char(text, '&') {
        let i = choose|i: int| 0 <= i < text.len() && text[i] == '&';
        assert(crate::text::is_digit(text[i]));
    }
}

proof fn lemma_field(name: Seq<char>, value: Seq<char>)
    requires
        !has_char(name, '='),
        !has_char(name, '&'),
        !has_char(value, '&'),
    ensures
        !has_char(query_field(name, value), '&'),
        split_once_text(query_field(name, value), '=') == Some((name, value)),
{
    split_once_at_first(name, value, '=');
    let text = query_field(name, value);
    if has_char(text, '&') {
        let i = choose|i: int| 0 <= i < text.len() && text[i] == '&';
        if i < name.len() {
            assert(name[i] == '&');
        } else if i > name.len() {
            assert(value[i - name.len() - 1] == '&');
        }
    }
}

spec fn query_fields(hash: Seq<u8>, peer_id: Seq<char>, port: nat, left: nat) -> Seq<Seq<char>> {
    seq![
        query_field("info_hash"@, querystring_text(hash)),
        query_field("peer_id"@, peer_id),
        query_field("port"@, decimal_nat(port)),
        query_field("uploaded"@, "0"@),
        query_field("downloaded"@, "0"@),
        query_field("left"@, decimal_nat(left)),
        query_field("compact"@, "1"@),
    ]
}

proof fn lemma_next_field(before: Seq<char>, fields: Seq<Seq<char>>)
    requires
        fields.len() > 1,
    ensures
        before + joined_by(fields, '&') == (before + fields[0] + seq!['&']) + joined_by(
            fields.drop_first(),
            '&',
        ),
{
    assert(before + joined_by(fields, '&') =~= (before + fields[0] + seq!['&']) + joined_by(
        fields.drop_first(),
        '&',
    ));
}

/// A text, then `&`, a name, `=` and a value.
proof fn lemma_appended_field(
    before: Seq<char>,
    sign: Seq<char>,
    name: Seq<char>,
    value: Seq<char>,
)
    requires
        sign == seq!['&'] + name + seq!['='],
    ensures
        before + sign + value == (before + seq!['&']) + query_field(name, value),
{
    assert(before + sign + value =~= (before + seq!['&']) + query_field(name, value));
}

proof fn lemma_appended_counts(before: Seq<char>, left: Seq<char>)
    ensures
        before + "&uploaded=0&downloaded=0&left="@ + left == ((before + seq!['&'] + query_field(
            "uploaded"@,
            "0"@,
        )) + seq!['&'] + query_field("downloaded"@, "0"@)) + seq!['&'] + query_field(
            "left"@,
            left,
        ),
{
    lemma_count_names();
    assert(before + "&uploaded=0&downloaded=0&left="@ + left =~= ((before + seq!['&']
        + query_field("uploaded"@, "0"@)) + seq!['&'] + query_field("downloaded"@, "0"@)) + seq![
        '&',
    ] + query_field("left"@, left));
}

proof fn lemma_query_is_joined(
    announce: Seq<char>,
    source: SourceView,
    peer_id: Seq<char>,
    port: nat,
)
    ensures
        http_query_of(announce, source, peer_id, port) == announce + seq!['?'] + joined_by(
            query_fields(source_hash(source), peer_id, port, left_of(source) as nat),
            '&',
        ),
{
    let hash = querystring_text(source_hash(source));
    let left = decimal_nat(left_of(source) as nat);
    let f0 = query_fields(source_hash(source), peer_id, port, left_of(source) as nat);
    lemma_query_names();
    // the fields one behind the other
    let x0 = announce + seq!['?'];
    let p0 = announce + "?info_hash="@ + hash;
    assert(p0 == x0 + f0[0]) by {
        assert(announce + (seq!['?'] + "info_hash"@ + seq!['=']) + hash =~= announce + seq!['?'] + (
        "info_hash"@ + seq!['='] + hash));
    }
    let p1 = p0 + "&peer_id="@ + peer_id;
    lemma_appended_field(p0, "&peer_id="@, "peer_id"@, peer_id);
    let p2 = p1 + "&port="@ + decimal_nat(port);
    lemma_appended_field(p1, "&port="@, "port"@, decimal_nat(port));
    let p5 = p2 + "&uploaded=0&downloaded=0&left="@ + left;
    lemma_appended_counts(p2, left);
    let p6 = p5 + "&compact=1"@;
    assert(p6 == p5 + seq!['&'] + f0[6]) by {
        assert(p5 + (seq!['&'] + "compact"@ + seq!['='] + "1"@) =~= p5 + seq!['&'] + ("compact"@
            + seq!['='] + "1"@));
    }
    assert(http_query_of(announce, source, peer_id, port) == p6);
    // the same, joined
    let f1 = f0.drop_first();
    let f2 = f1.drop_first();
    let f3 = f2.drop_first();
    let f4 = f3.drop_first();
    let f5 = f4.drop_first();
    let f6 = f5.drop_first();
    lemma_next_field(x0, f0);
    lemma_next_field(p0 + seq!['&'], f1);
    lemma_next_field(p1 + seq!['&'], f2);
    lemma_next_field(p2 + seq!['&'], f3);
    lemma_next_field(p2 + seq!['&'] + f3[0] + seq!['&'], f4);
    lemma_next_field(p2 + seq!['&'] + f3[0] + seq!['&'] + f4[0] + seq!['&'], f5);
    assert(joined_by(f6, '&') == f0[6]);
    assert(f1[0] == f0[1] && f2[0] == f0[2] && f3[0] == f0[3] && f4[0] == f0[4] && f5[0] == f0[5]);
}

/// A tracker is asked over HTTP at its address, with seven fields behind a `?`: the hash,
/// which reads back from its escapes, the peer id, the port, nothing uploaded and
/// downloaded, what is left, and that the answer be compact.
pub proof fn query_names_its_fields(
    announce: Seq<char>,
    source: SourceView,
    peer_id: Seq<char>,
    port: nat,
)
    requires
        !has_char(peer_id, '&'),
        left_of(source) >= 0,
    ensures
        ({
            let url = http_query_of(announce, source, peer_id, port);
            let n = announce.len() as int;
            let fields = split_text(url.skip(n + 1), '&');
            &&& url.len() > n
            &&& url.take(n) == announce
            &&& url[n] == '?'
            &&& fields.len() == 7
            &&& split_once_text(fields[0], '=') matches Some((name, value)) && name
                == "info_hash"@ && percent_decoded(value) == source_hash(source)
            &&& split_once_text(fields[1], '=') == Some(("peer_id"@, peer_id))
            &&& split_once_text(fields[2], '=') matches Some((name, value)) && name == "port"@
                && unsigned_of_text(value) == Some(port as int)
            &&& split_once_text(fields[3], '=') == Some(("uploaded"@, "0"@))
            &&& split_once_text(fields[4], '=') == Some(("downloaded"@, "0"@))
            &&& split_once_text(fields[5], '=') matches Some((name, value)) && name == "left"@
                && unsigned_of_text(value) == Some(left_of(source))
            &&& split_once_text(fields[6], '=') == Some(("compact"@, "1"@))
        }),
{
    let hash = source_hash(source);
    let left = left_of(source) as nat;
    let fields = query_fields(hash, peer_id, port, left);
    let url = http_query_of(announce, source, peer_id, port);
    let n = announce.len() as int;
    lemma_query_is_joined(announce, source, peer_id, port);
    assert(url.take(n) =~= announce);
    assert(url.skip(n + 1) =~= joined_by(fields, '&'));
    lemma_query_names();
    lemma_count_names();
    lemma_digits_are_plain(port);
    lemma_digits_are_plain(left);
    querystring_reads_back(hash);
    let escaped_hash = querystring_text(hash);
    if has_char(escaped_hash, '&') {
        let i = choose|i: int| 0 <= i < escaped_hash.len() && escaped_hash[i] == '&';
        querystring_has_plain_characters(hash, i);
    }
    lemma_field("info_hash"@, escaped_hash);
    lemma_field("peer_id"@, peer_id);
    lemma_field("port"@, decimal_nat(port));
    lemma_field("uploaded"@, "0"@);
    lemma_field("downloaded"@, "0"@);
    lemma_field("left"@, decimal_nat(left));
    lemma_field("compact"@, "1"@);
    assert forall|i: int| 0 <= i < fields.len() implies !has_char(#[trigger] fields[i], '&') by {}
    joined_parts_are_split(fields, '&');
}

/// All bytes of a torrent are left to be downloaded, none of a link of which nothing is
/// known.
pub proof fn everything_is_left(meta_info: MetaInfoView)
    ensures
        left_of(SourceView::File(meta_info)) == total_length(meta_info.info.file_info),
        forall|magnet: crate::magnet::MagnetView| #[trigger]
            left_of(SourceView::Magnet(magnet)) == 0,
{
}

/// Over HTTP too a tracker is asked in the same way by the two kinds of trackers.
pub proof fn trackers_are_asked_alike(
    announce: Seq<char>,
    meta_info: MetaInfoView,
    peer_id: Seq<char>,
    port: nat,
)
    requires
        total_length(meta_info.info.file_info) >= 0,
    ensures
        crate::multimodal_tracker::http_query_of(
            announce,
            source_hash(SourceView::File(meta_info)),
            total_length(meta_info.info.file_info) as nat,
            peer_id,
            port,
        ) == http_query_of(announce, SourceView::File(meta_info), peer_id, port),
{
}

/// An answer over HTTP gives the interval and all addresses that it names, in their order.
pub proof fn http_answer_gives_peers(
    pairs: Seq<(Seq<u8>, Benc)>,
    interval: int,
    peers: Seq<SocketAddr>,
    more: Seq<u8>,
)
    requires
        standardizable(Benc::Dict(pairs)),
        entry(pairs, "interval"@) == Some(Benc::Int(interval)),
        0 <= interval < 0x1_0000_0000_0000_0000,
        entry(pairs, "peers"@) == Some(Benc::Bytes(compact_all(peers))),
        forall|j: int| 0 <= j < peers.len() ==> (#[trigger] peers[j]) is V4,
    ensures
        http_answer(standard(Benc::Dict(pairs)) + more) == Ok::<AnnounceView, Seq<char>>(
            AnnounceView { interval, peers },
        ),
{
    standard_is_read(Benc::Dict(pairs), more);
    addresses_read_back(peers);
    vstd::arithmetic::div_mod::lemma_small_mod(interval as nat, 0x1_0000_0000_0000_0000);
}

/// A tracker that fails says why, and that is what is told.
pub proof fn http_failure_is_told(
    pairs: Seq<(Seq<u8>, Benc)>,
    reason: Seq<char>,
    more: Seq<u8>,
)
    requires
        standardizable(Benc::Dict(pairs)),
        entry(pairs, "peers"@) is None,
        entry(pairs, "failure reason"@) == Some(Benc::Bytes(encode_utf8(reason))),
        is_plain_text(reason),
    ensures
        ({
            let answer = http_answer(standard(Benc::Dict(pairs)) + more);
            answer matches Err(complaint) && complaint.len() >= reason.len() && complaint.skip(
                complaint.len() - reason.len(),
            ) == reason
        }),
{
    standard_is_read(Benc::Dict(pairs), more);
    plain_text_shown_as_itself(reason);
    let complaint = "Tracker query failure: "@ + reason;
    assert(complaint.skip(complaint.len() - reason.len()) =~= reason);
}

/// A connection to a tracker is good for a minute.
pub proof fn connection_is_good_for_a_minute(seconds: u64)
    ensures
        is_outdated(None),
        is_outdated(Some(seconds)) <==> seconds > 60,
{
}

/// The answer that is kept as text gives the same interval as the one that is read, and
/// comes on the same answers.
pub proof fn answers_agree(transaction_id: u32, response: Seq<u8>)
    ensures
        crate::multimodal_tracker::text_answer(transaction_id, response) is Ok <==> announce_answer(
            transaction_id,
            response,
        ) is Ok,
        crate::multimodal_tracker::text_answer(transaction_id, response) matches Ok(success)
            ==> success.interval == announce_answer(transaction_id, response)->Ok_0.interval,
{
}

} // verus!
