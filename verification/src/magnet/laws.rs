//! What a magnet link says, whatever the order of its fields.

use vstd::prelude::*;
use vstd::utf8::{
    encode_utf8, encode_utf8_valid_utf8, is_ascii_chars_encode_utf8, is_char_boundary,
    is_char_boundary_iff_not_is_continuation_byte, is_char_boundary_start_end_of_seq,
};

use crate::magnet::{
    after_parts, exact_topic, is_magnet_uri, magnet_of_uri, part_can_be_cut, uri_can_be_cut,
    uri_parts, with_part, PartialMagnet,
};
use crate::text::laws::{has_char, joined_by, joined_parts_are_split, split_once_at_first};
use crate::text::lemma_ascii;
use crate::util::{hex_digit_value, hex_text, hex_text_reads_back};

verus! {

/// A field of a magnet link.
pub enum LinkField {
    /// the info hash
    Topic(Seq<u8>),
    Name(Seq<char>),
    Tracker(Seq<char>),
    /// the address of a peer
    Peer(Seq<char>),
}

/// Whether a field can stand in a link: a hash has twenty bytes, and no text holds the sign
/// that ends a field.
pub open spec fn fits_link(field: LinkField) -> bool {
    match field {
        LinkField::Topic(hash) => hash.len() == 20,
        LinkField::Name(text) => !has_char(text, '&'),
        LinkField::Tracker(text) => !has_char(text, '&'),
        LinkField::Peer(text) => !has_char(text, '&'),
    }
}

/// A field as it is written in a link.
pub open spec fn field_text(field: LinkField) -> Seq<char> {
    match field {
        LinkField::Topic(hash) => "xt"@ + seq!['='] + ("urn:btih:"@ + hex_text(hash)),
        LinkField::Name(text) => "dn"@ + seq!['='] + text,
        LinkField::Tracker(text) => "tr"@ + seq!['='] + text,
        LinkField::Peer(text) => "x.pe"@ + seq!['='] + text,
    }
}

/// The link that has some fields.
pub open spec fn link_of(fields: Seq<LinkField>) -> Seq<char> {
    "magnet:?"@ + joined_by(fields.map_values(|field: LinkField| field_text(field)), '&')
}

/// The trackers among the fields.
pub open spec fn trackers_among(fields: Seq<LinkField>) -> Seq<Seq<char>> {
    fields.filter(|field: LinkField| field is Tracker).map_values(
        |field: LinkField| field->Tracker_0,
    )
}

/// The addresses of peers among the fields.
pub open spec fn peers_among(fields: Seq<LinkField>) -> Seq<Seq<char>> {
    fields.filter(|field: LinkField| field is Peer).map_values(|field: LinkField| field->Peer_0)
}

proof fn lemma_names()
    ensures
        "xt"@ == seq!['x', 't'],
        "dn"@ == seq!['d', 'n'],
        "tr"@ == seq!['t', 'r'],
        "x.pe"@ == seq!['x', '.', 'p', 'e'],
{
    reveal_strlit("xt");
    reveal_strlit("dn");
    reveal_strlit("tr");
    reveal_strlit("x.pe");
    assert("xt"@ =~= seq!['x', 't']);
    assert("dn"@ =~= seq!['d', 'n']);
    assert("tr"@ =~= seq!['t', 'r']);
    assert("x.pe"@ =~= seq!['x', '.', 'p', 'e']);
}

proof fn lemma_topic(hash: Seq<u8>)
    requires
        hash.len() == 20,
    ensures
        exact_topic("urn:btih:"@ + hex_text(hash)) == Ok::<Seq<u8>, Seq<char>>(hash),
        !has_char("urn:btih:"@ + hex_text(hash), '&'),
        is_char_boundary(encode_utf8("urn:btih:"@ + hex_text(hash)), 9),
{
    let digits = hex_text(hash);
    let value = "urn:btih:"@ + digits;
    reveal_strlit("urn:btih:");
    hex_text_reads_back(hash);
    assert(value.take(9) =~= "urn:btih:"@);
    assert(value.skip(9) =~= digits);
    assert forall|i: int| 0 <= i < value.len() implies value[i] != '&' && '\0' <= #[trigger] value[i]
        <= '\u{7f}' by {
        if i >= 9 {
            assert(value[i] == digits[i - 9]);
            assert(hex_digit_value(digits[i - 9]) is Some);
        }
    }
    lemma_ascii(value);
    is_ascii_chars_encode_utf8(value);
    encode_utf8_valid_utf8(value);
    let bytes = encode_utf8(value);
    if bytes.len() == 9 {
        is_char_boundary_start_end_of_seq(bytes);
    } else {
        is_char_boundary_iff_not_is_continuation_byte(bytes, 9);
    }
}

proof fn lemma_field(field: LinkField)
    requires
        fits_link(field),
    ensures
        !has_char(field_text(field), '&'),
        part_can_be_cut(field_text(field)),
        forall|fields: PartialMagnet| #[trigger]
            with_part(fields, field_text(field)) == Ok::<PartialMagnet, Seq<char>>(
                match field {
                    LinkField::Topic(hash) => PartialMagnet { xt: Some(hash), ..fields },
                    LinkField::Name(text) => PartialMagnet { dn: Some(text), ..fields },
                    LinkField::Tracker(text) => PartialMagnet {
                        tr: fields.tr.push(text),
                        ..fields
                    },
                    LinkField::Peer(text) => PartialMagnet {
                        xpe: fields.xpe.push(text),
                        ..fields
                    },
                },
            ),
{
    lemma_names();
    let (name, value) = match field {
        LinkField::Topic(hash) => ("xt"@, "urn:btih:"@ + hex_text(hash)),
        LinkField::Name(text) => ("dn"@, text),
        LinkField::Tracker(text) => ("tr"@, text),
        LinkField::Peer(text) => ("x.pe"@, text),
    };
    if let LinkField::Topic(hash) = field {
        lemma_topic(hash);
    }
    assert(!has_char(name, '='));
    assert(!has_char(name, '&'));
    split_once_at_first(name, value, '=');
    let text = field_text(field);
    assert(text == name + seq!['='] + value);
    if has_char(text, '&') {
        let i = choose|i: int| 0 <= i < text.len() && text[i] == '&';
        if i < name.len() {
            assert(name[i] == '&');
        } else if i > name.len() {
            assert(value[i - name.len() - 1] == '&');
        }
    }
    assert("xt"@[0] != "dn"@[0]);
    assert("xt"@[0] != "tr"@[0]);
    assert("xt"@.len() != "x.pe"@.len());
    assert("dn"@[0] != "tr"@[0]);
    assert("dn"@.len() != "x.pe"@.len());
    assert("tr"@.len() != "x.pe"@.len());
}

/// Whether the fields that have been read are those among the first of a link.
spec fn read_so_far(fields: Seq<LinkField>, read: PartialMagnet) -> bool {
    &&& read.tr == trackers_among(fields)
    &&& read.xpe == peers_among(fields)
    &&& forall|t: int|
        0 <= t < fields.len() && (#[trigger] fields[t]) is Topic && (forall|i: int|
            t < i < fields.len() ==> !((#[trigger] fields[i]) is Topic)) ==> read.xt == Some(
            fields[t]->Topic_0,
        )
    &&& forall|t: int|
        0 <= t < fields.len() && (#[trigger] fields[t]) is Name && (forall|i: int|
            t < i < fields.len() ==> !((#[trigger] fields[i]) is Name)) ==> read.dn == Some(
            fields[t]->Name_0,
        )
    &&& (forall|i: int| 0 <= i < fields.len() ==> !((#[trigger] fields[i]) is Topic)) ==> read.xt
        is None
    &&& (forall|i: int| 0 <= i < fields.len() ==> !((#[trigger] fields[i]) is Name)) ==> read.dn
        is None
}

proof fn lemma_lists_grow(fields: Seq<LinkField>, field: LinkField)
    ensures
        trackers_among(fields.push(field)) == if field is Tracker {
            trackers_among(fields).push(field->Tracker_0)
        } else {
            trackers_among(fields)
        },
        peers_among(fields.push(field)) == if field is Peer {
            peers_among(fields).push(field->Peer_0)
        } else {
            peers_among(fields)
        },
{
    let more = fields.push(field);
    assert(more.drop_last() =~= fields);
    reveal(Seq::filter);
    let is_tracker = |field: LinkField| field is Tracker;
    let is_peer = |field: LinkField| field is Peer;
    assert(more.filter(is_tracker) == if field is Tracker {
        fields.filter(is_tracker).push(field)
    } else {
        fields.filter(is_tracker)
    });
    assert(more.filter(is_peer) == if field is Peer {
        fields.filter(is_peer).push(field)
    } else {
        fields.filter(is_peer)
    });
    assert(trackers_among(more) =~= if field is Tracker {
        trackers_among(fields).push(field->Tracker_0)
    } else {
        trackers_among(fields)
    });
    assert(peers_among(more) =~= if field is Peer {
        peers_among(fields).push(field->Peer_0)
    } else {
        peers_among(fields)
    });
}

proof fn lemma_step(fields: Seq<LinkField>, n: int, before: PartialMagnet, after: PartialMagnet)
    requires
        0 <= n < fields.len(),
        fits_link(fields[n]),
        read_so_far(fields.take(n), before),
        with_part(before, field_text(fields[n])) == Ok::<PartialMagnet, Seq<char>>(after),
    ensures
        read_so_far(fields.take(n + 1), after),
{
    let head = fields.take(n);
    let more = fields.take(n + 1);
    let field = fields[n];
    assert(more =~= head.push(field));
    lemma_field(field);
    lemma_lists_grow(head, field);
    assert(more[n] == field);
    assert forall|t: int|
        0 <= t < more.len() && (#[trigger] more[t]) is Topic && (forall|i: int|
            t < i < more.len() ==> !((#[trigger] more[i]) is Topic)) implies after.xt == Some(
        more[t]->Topic_0,
    ) by {
        if t < n {
            assert(!(more[n] is Topic));
            assert(head[t] == more[t]);
            assert forall|i: int| t < i < head.len() implies !((#[trigger] head[i]) is Topic) by {
                assert(head[i] == more[i]);
            }
        }
    }
    assert forall|t: int|
        0 <= t < more.len() && (#[trigger] more[t]) is Name && (forall|i: int|
            t < i < more.len() ==> !((#[trigger] more[i]) is Name)) implies after.dn == Some(
        more[t]->Name_0,
    ) by {
        if t < n {
            assert(!(more[n] is Name));
            assert(head[t] == more[t]);
            assert forall|i: int| t < i < head.len() implies !((#[trigger] head[i]) is Name) by {
                assert(head[i] == more[i]);
            }
        }
    }
    if forall|i: int| 0 <= i < more.len() ==> !((#[trigger] more[i]) is Topic) {
        assert forall|i: int| 0 <= i < head.len() implies !((#[trigger] head[i]) is Topic) by {
            assert(head[i] == more[i]);
        }
    }
    if forall|i: int| 0 <= i < more.len() ==> !((#[trigger] more[i]) is Name) {
        assert forall|i: int| 0 <= i < head.len() implies !((#[trigger] head[i]) is Name) by {
            assert(head[i] == more[i]);
        }
    }
}

proof fn lemma_read(fields: Seq<LinkField>, parts: Seq<Seq<char>>, n: int)
    requires
        0 <= n <= fields.len(),
        parts.len() == fields.len(),
        forall|i: int| 0 <= i < fields.len() ==> fits_link(#[trigger] fields[i]),
        forall|i: int| 0 <= i < fields.len() ==> #[trigger] parts[i] == field_text(fields[i]),
    ensures
        after_parts(parts, n) is Ok,
        read_so_far(fields.take(n), after_parts(parts, n)->Ok_0),
    decreases n,
{
    if n == 0 {
        reveal(Seq::filter);
        assert(fields.take(0) =~= seq![]);
        assert(trackers_among(fields.take(0)) =~= seq![]);
        assert(peers_among(fields.take(0)) =~= seq![]);
    } else {
        lemma_read(fields, parts, n - 1);
        assert(fits_link(fields[n - 1]));
        assert(parts[n - 1] == field_text(fields[n - 1]));
        lemma_field(fields[n - 1]);
        let before = after_parts(parts, n - 1)->Ok_0;
        let after = with_part(before, parts[n - 1])->Ok_0;
        lemma_step(fields, n - 1, before, after);
    }
}

/// A link says what its fields do, in whatever order they come: all trackers and all peers,
/// each in their order, and of hashes and names the last; without a hash it is refused.
pub proof fn link_says_its_fields(fields: Seq<LinkField>)
    requires
        fields.len() > 0,
        forall|i: int| 0 <= i < fields.len() ==> fits_link(#[trigger] fields[i]),
    ensures
        uri_can_be_cut(link_of(fields)),
        magnet_of_uri(link_of(fields)) is Ok == (exists|t: int|
            0 <= t < fields.len() && (#[trigger] fields[t]) is Topic),
        magnet_of_uri(link_of(fields)) matches Ok(magnet) ==> {
            &&& magnet.tr == trackers_among(fields)
            &&& magnet.xpe == peers_among(fields)
            &&& forall|t: int|
                0 <= t < fields.len() && (#[trigger] fields[t]) is Topic && (forall|i: int|
                    t < i < fields.len() ==> !((#[trigger] fields[i]) is Topic)) ==> magnet.xt
                    == fields[t]->Topic_0
            &&& forall|t: int|
                0 <= t < fields.len() && (#[trigger] fields[t]) is Name && (forall|i: int|
                    t < i < fields.len() ==> !((#[trigger] fields[i]) is Name)) ==> magnet.dn
                    == Some(fields[t]->Name_0)
            &&& (forall|i: int| 0 <= i < fields.len() ==> !((#[trigger] fields[i]) is Name))
                ==> magnet.dn is None
        },
{
    let parts = fields.map_values(|field: LinkField| field_text(field));
    let uri = link_of(fields);
    reveal_strlit("magnet:?");
    assert(uri.take(8) =~= "magnet:?"@);
    assert(uri.skip(8) =~= joined_by(parts, '&'));
    assert forall|i: int| 0 <= i < parts.len() implies !has_char(#[trigger] parts[i], '&') by {
        assert(fits_link(fields[i]));
        lemma_field(fields[i]);
    }
    joined_parts_are_split(parts, '&');
    assert(is_magnet_uri(uri));
    assert(uri_parts(uri) == parts);
    let n = fields.len() as int;
    lemma_read(fields, parts, n);
    assert(fields.take(n) =~= fields);
    assert forall|i: int|
        0 <= i < parts.len() && after_parts(parts, i) is Ok implies part_can_be_cut(
        #[trigger] parts[i],
    ) by {
        assert(fits_link(fields[i]));
        lemma_field(fields[i]);
    }
    if exists|t: int| 0 <= t < fields.len() && (#[trigger] fields[t]) is Topic {
        lemma_last_topic(fields);
    }
}

proof fn lemma_last_topic(fields: Seq<LinkField>)
    requires
        exists|t: int| 0 <= t < fields.len() && (#[trigger] fields[t]) is Topic,
    ensures
        exists|t: int|
            0 <= t < fields.len() && (#[trigger] fields[t]) is Topic && (forall|i: int|
                t < i < fields.len() ==> !((#[trigger] fields[i]) is Topic)),
    decreases fields.len(),
{
    let last = fields.len() - 1;
    if fields[last] is Topic {
    } else {
        let head = fields.drop_last();
        let t = choose|t: int| 0 <= t < fields.len() && (#[trigger] fields[t]) is Topic;
        assert(head[t] is Topic);
        lemma_last_topic(head);
        let u = choose|u: int|
            0 <= u < head.len() && (#[trigger] head[u]) is Topic && (forall|i: int|
                u < i < head.len() ==> !((#[trigger] head[i]) is Topic));
        assert(fields[u] is Topic);
        assert forall|i: int| u < i < fields.len() implies !((#[trigger] fields[i]) is Topic) by {
            if i < last {
                assert(head[i] == fields[i]);
            }
        }
    }
}

} // verus!
