//! Magnet links: what a torrent can be found by, without its metainfo file.

use vstd::prelude::*;
use vstd::slice::slice_subrange;
use vstd::utf8::{
    encode_utf8, encode_utf8_valid_utf8, is_ascii_chars_encode_utf8, is_char_boundary,
    is_char_boundary_iff_not_is_continuation_byte, is_char_boundary_start_end_of_seq,
};

use crate::error::{bterror, bterror_with, BitTorrentError};
use crate::text::{
    array_error_text, array_of_20, chars_are, chars_of, chars_start_with, copy_some_text,
    copy_texts, find_char, lemma_ascii, lemma_find_char, position_of_char, some_text, split_chars,
    split_once_text, split_text, string_of_chars, texts,
};
use crate::util::{
    hex_decoded, hex_digit_value, hex_error_text, hex_text, hex_text_reads_back, hex_to_bytes,
};

pub mod laws;

verus! {

/// The fields of a magnet link.
#[derive(Debug)]
pub struct Magnet {
    /// The info hash.
    pub xt: [u8; 20],
    /// The name to show.
    pub dn: Option<String>,
    /// The trackers.
    pub tr: Vec<String>,
    /// The addresses of peers.
    pub xpe: Vec<String>,
}

/// What a magnet link says.
pub struct MagnetView {
    pub xt: Seq<u8>,
    pub dn: Option<Seq<char>>,
    pub tr: Seq<Seq<char>>,
    pub xpe: Seq<Seq<char>>,
}

impl View for Magnet {
    type V = MagnetView;

    open spec fn view(&self) -> MagnetView {
        MagnetView {
            xt: self.xt@,
            dn: some_text(self.dn),
            tr: texts(self.tr@),
            xpe: texts(self.xpe@),
        }
    }
}

impl Clone for Magnet {
    fn clone(&self) -> (copy: Self)
        ensures
            copy@ == self@,
    {
        Magnet {
            xt: self.xt,
            dn: copy_some_text(&self.dn),
            tr: copy_texts(&self.tr),
            xpe: copy_texts(&self.xpe),
        }
    }
}

/// The digest that a multihash of at most twenty bytes carries, or what the
/// `multihash` crate says about bytes that are none.
pub uninterp spec fn multihash_digest(bytes: Seq<u8>) -> Result<Seq<u8>, Seq<char>>;

/// `Multihash::<20>::from_bytes` followed by `digest`. Where the code of the hash
/// function fits one byte of a variable-length integer and the second byte announces
/// exactly the bytes that follow, at most twenty, the digest is those bytes.
#[verifier::external_body]
fn digest_of_multihash(bytes: &[u8]) -> (result: Result<Vec<u8>, String>)
    ensures
        match result {
            Ok(digest) => multihash_digest(bytes@) == Ok::<Seq<u8>, Seq<char>>(digest@)
                && digest@.len() <= 20,
            Err(complaint) => multihash_digest(bytes@) == Err::<Seq<u8>, Seq<char>>(complaint@),
        },
        bytes@.len() >= 2 && bytes@[0] < 128 && bytes@[1] <= 20 && bytes@.len() == 2 + bytes@[1]
            ==> result is Ok && result->Ok_0@ == bytes@.skip(2),
{
    multihash::Multihash::<20>::from_bytes(bytes)
        .map(|hash| hash.digest().to_vec())
        .map_err(|error| error.to_string())
}

/// The info hash that the value of an `xt` field names.
pub open spec fn exact_topic(value: Seq<char>) -> Result<Seq<u8>, Seq<char>> {
    if value.len() >= 9 && value.take(9) == "urn:btih:"@ {
        match hex_decoded(value.skip(9)) {
            Some(hash) => if hash.len() == 20 {
                Ok(hash)
            } else {
                Err("Could not decode info hash"@)
            },
            None => Err(hex_error_text(value.skip(9))),
        }
    } else if value.len() >= 9 && value.take(9) == "urn:btmh:"@ {
        match multihash_digest(encode_utf8(value.skip(9))) {
            Ok(digest) => if digest.len() == 20 {
                Ok(digest)
            } else {
                Err(array_error_text(digest.len()))
            },
            Err(complaint) => Err(complaint),
        }
    } else {
        Err("Invalid xt"@)
    }
}

/// The fields of a magnet link as far as they have been read.
pub struct PartialMagnet {
    pub xt: Option<Seq<u8>>,
    pub dn: Option<Seq<char>>,
    pub tr: Seq<Seq<char>>,
    pub xpe: Seq<Seq<char>>,
}

/// The fields after one more part of the link. A part without `=` is passed over.
pub open spec fn with_part(fields: PartialMagnet, part: Seq<char>) -> Result<
    PartialMagnet,
    Seq<char>,
> {
    match split_once_text(part, '=') {
        Some((key, value)) => if key == "xt"@ {
            match exact_topic(value) {
                Ok(hash) => Ok(PartialMagnet { xt: Some(hash), ..fields }),
                Err(complaint) => Err(complaint),
            }
        } else if key == "dn"@ {
            Ok(PartialMagnet { dn: Some(value), ..fields })
        } else if key == "tr"@ {
            Ok(PartialMagnet { tr: fields.tr.push(value), ..fields })
        } else if key == "x.pe"@ {
            Ok(PartialMagnet { xpe: fields.xpe.push(value), ..fields })
        } else {
            Err("Unknown key in magnet uri: "@ + key)
        },
        None => Ok(fields),
    }
}

/// The fields after the first `n` parts of the link.
pub open spec fn after_parts(parts: Seq<Seq<char>>, n: int) -> Result<PartialMagnet, Seq<char>>
    decreases n,
{
    if n <= 0 {
        Ok(PartialMagnet { xt: None, dn: None, tr: seq![], xpe: seq![] })
    } else {
        match after_parts(parts, n - 1) {
            Ok(fields) => with_part(fields, parts[n - 1]),
            Err(complaint) => Err(complaint),
        }
    }
}

pub open spec fn is_magnet_uri(uri: Seq<char>) -> bool {
    uri.len() >= "magnet:?"@.len() && uri.take("magnet:?"@.len() as int) == "magnet:?"@
}

/// The parts of a magnet link, which `&` separates.
pub open spec fn uri_parts(uri: Seq<char>) -> Seq<Seq<char>> {
    split_text(uri.skip("magnet:?"@.len() as int), '&')
}

/// What a magnet link says.
pub open spec fn magnet_of_uri(uri: Seq<char>) -> Result<MagnetView, Seq<char>> {
    if !is_magnet_uri(uri) {
        Err("Invalid magnet uri"@)
    } else {
        match after_parts(uri_parts(uri), uri_parts(uri).len() as int) {
            Ok(fields) => match fields.xt {
                Some(xt) => Ok(
                    MagnetView { xt, dn: fields.dn, tr: fields.tr, xpe: fields.xpe },
                ),
                None => Err("Missing xt"@),
            },
            Err(complaint) => Err(complaint),
        }
    }
}

/// Whether the scheme of a topic can be cut off the part, if it is an `xt` field.
pub open spec fn part_can_be_cut(part: Seq<char>) -> bool {
    match split_once_text(part, '=') {
        Some((key, value)) => key == "xt"@ ==> is_char_boundary(encode_utf8(value), 9),
        None => true,
    }
}

/// Whether every `xt` field that is reached is long enough to hold a scheme.
pub open spec fn uri_can_be_cut(uri: Seq<char>) -> bool {
    is_magnet_uri(uri) ==> forall|n: int|
        0 <= n < uri_parts(uri).len() && after_parts(uri_parts(uri), n) is Ok
            ==> part_can_be_cut(#[trigger] uri_parts(uri)[n])
}

/// The info hash that the value of an `xt` field names.
fn read_exact_topic(value: &[char]) -> (result: Result<[u8; 20], BitTorrentError>)
    ensures
        match result {
            Ok(hash) => exact_topic(value@) == Ok::<Seq<u8>, Seq<char>>(hash@),
            Err(error) => exact_topic(value@) == Err::<Seq<u8>, Seq<char>>(error@),
        },
{
    proof {
        reveal_strlit("urn:btih:");
        reveal_strlit("urn:btmh:");
    }
    if chars_start_with(value, "urn:btih:") {
        let digits = slice_subrange(value, 9, value.len());
        assert(digits@ =~= value@.skip(9));
        match hex_to_bytes(string_of_chars(digits).as_str()) {
            Ok(bytes) => match array_of_20(bytes.as_slice()) {
                Ok(hash) => Ok(hash),
                Err(_) => Err(bterror("Could not decode info hash")),
            },
            Err(error) => Err(error),
        }
    } else if chars_start_with(value, "urn:btmh:") {
        let raw = slice_subrange(value, 9, value.len());
        assert(raw@ =~= value@.skip(9));
        match digest_of_multihash(string_of_chars(raw).as_str().as_bytes()) {
            Ok(digest) => match array_of_20(digest.as_slice()) {
                Ok(hash) => Ok(hash),
                Err(complaint) => Err(BitTorrentError::new(complaint)),
            },
            Err(complaint) => Err(BitTorrentError::new(complaint)),
        }
    } else {
        Err(bterror("Invalid xt"))
    }
}

/// The fields of a magnet link while they are read.
struct Fields {
    xt: Option<[u8; 20]>,
    dn: Option<String>,
    tr: Vec<String>,
    xpe: Vec<String>,
}

impl Fields {
    spec fn partial(self) -> PartialMagnet {
        PartialMagnet {
            xt: match self.xt {
                Some(hash) => Some(hash@),
                None => None,
            },
            dn: some_text(self.dn),
            tr: texts(self.tr@),
            xpe: texts(self.xpe@),
        }
    }

    fn read_part(&mut self, part: &[char]) -> (result: Result<(), BitTorrentError>)
        ensures
            match result {
                Ok(_) => with_part(old(self).partial(), part@) == Ok::<PartialMagnet, Seq<char>>(
                    final(self).partial(),
                ),
                Err(error) => with_part(old(self).partial(), part@) == Err::<
                    PartialMagnet,
                    Seq<char>,
                >(error@),
            },
    {
        let at: usize = match position_of_char(part, '=') {
            Some(at) => at,
            None => {
                return Ok(());
            },
        };
        let n: usize = part.len();
        let key = slice_subrange(part, 0, at);
        let value = slice_subrange(part, at + 1, n);
        assert(key@ =~= part@.take(at as int));
        assert(value@ =~= part@.skip(at + 1));
        if chars_are(key, "xt") {
            match read_exact_topic(value) {
                Ok(hash) => {
                    self.xt = Some(hash);
                },
                Err(error) => {
                    return Err(error);
                },
            }
        } else if chars_are(key, "dn") {
            self.dn = Some(string_of_chars(value));
        } else if chars_are(key, "tr") {
            self.tr.push(string_of_chars(value));
            assert(texts(self.tr@) =~= texts(old(self).tr@).push(value@));
        } else if chars_are(key, "x.pe") {
            self.xpe.push(string_of_chars(value));
            assert(texts(self.xpe@) =~= texts(old(self).xpe@).push(value@));
        } else {
            return Err(bterror_with("Unknown key in magnet uri: ", string_of_chars(key).as_str()));
        }
        Ok(())
    }
}

/// Whether the scheme of a topic can be cut off the part, if it is an `xt` field.
fn can_cut_part(part: &[char]) -> (can: bool)
    ensures
        can == part_can_be_cut(part@),
{
    match position_of_char(part, '=') {
        Some(at) => {
            let n: usize = part.len();
            let key = slice_subrange(part, 0, at);
            let value = slice_subrange(part, at + 1, n);
            assert(key@ =~= part@.take(at as int));
            assert(value@ =~= part@.skip(at + 1));
            !chars_are(key, "xt") || string_of_chars(value).as_str().is_char_boundary(9)
        },
        None => true,
    }
}

impl Magnet {
    /// What a link says, or nothing if the scheme cannot be cut off a topic.
    fn read(uri: &str) -> (result: Option<Result<Self, BitTorrentError>>)
        ensures
            result is Some == uri_can_be_cut(uri@),
            match result {
                Some(Ok(magnet)) => magnet_of_uri(uri@) == Ok::<MagnetView, Seq<char>>(magnet@),
                Some(Err(error)) => magnet_of_uri(uri@) == Err::<MagnetView, Seq<char>>(error@),
                None => true,
            },
    {
        proof {
            reveal_strlit("magnet:?");
        }
        let chars = chars_of(uri);
        if !chars_start_with(chars.as_slice(), "magnet:?") {
            return Some(Err(bterror("Invalid magnet uri")));
        }
        let tail = slice_subrange(chars.as_slice(), 8, chars.len());
        assert(tail@ =~= uri@.skip(8));
        let parts = split_chars(tail, '&');
        let ghost all = uri_parts(uri@);
        let mut fields = Fields { xt: None, dn: None, tr: Vec::new(), xpe: Vec::new() };
        assert(fields.partial().tr =~= seq![]);
        assert(fields.partial().xpe =~= seq![]);
        let mut i: usize = 0;
        while i < parts.len()
            invariant
                0 <= i <= parts.len(),
                is_magnet_uri(uri@),
                all == uri_parts(uri@),
                parts@.len() == all.len(),
                forall|j: int| 0 <= j < parts@.len() ==> (#[trigger] parts@[j])@ == all[j],
                after_parts(all, i as int) == Ok::<PartialMagnet, Seq<char>>(fields.partial()),
                forall|j: int| 0 <= j < i ==> part_can_be_cut(#[trigger] all[j]),
            decreases parts.len() - i,
        {
            let part = parts[i].as_slice();
            assert(part@ == all[i as int]);
            if !can_cut_part(part) {
                return None;
            }
            assert(after_parts(all, i + 1) == with_part(fields.partial(), all[i as int]));
            match fields.read_part(part) {
                Ok(_) => {},
                Err(error) => {
                    proof {
                        lemma_error_stays(all, i + 1, all.len() as int);
                        assert forall|n: int|
                            0 <= n < all.len() && after_parts(all, n)
                                is Ok implies part_can_be_cut(#[trigger] all[n]) by {
                            if n > i {
                                lemma_error_stays(all, i + 1, n);
                            }
                        }
                    }
                    return Some(Err(error));
                },
            }
            i = i + 1;
        }
        match fields.xt {
            Some(xt) => Some(Ok(Magnet { xt, dn: fields.dn, tr: fields.tr, xpe: fields.xpe })),
            None => Some(Err(bterror("Missing xt"))),
        }
    }

    /// Read a magnet link.
    pub fn from_uri(uri: String) -> (result: Result<Self, BitTorrentError>)
        requires
            uri_can_be_cut(uri@),
        ensures
            match result {
                Ok(magnet) => magnet_of_uri(uri@) == Ok::<MagnetView, Seq<char>>(magnet@),
                Err(error) => magnet_of_uri(uri@) == Err::<MagnetView, Seq<char>>(error@),
            },
    {
        match Self::read(uri.as_str()) {
            Some(result) => result,
            None => Err(bterror("Invalid xt")),
        }
    }

    /// Read a magnet link, if each topic in it is long enough to hold a scheme.
    pub fn try_from_uri(uri: String) -> (result: Option<Result<Self, BitTorrentError>>)
        ensures
            result is Some == uri_can_be_cut(uri@),
            match result {
                Some(Ok(magnet)) => magnet_of_uri(uri@) == Ok::<MagnetView, Seq<char>>(magnet@),
                Some(Err(error)) => magnet_of_uri(uri@) == Err::<MagnetView, Seq<char>>(error@),
                None => true,
            },
    {
        if Self::read(uri.as_str()).is_some() {
            Some(Self::from_uri(uri))
        } else {
            None
        }
    }
}

proof fn lemma_error_stays(parts: Seq<Seq<char>>, n: int, m: int)
    requires
        0 <= n <= m,
        after_parts(parts, n) is Err,
    ensures
        after_parts(parts, m) == after_parts(parts, n),
    decreases m,
{
    if n < m {
        lemma_error_stays(parts, n, m - 1);
    }
}

/// A link that gives nothing but an info hash in hexadecimal digits says that hash.
pub proof fn hash_link_reads_back(hash: Seq<u8>)
    requires
        hash.len() == 20,
    ensures
        ({
            let uri = "magnet:?xt=urn:btih:"@ + hex_text(hash);
            &&& uri_can_be_cut(uri)
            &&& magnet_of_uri(uri) == Ok::<MagnetView, Seq<char>>(
                MagnetView { xt: hash, dn: None, tr: seq![], xpe: seq![] },
            )
        }),
{
    let digits = hex_text(hash);
    let uri = "magnet:?xt=urn:btih:"@ + digits;
    let part = uri.skip(8);
    let value = part.skip(3);
    reveal_strlit("magnet:?xt=urn:btih:");
    reveal_strlit("magnet:?");
    reveal_strlit("urn:btih:");
    reveal_strlit("xt");
    hex_text_reads_back(hash);
    assert(uri.take(8) =~= "magnet:?"@);
    assert forall|i: int| 0 <= i < digits.len() implies hex_digit_value(
        #[trigger] digits[i],
    ) is Some by {}
    assert forall|i: int| 0 <= i < part.len() implies part[i] != '&' && '\0' <= part[i] <= '\u{7f}' by {
        if i >= 12 {
            assert(part[i] == digits[i - 12]);
            assert(hex_digit_value(digits[i - 12]) is Some);
        }
    }
    lemma_find_char(part, '&');
    assert(find_char(part, '&') is None);
    assert(uri_parts(uri) =~= seq![part]);
    lemma_find_char(part, '=');
    assert(part[2] == '=');
    assert(find_char(part, '=') == Some(2int));
    assert(part.take(2) =~= "xt"@);
    assert(value.take(9) =~= "urn:btih:"@);
    assert(value.skip(9) =~= digits);
    assert(vstd::utf8::is_ascii_chars(value)) by {
        lemma_ascii(value);
    }
    is_ascii_chars_encode_utf8(value);
    encode_utf8_valid_utf8(value);
    let bytes = encode_utf8(value);
    if bytes.len() == 9 {
        is_char_boundary_start_end_of_seq(bytes);
    } else {
        is_char_boundary_iff_not_is_continuation_byte(bytes, 9);
    }
    reveal_with_fuel(after_parts, 2);
    assert(with_part(PartialMagnet { xt: None, dn: None, tr: seq![], xpe: seq![] }, part) == Ok::<
        PartialMagnet,
        Seq<char>,
    >(PartialMagnet { xt: Some(hash), dn: None, tr: seq![], xpe: seq![] }));
}

} // verus!
