//! The metainfo of a torrent: its trackers, its files and the hashes of its pieces.

use vstd::prelude::*;
use vstd::slice::slice_subrange;
use vstd::utf8::encode_utf8;

use crate::bencode::{
    dict, dict_view, encoded, entry, entry_of, entry_views, ingested, list_value, list_view, Benc,
    BencodedValue, Dict, Number,
};
use crate::bytes::{escaped, Bytes};
use crate::error::{bterror, bterror_with, outcome, BitTorrentError};
use crate::keymap::dict_of;
use crate::text::{array_of_20, copy_texts, texts, usize_of_i64, usize_range_text};
use crate::util::{sha1, sha1_hash};

pub mod dictionary;
pub mod laws;

verus! {

#[derive(Debug)]
pub struct MetaInfo {
    pub announce_list: Vec<String>,
    pub info: Info,
}

#[derive(Debug)]
pub struct Info {
    pub name: String,
    pub piece_length: usize,
    /// The hashes of the pieces.
    pub pieces: Vec<[u8; 20]>,
    pub file_info: FileInfo,
}

#[derive(Debug)]
pub enum FileInfo {
    Length(usize),
    Files(Vec<File>),
}

#[derive(Debug)]
pub struct File {
    pub length: usize,
    pub path: Vec<String>,
}

/// What a `MetaInfo` says.
pub struct MetaInfoView {
    pub announce_list: Seq<Seq<char>>,
    pub info: InfoView,
}

/// What an `Info` says.
pub struct InfoView {
    pub name: Seq<char>,
    pub piece_length: int,
    pub pieces: Seq<Seq<u8>>,
    pub file_info: FileInfoView,
}

/// What a `FileInfo` says.
pub enum FileInfoView {
    Length(int),
    Files(Seq<FileView>),
}

/// What a `File` says.
pub struct FileView {
    pub length: int,
    pub path: Seq<Seq<char>>,
}

/// Hashes as sequences of bytes.
pub open spec fn hashes(pieces: Seq<[u8; 20]>) -> Seq<Seq<u8>> {
    pieces.map_values(|hash: [u8; 20]| hash@)
}

impl View for File {
    type V = FileView;

    open spec fn view(&self) -> FileView {
        FileView { length: self.length as int, path: texts(self.path@) }
    }
}

impl View for FileInfo {
    type V = FileInfoView;

    open spec fn view(&self) -> FileInfoView {
        match self {
            FileInfo::Length(length) => FileInfoView::Length(*length as int),
            FileInfo::Files(files) => FileInfoView::Files(files@.map_values(|file: File| file@)),
        }
    }
}

impl View for Info {
    type V = InfoView;

    open spec fn view(&self) -> InfoView {
        InfoView {
            name: self.name@,
            piece_length: self.piece_length as int,
            pieces: hashes(self.pieces@),
            file_info: self.file_info@,
        }
    }
}

impl View for MetaInfo {
    type V = MetaInfoView;

    open spec fn view(&self) -> MetaInfoView {
        MetaInfoView { announce_list: texts(self.announce_list@), info: self.info@ }
    }
}

impl Clone for File {
    fn clone(&self) -> (copy: Self)
        ensures
            copy@ == self@,
    {
        File { length: self.length, path: copy_texts(&self.path) }
    }
}

impl Clone for FileInfo {
    fn clone(&self) -> (copy: Self)
        ensures
            copy@ == self@,
    {
        match self {
            FileInfo::Length(length) => FileInfo::Length(*length),
            FileInfo::Files(files) => {
                let mut copies: Vec<File> = Vec::new();
                let mut i: usize = 0;
                while i < files.len()
                    invariant
                        0 <= i <= files.len(),
                        copies@.len() == i,
                        forall|j: int| 0 <= j < i ==> (#[trigger] copies@[j])@ == files@[j]@,
                    decreases files.len() - i,
                {
                    copies.push(files[i].clone());
                    i = i + 1;
                }
                let copy = FileInfo::Files(copies);
                assert(copies@.map_values(|file: File| file@) =~= files@.map_values(
                    |file: File| file@,
                ));
                copy
            },
        }
    }
}

/// A copy of some hashes.
pub fn copy_hashes(pieces: &Vec<[u8; 20]>) -> (copy: Vec<[u8; 20]>)
    ensures
        copy@ == pieces@,
{
    let mut copy: Vec<[u8; 20]> = Vec::new();
    let mut i: usize = 0;
    while i < pieces.len()
        invariant
            0 <= i <= pieces.len(),
            copy@ == pieces@.take(i as int),
        decreases pieces.len() - i,
    {
        copy.push(pieces[i]);
        i = i + 1;
    }
    assert(pieces@.take(pieces@.len() as int) =~= pieces@);
    copy
}

impl Clone for Info {
    fn clone(&self) -> (copy: Self)
        ensures
            copy@ == self@,
    {
        Info {
            name: self.name.clone(),
            piece_length: self.piece_length,
            pieces: copy_hashes(&self.pieces),
            file_info: self.file_info.clone(),
        }
    }
}

impl Clone for MetaInfo {
    fn clone(&self) -> (copy: Self)
        ensures
            copy@ == self@,
    {
        MetaInfo { announce_list: copy_texts(&self.announce_list), info: self.info.clone() }
    }
}

/// A `usize` as the `Number` with the same bits.
pub open spec fn as_number(n: int) -> int {
    if n <= i64::MAX {
        n
    } else {
        n - 0x1_0000_0000_0000_0000
    }
}

/// A `Number` as the `usize` with the same low bits.
pub open spec fn as_usize(n: int) -> int {
    n % (usize::MAX + 1)
}

/// A `usize` as the `Number` with the same bits.
pub fn number_of(n: usize) -> (number: Number)
    ensures
        number == as_number(n as int),
{
    let wide: u64 = n as u64;
    if wide <= 0x7fff_ffff_ffff_ffffu64 {
        wide as i64
    } else {
        let below: i64 = (0xffff_ffff_ffff_ffffu64 - wide) as i64;
        -below - 1
    }
}

/// A `Number` as the `usize` with the same low bits.
pub fn usize_of(n: Number) -> (value: usize)
    ensures
        value == as_usize(n as int),
{
    let modulus: i128 = usize::MAX as i128 + 1;
    let wide: i128 = n as i128;
    if wide >= 0 {
        (wide % modulus) as usize
    } else {
        let low: i128 = (-(wide + 1)) % modulus;
        proof {
            let q = (-(wide + 1)) / modulus as int;
            let r = modulus - 1 - low;
            vstd::arithmetic::div_mod::lemma_fundamental_div_mod(-(wide + 1), modulus as int);
            assert(wide == modulus * (-q - 1) + r) by (nonlinear_arith)
                requires
                    -(wide + 1) == modulus * q + low,
                    r == modulus - 1 - low,
            ;
            vstd::arithmetic::div_mod::lemma_fundamental_div_mod_converse(
                wide as int,
                modulus as int,
                -q - 1,
                r,
            );
        }
        (modulus - 1 - low) as usize
    }
}

pub open spec fn bytes_in(value: Option<Benc>) -> Option<Seq<u8>> {
    match value {
        Some(Benc::Bytes(bytes)) => Some(bytes),
        _ => None,
    }
}

pub open spec fn int_in(value: Option<Benc>) -> Option<int> {
    match value {
        Some(Benc::Int(n)) => Some(n),
        _ => None,
    }
}

pub open spec fn list_in(value: Option<Benc>) -> Option<Seq<Benc>> {
    match value {
        Some(Benc::List(items)) => Some(items),
        _ => None,
    }
}

pub open spec fn dict_in(value: Option<Benc>) -> Option<Seq<(Seq<u8>, Benc)>> {
    match value {
        Some(Benc::Dict(pairs)) => Some(pairs),
        _ => None,
    }
}

/// The byte string under a key.
pub fn bytes_entry<'a>(dict: &'a Dict, key: &str) -> (bytes: Option<&'a Bytes>)
    ensures
        match bytes {
            Some(bytes) => bytes_in(entry(dict_view(*dict), key@)) == Some(bytes@),
            None => bytes_in(entry(dict_view(*dict), key@)) is None,
        },
{
    match entry_of(dict, key) {
        Some(value) => value.as_bytes(),
        None => None,
    }
}

/// The integer under a key.
pub fn int_entry(dict: &Dict, key: &str) -> (n: Option<Number>)
    ensures
        match n {
            Some(n) => int_in(entry(dict_view(*dict), key@)) == Some(n as int),
            None => int_in(entry(dict_view(*dict), key@)) is None,
        },
{
    match entry_of(dict, key) {
        Some(value) => match value.as_int() {
            Some(n) => Some(*n),
            None => None,
        },
        None => None,
    }
}

/// The list under a key.
pub fn list_entry<'a>(dict: &'a Dict, key: &str) -> (items: Option<&'a Vec<BencodedValue>>)
    ensures
        match items {
            Some(items) => list_in(entry(dict_view(*dict), key@)) == Some(list_view(items@)),
            None => list_in(entry(dict_view(*dict), key@)) is None,
        },
{
    match entry_of(dict, key) {
        Some(value) => value.as_list(),
        None => None,
    }
}

/// The dictionary under a key.
pub fn dict_entry<'a>(dict: &'a Dict, key: &str) -> (inner: Option<&'a Dict>)
    ensures
        match inner {
            Some(inner) => dict_in(entry(dict_view(*dict), key@)) == Some(dict_view(*inner)),
            None => dict_in(entry(dict_view(*dict), key@)) is None,
        },
{
    match entry_of(dict, key) {
        Some(value) => value.as_dict(),
        None => None,
    }
}

/// The byte strings of a list, as they are shown; its other items are passed over.
pub open spec fn byte_strings(items: Seq<Benc>) -> Seq<Seq<char>>
    decreases items.len(),
{
    if items.len() == 0 {
        seq![]
    } else {
        match items.last() {
            Benc::Bytes(bytes) => byte_strings(items.drop_last()).push(escaped(bytes)),
            _ => byte_strings(items.drop_last()),
        }
    }
}

/// Append the byte strings of a list, as they are shown.
fn push_byte_strings(out: &mut Vec<String>, items: &Vec<BencodedValue>)
    ensures
        texts(final(out)@) == texts(old(out)@) + byte_strings(list_view(items@)),
{
    let ghost views = list_view(items@);
    let mut i: usize = 0;
    assert(texts(out@) =~= texts(out@) + byte_strings(views.take(0)));
    while i < items.len()
        invariant
            0 <= i <= items.len(),
            views == list_view(items@),
            texts(out@) == texts(old(out)@) + byte_strings(views.take(i as int)),
        decreases items.len() - i,
    {
        let ghost before = out@;
        assert(views[i as int] == items@[i as int]@);
        assert(views.take(i + 1).drop_last() =~= views.take(i as int));
        if let Some(bytes) = items[i].as_bytes() {
            out.push(bytes.to_string());
            assert(texts(out@) =~= texts(before).push(escaped(bytes@)));
        }
        i = i + 1;
        assert(texts(out@) =~= texts(old(out)@) + byte_strings(views.take(i as int)));
    }
    assert(views.take(i as int) =~= views);
}

/// The byte strings of the lists in a list; its other items are passed over.
pub open spec fn nested_byte_strings(items: Seq<Benc>) -> Seq<Seq<char>>
    decreases items.len(),
{
    if items.len() == 0 {
        seq![]
    } else {
        match items.last() {
            Benc::List(inner) => nested_byte_strings(items.drop_last()) + byte_strings(inner),
            _ => nested_byte_strings(items.drop_last()),
        }
    }
}

/// The trackers that a metainfo dictionary names: the one under `announce` first.
pub open spec fn announce_list_of(pairs: Seq<(Seq<u8>, Benc)>) -> Seq<Seq<char>> {
    let first = match bytes_in(entry(pairs, "announce"@)) {
        Some(bytes) => seq![escaped(bytes)],
        None => seq![],
    };
    match list_in(entry(pairs, "announce-list"@)) {
        Some(items) => first + nested_byte_strings(items),
        None => first,
    }
}

fn read_announce_list(dict: &Dict) -> (list: Vec<String>)
    ensures
        texts(list@) == announce_list_of(dict_view(*dict)),
{
    let mut out: Vec<String> = Vec::new();
    if let Some(bytes) = bytes_entry(dict, "announce") {
        out.push(bytes.to_string());
        assert(texts(out@) =~= seq![escaped(bytes@)]);
    } else {
        assert(texts(out@) =~= seq![]);
    }
    let ghost first = texts(out@);
    if let Some(items) = list_entry(dict, "announce-list") {
        let ghost views = list_view(items@);
        let mut i: usize = 0;
        assert(first =~= first + nested_byte_strings(views.take(0)));
        while i < items.len()
            invariant
                0 <= i <= items.len(),
                views == list_view(items@),
                texts(out@) == first + nested_byte_strings(views.take(i as int)),
            decreases items.len() - i,
        {
            assert(views[i as int] == items@[i as int]@);
            assert(views.take(i + 1).drop_last() =~= views.take(i as int));
            if let Some(inner) = items[i].as_list() {
                push_byte_strings(&mut out, inner);
            }
            i = i + 1;
            assert(texts(out@) =~= first + nested_byte_strings(views.take(i as int)));
        }
        assert(views.take(i as int) =~= views);
    }
    out
}

/// The file that a dictionary describes.
pub open spec fn file_of(pairs: Seq<(Seq<u8>, Benc)>) -> Result<FileView, Seq<char>> {
    match int_in(entry(pairs, "length"@)) {
        Some(length) => match list_in(entry(pairs, "path"@)) {
            Some(items) => Ok(FileView { length: as_usize(length), path: byte_strings(items) }),
            None => Err("Missing path"@),
        },
        None => Err("Missing length"@),
    }
}

/// The files that the dictionaries of a list describe; its other items are passed
/// over, and the first dictionary that describes no file is an error.
pub open spec fn files_of(items: Seq<Benc>) -> Result<Seq<FileView>, Seq<char>>
    decreases items.len(),
{
    if items.len() == 0 {
        Ok(seq![])
    } else {
        match files_of(items.drop_last()) {
            Ok(files) => match items.last() {
                Benc::Dict(pairs) => match file_of(pairs) {
                    Ok(file) => Ok(files.push(file)),
                    Err(complaint) => Err(complaint),
                },
                _ => Ok(files),
            },
            Err(complaint) => Err(complaint),
        }
    }
}

/// The files that an info dictionary describes.
pub open spec fn file_info_of(pairs: Seq<(Seq<u8>, Benc)>) -> Result<FileInfoView, Seq<char>> {
    match int_in(entry(pairs, "length"@)) {
        Some(length) => Ok(FileInfoView::Length(as_usize(length))),
        None => match list_in(entry(pairs, "files"@)) {
            Some(items) => match files_of(items) {
                Ok(files) => Ok(FileInfoView::Files(files)),
                Err(complaint) => Err(complaint),
            },
            None => Err("Missing length or path field"@),
        },
    }
}

/// The hashes that bytes are made of; what is left over at the end is dropped.
pub open spec fn hashes_of(bytes: Seq<u8>) -> Seq<Seq<u8>> {
    Seq::new(bytes.len() / 20, |i: int| bytes.subrange(20 * i, 20 * i + 20))
}

/// What an info dictionary says.
pub open spec fn info_of(value: Benc) -> Result<InfoView, Seq<char>> {
    match value {
        Benc::Dict(pairs) => match bytes_in(entry(pairs, "name"@)) {
            None => Err("Missing name"@),
            Some(name) => match int_in(entry(pairs, "piece length"@)) {
                None => Err("Missing piece length"@),
                Some(piece_length) => if !(0 <= piece_length <= usize::MAX) {
                    Err(usize_range_text(piece_length))
                } else {
                    match bytes_in(entry(pairs, "pieces"@)) {
                        None => Err("Missing pieces"@),
                        Some(pieces) => match file_info_of(pairs) {
                            Err(complaint) => Err(complaint),
                            Ok(file_info) => Ok(
                                InfoView {
                                    name: escaped(name),
                                    piece_length,
                                    pieces: hashes_of(pieces),
                                    file_info,
                                },
                            ),
                        },
                    }
                },
            },
        },
        _ => Err("Invalid info"@),
    }
}

/// What a metainfo dictionary says.
pub open spec fn meta_info_of(value: Benc) -> Result<MetaInfoView, Seq<char>> {
    match value {
        Benc::Dict(pairs) => match entry(pairs, "info"@) {
            None => Err("Missing info"@),
            Some(info) => match info_of(info) {
                Err(complaint) => Err(complaint),
                Ok(info) => Ok(MetaInfoView { announce_list: announce_list_of(pairs), info }),
            },
        },
        _ => Err("Invalid meta info"@),
    }
}

/// The hashes that bytes are made of.
fn read_hashes(bytes: &[u8]) -> (pieces: Vec<[u8; 20]>)
    ensures
        hashes(pieces@) == hashes_of(bytes@),
{
    let mut out: Vec<[u8; 20]> = Vec::new();
    let len: usize = bytes.len();
    let n: usize = len / 20;
    let mut i: usize = 0;
    while i < n
        invariant
            0 <= i <= n,
            len == bytes@.len(),
            n == len / 20,
            out@.len() == i,
            forall|j: int|
                0 <= j < i ==> (#[trigger] out@[j])@ == bytes@.subrange(20 * j, 20 * j + 20),
        decreases n - i,
    {
        let chunk = slice_subrange(bytes, 20 * i, 20 * i + 20);
        match array_of_20(chunk) {
            Ok(hash) => {
                out.push(hash);
            },
            Err(_) => {
                assert(false);
            },
        }
        i = i + 1;
    }
    assert(hashes(out@) =~= hashes_of(bytes@));
    out
}

impl File {
    fn from_dict(dict: &Dict) -> (result: Result<Self, BitTorrentError>)
        ensures
            outcome(result) == file_of(dict_view(*dict)),
    {
        match int_entry(dict, "length") {
            Some(length) => match list_entry(dict, "path") {
                Some(items) => {
                    let mut path: Vec<String> = Vec::new();
                    push_byte_strings(&mut path, items);
                    assert(texts(path@) =~= byte_strings(list_view(items@)));
                    Ok(File { length: usize_of(length), path })
                },
                None => Err(bterror("Missing path")),
            },
            None => Err(bterror("Missing length")),
        }
    }
}

proof fn lemma_files_error_stays(items: Seq<Benc>, n: int, m: int)
    requires
        0 <= n <= m <= items.len(),
        files_of(items.take(n)) is Err,
    ensures
        files_of(items.take(m)) == files_of(items.take(n)),
    decreases m,
{
    if n < m {
        lemma_files_error_stays(items, n, m - 1);
        assert(items.take(m).drop_last() =~= items.take(m - 1));
    }
}

impl FileInfo {
    fn from_dict(dict: &Dict) -> (result: Result<Self, BitTorrentError>)
        ensures
            outcome(result) == file_info_of(dict_view(*dict)),
    {
        match int_entry(dict, "length") {
            Some(length) => {
                return Ok(FileInfo::Length(usize_of(length)));
            },
            None => {},
        }
        let items = match list_entry(dict, "files") {
            Some(items) => items,
            None => {
                return Err(bterror("Missing length or path field"));
            },
        };
        let ghost views = list_view(items@);
        let mut files: Vec<File> = Vec::new();
        let mut i: usize = 0;
        assert(files@.map_values(|file: File| file@) =~= seq![]);
        assert(views.take(0) =~= seq![]);
        while i < items.len()
            invariant
                0 <= i <= items.len(),
                views == list_view(items@),
                int_in(entry(dict_view(*dict), "length"@)) is None,
                list_in(entry(dict_view(*dict), "files"@)) == Some(views),
                files_of(views.take(i as int)) == Ok::<Seq<FileView>, Seq<char>>(
                    files@.map_values(|file: File| file@),
                ),
            decreases items.len() - i,
        {
            assert(views[i as int] == items@[i as int]@);
            assert(views.take(i + 1).drop_last() =~= views.take(i as int));
            assert(views.take(i + 1).last() == views[i as int]);
            let ghost before = files@;
            if let Some(dict) = items[i].as_dict() {
                match File::from_dict(dict) {
                    Ok(file) => {
                        files.push(file);
                        assert(files@.map_values(|file: File| file@) =~= before.map_values(
                            |file: File| file@,
                        ).push(file@));
                    },
                    Err(error) => {
                        proof {
                            lemma_files_error_stays(views, i + 1, views.len() as int);
                            assert(views.take(views.len() as int) =~= views);
                        }
                        return Err(error);
                    },
                }
            }
            i = i + 1;
        }
        assert(views.take(i as int) =~= views);
        Ok(FileInfo::Files(files))
    }
}

impl Info {
    /// Read an info dictionary.
    pub fn from_bencoded(value: &BencodedValue) -> (result: Result<Self, BitTorrentError>)
        ensures
            outcome(result) == info_of(value@),
    {
        let dict = match value.as_dict() {
            Some(dict) => dict,
            None => {
                return Err(bterror("Invalid info"));
            },
        };
        let name = match bytes_entry(dict, "name") {
            Some(name) => name.to_string(),
            None => {
                return Err(bterror("Missing name"));
            },
        };
        let piece_length: usize = match int_entry(dict, "piece length") {
            Some(piece_length) => match usize_of_i64(piece_length) {
                Ok(piece_length) => piece_length,
                Err(complaint) => {
                    return Err(BitTorrentError::new(complaint));
                },
            },
            None => {
                return Err(bterror("Missing piece length"));
            },
        };
        let pieces = match bytes_entry(dict, "pieces") {
            Some(pieces) => read_hashes(pieces.0.as_slice()),
            None => {
                return Err(bterror("Missing pieces"));
            },
        };
        match FileInfo::from_dict(dict) {
            Ok(file_info) => Ok(Info { name, piece_length, pieces, file_info }),
            Err(error) => Err(error),
        }
    }
}

impl MetaInfo {
    /// Read a metainfo dictionary.
    pub fn from_bencoded(value: &BencodedValue) -> (result: Result<Self, BitTorrentError>)
        ensures
            outcome(result) == meta_info_of(value@),
    {
        match value.as_dict() {
            Some(dict) => match entry_of(dict, "info") {
                Some(info) => match Info::from_bencoded(info) {
                    Ok(info) => Ok(MetaInfo { announce_list: read_announce_list(dict), info }),
                    Err(error) => Err(error),
                },
                None => Err(bterror("Missing info")),
            },
            None => Err(bterror("Invalid meta info")),
        }
    }
}

/// Texts as a bencoded list of byte strings.
pub open spec fn text_items(list: Seq<Seq<char>>) -> Seq<Benc> {
    list.map_values(|text: Seq<char>| Benc::Bytes(encode_utf8(text)))
}

/// Texts, each in a bencoded list of its own.
pub open spec fn text_lists(list: Seq<Seq<char>>) -> Seq<Benc> {
    list.map_values(|text: Seq<char>| Benc::List(seq![Benc::Bytes(encode_utf8(text))]))
}

/// The dictionary that describes a file.
pub open spec fn file_entries(file: FileView) -> Seq<(Seq<char>, Benc)> {
    seq![
        ("length"@, Benc::Int(as_number(file.length))),
        ("path"@, Benc::List(text_items(file.path))),
    ]
}

/// The files of a torrent as an entry of its info dictionary.
pub open spec fn file_info_entry(file_info: FileInfoView) -> (Seq<char>, Benc) {
    match file_info {
        FileInfoView::Length(length) => ("length"@, Benc::Int(as_number(length))),
        FileInfoView::Files(files) => (
            "files"@,
            Benc::List(files.map_values(|file: FileView| Benc::Dict(dict_of(file_entries(file))))),
        ),
    }
}

/// The entries of an info dictionary.
pub open spec fn info_entries(info: InfoView) -> Seq<(Seq<char>, Benc)> {
    seq![
        ("name"@, Benc::Bytes(encode_utf8(info.name))),
        ("pieces"@, Benc::Bytes(info.pieces.flatten())),
        ("piece length"@, Benc::Int(as_number(info.piece_length))),
        file_info_entry(info.file_info),
    ]
}

/// The info dictionary of a torrent.
pub open spec fn info_benc(info: InfoView) -> Benc {
    Benc::Dict(dict_of(info_entries(info)))
}

/// The entries of a metainfo dictionary.
pub open spec fn meta_info_entries(meta_info: MetaInfoView) -> Seq<(Seq<char>, Benc)> {
    let list = meta_info.announce_list;
    seq![
        (
            "announce"@,
            if list.len() == 0 {
                Benc::Null
            } else {
                Benc::Bytes(encode_utf8(list[0]))
            },
        ),
        (
            "announce-list"@,
            if list.len() == 0 {
                Benc::Null
            } else {
                Benc::List(text_lists(list.skip(1)))
            },
        ),
        ("info"@, info_benc(meta_info.info)),
    ]
}

/// The metainfo dictionary of a torrent.
pub open spec fn meta_info_benc(meta_info: MetaInfoView) -> Benc {
    Benc::Dict(dict_of(meta_info_entries(meta_info)))
}

/// Hashes one after the other.
fn flatten_hashes(pieces: &Vec<[u8; 20]>) -> (bytes: Vec<u8>)
    ensures
        bytes@ == hashes(pieces@).flatten(),
{
    let mut out: Vec<u8> = Vec::new();
    let ghost all = hashes(pieces@);
    let mut i: usize = 0;
    assert(all.take(0).flatten() =~= seq![]);
    while i < pieces.len()
        invariant
            0 <= i <= pieces.len(),
            all == hashes(pieces@),
            out@ == all.take(i as int).flatten(),
        decreases pieces.len() - i,
    {
        out.extend_from_slice(pieces[i].as_slice());
        proof {
            assert(all.take(i + 1).drop_last() =~= all.take(i as int));
            all.take(i + 1).lemma_flatten_and_flatten_alt_are_equivalent();
            all.take(i as int).lemma_flatten_and_flatten_alt_are_equivalent();
        }
        i = i + 1;
    }
    assert(all.take(i as int) =~= all);
    out
}

/// Texts as a bencoded list of byte strings.
fn text_list(list: &Vec<String>) -> (value: BencodedValue)
    ensures
        value@ == Benc::List(text_items(texts(list@))),
{
    let mut out: Vec<BencodedValue> = Vec::new();
    let mut i: usize = 0;
    while i < list.len()
        invariant
            0 <= i <= list.len(),
            out@.len() == i,
            forall|j: int|
                0 <= j < i ==> (#[trigger] out@[j])@ == Benc::Bytes(encode_utf8(list@[j]@)),
        decreases list.len() - i,
    {
        out.push(BencodedValue::Bytes(Bytes::from_text(list[i].as_str())));
        i = i + 1;
    }
    assert(list_view(out@) =~= text_items(texts(list@)));
    list_value(out)
}

impl Info {
    /// The info dictionary.
    pub fn to_bencoded(&self) -> (value: BencodedValue)
        ensures
            value@ == info_benc(self@),
    {
        let (key, files): (&str, BencodedValue) = match &self.file_info {
            FileInfo::Length(length) => ("length", BencodedValue::Int(number_of(*length))),
            FileInfo::Files(files) => {
                let mut out: Vec<BencodedValue> = Vec::new();
                let ghost views = files@.map_values(|file: File| file@);
                let mut i: usize = 0;
                while i < files.len()
                    invariant
                        0 <= i <= files.len(),
                        views == files@.map_values(|file: File| file@),
                        out@.len() == i,
                        forall|j: int|
                            0 <= j < i ==> (#[trigger] out@[j])@ == Benc::Dict(
                                dict_of(file_entries(views[j])),
                            ),
                    decreases files.len() - i,
                {
                    let entries = vec![
                        ("length", BencodedValue::Int(number_of(files[i].length))),
                        ("path", text_list(&files[i].path)),
                    ];
                    assert(entry_views(entries@) =~= file_entries(views[i as int]));
                    out.push(dict(entries));
                    i = i + 1;
                }
                assert(list_view(out@) =~= views.map_values(
                    |file: FileView| Benc::Dict(dict_of(file_entries(file))),
                ));
                ("files", list_value(out))
            },
        };
        let entries = vec![
            ("name", BencodedValue::Bytes(Bytes::from_text(self.name.as_str()))),
            ("pieces", BencodedValue::Bytes(Bytes(flatten_hashes(&self.pieces)))),
            ("piece length", BencodedValue::Int(number_of(self.piece_length))),
            (key, files),
        ];
        assert(entry_views(entries@) =~= info_entries(self@));
        dict(entries)
    }
}

impl MetaInfo {
    /// The metainfo dictionary.
    pub fn to_bencoded(&self) -> (value: BencodedValue)
        ensures
            value@ == meta_info_benc(self@),
    {
        let list = &self.announce_list;
        let mut announce = BencodedValue::Null;
        let mut announce_list = BencodedValue::Null;
        if list.len() > 0 {
            announce = BencodedValue::Bytes(Bytes::from_text(list[0].as_str()));
            let mut out: Vec<BencodedValue> = Vec::new();
            let mut i: usize = 1;
            while i < list.len()
                invariant
                    1 <= i <= list.len(),
                    out@.len() == i - 1,
                    forall|j: int|
                        0 <= j < i - 1 ==> (#[trigger] out@[j])@ == Benc::List(
                            seq![Benc::Bytes(encode_utf8(list@[j + 1]@))],
                        ),
                decreases list.len() - i,
            {
                let one = vec![BencodedValue::Bytes(Bytes::from_text(list[i].as_str()))];
                assert(list_view(one@) =~= seq![Benc::Bytes(encode_utf8(list@[i as int]@))]);
                out.push(list_value(one));
                i = i + 1;
            }
            assert(list_view(out@) =~= text_lists(texts(list@).skip(1)));
            announce_list = list_value(out);
        }
        let entries = vec![
            ("announce", announce),
            ("announce-list", announce_list),
            ("info", self.info.to_bencoded()),
        ];
        assert(entry_views(entries@) =~= meta_info_entries(self@));
        dict(entries)
    }

    /// Read the metainfo file into a `MetaInfo` result, given what reading its bytes
    /// came to.
    pub fn from_file(read: Result<Vec<u8>, BitTorrentError>) -> (result: Result<
        Self,
        BitTorrentError,
    >)
        ensures
            outcome(result) == match read {
                Ok(content) => match ingested(content@).0 {
                    Ok(value) => meta_info_of(value),
                    Err(complaint) => Err(complaint),
                },
                Err(error) => Err("Error reading file: "@ + error@),
            },
    {
        match read {
            Ok(content) => {
                let mut rest: &[u8] = content.as_slice();
                match BencodedValue::ingest(&mut rest) {
                    Ok(value) => MetaInfo::from_bencoded(&value),
                    Err(error) => Err(error),
                }
            },
            Err(error) => Err(bterror_with("Error reading file: ", error.details().as_str())),
        }
    }

    /// Compute the SHA1 hash of the info dictionary.
    pub fn info_hash(&self) -> (result: Result<[u8; 20], BitTorrentError>)
        ensures
            result is Ok,
            result->Ok_0@ == sha1(encoded(info_benc(self@.info))),
    {
        match self.info.to_bencoded().encode() {
            Ok(bytes) => Ok(sha1_hash(bytes.as_slice())),
            Err(error) => Err(error),
        }
    }

    /// Compute total torrent length.
    pub fn length(&self) -> (length: usize)
        requires
            total_length(self@.info.file_info) <= usize::MAX,
        ensures
            length == total_length(self@.info.file_info),
    {
        match self.checked_length() {
            Some(length) => length,
            None => 0,
        }
    }

    /// Compute total torrent length, if it is in the range of `usize`.
    pub fn checked_length(&self) -> (length: Option<usize>)
        ensures
            match length {
                Some(length) => length == total_length(self@.info.file_info),
                None => total_length(self@.info.file_info) > usize::MAX,
            },
    {
        match &self.info.file_info {
            FileInfo::Length(length) => Some(*length),
            FileInfo::Files(files) => {
                let ghost views = files@.map_values(|file: File| file@);
                let mut sum: usize = 0;
                let mut i: usize = 0;
                assert(views.take(0) =~= seq![]);
                while i < files.len()
                    invariant
                        0 <= i <= files.len(),
                        views == files@.map_values(|file: File| file@),
                        sum == sum_of_lengths(views.take(i as int)),
                        self@.info.file_info == FileInfoView::Files(views),
                    decreases files.len() - i,
                {
                    assert(views.take(i + 1).drop_last() =~= views.take(i as int));
                    match sum.checked_add(files[i].length) {
                        Some(more) => {
                            sum = more;
                        },
                        None => {
                            proof {
                                lemma_sum_grows(views, i + 1, views.len() as int);
                                assert(views.take(views.len() as int) =~= views);
                            }
                            return None;
                        },
                    }
                    i = i + 1;
                }
                assert(views.take(i as int) =~= views);
                Some(sum)
            },
        }
    }

    /// Where the torrent data is to be saved below a directory.
    pub fn save_plan(&self) -> (plan: Vec<SavedFile>)
        ensures
            plan@.map_values(|file: SavedFile| file@) == saved_files(self@.info),
    {
        let mut plan: Vec<SavedFile> = Vec::new();
        match &self.info.file_info {
            FileInfo::Length(_) => {
                let path = vec![self.info.name.clone()];
                assert(texts(path@) =~= seq![self.info.name@]);
                plan.push(SavedFile { path, length: None });
            },
            FileInfo::Files(files) => {
                let ghost views = files@.map_values(|file: File| file@);
                let mut i: usize = 0;
                while i < files.len()
                    invariant
                        0 <= i <= files.len(),
                        views == files@.map_values(|file: File| file@),
                        plan@.len() == i,
                        forall|j: int|
                            0 <= j < i ==> (#[trigger] plan@[j])@ == (SavedFileView {
                                path: seq![self.info.name@] + views[j].path,
                                length: Some(views[j].length),
                            }),
                    decreases files.len() - i,
                {
                    let mut path = vec![self.info.name.clone()];
                    let mut parts = copy_texts(&files[i].path);
                    let ghost tail = parts@;
                    path.append(&mut parts);
                    assert(texts(path@) =~= seq![self.info.name@] + texts(tail));
                    plan.push(SavedFile { path, length: Some(files[i].length) });
                    i = i + 1;
                }
            },
        }
        assert(plan@.map_values(|file: SavedFile| file@) =~= saved_files(self@.info));
        plan
    }
}

/// The sum of the lengths of files.
pub open spec fn sum_of_lengths(files: Seq<FileView>) -> int
    decreases files.len(),
{
    if files.len() == 0 {
        0
    } else {
        sum_of_lengths(files.drop_last()) + files.last().length
    }
}

/// The length of a torrent.
pub open spec fn total_length(file_info: FileInfoView) -> int {
    match file_info {
        FileInfoView::Length(length) => length,
        FileInfoView::Files(files) => sum_of_lengths(files),
    }
}

proof fn lemma_sum_grows(files: Seq<FileView>, n: int, m: int)
    requires
        0 <= n <= m <= files.len(),
        forall|i: int| 0 <= i < files.len() ==> (#[trigger] files[i]).length >= 0,
    ensures
        sum_of_lengths(files.take(n)) <= sum_of_lengths(files.take(m)),
    decreases m,
{
    if n < m {
        lemma_sum_grows(files, n, m - 1);
        assert(files.take(m).drop_last() =~= files.take(m - 1));
        assert(files.take(m).last() == files[m - 1]);
    }
}

/// A file to be written: the parts of its path, and how many of the bytes that follow
/// go there. Without a length all of them do.
#[derive(Debug)]
pub struct SavedFile {
    pub path: Vec<String>,
    pub length: Option<usize>,
}

/// What a `SavedFile` says.
pub struct SavedFileView {
    pub path: Seq<Seq<char>>,
    pub length: Option<int>,
}

impl View for SavedFile {
    type V = SavedFileView;

    open spec fn view(&self) -> SavedFileView {
        SavedFileView {
            path: texts(self.path@),
            length: match self.length {
                Some(length) => Some(length as int),
                None => None,
            },
        }
    }
}

/// Where the data of a torrent is saved: in one file with the torrent's name, or in
/// the files of a directory with that name, one after the other.
pub open spec fn saved_files(info: InfoView) -> Seq<SavedFileView> {
    match info.file_info {
        FileInfoView::Length(_) => seq![SavedFileView { path: seq![info.name], length: None }],
        FileInfoView::Files(files) => files.map_values(
            |file: FileView|
                SavedFileView { path: seq![info.name] + file.path, length: Some(file.length) },
        ),
    }
}

} // verus!
