//! Under which names the fields of a torrent stand in its dictionaries.

use vstd::prelude::*;
use vstd::utf8::encode_utf8;

use crate::bencode::{entry, Benc};
use crate::bytes::{is_plain_text, plain_text_shown_as_itself};
use crate::info::laws::{
    lemma_hashes_read_back, lemma_text_items_read_back, length_reads_back, plain_file, plain_texts,
};
use crate::info::{
    announce_list_of, as_number, bytes_in, file_entries, files_of, info_benc, info_entries, info_of,
    int_in, list_in, meta_info_benc, meta_info_entries, meta_info_of, nested_byte_strings,
    text_items, FileInfoView, FileView, InfoView, MetaInfoView,
};
use crate::keymap::{dict_of_gives_last, last_put};

verus! {

/// Whether a value is the dictionary of a file: its length under `length`, its path under
/// `path`, whatever else is there.
pub open spec fn describes_file(value: Benc, file: FileView) -> bool {
    value matches Benc::Dict(pairs) && entry(pairs, "length"@) == Some(
        Benc::Int(as_number(file.length)),
    ) && entry(pairs, "path"@) == Some(
        Benc::List(Seq::new(file.path.len(), |i: int| Benc::Bytes(encode_utf8(file.path[i])))),
    )
}

/// Files are read from their dictionaries, all of them and in their order.
pub proof fn files_are_read(items: Seq<Benc>, files: Seq<FileView>)
    requires
        items.len() == files.len(),
        forall|i: int| 0 <= i < files.len() ==> plain_file(#[trigger] files[i]),
        forall|i: int| 0 <= i < files.len() ==> describes_file(#[trigger] items[i], files[i]),
    ensures
        files_of(items) == Ok::<Seq<FileView>, Seq<char>>(files),
    decreases files.len(),
{
    if files.len() == 0 {
        assert(files =~= seq![]);
    } else {
        let n = files.len() - 1;
        let head = files.drop_last();
        let fewer = items.drop_last();
        assert forall|i: int| 0 <= i < head.len() implies plain_file(#[trigger] head[i]) by {
            assert(head[i] == files[i]);
        }
        assert forall|i: int| 0 <= i < head.len() implies describes_file(
            #[trigger] fewer[i],
            head[i],
        ) by {
            assert(fewer[i] == items[i]);
        }
        files_are_read(fewer, head);
        let file = files[n];
        assert(plain_file(file));
        assert(describes_file(items[n], file));
        length_reads_back(file.length);
        lemma_text_items_read_back(file.path);
        assert(text_items(file.path) =~= Seq::new(
            file.path.len(),
            |i: int| Benc::Bytes(encode_utf8(file.path[i])),
        ));
        assert(head.push(file) =~= files);
    }
}

/// An info dictionary is read by the names of its entries, whatever else is there: the name
/// under `name`, the length of pieces under `piece length`, their hashes one behind the
/// other under `pieces`, and the length of the one file under `length`, or else the
/// dictionaries of the files under `files`.
pub proof fn info_is_read_by_names(pairs: Seq<(Seq<u8>, Benc)>, info: InfoView)
    requires
        is_plain_text(info.name),
        0 <= info.piece_length <= usize::MAX,
        info.piece_length <= i64::MAX,
        forall|i: int| 0 <= i < info.pieces.len() ==> (#[trigger] info.pieces[i]).len() == 20,
        entry(pairs, "name"@) == Some(Benc::Bytes(encode_utf8(info.name))),
        entry(pairs, "piece length"@) == Some(Benc::Int(info.piece_length)),
        entry(pairs, "pieces"@) == Some(Benc::Bytes(info.pieces.flatten())),
        match info.file_info {
            FileInfoView::Length(length) => 0 <= length <= usize::MAX && entry(pairs, "length"@)
                == Some(Benc::Int(as_number(length))),
            FileInfoView::Files(files) => {
                &&& entry(pairs, "length"@) is None
                &&& entry(pairs, "files"@) matches Some(Benc::List(items)) && items.len()
                    == files.len() && (forall|i: int|
                    0 <= i < files.len() ==> describes_file(#[trigger] items[i], files[i]))
                &&& forall|i: int| 0 <= i < files.len() ==> plain_file(#[trigger] files[i])
            },
        },
    ensures
        info_of(Benc::Dict(pairs)) == Ok::<InfoView, Seq<char>>(info),
{
    plain_text_shown_as_itself(info.name);
    lemma_hashes_read_back(info.pieces);
    match info.file_info {
        FileInfoView::Length(length) => {
            length_reads_back(length);
        },
        FileInfoView::Files(files) => {
            let items = match entry(pairs, "files"@) {
                Some(Benc::List(items)) => items,
                _ => seq![],
            };
            files_are_read(items, files);
        },
    }
}

/// Without one of its entries an info dictionary is refused.
pub proof fn info_needs_its_entries(pairs: Seq<(Seq<u8>, Benc)>)
    ensures
        info_of(Benc::Dict(pairs)) is Ok ==> {
            &&& bytes_in(entry(pairs, "name"@)) is Some
            &&& int_in(entry(pairs, "piece length"@)) matches Some(n) && 0 <= n <= usize::MAX
            &&& bytes_in(entry(pairs, "pieces"@)) is Some
            &&& int_in(entry(pairs, "length"@)) is Some || list_in(entry(pairs, "files"@)) is Some
        },
        forall|value: Benc| !(value is Dict) ==> (#[trigger] info_of(value)) is Err,
        forall|value: Benc| !(value is Dict) ==> (#[trigger] meta_info_of(value)) is Err,
        meta_info_of(Benc::Dict(pairs)) is Ok ==> entry(pairs, "info"@) is Some,
{
}

/// The bencoded list of lists of trackers.
pub open spec fn tier_lists(tiers: Seq<Seq<Seq<char>>>) -> Seq<Benc> {
    Seq::new(tiers.len(), |i: int| Benc::List(text_items(tiers[i])))
}

proof fn lemma_tiers(tiers: Seq<Seq<Seq<char>>>)
    requires
        forall|i: int| 0 <= i < tiers.len() ==> plain_texts(#[trigger] tiers[i]),
    ensures
        nested_byte_strings(tier_lists(tiers)) == tiers.flatten(),
    decreases tiers.len(),
{
    tiers.lemma_flatten_and_flatten_alt_are_equivalent();
    if tiers.len() > 0 {
        let head = tiers.drop_last();
        assert forall|i: int| 0 <= i < head.len() implies plain_texts(#[trigger] head[i]) by {
            assert(head[i] == tiers[i]);
        }
        lemma_tiers(head);
        head.lemma_flatten_and_flatten_alt_are_equivalent();
        assert(tier_lists(tiers).drop_last() =~= tier_lists(head));
        assert(plain_texts(tiers[tiers.len() - 1]));
        lemma_text_items_read_back(tiers.last());
    }
}

/// The trackers of a torrent are the one under `announce`, then all those of all lists in
/// the list under `announce-list`, in their order.
pub proof fn all_trackers_are_named(
    pairs: Seq<(Seq<u8>, Benc)>,
    first: Seq<char>,
    tiers: Seq<Seq<Seq<char>>>,
)
    requires
        is_plain_text(first),
        forall|i: int| 0 <= i < tiers.len() ==> plain_texts(#[trigger] tiers[i]),
        entry(pairs, "announce"@) == Some(Benc::Bytes(encode_utf8(first))),
        entry(pairs, "announce-list"@) == Some(Benc::List(tier_lists(tiers))),
    ensures
        announce_list_of(pairs) == seq![first] + tiers.flatten(),
        meta_info_of(Benc::Dict(pairs)) matches Ok(meta_info) ==> meta_info.announce_list == seq![
            first,
        ] + tiers.flatten(),
{
    plain_text_shown_as_itself(first);
    lemma_tiers(tiers);
}

/// A metainfo dictionary is read by the names of its entries; the trackers may be named in
/// either entry, in both or in none.
pub proof fn meta_info_is_read_by_names(pairs: Seq<(Seq<u8>, Benc)>, info: Benc)
    requires
        entry(pairs, "info"@) == Some(info),
        info_of(info) is Ok,
    ensures
        ({
            let read = meta_info_of(Benc::Dict(pairs));
            &&& read is Ok
            &&& read->Ok_0.info == info_of(info)->Ok_0
            &&& entry(pairs, "announce"@) is None && entry(pairs, "announce-list"@) is None
                ==> read->Ok_0.announce_list.len() == 0
            &&& entry(pairs, "announce-list"@) is None ==> read->Ok_0.announce_list.len() <= 1
        }),
{
}

/// An info dictionary is written with its name under `name`, the length of pieces under
/// `piece length`, their hashes one behind the other under `pieces`, and the length of the
/// one file under `length` or the dictionaries of the files under `files`; nothing else is
/// in it.
pub proof fn info_is_written_by_names(info: InfoView, other: Seq<char>)
    requires
        other != "name"@,
        other != "piece length"@,
        other != "pieces"@,
        info.file_info is Length ==> other != "length"@,
        info.file_info is Files ==> other != "files"@,
    ensures
        ({
            let pairs = info_benc(info)->Dict_0;
            &&& info_benc(info) is Dict
            &&& entry(pairs, "name"@) == Some(Benc::Bytes(encode_utf8(info.name)))
            &&& entry(pairs, "piece length"@) == Some(Benc::Int(as_number(info.piece_length)))
            &&& entry(pairs, "pieces"@) == Some(Benc::Bytes(info.pieces.flatten()))
            &&& match info.file_info {
                FileInfoView::Length(length) => entry(pairs, "length"@) == Some(
                    Benc::Int(as_number(length)),
                ),
                FileInfoView::Files(files) => entry(pairs, "files"@) matches Some(
                    Benc::List(items),
                ) && items.len() == files.len() && forall|i: int|
                    0 <= i < files.len() ==> describes_file(#[trigger] items[i], files[i]),
            }
            &&& entry(pairs, other) is None
        }),
{
    let entries = info_entries(info);
    reveal_strlit("name");
    reveal_strlit("pieces");
    reveal_strlit("piece length");
    reveal_strlit("length");
    reveal_strlit("files");
    reveal_with_fuel(last_put, 5);
    assert("name"@.len() == 4);
    assert("pieces"@[0] != "length"@[0]);
    assert("files"@.len() == 5);
    dict_of_gives_last(entries, "name"@);
    dict_of_gives_last(entries, "pieces"@);
    dict_of_gives_last(entries, "piece length"@);
    dict_of_gives_last(entries, "length"@);
    dict_of_gives_last(entries, "files"@);
    dict_of_gives_last(entries, other);
    if let FileInfoView::Files(files) = info.file_info {
        let items = match entry(info_benc(info)->Dict_0, "files"@) {
            Some(Benc::List(items)) => items,
            _ => seq![],
        };
        assert forall|i: int| 0 <= i < files.len() implies describes_file(
            #[trigger] items[i],
            files[i],
        ) by {
            lemma_file_is_written(files[i]);
        }
    }
}

proof fn lemma_file_is_written(file: FileView)
    ensures
        describes_file(Benc::Dict(crate::keymap::dict_of(file_entries(file))), file),
{
    let entries = file_entries(file);
    reveal_strlit("length");
    reveal_strlit("path");
    reveal_with_fuel(last_put, 3);
    dict_of_gives_last(entries, "length"@);
    dict_of_gives_last(entries, "path"@);
    assert(text_items(file.path) =~= Seq::new(
        file.path.len(),
        |i: int| Benc::Bytes(encode_utf8(file.path[i])),
    ));
}

/// A metainfo dictionary is written with the first tracker under `announce`, each other in a
/// list of its own under `announce-list`, and the info dictionary under `info`.
pub proof fn meta_info_is_written_by_names(meta_info: MetaInfoView)
    ensures
        ({
            let pairs = meta_info_benc(meta_info)->Dict_0;
            let list = meta_info.announce_list;
            &&& meta_info_benc(meta_info) is Dict
            &&& entry(pairs, "info"@) == Some(info_benc(meta_info.info))
            &&& list.len() > 0 ==> entry(pairs, "announce"@) == Some(
                Benc::Bytes(encode_utf8(list[0])),
            )
            &&& list.len() > 0 ==> entry(pairs, "announce-list"@) == Some(
                Benc::List(
                    Seq::new(
                        (list.len() - 1) as nat,
                        |i: int| Benc::List(seq![Benc::Bytes(encode_utf8(list[i + 1]))]),
                    ),
                ),
            )
            &&& list.len() == 0 ==> entry(pairs, "announce"@) == Some(Benc::Null) && entry(
                pairs,
                "announce-list"@,
            ) == Some(Benc::Null)
        }),
{
    let entries = meta_info_entries(meta_info);
    let list = meta_info.announce_list;
    reveal_strlit("announce");
    reveal_strlit("announce-list");
    reveal_strlit("info");
    reveal_with_fuel(last_put, 4);
    dict_of_gives_last(entries, "announce"@);
    dict_of_gives_last(entries, "announce-list"@);
    dict_of_gives_last(entries, "info"@);
    if list.len() > 0 {
        assert(crate::info::text_lists(list.skip(1)) =~= Seq::new(
            (list.len() - 1) as nat,
            |i: int| Benc::List(seq![Benc::Bytes(encode_utf8(list[i + 1]))]),
        ));
    }
}

} // verus!
