//! What a torrent's metainfo keeps when it is written out and read again.

use vstd::prelude::*;
use vstd::utf8::encode_utf8;

use crate::bencode::Benc;
use crate::bytes::{is_plain_text, plain_text_shown_as_itself};
use crate::info::{
    as_number, as_usize, byte_strings, file_entries, file_of, files_of, hashes_of, info_benc,
    info_entries, info_of, meta_info_benc, meta_info_entries, meta_info_of, nested_byte_strings,
    saved_files, sum_of_lengths, text_items, text_lists, total_length, FileInfoView, FileView,
    InfoView, MetaInfoView, SavedFileView,
};

use crate::keymap::{dict_of, dict_of_gives_last, last_put};

verus! {

pub open spec fn plain_texts(list: Seq<Seq<char>>) -> bool {
    forall|i: int| 0 <= i < list.len() ==> is_plain_text(#[trigger] list[i])
}

/// Whether a file is of a machine's size and has a path of plain characters.
pub open spec fn plain_file(file: FileView) -> bool {
    0 <= file.length <= usize::MAX && plain_texts(file.path)
}

/// Whether an info dictionary has names of plain characters only, whole hashes and
/// lengths of a machine's size.
pub open spec fn plain_info(info: InfoView) -> bool {
    &&& is_plain_text(info.name)
    &&& 0 <= info.piece_length <= i64::MAX
    &&& info.piece_length <= usize::MAX
    &&& forall|i: int| 0 <= i < info.pieces.len() ==> (#[trigger] info.pieces[i]).len() == 20
    &&& match info.file_info {
        FileInfoView::Length(length) => 0 <= length <= usize::MAX,
        FileInfoView::Files(files) => forall|i: int|
            0 <= i < files.len() ==> plain_file(#[trigger] files[i]),
    }
}

/// A length keeps its bits as a number, and its value where a number can have it.
pub proof fn length_reads_back(n: int)
    requires
        0 <= n <= usize::MAX,
    ensures
        as_usize(as_number(n)) == n,
        n <= i64::MAX ==> as_number(n) == n && as_usize(n) == n,
{
    let modulus = usize::MAX + 1;
    if n <= i64::MAX {
        vstd::arithmetic::div_mod::lemma_small_mod(n as nat, modulus as nat);
    } else {
        assert(modulus == 0x1_0000_0000_0000_0000);
        vstd::arithmetic::div_mod::lemma_fundamental_div_mod_converse(
            n - modulus,
            modulus,
            -1,
            n,
        );
    }
}

/// Texts of plain characters read back from a list of byte strings.
pub proof fn lemma_text_items_read_back(list: Seq<Seq<char>>)
    requires
        plain_texts(list),
    ensures
        byte_strings(text_items(list)) == list,
    decreases list.len(),
{
    if list.len() == 0 {
        assert(list =~= seq![]);
    } else {
        let head = list.drop_last();
        assert forall|i: int| 0 <= i < head.len() implies is_plain_text(#[trigger] head[i]) by {
            assert(head[i] == list[i]);
        }
        lemma_text_items_read_back(head);
        assert(text_items(list).drop_last() =~= text_items(head));
        assert(is_plain_text(list[list.len() - 1]));
        plain_text_shown_as_itself(list.last());
        assert(head.push(list.last()) =~= list);
    }
}

proof fn lemma_text_lists_read_back(list: Seq<Seq<char>>)
    requires
        plain_texts(list),
    ensures
        nested_byte_strings(text_lists(list)) == list,
    decreases list.len(),
{
    if list.len() == 0 {
        assert(list =~= seq![]);
    } else {
        let head = list.drop_last();
        assert forall|i: int| 0 <= i < head.len() implies is_plain_text(#[trigger] head[i]) by {
            assert(head[i] == list[i]);
        }
        lemma_text_lists_read_back(head);
        assert(text_lists(list).drop_last() =~= text_lists(head));
        assert(is_plain_text(list[list.len() - 1]));
        let one = seq![list.last()];
        lemma_text_items_read_back(one);
        assert(text_items(one) =~= seq![Benc::Bytes(encode_utf8(list.last()))]);
        assert(head + one =~= list);
    }
}

/// Hashes one behind the other read back.
pub proof fn lemma_hashes_read_back(pieces: Seq<Seq<u8>>)
    requires
        forall|i: int| 0 <= i < pieces.len() ==> (#[trigger] pieces[i]).len() == 20,
    ensures
        pieces.flatten().len() == 20 * pieces.len(),
        hashes_of(pieces.flatten()) == pieces,
    decreases pieces.len(),
{
    if pieces.len() == 0 {
        assert(hashes_of(pieces.flatten()) =~= pieces);
    } else {
        let head = pieces.drop_last();
        pieces.lemma_flatten_and_flatten_alt_are_equivalent();
        head.lemma_flatten_and_flatten_alt_are_equivalent();
        lemma_hashes_read_back(head);
        let bytes = pieces.flatten();
        assert(bytes == head.flatten() + pieces.last());
        assert(pieces[pieces.len() - 1].len() == 20);
        assert forall|i: int| 0 <= i < pieces.len() implies bytes.subrange(20 * i, 20 * i + 20)
            == #[trigger] pieces[i] by {
            if i < head.len() {
                assert(hashes_of(head.flatten())[i] == head[i]);
                assert(bytes.subrange(20 * i, 20 * i + 20) =~= head.flatten().subrange(
                    20 * i,
                    20 * i + 20,
                ));
            } else {
                assert(bytes.subrange(20 * i, 20 * i + 20) =~= pieces.last());
            }
        }
        assert(hashes_of(bytes) =~= pieces);
    }
}

/// A file reads back from its dictionary.
pub proof fn file_reads_back(file: FileView)
    requires
        plain_file(file),
    ensures
        file_of(dict_of(file_entries(file))) == Ok::<FileView, Seq<char>>(file),
{
    let entries = file_entries(file);
    reveal_strlit("length");
    reveal_strlit("path");
    reveal_with_fuel(last_put, 3);
    dict_of_gives_last(entries, "length"@);
    dict_of_gives_last(entries, "path"@);
    length_reads_back(file.length);
    lemma_text_items_read_back(file.path);
}

proof fn lemma_files_read_back(files: Seq<FileView>)
    requires
        forall|i: int| 0 <= i < files.len() ==> plain_file(#[trigger] files[i]),
    ensures
        files_of(
            files.map_values(|file: FileView| Benc::Dict(dict_of(file_entries(file)))),
        ) == Ok::<Seq<FileView>, Seq<char>>(files),
    decreases files.len(),
{
    let items = files.map_values(|file: FileView| Benc::Dict(dict_of(file_entries(file))));
    if files.len() == 0 {
        assert(files =~= seq![]);
    } else {
        let head = files.drop_last();
        assert forall|i: int| 0 <= i < head.len() implies plain_file(#[trigger] head[i]) by {
            assert(head[i] == files[i]);
        }
        lemma_files_read_back(head);
        assert(items.drop_last() =~= head.map_values(
            |file: FileView| Benc::Dict(dict_of(file_entries(file))),
        ));
        assert(plain_file(files[files.len() - 1]));
        file_reads_back(files.last());
        assert(head.push(files.last()) =~= files);
    }
}

/// What an info dictionary says reads back from it, where its names are shown as they
/// are.
pub proof fn info_reads_back(info: InfoView)
    requires
        plain_info(info),
    ensures
        info_of(info_benc(info)) == Ok::<InfoView, Seq<char>>(info),
{
    let entries = info_entries(info);
    reveal_strlit("name");
    reveal_strlit("pieces");
    reveal_strlit("piece length");
    reveal_strlit("length");
    reveal_strlit("files");
    reveal_with_fuel(last_put, 5);
    assert("name"@.len() == 4);
    assert("pieces"@[0] != "length"@[0]);
    assert("files"@.len() == 5);
    dict_of_gives_last(entries, "name"@);
    dict_of_gives_last(entries, "pieces"@);
    dict_of_gives_last(entries, "piece length"@);
    dict_of_gives_last(entries, "length"@);
    dict_of_gives_last(entries, "files"@);
    plain_text_shown_as_itself(info.name);
    lemma_hashes_read_back(info.pieces);
    match info.file_info {
        FileInfoView::Length(length) => {
            length_reads_back(length);
        },
        FileInfoView::Files(files) => {
            lemma_files_read_back(files);
        },
    }
}

/// What a metainfo dictionary says reads back from it, where its names are shown as
/// they are.
pub proof fn meta_info_reads_back(meta_info: MetaInfoView)
    requires
        plain_info(meta_info.info),
        plain_texts(meta_info.announce_list),
    ensures
        meta_info_of(meta_info_benc(meta_info)) == Ok::<MetaInfoView, Seq<char>>(meta_info),
{
    let entries = meta_info_entries(meta_info);
    let list = meta_info.announce_list;
    reveal_strlit("announce");
    reveal_strlit("announce-list");
    reveal_strlit("info");
    reveal_with_fuel(last_put, 4);
    dict_of_gives_last(entries, "announce"@);
    dict_of_gives_last(entries, "announce-list"@);
    dict_of_gives_last(entries, "info"@);
    info_reads_back(meta_info.info);
    if list.len() > 0 {
        let rest = list.skip(1);
        assert forall|i: int| 0 <= i < rest.len() implies is_plain_text(#[trigger] rest[i]) by {
            assert(rest[i] == list[i + 1]);
        }
        lemma_text_lists_read_back(rest);
        assert(is_plain_text(list[0]));
        plain_text_shown_as_itself(list[0]);
        assert(seq![list[0]] + rest =~= list);
    } else {
        assert(list =~= seq![]);
    }
}

/// How many bytes the files of a plan take.
pub open spec fn planned_bytes(plan: Seq<SavedFileView>) -> int
    decreases plan.len(),
{
    if plan.len() == 0 {
        0
    } else {
        planned_bytes(plan.drop_last()) + match plan.last().length {
            Some(length) => length,
            None => 0,
        }
    }
}

/// The files of a torrent with several of them take as many bytes as the torrent has.
pub proof fn plan_covers_length(info: InfoView, files: Seq<FileView>)
    requires
        info.file_info == FileInfoView::Files(files),
    ensures
        planned_bytes(saved_files(info)) == sum_of_lengths(files),
        total_length(info.file_info) == sum_of_lengths(files),
    decreases files.len(),
{
    if files.len() > 0 {
        let head = files.drop_last();
        let less = InfoView { file_info: FileInfoView::Files(head), ..info };
        plan_covers_length(less, head);
        assert(saved_files(info).drop_last() =~= saved_files(less));
    }
}

/// The plan for a torrent of several files has one file for each of them, in their order:
/// it is at the torrent's name followed by all parts of the file's path, however many, and
/// is as long as the file.
pub proof fn plan_keeps_paths(info: InfoView, files: Seq<FileView>, i: int)
    requires
        info.file_info == FileInfoView::Files(files),
        0 <= i < files.len(),
    ensures
        saved_files(info).len() == files.len(),
        saved_files(info)[i].length == Some(files[i].length),
        saved_files(info)[i].path.len() == files[i].path.len() + 1,
        saved_files(info)[i].path[0] == info.name,
        forall|j: int|
            0 <= j < files[i].path.len() ==> saved_files(info)[i].path[j + 1]
                == #[trigger] files[i].path[j],
{
}

/// Files with different paths are planned at different places.
pub proof fn different_paths_stay_different(info: InfoView, files: Seq<FileView>, i: int, j: int)
    requires
        info.file_info == FileInfoView::Files(files),
        0 <= i < files.len(),
        0 <= j < files.len(),
        files[i].path != files[j].path,
    ensures
        saved_files(info)[i].path != saved_files(info)[j].path,
{
    assert(saved_files(info)[i].path.drop_first() =~= files[i].path);
    assert(saved_files(info)[j].path.drop_first() =~= files[j].path);
}

/// A torrent of one file is planned at its name, with everything that is downloaded.
pub proof fn one_file_is_at_name(info: InfoView, length: int)
    requires
        info.file_info == FileInfoView::Length(length),
    ensures
        saved_files(info).len() == 1,
        saved_files(info)[0].path.len() == 1,
        saved_files(info)[0].path[0] == info.name,
        saved_files(info)[0].length is None,
        total_length(info.file_info) == length,
{
}

} // verus!
