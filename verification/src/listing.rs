//! What a directory shows: the backing files that carry all its tags, then
//! one directory for each tag that it does not have.
//!
//! Every path of the source directory and every tag has a place in the
//! listing, counted from 1, whether it is shown or not.  A listing can be
//! taken up after any place.

use crate::attr::FileType;
use crate::entry::{persisted, EntryView};
use crate::index::{not_in, Index};
use vstd::prelude::*;

verus! {

/// A path in the source directory: its name, and whether it is a regular file.
pub ghost struct Listed {
    pub name: Seq<char>,
    pub is_file: bool,
}

/// An entry of a directory, apart from its inode.
pub ghost struct Shown {
    /// The place of the entry in the listing.
    pub offset: int,
    pub kind: FileType,
    pub name: Seq<char>,
}

/// The path at place `place` is shown in the directory of `dir`: it is a
/// regular file and carries all tags of the directory.
pub open spec fn file_shown(s: Index, dir: Set<Seq<char>>, item: Listed) -> bool {
    item.is_file && dir.subset_of(s.file_tags(item.name))
}

/// The files that are shown among the first `n` paths of the source
/// directory, after place `offset`.
pub open spec fn shown_files(
    s: Index,
    dir: Set<Seq<char>>,
    listing: Seq<Listed>,
    offset: int,
    n: int,
) -> Seq<Shown>
    decreases n,
{
    if n <= 0 {
        Seq::empty()
    } else {
        let before = shown_files(s, dir, listing, offset, n - 1);
        if n > offset && file_shown(s, dir, listing[n - 1]) {
            before.push(Shown { offset: n, kind: FileType::RegularFile, name: listing[n - 1].name })
        } else {
            before
        }
    }
}

/// The directories that are shown for the first `n` of the tags `sub`,
/// after place `offset`; the places of the tags follow `base`.
pub open spec fn shown_tags(sub: Seq<Seq<char>>, base: int, offset: int, n: int) -> Seq<Shown>
    decreases n,
{
    if n <= 0 {
        Seq::empty()
    } else {
        let before = shown_tags(sub, base, offset, n - 1);
        if base + n > offset {
            before.push(Shown { offset: base + n, kind: FileType::Directory, name: sub[n - 1] })
        } else {
            before
        }
    }
}

/// The entries of the directory of `dir` after place `offset`: the files,
/// then the tags.
pub open spec fn shown(s: Index, dir: Set<Seq<char>>, listing: Seq<Listed>, offset: int) -> Seq<
    Shown,
> {
    shown_files(s, dir, listing, offset, listing.len() as int) + shown_tags(
        s.sub_tags(dir),
        listing.len() as int,
        offset,
        s.sub_tags(dir).len() as int,
    )
}

/// The stored form of the entry that is shown: a file by its name, a tag
/// as the directory of this one tag.
pub open spec fn key_of(e: Shown) -> (Seq<char>, Seq<char>) {
    match e.kind {
        FileType::RegularFile => persisted(EntryView::File(e.name)),
        FileType::Directory => persisted(EntryView::Tags(set![e.name])),
    }
}

/// The stored forms of the entries that are shown.
pub open spec fn keys_of(es: Seq<Shown>) -> Seq<(Seq<char>, Seq<char>)> {
    es.map_values(|e: Shown| key_of(e))
}

/// The tags that a directory is offered are the tags that exist and that
/// the directory does not have.
pub proof fn lemma_sub_tags(s: Index, dir: Set<Seq<char>>)
    ensures
        forall|t: Seq<char>| s.sub_tags(dir).contains(t) <==> s.has_tag(t) && !dir.contains(t),
{
    let names = s.tag_names();
    let pred = not_in(dir);
    assert forall|t: Seq<char>| s.sub_tags(dir).contains(t) <==> s.has_tag(t) && !dir.contains(
        t,
    ) by {
        if s.sub_tags(dir).contains(t) {
            names.lemma_filter_contains_rev(pred, t);
        }
        if s.has_tag(t) && !dir.contains(t) {
            let k = s.tag_place(t);
            names.lemma_filter_contains(pred, k);
        }
    }
}

/// The files among the first `n` paths are shown exactly if they lie after
/// the offset, are regular files and carry all tags of the directory.
pub proof fn lemma_shown_files(
    s: Index,
    dir: Set<Seq<char>>,
    listing: Seq<Listed>,
    offset: int,
    n: int,
)
    requires
        0 <= n <= listing.len(),
    ensures
        shown_files(s, dir, listing, offset, n).len() <= n,
        forall|e: Shown| #[trigger]
            shown_files(s, dir, listing, offset, n).contains(e) <==> {
                &&& e.kind == FileType::RegularFile
                &&& offset < e.offset
                &&& 1 <= e.offset <= n
                &&& e.name == listing[e.offset - 1].name
                &&& file_shown(s, dir, listing[e.offset - 1])
            },
    decreases n,
{
    if n > 0 {
        lemma_shown_files(s, dir, listing, offset, n - 1);
        let before = shown_files(s, dir, listing, offset, n - 1);
        let now = shown_files(s, dir, listing, offset, n);
        assert forall|e: Shown| #[trigger]
            now.contains(e) <==> {
                &&& e.kind == FileType::RegularFile
                &&& offset < e.offset
                &&& 1 <= e.offset <= n
                &&& e.name == listing[e.offset - 1].name
                &&& file_shown(s, dir, listing[e.offset - 1])
            } by {
            let last = Shown {
                offset: n,
                kind: FileType::RegularFile,
                name: listing[n - 1].name,
            };
            if n > offset && file_shown(s, dir, listing[n - 1]) {
                if before.contains(e) {
                    let k = choose|k: int| 0 <= k < before.len() && before[k] == e;
                    assert(now[k] == e);
                }
                assert(now[before.len() as int] == last);
            }
        }
    }
}

/// The tags among the first `n` are shown exactly if they lie after the
/// offset.
pub proof fn lemma_shown_tags(sub: Seq<Seq<char>>, base: int, offset: int, n: int)
    requires
        0 <= n <= sub.len(),
    ensures
        shown_tags(sub, base, offset, n).len() <= n,
        forall|e: Shown| #[trigger]
            shown_tags(sub, base, offset, n).contains(e) <==> {
                &&& e.kind == FileType::Directory
                &&& offset < e.offset
                &&& base + 1 <= e.offset <= base + n
                &&& e.name == sub[e.offset - base - 1]
            },
    decreases n,
{
    if n > 0 {
        lemma_shown_tags(sub, base, offset, n - 1);
        let before = shown_tags(sub, base, offset, n - 1);
        let now = shown_tags(sub, base, offset, n);
        assert forall|e: Shown| #[trigger]
            now.contains(e) <==> {
                &&& e.kind == FileType::Directory
                &&& offset < e.offset
                &&& base + 1 <= e.offset <= base + n
                &&& e.name == sub[e.offset - base - 1]
            } by {
            let last = Shown { offset: base + n, kind: FileType::Directory, name: sub[n - 1] };
            if base + n > offset {
                if before.contains(e) {
                    let k = choose|k: int| 0 <= k < before.len() && before[k] == e;
                    assert(now[k] == e);
                }
                assert(now[before.len() as int] == last);
            }
        }
    }
}

/// A directory shows exactly the regular files that carry all its tags and
/// one directory for each tag that exists and that it does not have, each
/// at its place, as far as the place lies after the offset.
pub proof fn lemma_projection(s: Index, dir: Set<Seq<char>>, listing: Seq<Listed>, offset: int)
    ensures
        forall|e: Shown| #[trigger]
            shown(s, dir, listing, offset).contains(e) <==> offset < e.offset && {
                ||| {
                    &&& e.kind == FileType::RegularFile
                    &&& 1 <= e.offset <= listing.len()
                    &&& e.name == listing[e.offset - 1].name
                    &&& listing[e.offset - 1].is_file
                    &&& dir.subset_of(s.file_tags(e.name))
                }
                ||| {
                    &&& e.kind == FileType::Directory
                    &&& listing.len() < e.offset <= listing.len() + s.sub_tags(dir).len()
                    &&& e.name == s.sub_tags(dir)[e.offset - listing.len() - 1]
                }
            },
        forall|t: Seq<char>| s.sub_tags(dir).contains(t) <==> s.has_tag(t) && !dir.contains(t),
{
    let sub = s.sub_tags(dir);
    let base = listing.len() as int;
    let files = shown_files(s, dir, listing, offset, base);
    let tags = shown_tags(sub, base, offset, sub.len() as int);
    let all = shown(s, dir, listing, offset);
    lemma_shown_files(s, dir, listing, offset, base);
    lemma_shown_tags(sub, base, offset, sub.len() as int);
    lemma_sub_tags(s, dir);
    assert forall|e: Shown| all.contains(e) <==> files.contains(e) || tags.contains(e) by {
        if all.contains(e) {
            let k = choose|k: int| 0 <= k < all.len() && all[k] == e;
            if k < files.len() {
                assert(files[k] == e);
            } else {
                assert(tags[k - files.len()] == e);
            }
        }
        if files.contains(e) {
            let k = choose|k: int| 0 <= k < files.len() && files[k] == e;
            assert(all[k] == e);
        }
        if tags.contains(e) {
            let k = choose|k: int| 0 <= k < tags.len() && tags[k] == e;
            assert(all[files.len() + k] == e);
        }
    }
}

} // verus!
