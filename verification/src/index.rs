//! The index as a mathematical object: three tables, what can be asked of
//! them, and how each statement changes them.
//!
//! The tables are a list of tags with their identifiers, a list of
//! memberships that pair a file with the identifier of a tag, and a list of
//! inodes with the stored form of their entries.  The executable index keeps
//! to this model; the laws at the end of the file are proved of the model.

use crate::entry::{lemma_parse_persisted, parsed, persisted, Entry, EntryView};
use crate::tag::is_tag_name;
use vstd::prelude::*;

verus! {

/// The largest identifier that a row can have.
pub const MAX_ID: u64 = 0x7fff_ffff_ffff_ffff;

/// A row of the table of tags.
pub ghost struct TagRow {
    pub id: u64,
    pub tag: Seq<char>,
}

/// A row of the table of memberships: the file carries the tag of this identifier.
pub ghost struct MemberRow {
    pub file: Seq<char>,
    pub tag_id: u64,
}

/// A row of the table of inodes.
pub ghost struct InodeRow {
    pub id: u64,
    pub discriminant: Seq<char>,
    pub data: Seq<char>,
}

/// The state of the index.
pub ghost struct Index {
    /// The tags, in the order in which they were created.
    pub tags: Seq<TagRow>,
    /// The memberships.
    pub members: Seq<MemberRow>,
    /// The inodes, in the order in which they were created.
    pub inodes: Seq<InodeRow>,
    /// The identifier that the next new tag gets.
    pub next_tag: u64,
    /// The number that the next new inode gets.
    pub next_inode: u64,
    /// Where the file system is to be mounted, if the index says so.
    pub mountpoint: Option<Seq<char>>,
    /// Where the backing files are, if the index says so.
    pub source: Option<Seq<char>>,
}

/// The memberships of all tags but the one of this identifier.
pub open spec fn not_of_tag(id: u64) -> spec_fn(MemberRow) -> bool {
    |r: MemberRow| r.tag_id != id
}

/// The names that are not in `taken`.
pub open spec fn not_in(taken: Set<Seq<char>>) -> spec_fn(Seq<char>) -> bool {
    |t: Seq<char>| !taken.contains(t)
}

impl Index {
    /// The rules of the tables: identifiers and inode numbers are positive,
    /// below the next one to be given out, and used once; tag names are
    /// usable and used once; no membership and no stored entry occurs twice.
    pub open spec fn wf(self) -> bool {
        &&& 1 <= self.next_tag <= MAX_ID + 1
        &&& 1 <= self.next_inode <= MAX_ID + 1
        &&& forall|i: int|
            0 <= i < self.tags.len() ==> {
                &&& 1 <= (#[trigger] self.tags[i]).id < self.next_tag
                &&& is_tag_name(self.tags[i].tag)
            }
        &&& forall|i: int, j: int|
            0 <= i < j < self.tags.len() ==> {
                &&& (#[trigger] self.tags[i]).id != (#[trigger] self.tags[j]).id
                &&& self.tags[i].tag != self.tags[j].tag
            }
        &&& forall|i: int|
            0 <= i < self.members.len() ==> (#[trigger] self.members[i]).tag_id < self.next_tag
        &&& self.members.no_duplicates()
        &&& forall|i: int|
            0 <= i < self.inodes.len() ==> 1 <= (#[trigger] self.inodes[i]).id < self.next_inode
        &&& forall|i: int, j: int|
            0 <= i < j < self.inodes.len() ==> {
                &&& (#[trigger] self.inodes[i]).id != (#[trigger] self.inodes[j]).id
                &&& !(self.inodes[i].discriminant == self.inodes[j].discriminant
                    && self.inodes[i].data == self.inodes[j].data)
            }
    }

    /// An index without any row.
    pub open spec fn empty() -> Index {
        Index {
            tags: Seq::empty(),
            members: Seq::empty(),
            inodes: Seq::empty(),
            next_tag: 1,
            next_inode: 1,
            mountpoint: None,
            source: None,
        }
    }

    // ----- tags -----
    /// A tag of this name exists.
    pub open spec fn has_tag(self, tag: Seq<char>) -> bool {
        exists|i: int| 0 <= i < self.tags.len() && (#[trigger] self.tags[i]).tag == tag
    }

    /// The place of the tag of this name in the table.
    pub open spec fn tag_place(self, tag: Seq<char>) -> int {
        choose|i: int| 0 <= i < self.tags.len() && (#[trigger] self.tags[i]).tag == tag
    }

    /// The identifier of the tag of this name.
    pub open spec fn tag_id(self, tag: Seq<char>) -> u64 {
        self.tags[self.tag_place(tag)].id
    }

    /// The names of all tags, in the order of the table.
    pub open spec fn tag_names(self) -> Seq<Seq<char>> {
        self.tags.map_values(|r: TagRow| r.tag)
    }

    /// The names of the tags that are not in `taken`, in the order of the table.
    pub open spec fn sub_tags(self, taken: Set<Seq<char>>) -> Seq<Seq<char>> {
        self.tag_names().filter(not_in(taken))
    }

    /// There is room for `n` more tags.
    pub open spec fn room_for_tags(self, n: int) -> bool {
        self.next_tag + n <= MAX_ID + 1
    }

    /// The index with a new tag of this name.
    pub open spec fn with_tag(self, tag: Seq<char>) -> Index {
        Index {
            tags: self.tags.push(TagRow { id: self.next_tag, tag }),
            next_tag: (self.next_tag + 1) as u64,
            ..self
        }
    }

    /// The index in which a tag of this name exists.
    pub open spec fn ensure_tag(self, tag: Seq<char>) -> Index {
        if self.has_tag(tag) {
            self
        } else {
            self.with_tag(tag)
        }
    }

    // ----- memberships -----
    /// The file carries the tag of this identifier.
    pub open spec fn is_member(self, file: Seq<char>, id: u64) -> bool {
        self.members.contains(MemberRow { file, tag_id: id })
    }

    /// The file carries the tag of this name.
    pub open spec fn tagged(self, file: Seq<char>, tag: Seq<char>) -> bool {
        exists|i: int|
            0 <= i < self.tags.len() && (#[trigger] self.tags[i]).tag == tag && self.is_member(
                file,
                self.tags[i].id,
            )
    }

    /// The names of the tags that the file carries.
    pub open spec fn file_tags(self, file: Seq<char>) -> Set<Seq<char>> {
        Set::new(|tag: Seq<char>| self.tagged(file, tag))
    }

    /// The index in which the file carries the tag of this identifier.
    pub open spec fn with_member(self, file: Seq<char>, id: u64) -> Index {
        if self.is_member(file, id) {
            self
        } else {
            Index { members: self.members.push(MemberRow { file, tag_id: id }), ..self }
        }
    }

    /// The index after the tag was given to the file: the tag is created if
    /// it does not exist, and the membership is added if it is not there.
    pub open spec fn add_tag(self, file: Seq<char>, tag: Seq<char>) -> Index {
        let with = self.ensure_tag(tag);
        with.with_member(file, with.tag_id(tag))
    }

    /// The index after the tags were given to the file, one after the other.
    pub open spec fn add_tags(self, file: Seq<char>, tags: Seq<Seq<char>>) -> Index
        decreases tags.len(),
    {
        if tags.len() == 0 {
            self
        } else {
            self.add_tag(file, tags[0]).add_tags(file, tags.drop_first())
        }
    }

    /// The index after the tag was taken from the file.  Nothing changes if
    /// the file does not carry it.
    pub open spec fn remove_tag(self, file: Seq<char>, tag: Seq<char>) -> Index {
        if self.tagged(file, tag) {
            let gone = MemberRow { file, tag_id: self.tag_id(tag) };
            Index { members: self.members.remove(self.members.index_of(gone)), ..self }
        } else {
            self
        }
    }

    /// The index after the tags were taken from the file, one after the other.
    pub open spec fn remove_tags(self, file: Seq<char>, tags: Seq<Seq<char>>) -> Index
        decreases tags.len(),
    {
        if tags.len() == 0 {
            self
        } else {
            self.remove_tag(file, tags[0]).remove_tags(file, tags.drop_first())
        }
    }

    /// The index after the tag of this name was deleted, with all its memberships.
    pub open spec fn delete_tag(self, tag: Seq<char>) -> Index {
        let id = self.tag_id(tag);
        Index {
            tags: self.tags.remove(self.tag_place(tag)),
            members: self.members.filter(not_of_tag(id)),
            ..self
        }
    }

    /// The index after the tags were deleted one after the other, up to the
    /// first one that does not exist, and whether all of them existed.
    pub open spec fn delete_tags(self, tags: Seq<Seq<char>>) -> (Index, bool)
        decreases tags.len(),
    {
        if tags.len() == 0 {
            (self, true)
        } else if !self.has_tag(tags[0]) {
            (self, false)
        } else {
            self.delete_tag(tags[0]).delete_tags(tags.drop_first())
        }
    }

    // ----- inodes -----
    /// An entry with this stored form has an inode.
    pub open spec fn knows(self, discriminant: Seq<char>, data: Seq<char>) -> bool {
        exists|i: int|
            0 <= i < self.inodes.len() && (#[trigger] self.inodes[i]).discriminant == discriminant
                && self.inodes[i].data == data
    }

    /// The inode of the entry with this stored form.
    pub open spec fn inode_of(self, discriminant: Seq<char>, data: Seq<char>) -> u64 {
        self.inodes[choose|i: int|
            0 <= i < self.inodes.len() && (#[trigger] self.inodes[i]).discriminant == discriminant
                && self.inodes[i].data == data].id
    }

    /// The inode has a row.
    pub open spec fn has_inode(self, ino: u64) -> bool {
        exists|i: int| 0 <= i < self.inodes.len() && (#[trigger] self.inodes[i]).id == ino
    }

    /// The row of the inode.
    pub open spec fn row_of(self, ino: u64) -> InodeRow {
        self.inodes[choose|i: int|
            0 <= i < self.inodes.len() && (#[trigger] self.inodes[i]).id == ino]
    }

    /// The entry that the inode stands for, if the inode has a row and the
    /// row has a known discriminant.
    pub open spec fn entry_of(self, ino: u64) -> Option<EntryView> {
        if self.has_inode(ino) {
            parsed(self.row_of(ino).discriminant, self.row_of(ino).data)
        } else {
            None
        }
    }

    /// The tags of the directory that the inode stands for, if it stands for one.
    pub open spec fn dir_at(self, ino: u64) -> Option<Set<Seq<char>>> {
        match self.entry_of(ino) {
            Some(EntryView::Tags(tags)) => Some(tags),
            _ => None,
        }
    }

    /// The name of the file that the inode stands for, if it stands for one.
    pub open spec fn file_at(self, ino: u64) -> Option<Seq<char>> {
        match self.entry_of(ino) {
            Some(EntryView::File(name)) => Some(name),
            _ => None,
        }
    }

    /// There is room for `n` more inodes.
    pub open spec fn room_for_inodes(self, n: int) -> bool {
        self.next_inode + n <= MAX_ID + 1
    }

    /// The index with a new inode for this stored form.
    pub open spec fn with_inode(self, discriminant: Seq<char>, data: Seq<char>) -> Index {
        Index {
            inodes: self.inodes.push(InodeRow { id: self.next_inode, discriminant, data }),
            next_inode: (self.next_inode + 1) as u64,
            ..self
        }
    }

    /// The index in which this stored form has an inode.
    pub open spec fn ensure_inode(self, discriminant: Seq<char>, data: Seq<char>) -> Index {
        if self.knows(discriminant, data) {
            self
        } else {
            self.with_inode(discriminant, data)
        }
    }

    /// The index in which each of these stored forms has an inode, the new
    /// ones numbered in the order of the list.
    pub open spec fn ensure_inodes(self, keys: Seq<(Seq<char>, Seq<char>)>) -> Index
        decreases keys.len(),
    {
        if keys.len() == 0 {
            self
        } else {
            self.ensure_inode(keys[0].0, keys[0].1).ensure_inodes(keys.drop_first())
        }
    }

    /// The two states differ in their inodes at most.
    pub open spec fn same_tagging(self, other: Index) -> bool {
        &&& self.tags == other.tags
        &&& self.members == other.members
        &&& self.next_tag == other.next_tag
        &&& self.mountpoint == other.mountpoint
        &&& self.source == other.source
    }

    /// The two states differ in their tags and memberships at most.
    pub open spec fn same_inodes(self, other: Index) -> bool {
        &&& self.inodes == other.inodes
        &&& self.next_inode == other.next_inode
        &&& self.mountpoint == other.mountpoint
        &&& self.source == other.source
    }
}

// ----- facts about tags -----
/// In a well-formed index a name leads to the one row that holds it.
pub proof fn lemma_tag_row(s: Index, i: int)
    requires
        s.wf(),
        0 <= i < s.tags.len(),
    ensures
        s.has_tag(s.tags[i].tag),
        s.tag_place(s.tags[i].tag) == i,
        s.tag_id(s.tags[i].tag) == s.tags[i].id,
{
}

/// A file carries a tag exactly if the tag exists and its identifier is
/// paired with the file.
pub proof fn lemma_tagged(s: Index, file: Seq<char>, tag: Seq<char>)
    requires
        s.wf(),
    ensures
        s.tagged(file, tag) <==> s.has_tag(tag) && s.is_member(file, s.tag_id(tag)),
        s.tagged(file, tag) ==> is_tag_name(tag),
{
}

/// What a new tag changes: the tag exists with the identifier that was next,
/// every other tag keeps its identifier, and no file carries another tag
/// than before.
pub proof fn lemma_with_tag(s: Index, tag: Seq<char>)
    requires
        s.wf(),
        is_tag_name(tag),
        !s.has_tag(tag),
        s.room_for_tags(1),
    ensures
        s.with_tag(tag).wf(),
        s.with_tag(tag).has_tag(tag),
        s.with_tag(tag).tag_id(tag) == s.next_tag,
        forall|t: Seq<char>| s.with_tag(tag).has_tag(t) <==> s.has_tag(t) || t == tag,
        forall|t: Seq<char>| s.has_tag(t) ==> s.with_tag(tag).tag_id(t) == s.tag_id(t),
        forall|f: Seq<char>| #[trigger] s.with_tag(tag).file_tags(f) == s.file_tags(f),
{
    let t = s.with_tag(tag);
    let n = s.tags.len() as int;
    lemma_tag_row(t, n);
    assert forall|x: Seq<char>| t.has_tag(x) <==> s.has_tag(x) || x == tag by {
        if s.has_tag(x) {
            let i = s.tag_place(x);
            assert(t.tags[i].tag == x);
        }
    }
    assert forall|f: Seq<char>| #[trigger] t.file_tags(f) == s.file_tags(f) by {
        assert forall|x: Seq<char>| t.tagged(f, x) == s.tagged(f, x) by {
            lemma_tagged(s, f, x);
        }
    }
}

/// What a new membership changes: the file carries the tag of the
/// identifier as well, and nothing else is different.
pub proof fn lemma_with_member(s: Index, file: Seq<char>, tag: Seq<char>)
    requires
        s.wf(),
        s.has_tag(tag),
    ensures
        s.with_member(file, s.tag_id(tag)).wf(),
        s.with_member(file, s.tag_id(tag)).tags == s.tags,
        s.with_member(file, s.tag_id(tag)).file_tags(file) == s.file_tags(file).insert(tag),
        forall|g: Seq<char>|
            g != file ==> #[trigger] s.with_member(file, s.tag_id(tag)).file_tags(g)
                == s.file_tags(g),
{
    let id = s.tag_id(tag);
    let t = s.with_member(file, id);
    if !s.is_member(file, id) {
        let n = s.members.len() as int;
        assert forall|g: Seq<char>, x: Seq<char>|
            t.tagged(g, x) <==> s.tagged(g, x) || (g == file && x == tag) by {
            assert(t.tags == s.tags);
            let wanted = MemberRow { file: g, tag_id: s.tag_id(x) };
            if s.has_tag(x) {
                if s.members.contains(wanted) {
                    let k = choose|k: int| 0 <= k < s.members.len() && s.members[k] == wanted;
                    assert(t.members[k] == wanted);
                }
                if g == file && x == tag {
                    assert(t.members[n] == wanted);
                }
            }
        }
    }
}

/// What giving a tag to a file changes.
pub proof fn lemma_add_tag(s: Index, file: Seq<char>, tag: Seq<char>)
    requires
        s.wf(),
        is_tag_name(tag),
        s.has_tag(tag) || s.room_for_tags(1),
    ensures
        s.add_tag(file, tag).wf(),
        s.add_tag(file, tag).same_inodes(s),
        s.add_tag(file, tag).next_tag == (if s.has_tag(tag) {
            s.next_tag as int
        } else {
            s.next_tag + 1
        }),
        s.add_tag(file, tag).tags == s.ensure_tag(tag).tags,
        forall|t: Seq<char>| s.add_tag(file, tag).has_tag(t) <==> s.has_tag(t) || t == tag,
        s.add_tag(file, tag).file_tags(file) == s.file_tags(file).insert(tag),
        forall|g: Seq<char>|
            g != file ==> #[trigger] s.add_tag(file, tag).file_tags(g) == s.file_tags(g),
{
    let with = s.ensure_tag(tag);
    if !s.has_tag(tag) {
        lemma_with_tag(s, tag);
    }
    lemma_with_member(with, file, tag);
}

/// Giving a file a list of usable tags leaves it with the tags it had and
/// those of the list; all of them exist afterwards, and no other file is
/// touched.
pub proof fn lemma_add_tags(s: Index, file: Seq<char>, tags: Seq<Seq<char>>)
    requires
        s.wf(),
        forall|i: int| 0 <= i < tags.len() ==> is_tag_name(#[trigger] tags[i]),
        s.room_for_tags(tags.len() as int),
    ensures
        s.add_tags(file, tags).wf(),
        s.add_tags(file, tags).same_inodes(s),
        s.next_tag <= s.add_tags(file, tags).next_tag <= s.next_tag + tags.len(),
        forall|t: Seq<char>|
            s.add_tags(file, tags).has_tag(t) <==> s.has_tag(t) || tags.contains(t),
        s.add_tags(file, tags).file_tags(file) == s.file_tags(file).union(tags.to_set()),
        forall|g: Seq<char>|
            g != file ==> #[trigger] s.add_tags(file, tags).file_tags(g) == s.file_tags(g),
    decreases tags.len(),
{
    if tags.len() > 0 {
        let first = tags[0];
        let rest = tags.drop_first();
        let mid = s.add_tag(file, first);
        lemma_add_tag(s, file, first);
        lemma_add_tags(mid, file, rest);
        assert forall|t: Seq<char>| tags.contains(t) <==> t == first || rest.contains(t) by {
            if tags.contains(t) {
                let k = choose|k: int| 0 <= k < tags.len() && tags[k] == t;
                if k > 0 {
                    assert(rest[k - 1] == t);
                }
            }
        }
    }
}

/// Giving a file a tag that it carries changes nothing.
pub proof fn lemma_add_tag_again(s: Index, file: Seq<char>, tag: Seq<char>)
    requires
        s.wf(),
        s.tagged(file, tag),
    ensures
        s.add_tag(file, tag) == s,
{
    lemma_tagged(s, file, tag);
}

/// Giving a file the same tags a second time changes nothing: no tag and
/// no membership is there twice.
pub proof fn lemma_add_tags_again(s: Index, file: Seq<char>, tags: Seq<Seq<char>>)
    requires
        s.wf(),
        forall|i: int| 0 <= i < tags.len() ==> is_tag_name(#[trigger] tags[i]),
        s.room_for_tags(tags.len() as int),
    ensures
        s.add_tags(file, tags).add_tags(file, tags) == s.add_tags(file, tags),
{
    let once = s.add_tags(file, tags);
    lemma_add_tags(s, file, tags);
    assert forall|i: int| 0 <= i < tags.len() implies once.tagged(file, #[trigger] tags[i]) by {
        assert(tags.to_set().contains(tags[i]));
        assert(once.file_tags(file).contains(tags[i]));
    }
    lemma_add_carried_tags(once, file, tags);
}

/// Giving a file tags that it carries changes nothing.
pub proof fn lemma_add_carried_tags(s: Index, file: Seq<char>, tags: Seq<Seq<char>>)
    requires
        s.wf(),
        forall|i: int| 0 <= i < tags.len() ==> s.tagged(file, #[trigger] tags[i]),
    ensures
        s.add_tags(file, tags) == s,
    decreases tags.len(),
{
    if tags.len() > 0 {
        lemma_add_tag_again(s, file, tags[0]);
        let rest = tags.drop_first();
        assert forall|i: int| 0 <= i < rest.len() implies s.tagged(file, #[trigger] rest[i]) by {
            assert(rest[i] == tags[i + 1]);
        }
        lemma_add_carried_tags(s, file, rest);
    }
}

/// A list keeps its order and its members when some rows are struck from it.
pub proof fn lemma_filter_no_duplicates<A>(s: Seq<A>, pred: spec_fn(A) -> bool)
    requires
        s.no_duplicates(),
    ensures
        s.filter(pred).no_duplicates(),
        forall|x: A| #[trigger] s.filter(pred).contains(x) <==> s.contains(x) && pred(x),
    decreases s.len(),
{
    reveal(Seq::filter);
    if s.len() > 0 {
        let front = s.drop_last();
        let last = s.last();
        lemma_filter_no_duplicates(front, pred);
        let kept = front.filter(pred);
        if pred(last) {
            let out = kept.push(last);
            assert(s.filter(pred) == out);
            assert(!kept.contains(last));
            assert forall|x: A| out.contains(x) <==> s.contains(x) && pred(x) by {
                if out.contains(x) {
                    let k = choose|k: int| 0 <= k < out.len() && out[k] == x;
                    if k < kept.len() {
                        assert(kept.contains(kept[k]));
                    }
                }
            }
        }
    }
}

/// A list without one of its rows holds the other rows, each once.
pub proof fn lemma_remove_no_duplicates<A>(s: Seq<A>, j: int)
    requires
        s.no_duplicates(),
        0 <= j < s.len(),
    ensures
        s.remove(j).no_duplicates(),
        forall|x: A| #[trigger] s.remove(j).contains(x) <==> s.contains(x) && x != s[j],
{
    let t = s.remove(j);
    assert forall|x: A| #[trigger] t.contains(x) <==> s.contains(x) && x != s[j] by {
        if s.contains(x) && x != s[j] {
            let k = choose|k: int| 0 <= k < s.len() && s[k] == x;
            if k < j {
                assert(t[k] == x);
            } else {
                assert(t[k - 1] == x);
            }
        }
    }
}

/// What taking a tag from a file changes: the file no longer carries it,
/// and nothing else is different.
pub proof fn lemma_remove_tag(s: Index, file: Seq<char>, tag: Seq<char>)
    requires
        s.wf(),
    ensures
        s.remove_tag(file, tag).wf(),
        s.remove_tag(file, tag).same_inodes(s),
        s.remove_tag(file, tag).tags == s.tags,
        s.remove_tag(file, tag).next_tag == s.next_tag,
        s.remove_tag(file, tag).file_tags(file) == s.file_tags(file).remove(tag),
        forall|g: Seq<char>|
            g != file ==> #[trigger] s.remove_tag(file, tag).file_tags(g) == s.file_tags(g),
{
    if s.tagged(file, tag) {
        let gone = MemberRow { file, tag_id: s.tag_id(tag) };
        let j = s.members.index_of(gone);
        lemma_remove_no_duplicates(s.members, j);
    }
}

/// Taking a list of tags from a file leaves it with the tags it had, less
/// those of the list; no tag is deleted and no other file is touched.
pub proof fn lemma_remove_tags(s: Index, file: Seq<char>, tags: Seq<Seq<char>>)
    requires
        s.wf(),
    ensures
        s.remove_tags(file, tags).wf(),
        s.remove_tags(file, tags).same_inodes(s),
        s.remove_tags(file, tags).tags == s.tags,
        s.remove_tags(file, tags).next_tag == s.next_tag,
        s.remove_tags(file, tags).file_tags(file) == s.file_tags(file).difference(
            tags.to_set(),
        ),
        forall|g: Seq<char>|
            g != file ==> #[trigger] s.remove_tags(file, tags).file_tags(g) == s.file_tags(g),
    decreases tags.len(),
{
    if tags.len() > 0 {
        let first = tags[0];
        let rest = tags.drop_first();
        let mid = s.remove_tag(file, first);
        lemma_remove_tag(s, file, first);
        lemma_remove_tags(mid, file, rest);
        assert forall|t: Seq<char>| tags.contains(t) <==> t == first || rest.contains(t) by {
            if tags.contains(t) {
                let k = choose|k: int| 0 <= k < tags.len() && tags[k] == t;
                if k > 0 {
                    assert(rest[k - 1] == t);
                }
            }
        }
    }
}

/// What deleting a tag changes: the tag is gone, every file has lost it,
/// and every other tag stays where it was.
pub proof fn lemma_delete_tag(s: Index, tag: Seq<char>)
    requires
        s.wf(),
        s.has_tag(tag),
    ensures
        s.delete_tag(tag).wf(),
        s.delete_tag(tag).same_inodes(s),
        s.delete_tag(tag).next_tag == s.next_tag,
        forall|t: Seq<char>| s.delete_tag(tag).has_tag(t) <==> s.has_tag(t) && t != tag,
        forall|f: Seq<char>|
            #[trigger] s.delete_tag(tag).file_tags(f) == s.file_tags(f).remove(tag),
{
    let t = s.delete_tag(tag);
    let p = s.tag_place(tag);
    let id = s.tag_id(tag);
    let pred = not_of_tag(id);
    lemma_filter_no_duplicates(s.members, pred);
    assert forall|i: int| 0 <= i < t.members.len() implies (#[trigger] t.members[i]).tag_id
        < t.next_tag by {
        assert(t.members.contains(t.members[i]));
    }
    assert forall|x: Seq<char>| t.has_tag(x) <==> s.has_tag(x) && x != tag by {
        if s.has_tag(x) && x != tag {
            let q = s.tag_place(x);
            if q < p {
                assert(t.tags[q] == s.tags[q]);
            } else {
                assert(t.tags[q - 1] == s.tags[q]);
            }
        }
    }
    assert forall|f: Seq<char>| #[trigger] t.file_tags(f) == s.file_tags(f).remove(tag) by {
        assert forall|x: Seq<char>| t.tagged(f, x) <==> s.tagged(f, x) && x != tag by {
            if s.has_tag(x) && x != tag {
                lemma_tag_row(s, s.tag_place(x));
            }
        }
    }
}

/// Deleting a list of different tags succeeds exactly if all of them
/// exist; then none of them exists afterwards and every file has lost them.
pub proof fn lemma_delete_tags(s: Index, tags: Seq<Seq<char>>)
    requires
        s.wf(),
        tags.no_duplicates(),
    ensures
        s.delete_tags(tags).0.wf(),
        s.delete_tags(tags).0.same_inodes(s),
        s.delete_tags(tags).0.next_tag == s.next_tag,
        s.delete_tags(tags).1 <==> (forall|i: int|
            0 <= i < tags.len() ==> s.has_tag(#[trigger] tags[i])),
        s.delete_tags(tags).1 ==> (forall|t: Seq<char>|
            s.delete_tags(tags).0.has_tag(t) <==> s.has_tag(t) && !tags.contains(t)),
        s.delete_tags(tags).1 ==> (forall|f: Seq<char>|
            #[trigger] s.delete_tags(tags).0.file_tags(f) == s.file_tags(f).difference(
                tags.to_set(),
            )),
    decreases tags.len(),
{
    if tags.len() > 0 && s.has_tag(tags[0]) {
        let first = tags[0];
        let rest = tags.drop_first();
        let mid = s.delete_tag(first);
        lemma_delete_tag(s, first);
        lemma_delete_tags(mid, rest);
        assert forall|t: Seq<char>| tags.contains(t) <==> t == first || rest.contains(t) by {
            if tags.contains(t) {
                let k = choose|k: int| 0 <= k < tags.len() && tags[k] == t;
                if k > 0 {
                    assert(rest[k - 1] == t);
                }
            }
        }
        if forall|i: int| 0 <= i < rest.len() ==> mid.has_tag(#[trigger] rest[i]) {
            assert forall|i: int| 0 <= i < tags.len() implies s.has_tag(#[trigger] tags[i]) by {
                if i > 0 {
                    assert(rest[i - 1] == tags[i]);
                }
            }
        }
    }
}

// ----- facts about inodes -----
/// In a well-formed index a stored form and an inode number each lead to
/// the one row that holds them.
pub proof fn lemma_inode_row(s: Index, i: int)
    requires
        s.wf(),
        0 <= i < s.inodes.len(),
    ensures
        s.knows(s.inodes[i].discriminant, s.inodes[i].data),
        s.inode_of(s.inodes[i].discriminant, s.inodes[i].data) == s.inodes[i].id,
        s.has_inode(s.inodes[i].id),
        s.row_of(s.inodes[i].id) == s.inodes[i],
{
}

/// What a new inode changes: the stored form has the number that was next,
/// and every other stored form and every other number is as before.
pub proof fn lemma_with_inode(s: Index, discriminant: Seq<char>, data: Seq<char>)
    requires
        s.wf(),
        !s.knows(discriminant, data),
        s.room_for_inodes(1),
    ensures
        s.with_inode(discriminant, data).wf(),
        s.with_inode(discriminant, data).same_tagging(s),
        s.with_inode(discriminant, data).knows(discriminant, data),
        s.with_inode(discriminant, data).inode_of(discriminant, data) == s.next_inode,
        !s.has_inode(s.next_inode),
        forall|d: Seq<char>, x: Seq<char>|
            s.with_inode(discriminant, data).knows(d, x) <==> s.knows(d, x) || (d
                == discriminant && x == data),
        forall|d: Seq<char>, x: Seq<char>|
            s.knows(d, x) ==> s.with_inode(discriminant, data).inode_of(d, x) == s.inode_of(d, x),
        forall|ino: u64|
            s.with_inode(discriminant, data).has_inode(ino) <==> s.has_inode(ino) || ino
                == s.next_inode,
        forall|ino: u64|
            s.has_inode(ino) ==> s.with_inode(discriminant, data).row_of(ino) == s.row_of(ino),
        s.with_inode(discriminant, data).row_of(s.next_inode) == (InodeRow {
            id: s.next_inode,
            discriminant,
            data,
        }),
{
    let t = s.with_inode(discriminant, data);
    let n = s.inodes.len() as int;
    lemma_inode_row(t, n);
    assert forall|d: Seq<char>, x: Seq<char>|
        t.knows(d, x) <==> s.knows(d, x) || (d == discriminant && x == data) by {
        if s.knows(d, x) {
            let i = choose|i: int|
                0 <= i < s.inodes.len() && (#[trigger] s.inodes[i]).discriminant == d
                    && s.inodes[i].data == x;
            assert(t.inodes[i] == s.inodes[i]);
        }
    }
    assert forall|ino: u64| t.has_inode(ino) <==> s.has_inode(ino) || ino == s.next_inode by {
        if s.has_inode(ino) {
            let i = choose|i: int| 0 <= i < s.inodes.len() && (#[trigger] s.inodes[i]).id == ino;
            assert(t.inodes[i] == s.inodes[i]);
        }
    }
}

/// What making sure of an inode changes: the stored form has an inode, the
/// one it had if it had one; nothing that was known is different.
pub proof fn lemma_ensure_inode(s: Index, discriminant: Seq<char>, data: Seq<char>)
    requires
        s.wf(),
        s.knows(discriminant, data) || s.room_for_inodes(1),
    ensures
        s.ensure_inode(discriminant, data).wf(),
        s.ensure_inode(discriminant, data).same_tagging(s),
        s.ensure_inode(discriminant, data).knows(discriminant, data),
        s.next_inode <= s.ensure_inode(discriminant, data).next_inode <= s.next_inode + 1,
        forall|d: Seq<char>, x: Seq<char>|
            s.ensure_inode(discriminant, data).knows(d, x) <==> s.knows(d, x) || (d
                == discriminant && x == data),
        forall|d: Seq<char>, x: Seq<char>|
            s.knows(d, x) ==> s.ensure_inode(discriminant, data).inode_of(d, x) == s.inode_of(
                d,
                x,
            ),
        forall|ino: u64|
            s.has_inode(ino) ==> s.ensure_inode(discriminant, data).has_inode(ino)
                && s.ensure_inode(discriminant, data).row_of(ino) == s.row_of(ino),
        s.ensure_inode(discriminant, data).has_inode(
            s.ensure_inode(discriminant, data).inode_of(discriminant, data),
        ),
        s.ensure_inode(discriminant, data).row_of(
            s.ensure_inode(discriminant, data).inode_of(discriminant, data),
        ) == (InodeRow {
            id: s.ensure_inode(discriminant, data).inode_of(discriminant, data),
            discriminant,
            data,
        }),
{
    if !s.knows(discriminant, data) {
        lemma_with_inode(s, discriminant, data);
    }
}

/// The inode that an entry is given leads back to the entry: once a valid
/// entry has an inode, whether it had one before or got it now, the entry of
/// that inode is the entry itself.
pub proof fn lemma_inode_round_trip(s: Index, entry: Entry)
    requires
        s.wf(),
        entry.valid(),
        s.knows(persisted(entry@).0, persisted(entry@).1) || s.room_for_inodes(1),
    ensures
        ({
            let key = persisted(entry@);
            let t = s.ensure_inode(key.0, key.1);
            t.entry_of(t.inode_of(key.0, key.1)) == Some(entry@)
        }),
{
    let key = persisted(entry@);
    lemma_ensure_inode(s, key.0, key.1);
    lemma_parse_persisted(entry);
}

/// Two valid entries share an inode only if they are the same entry.
pub proof fn lemma_inode_injective(s: Index, a: Entry, b: Entry)
    requires
        s.wf(),
        a.valid(),
        b.valid(),
        s.knows(persisted(a@).0, persisted(a@).1),
        s.knows(persisted(b@).0, persisted(b@).1),
        s.inode_of(persisted(a@).0, persisted(a@).1) == s.inode_of(
            persisted(b@).0,
            persisted(b@).1,
        ),
    ensures
        a@ == b@,
{
    crate::entry::lemma_persisted_injective(a, b);
}

/// Making sure of one more inode after a list of others.
pub proof fn lemma_ensure_inodes_push(
    s: Index,
    keys: Seq<(Seq<char>, Seq<char>)>,
    key: (Seq<char>, Seq<char>),
)
    ensures
        s.ensure_inodes(keys.push(key)) == s.ensure_inodes(keys).ensure_inode(key.0, key.1),
    decreases keys.len(),
{
    if keys.len() == 0 {
        assert(keys.push(key).drop_first() =~= keys);
        assert(s.ensure_inode(key.0, key.1).ensure_inodes(keys) == s.ensure_inode(key.0, key.1));
    } else {
        assert(keys.push(key).drop_first() =~= keys.drop_first().push(key));
        lemma_ensure_inodes_push(s.ensure_inode(keys[0].0, keys[0].1), keys.drop_first(), key);
    }
}

/// Making sure of a list of inodes never changes what was there: the tags
/// and memberships stay, every stored form that had an inode keeps it, and
/// every stored form of the list has one afterwards.
pub proof fn lemma_ensure_inodes(s: Index, keys: Seq<(Seq<char>, Seq<char>)>)
    requires
        s.wf(),
        s.room_for_inodes(keys.len() as int),
    ensures
        s.ensure_inodes(keys).wf(),
        s.ensure_inodes(keys).same_tagging(s),
        s.next_inode <= s.ensure_inodes(keys).next_inode <= s.next_inode + keys.len(),
        forall|d: Seq<char>, x: Seq<char>|
            s.knows(d, x) ==> s.ensure_inodes(keys).knows(d, x) && s.ensure_inodes(
                keys,
            ).inode_of(d, x) == s.inode_of(d, x),
        forall|ino: u64|
            s.has_inode(ino) ==> s.ensure_inodes(keys).has_inode(ino) && s.ensure_inodes(
                keys,
            ).row_of(ino) == s.row_of(ino),
        forall|i: int|
            0 <= i < keys.len() ==> s.ensure_inodes(keys).knows(
                (#[trigger] keys[i]).0,
                keys[i].1,
            ),
    decreases keys.len(),
{
    if keys.len() > 0 {
        let first = keys[0];
        let rest = keys.drop_first();
        let mid = s.ensure_inode(first.0, first.1);
        let end = s.ensure_inodes(keys);
        lemma_ensure_inode(s, first.0, first.1);
        lemma_ensure_inodes(mid, rest);
        assert forall|i: int| 0 <= i < keys.len() implies end.knows(
            (#[trigger] keys[i]).0,
            keys[i].1,
        ) by {
            if i > 0 {
                assert(rest[i - 1] == keys[i]);
            }
        }
    }
}

} // verus!
