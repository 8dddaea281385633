//! The file system surface: what each request means for the index and for
//! the backing source.
//!
//! A directory stands for a set of tags and shows the backing files that
//! carry all of them.  The functions here decide; they neither read nor
//! change the backing source.  The caller hands in what it read there (the
//! metadata of a path, the listing of the source directory) and carries out
//! what a function returns.

use crate::attr::{
    attr_of, file_attr_of_file, plan_setattr, setattr_plan, FileAttr, FileType, Metadata,
    SetAttrPlan, TimeOrNow, Timestamp,
};
use crate::database::TagsFsDb;
use crate::entry::{
    canonical, lemma_names_are_canonical, persisted, tags_discriminant, Entry, EntryView,
};
use crate::error::{DatabaseError, Errno, Error};
use crate::index::{
    lemma_delete_tag, lemma_ensure_inode, lemma_ensure_inodes, lemma_ensure_inodes_push, Index,
    MAX_ID,
};
use crate::listing::{
    key_of, keys_of, lemma_shown_files, lemma_shown_tags, shown, shown_files, shown_tags, Listed,
    Shown,
};
use crate::tag::{is_tag_name, is_valid_tag, lemma_ascending_unique, names_of, TagSet};
use vstd::prelude::*;

verus! {

/// The inode of the root directory.
pub const ROOT_INODE: u64 = 1;

/// `fuser`'s `FUSE_ROOT_ID`, the inode number under which the kernel asks
/// for the root of a mounted file system: the constant 1.
#[verifier::external_body]
fn fuse_root_id() -> (id: u64)
    ensures
        id == ROOT_INODE,
{
    fuser::FUSE_ROOT_ID
}

/// The root directory: the directory of no tags.
pub open spec fn root() -> EntryView {
    EntryView::Tags(Set::empty())
}

/// The stored form of a file entry.
pub open spec fn file_key(name: Seq<char>) -> (Seq<char>, Seq<char>) {
    persisted(EntryView::File(name))
}

/// The stored form of a directory entry.
pub open spec fn dir_key(tags: Set<Seq<char>>) -> (Seq<char>, Seq<char>) {
    persisted(EntryView::Tags(tags))
}

/// The root directory is stored with an empty data string.
pub proof fn lemma_root_key()
    ensures
        persisted(root()) == (tags_discriminant(), Seq::<char>::empty()),
{
    let none = Seq::<Seq<char>>::empty();
    assert(none.to_set() =~= Set::<Seq<char>>::empty());
    lemma_ascending_unique(none, canonical(Set::<Seq<char>>::empty()));
}

/// The path in the backing source that stands behind an inode.
#[derive(Debug, PartialEq, Eq)]
pub enum Target {
    /// The backing file of this name.
    File(String),
    /// The source directory itself, which stands behind every directory.
    Source,
}

/// What is left to do for a request to unlink a file.
#[derive(Clone, Copy, Debug, PartialEq, Eq, Structural)]
pub enum Unlink {
    /// The request came from the root: the backing file is to be deleted.
    RemoveFile,
    /// The request came from a tag directory: the file has lost the tags of
    /// the directory, and the backing file stays.
    KeepFile,
}

/// A path that the listing of the source directory gave.
#[derive(Clone, Debug, PartialEq, Eq)]
pub struct DirItem {
    pub name: String,
    /// Whether the path is a regular file.
    pub is_file: bool,
}

impl View for DirItem {
    type V = Listed;

    open spec fn view(&self) -> Listed {
        Listed { name: self.name@, is_file: self.is_file }
    }
}

/// The paths that a listing of the source directory stands for.
pub open spec fn listed(v: Seq<DirItem>) -> Seq<Listed> {
    v.map_values(|d: DirItem| d@)
}

/// An entry of a directory as it is handed to the kernel.
#[derive(Clone, Debug, PartialEq, Eq)]
pub struct DirEntry {
    pub ino: u64,
    /// The place of the entry, after which a listing can be taken up.
    pub offset: i64,
    pub kind: FileType,
    pub name: String,
}

impl View for DirEntry {
    type V = Shown;

    open spec fn view(&self) -> Shown {
        Shown { offset: self.offset as int, kind: self.kind, name: self.name@ }
    }
}

/// The entries `out` are those of `shape`, each with the inode that the
/// index `cur` has for it.
pub open spec fn listed_in(cur: Index, shape: Seq<Shown>, out: Seq<DirEntry>) -> bool {
    &&& out.len() == shape.len()
    &&& forall|k: int|
        0 <= k < shape.len() ==> {
            &&& (#[trigger] out[k])@ == shape[k]
            &&& cur.knows(key_of(shape[k]).0, key_of(shape[k]).1)
            &&& out[k].ino == cur.inode_of(key_of(shape[k]).0, key_of(shape[k]).1)
        }
}

/// One more entry with its inode keeps a listing in step with the index.
pub proof fn lemma_listed_push(
    before: Index,
    cur: Index,
    shape: Seq<Shown>,
    out: Seq<DirEntry>,
    entry: DirEntry,
)
    requires
        cur.wf(),
        cur == before.ensure_inodes(keys_of(shape)),
        listed_in(cur, shape, out),
        cur.knows(key_of(entry@).0, key_of(entry@).1) || cur.room_for_inodes(1),
        entry.ino == cur.ensure_inode(key_of(entry@).0, key_of(entry@).1).inode_of(
            key_of(entry@).0,
            key_of(entry@).1,
        ),
    ensures
        ({
            let next = cur.ensure_inode(key_of(entry@).0, key_of(entry@).1);
            &&& next == before.ensure_inodes(keys_of(shape.push(entry@)))
            &&& listed_in(next, shape.push(entry@), out.push(entry))
        }),
{
    let key = key_of(entry@);
    lemma_ensure_inode(cur, key.0, key.1);
    lemma_ensure_inodes_push(before, keys_of(shape), key);
    assert(keys_of(shape.push(entry@)) =~= keys_of(shape).push(key));
}

/// A tag file system over an index and a source directory.
#[derive(Debug)]
pub struct TagsFs {
    pub db: TagsFsDb,
    pub source: String,
}

impl TagsFs {
    /// The index keeps its rules.
    pub open spec fn wf(&self) -> bool {
        self.db.wf()
    }

    /// A file system over `db`, with the backing files in `source`, or where
    /// the index says they are if no source is given.
    pub fn new(db: TagsFsDb, source: Option<String>) -> (r: Result<TagsFs, Error>)
        ensures
            match (source, db@.source) {
                (Some(path), _) => r is Ok && r->Ok_0.source@ == path@ && r->Ok_0.db == db,
                (None, Some(path)) => r is Ok && r->Ok_0.source@ == path && r->Ok_0.db == db,
                (None, None) => r is Err && r->Err_0 == Error::Database(
                    DatabaseError::QueryReturnedNoRows,
                ),
            },
    {
        let source = match source {
            Some(source) => source,
            None => match db.source() {
                Ok(path) => path,
                Err(e) => {
                    return Err(e);
                },
            },
        };
        Ok(TagsFs { db, source })
    }

    /// Checks that the index is fit to be mounted: the root directory must
    /// have the inode under which the kernel asks for the root.
    pub fn init(&self) -> (r: Result<(), Errno>)
        requires
            self.wf(),
        ensures
            r == (if self.db@.knows(tags_discriminant(), Seq::empty()) && self.db@.inode_of(
                tags_discriminant(),
                Seq::empty(),
            ) == ROOT_INODE {
                Ok::<(), Errno>(())
            } else {
                Err::<(), Errno>(Errno::NoDevice)
            }),
    {
        proof {
            lemma_root_key();
        }
        let root_entry = Entry::Tags(TagSet::new());
        match self.db.inode(&root_entry) {
            Ok(ino) => {
                if ino == fuse_root_id() {
                    Ok(())
                } else {
                    Err(Errno::NoDevice)
                }
            },
            Err(_) => Err(Errno::NoDevice),
        }
    }

    /// The tags of the directory that the inode stands for.
    fn directory(&self, ino: u64) -> (r: Option<TagSet>)
        requires
            self.wf(),
        ensures
            match self.db@.dir_at(ino) {
                Some(tags) => r is Some && r->0@ == tags && r->0.wf() && r->0.all_valid(),
                None => r is None,
            },
    {
        match self.db.entry(ino) {
            Ok(Entry::Tags(tags)) => Some(tags),
            _ => None,
        }
    }

    /// The name of the backing file that the inode stands for.
    fn backing_file(&self, ino: u64) -> (r: Option<String>)
        requires
            self.wf(),
        ensures
            match self.db@.file_at(ino) {
                Some(name) => r is Some && r->0@ == name,
                None => r is None,
            },
    {
        match self.db.entry(ino) {
            Ok(Entry::File(name)) => Some(name),
            _ => None,
        }
    }

    /// The path whose metadata stands for the inode: the backing file of a
    /// file, the source directory for a directory, none for an inode that
    /// stands for nothing.
    pub fn target(&self, ino: u64) -> (r: Option<Target>)
        requires
            self.wf(),
        ensures
            match self.db@.entry_of(ino) {
                Some(EntryView::File(name)) => r matches Some(Target::File(n)) && n@ == name,
                Some(EntryView::Tags(_)) => r matches Some(Target::Source),
                None => r is None,
            },
    {
        match self.db.entry(ino) {
            Ok(Entry::File(name)) => Some(Target::File(name)),
            Ok(Entry::Tags(_)) => Some(Target::Source),
            Err(_) => None,
        }
    }

    /// The attributes of an inode.  `metadata` is that of the inode's
    /// target, or none where the target is not there.
    pub fn getattr(&self, ino: u64, metadata: Option<&Metadata>) -> (r: Result<FileAttr, Errno>)
        requires
            self.wf(),
        ensures
            r == (if self.db@.entry_of(ino) is Some && metadata is Some {
                Ok::<FileAttr, Errno>(attr_of(ino, *metadata->0))
            } else {
                Err::<FileAttr, Errno>(Errno::NoEntry)
            }),
    {
        match self.db.entry(ino) {
            Ok(_) => match metadata {
                Some(m) => Ok(file_attr_of_file(ino, m)),
                None => Err(Errno::NoEntry),
            },
            Err(_) => Err(Errno::NoEntry),
        }
    }

    /// The changes that a request to set attributes asks of a backing file.
    /// Only a file whose backing file is there can have its attributes set.
    pub fn setattr(
        &self,
        ino: u64,
        metadata: Option<&Metadata>,
        mode: Option<u32>,
        uid: Option<u32>,
        gid: Option<u32>,
        size: Option<u64>,
        atime: Option<TimeOrNow>,
        mtime: Option<TimeOrNow>,
        now: Timestamp,
    ) -> (r: Result<SetAttrPlan, Errno>)
        requires
            self.wf(),
        ensures
            r == (if self.db@.file_at(ino) is Some && metadata is Some {
                Ok::<SetAttrPlan, Errno>(
                    setattr_plan(
                        attr_of(ino, *metadata->0),
                        mode,
                        uid,
                        gid,
                        size,
                        atime,
                        mtime,
                        now,
                    ),
                )
            } else {
                Err::<SetAttrPlan, Errno>(Errno::InvalidArgument)
            }),
    {
        match self.backing_file(ino) {
            Some(_) => match metadata {
                Some(m) => {
                    let attr = file_attr_of_file(ino, m);
                    Ok(plan_setattr(attr, mode, uid, gid, size, atime, mtime, now))
                },
                None => Err(Errno::InvalidArgument),
            },
            None => Err(Errno::InvalidArgument),
        }
    }

    /// The backing file to read for an inode.  A directory holds no data.
    pub fn read(&self, ino: u64) -> (r: Result<String, Errno>)
        requires
            self.wf(),
        ensures
            match self.db@.entry_of(ino) {
                Some(EntryView::File(name)) => r is Ok && r->Ok_0@ == name,
                Some(EntryView::Tags(_)) => r is Err && r->Err_0 == Errno::NoData,
                None => r is Err && r->Err_0 == Errno::NoEntry,
            },
    {
        match self.db.entry(ino) {
            Ok(Entry::File(name)) => Ok(name),
            Ok(Entry::Tags(_)) => Err(Errno::NoData),
            Err(_) => Err(Errno::NoEntry),
        }
    }

    /// The backing file to write for an inode.
    pub fn write(&self, ino: u64) -> (r: Result<String, Errno>)
        requires
            self.wf(),
        ensures
            match self.db@.file_at(ino) {
                Some(name) => r is Ok && r->Ok_0@ == name,
                None => r is Err && r->Err_0 == Errno::InvalidArgument,
            },
    {
        match self.backing_file(ino) {
            Some(name) => Ok(name),
            None => Err(Errno::InvalidArgument),
        }
    }

    /// The mode with which to create a backing file, unless the file is
    /// there already.
    pub fn create_mode(exists: bool, mode: u32, umask: u32) -> (r: Result<u32, Errno>)
        ensures
            r == (if exists {
                Err::<u32, Errno>(Errno::Exists)
            } else {
                Ok::<u32, Errno>(mode & !umask)
            }),
    {
        if exists {
            Err(Errno::Exists)
        } else {
            Ok(mode & !umask)
        }
    }

    /// Takes a file out of a directory.  In the root that is the end of the
    /// backing file, which the caller deletes; in a tag directory the file
    /// loses the tags of the directory and stays.
    pub fn unlink(&mut self, parent: u64, name: &str) -> (r: Result<Unlink, Errno>)
        requires
            old(self).wf(),
        ensures
            final(self).wf(),
            final(self).source == old(self).source,
            match old(self).db@.dir_at(parent) {
                None => r == Err::<Unlink, Errno>(Errno::InvalidArgument) && final(self).db@
                    == old(self).db@,
                Some(tags) => if tags == Set::<Seq<char>>::empty() {
                    &&& r == Ok::<Unlink, Errno>(Unlink::RemoveFile)
                    &&& final(self).db@ == old(self).db@
                    &&& old(self).db@.file_tags(name@) == Set::<Seq<char>>::empty()
                        ==> final(self).db@.file_tags(name@) == Set::<Seq<char>>::empty()
                } else {
                    &&& r == Ok::<Unlink, Errno>(Unlink::KeepFile)
                    &&& final(self).db@ == old(self).db@.remove_tags(name@, canonical(tags))
                    &&& final(self).db@.same_inodes(old(self).db@)
                    &&& final(self).db@.tags == old(self).db@.tags
                    &&& final(self).db@.file_tags(name@) == old(self).db@.file_tags(
                        name@,
                    ).difference(tags)
                    &&& forall|t: Seq<char>|
                        tags.contains(t) ==> !final(self).db@.file_tags(name@).contains(t)
                    &&& forall|g: Seq<char>|
                        g != name@ ==> #[trigger] final(self).db@.file_tags(g) == old(
                            self,
                        ).db@.file_tags(g)
                },
            },
    {
        let tags = match self.directory(parent) {
            Some(tags) => tags,
            None => {
                return Err(Errno::InvalidArgument);
            },
        };
        if tags.is_empty() {
            Ok(Unlink::RemoveFile)
        } else {
            proof {
                lemma_names_are_canonical(tags);
            }
            let _ = self.db.remove_tags_from_file(&tags, name);
            Ok(Unlink::KeepFile)
        }
    }

    /// Deletes the tag of this name, whatever the directory it is asked in.
    pub fn rmdir(&mut self, parent: u64, name: &str) -> (r: Result<(), Errno>)
        requires
            old(self).wf(),
        ensures
            final(self).wf(),
            final(self).source == old(self).source,
            final(self).db@.same_inodes(old(self).db@),
            if old(self).db@.has_tag(name@) {
                &&& r is Ok
                &&& final(self).db@ == old(self).db@.delete_tag(name@)
                &&& forall|t: Seq<char>|
                    final(self).db@.has_tag(t) <==> old(self).db@.has_tag(t) && t != name@
                &&& forall|f: Seq<char>| #[trigger]
                    final(self).db@.file_tags(f) == old(self).db@.file_tags(f).remove(name@)
            } else {
                r == Err::<(), Errno>(Errno::NoEntry) && final(self).db@ == old(self).db@
            },
    {
        let tags = TagSet::singleton(name.to_owned());
        proof {
            let before = self.db@;
            let names = tags.names();
            if before.has_tag(name@) {
                lemma_delete_tag(before, name@);
                assert(before.delete_tag(name@).delete_tags(names.drop_first()) == (
                    before.delete_tag(name@),
                    true,
                ));
            }
            assert(tags@.contains(name@));
            assert(forall|f: Seq<char>| #[trigger]
                before.file_tags(f).difference(tags@) == before.file_tags(f).remove(name@));
        }
        match self.db.delete_tags(&tags) {
            Ok(()) => Ok(()),
            Err(_) => Err(Errno::NoEntry),
        }
    }

    /// Moves a file from one directory to another: the file loses the tags
    /// that only the old directory has and gets the tags that only the new
    /// one has.  The name stays.
    ///
    /// Nothing is changed where the identifiers that are left would not do
    /// for as many new tags as the file is to get.
    pub fn rename(&mut self, parent: u64, name: &str, newparent: u64) -> (r: Result<(), Errno>)
        requires
            old(self).wf(),
        ensures
            final(self).wf(),
            final(self).source == old(self).source,
            final(self).db@.same_inodes(old(self).db@),
            match (old(self).db@.dir_at(parent), old(self).db@.dir_at(newparent)) {
                (Some(from), Some(to)) => {
                    let lost = canonical(from.difference(to));
                    let won = canonical(to.difference(from));
                    let before = old(self).db@.file_tags(name@);
                    if old(self).db@.room_for_tags(won.len() as int) {
                        &&& r is Ok
                        &&& final(self).db@ == old(self).db@.remove_tags(name@, lost).add_tags(
                            name@,
                            won,
                        )
                        &&& final(self).db@.file_tags(name@) == before.difference(
                            from.difference(to),
                        ).union(to.difference(from))
                        &&& from.subset_of(before) ==> final(self).db@.file_tags(name@)
                            == before.difference(from).union(to)
                        &&& forall|g: Seq<char>|
                            g != name@ ==> #[trigger] final(self).db@.file_tags(g) == old(
                                self,
                            ).db@.file_tags(g)
                    } else {
                        r == Err::<(), Errno>(Errno::NoDevice) && final(self).db@ == old(
                            self,
                        ).db@
                    }
                },
                _ => r == Err::<(), Errno>(Errno::InvalidArgument) && final(self).db@ == old(
                    self,
                ).db@,
            },
    {
        let from = match self.directory(parent) {
            Some(tags) => tags,
            None => {
                return Err(Errno::InvalidArgument);
            },
        };
        let to = match self.directory(newparent) {
            Some(tags) => tags,
            None => {
                return Err(Errno::InvalidArgument);
            },
        };
        let lost = from.difference(&to);
        let won = to.difference(&from);
        proof {
            lemma_names_are_canonical(lost);
            lemma_names_are_canonical(won);
        }
        if !self.db.has_room_for_tags(won.len() as u64) {
            return Err(Errno::NoDevice);
        }
        let _ = self.db.remove_tags_from_file(&lost, name);
        let added = self.db.add_tags_to_file(&won, name);
        match added {
            Ok(()) => Ok(()),
            Err(_) => Err(Errno::NoDevice),
        }
    }

    /// Shows a file in one more directory: the file gets the tags of the
    /// directory.  Gives the name of the file.
    pub fn link(&mut self, ino: u64, newparent: u64) -> (r: Result<String, Errno>)
        requires
            old(self).wf(),
        ensures
            final(self).wf(),
            final(self).source == old(self).source,
            final(self).db@.same_inodes(old(self).db@),
            match (old(self).db@.file_at(ino), old(self).db@.dir_at(newparent)) {
                (Some(name), Some(tags)) => if old(self).db@.room_for_tags(
                    canonical(tags).len() as int,
                ) {
                    &&& r is Ok
                    &&& r->Ok_0@ == name
                    &&& final(self).db@ == old(self).db@.add_tags(name, canonical(tags))
                    &&& final(self).db@.file_tags(name) == old(self).db@.file_tags(name).union(
                        tags,
                    )
                    &&& forall|g: Seq<char>|
                        g != name ==> #[trigger] final(self).db@.file_tags(g) == old(
                            self,
                        ).db@.file_tags(g)
                } else {
                    r is Err && r->Err_0 == Errno::NoDevice && final(self).db@ == old(self).db@
                },
                _ => r is Err && r->Err_0 == Errno::InvalidArgument && final(self).db@ == old(
                    self,
                ).db@,
            },
    {
        let name = match self.backing_file(ino) {
            Some(name) => name,
            None => {
                return Err(Errno::InvalidArgument);
            },
        };
        let tags = match self.directory(newparent) {
            Some(tags) => tags,
            None => {
                return Err(Errno::InvalidArgument);
            },
        };
        proof {
            lemma_names_are_canonical(tags);
        }
        match self.db.add_tags_to_file(&tags, name.as_str()) {
            Ok(()) => Ok(name),
            Err(_) => Err(Errno::NoDevice),
        }
    }

    /// Creates the tag of this name and gives the attributes of its
    /// directory, the directory of the files that carry this one tag.
    /// `source` is the metadata of the source directory.
    ///
    /// Nothing is changed where the name is not usable as a tag, where the
    /// tag exists, or where no identifier or no inode number is left.
    pub fn mkdir(&mut self, parent: u64, name: &str, source: &Metadata) -> (r: Result<
        FileAttr,
        Errno,
    >)
        requires
            old(self).wf(),
        ensures
            final(self).wf(),
            final(self).source == old(self).source,
            ({
                let before = old(self).db@;
                let key = dir_key(set![name@]);
                if is_tag_name(name@) && !before.has_tag(name@) && before.room_for_tags(1) && (
                before.knows(key.0, key.1) || before.room_for_inodes(1)) {
                    &&& final(self).db@ == before.with_tag(name@).ensure_inode(key.0, key.1)
                    &&& r == Ok::<FileAttr, Errno>(
                        attr_of(final(self).db@.inode_of(key.0, key.1), *source),
                    )
                    &&& final(self).db@.entry_of(final(self).db@.inode_of(key.0, key.1)) == Some(
                        EntryView::Tags(set![name@]),
                    )
                } else {
                    r == Err::<FileAttr, Errno>(Errno::NoDevice) && final(self).db@ == before
                }
            }),
    {
        if !is_valid_tag(name) {
            return Err(Errno::NoDevice);
        }
        let entry = Entry::Tags(TagSet::singleton(name.to_owned()));
        if !(self.db.inode(&entry).is_ok() || self.db.has_room_for_inodes(1)) {
            return Err(Errno::NoDevice);
        }
        match self.db.create_tag(name) {
            Ok(_) => {},
            Err(_) => {
                return Err(Errno::NoDevice);
            },
        }
        match self.db.inode_or_create(&entry) {
            Ok(ino) => Ok(file_attr_of_file(ino, source)),
            Err(_) => Err(Errno::NoDevice),
        }
    }

    /// Takes a backing file that was just created into the index: the file
    /// gets an inode and the tags of the directory it was created in.
    /// `metadata` is that of the new backing file.
    ///
    /// Nothing is changed where no inode number is left for the file, or
    /// where the identifiers that are left would not do for as many new tags
    /// as the directory has.
    pub fn create(&mut self, parent: u64, name: &str, metadata: &Metadata) -> (r: Result<
        FileAttr,
        Errno,
    >)
        requires
            old(self).wf(),
        ensures
            final(self).wf(),
            final(self).source == old(self).source,
            ({
                let before = old(self).db@;
                let key = file_key(name@);
                let tags = match before.dir_at(parent) {
                    Some(tags) => tags,
                    None => Set::<Seq<char>>::empty(),
                };
                if (before.knows(key.0, key.1) || before.room_for_inodes(1))
                    && before.room_for_tags(canonical(tags).len() as int) {
                    &&& final(self).db@ == before.ensure_inode(key.0, key.1).add_tags(
                        name@,
                        canonical(tags),
                    )
                    &&& r == Ok::<FileAttr, Errno>(
                        attr_of(final(self).db@.inode_of(key.0, key.1), *metadata),
                    )
                    &&& final(self).db@.entry_of(final(self).db@.inode_of(key.0, key.1)) == Some(
                        EntryView::File(name@),
                    )
                    &&& final(self).db@.file_tags(name@) == before.file_tags(name@).union(tags)
                    &&& forall|g: Seq<char>|
                        g != name@ ==> #[trigger] final(self).db@.file_tags(g) == before.file_tags(
                            g,
                        )
                } else {
                    r == Err::<FileAttr, Errno>(Errno::NoDevice) && final(self).db@ == before
                }
            }),
    {
        let tags = match self.directory(parent) {
            Some(tags) => tags,
            None => TagSet::new(),
        };
        proof {
            lemma_names_are_canonical(tags);
        }
        let entry = Entry::File(name.to_owned());
        if !(self.db.inode(&entry).is_ok() || self.db.has_room_for_inodes(1))
            || !self.db.has_room_for_tags(tags.len() as u64) {
            return Err(Errno::NoDevice);
        }
        let ino: u64 = match self.db.inode_or_create(&entry) {
            Ok(ino) => ino,
            Err(_) => {
                return Err(Errno::NoDevice);
            },
        };
        match self.db.add_tags_to_file(&tags, name) {
            Ok(()) => Ok(file_attr_of_file(ino, metadata)),
            Err(_) => Err(Errno::NoDevice),
        }
    }

    /// Looks a name up in a directory.  `file` is the metadata of the path
    /// of this name in the source directory, or none if there is no such
    /// path; `source` is that of the source directory.
    ///
    /// A backing file of this name is found if it carries all tags of the
    /// directory.  Only if there is no such file, a tag of this name that
    /// the directory does not have yet is found as the directory with this
    /// tag added.  A file hides a tag of the same name.
    pub fn lookup(
        &mut self,
        parent: u64,
        name: &str,
        file: Option<&Metadata>,
        source: &Metadata,
    ) -> (r: Result<FileAttr, Error>)
        requires
            old(self).wf(),
        ensures
            final(self).wf(),
            final(self).source == old(self).source,
            final(self).db@.same_tagging(old(self).db@),
            ({
                let before = old(self).db@;
                match before.dir_at(parent) {
                    None => r == Err::<FileAttr, Error>(Error::StdC(Errno::InvalidArgument))
                        && final(self).db@ == before,
                    Some(tags) => if file is Some && file->0.is_file {
                        let key = file_key(name@);
                        &&& final(self).db@ == before
                        &&& r == (if !before.knows(key.0, key.1) {
                            Err::<FileAttr, Error>(
                                Error::Database(DatabaseError::QueryReturnedNoRows),
                            )
                        } else if tags.subset_of(before.file_tags(name@)) {
                            Ok::<FileAttr, Error>(
                                attr_of(before.inode_of(key.0, key.1), *file->0),
                            )
                        } else {
                            Err::<FileAttr, Error>(Error::StdC(Errno::NoEntry))
                        })
                    } else if before.has_tag(name@) && !tags.contains(name@) {
                        let key = dir_key(tags.insert(name@));
                        if before.knows(key.0, key.1) || before.room_for_inodes(1) {
                            &&& final(self).db@ == before.ensure_inode(key.0, key.1)
                            &&& r == Ok::<FileAttr, Error>(
                                attr_of(final(self).db@.inode_of(key.0, key.1), *source),
                            )
                            &&& final(self).db@.entry_of(final(self).db@.inode_of(key.0, key.1))
                                == Some(EntryView::Tags(tags.insert(name@)))
                        } else {
                            r == Err::<FileAttr, Error>(Error::Database(DatabaseError::Full))
                                && final(self).db@ == before
                        }
                    } else {
                        r == Err::<FileAttr, Error>(Error::StdC(Errno::NoEntry))
                            && final(self).db@ == before
                    },
                }
            }),
    {
        let tags = match self.directory(parent) {
            Some(tags) => tags,
            None => {
                return Err(Error::StdC(Errno::InvalidArgument));
            },
        };
        // Is it a file?
        match file {
            Some(metadata) => {
                if metadata.is_file {
                    let ino: u64 = match self.db.inode(&Entry::File(name.to_owned())) {
                        Ok(ino) => ino,
                        Err(e) => {
                            return Err(e);
                        },
                    };
                    let carried = match self.db.file_tags(name) {
                        Ok(carried) => carried,
                        Err(e) => {
                            return Err(e);
                        },
                    };
                    return if tags.is_subset(&carried) {
                        Ok(file_attr_of_file(ino, metadata))
                    } else {
                        Err(Error::StdC(Errno::NoEntry))
                    };
                }
            },
            None => {},
        }
        // Is it a tag?
        let known: bool = match self.db.tag_id(name) {
            Ok(_) => true,
            Err(_) => false,
        };
        if known && !tags.contains(name) {
            let mut wider = tags.clone();
            wider.insert(name.to_owned());
            let entry = Entry::Tags(wider);
            return match self.db.inode_or_create(&entry) {
                Ok(ino) => Ok(file_attr_of_file(ino, source)),
                Err(e) => Err(e),
            };
        }
        Err(Error::StdC(Errno::NoEntry))
    }

    /// The entries of a directory after place `offset`: the regular files of
    /// `listing`, the paths of the source directory in the order in which it
    /// was read, that carry all tags of the directory; then one directory
    /// for each tag that the directory does not have, in the order in which
    /// the tags were created.  The place of a path is its number in the
    /// listing, counted from 1, and the places of the tags follow those of
    /// the paths.  Each entry that is given has an inode afterwards.
    ///
    /// Nothing is changed where the inode numbers that are left would not do
    /// for as many entries as there are paths and tags.
    pub fn readdir(&mut self, ino: u64, offset: i64, listing: &Vec<DirItem>) -> (r: Result<
        Vec<DirEntry>,
        Errno,
    >)
        requires
            old(self).wf(),
        ensures
            final(self).wf(),
            final(self).source == old(self).source,
            final(self).db@.same_tagging(old(self).db@),
            ({
                let before = old(self).db@;
                match before.entry_of(ino) {
                    None => r is Err && r->Err_0 == Errno::NoEntry && final(self).db@ == before,
                    Some(EntryView::File(_)) => r is Err && r->Err_0 == Errno::InvalidArgument
                        && final(self).db@ == before,
                    Some(EntryView::Tags(dir)) => {
                        let all = shown(before, dir, listed(listing@), offset as int);
                        if before.room_for_inodes(
                            (listing@.len() + before.sub_tags(dir).len()) as int,
                        ) {
                            &&& r is Ok
                            &&& final(self).db@ == before.ensure_inodes(keys_of(all))
                            &&& listed_in(final(self).db@, all, r->Ok_0@)
                            &&& forall|d: Seq<char>, x: Seq<char>|
                                before.knows(d, x) ==> final(self).db@.knows(d, x)
                                    && final(self).db@.inode_of(d, x) == before.inode_of(d, x)
                        } else {
                            r is Err && r->Err_0 == Errno::NoDevice && final(self).db@ == before
                        }
                    },
                }
            }),
    {
        let tags = match self.db.entry(ino) {
            Ok(Entry::Tags(tags)) => tags,
            Ok(Entry::File(_)) => {
                return Err(Errno::InvalidArgument);
            },
            Err(_) => {
                return Err(Errno::NoEntry);
            },
        };
        let sub = match self.db.sub_tags(&tags) {
            Ok(sub) => sub,
            Err(_) => {
                return Err(Errno::NoDevice);
            },
        };
        let files: u64 = listing.len() as u64;
        let dirs: u64 = sub.len() as u64;
        if files > MAX_ID || dirs > MAX_ID - files || !self.db.has_room_for_inodes(files + dirs) {
            return Err(Errno::NoDevice);
        }
        let ghost before = self.db@;
        let ghost dir = tags@;
        let ghost paths = listed(listing@);
        let ghost names = names_of(sub@);
        let ghost from = offset as int;
        let mut out: Vec<DirEntry> = Vec::new();
        let mut i: usize = 0;
        while i < listing.len()
            invariant
                i <= listing.len(),
                self.db.wf(),
                self.source == old(self).source,
                tags@ == dir,
                paths == listed(listing@),
                from == offset as int,
                listing.len() + names.len() <= MAX_ID,
                before.room_for_inodes((listing.len() + names.len()) as int),
                self.db@.same_tagging(before),
                self.db@.next_inode <= before.next_inode + i,
                self.db@ == before.ensure_inodes(
                    keys_of(shown_files(before, dir, paths, from, i as int)),
                ),
                listed_in(self.db@, shown_files(before, dir, paths, from, i as int), out@),
            decreases listing.len() - i,
        {
            let cookie: i64 = (i as u64 + 1) as i64;
            let ghost shape = shown_files(before, dir, paths, from, i as int);
            if cookie > offset && listing[i].is_file {
                let carried = match self.db.file_tags(listing[i].name.as_str()) {
                    Ok(carried) => carried,
                    Err(_) => {
                        return Err(Errno::NoDevice);
                    },
                };
                if tags.is_subset(&carried) {
                    let entry = Entry::File(listing[i].name.clone());
                    let ghost cur = self.db@;
                    let f_ino: u64 = match self.db.inode_or_create(&entry) {
                        Ok(f_ino) => f_ino,
                        Err(_) => {
                            return Err(Errno::NoDevice);
                        },
                    };
                    let found = DirEntry {
                        ino: f_ino,
                        offset: cookie,
                        kind: FileType::RegularFile,
                        name: listing[i].name.clone(),
                    };
                    proof {
                        lemma_listed_push(before, cur, shape, out@, found);
                    }
                    out.push(found);
                }
            }
            i += 1;
        }
        let ghost shown_before = shown_files(before, dir, paths, from, listing.len() as int);
        let base: u64 = files;
        let mut j: usize = 0;
        while j < sub.len()
            invariant
                j <= sub.len(),
                self.db.wf(),
                self.source == old(self).source,
                names == names_of(sub@),
                names.len() == sub.len(),
                from == offset as int,
                base == listing.len(),
                listing.len() + names.len() <= MAX_ID,
                before.room_for_inodes((listing.len() + names.len()) as int),
                self.db@.same_tagging(before),
                self.db@.next_inode <= before.next_inode + listing.len() + j,
                self.db@ == before.ensure_inodes(
                    keys_of(shown_before + shown_tags(names, base as int, from, j as int)),
                ),
                listed_in(
                    self.db@,
                    shown_before + shown_tags(names, base as int, from, j as int),
                    out@,
                ),
            decreases sub.len() - j,
        {
            let cookie: i64 = (base + j as u64 + 1) as i64;
            let ghost part = shown_tags(names, base as int, from, j as int);
            let ghost shape = shown_before + part;
            if cookie > offset {
                let entry = Entry::Tags(TagSet::singleton(sub[j].clone()));
                let ghost cur = self.db@;
                let d_ino: u64 = match self.db.inode_or_create(&entry) {
                    Ok(d_ino) => d_ino,
                    Err(_) => {
                        return Err(Errno::NoDevice);
                    },
                };
                let found = DirEntry {
                    ino: d_ino,
                    offset: cookie,
                    kind: FileType::Directory,
                    name: sub[j].clone(),
                };
                proof {
                    lemma_listed_push(before, cur, shape, out@, found);
                }
                out.push(found);
            }
            j += 1;
        }
        proof {
            let all = shown(before, dir, paths, from);
            lemma_shown_files(before, dir, paths, from, paths.len() as int);
            lemma_shown_tags(names, paths.len() as int, from, names.len() as int);
            lemma_ensure_inodes(before, keys_of(all));
        }
        Ok(out)
    }
}

} // verus!
