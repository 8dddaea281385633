//! The index: the tags, the tags of each file, and the inodes of the entries.
//!
//! The index holds its tables in memory and keeps their rules itself: a tag
//! name, a membership and a stored entry occur once, and identifiers are
//! given out in ascending order and never again.  What it is and what each
//! statement does to it is said over [`Index`]; the caller loads the tables
//! from where they are kept and writes them back.

use crate::entry::{persisted, Entry};
use crate::error::{DatabaseError, Error};
use crate::index::{
    lemma_add_tag, lemma_add_tags, lemma_delete_tag, lemma_delete_tags, lemma_ensure_inode,
    lemma_inode_round_trip, lemma_remove_tags, lemma_with_tag, not_in, not_of_tag, Index, InodeRow,
    MemberRow, TagRow, MAX_ID,
};
use crate::tag::{is_tag_name, is_valid_tag, lemma_ascending_no_duplicates, names_of, TagSet};
use vstd::prelude::*;

verus! {

/// A row of the table of tags.
#[derive(Clone, Debug, PartialEq, Eq)]
pub struct TagRecord {
    pub id: u64,
    pub tag: String,
}

/// A row of the table of memberships.
#[derive(Clone, Debug, PartialEq, Eq)]
pub struct MemberRecord {
    pub file: String,
    pub tag_id: u64,
}

/// A row of the table of inodes.
#[derive(Clone, Debug, PartialEq, Eq)]
pub struct InodeRecord {
    pub id: u64,
    pub discriminant: String,
    pub data: String,
}

impl View for TagRecord {
    type V = TagRow;

    open spec fn view(&self) -> TagRow {
        TagRow { id: self.id, tag: self.tag@ }
    }
}

impl View for MemberRecord {
    type V = MemberRow;

    open spec fn view(&self) -> MemberRow {
        MemberRow { file: self.file@, tag_id: self.tag_id }
    }
}

impl View for InodeRecord {
    type V = InodeRow;

    open spec fn view(&self) -> InodeRow {
        InodeRow { id: self.id, discriminant: self.discriminant@, data: self.data@ }
    }
}

/// The rows that a vector of tag records stands for.
pub open spec fn tag_rows(v: Seq<TagRecord>) -> Seq<TagRow> {
    v.map_values(|r: TagRecord| r@)
}

/// The rows that a vector of membership records stands for.
pub open spec fn member_rows(v: Seq<MemberRecord>) -> Seq<MemberRow> {
    v.map_values(|r: MemberRecord| r@)
}

/// The rows that a vector of inode records stands for.
pub open spec fn inode_rows(v: Seq<InodeRecord>) -> Seq<InodeRow> {
    v.map_values(|r: InodeRecord| r@)
}

/// The text of an optional string.
pub open spec fn text_of(s: Option<String>) -> Option<Seq<char>> {
    match s {
        Some(s) => Some(s@),
        None => None,
    }
}

/// The index of a tag file system.
#[derive(Debug)]
pub struct TagsFsDb {
    tags: Vec<TagRecord>,
    members: Vec<MemberRecord>,
    inodes: Vec<InodeRecord>,
    next_tag: u64,
    next_inode: u64,
    mountpoint: Option<String>,
    source: Option<String>,
}

impl View for TagsFsDb {
    type V = Index;

    closed spec fn view(&self) -> Index {
        Index {
            tags: tag_rows(self.tags@),
            members: member_rows(self.members@),
            inodes: inode_rows(self.inodes@),
            next_tag: self.next_tag,
            next_inode: self.next_inode,
            mountpoint: text_of(self.mountpoint),
            source: text_of(self.source),
        }
    }
}

/// The rows can be the table of tags: identifiers are positive, names are
/// usable, and no identifier and no name occurs twice.
pub open spec fn tags_ok(rows: Seq<TagRow>) -> bool {
    &&& forall|i: int|
        0 <= i < rows.len() ==> 1 <= (#[trigger] rows[i]).id <= MAX_ID && is_tag_name(rows[i].tag)
    &&& forall|i: int, j: int|
        0 <= i < j < rows.len() ==> (#[trigger] rows[i]).id != (#[trigger] rows[j]).id
            && rows[i].tag != rows[j].tag
}

/// The rows can be the table of memberships: none occurs twice.
pub open spec fn members_ok(rows: Seq<MemberRow>) -> bool {
    &&& forall|i: int| 0 <= i < rows.len() ==> (#[trigger] rows[i]).tag_id <= MAX_ID
    &&& forall|i: int, j: int| 0 <= i < j < rows.len() ==> #[trigger] rows[i] != #[trigger] rows[j]
}

/// The rows can be the table of inodes: numbers are positive, and no number
/// and no stored entry occurs twice.
pub open spec fn inodes_ok(rows: Seq<InodeRow>) -> bool {
    &&& forall|i: int| 0 <= i < rows.len() ==> 1 <= (#[trigger] rows[i]).id <= MAX_ID
    &&& forall|i: int, j: int|
        0 <= i < j < rows.len() ==> (#[trigger] rows[i]).id != (#[trigger] rows[j]).id && !(
        rows[i].discriminant == rows[j].discriminant && rows[i].data == rows[j].data)
}

/// `next` is the first identifier above those of the tags and of the
/// memberships.
pub open spec fn next_tag_of(tags: Seq<TagRow>, members: Seq<MemberRow>, next: u64) -> bool {
    &&& forall|i: int| 0 <= i < tags.len() ==> (#[trigger] tags[i]).id < next
    &&& forall|i: int| 0 <= i < members.len() ==> (#[trigger] members[i]).tag_id < next
    &&& {
        ||| next == 1
        ||| exists|i: int| 0 <= i < tags.len() && (#[trigger] tags[i]).id + 1 == next
        ||| exists|i: int| 0 <= i < members.len() && (#[trigger] members[i]).tag_id + 1 == next
    }
}

/// `next` is the first number above those of the inodes.
pub open spec fn next_inode_of(inodes: Seq<InodeRow>, next: u64) -> bool {
    &&& forall|i: int| 0 <= i < inodes.len() ==> (#[trigger] inodes[i]).id < next
    &&& {
        ||| next == 1
        ||| exists|i: int| 0 <= i < inodes.len() && (#[trigger] inodes[i]).id + 1 == next
    }
}

/// Checks the rows of a table of tags.  Gives the first identifier above
/// theirs, or 1 for no row.
fn check_tags(tags: &Vec<TagRecord>) -> (r: Option<u64>)
    ensures
        r is Some <==> tags_ok(tag_rows(tags@)),
        r is Some ==> {
            &&& 1 <= r->0 <= MAX_ID + 1
            &&& forall|i: int| 0 <= i < tags.len() ==> (#[trigger] tag_rows(tags@)[i]).id < r->0
            &&& (r->0 == 1 || exists|i: int|
                0 <= i < tags.len() && (#[trigger] tag_rows(tags@)[i]).id + 1 == r->0)
        },
{
    let ghost rows = tag_rows(tags@);
    let mut next: u64 = 1;
    let mut i: usize = 0;
    while i < tags.len()
        invariant
            i <= tags.len(),
            rows == tag_rows(tags@),
            1 <= next <= MAX_ID + 1,
            forall|k: int|
                0 <= k < i ==> 1 <= (#[trigger] rows[k]).id <= MAX_ID && rows[k].id < next
                    && is_tag_name(rows[k].tag),
            forall|k: int, m: int|
                0 <= k < m < i ==> (#[trigger] rows[k]).id != (#[trigger] rows[m]).id
                    && rows[k].tag != rows[m].tag,
            next == 1 || exists|k: int| 0 <= k < i && (#[trigger] rows[k]).id + 1 == next,
        decreases tags.len() - i,
    {
        assert(rows[i as int] == tags@[i as int]@);
        if tags[i].id < 1 || tags[i].id > MAX_ID || !is_valid_tag(tags[i].tag.as_str()) {
            return None;
        }
        let mut j: usize = 0;
        while j < i
            invariant
                j <= i < tags.len(),
                rows == tag_rows(tags@),
                forall|k: int|
                    0 <= k < j ==> (#[trigger] rows[k]).id != rows[i as int].id && rows[k].tag
                        != rows[i as int].tag,
            decreases i - j,
        {
            assert(rows[j as int] == tags@[j as int]@);
            assert(rows[i as int] == tags@[i as int]@);
            if tags[j].id == tags[i].id || tags[j].tag == tags[i].tag {
                return None;
            }
            j += 1;
        }
        if tags[i].id >= next {
            next = tags[i].id + 1;
        }
        i += 1;
    }
    Some(next)
}

/// Checks the rows of a table of memberships.  Gives the first identifier
/// above those that the rows name, or 1 for no row.
fn check_members(members: &Vec<MemberRecord>) -> (r: Option<u64>)
    ensures
        r is Some <==> members_ok(member_rows(members@)),
        r is Some ==> {
            &&& 1 <= r->0 <= MAX_ID + 1
            &&& forall|i: int|
                0 <= i < members.len() ==> (#[trigger] member_rows(members@)[i]).tag_id < r->0
            &&& (r->0 == 1 || exists|i: int|
                0 <= i < members.len() && (#[trigger] member_rows(members@)[i]).tag_id + 1
                    == r->0)
        },
{
    let ghost rows = member_rows(members@);
    let mut next: u64 = 1;
    let mut i: usize = 0;
    while i < members.len()
        invariant
            i <= members.len(),
            rows == member_rows(members@),
            1 <= next <= MAX_ID + 1,
            forall|k: int| 0 <= k < i ==> (#[trigger] rows[k]).tag_id < next,
            forall|k: int, m: int| 0 <= k < m < i ==> #[trigger] rows[k] != #[trigger] rows[m],
            next == 1 || exists|k: int| 0 <= k < i && (#[trigger] rows[k]).tag_id + 1 == next,
        decreases members.len() - i,
    {
        assert(rows[i as int] == members@[i as int]@);
        if members[i].tag_id > MAX_ID {
            return None;
        }
        let mut j: usize = 0;
        while j < i
            invariant
                j <= i < members.len(),
                rows == member_rows(members@),
                forall|k: int| 0 <= k < j ==> #[trigger] rows[k] != rows[i as int],
            decreases i - j,
        {
            assert(rows[j as int] == members@[j as int]@);
            assert(rows[i as int] == members@[i as int]@);
            if members[j].tag_id == members[i].tag_id && members[j].file == members[i].file {
                return None;
            }
            j += 1;
        }
        if members[i].tag_id >= next {
            next = members[i].tag_id + 1;
        }
        i += 1;
    }
    Some(next)
}

/// Checks the rows of a table of inodes.  Gives the first number above
/// theirs, or 1 for no row.
fn check_inodes(inodes: &Vec<InodeRecord>) -> (r: Option<u64>)
    ensures
        r is Some <==> inodes_ok(inode_rows(inodes@)),
        r is Some ==> 1 <= r->0 <= MAX_ID + 1 && next_inode_of(inode_rows(inodes@), r->0),
{
    let ghost rows = inode_rows(inodes@);
    let mut next: u64 = 1;
    let mut i: usize = 0;
    while i < inodes.len()
        invariant
            i <= inodes.len(),
            rows == inode_rows(inodes@),
            1 <= next <= MAX_ID + 1,
            forall|k: int|
                0 <= k < i ==> 1 <= (#[trigger] rows[k]).id <= MAX_ID && rows[k].id < next,
            forall|k: int, m: int|
                0 <= k < m < i ==> (#[trigger] rows[k]).id != (#[trigger] rows[m]).id && !(
                rows[k].discriminant == rows[m].discriminant && rows[k].data == rows[m].data),
            next == 1 || exists|k: int| 0 <= k < i && (#[trigger] rows[k]).id + 1 == next,
        decreases inodes.len() - i,
    {
        assert(rows[i as int] == inodes@[i as int]@);
        if inodes[i].id < 1 || inodes[i].id > MAX_ID {
            return None;
        }
        let mut j: usize = 0;
        while j < i
            invariant
                j <= i < inodes.len(),
                rows == inode_rows(inodes@),
                forall|k: int|
                    0 <= k < j ==> (#[trigger] rows[k]).id != rows[i as int].id && !(
                    rows[k].discriminant == rows[i as int].discriminant && rows[k].data
                        == rows[i as int].data),
            decreases i - j,
        {
            assert(rows[j as int] == inodes@[j as int]@);
            assert(rows[i as int] == inodes@[i as int]@);
            if inodes[j].id == inodes[i].id || (inodes[j].discriminant == inodes[i].discriminant
                && inodes[j].data == inodes[i].data) {
                return None;
            }
            j += 1;
        }
        if inodes[i].id >= next {
            next = inodes[i].id + 1;
        }
        i += 1;
    }
    Some(next)
}

/// Deleting the members of a tag set succeeds exactly if all of them exist;
/// then none of them exists afterwards and every file has lost them.
pub proof fn lemma_delete_tags_of_set(s: Index, tags: TagSet)
    requires
        s.wf(),
        tags.wf(),
    ensures
        s.delete_tags(tags.names()).0.wf(),
        s.delete_tags(tags.names()).0.same_inodes(s),
        s.delete_tags(tags.names()).1 <==> (forall|t: Seq<char>|
            tags@.contains(t) ==> s.has_tag(t)),
        s.delete_tags(tags.names()).1 ==> (forall|t: Seq<char>|
            s.delete_tags(tags.names()).0.has_tag(t) <==> s.has_tag(t) && !tags@.contains(t)),
        s.delete_tags(tags.names()).1 ==> (forall|f: Seq<char>|
            #[trigger] s.delete_tags(tags.names()).0.file_tags(f) == s.file_tags(f).difference(
                tags@,
            )),
{
    let names = tags.names();
    lemma_ascending_no_duplicates(names);
    lemma_delete_tags(s, names);
}

impl TagsFsDb {
    /// The tables keep their rules.
    pub open spec fn wf(&self) -> bool {
        self@.wf()
    }

    /// An index without any row and without a mount point or a source.
    pub fn new() -> (db: TagsFsDb)
        ensures
            db.wf(),
            db@ == Index::empty(),
    {
        let db = TagsFsDb {
            tags: Vec::new(),
            members: Vec::new(),
            inodes: Vec::new(),
            next_tag: 1,
            next_inode: 1,
            mountpoint: None,
            source: None,
        };
        assert(db@.tags =~= Seq::<TagRow>::empty());
        assert(db@.members =~= Seq::<MemberRow>::empty());
        assert(db@.inodes =~= Seq::<InodeRow>::empty());
        db
    }

    /// An index over rows that were kept elsewhere.  The rows must keep the
    /// rules of their tables.  The next tag and the next inode get the first
    /// identifier above all that the rows hold.
    pub fn from_rows(
        tags: Vec<TagRecord>,
        members: Vec<MemberRecord>,
        inodes: Vec<InodeRecord>,
        mountpoint: Option<String>,
        source: Option<String>,
    ) -> (r: Result<TagsFsDb, Error>)
        ensures
            r is Ok <==> tags_ok(tag_rows(tags@)) && members_ok(member_rows(members@))
                && inodes_ok(inode_rows(inodes@)),
            r is Err ==> r->Err_0 == Error::Database(DatabaseError::ConstraintViolation),
            r is Ok ==> {
                let db = r->Ok_0;
                &&& db.wf()
                &&& db@.tags == tag_rows(tags@)
                &&& db@.members == member_rows(members@)
                &&& db@.inodes == inode_rows(inodes@)
                &&& db@.mountpoint == text_of(mountpoint)
                &&& db@.source == text_of(source)
                &&& next_tag_of(db@.tags, db@.members, db@.next_tag)
                &&& next_inode_of(db@.inodes, db@.next_inode)
            },
    {
        let above_tags: u64 = match check_tags(&tags) {
            Some(next) => next,
            None => {
                return Err(Error::Database(DatabaseError::ConstraintViolation));
            },
        };
        let above_members: u64 = match check_members(&members) {
            Some(next) => next,
            None => {
                return Err(Error::Database(DatabaseError::ConstraintViolation));
            },
        };
        let next_inode: u64 = match check_inodes(&inodes) {
            Some(next) => next,
            None => {
                return Err(Error::Database(DatabaseError::ConstraintViolation));
            },
        };
        let next_tag: u64 = if above_tags >= above_members {
            above_tags
        } else {
            above_members
        };
        let db = TagsFsDb { tags, members, inodes, next_tag, next_inode, mountpoint, source };
        Ok(db)
    }

    /// The rows of the table of tags, in the order in which the tags were created.
    pub fn tag_records(&self) -> (rows: &Vec<TagRecord>)
        ensures
            tag_rows(rows@) == self@.tags,
    {
        &self.tags
    }

    /// The rows of the table of memberships.
    pub fn member_records(&self) -> (rows: &Vec<MemberRecord>)
        ensures
            member_rows(rows@) == self@.members,
    {
        &self.members
    }

    /// The rows of the table of inodes, in the order in which the inodes were created.
    pub fn inode_records(&self) -> (rows: &Vec<InodeRecord>)
        ensures
            inode_rows(rows@) == self@.inodes,
    {
        &self.inodes
    }

    /// Sets where the index says the file system is mounted and where the
    /// backing files are.
    pub fn configure(&mut self, mountpoint: Option<String>, source: Option<String>)
        ensures
            final(self)@ == (Index {
                mountpoint: text_of(mountpoint),
                source: text_of(source),
                ..old(self)@
            }),
            final(self).wf() == old(self).wf(),
    {
        self.mountpoint = mountpoint;
        self.source = source;
        proof {
            assert(self@.tags == old(self)@.tags);
            assert(self@.inodes == old(self)@.inodes);
        }
    }

    /// Where the index says the file system is to be mounted.
    pub fn mountpoint(&self) -> (r: Result<String, Error>)
        ensures
            match self@.mountpoint {
                Some(path) => r is Ok && r->Ok_0@ == path,
                None => r == Err::<String, Error>(
                    Error::Database(DatabaseError::QueryReturnedNoRows),
                ),
            },
    {
        match &self.mountpoint {
            Some(path) => Ok(path.clone()),
            None => Err(Error::Database(DatabaseError::QueryReturnedNoRows)),
        }
    }

    /// Where the index says the backing files are.
    pub fn source(&self) -> (r: Result<String, Error>)
        ensures
            match self@.source {
                Some(path) => r is Ok && r->Ok_0@ == path,
                None => r == Err::<String, Error>(
                    Error::Database(DatabaseError::QueryReturnedNoRows),
                ),
            },
    {
        match &self.source {
            Some(path) => Ok(path.clone()),
            None => Err(Error::Database(DatabaseError::QueryReturnedNoRows)),
        }
    }

    // ----- places of rows -----
    fn find_tag(&self, tag: &String) -> (r: Option<usize>)
        ensures
            match r {
                Some(i) => i < self@.tags.len() && self@.tags[i as int].tag == tag@,
                None => !self@.has_tag(tag@),
            },
    {
        let mut i: usize = 0;
        while i < self.tags.len()
            invariant
                i <= self.tags.len(),
                forall|k: int| 0 <= k < i ==> (#[trigger] self@.tags[k]).tag != tag@,
            decreases self.tags.len() - i,
        {
            if self.tags[i].tag == *tag {
                return Some(i);
            }
            i += 1;
        }
        None
    }

    fn find_member(&self, file: &String, id: u64) -> (r: Option<usize>)
        ensures
            match r {
                Some(i) => i < self@.members.len() && self@.members[i as int] == (MemberRow {
                    file: file@,
                    tag_id: id,
                }),
                None => !self@.is_member(file@, id),
            },
    {
        let mut i: usize = 0;
        while i < self.members.len()
            invariant
                i <= self.members.len(),
                forall|k: int|
                    0 <= k < i ==> (#[trigger] self@.members[k]) != (MemberRow {
                        file: file@,
                        tag_id: id,
                    }),
            decreases self.members.len() - i,
        {
            if self.members[i].tag_id == id && self.members[i].file == *file {
                return Some(i);
            }
            i += 1;
        }
        None
    }

    fn find_key(&self, discriminant: &String, data: &String) -> (r: Option<usize>)
        ensures
            match r {
                Some(i) => i < self@.inodes.len() && self@.inodes[i as int].discriminant
                    == discriminant@ && self@.inodes[i as int].data == data@,
                None => !self@.knows(discriminant@, data@),
            },
    {
        let mut i: usize = 0;
        while i < self.inodes.len()
            invariant
                i <= self.inodes.len(),
                forall|k: int|
                    0 <= k < i ==> !((#[trigger] self@.inodes[k]).discriminant == discriminant@
                        && self@.inodes[k].data == data@),
            decreases self.inodes.len() - i,
        {
            if self.inodes[i].discriminant == *discriminant && self.inodes[i].data == *data {
                return Some(i);
            }
            i += 1;
        }
        None
    }

    fn find_inode(&self, ino: u64) -> (r: Option<usize>)
        ensures
            match r {
                Some(i) => i < self@.inodes.len() && self@.inodes[i as int].id == ino,
                None => !self@.has_inode(ino),
            },
    {
        let mut i: usize = 0;
        while i < self.inodes.len()
            invariant
                i <= self.inodes.len(),
                forall|k: int| 0 <= k < i ==> (#[trigger] self@.inodes[k]).id != ino,
            decreases self.inodes.len() - i,
        {
            if self.inodes[i].id == ino {
                return Some(i);
            }
            i += 1;
        }
        None
    }

    // ----- tags -----
    /// The names of the tags that are not in `tags`, in the order in which
    /// the tags were created.
    pub fn sub_tags(&self, tags: &TagSet) -> (r: Result<Vec<String>, Error>)
        ensures
            r is Ok,
            names_of(r->Ok_0@) == self@.sub_tags(tags@),
    {
        let mut out: Vec<String> = Vec::new();
        let mut i: usize = 0;
        let ghost all = self@.tag_names();
        let ghost pred = not_in(tags@);
        while i < self.tags.len()
            invariant
                i <= self.tags.len(),
                all == self@.tag_names(),
                all.len() == self.tags.len(),
                pred == not_in(tags@),
                names_of(out@) == all.take(i as int).filter(pred),
            decreases self.tags.len() - i,
        {
            proof {
                all.lemma_take_succ_push(i as int);
                all.take(i as int).lemma_filter_push(all[i as int], pred);
            }
            if !tags.contains(self.tags[i].tag.as_str()) {
                out.push(self.tags[i].tag.clone());
            }
            i += 1;
        }
        proof {
            assert(all.take(i as int) =~= all);
        }
        Ok(out)
    }

    /// The identifier of the tag of this name.
    pub fn tag_id(&self, tag: &str) -> (r: Result<u64, Error>)
        requires
            self.wf(),
        ensures
            r == (if self@.has_tag(tag@) {
                Ok::<u64, Error>(self@.tag_id(tag@))
            } else {
                Err::<u64, Error>(Error::Database(DatabaseError::QueryReturnedNoRows))
            }),
    {
        let name: String = tag.to_owned();
        match self.find_tag(&name) {
            Some(i) => {
                Ok(self.tags[i].id)
            },
            None => Err(Error::Database(DatabaseError::QueryReturnedNoRows)),
        }
    }

    /// Creates a tag and gives its identifier.  The name must be a usable
    /// tag name that no tag has yet.
    pub fn create_tag(&mut self, tag: &str) -> (r: Result<u64, Error>)
        requires
            old(self).wf(),
        ensures
            final(self).wf(),
            !is_tag_name(tag@) || old(self)@.has_tag(tag@) ==> r == Err::<u64, Error>(
                Error::Database(DatabaseError::ConstraintViolation),
            ) && final(self)@ == old(self)@,
            is_tag_name(tag@) && !old(self)@.has_tag(tag@) && !old(self)@.room_for_tags(1) ==> r
                == Err::<u64, Error>(Error::Database(DatabaseError::Full)) && final(self)@ == old(
                self,
            )@,
            is_tag_name(tag@) && !old(self)@.has_tag(tag@) && old(self)@.room_for_tags(1) ==> r
                == Ok::<u64, Error>(old(self)@.next_tag) && final(self)@ == old(self)@.with_tag(
                tag@,
            ),
    {
        let name: String = tag.to_owned();
        if !is_valid_tag(tag) || self.find_tag(&name).is_some() {
            return Err(Error::Database(DatabaseError::ConstraintViolation));
        }
        if self.next_tag > MAX_ID {
            return Err(Error::Database(DatabaseError::Full));
        }
        let id: u64 = self.next_tag;
        self.tags.push(TagRecord { id, tag: name });
        self.next_tag = id + 1;
        assert(self@.tags =~= old(self)@.tags.push(TagRow { id, tag: tag@ }));
        Ok(id)
    }

    /// Tells whether there are identifiers left for `n` more tags.
    pub fn has_room_for_tags(&self, n: u64) -> (r: bool)
        requires
            self.wf(),
        ensures
            r == self@.room_for_tags(n as int),
    {
        n <= MAX_ID && self.next_tag <= MAX_ID + 1 - n
    }

    /// Tells whether there are numbers left for `n` more inodes.
    pub fn has_room_for_inodes(&self, n: u64) -> (r: bool)
        requires
            self.wf(),
        ensures
            r == self@.room_for_inodes(n as int),
    {
        n <= MAX_ID && self.next_inode <= MAX_ID + 1 - n
    }

    // ----- memberships -----
    /// The tags that the file carries.
    pub fn file_tags(&self, filename: &str) -> (r: Result<TagSet, Error>)
        requires
            self.wf(),
        ensures
            r is Ok,
            r->Ok_0.wf(),
            r->Ok_0.all_valid(),
            r->Ok_0@ == self@.file_tags(filename@),
    {
        let file: String = filename.to_owned();
        let mut found = TagSet::new();
        let mut i: usize = 0;
        while i < self.tags.len()
            invariant
                i <= self.tags.len(),
                self.wf(),
                file@ == filename@,
                found.wf(),
                found.all_valid(),
                forall|t: Seq<char>|
                    found@.contains(t) <==> (exists|k: int|
                        0 <= k < i && (#[trigger] self@.tags[k]).tag == t && self@.is_member(
                            file@,
                            self@.tags[k].id,
                        )),
            decreases self.tags.len() - i,
        {
            assert(self@.tags[i as int] == self.tags@[i as int]@);
            if self.find_member(&file, self.tags[i].id).is_some() {
                found.insert(self.tags[i].tag.clone());
            }
            i += 1;
        }
        Ok(found)
    }

    /// Gives one tag to the file.
    fn add_tag_to_file(&mut self, tag: &String, file: &String)
        requires
            old(self).wf(),
            is_tag_name(tag@),
            old(self)@.has_tag(tag@) || old(self)@.room_for_tags(1),
        ensures
            final(self)@ == old(self)@.add_tag(file@, tag@),
    {
        let id: u64 = match self.find_tag(tag) {
            Some(i) => {
                self.tags[i].id
            },
            None => {
                let id: u64 = self.next_tag;
                proof {
                    lemma_with_tag(self@, tag@);
                }
                self.tags.push(TagRecord { id, tag: tag.clone() });
                self.next_tag = id + 1;
                assert(self@.tags =~= old(self)@.tags.push(TagRow { id, tag: tag@ }));
                id
            },
        };
        if self.find_member(file, id).is_none() {
            let ghost mid = self@;
            self.members.push(MemberRecord { file: file.clone(), tag_id: id });
            assert(self@.members =~= mid.members.push(MemberRow { file: file@, tag_id: id }));
        }
    }

    /// Gives the tags to the file.  A tag that does not exist is created; a
    /// tag that the file carries already is left as it is.
    ///
    /// Nothing is changed where a name is not usable as a tag, or where the
    /// identifiers that are left would not do for as many new tags.
    pub fn add_tags_to_file(&mut self, tags: &TagSet, file: &str) -> (r: Result<(), Error>)
        requires
            old(self).wf(),
            tags.wf(),
        ensures
            final(self).wf(),
            !tags.all_valid() ==> r == Err::<(), Error>(
                Error::Database(DatabaseError::ConstraintViolation),
            ) && final(self)@ == old(self)@,
            tags.all_valid() && !old(self)@.room_for_tags(tags.names().len() as int) ==> r
                == Err::<(), Error>(Error::Database(DatabaseError::Full)) && final(self)@ == old(
                self,
            )@,
            tags.all_valid() && old(self)@.room_for_tags(tags.names().len() as int) ==> {
                &&& r is Ok
                &&& final(self)@ == old(self)@.add_tags(file@, tags.names())
                &&& final(self)@.same_inodes(old(self)@)
                &&& final(self)@.file_tags(file@) == old(self)@.file_tags(file@).union(tags@)
                &&& forall|g: Seq<char>|
                    g != file@ ==> #[trigger] final(self)@.file_tags(g) == old(self)@.file_tags(g)
                &&& forall|t: Seq<char>|
                    final(self)@.has_tag(t) <==> old(self)@.has_tag(t) || tags@.contains(t)
            },
    {
        let n: usize = tags.len();
        let mut i: usize = 0;
        while i < n
            invariant
                i <= n,
                n == tags.names().len(),
                self.wf(),
                self@ == old(self)@,
                forall|k: int| 0 <= k < i ==> is_tag_name(#[trigger] tags.names()[k]),
            decreases n - i,
        {
            if !is_valid_tag(tags.get(i).as_str()) {
                return Err(Error::Database(DatabaseError::ConstraintViolation));
            }
            i += 1;
        }
        if n as u64 > MAX_ID || self.next_tag > MAX_ID + 1 - n as u64 {
            return Err(Error::Database(DatabaseError::Full));
        }
        let name: String = file.to_owned();
        let ghost names = tags.names();
        proof {
            lemma_add_tags(self@, file@, names);
            assert(names.skip(0) =~= names);
        }
        let mut i: usize = 0;
        while i < n
            invariant
                i <= n,
                n == names.len(),
                names == tags.names(),
                name@ == file@,
                self.wf(),
                forall|k: int| 0 <= k < names.len() ==> is_tag_name(#[trigger] names[k]),
                self@.room_for_tags(n - i),
                self@.add_tags(file@, names.skip(i as int)) == old(self)@.add_tags(file@, names),
            decreases n - i,
        {
            let ghost before = self@;
            proof {
                lemma_add_tag(before, file@, names[i as int]);
                assert(names.skip(i as int).drop_first() =~= names.skip(i + 1));
            }
            self.add_tag_to_file(tags.get(i), &name);
            i += 1;
        }
        Ok(())
    }

    /// Takes one tag from the file.
    fn remove_tag_from_file(&mut self, tag: &String, file: &String)
        requires
            old(self).wf(),
        ensures
            final(self)@ == old(self)@.remove_tag(file@, tag@),
    {
        match self.find_tag(tag) {
            Some(i) => {
                let id: u64 = self.tags[i].id;
                match self.find_member(file, id) {
                    Some(j) => {
                        self.members.remove(j);
                        assert(self@.members =~= old(self)@.members.remove(j as int));
                    },
                    None => {},
                }
            },
            None => {},
        }
    }

    /// Takes the tags from the file.  A tag that the file does not carry,
    /// or that does not exist, changes nothing.
    pub fn remove_tags_from_file(&mut self, tags: &TagSet, file: &str) -> (r: Result<(), Error>)
        requires
            old(self).wf(),
        ensures
            r is Ok,
            final(self).wf(),
            final(self)@ == old(self)@.remove_tags(file@, tags.names()),
            final(self)@.same_inodes(old(self)@),
            final(self)@.tags == old(self)@.tags,
            final(self)@.next_tag == old(self)@.next_tag,
            final(self)@.file_tags(file@) == old(self)@.file_tags(file@).difference(tags@),
            forall|g: Seq<char>|
                g != file@ ==> #[trigger] final(self)@.file_tags(g) == old(self)@.file_tags(g),
    {
        let n: usize = tags.len();
        let name: String = file.to_owned();
        let ghost names = tags.names();
        proof {
            lemma_remove_tags(self@, file@, names);
            assert(names.skip(0) =~= names);
        }
        let mut i: usize = 0;
        while i < n
            invariant
                i <= n,
                n == names.len(),
                names == tags.names(),
                name@ == file@,
                self.wf(),
                self@.remove_tags(file@, names.skip(i as int)) == old(self)@.remove_tags(
                    file@,
                    names,
                ),
            decreases n - i,
        {
            proof {
                assert(names.skip(i as int).drop_first() =~= names.skip(i + 1));
            }
            self.remove_tag_from_file(tags.get(i), &name);
            i += 1;
        }
        Ok(())
    }

    /// Deletes the tag at place `place` with all its memberships.
    fn delete_tag_at(&mut self, place: usize)
        requires
            old(self).wf(),
            place < old(self)@.tags.len(),
        ensures
            final(self)@ == old(self)@.delete_tag(old(self)@.tags[place as int].tag),
    {
        let id: u64 = self.tags[place].id;
        let ghost rows = self@.members;
        let ghost pred = not_of_tag(id);
        let mut kept: Vec<MemberRecord> = Vec::new();
        let mut i: usize = 0;
        while i < self.members.len()
            invariant
                i <= self.members.len(),
                rows == self@.members,
                rows.len() == self.members.len(),
                pred == not_of_tag(id),
                member_rows(kept@) == rows.take(i as int).filter(pred),
            decreases self.members.len() - i,
        {
            proof {
                rows.lemma_take_succ_push(i as int);
                rows.take(i as int).lemma_filter_push(rows[i as int], pred);
            }
            if self.members[i].tag_id != id {
                kept.push(
                    MemberRecord {
                        file: self.members[i].file.clone(),
                        tag_id: self.members[i].tag_id,
                    },
                );
            }
            i += 1;
        }
        proof {
            assert(rows.take(i as int) =~= rows);
        }
        self.members = kept;
        self.tags.remove(place);
        assert(self@.tags =~= old(self)@.tags.remove(place as int));
    }

    /// Deletes the tags, each with all its memberships, one after the other.
    /// The first tag that does not exist ends the work with an error; the
    /// tags before it stay deleted.
    pub fn delete_tags(&mut self, tags: &TagSet) -> (r: Result<(), Error>)
        requires
            old(self).wf(),
            tags.wf(),
        ensures
            final(self).wf(),
            final(self)@ == old(self)@.delete_tags(tags.names()).0,
            final(self)@.same_inodes(old(self)@),
            r is Ok <==> (forall|t: Seq<char>| tags@.contains(t) ==> old(self)@.has_tag(t)),
            r is Err ==> r == Err::<(), Error>(
                Error::Database(DatabaseError::QueryReturnedNoRows),
            ),
            r is Ok ==> (forall|t: Seq<char>|
                final(self)@.has_tag(t) <==> old(self)@.has_tag(t) && !tags@.contains(t)),
            r is Ok ==> (forall|f: Seq<char>|
                #[trigger] final(self)@.file_tags(f) == old(self)@.file_tags(f).difference(tags@)),
    {
        let n: usize = tags.len();
        let ghost names = tags.names();
        proof {
            assert(names.skip(0) =~= names);
        }
        let mut i: usize = 0;
        while i < n
            invariant
                i <= n,
                n == names.len(),
                names == tags.names(),
                tags.wf(),
                old(self).wf(),
                self.wf(),
                self@.delete_tags(names.skip(i as int)) == old(self)@.delete_tags(names),
            decreases n - i,
        {
            proof {
                assert(names.skip(i as int).drop_first() =~= names.skip(i + 1));
            }
            match self.find_tag(tags.get(i)) {
                Some(place) => {
                    proof {
                        lemma_delete_tag(self@, names[i as int]);
                    }
                    self.delete_tag_at(place);
                },
                None => {
                    proof {
                        lemma_delete_tags_of_set(old(self)@, *tags);
                    }
                    return Err(Error::Database(DatabaseError::QueryReturnedNoRows));
                },
            }
            i += 1;
        }
        proof {
            lemma_delete_tags_of_set(old(self)@, *tags);
        }
        Ok(())
    }

    // ----- inodes -----
    /// The inode of the entry.
    pub fn inode(&self, entry: &Entry) -> (r: Result<u64, Error>)
        requires
            self.wf(),
            entry.wf(),
        ensures
            r == (if self@.knows(persisted(entry@).0, persisted(entry@).1) {
                Ok::<u64, Error>(self@.inode_of(persisted(entry@).0, persisted(entry@).1))
            } else {
                Err::<u64, Error>(Error::Database(DatabaseError::QueryReturnedNoRows))
            }),
    {
        let (discriminant, data) = entry.discrimimant_data();
        let discriminant: String = discriminant.to_owned();
        match self.find_key(&discriminant, &data) {
            Some(i) => {
                Ok(self.inodes[i].id)
            },
            None => Err(Error::Database(DatabaseError::QueryReturnedNoRows)),
        }
    }

    /// Gives the entry a new inode.  The entry must not have one.
    pub fn create_inode(&mut self, entry: &Entry) -> (r: Result<u64, Error>)
        requires
            old(self).wf(),
            entry.wf(),
        ensures
            final(self).wf(),
            ({
                let key = persisted(entry@);
                if old(self)@.knows(key.0, key.1) {
                    r == Err::<u64, Error>(Error::Database(DatabaseError::ConstraintViolation))
                        && final(self)@ == old(self)@
                } else if !old(self)@.room_for_inodes(1) {
                    r == Err::<u64, Error>(Error::Database(DatabaseError::Full)) && final(self)@
                        == old(self)@
                } else {
                    r == Ok::<u64, Error>(old(self)@.next_inode) && final(self)@ == old(
                        self,
                    )@.with_inode(key.0, key.1)
                }
            }),
    {
        let (discriminant, data) = entry.discrimimant_data();
        let discriminant: String = discriminant.to_owned();
        if self.find_key(&discriminant, &data).is_some() {
            return Err(Error::Database(DatabaseError::ConstraintViolation));
        }
        if self.next_inode > MAX_ID {
            return Err(Error::Database(DatabaseError::Full));
        }
        let id: u64 = self.next_inode;
        self.inodes.push(InodeRecord { id, discriminant, data });
        self.next_inode = id + 1;
        assert(self@.inodes =~= old(self)@.inodes.push(
            InodeRow { id, discriminant: persisted(entry@).0, data: persisted(entry@).1 },
        ));
        Ok(id)
    }

    /// The inode of the entry, which is given a new one if it has none.
    /// The inode leads back to the entry.
    pub fn inode_or_create(&mut self, entry: &Entry) -> (r: Result<u64, Error>)
        requires
            old(self).wf(),
            entry.wf(),
        ensures
            final(self).wf(),
            ({
                let key = persisted(entry@);
                if old(self)@.knows(key.0, key.1) || old(self)@.room_for_inodes(1) {
                    &&& final(self)@ == old(self)@.ensure_inode(key.0, key.1)
                    &&& r == Ok::<u64, Error>(final(self)@.inode_of(key.0, key.1))
                    &&& entry.valid() ==> final(self)@.entry_of(r->Ok_0) == Some(entry@)
                } else {
                    r == Err::<u64, Error>(Error::Database(DatabaseError::Full)) && final(self)@
                        == old(self)@
                }
            }),
    {
        proof {
            let key = persisted(entry@);
            if self@.knows(key.0, key.1) || self@.room_for_inodes(1) {
                lemma_ensure_inode(self@, key.0, key.1);
                if entry.valid() {
                    lemma_inode_round_trip(self@, *entry);
                }
            }
        }
        match self.inode(entry) {
            Ok(ino) => Ok(ino),
            Err(_) => self.create_inode(entry),
        }
    }

    /// The entry that the inode stands for.
    pub fn entry(&self, ino: u64) -> (r: Result<Entry, Error>)
        requires
            self.wf(),
        ensures
            !self@.has_inode(ino) ==> r is Err && r->Err_0 == Error::Database(
                DatabaseError::QueryReturnedNoRows,
            ),
            self@.has_inode(ino) ==> (match self@.entry_of(ino) {
                Some(entry) => r is Ok && r->Ok_0@ == entry && r->Ok_0.valid(),
                None => r is Err && r->Err_0 == Error::InvalidEntryDiscriminant,
            }),
    {
        match self.find_inode(ino) {
            Some(i) => {
                Entry::parse(self.inodes[i].discriminant.as_str(), self.inodes[i].data.as_str())
            },
            None => Err(Error::Database(DatabaseError::QueryReturnedNoRows)),
        }
    }
}

impl Entry {
    /// The entry that the inode stands for in the index.
    pub fn fetch(conn: &TagsFsDb, ino: u64) -> (r: Result<Entry, Error>)
        requires
            conn.wf(),
        ensures
            !conn@.has_inode(ino) ==> r is Err && r->Err_0 == Error::Database(
                DatabaseError::QueryReturnedNoRows,
            ),
            conn@.has_inode(ino) ==> (match conn@.entry_of(ino) {
                Some(entry) => r is Ok && r->Ok_0@ == entry && r->Ok_0.valid(),
                None => r is Err && r->Err_0 == Error::InvalidEntryDiscriminant,
            }),
    {
        conn.entry(ino)
    }

    /// The inode of the entry in the index.
    pub fn inode(&self, conn: &TagsFsDb) -> (r: Result<u64, Error>)
        requires
            conn.wf(),
            self.wf(),
        ensures
            r == (if conn@.knows(persisted(self@).0, persisted(self@).1) {
                Ok::<u64, Error>(conn@.inode_of(persisted(self@).0, persisted(self@).1))
            } else {
                Err::<u64, Error>(Error::Database(DatabaseError::QueryReturnedNoRows))
            }),
    {
        conn.inode(self)
    }

    /// Gives the entry a new inode in the index.  The entry must not have one.
    pub fn create(&self, conn: &mut TagsFsDb) -> (r: Result<u64, Error>)
        requires
            old(conn).wf(),
            self.wf(),
        ensures
            final(conn).wf(),
            ({
                let key = persisted(self@);
                if old(conn)@.knows(key.0, key.1) {
                    r == Err::<u64, Error>(Error::Database(DatabaseError::ConstraintViolation))
                        && final(conn)@ == old(conn)@
                } else if !old(conn)@.room_for_inodes(1) {
                    r == Err::<u64, Error>(Error::Database(DatabaseError::Full)) && final(conn)@
                        == old(conn)@
                } else {
                    r == Ok::<u64, Error>(old(conn)@.next_inode) && final(conn)@ == old(
                        conn,
                    )@.with_inode(key.0, key.1)
                }
            }),
    {
        conn.create_inode(self)
    }

    /// The inode of the entry in the index, which is a new one if the entry
    /// had none.  There must be an inode number left for an entry without one.
    pub fn inode_or_create(&self, conn: &mut TagsFsDb) -> (ino: u64)
        requires
            old(conn).wf(),
            self.wf(),
            old(conn)@.knows(persisted(self@).0, persisted(self@).1) || old(
                conn,
            )@.room_for_inodes(1),
        ensures
            final(conn).wf(),
            final(conn)@ == old(conn)@.ensure_inode(persisted(self@).0, persisted(self@).1),
            ino == final(conn)@.inode_of(persisted(self@).0, persisted(self@).1),
            self.valid() ==> final(conn)@.entry_of(ino) == Some(self@),
    {
        match conn.inode_or_create(self) {
            Ok(ino) => ino,
            Err(_) => vstd::pervasive::unreached(),
        }
    }
}

} // verus!
