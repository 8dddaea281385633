use tagsfs::attr::{file_attr_of_file, plan_setattr, FileType, Metadata, TimeOrNow, Timestamp};
use tagsfs::database::{InodeRecord, TagRecord};
use tagsfs::entry::Entry;
use tagsfs::error::{DatabaseError, Errno, Error};
use tagsfs::filesystem::{DirEntry, DirItem, Target, Unlink, ROOT_INODE};
use tagsfs::tag::TagSet;
use tagsfs::{TagsFs, TagsFsDb};

const ROOT: u64 = 1;

fn set_of(names: &[&str]) -> TagSet {
    let mut set = TagSet::new();
    for name in names {
        set.insert(name.to_string());
    }
    set
}

fn at(secs: u64) -> Timestamp {
    Timestamp { secs, nanos: 0 }
}

fn file_metadata() -> Metadata {
    Metadata {
        size: 5,
        blocks: 1,
        accessed: at(10),
        modified: at(20),
        created: at(5),
        ctime_nsec: 0,
        is_dir: false,
        is_file: true,
        mode: 0o100644,
        nlink: 1,
        uid: 1000,
        gid: 1000,
        rdev: 0,
        blksize: 512,
    }
}

fn dir_metadata() -> Metadata {
    Metadata { is_dir: true, is_file: false, mode: 0o40755, size: 4096, ..file_metadata() }
}

fn listing(names: &[&str]) -> Vec<DirItem> {
    names.iter().map(|name| DirItem { name: name.to_string(), is_file: true }).collect()
}

/// A file system whose index holds the root directory and nothing else.
fn fresh() -> TagsFs {
    let mut db = TagsFsDb::new();
    assert_eq!(db.create_inode(&Entry::Tags(TagSet::new())), Ok(ROOT));
    TagsFs::new(db, Some("/srv/files".to_string())).unwrap()
}

fn file(ino: u64, offset: i64, name: &str) -> DirEntry {
    DirEntry { ino, offset, kind: FileType::RegularFile, name: name.to_string() }
}

fn dir(ino: u64, offset: i64, name: &str) -> DirEntry {
    DirEntry { ino, offset, kind: FileType::Directory, name: name.to_string() }
}

fn names(entries: &[DirEntry], kind: FileType) -> Vec<String> {
    entries.iter().filter(|e| e.kind == kind).map(|e| e.name.clone()).collect()
}

fn inode_of_dir(fs: &mut TagsFs, tags: &[&str]) -> u64 {
    fs.db.inode_or_create(&Entry::Tags(set_of(tags))).unwrap()
}

fn inode_of_file(fs: &mut TagsFs, name: &str) -> u64 {
    fs.db.inode_or_create(&Entry::File(name.to_string())).unwrap()
}

/// The source holds a.txt and b.txt; a.txt carries red and big, b.txt carries red.
fn conjunction() -> (TagsFs, Vec<DirItem>) {
    let mut fs = fresh();
    let source = listing(&["a.txt", "b.txt"]);
    fs.readdir(ROOT, 0, &source).unwrap();
    fs.mkdir(ROOT, "red", &dir_metadata()).unwrap();
    fs.mkdir(ROOT, "big", &dir_metadata()).unwrap();
    let a = inode_of_file(&mut fs, "a.txt");
    let b = inode_of_file(&mut fs, "b.txt");
    let red = inode_of_dir(&mut fs, &["red"]);
    let big = inode_of_dir(&mut fs, &["big"]);
    assert_eq!(fs.link(a, red), Ok("a.txt".to_string()));
    assert_eq!(fs.link(a, big), Ok("a.txt".to_string()));
    assert_eq!(fs.link(b, red), Ok("b.txt".to_string()));
    (fs, source)
}

#[test]
fn new_takes_the_given_source() {
    let mut db = TagsFsDb::new();
    db.configure(None, Some("/from/index".to_string()));
    let fs = TagsFs::new(db, Some("/given".to_string())).unwrap();
    assert_eq!(fs.source, "/given");
}

#[test]
fn new_falls_back_to_the_source_of_the_index() {
    let mut db = TagsFsDb::new();
    db.configure(None, Some("/from/index".to_string()));
    let fs = TagsFs::new(db, None).unwrap();
    assert_eq!(fs.source, "/from/index");
}

#[test]
fn new_fails_without_any_source() {
    let err = TagsFs::new(TagsFsDb::new(), None).unwrap_err();
    assert_eq!(err, Error::Database(DatabaseError::QueryReturnedNoRows));
}

#[test]
fn init_wants_the_root_at_the_root_inode() {
    assert_eq!(ROOT_INODE, 1);
    assert_eq!(fresh().init(), Ok(()));
    let empty = TagsFs::new(TagsFsDb::new(), Some("/s".to_string())).unwrap();
    assert_eq!(empty.init(), Err(Errno::NoDevice));
    let mut db = TagsFsDb::new();
    db.create_inode(&Entry::File("a".to_string())).unwrap();
    db.create_inode(&Entry::Tags(TagSet::new())).unwrap();
    let shifted = TagsFs::new(db, Some("/s".to_string())).unwrap();
    assert_eq!(shifted.init(), Err(Errno::NoDevice));
}

#[test]
fn root_of_untagged_files_shows_all_files() {
    let mut fs = fresh();
    let source = listing(&["a.txt", "b.txt"]);
    let entries = fs.readdir(ROOT, 0, &source).unwrap();
    assert_eq!(entries, vec![file(2, 1, "a.txt"), file(3, 2, "b.txt")]);
    assert!(names(&entries, FileType::Directory).is_empty());
}

#[test]
fn tagged_file_shows_in_the_directory_of_its_tag() {
    let mut fs = fresh();
    let source = listing(&["a.txt", "b.txt"]);
    fs.readdir(ROOT, 0, &source).unwrap();
    let made = fs.mkdir(ROOT, "red", &dir_metadata()).unwrap();
    let red = made.ino;
    assert_eq!(fs.db.entry(red), Ok(Entry::Tags(set_of(&["red"]))));
    let a = inode_of_file(&mut fs, "a.txt");
    assert_eq!(fs.link(a, red), Ok("a.txt".to_string()));

    let in_red = fs.readdir(red, 0, &source).unwrap();
    assert_eq!(in_red, vec![file(a, 1, "a.txt")]);

    let in_root = fs.readdir(ROOT, 0, &source).unwrap();
    assert_eq!(names(&in_root, FileType::RegularFile), vec!["a.txt", "b.txt"]);
    assert_eq!(names(&in_root, FileType::Directory), vec!["red"]);
    assert_eq!(in_root[2], dir(red, 3, "red"));
}

#[test]
fn directory_of_two_tags_shows_files_with_both() {
    let (mut fs, source) = conjunction();
    let red = inode_of_dir(&mut fs, &["red"]);
    let in_red = fs.readdir(red, 0, &source).unwrap();
    assert_eq!(names(&in_red, FileType::RegularFile), vec!["a.txt", "b.txt"]);
    assert_eq!(names(&in_red, FileType::Directory), vec!["big"]);

    let both = fs.lookup(red, "big", None, &dir_metadata()).unwrap().ino;
    assert_eq!(fs.db.entry(both), Ok(Entry::Tags(set_of(&["red", "big"]))));
    let in_both = fs.readdir(both, 0, &source).unwrap();
    assert_eq!(names(&in_both, FileType::RegularFile), vec!["a.txt"]);
    assert!(names(&in_both, FileType::Directory).is_empty());
}

#[test]
fn rename_adds_and_removes_tags() {
    let (mut fs, source) = conjunction();
    let red = inode_of_dir(&mut fs, &["red"]);
    let big = inode_of_dir(&mut fs, &["big"]);
    assert_eq!(fs.rename(red, "a.txt", big), Ok(()));
    assert_eq!(fs.db.file_tags("a.txt"), Ok(set_of(&["big"])));
    assert_eq!(fs.db.file_tags("b.txt"), Ok(set_of(&["red"])));
    let in_red = fs.readdir(red, 0, &source).unwrap();
    assert_eq!(names(&in_red, FileType::RegularFile), vec!["b.txt"]);
    let in_big = fs.readdir(big, 0, &source).unwrap();
    assert_eq!(names(&in_big, FileType::RegularFile), vec!["a.txt"]);
}

#[test]
fn file_hides_tag_of_the_same_name() {
    let mut fs = fresh();
    fs.mkdir(ROOT, "red", &dir_metadata()).unwrap();
    let source = listing(&["red"]);
    fs.readdir(ROOT, 0, &source).unwrap();
    let file_ino = inode_of_file(&mut fs, "red");
    let dir_ino = inode_of_dir(&mut fs, &["red"]);
    assert_ne!(file_ino, dir_ino);

    let found = fs.lookup(ROOT, "red", Some(&file_metadata()), &dir_metadata()).unwrap();
    assert_eq!(found, file_attr_of_file(file_ino, &file_metadata()));
    assert_eq!(found.kind, FileType::RegularFile);

    // Without a backing file the name is the tag.
    let found = fs.lookup(ROOT, "red", None, &dir_metadata()).unwrap();
    assert_eq!(found, file_attr_of_file(dir_ino, &dir_metadata()));
    assert_eq!(found.kind, FileType::Directory);
}

#[test]
fn rmdir_takes_the_tag_from_all_files() {
    let (mut fs, _) = conjunction();
    assert_eq!(fs.rmdir(ROOT, "red"), Ok(()));
    assert_eq!(fs.db.sub_tags(&TagSet::new()), Ok(vec!["big".to_string()]));
    assert_eq!(fs.db.file_tags("a.txt"), Ok(set_of(&["big"])));
    assert_eq!(fs.db.file_tags("b.txt"), Ok(TagSet::new()));
}

#[test]
fn rmdir_of_an_unknown_tag() {
    let mut fs = fresh();
    assert_eq!(fs.rmdir(ROOT, "red"), Err(Errno::NoEntry));
    fs.mkdir(ROOT, "red", &dir_metadata()).unwrap();
    assert_eq!(fs.rmdir(ROOT, "big"), Err(Errno::NoEntry));
    // The directory in which the request is made does not matter.
    assert_eq!(fs.rmdir(99, "red"), Ok(()));
    assert_eq!(fs.db.tag_id("red"), Err(Error::Database(DatabaseError::QueryReturnedNoRows)));
}

#[test]
fn mkdir_creates_the_tag_and_its_directory() {
    let mut fs = fresh();
    let attr = fs.mkdir(ROOT, "red", &dir_metadata()).unwrap();
    assert_eq!(attr, file_attr_of_file(2, &dir_metadata()));
    assert_eq!(attr.kind, FileType::Directory);
    assert_eq!(fs.db.tag_id("red"), Ok(1));
    assert_eq!(fs.db.entry(2), Ok(Entry::Tags(set_of(&["red"]))));
}

#[test]
fn mkdir_inside_a_tag_directory_creates_a_plain_tag() {
    let mut fs = fresh();
    let red = fs.mkdir(ROOT, "red", &dir_metadata()).unwrap().ino;
    let big = fs.mkdir(red, "big", &dir_metadata()).unwrap().ino;
    assert_eq!(fs.db.entry(big), Ok(Entry::Tags(set_of(&["big"]))));
    assert_eq!(fs.db.sub_tags(&TagSet::new()), Ok(vec!["red".to_string(), "big".to_string()]));
}

#[test]
fn mkdir_refuses_what_cannot_be_a_new_tag() {
    let mut fs = fresh();
    fs.mkdir(ROOT, "red", &dir_metadata()).unwrap();
    assert_eq!(fs.mkdir(ROOT, "red", &dir_metadata()), Err(Errno::NoDevice));
    assert_eq!(fs.mkdir(ROOT, "", &dir_metadata()), Err(Errno::NoDevice));
    assert_eq!(fs.mkdir(ROOT, "a/b", &dir_metadata()), Err(Errno::NoDevice));
    assert_eq!(fs.db.tag_records().len(), 1);
    assert_eq!(fs.db.inode_records().len(), 2);
}

#[test]
fn mkdir_without_identifiers_changes_nothing() {
    let max = 0x7fff_ffff_ffff_ffffu64;
    let tags = vec![TagRecord { id: max, tag: "last".to_string() }];
    let db = TagsFsDb::from_rows(tags, vec![], vec![], None, None).unwrap();
    let mut fs = TagsFs::new(db, Some("/s".to_string())).unwrap();
    assert_eq!(fs.mkdir(ROOT, "red", &dir_metadata()), Err(Errno::NoDevice));
    assert!(fs.db.inode_records().is_empty());
    let inodes =
        vec![InodeRecord { id: max, discriminant: "tags".to_string(), data: String::new() }];
    let db = TagsFsDb::from_rows(vec![], vec![], inodes, None, None).unwrap();
    let mut fs = TagsFs::new(db, Some("/s".to_string())).unwrap();
    assert_eq!(fs.mkdir(ROOT, "red", &dir_metadata()), Err(Errno::NoDevice));
    assert!(fs.db.tag_records().is_empty());
}

#[test]
fn unlink_in_the_root_deletes_the_file() {
    let mut fs = fresh();
    assert_eq!(fs.unlink(ROOT, "a.txt"), Ok(Unlink::RemoveFile));
    assert_eq!(fs.db.file_tags("a.txt"), Ok(TagSet::new()));
    assert!(fs.db.member_records().is_empty());
}

#[test]
fn unlink_in_the_root_leaves_the_index_alone() {
    let (mut fs, _) = conjunction();
    let members = fs.db.member_records().clone();
    assert_eq!(fs.unlink(ROOT, "a.txt"), Ok(Unlink::RemoveFile));
    assert_eq!(fs.db.member_records(), &members);
    assert_eq!(fs.db.file_tags("a.txt"), Ok(set_of(&["red", "big"])));
}

#[test]
fn unlink_in_a_tag_directory_strips_its_tags() {
    let (mut fs, source) = conjunction();
    let red = inode_of_dir(&mut fs, &["red"]);
    assert_eq!(fs.unlink(red, "a.txt"), Ok(Unlink::KeepFile));
    assert_eq!(fs.db.file_tags("a.txt"), Ok(set_of(&["big"])));
    assert_eq!(fs.db.file_tags("b.txt"), Ok(set_of(&["red"])));
    // The file is still shown in the root.
    let in_root = fs.readdir(ROOT, 0, &source).unwrap();
    assert_eq!(names(&in_root, FileType::RegularFile), vec!["a.txt", "b.txt"]);
}

#[test]
fn unlink_in_a_directory_of_two_tags_strips_both() {
    let (mut fs, _) = conjunction();
    let both = inode_of_dir(&mut fs, &["red", "big"]);
    assert_eq!(fs.unlink(both, "a.txt"), Ok(Unlink::KeepFile));
    assert_eq!(fs.db.file_tags("a.txt"), Ok(TagSet::new()));
}

#[test]
fn unlink_wants_a_directory() {
    let (mut fs, _) = conjunction();
    let a = inode_of_file(&mut fs, "a.txt");
    assert_eq!(fs.unlink(a, "a.txt"), Err(Errno::InvalidArgument));
    assert_eq!(fs.unlink(999, "a.txt"), Err(Errno::InvalidArgument));
    assert_eq!(fs.db.file_tags("a.txt"), Ok(set_of(&["red", "big"])));
}

#[test]
fn rename_is_the_difference_of_the_directories() {
    let (mut fs, _) = conjunction();
    fs.mkdir(ROOT, "old", &dir_metadata()).unwrap();
    let from = inode_of_dir(&mut fs, &["red", "big"]);
    let to = inode_of_dir(&mut fs, &["big", "old"]);
    assert_eq!(fs.rename(from, "a.txt", to), Ok(()));
    assert_eq!(fs.db.file_tags("a.txt"), Ok(set_of(&["big", "old"])));
}

#[test]
fn rename_into_the_root_strips_the_tags() {
    let (mut fs, _) = conjunction();
    let red = inode_of_dir(&mut fs, &["red"]);
    assert_eq!(fs.rename(red, "a.txt", ROOT), Ok(()));
    assert_eq!(fs.db.file_tags("a.txt"), Ok(set_of(&["big"])));
}

#[test]
fn rename_out_of_the_root_adds_the_tags() {
    let (mut fs, _) = conjunction();
    let big = inode_of_dir(&mut fs, &["big"]);
    assert_eq!(fs.rename(ROOT, "b.txt", big), Ok(()));
    assert_eq!(fs.db.file_tags("b.txt"), Ok(set_of(&["red", "big"])));
}

#[test]
fn rename_within_a_directory_changes_nothing() {
    let (mut fs, _) = conjunction();
    let red = inode_of_dir(&mut fs, &["red"]);
    let members = fs.db.member_records().clone();
    assert_eq!(fs.rename(red, "a.txt", red), Ok(()));
    assert_eq!(fs.db.member_records(), &members);
}

#[test]
fn rename_wants_two_directories() {
    let (mut fs, _) = conjunction();
    let red = inode_of_dir(&mut fs, &["red"]);
    let a = inode_of_file(&mut fs, "a.txt");
    assert_eq!(fs.rename(a, "a.txt", red), Err(Errno::InvalidArgument));
    assert_eq!(fs.rename(red, "a.txt", a), Err(Errno::InvalidArgument));
    assert_eq!(fs.rename(red, "a.txt", 999), Err(Errno::InvalidArgument));
    assert_eq!(fs.db.file_tags("a.txt"), Ok(set_of(&["red", "big"])));
}

#[test]
fn link_adds_the_tags_of_the_directory() {
    let (mut fs, _) = conjunction();
    let b = inode_of_file(&mut fs, "b.txt");
    let both = inode_of_dir(&mut fs, &["red", "big"]);
    assert_eq!(fs.link(b, both), Ok("b.txt".to_string()));
    assert_eq!(fs.db.file_tags("b.txt"), Ok(set_of(&["red", "big"])));
    assert_eq!(fs.link(b, ROOT), Ok("b.txt".to_string()));
    assert_eq!(fs.db.file_tags("b.txt"), Ok(set_of(&["red", "big"])));
}

#[test]
fn link_wants_a_file_and_a_directory() {
    let (mut fs, _) = conjunction();
    let a = inode_of_file(&mut fs, "a.txt");
    let b = inode_of_file(&mut fs, "b.txt");
    let red = inode_of_dir(&mut fs, &["red"]);
    assert_eq!(fs.link(red, red), Err(Errno::InvalidArgument));
    assert_eq!(fs.link(a, b), Err(Errno::InvalidArgument));
    assert_eq!(fs.link(999, red), Err(Errno::InvalidArgument));
    assert_eq!(fs.link(a, 999), Err(Errno::InvalidArgument));
}

#[test]
fn create_mode_masks_the_mode() {
    assert_eq!(TagsFs::create_mode(false, 0o666, 0o022), Ok(0o644));
    assert_eq!(TagsFs::create_mode(false, 0o777, 0), Ok(0o777));
    assert_eq!(TagsFs::create_mode(false, 0o777, 0o777), Ok(0));
    assert_eq!(TagsFs::create_mode(true, 0o666, 0o022), Err(Errno::Exists));
}

#[test]
fn create_gives_the_file_the_tags_of_its_directory() {
    let (mut fs, source) = conjunction();
    let both = inode_of_dir(&mut fs, &["red", "big"]);
    let attr = fs.create(both, "c.txt", &file_metadata()).unwrap();
    assert_eq!(fs.db.entry(attr.ino), Ok(Entry::File("c.txt".to_string())));
    assert_eq!(attr, file_attr_of_file(attr.ino, &file_metadata()));
    assert_eq!(fs.db.file_tags("c.txt"), Ok(set_of(&["red", "big"])));
    let mut wider = source.clone();
    wider.push(DirItem { name: "c.txt".to_string(), is_file: true });
    let in_both = fs.readdir(both, 0, &wider).unwrap();
    assert_eq!(names(&in_both, FileType::RegularFile), vec!["a.txt", "c.txt"]);
}

#[test]
fn create_in_the_root_gives_no_tags() {
    let mut fs = fresh();
    let attr = fs.create(ROOT, "c.txt", &file_metadata()).unwrap();
    assert_eq!(attr.ino, 2);
    assert_eq!(fs.db.file_tags("c.txt"), Ok(TagSet::new()));
    // A parent that is no directory gives no tags either.
    let attr = fs.create(attr.ino, "d.txt", &file_metadata()).unwrap();
    assert_eq!(attr.ino, 3);
    assert_eq!(fs.db.file_tags("d.txt"), Ok(TagSet::new()));
}

#[test]
fn lookup_finds_a_file_that_carries_the_tags() {
    let (mut fs, _) = conjunction();
    let red = inode_of_dir(&mut fs, &["red"]);
    let big = inode_of_dir(&mut fs, &["big"]);
    let a = inode_of_file(&mut fs, "a.txt");
    let b = inode_of_file(&mut fs, "b.txt");
    let meta = file_metadata();
    let source = dir_metadata();
    assert_eq!(fs.lookup(ROOT, "a.txt", Some(&meta), &source), Ok(file_attr_of_file(a, &meta)));
    assert_eq!(fs.lookup(red, "b.txt", Some(&meta), &source), Ok(file_attr_of_file(b, &meta)));
    assert_eq!(fs.lookup(big, "a.txt", Some(&meta), &source), Ok(file_attr_of_file(a, &meta)));
    assert_eq!(
        fs.lookup(big, "b.txt", Some(&meta), &source),
        Err(Error::StdC(Errno::NoEntry))
    );
}

#[test]
fn lookup_of_a_file_without_inode() {
    let mut fs = fresh();
    assert_eq!(
        fs.lookup(ROOT, "new.txt", Some(&file_metadata()), &dir_metadata()),
        Err(Error::Database(DatabaseError::QueryReturnedNoRows))
    );
}

#[test]
fn lookup_finds_a_tag_as_the_wider_directory() {
    let (mut fs, _) = conjunction();
    let red = inode_of_dir(&mut fs, &["red"]);
    let source = dir_metadata();
    let found = fs.lookup(ROOT, "red", None, &source).unwrap();
    assert_eq!(found, file_attr_of_file(red, &source));
    let both = fs.lookup(red, "big", None, &source).unwrap();
    assert_eq!(fs.db.entry(both.ino), Ok(Entry::Tags(set_of(&["big", "red"]))));
    // The same directory is reached the other way round.
    let big = inode_of_dir(&mut fs, &["big"]);
    assert_eq!(fs.lookup(big, "red", None, &source), Ok(both));
}

#[test]
fn lookup_of_a_path_that_is_no_file_falls_back_to_the_tag() {
    let (mut fs, _) = conjunction();
    let red = inode_of_dir(&mut fs, &["red"]);
    let source = dir_metadata();
    assert_eq!(
        fs.lookup(ROOT, "red", Some(&dir_metadata()), &source),
        Ok(file_attr_of_file(red, &source))
    );
}

#[test]
fn lookup_finds_nothing() {
    let (mut fs, _) = conjunction();
    let red = inode_of_dir(&mut fs, &["red"]);
    let source = dir_metadata();
    let before = fs.db.inode_records().len();
    assert_eq!(fs.lookup(ROOT, "nothing", None, &source), Err(Error::StdC(Errno::NoEntry)));
    // A directory does not hold its own tags.
    assert_eq!(fs.lookup(red, "red", None, &source), Err(Error::StdC(Errno::NoEntry)));
    assert_eq!(fs.db.inode_records().len(), before);
}

#[test]
fn lookup_wants_a_directory() {
    let (mut fs, _) = conjunction();
    let a = inode_of_file(&mut fs, "a.txt");
    let source = dir_metadata();
    assert_eq!(
        fs.lookup(a, "red", None, &source),
        Err(Error::StdC(Errno::InvalidArgument))
    );
    assert_eq!(
        fs.lookup(999, "red", None, &source),
        Err(Error::StdC(Errno::InvalidArgument))
    );
    assert_eq!(Error::StdC(Errno::InvalidArgument).errno(), Errno::InvalidArgument);
}

#[test]
fn target_tells_which_path_stands_behind_an_inode() {
    let (mut fs, _) = conjunction();
    let a = inode_of_file(&mut fs, "a.txt");
    let red = inode_of_dir(&mut fs, &["red"]);
    assert_eq!(fs.target(a), Some(Target::File("a.txt".to_string())));
    assert_eq!(fs.target(red), Some(Target::Source));
    assert_eq!(fs.target(ROOT), Some(Target::Source));
    assert_eq!(fs.target(999), None);
}

#[test]
fn getattr_reports_the_target() {
    let (mut fs, _) = conjunction();
    let a = inode_of_file(&mut fs, "a.txt");
    let meta = file_metadata();
    let source = dir_metadata();
    assert_eq!(fs.getattr(a, Some(&meta)), Ok(file_attr_of_file(a, &meta)));
    assert_eq!(fs.getattr(ROOT, Some(&source)), Ok(file_attr_of_file(ROOT, &source)));
    assert_eq!(fs.getattr(a, None), Err(Errno::NoEntry));
    assert_eq!(fs.getattr(999, Some(&meta)), Err(Errno::NoEntry));
}

#[test]
fn setattr_is_for_files_only() {
    let (mut fs, _) = conjunction();
    let a = inode_of_file(&mut fs, "a.txt");
    let red = inode_of_dir(&mut fs, &["red"]);
    let meta = file_metadata();
    let now = Some(TimeOrNow::Now);
    let plan =
        fs.setattr(a, Some(&meta), Some(0o600), None, Some(7), Some(0), None, now, at(99)).unwrap();
    assert_eq!(
        plan,
        plan_setattr(
            file_attr_of_file(a, &meta),
            Some(0o600),
            None,
            Some(7),
            Some(0),
            None,
            Some(TimeOrNow::Now),
            at(99)
        )
    );
    assert_eq!(plan.chmod, Some(0o600));
    assert_eq!(plan.chown, Some((1000, 7)));
    assert_eq!(plan.truncate, Some(0));
    assert_eq!(plan.utimens, Some((at(10), at(99))));
    assert_eq!(plan.attr.ino, a);
    assert_eq!(
        fs.setattr(a, None, Some(0o600), None, None, None, None, None, at(0)),
        Err(Errno::InvalidArgument)
    );
    assert_eq!(
        fs.setattr(red, Some(&dir_metadata()), Some(0o600), None, None, None, None, None, at(0)),
        Err(Errno::InvalidArgument)
    );
    assert_eq!(
        fs.setattr(999, Some(&meta), None, None, None, None, None, None, at(0)),
        Err(Errno::InvalidArgument)
    );
}

#[test]
fn read_and_write_are_for_files_only() {
    let (mut fs, _) = conjunction();
    let a = inode_of_file(&mut fs, "a.txt");
    let red = inode_of_dir(&mut fs, &["red"]);
    assert_eq!(fs.read(a), Ok("a.txt".to_string()));
    assert_eq!(fs.read(red), Err(Errno::NoData));
    assert_eq!(fs.read(999), Err(Errno::NoEntry));
    assert_eq!(fs.write(a), Ok("a.txt".to_string()));
    assert_eq!(fs.write(red), Err(Errno::InvalidArgument));
    assert_eq!(fs.write(999), Err(Errno::InvalidArgument));
}

#[test]
fn readdir_counts_every_path_and_every_tag() {
    let (mut fs, _) = conjunction();
    let source = vec![
        DirItem { name: "a.txt".to_string(), is_file: true },
        DirItem { name: "sub".to_string(), is_file: false },
        DirItem { name: "b.txt".to_string(), is_file: true },
        DirItem { name: "c.txt".to_string(), is_file: true },
    ];
    let a = inode_of_file(&mut fs, "a.txt");
    let b = inode_of_file(&mut fs, "b.txt");
    let red = inode_of_dir(&mut fs, &["red"]);
    let big = inode_of_dir(&mut fs, &["big"]);
    let inodes = fs.db.inode_records().len();
    // c.txt carries no tag and sub is no file: both keep their places.
    let in_red = fs.readdir(red, 0, &source).unwrap();
    assert_eq!(in_red, vec![file(a, 1, "a.txt"), file(b, 3, "b.txt"), dir(big, 5, "big")]);
    assert_eq!(fs.db.inode_records().len(), inodes);
    let in_root = fs.readdir(ROOT, 0, &source).unwrap();
    assert_eq!(
        in_root,
        vec![
            file(a, 1, "a.txt"),
            file(b, 3, "b.txt"),
            file(inodes as u64 + 1, 4, "c.txt"),
            dir(red, 5, "red"),
            dir(big, 6, "big")
        ]
    );
}

#[test]
fn readdir_takes_up_after_the_offset() {
    let (mut fs, source) = conjunction();
    let whole = fs.readdir(ROOT, 0, &source).unwrap();
    assert_eq!(whole.len(), 4);
    assert_eq!(fs.readdir(ROOT, -5, &source).unwrap(), whole);
    for offset in 0..=4usize {
        let rest = fs.readdir(ROOT, offset as i64, &source).unwrap();
        assert_eq!(rest, whole[offset..].to_vec());
    }
    assert!(fs.readdir(ROOT, 5, &source).unwrap().is_empty());
    assert!(fs.readdir(ROOT, i64::MAX, &source).unwrap().is_empty());
}

#[test]
fn readdir_gives_inodes_only_to_what_it_shows() {
    let mut fs = fresh();
    fs.mkdir(ROOT, "red", &dir_metadata()).unwrap();
    fs.mkdir(ROOT, "big", &dir_metadata()).unwrap();
    let source = listing(&["a.txt", "b.txt"]);
    assert_eq!(fs.db.inode_records().len(), 3);
    let tail = fs.readdir(ROOT, 3, &source).unwrap();
    assert_eq!(tail, vec![dir(3, 4, "big")]);
    assert_eq!(fs.db.inode_records().len(), 3);
    let whole = fs.readdir(ROOT, 0, &source).unwrap();
    assert_eq!(
        whole,
        vec![file(4, 1, "a.txt"), file(5, 2, "b.txt"), dir(2, 3, "red"), dir(3, 4, "big")]
    );
    for entry in &whole {
        let expected = match entry.kind {
            FileType::RegularFile => Entry::File(entry.name.clone()),
            FileType::Directory => Entry::Tags(set_of(&[entry.name.as_str()])),
        };
        assert_eq!(fs.db.entry(entry.ino), Ok(expected));
    }
}

#[test]
fn readdir_wants_a_directory() {
    let (mut fs, source) = conjunction();
    let a = inode_of_file(&mut fs, "a.txt");
    assert_eq!(fs.readdir(a, 0, &source), Err(Errno::InvalidArgument));
    assert_eq!(fs.readdir(999, 0, &source), Err(Errno::NoEntry));
}

#[test]
fn readdir_without_inode_numbers_changes_nothing() {
    let max = 0x7fff_ffff_ffff_ffffu64;
    let inodes = vec![
        InodeRecord { id: 1, discriminant: "tags".to_string(), data: String::new() },
        InodeRecord { id: max - 1, discriminant: "file".to_string(), data: "a.txt".to_string() },
    ];
    let db = TagsFsDb::from_rows(vec![], vec![], inodes, None, None).unwrap();
    let mut fs = TagsFs::new(db, Some("/s".to_string())).unwrap();
    assert_eq!(fs.readdir(ROOT, 0, &listing(&["a.txt"])), Ok(vec![file(max - 1, 1, "a.txt")]));
    assert_eq!(fs.readdir(ROOT, 0, &listing(&["a.txt", "b.txt"])), Err(Errno::NoDevice));
    assert_eq!(fs.db.inode_records().len(), 2);
}
