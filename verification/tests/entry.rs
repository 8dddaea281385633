use tagsfs::attr::FileType;
use tagsfs::entry::{split_tags, Entry};
use tagsfs::error::Error;
use tagsfs::tag::TagSet;

fn set_of(names: &[&str]) -> TagSet {
    let mut set = TagSet::new();
    for name in names {
        set.insert(name.to_string());
    }
    set
}

#[test]
fn file_is_stored_under_its_name() {
    let entry = Entry::File("a.txt".to_string());
    assert_eq!(entry.discrimimant_data(), ("file", "a.txt".to_string()));
}

#[test]
fn root_is_stored_as_the_empty_string() {
    let entry = Entry::Tags(TagSet::new());
    assert_eq!(entry.discrimimant_data(), ("tags", String::new()));
}

#[test]
fn one_tag_is_stored_without_separator() {
    let entry = Entry::Tags(set_of(&["red"]));
    assert_eq!(entry.discrimimant_data(), ("tags", "red".to_string()));
}

#[test]
fn tags_are_stored_sorted_and_joined() {
    let entry = Entry::Tags(set_of(&["red", "big", "old"]));
    assert_eq!(entry.discrimimant_data(), ("tags", "big/old/red".to_string()));
}

#[test]
fn stored_form_does_not_depend_on_the_order_of_insertion() {
    let a = Entry::Tags(set_of(&["red", "big"]));
    let b = Entry::Tags(set_of(&["big", "red"]));
    assert_eq!(a.discrimimant_data(), b.discrimimant_data());
    assert_eq!(a.discrimimant_data().1, "big/red");
}

#[test]
fn split_drops_empty_pieces() {
    assert!(split_tags("").is_empty());
    assert!(split_tags("/").is_empty());
    assert!(split_tags("///").is_empty());
    assert_eq!(split_tags("red").to_vec(), vec!["red"]);
    assert_eq!(split_tags("/red/").to_vec(), vec!["red"]);
    assert_eq!(split_tags("red//big").to_vec(), vec!["big", "red"]);
    assert_eq!(split_tags("b/a/b/c").to_vec(), vec!["a", "b", "c"]);
}

#[test]
fn split_keeps_characters_beyond_ascii() {
    assert_eq!(split_tags("été/日本/x").to_vec(), vec!["x", "été", "日本"]);
}

#[test]
fn parse_reads_a_file() {
    assert_eq!(Entry::parse("file", "a.txt"), Ok(Entry::File("a.txt".to_string())));
    // The name of a file is taken as it is, separators included.
    assert_eq!(Entry::parse("file", "a/b"), Ok(Entry::File("a/b".to_string())));
    assert_eq!(Entry::parse("file", ""), Ok(Entry::File(String::new())));
}

#[test]
fn parse_reads_tags() {
    assert_eq!(Entry::parse("tags", ""), Ok(Entry::Tags(TagSet::new())));
    assert_eq!(Entry::parse("tags", "big/red"), Ok(Entry::Tags(set_of(&["red", "big"]))));
    assert_eq!(Entry::parse("tags", "red/big"), Ok(Entry::Tags(set_of(&["red", "big"]))));
}

#[test]
fn parse_refuses_an_unknown_discriminant() {
    assert_eq!(Entry::parse("dir", "red"), Err(Error::InvalidEntryDiscriminant));
    assert_eq!(Entry::parse("", ""), Err(Error::InvalidEntryDiscriminant));
    assert_eq!(Entry::parse("Tags", "red"), Err(Error::InvalidEntryDiscriminant));
    assert_eq!(Entry::parse("files", "a"), Err(Error::InvalidEntryDiscriminant));
}

#[test]
fn stored_entries_read_back() {
    let entries = vec![
        Entry::File("a.txt".to_string()),
        Entry::File("red".to_string()),
        Entry::Tags(TagSet::new()),
        Entry::Tags(set_of(&["red"])),
        Entry::Tags(set_of(&["red", "big", "old"])),
    ];
    for entry in entries {
        let (discriminant, data) = entry.discrimimant_data();
        assert_eq!(Entry::parse(discriminant, &data), Ok(entry));
    }
}

#[test]
fn file_type_follows_the_kind_of_entry() {
    assert_eq!(Entry::File("a".to_string()).file_type(), FileType::RegularFile);
    assert_eq!(Entry::Tags(TagSet::new()).file_type(), FileType::Directory);
}

#[test]
fn clone_is_the_same_entry() {
    let entry = Entry::Tags(set_of(&["red", "big"]));
    assert_eq!(entry.clone(), entry);
    let entry = Entry::File("a.txt".to_string());
    assert_eq!(entry.clone(), entry);
}
