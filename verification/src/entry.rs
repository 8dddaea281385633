//! The entries that the file system shows, and the form in which the index
//! stores them.
//!
//! An entry is a backing file, known by its name, or a directory, known by
//! its set of tags.  The index stores an entry as a discriminant and a data
//! string: the name of a file, or the tags of a directory in ascending order
//! with a separator between them.

use crate::attr::FileType;
use crate::error::Error;
use crate::tag::{
    is_tag_name, lemma_ascending_no_duplicates, lemma_ascending_unique, lemma_canonical_order,
    lemma_lex_total, lex_less, names_of, separator, strictly_ascending, TagSet,
};
use itertools::Itertools;
use vstd::prelude::*;

verus! {

/// The discriminant of a stored directory.
pub open spec fn tags_discriminant() -> Seq<char> {
    "tags"@
}

/// The discriminant of a stored file.
pub open spec fn file_discriminant() -> Seq<char> {
    "file"@
}

/// `parts` in a row, with `sep` between each two of them.
pub open spec fn joined(parts: Seq<Seq<char>>, sep: Seq<char>) -> Seq<char>
    decreases parts.len(),
{
    if parts.len() == 0 {
        Seq::empty()
    } else if parts.len() == 1 {
        parts[0]
    } else {
        parts[0] + sep + joined(parts.drop_first(), sep)
    }
}

/// The place of the first separator in `s`, or the length of `s` if it has none.
pub open spec fn first_separator(s: Seq<char>) -> int
    decreases s.len(),
{
    if s.len() == 0 || s[0] == separator() {
        0
    } else {
        1 + first_separator(s.drop_first())
    }
}

/// The pieces that the separators cut `s` into, without the empty ones.
pub open spec fn components(s: Seq<char>) -> Seq<Seq<char>>
    decreases s.len(),
{
    if s.len() == 0 {
        Seq::empty()
    } else {
        let k = first_separator(s);
        let head = if k > 0 {
            seq![s.take(k)]
        } else {
            Seq::empty()
        };
        if 0 <= k < s.len() {
            head + components(s.skip(k + 1))
        } else {
            head
        }
    }
}

/// The first separator stands where a run without separators ends.
pub proof fn lemma_first_separator(s: Seq<char>, k: int)
    requires
        0 <= k <= s.len(),
        forall|i: int| 0 <= i < k ==> s[i] != separator(),
        k < s.len() ==> s[k] == separator(),
    ensures
        first_separator(s) == k,
    decreases k,
{
    if k > 0 {
        lemma_first_separator(s.drop_first(), k - 1);
    }
}

/// Every piece is a usable tag name.
pub proof fn lemma_components_are_names(s: Seq<char>)
    ensures
        forall|i: int| 0 <= i < components(s).len() ==> is_tag_name(#[trigger] components(s)[i]),
    decreases s.len(),
{
    if s.len() > 0 {
        let k = first_separator(s);
        lemma_first_separator_bounds(s);
        let rest = if 0 <= k < s.len() {
            components(s.skip(k + 1))
        } else {
            Seq::empty()
        };
        if 0 <= k < s.len() {
            lemma_components_are_names(s.skip(k + 1));
        }
        assert forall|i: int| 0 <= i < components(s).len() implies is_tag_name(
            #[trigger] components(s)[i],
        ) by {
            if k > 0 && i == 0 {
                assert(components(s)[0] == s.take(k));
                assert forall|j: int| 0 <= j < k implies s.take(k)[j] != separator() by {
                    assert(s.take(k)[j] == s[j]);
                }
            } else if k > 0 {
                assert(components(s)[i] == rest[i - 1]);
            } else {
                assert(components(s)[i] == rest[i]);
            }
        }
    }
}

/// The first separator lies within the string, and nothing before it is one.
pub proof fn lemma_first_separator_bounds(s: Seq<char>)
    ensures
        0 <= first_separator(s) <= s.len(),
        forall|i: int| 0 <= i < first_separator(s) ==> s[i] != separator(),
        first_separator(s) < s.len() ==> s[first_separator(s)] == separator(),
    decreases s.len(),
{
    if !(s.len() == 0 || s[0] == separator()) {
        let t = s.drop_first();
        lemma_first_separator_bounds(t);
        assert forall|i: int| 0 <= i < first_separator(s) implies s[i] != separator() by {
            if i > 0 {
                assert(t[i - 1] == s[i]);
            }
        }
    }
}

/// Cutting the joined form of tag names gives the names back.
pub proof fn lemma_components_of_joined(parts: Seq<Seq<char>>)
    requires
        forall|i: int| 0 <= i < parts.len() ==> is_tag_name(#[trigger] parts[i]),
    ensures
        components(joined(parts, seq![separator()])) == parts,
    decreases parts.len(),
{
    let sep = seq![separator()];
    let s = joined(parts, sep);
    if parts.len() > 0 {
        let p = parts[0];
        if parts.len() == 1 {
            lemma_first_separator(s, s.len() as int);
            assert(s.take(s.len() as int) =~= p);
        } else {
            let rest = parts.drop_first();
            lemma_components_of_joined(rest);
            let k = p.len() as int;
            lemma_first_separator(s, k);
            assert(s.take(k) =~= p);
            assert(s.skip(k + 1) =~= joined(rest, sep));
        }
    }
}

/// The members of a set of names in ascending order.
pub open spec fn canonical(tags: Set<Seq<char>>) -> Seq<Seq<char>> {
    choose|names: Seq<Seq<char>>| strictly_ascending(names) && names.to_set() == tags
}

/// A tag set stores its members as the canonical order of its view.
pub proof fn lemma_names_are_canonical(tags: TagSet)
    requires
        tags.wf(),
    ensures
        tags.names() == canonical(tags@),
{
    let names = tags.names();
    lemma_ascending_unique(names, canonical(tags@));
}

/// Tag sets with the same members are joined to the same string, in
/// whatever order their members were put in.
pub proof fn lemma_joined_ignores_order(a: TagSet, b: TagSet)
    requires
        a.wf(),
        b.wf(),
        a@ == b@,
    ensures
        joined(a.names(), seq![separator()]) == joined(b.names(), seq![separator()]),
        joined(a.names(), seq![separator()]) == joined(canonical(a@), seq![separator()]),
{
    lemma_canonical_order(a, b);
    lemma_names_are_canonical(a);
}

/// What an entry is, apart from how it is stored.
pub ghost enum EntryView {
    /// The backing file of this name.
    File(Seq<char>),
    /// The directory of the files that carry all of these tags.
    Tags(Set<Seq<char>>),
}

/// The discriminant and the data string under which an entry is stored.
pub open spec fn persisted(entry: EntryView) -> (Seq<char>, Seq<char>) {
    match entry {
        EntryView::File(name) => (file_discriminant(), name),
        EntryView::Tags(tags) => (tags_discriminant(), joined(canonical(tags), seq![separator()])),
    }
}

/// The entry that a stored discriminant and data string stand for, if the
/// discriminant is a known one.
pub open spec fn parsed(discriminant: Seq<char>, data: Seq<char>) -> Option<EntryView> {
    if discriminant == tags_discriminant() {
        Some(EntryView::Tags(components(data).to_set()))
    } else if discriminant == file_discriminant() {
        Some(EntryView::File(data))
    } else {
        None
    }
}

/// An entry of the file system.
#[derive(Debug, PartialEq, Eq, Hash)]
pub enum Entry {
    /// A backing file, by its name.
    File(String),
    /// A directory, by its tags.  The empty set is the root.
    Tags(TagSet),
}

impl View for Entry {
    type V = EntryView;

    open spec fn view(&self) -> EntryView {
        match self {
            Entry::File(name) => EntryView::File(name@),
            Entry::Tags(tags) => EntryView::Tags(tags@),
        }
    }
}

/// No name stands below one before it.
pub open spec fn ascending(s: Seq<Seq<char>>) -> bool {
    forall|i: int, j: int| 0 <= i < j < s.len() ==> !lex_less(#[trigger] s[j], #[trigger] s[i])
}

/// Sorting leaves a strictly ascending list as it is: a list in ascending
/// order that holds the same names as often is the same list.
pub proof fn lemma_sorted_is_same(names: Seq<Seq<char>>, sorted: Seq<Seq<char>>)
    requires
        strictly_ascending(names),
        ascending(sorted),
        sorted.to_multiset() == names.to_multiset(),
    ensures
        sorted == names,
{
    lemma_ascending_no_duplicates(names);
    names.lemma_multiset_has_no_duplicates();
    sorted.lemma_multiset_has_no_duplicates_conv();
    assert forall|i: int, j: int| 0 <= i < j < sorted.len() implies lex_less(
        #[trigger] sorted[i],
        #[trigger] sorted[j],
    ) by {
        lemma_lex_total(sorted[i], sorted[j]);
    }
    assert forall|x: Seq<char>| sorted.to_set().contains(x) == names.to_set().contains(x) by {
        vstd::seq_lib::to_multiset_contains(sorted, x);
        vstd::seq_lib::to_multiset_contains(names, x);
    }
    assert(sorted.to_set() =~= names.to_set());
    lemma_ascending_unique(sorted, names);
}

/// `itertools`' `sorted` on the strings of a vector.  It collects the
/// elements and sorts them with `sort`: the result holds the same strings,
/// each as often as before, in ascending order.  The contract takes the
/// order of strings to be that of their code points, as `std` documents it.
#[verifier::external_body]
fn sorted_names(names: &Vec<String>) -> (out: Vec<String>)
    ensures
        ascending(names_of(out@)),
        names_of(out@).to_multiset() == names_of(names@).to_multiset(),
{
    names.iter().cloned().sorted().collect()
}

/// `itertools`' `join` on the strings of a vector.  It writes the first
/// element, then the separator and the next element for each one that
/// follows, and gives the empty string for no element.  The contract states
/// this of strings, which are written as they are.
#[verifier::external_body]
fn join_names(names: &Vec<String>, sep: &str) -> (out: String)
    ensures
        out@ == joined(names_of(names@), sep@),
{
    names.iter().join(sep)
}

/// Cuts `data` at its separators and collects the pieces that are not empty.
pub fn split_tags(data: &str) -> (tags: TagSet)
    ensures
        tags.wf(),
        tags.all_valid(),
        tags@ == components(data@).to_set(),
{
    let n: usize = data.unicode_len();
    let mut tags = TagSet::new();
    let mut start: usize = 0;
    let mut i: usize = 0;
    let ghost mut done: Seq<Seq<char>> = Seq::empty();
    proof {
        assert(data@.skip(0) =~= data@);
    }
    while i < n
        invariant
            n == data@.len(),
            start <= i <= n,
            tags.wf(),
            tags.all_valid(),
            tags@ == done.to_set(),
            components(data@) == done + components(data@.skip(start as int)),
            forall|k: int| start <= k < i ==> data@[k] != separator(),
        decreases n - i,
    {
        if data.get_char(i) == '/' {
            let ghost tail = data@.skip(start as int);
            proof {
                lemma_first_separator(tail, i - start);
                assert(tail.skip(i - start + 1) =~= data@.skip(i + 1));
                assert(tail.take(i - start) =~= data@.subrange(start as int, i as int));
            }
            if i > start {
                let piece: String = data.substring_char(start, i).to_owned();
                proof {
                    assert(done.push(piece@).to_set() =~= done.to_set().insert(piece@)) by {
                        done.lemma_push_to_set_commute(piece@);
                    }
                    done = done.push(piece@);
                }
                tags.insert(piece);
            }
            start = i + 1;
        }
        i += 1;
    }
    let ghost tail = data@.skip(start as int);
    proof {
        lemma_first_separator(tail, n - start);
        assert(tail.take(n - start) =~= data@.subrange(start as int, n as int));
    }
    if n > start {
        let piece: String = data.substring_char(start, n).to_owned();
        proof {
            assert(components(data@) =~= done.push(piece@));
            done.lemma_push_to_set_commute(piece@);
        }
        tags.insert(piece);
    }
    tags
}

impl Entry {
    /// The tag set of a directory is in canonical order.
    pub open spec fn wf(&self) -> bool {
        match self {
            Entry::File(_) => true,
            Entry::Tags(tags) => tags.wf(),
        }
    }

    /// The entry can be stored and read back: the tags of a directory are
    /// usable tag names.
    pub open spec fn valid(&self) -> bool {
        match self {
            Entry::File(_) => true,
            Entry::Tags(tags) => tags.wf() && tags.all_valid(),
        }
    }

    /// A copy of the entry.
    pub fn clone(&self) -> (c: Entry)
        ensures
            c@ == self@,
            c.wf() == self.wf(),
            c.valid() == self.valid(),
    {
        match self {
            Entry::File(name) => Entry::File(name.clone()),
            Entry::Tags(tags) => Entry::Tags(tags.clone()),
        }
    }

    /// The kind of directory entry that the entry is shown as.
    pub fn file_type(&self) -> (kind: FileType)
        ensures
            kind == (match self@ {
                EntryView::File(_) => FileType::RegularFile,
                EntryView::Tags(_) => FileType::Directory,
            }),
    {
        match self {
            Entry::File(_) => FileType::RegularFile,
            Entry::Tags(_) => FileType::Directory,
        }
    }

    /// The discriminant and the data string under which the entry is stored.
    /// Both depend on what the entry is alone, not on how its tags came
    /// together.
    pub fn discrimimant_data(&self) -> (row: (&'static str, String))
        requires
            self.wf(),
        ensures
            (row.0@, row.1@) == persisted(self@),
    {
        match self {
            Entry::File(name) => ("file", name.clone()),
            Entry::Tags(tags) => {
                let names = sorted_names(&tags.to_vec());
                proof {
                    reveal_strlit("/");
                    assert("/"@ =~= seq![separator()]);
                    lemma_sorted_is_same(tags.names(), names_of(names@));
                    lemma_names_are_canonical(*tags);
                }
                ("tags", join_names(&names, "/"))
            },
        }
    }

    /// Reads an entry back from its stored form.  A data string of tags is
    /// cut at the separators, and empty pieces are dropped.
    pub fn parse(discriminant: &str, data: &str) -> (r: Result<Entry, Error>)
        ensures
            match parsed(discriminant@, data@) {
                Some(entry) => r is Ok && r->Ok_0@ == entry && r->Ok_0.valid(),
                None => r == Err::<Entry, Error>(Error::InvalidEntryDiscriminant),
            },
    {
        let given: String = discriminant.to_owned();
        let tags: String = "tags".to_owned();
        let file: String = "file".to_owned();
        if given == tags {
            Ok(Entry::Tags(split_tags(data)))
        } else if given == file {
            Ok(Entry::File(data.to_owned()))
        } else {
            Err(Error::InvalidEntryDiscriminant)
        }
    }
}

/// The two discriminants differ.
pub proof fn lemma_discriminants_differ()
    ensures
        tags_discriminant() != file_discriminant(),
{
    reveal_strlit("tags");
    reveal_strlit("file");
    assert("tags"@[0] != "file"@[0]);
}

/// An entry that is stored and read back is the same entry.
pub proof fn lemma_parse_persisted(entry: Entry)
    requires
        entry.valid(),
    ensures
        parsed(persisted(entry@).0, persisted(entry@).1) == Some(entry@),
{
    lemma_discriminants_differ();
    match entry {
        Entry::File(_) => {},
        Entry::Tags(tags) => {
            lemma_names_are_canonical(tags);
            lemma_components_of_joined(tags.names());
        },
    }
}

/// The stored form tells entries apart: two valid entries with the same
/// stored form are the same entry.
pub proof fn lemma_persisted_injective(a: Entry, b: Entry)
    requires
        a.valid(),
        b.valid(),
        persisted(a@) == persisted(b@),
    ensures
        a@ == b@,
{
    lemma_parse_persisted(a);
    lemma_parse_persisted(b);
}

} // verus!
