//! Tag names and canonically ordered sets of tags.
//!
//! A tag set is the identity of a virtual directory.  It is kept in strictly
//! ascending order of its names, so that two sets with the same members are
//! stored, and therefore persisted, in exactly the same way.

use vstd::prelude::*;

verus! {

/// The character that separates tag names in the persisted form of a tag set.
pub open spec fn separator() -> char {
    '/'
}

/// A usable tag name: not empty, and free of the separator.
pub open spec fn is_tag_name(s: Seq<char>) -> bool {
    s.len() > 0 && forall|i: int| 0 <= i < s.len() ==> s[i] != separator()
}

/// Lexicographic order of two strings by the code points of their characters.
pub open spec fn lex_less(a: Seq<char>, b: Seq<char>) -> bool
    decreases a.len(),
{
    if b.len() == 0 {
        false
    } else if a.len() == 0 {
        true
    } else if a[0] != b[0] {
        (a[0] as int) < (b[0] as int)
    } else {
        lex_less(a.drop_first(), b.drop_first())
    }
}

/// No string is below itself.
pub proof fn lemma_lex_irreflexive(a: Seq<char>)
    ensures
        !lex_less(a, a),
    decreases a.len(),
{
    if a.len() > 0 {
        lemma_lex_irreflexive(a.drop_first());
    }
}

/// The order is transitive.
pub proof fn lemma_lex_transitive(a: Seq<char>, b: Seq<char>, c: Seq<char>)
    requires
        lex_less(a, b),
        lex_less(b, c),
    ensures
        lex_less(a, c),
    decreases a.len(),
{
    if a.len() > 0 && a[0] == b[0] && b[0] == c[0] {
        lemma_lex_transitive(a.drop_first(), b.drop_first(), c.drop_first());
    }
}

/// Any two strings are equal or ordered one way round.
pub proof fn lemma_lex_total(a: Seq<char>, b: Seq<char>)
    ensures
        lex_less(a, b) || a == b || lex_less(b, a),
    decreases a.len(),
{
    if a.len() == 0 || b.len() == 0 {
    } else if a[0] == b[0] {
        lemma_lex_total(a.drop_first(), b.drop_first());
        if a.drop_first() == b.drop_first() {
            assert(a =~= seq![a[0]] + a.drop_first());
        }
    }
}

/// No two strings are below each other.
pub proof fn lemma_lex_asymmetric(a: Seq<char>, b: Seq<char>)
    requires
        lex_less(a, b),
    ensures
        !lex_less(b, a),
{
    if lex_less(b, a) {
        lemma_lex_transitive(a, b, a);
        lemma_lex_irreflexive(a);
    }
}

/// Every name stands below all the names after it.
pub open spec fn strictly_ascending(s: Seq<Seq<char>>) -> bool {
    forall|i: int, j: int| 0 <= i < j < s.len() ==> lex_less(#[trigger] s[i], #[trigger] s[j])
}

/// A strictly ascending sequence holds no name twice.
pub proof fn lemma_ascending_no_duplicates(s: Seq<Seq<char>>)
    requires
        strictly_ascending(s),
    ensures
        s.no_duplicates(),
{
    assert forall|i: int, j: int| 0 <= i < s.len() && 0 <= j < s.len() && i != j implies s[i]
        != s[j] by {
        lemma_lex_irreflexive(s[i]);
    }
}

/// The canonical order is unique: two strictly ascending sequences with the
/// same members are the same sequence.
pub proof fn lemma_ascending_unique(a: Seq<Seq<char>>, b: Seq<Seq<char>>)
    requires
        strictly_ascending(a),
        strictly_ascending(b),
        a.to_set() == b.to_set(),
    ensures
        a == b,
    decreases a.len(),
{
    if a.len() == 0 {
        if b.len() > 0 {
            assert(b.to_set().contains(b[0]));
        }
    } else if b.len() == 0 {
        assert(a.to_set().contains(a[0]));
    } else {
        // The two heads are the least members of the same set.
        assert(b.to_set().contains(a[0]));
        let j = choose|j: int| 0 <= j < b.len() && b[j] == a[0];
        assert(a.to_set().contains(b[0]));
        let i = choose|i: int| 0 <= i < a.len() && a[i] == b[0];
        if i > 0 && j > 0 {
            lemma_lex_asymmetric(a[0], b[0]);
        }
        let ta = a.drop_first();
        let tb = b.drop_first();
        lemma_ascending_no_duplicates(a);
        lemma_ascending_no_duplicates(b);
        assert forall|x: Seq<char>| ta.to_set().contains(x) == tb.to_set().contains(x) by {
            if ta.contains(x) {
                assert(b.to_set().contains(x));
                let m = choose|m: int| 0 <= m < b.len() && b[m] == x;
                assert(tb[m - 1] == x);
            }
            if tb.contains(x) {
                assert(a.to_set().contains(x));
                let m = choose|m: int| 0 <= m < a.len() && a[m] == x;
                assert(ta[m - 1] == x);
            }
        }
        assert(ta.to_set() =~= tb.to_set());
        lemma_ascending_unique(ta, tb);
        assert(a =~= seq![a[0]] + ta);
    }
}

/// `std`'s `<` on `str`.  Its documentation orders strings lexicographically
/// by their bytes and notes that this is the order of their code points; the
/// contract states that order over the characters.
#[verifier::external_body]
fn str_less(a: &str, b: &str) -> (r: bool)
    ensures
        r == lex_less(a@, b@),
{
    a < b
}

/// The names that a vector of strings holds, in its order.
pub open spec fn names_of(v: Seq<String>) -> Seq<Seq<char>> {
    v.map_values(|s: String| s@)
}

/// Tells whether `name` is a usable tag name.
pub fn is_valid_tag(name: &str) -> (r: bool)
    ensures
        r == is_tag_name(name@),
{
    let n: usize = name.unicode_len();
    let mut i: usize = 0;
    while i < n
        invariant
            n == name@.len(),
            i <= n,
            forall|k: int| 0 <= k < i ==> name@[k] != separator(),
        decreases n - i,
    {
        if name.get_char(i) == '/' {
            return false;
        }
        i += 1;
    }
    n > 0
}

/// A set of tag names, held in strictly ascending order.
#[derive(Debug, PartialEq, Eq, Hash)]
pub struct TagSet {
    tags: Vec<String>,
}

impl View for TagSet {
    type V = Set<Seq<char>>;

    /// The members of the set.
    open spec fn view(&self) -> Set<Seq<char>> {
        self.names().to_set()
    }
}

impl TagSet {
    /// The members in the order in which they are stored.
    pub closed spec fn names(&self) -> Seq<Seq<char>> {
        names_of(self.tags@)
    }

    /// The stored order is the canonical one.
    pub open spec fn wf(&self) -> bool {
        strictly_ascending(self.names())
    }

    /// Every member is a usable tag name.
    pub open spec fn all_valid(&self) -> bool {
        forall|i: int| 0 <= i < self.names().len() ==> is_tag_name(#[trigger] self.names()[i])
    }

    /// The empty set, which stands for the root directory.
    pub fn new() -> (s: TagSet)
        ensures
            s.wf(),
            s.names() == Seq::<Seq<char>>::empty(),
            s@ == Set::<Seq<char>>::empty(),
    {
        TagSet { tags: Vec::new() }
    }

    /// The set of this one tag.
    pub fn singleton(tag: String) -> (s: TagSet)
        ensures
            s.wf(),
            s.names() == seq![tag@],
            s@ == set![tag@],
            is_tag_name(tag@) ==> s.all_valid(),
    {
        let mut tags: Vec<String> = Vec::new();
        tags.push(tag);
        let s = TagSet { tags };
        assert(s.names() =~= seq![tag@]);
        assert(s@ =~= set![tag@]) by {
            assert(s.names()[0] == tag@);
        }
        s
    }

    /// The number of members.
    pub fn len(&self) -> (n: usize)
        ensures
            n == self.names().len(),
    {
        self.tags.len()
    }

    /// Tells whether the set has no member.
    pub fn is_empty(&self) -> (r: bool)
        ensures
            r == (self.names().len() == 0),
            r == (self@ == Set::<Seq<char>>::empty()),
    {
        proof {
            if self.names().len() > 0 {
                assert(self@.contains(self.names()[0]));
            } else {
                assert(self@ =~= Set::<Seq<char>>::empty());
            }
        }
        self.tags.len() == 0
    }

    /// The member at place `i` of the canonical order.
    pub fn get(&self, i: usize) -> (tag: &String)
        requires
            i < self.names().len(),
        ensures
            tag@ == self.names()[i as int],
    {
        &self.tags[i]
    }

    /// Tells whether `tag` is a member.
    pub fn contains(&self, tag: &str) -> (r: bool)
        ensures
            r == self@.contains(tag@),
    {
        let wanted: String = tag.to_owned();
        let mut i: usize = 0;
        while i < self.tags.len()
            invariant
                i <= self.tags.len(),
                wanted@ == tag@,
                forall|k: int| 0 <= k < i ==> self.names()[k] != tag@,
            decreases self.tags.len() - i,
        {
            if self.tags[i] == wanted {
                assert(self.names()[i as int] == tag@);
                return true;
            }
            i += 1;
        }
        false
    }

    /// Adds `tag`, keeping the canonical order.  Returns whether it was new.
    pub fn insert(&mut self, tag: String) -> (added: bool)
        requires
            old(self).wf(),
        ensures
            final(self).wf(),
            final(self)@ == old(self)@.insert(tag@),
            added == !old(self)@.contains(tag@),
            old(self).all_valid() && is_tag_name(tag@) ==> final(self).all_valid(),
    {
        let ghost before = self.names();
        let mut i: usize = 0;
        while i < self.tags.len() && str_less(self.tags[i].as_str(), tag.as_str())
            invariant
                i <= self.tags.len(),
                self.names() == before,
                forall|k: int| 0 <= k < i ==> lex_less(before[k], tag@),
            decreases self.tags.len() - i,
        {
            i += 1;
        }
        if i < self.tags.len() && self.tags[i] == tag {
            assert(before[i as int] == tag@);
            return false;
        }
        proof {
            // Everything from place `i` on is above the new name.
            assert forall|k: int| i <= k < before.len() implies lex_less(tag@, before[k]) by {
                lemma_lex_total(before[i as int], tag@);
                if k > i {
                    lemma_lex_transitive(tag@, before[i as int], before[k]);
                }
            }
            assert forall|k: int| 0 <= k < before.len() implies before[k] != tag@ by {
                lemma_lex_irreflexive(tag@);
            }
        }
        self.tags.insert(i, tag);
        proof {
            let after = self.names();
            assert(after =~= before.insert(i as int, tag@));
            assert forall|x: Seq<char>| after.to_set().contains(x) == old(self)@.insert(
                tag@,
            ).contains(x) by {
                if before.contains(x) {
                    let k = choose|k: int| 0 <= k < before.len() && before[k] == x;
                    if k < i {
                        assert(after[k] == x);
                    } else {
                        assert(after[k + 1] == x);
                    }
                }
                if x == tag@ {
                    assert(after[i as int] == x);
                }
            }
        }
        true
    }

    /// Tells whether every member of `self` is a member of `other`.
    pub fn is_subset(&self, other: &TagSet) -> (r: bool)
        ensures
            r == self@.subset_of(other@),
    {
        let mut i: usize = 0;
        while i < self.tags.len()
            invariant
                i <= self.tags.len(),
                forall|k: int| 0 <= k < i ==> other@.contains(self.names()[k]),
            decreases self.tags.len() - i,
        {
            if !other.contains(self.tags[i].as_str()) {
                assert(self.names().contains(self.names()[i as int]));
                return false;
            }
            i += 1;
        }
        true
    }

    /// The members of `self` that `other` lacks, in canonical order.
    pub fn difference(&self, other: &TagSet) -> (d: TagSet)
        requires
            self.wf(),
        ensures
            d.wf(),
            d@ == self@.difference(other@),
            self.all_valid() ==> d.all_valid(),
    {
        let mut d = TagSet::new();
        let mut i: usize = 0;
        while i < self.tags.len()
            invariant
                i <= self.tags.len(),
                self.wf(),
                d.wf(),
                forall|x: Seq<char>|
                    d@.contains(x) <==> (exists|k: int|
                        0 <= k < i && self.names()[k] == x && !other@.contains(x)),
                self.all_valid() ==> d.all_valid(),
            decreases self.tags.len() - i,
        {
            assert(self.names()[i as int] == self.tags@[i as int]@);
            if !other.contains(self.tags[i].as_str()) {
                d.insert(self.tags[i].clone());
            }
            i += 1;
        }
        d
    }

    /// A copy of the set.
    pub fn clone(&self) -> (c: TagSet)
        ensures
            c.names() == self.names(),
            c@ == self@,
            c.wf() == self.wf(),
    {
        let mut tags: Vec<String> = Vec::new();
        let mut i: usize = 0;
        while i < self.tags.len()
            invariant
                i <= self.tags.len(),
                tags@.len() == i,
                names_of(tags@) == self.names().take(i as int),
            decreases self.tags.len() - i,
        {
            tags.push(self.tags[i].clone());
            i += 1;
        }
        assert(self.names().take(i as int) =~= self.names());
        TagSet { tags }
    }

    /// The members as owned strings, in canonical order.
    pub fn to_vec(&self) -> (v: Vec<String>)
        ensures
            names_of(v@) == self.names(),
    {
        self.clone().tags
    }
}

/// Sets with the same members are stored in the same order.
pub proof fn lemma_canonical_order(a: TagSet, b: TagSet)
    requires
        a.wf(),
        b.wf(),
        a@ == b@,
    ensures
        a.names() == b.names(),
{
    lemma_ascending_unique(a.names(), b.names());
}

} // verus!
