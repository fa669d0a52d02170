//! Directory listings: entries in ascending name order.
use vstd::prelude::*;
use crate::structs::DirectoryEntry;

verus! {

/// A listing entry with its texts as characters.
pub struct DirectoryEntryView {
    pub name: Seq<char>,
    pub path: Seq<char>,
    pub is_file: bool,
    pub is_dir: bool,
    pub size: u64,
}

impl View for DirectoryEntry {
    type V = DirectoryEntryView;

    open spec fn view(&self) -> DirectoryEntryView {
        DirectoryEntryView {
            name: self.name@,
            path: self.path@,
            is_file: self.is_file,
            is_dir: self.is_dir,
            size: self.size,
        }
    }
}

/// The views of a sequence of listing entries.
pub open spec fn entry_views(s: Seq<DirectoryEntry>) -> Seq<DirectoryEntryView> {
    s.map_values(|e: DirectoryEntry| e@)
}

/// `a[i..]` sorts strictly before `b[i..]`, comparing characters by code point
/// and a proper prefix before the longer sequence.
pub open spec fn lt_from(a: Seq<char>, b: Seq<char>, i: int) -> bool
    decreases a.len() - i,
{
    if i < 0 || i >= a.len() {
        0 <= i < b.len()
    } else if i >= b.len() {
        false
    } else if a[i] != b[i] {
        a[i] < b[i]
    } else {
        lt_from(a, b, i + 1)
    }
}

/// Strict lexicographic order on names: the order of `String`'s `Ord`, since
/// UTF-8 keeps code-point order.
pub open spec fn name_lt(a: Seq<char>, b: Seq<char>) -> bool {
    lt_from(a, b, 0)
}

proof fn lemma_lt_irreflexive(a: Seq<char>, i: int)
    requires
        0 <= i,
    ensures
        !lt_from(a, a, i),
    decreases a.len() - i,
{
    if i < a.len() {
        lemma_lt_irreflexive(a, i + 1);
    }
}

proof fn lemma_lt_transitive(a: Seq<char>, b: Seq<char>, c: Seq<char>, i: int)
    requires
        0 <= i,
        lt_from(a, b, i),
        lt_from(b, c, i),
    ensures
        lt_from(a, c, i),
    decreases a.len() - i,
{
    if i < a.len() && i < b.len() && i < c.len() && a[i] == b[i] && b[i] == c[i] {
        lemma_lt_transitive(a, b, c, i + 1);
    }
}

/// Whether `a` sorts strictly before `b`.
pub fn chars_lt(a: &[char], b: &[char]) -> (r: bool)
    ensures
        r == name_lt(a@, b@),
{
    let mut i: usize = 0;
    while i < a.len() && i < b.len()
        invariant
            i <= a@.len(),
            i <= b@.len(),
            name_lt(a@, b@) == lt_from(a@, b@, i as int),
        decreases a@.len() - i,
    {
        if a[i] != b[i] {
            return a[i] < b[i];
        }
        i = i + 1;
    }
    i < b.len() && i >= a.len()
}

/// Entries are in ascending name order: no entry sorts before an earlier one.
pub open spec fn sorted_by_name(s: Seq<DirectoryEntryView>) -> bool {
    forall|i: int, j: int| 0 <= i < j < s.len() ==> !name_lt(#[trigger] s[j].name, #[trigger] s[i].name)
}

/// Where `e` goes among `s[j..]`: before the first entry whose name sorts
/// after its own, so that equal names keep their order.
pub open spec fn insert_pos(s: Seq<DirectoryEntryView>, e: DirectoryEntryView, j: int) -> int
    decreases s.len() - j,
{
    if j < 0 || j >= s.len() {
        s.len() as int
    } else if name_lt(e.name, s[j].name) {
        j
    } else {
        insert_pos(s, e, j + 1)
    }
}

/// `s` with `e` inserted in name order.
pub open spec fn insert_sorted(s: Seq<DirectoryEntryView>, e: DirectoryEntryView) -> Seq<DirectoryEntryView> {
    s.insert(insert_pos(s, e, 0), e)
}

/// A stable insertion sort by name.
pub open spec fn sort_by_name(s: Seq<DirectoryEntryView>) -> Seq<DirectoryEntryView>
    decreases s.len(),
{
    if s.len() == 0 {
        s
    } else {
        insert_sorted(sort_by_name(s.drop_last()), s.last())
    }
}

proof fn lemma_insert_pos(s: Seq<DirectoryEntryView>, e: DirectoryEntryView, j: int)
    requires
        0 <= j <= s.len(),
    ensures
        j <= insert_pos(s, e, j) <= s.len(),
        forall|k: int| j <= k < insert_pos(s, e, j) ==> !name_lt(e.name, #[trigger] s[k].name),
        insert_pos(s, e, j) < s.len() ==> name_lt(e.name, s[insert_pos(s, e, j)].name),
    decreases s.len() - j,
{
    if j < s.len() && !name_lt(e.name, s[j].name) {
        lemma_insert_pos(s, e, j + 1);
    }
}

proof fn lemma_insert_sorted(s: Seq<DirectoryEntryView>, e: DirectoryEntryView)
    requires
        sorted_by_name(s),
    ensures
        sorted_by_name(insert_sorted(s, e)),
{
    lemma_insert_pos(s, e, 0);
    let k = insert_pos(s, e, 0);
    let r = insert_sorted(s, e);
    assert forall|i: int, j: int| 0 <= i < j < r.len() implies !name_lt(#[trigger] r[j].name, #[trigger] r[i].name) by {
        if j < k {
            assert(r[i] == s[i] && r[j] == s[j]);
        } else if j == k {
            assert(r[i] == s[i]);
        } else if i == k {
            let sj = s[j - 1];
            assert(r[j] == sj);
            assert(name_lt(e.name, s[k].name));
            if name_lt(sj.name, e.name) {
                lemma_lt_transitive(sj.name, e.name, s[k].name, 0);
                if j - 1 == k {
                    lemma_lt_irreflexive(sj.name, 0);
                } else {
                    assert(!name_lt(s[j - 1].name, s[k].name));
                }
            }
        } else if i < k {
            assert(r[i] == s[i] && r[j] == s[j - 1]);
        } else {
            assert(r[i] == s[i - 1] && r[j] == s[j - 1]);
        }
    }
}

/// Sorting by name leaves every entry after none that sorts after it.
pub proof fn lemma_sort_sorted(s: Seq<DirectoryEntryView>)
    ensures
        sorted_by_name(sort_by_name(s)),
    decreases s.len(),
{
    if s.len() > 0 {
        lemma_sort_sorted(s.drop_last());
        lemma_insert_sorted(sort_by_name(s.drop_last()), s.last());
    }
}

/// A copy of an entry, field by field.
pub fn copy_entry(e: &DirectoryEntry) -> (r: DirectoryEntry)
    ensures
        r@ == e@,
{
    DirectoryEntry {
        name: e.name.clone(),
        path: e.path.clone(),
        is_file: e.is_file,
        is_dir: e.is_dir,
        size: e.size,
    }
}

/// Sorts entries by name, keeping the order of equal names.
pub fn sort_entries(entries: Vec<DirectoryEntry>) -> (r: Vec<DirectoryEntry>)
    ensures
        entry_views(r@) == sort_by_name(entry_views(entries@)),
{
    let mut sorted: Vec<DirectoryEntry> = Vec::new();
    let mut keys: Vec<Vec<char>> = Vec::new();
    let mut i: usize = 0;
    assert(entry_views(entries@).subrange(0, 0) =~= Seq::<DirectoryEntryView>::empty());
    while i < entries.len()
        invariant
            i <= entries@.len(),
            keys@.len() == sorted@.len(),
            forall|k: int| 0 <= k < keys@.len() ==> #[trigger] keys@[k]@ == sorted@[k].name@,
            entry_views(sorted@) == sort_by_name(entry_views(entries@).subrange(0, i as int)),
        decreases entries@.len() - i,
    {
        let e = copy_entry(&entries[i]);
        let key = chars_of_name(&e);
        let ghost s = entry_views(sorted@);
        let mut k: usize = 0;
        while k < sorted.len()
            invariant
                k <= sorted@.len(),
                keys@.len() == sorted@.len(),
                forall|m: int| 0 <= m < keys@.len() ==> #[trigger] keys@[m]@ == sorted@[m].name@,
                s == entry_views(sorted@),
                key@ == e@.name,
                insert_pos(s, e@, 0) == insert_pos(s, e@, k as int),
            ensures
                k <= sorted@.len(),
                insert_pos(s, e@, 0) == k,
            decreases sorted@.len() - k,
        {
            if chars_lt(key.as_slice(), keys[k].as_slice()) {
                break;
            }
            k = k + 1;
        }
        assert(insert_pos(s, e@, 0) == k);
        sorted.insert(k, e);
        keys.insert(k, key);
        proof {
            let prefix = entry_views(entries@).subrange(0, i as int);
            let next = entry_views(entries@).subrange(0, i + 1);
            assert(next.drop_last() =~= prefix);
            assert(next.last() == entries@[i as int]@);
            assert(entry_views(sorted@) =~= s.insert(k as int, e@));
            assert forall|m: int| 0 <= m < keys@.len() implies #[trigger] keys@[m]@ == sorted@[m].name@ by {
                if m < k {
                } else if m == k {
                } else {
                }
            }
        }
        i = i + 1;
    }
    assert(entry_views(entries@).subrange(0, entries@.len() as int) =~= entry_views(entries@));
    sorted
}

/// The characters of an entry's name.
fn chars_of_name(e: &DirectoryEntry) -> (r: Vec<char>)
    ensures
        r@ == e.name@,
{
    crate::path::chars_of(e.name.as_str())
}

} // verus!

verus! {

/// The entries of `sort_by_name(s)` are entries of `s`, and as many.
pub proof fn lemma_sort_members(s: Seq<DirectoryEntryView>)
    ensures
        sort_by_name(s).len() == s.len(),
        forall|i: int| 0 <= i < sort_by_name(s).len() ==> s.contains(#[trigger] sort_by_name(s)[i]),
    decreases s.len(),
{
    if s.len() > 0 {
        let t = s.drop_last();
        lemma_sort_members(t);
        lemma_insert_pos(sort_by_name(t), s.last(), 0);
        let k = insert_pos(sort_by_name(t), s.last(), 0);
        let r = sort_by_name(s);
        assert forall|i: int| 0 <= i < r.len() implies s.contains(#[trigger] r[i]) by {
            if i < k {
                assert(t.contains(sort_by_name(t)[i]));
                let j = choose|j: int| 0 <= j < t.len() && t[j] == sort_by_name(t)[i];
                assert(s[j] == r[i]);
            } else if i == k {
                assert(s[s.len() - 1] == r[i]);
            } else {
                assert(t.contains(sort_by_name(t)[i - 1]));
                let j = choose|j: int| 0 <= j < t.len() && t[j] == sort_by_name(t)[i - 1];
                assert(s[j] == r[i]);
            }
        }
    }
}

/// A listing, read front to back.
pub struct DirectoryIterator {
    entries: Vec<DirectoryEntry>,
    index: usize,
}

/// The ghost picture of a listing: its entries and how many were handed out.
pub struct DirectoryIteratorView {
    pub entries: Seq<DirectoryEntryView>,
    pub index: int,
}

impl View for DirectoryIterator {
    type V = DirectoryIteratorView;

    closed spec fn view(&self) -> DirectoryIteratorView {
        DirectoryIteratorView { entries: entry_views(self.entries@), index: self.index as int }
    }
}

impl DirectoryIterator {
    #[verifier::type_invariant]
    spec fn inv(&self) -> bool {
        self.index <= self.entries@.len()
    }

    /// A listing of `entries`, positioned at the first.
    pub fn new(entries: Vec<DirectoryEntry>) -> (r: Self)
        ensures
            r@.entries == entry_views(entries@),
            r@.index == 0,
    {
        DirectoryIterator { entries, index: 0 }
    }

    /// The next entry, if any is left.
    pub fn next(&mut self) -> (r: Option<DirectoryEntry>)
        ensures
            final(self)@.entries == old(self)@.entries,
            old(self)@.index < old(self)@.entries.len() ==> (r matches Some(e) && e@ == old(self)@.entries[old(
                self,
            )@.index] && final(self)@.index == old(self)@.index + 1),
            old(self)@.index >= old(self)@.entries.len() ==> r is None && final(self)@.index == old(self)@.index,
    {
        proof {
            use_type_invariant(&*self);
        }
        if self.index < self.entries.len() {
            let entry = copy_entry(&self.entries[self.index]);
            self.index = self.index + 1;
            Some(entry)
        } else {
            None
        }
    }
}

} // verus!

verus! {

/// Sorting by name only reorders the entries.
pub proof fn lemma_sort_permutes(s: Seq<DirectoryEntryView>)
    ensures
        sort_by_name(s).to_multiset() == s.to_multiset(),
    decreases s.len(),
{
    if s.len() > 0 {
        let t = s.drop_last();
        lemma_sort_permutes(t);
        lemma_insert_pos(sort_by_name(t), s.last(), 0);
        vstd::seq_lib::to_multiset_insert(sort_by_name(t), insert_pos(sort_by_name(t), s.last(), 0), s.last());
        assert(t.push(s.last()) =~= s);
        vstd::seq_lib::to_multiset_build(t, s.last());
    }
}

/// No two entries share a name.
pub open spec fn names_distinct(s: Seq<DirectoryEntryView>) -> bool {
    forall|i: int, j: int| 0 <= i < s.len() && 0 <= j < s.len() && i != j ==> #[trigger] s[i].name != #[trigger] s[j].name
}

/// Entries are in strictly ascending name order.
pub open spec fn strictly_sorted_by_name(s: Seq<DirectoryEntryView>) -> bool {
    forall|i: int, j: int| 0 <= i < j < s.len() ==> name_lt(#[trigger] s[i].name, #[trigger] s[j].name)
}

proof fn lemma_lt_total(a: Seq<char>, b: Seq<char>, i: int)
    requires
        0 <= i,
        i <= a.len(),
        i <= b.len(),
        a.subrange(0, i) == b.subrange(0, i),
        a != b,
    ensures
        lt_from(a, b, i) || lt_from(b, a, i),
    decreases a.len() - i,
{
    if i < a.len() && i < b.len() && a[i] == b[i] {
        assert(a.subrange(0, i + 1) =~= a.subrange(0, i).push(a[i]));
        assert(b.subrange(0, i + 1) =~= b.subrange(0, i).push(b[i]));
        lemma_lt_total(a, b, i + 1);
    } else if i < a.len() && i < b.len() {
        assert(a[i] != b[i]);
    } else if i >= a.len() && i >= b.len() {
        assert(a =~= a.subrange(0, i));
        assert(b =~= b.subrange(0, i));
    }
}

/// With distinct names, sorting by name gives a strictly ascending order.
pub proof fn lemma_sort_strict(s: Seq<DirectoryEntryView>)
    requires
        names_distinct(s),
    ensures
        strictly_sorted_by_name(sort_by_name(s)),
{
    let r = sort_by_name(s);
    lemma_sort_sorted(s);
    lemma_sort_permutes(s);
    assert(s.no_duplicates()) by {
        assert forall|i: int, j: int| 0 <= i < s.len() && 0 <= j < s.len() && i != j implies s[i] != s[j] by {
            assert(s[i].name != s[j].name);
        }
    }
    s.lemma_multiset_has_no_duplicates();
    r.lemma_multiset_has_no_duplicates_conv();
    assert forall|i: int, j: int| 0 <= i < j < r.len() implies name_lt(#[trigger] r[i].name, #[trigger] r[j].name) by {
        vstd::seq_lib::to_multiset_contains(r, r[i]);
        vstd::seq_lib::to_multiset_contains(r, r[j]);
        vstd::seq_lib::to_multiset_contains(s, r[i]);
        vstd::seq_lib::to_multiset_contains(s, r[j]);
        let a = choose|a: int| 0 <= a < s.len() && s[a] == r[i];
        let b = choose|b: int| 0 <= b < s.len() && s[b] == r[j];
        assert(r[i] != r[j]);
        assert(a != b);
        assert(r[i].name != r[j].name);
        assert(!name_lt(r[j].name, r[i].name));
        assert(r[i].name.subrange(0, 0) =~= r[j].name.subrange(0, 0));
        lemma_lt_total(r[i].name, r[j].name, 0);
    }
}

} // verus!
