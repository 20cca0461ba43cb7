//! The metadata index of the vault.
pub mod merkle;
pub mod order;
pub mod store;

use vstd::prelude::*;

verus! {

/// Logical identifier of a file: the lowercase hex form of its envelope's uuid.
pub type FileId = String;

/// Metadata of one encrypted file.
#[derive(Debug, Clone)]
pub struct FileMetadata {
    /// Path shown to the user; it is also bound into the envelope's associated data.
    pub logical_path: String,
    /// Size of the encrypted envelope, in bytes.
    pub encrypted_size: u64,
}

/// An index entry as values: (file id, logical path, encrypted size).
pub type EntryView = (Seq<char>, Seq<char>, u64);

pub open spec fn entry_view(e: (FileId, FileMetadata)) -> EntryView {
    (e.0@, e.1.logical_path@, e.1.encrypted_size)
}

pub open spec fn entries_view(s: Seq<(FileId, FileMetadata)>) -> Seq<EntryView> {
    s.map_values(|e: (FileId, FileMetadata)| entry_view(e))
}

/// A copy of an entry, with the same view.
pub fn copy_entry(e: &(FileId, FileMetadata)) -> (r: (FileId, FileMetadata))
    ensures
        entry_view(r) == entry_view(*e),
{
    (e.0.clone(), FileMetadata { logical_path: e.1.logical_path.clone(), encrypted_size: e.1.encrypted_size })
}

/// The file ids of a sequence of entries.
pub open spec fn ids_of(s: Seq<EntryView>) -> Seq<Seq<char>> {
    s.map_values(|e: EntryView| e.0)
}

/// The entries as a map from file id to (logical path, encrypted size); meant for
/// sequences whose ids are unique.
pub open spec fn map_of(s: Seq<EntryView>) -> Map<Seq<char>, (Seq<char>, u64)> {
    Map::new(
        |k: Seq<char>| exists|i: int| 0 <= i < s.len() && #[trigger] s[i].0 == k,
        |k: Seq<char>| (s[index_of(s, k)].1, s[index_of(s, k)].2),
    )
}

/// A position of the entry with id `k`, when there is one.
pub open spec fn index_of(s: Seq<EntryView>, k: Seq<char>) -> int {
    choose|i: int| 0 <= i < s.len() && #[trigger] s[i].0 == k
}

/// In a sequence with unique ids, the entry at `i` is what the map holds for its id.
pub proof fn lemma_map_of_index(s: Seq<EntryView>, i: int)
    requires
        ids_of(s).no_duplicates(),
        0 <= i < s.len(),
    ensures
        map_of(s).contains_key(s[i].0),
        map_of(s)[s[i].0] == (s[i].1, s[i].2),
{
    let k = s[i].0;
    assert(s[i].0 == k);
    let j = index_of(s, k);
    assert(ids_of(s)[i] == s[i].0);
    assert(ids_of(s)[j] == s[j].0);
    assert(i == j);
    assert(map_of(s)[k] == (s[j].1, s[j].2));
}

/// A map over unique ids has one key per entry.
pub proof fn lemma_map_of_len(s: Seq<EntryView>)
    requires
        ids_of(s).no_duplicates(),
    ensures
        map_of(s).dom().finite(),
        map_of(s).dom().len() == s.len(),
{
    broadcast use vstd::seq_lib::seq_to_set_is_finite;

    assert(map_of(s).dom() =~= ids_of(s).to_set()) by {
        assert forall|k: Seq<char>| map_of(s).dom().contains(k) implies ids_of(s).to_set().contains(k) by {
            let i = choose|i: int| 0 <= i < s.len() && #[trigger] s[i].0 == k;
            assert(ids_of(s)[i] == k);
        }
        assert forall|k: Seq<char>| ids_of(s).to_set().contains(k) implies map_of(s).dom().contains(k) by {
            let i = choose|i: int| 0 <= i < ids_of(s).len() && ids_of(s)[i] == k;
            assert(s[i].0 == k);
        }
    }
    ids_of(s).unique_seq_to_set();
}

/// Replacing the entry at `i` by one with the same id replaces that id's value.
pub proof fn lemma_map_of_update(before: Seq<EntryView>, i: int, e: EntryView)
    requires
        ids_of(before).no_duplicates(),
        0 <= i < before.len(),
        before[i].0 == e.0,
    ensures
        ids_of(before.update(i, e)).no_duplicates(),
        map_of(before.update(i, e)) == map_of(before).insert(e.0, (e.1, e.2)),
{
    let after = before.update(i, e);
    assert(ids_of(after) =~= ids_of(before));
    assert forall|k: Seq<char>| #[trigger] map_of(after).contains_key(k) == map_of(before).insert(
        e.0,
        (e.1, e.2),
    ).contains_key(k) by {
        if k == e.0 {
            assert(after[i].0 == k);
        } else if map_of(before).contains_key(k) {
            let j = choose|j: int| 0 <= j < before.len() && #[trigger] before[j].0 == k;
            assert(after[j].0 == k);
        }
    }
    assert forall|k: Seq<char>| #[trigger] map_of(after).contains_key(k) implies map_of(after)[k]
        == map_of(before).insert(e.0, (e.1, e.2))[k] by {
        let j = choose|j: int| 0 <= j < after.len() && #[trigger] after[j].0 == k;
        lemma_map_of_index(after, j);
        if j != i {
            assert(before[j] == after[j]);
            assert(ids_of(before)[j] != ids_of(before)[i]);
            lemma_map_of_index(before, j);
        }
    }
    assert(map_of(after) =~= map_of(before).insert(e.0, (e.1, e.2)));
}

/// Appending an entry with a new id adds that id.
pub proof fn lemma_map_of_push(before: Seq<EntryView>, e: EntryView)
    requires
        ids_of(before).no_duplicates(),
        forall|j: int| 0 <= j < before.len() ==> (#[trigger] before[j]).0 != e.0,
    ensures
        ids_of(before.push(e)).no_duplicates(),
        map_of(before.push(e)) == map_of(before).insert(e.0, (e.1, e.2)),
{
    let after = before.push(e);
    assert(ids_of(after) =~= ids_of(before).push(e.0));
    assert(!ids_of(before).contains(e.0)) by {
        if ids_of(before).contains(e.0) {
            let j = choose|j: int| 0 <= j < ids_of(before).len() && ids_of(before)[j] == e.0;
            assert(before[j].0 == e.0);
        }
    }
    assert forall|k: Seq<char>| #[trigger] map_of(after).contains_key(k) == map_of(before).insert(
        e.0,
        (e.1, e.2),
    ).contains_key(k) by {
        if k != e.0 && map_of(after).contains_key(k) {
            let j = choose|j: int| 0 <= j < after.len() && #[trigger] after[j].0 == k;
            assert(before[j].0 == k);
        } else if k != e.0 && map_of(before).contains_key(k) {
            let j = choose|j: int| 0 <= j < before.len() && #[trigger] before[j].0 == k;
            assert(after[j].0 == k);
        } else if k == e.0 {
            assert(after[before.len() as int].0 == k);
        }
    }
    assert forall|k: Seq<char>| #[trigger] map_of(after).contains_key(k) implies map_of(after)[k]
        == map_of(before).insert(e.0, (e.1, e.2))[k] by {
        let j = choose|j: int| 0 <= j < after.len() && #[trigger] after[j].0 == k;
        lemma_map_of_index(after, j);
        if j < before.len() {
            assert(before[j] == after[j]);
            lemma_map_of_index(before, j);
        }
    }
    assert(map_of(after) =~= map_of(before).insert(e.0, (e.1, e.2)));
}

/// Removing the entry at `i` removes its id.
pub proof fn lemma_map_of_remove(before: Seq<EntryView>, i: int)
    requires
        ids_of(before).no_duplicates(),
        0 <= i < before.len(),
    ensures
        ids_of(before.remove(i)).no_duplicates(),
        map_of(before.remove(i)) == map_of(before).remove(before[i].0),
{
    let after = before.remove(i);
    let id = before[i].0;
    assert(ids_of(after) =~= ids_of(before).remove(i));
    assert forall|k: Seq<char>| #[trigger] map_of(after).contains_key(k) == map_of(before).remove(
        id,
    ).contains_key(k) by {
        if map_of(after).contains_key(k) {
            let j = choose|j: int| 0 <= j < after.len() && #[trigger] after[j].0 == k;
            if j < i {
                assert(before[j].0 == k);
                assert(ids_of(before)[j] != ids_of(before)[i]);
            } else {
                assert(before[j + 1].0 == k);
                assert(ids_of(before)[j + 1] != ids_of(before)[i]);
            }
        } else if map_of(before).contains_key(k) && k != id {
            let j = choose|j: int| 0 <= j < before.len() && #[trigger] before[j].0 == k;
            if j < i {
                assert(after[j].0 == k);
            } else {
                assert(after[j - 1].0 == k);
            }
        }
    }
    assert forall|k: Seq<char>| #[trigger] map_of(after).contains_key(k) implies map_of(after)[k]
        == map_of(before)[k] by {
        let j = choose|j: int| 0 <= j < after.len() && #[trigger] after[j].0 == k;
        lemma_map_of_index(after, j);
        if j < i {
            lemma_map_of_index(before, j);
        } else {
            assert(before[j + 1] == after[j]);
            lemma_map_of_index(before, j + 1);
        }
    }
    assert(map_of(after) =~= map_of(before).remove(id));
}

/// An id that no entry has is not a key.
pub proof fn lemma_map_of_absent(s: Seq<EntryView>, k: Seq<char>)
    requires
        forall|j: int| 0 <= j < s.len() ==> (#[trigger] s[j]).0 != k,
    ensures
        !map_of(s).contains_key(k),
{
}

/// Two sequences with unique ids and the same map hold the same entries.
pub proof fn lemma_same_map_same_entries(a: Seq<EntryView>, b: Seq<EntryView>)
    requires
        ids_of(a).no_duplicates(),
        ids_of(b).no_duplicates(),
        map_of(a) == map_of(b),
    ensures
        a.to_multiset() == b.to_multiset(),
{
    lemma_unique_entries(a);
    lemma_unique_entries(b);
    a.lemma_multiset_has_no_duplicates();
    b.lemma_multiset_has_no_duplicates();
    assert forall|x: EntryView| a.contains(x) == b.contains(x) by {
        lemma_contains_iff_mapped(a, x);
        lemma_contains_iff_mapped(b, x);
    }
    assert forall|x: EntryView| #[trigger] a.to_multiset().count(x) == b.to_multiset().count(x) by {
        broadcast use vstd::seq_lib::group_to_multiset_ensures;

        if a.contains(x) {
            assert(a.to_multiset().contains(x));
            assert(b.to_multiset().contains(x));
        } else {
            assert(!b.contains(x));
        }
    }
    assert(a.to_multiset() =~= b.to_multiset());
}

proof fn lemma_unique_entries(s: Seq<EntryView>)
    requires
        ids_of(s).no_duplicates(),
    ensures
        s.no_duplicates(),
{
    assert forall|i: int, j: int| 0 <= i < s.len() && 0 <= j < s.len() && i != j implies s[i] != s[j] by {
        assert(ids_of(s)[i] != ids_of(s)[j]);
    }
}

proof fn lemma_contains_iff_mapped(s: Seq<EntryView>, x: EntryView)
    requires
        ids_of(s).no_duplicates(),
    ensures
        s.contains(x) <==> (map_of(s).contains_key(x.0) && map_of(s)[x.0] == (x.1, x.2)),
{
    if s.contains(x) {
        let i = choose|i: int| 0 <= i < s.len() && s[i] == x;
        lemma_map_of_index(s, i);
    }
    if map_of(s).contains_key(x.0) && map_of(s)[x.0] == (x.1, x.2) {
        let i = choose|i: int| 0 <= i < s.len() && #[trigger] s[i].0 == x.0;
        lemma_map_of_index(s, i);
        assert(s[i] == x);
    }
}

/// Position of the entry with id `id`, if any.
pub fn find_entry(entries: &Vec<(FileId, FileMetadata)>, id: &FileId) -> (r: Option<usize>)
    ensures
        r matches Some(i) ==> i < entries@.len() && entries@[i as int].0@ == id@,
        r is None ==> forall|j: int| 0 <= j < entries@.len() ==> (#[trigger] entries@[j]).0@ != id@,
{
    let mut i: usize = 0;
    while i < entries.len()
        invariant
            i <= entries@.len(),
            forall|j: int| 0 <= j < i ==> (#[trigger] entries@[j]).0@ != id@,
        decreases entries@.len() - i,
    {
        if entries[i].0 == *id {
            return Some(i);
        }
        i = i + 1;
    }
    None
}

/// Position of the first entry whose logical path is `logical_path`, if any.
pub fn find_by_path(entries: &Vec<(FileId, FileMetadata)>, logical_path: &str) -> (r: Option<usize>)
    ensures
        r matches Some(i) ==> i < entries@.len() && entries@[i as int].1.logical_path@ == logical_path@
            && forall|j: int| 0 <= j < i ==> (#[trigger] entries@[j]).1.logical_path@ != logical_path@,
        r is None ==> forall|j: int|
            0 <= j < entries@.len() ==> (#[trigger] entries@[j]).1.logical_path@ != logical_path@,
{
    let target = logical_path.to_owned();
    let mut i: usize = 0;
    while i < entries.len()
        invariant
            i <= entries@.len(),
            target@ == logical_path@,
            forall|j: int| 0 <= j < i ==> (#[trigger] entries@[j]).1.logical_path@ != logical_path@,
        decreases entries@.len() - i,
    {
        if entries[i].1.logical_path == target {
            return Some(i);
        }
        i = i + 1;
    }
    None
}

/// An index held in memory: file id -> metadata.
pub struct InMemoryIndex {
    entries: Vec<(FileId, FileMetadata)>,
}

impl View for InMemoryIndex {
    type V = Map<Seq<char>, (Seq<char>, u64)>;

    closed spec fn view(&self) -> Self::V {
        map_of(entries_view(self.entries@))
    }
}

impl InMemoryIndex {
    /// Each id occurs once.
    pub closed spec fn wf(&self) -> bool {
        ids_of(entries_view(self.entries@)).no_duplicates()
    }

    pub fn new() -> (r: Self)
        ensures
            r.wf(),
            r@.dom().finite(),
            r@ == Map::<Seq<char>, (Seq<char>, u64)>::empty(),
    {
        let r = InMemoryIndex { entries: Vec::new() };
        proof {
            lemma_map_of_len(entries_view(r.entries@));
        }
        assert(r@ =~= Map::<Seq<char>, (Seq<char>, u64)>::empty());
        r
    }

    /// Inserts the entry, replacing any entry with the same id.
    pub fn upsert(&mut self, id: FileId, meta: FileMetadata)
        requires
            old(self).wf(),
        ensures
            final(self).wf(),
            final(self)@.dom().finite(),
            final(self)@ == old(self)@.insert(id@, (meta.logical_path@, meta.encrypted_size)),
    {
        let ghost before = entries_view(self.entries@);
        let ghost e = (id@, meta.logical_path@, meta.encrypted_size);
        match find_entry(&self.entries, &id) {
            Some(i) => {
                proof {
                    lemma_map_of_update(before, i as int, e);
                }
                self.entries.set(i, (id, meta));
                assert(entries_view(self.entries@) =~= before.update(i as int, e));
            },
            None => {
                proof {
                    assert forall|j: int| 0 <= j < before.len() implies (#[trigger] before[j]).0 != e.0 by {
                        assert(self.entries@[j].0@ != id@);
                    }
                    lemma_map_of_push(before, e);
                }
                self.entries.push((id, meta));
                assert(entries_view(self.entries@) =~= before.push(e));
            },
        }
        proof {
            lemma_map_of_len(entries_view(self.entries@));
        }
    }

    pub fn get(&self, id: &FileId) -> (r: Option<&FileMetadata>)
        requires
            self.wf(),
        ensures
            r is Some == self@.contains_key(id@),
            r matches Some(m) ==> self@[id@] == (m.logical_path@, m.encrypted_size),
    {
        let ghost s = entries_view(self.entries@);
        match find_entry(&self.entries, id) {
            Some(i) => {
                proof {
                    lemma_map_of_index(s, i as int);
                }
                Some(&self.entries[i].1)
            },
            None => {
                proof {
                    assert forall|j: int| 0 <= j < s.len() implies (#[trigger] s[j]).0 != id@ by {
                        assert(self.entries@[j].0@ != id@);
                    }
                    lemma_map_of_absent(s, id@);
                }
                None
            },
        }
    }

    /// Removes the entry with this id, if any.
    pub fn remove(&mut self, id: &FileId)
        requires
            old(self).wf(),
        ensures
            final(self).wf(),
            final(self)@.dom().finite(),
            final(self)@ == old(self)@.remove(id@),
    {
        let ghost before = entries_view(self.entries@);
        match find_entry(&self.entries, id) {
            Some(i) => {
                proof {
                    lemma_map_of_remove(before, i as int);
                }
                self.entries.remove(i);
                assert(entries_view(self.entries@) =~= before.remove(i as int));
            },
            None => {
                proof {
                    assert forall|j: int| 0 <= j < before.len() implies (#[trigger] before[j]).0 != id@ by {
                        assert(self.entries@[j].0@ != id@);
                    }
                    lemma_map_of_absent(before, id@);
                    assert(map_of(before) =~= map_of(before).remove(id@));
                }
            },
        }
        proof {
            lemma_map_of_len(entries_view(self.entries@));
        }
    }

    pub fn len(&self) -> (r: usize)
        requires
            self.wf(),
        ensures
            self@.dom().finite(),
            r == self@.len(),
    {
        proof {
            lemma_map_of_len(entries_view(self.entries@));
        }
        self.entries.len()
    }

    pub fn is_empty(&self) -> (r: bool)
        requires
            self.wf(),
        ensures
            r == (self@.len() == 0),
    {
        self.len() == 0
    }

    /// The entries, each id once.
    pub fn entries(&self) -> (r: &Vec<(FileId, FileMetadata)>)
        requires
            self.wf(),
        ensures
            map_of(entries_view(r@)) == self@,
            ids_of(entries_view(r@)).no_duplicates(),
    {
        &self.entries
    }
}

} // verus!
