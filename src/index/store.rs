//! The authenticated metadata index: active rows and trash rows, each carrying a MAC
//! under the index MAC key, and the Merkle root of the active rows.
//!
//! This is the logic of the encrypted store; the store itself (the disk file opened with
//! the database key) only persists what these operations return.
use super::merkle::{merkle_root, MerkleTree};
use super::{
    entries_view, entry_view, ids_of, lemma_map_of_absent, lemma_map_of_index, lemma_map_of_push,
    lemma_map_of_remove, lemma_map_of_update, map_of, index_of, EntryView, FileId, FileMetadata,
};
use crate::bytes::{append_bytes, bytes_equal};
use crate::crypto::MasterKey;
use crate::primitives::{hkdf_sha256, hkdf_sha256_of, sha256, sha256_of};
use vstd::bytes::{spec_u64_to_le_bytes, u64_to_le_bytes};
use super::order::{bytes_le, lemma_insert_multiset, lemma_lex_connected, lemma_lex_transitive, lex_le};
use vstd::multiset::Multiset;
use vstd::prelude::*;
use vstd::relations::sorted_by;
use vstd::utf8::encode_utf8;

verus! {

/// The key of the encrypted store: HKDF-SHA256 with an empty salt and
/// `"aether-drive:sqlcipher-key:v1"`.
pub open spec fn db_key_of(master_key: Seq<u8>) -> Seq<u8> {
    hkdf_sha256_of(Seq::empty(), master_key, encode_utf8("aether-drive:sqlcipher-key:v1"@))
}

/// The key of the row MACs: HKDF-SHA256 with an empty salt and
/// `"aether-drive:index-hmac-key:v1"`.
pub open spec fn index_mac_key_of(master_key: Seq<u8>) -> Seq<u8> {
    hkdf_sha256_of(Seq::empty(), master_key, encode_utf8("aether-drive:index-hmac-key:v1"@))
}

/// What a row MAC hashes: `file_id || logical_path || encrypted_size_le64 || key`.
pub open spec fn row_mac_input(key: Seq<u8>, e: EntryView) -> Seq<u8> {
    encode_utf8(e.0) + encode_utf8(e.1) + spec_u64_to_le_bytes(e.2) + key
}

pub open spec fn row_mac_of(key: Seq<u8>, e: EntryView) -> Seq<u8> {
    sha256_of(row_mac_input(key, e))
}

/// Errors of the index.
#[derive(Debug, Clone, PartialEq, Eq)]
pub enum IndexError {
    /// A row failed MAC verification, or the stored tables are inconsistent.
    Corrupt,
    /// The store exists but the database key does not open it.
    WrongKey,
    /// No such row.
    NotFound,
    /// The store could not be read or written.
    Io(String),
}

/// An active row as stored.
#[derive(Debug, Clone)]
pub struct IndexRow {
    pub file_id: FileId,
    pub logical_path: String,
    pub encrypted_size: u64,
    pub row_mac: [u8; 32],
}

/// A trash row as stored.
#[derive(Debug, Clone)]
pub struct TrashRow {
    pub file_id: FileId,
    pub logical_path: String,
    pub encrypted_size: u64,
    /// Unix time of deletion, in seconds.
    pub deleted_at: i64,
    pub row_mac: [u8; 32],
}

pub open spec fn row_entry(r: IndexRow) -> EntryView {
    (r.file_id@, r.logical_path@, r.encrypted_size)
}

pub open spec fn rows_entries(s: Seq<IndexRow>) -> Seq<EntryView> {
    s.map_values(|r: IndexRow| row_entry(r))
}

pub open spec fn trash_entry(t: TrashRow) -> EntryView {
    (t.file_id@, t.logical_path@, t.encrypted_size)
}

pub open spec fn trash_entries(s: Seq<TrashRow>) -> Seq<EntryView> {
    s.map_values(|t: TrashRow| trash_entry(t))
}

/// Every row of `s` carries the MAC of its fields under `key`.
pub open spec fn rows_valid(key: Seq<u8>, s: Seq<IndexRow>) -> bool {
    forall|j: int| 0 <= j < s.len() ==> (#[trigger] s[j]).row_mac@ == row_mac_of(key, row_entry(s[j]))
}

pub open spec fn trash_valid(key: Seq<u8>, s: Seq<TrashRow>) -> bool {
    forall|j: int| 0 <= j < s.len() ==> (#[trigger] s[j]).row_mac@ == row_mac_of(key, trash_entry(s[j]))
}

/// Distinct paths give distinct MAC inputs, so a row whose logical path was changed
/// without its MAC verifies only if SHA-256 maps two distinct inputs to one digest.
pub proof fn lemma_row_mac_binds_path(key: Seq<u8>, e: EntryView, path: Seq<char>)
    requires
        path != e.1,
    ensures
        row_mac_input(key, e) != row_mac_input(key, (e.0, path, e.2)),
{
    broadcast use vstd::utf8::encode_utf8_decode_utf8;

    let a = row_mac_input(key, e);
    let b = row_mac_input(key, (e.0, path, e.2));
    let n = encode_utf8(e.0).len();
    let tail = spec_u64_to_le_bytes(e.2) + key;
    if a == b {
        assert(a =~= encode_utf8(e.0) + (encode_utf8(e.1) + tail));
        assert(b =~= encode_utf8(e.0) + (encode_utf8(path) + tail));
        assert(a.subrange(n as int, a.len() - tail.len()) =~= encode_utf8(e.1));
        assert(b.subrange(n as int, b.len() - tail.len()) =~= encode_utf8(path));
        assert(vstd::utf8::decode_utf8(encode_utf8(e.1)) == e.1);
        assert(vstd::utf8::decode_utf8(encode_utf8(path)) == path);
    }
}

/// Indexes with the same entries have the same stored root: the root depends on which
/// entries are active, not on the order in which they were written.
pub proof fn lemma_equal_entries_equal_roots(a: IndexTables, b: IndexTables)
    requires
        a.wf(),
        b.wf(),
        a@ == b@,
        a.root_matches(),
        b.root_matches(),
        a.stored_root() is Some,
        b.stored_root() is Some,
    ensures
        a.stored_root() == b.stored_root(),
{
    super::lemma_same_map_same_entries(rows_entries(a.spec_rows()), rows_entries(b.spec_rows()));
    super::merkle::lemma_root_independent_of_order(rows_entries(a.spec_rows()), rows_entries(b.spec_rows()));
}

/// Reading back what a consistent index stored, under the same MAC key, gives a
/// consistent index: it verifies after a lock and an unlock.
pub proof fn lemma_reload_consistent(a: IndexTables, b: IndexTables)
    requires
        a.consistent(),
        b.wf(),
        b.spec_rows() == a.spec_rows(),
        b.mac_key() == a.mac_key(),
        b.stored_root() == a.stored_root(),
    ensures
        b.consistent(),
{
}

/// A consistent index accepts every write: no row fails MAC verification, whatever id
/// the write concerns.
pub proof fn lemma_consistent_accepts_writes(t: IndexTables, k: Seq<char>)
    requires
        t.consistent(),
    ensures
        others_valid(t.mac_key(), t.spec_rows(), k),
{
}

fn compute_row_mac(key: &[u8; 32], id: &str, path: &str, size: u64) -> (r: [u8; 32])
    ensures
        r@ == row_mac_of(key@, (id@, path@, size)),
{
    let mut input: Vec<u8> = Vec::new();
    append_bytes(&mut input, id.as_bytes());
    append_bytes(&mut input, path.as_bytes());
    let size_bytes = u64_to_le_bytes(size);
    append_bytes(&mut input, size_bytes.as_slice());
    append_bytes(&mut input, key);
    assert(input@ =~= row_mac_input(key@, (id@, path@, size)));
    sha256(input.as_slice())
}

/// Whether every row but the one at `skip` carries its MAC under `key`.
fn rows_check(key: &[u8; 32], rows: &Vec<IndexRow>, skip: usize) -> (r: bool)
    ensures
        r == forall|j: int|
            0 <= j < rows@.len() && j != skip ==> (#[trigger] rows@[j]).row_mac@ == row_mac_of(
                key@,
                row_entry(rows@[j]),
            ),
{
    let mut i: usize = 0;
    while i < rows.len()
        invariant
            i <= rows@.len(),
            forall|j: int|
                0 <= j < i && j != skip ==> (#[trigger] rows@[j]).row_mac@ == row_mac_of(
                    key@,
                    row_entry(rows@[j]),
                ),
        decreases rows@.len() - i,
    {
        if i != skip {
            let row = &rows[i];
            let expected = compute_row_mac(key, row.file_id.as_str(), row.logical_path.as_str(), row.encrypted_size);
            if !bytes_equal(&expected, &row.row_mac) {
                return false;
            }
        }
        i = i + 1;
    }
    true
}

fn trash_check(key: &[u8; 32], rows: &Vec<TrashRow>) -> (r: bool)
    ensures
        r == trash_valid(key@, rows@),
{
    let mut i: usize = 0;
    while i < rows.len()
        invariant
            i <= rows@.len(),
            trash_valid(key@, rows@.subrange(0, i as int)),
        decreases rows@.len() - i,
    {
        let row = &rows[i];
        let expected = compute_row_mac(key, row.file_id.as_str(), row.logical_path.as_str(), row.encrypted_size);
        if !bytes_equal(&expected, &row.row_mac) {
            assert(rows@[i as int] == row);
            return false;
        }
        assert(rows@.subrange(0, i + 1)[i as int] == rows@[i as int]);
        i = i + 1;
    }
    assert(rows@.subrange(0, rows@.len() as int) =~= rows@);
    true
}

fn entries_of_rows(rows: &Vec<IndexRow>) -> (r: Vec<(FileId, FileMetadata)>)
    ensures
        entries_view(r@) == rows_entries(rows@),
{
    let mut out: Vec<(FileId, FileMetadata)> = Vec::new();
    let mut i: usize = 0;
    while i < rows.len()
        invariant
            i <= rows@.len(),
            entries_view(out@) == rows_entries(rows@.subrange(0, i as int)),
        decreases rows@.len() - i,
    {
        let row = &rows[i];
        let ghost before = out@;
        out.push((row.file_id.clone(), FileMetadata { logical_path: row.logical_path.clone(), encrypted_size: row.encrypted_size }));
        assert(entries_view(out@) =~= entries_view(before).push(row_entry(*row)));
        assert(rows@.subrange(0, i + 1) =~= rows@.subrange(0, i as int).push(*row));
        assert(rows_entries(rows@.subrange(0, i + 1)) =~= rows_entries(rows@.subrange(0, i as int)).push(row_entry(*row)));
        i = i + 1;
    }
    assert(rows@.subrange(0, rows@.len() as int) =~= rows@);
    out
}

/// Order of entries by the UTF-8 bytes of their logical paths.
pub open spec fn path_order() -> spec_fn(EntryView, EntryView) -> bool {
    |x: EntryView, y: EntryView| lex_le(encode_utf8(x.1), encode_utf8(y.1))
}

/// Sorts entries by logical path (byte order); entries with equal paths keep no
/// particular order.
fn sort_by_path(v: Vec<(FileId, FileMetadata)>) -> (r: Vec<(FileId, FileMetadata)>)
    ensures
        entries_view(r@).to_multiset() == entries_view(v@).to_multiset(),
        sorted_by(entries_view(r@), path_order()),
{
    broadcast use vstd::seq_lib::group_to_multiset_ensures;

    let ghost all = entries_view(v@);
    let mut rest = v;
    let mut sorted: Vec<(FileId, FileMetadata)> = Vec::new();
    assert(entries_view(sorted@).to_multiset() =~= Multiset::empty());
    while rest.len() > 0
        invariant
            entries_view(sorted@).to_multiset().add(entries_view(rest@).to_multiset()) == all.to_multiset(),
            sorted_by(entries_view(sorted@), path_order()),
        decreases rest@.len(),
    {
        let ghost before_rest = rest@;
        let x = rest.pop().unwrap();
        proof {
            assert(before_rest =~= rest@.push(x));
            assert(entries_view(before_rest) =~= entries_view(rest@).push(entry_view(x)));
        }
        let mut pos: usize = 0;
        while pos < sorted.len() && bytes_le(sorted[pos].1.logical_path.as_str().as_bytes(), x.1.logical_path.as_str().as_bytes())
            invariant
                pos <= sorted@.len(),
                forall|j: int| 0 <= j < pos ==> path_order()(#[trigger] entries_view(sorted@)[j], entry_view(x)),
            decreases sorted@.len() - pos,
        {
            pos = pos + 1;
        }
        let ghost old_views = entries_view(sorted@);
        let ghost e = entry_view(x);
        sorted.insert(pos, x);
        proof {
            assert(entries_view(sorted@) =~= old_views.insert(pos as int, e));
            lemma_insert_multiset(old_views, pos as int, e);
            entries_view(rest@).to_multiset_ensures();
            assert(entries_view(rest@).push(e).to_multiset() =~= entries_view(rest@).to_multiset().insert(e));
            let v = entries_view(sorted@);
            assert forall|a: int, b: int| 0 <= a < b < v.len() implies #[trigger] path_order()(v[a], v[b]) by {
                if pos < old_views.len() {
                    assert(!path_order()(old_views[pos as int], e));
                    lemma_lex_connected(encode_utf8(old_views[pos as int].1), encode_utf8(e.1));
                }
                if b < pos {
                    assert(path_order()(old_views[a], old_views[b]));
                } else if b == pos {
                    assert(path_order()(old_views[a], e));
                } else if a < pos {
                    assert(path_order()(old_views[a], e));
                    assert(path_order()(e, old_views[pos as int]));
                    if b - 1 > pos {
                        assert(path_order()(old_views[pos as int], old_views[b - 1]));
                        lemma_lex_transitive(encode_utf8(e.1), encode_utf8(old_views[pos as int].1), encode_utf8(old_views[b - 1].1));
                    }
                    lemma_lex_transitive(encode_utf8(old_views[a].1), encode_utf8(e.1), encode_utf8(old_views[b - 1].1));
                } else if a == pos {
                    assert(path_order()(e, old_views[pos as int]));
                    if b - 1 > pos {
                        assert(path_order()(old_views[pos as int], old_views[b - 1]));
                        lemma_lex_transitive(encode_utf8(e.1), encode_utf8(old_views[pos as int].1), encode_utf8(old_views[b - 1].1));
                    }
                } else {
                    assert(path_order()(old_views[a - 1], old_views[b - 1]));
                }
            }
        }
    }
    assert(entries_view(rest@) =~= Seq::<EntryView>::empty());
    assert(entries_view(rest@).to_multiset() =~= Multiset::empty());
    assert(entries_view(sorted@).to_multiset() =~= entries_view(sorted@).to_multiset().add(Multiset::empty()));
    sorted
}

fn root_of_rows(rows: &Vec<IndexRow>) -> (r: [u8; 32])
    ensures
        r@ == merkle_root(rows_entries(rows@)),
{
    let entries = entries_of_rows(rows);
    let tree = MerkleTree::build(&entries);
    *tree.root_hash()
}

fn find_row(rows: &Vec<IndexRow>, id: &FileId) -> (r: Option<usize>)
    ensures
        r matches Some(i) ==> i < rows@.len() && rows@[i as int].file_id@ == id@,
        r is None ==> forall|j: int| 0 <= j < rows@.len() ==> (#[trigger] rows@[j]).file_id@ != id@,
{
    let mut i: usize = 0;
    while i < rows.len()
        invariant
            i <= rows@.len(),
            forall|j: int| 0 <= j < i ==> (#[trigger] rows@[j]).file_id@ != id@,
        decreases rows@.len() - i,
    {
        if rows[i].file_id == *id {
            return Some(i);
        }
        i = i + 1;
    }
    None
}

fn find_trash(rows: &Vec<TrashRow>, id: &FileId) -> (r: Option<usize>)
    ensures
        r matches Some(i) ==> i < rows@.len() && rows@[i as int].file_id@ == id@,
        r is None ==> forall|j: int| 0 <= j < rows@.len() ==> (#[trigger] rows@[j]).file_id@ != id@,
{
    let mut i: usize = 0;
    while i < rows.len()
        invariant
            i <= rows@.len(),
            forall|j: int| 0 <= j < i ==> (#[trigger] rows@[j]).file_id@ != id@,
        decreases rows@.len() - i,
    {
        if rows[i].file_id == *id {
            return Some(i);
        }
        i = i + 1;
    }
    None
}

/// Every row of `s` whose id is not `k` carries its MAC under `key`.
pub open spec fn others_valid(key: Seq<u8>, s: Seq<IndexRow>, k: Seq<char>) -> bool {
    forall|j: int|
        0 <= j < s.len() && (#[trigger] s[j]).file_id@ != k ==> s[j].row_mac@ == row_mac_of(
            key,
            row_entry(s[j]),
        )
}

/// The tables of the index: active rows, trash rows and the stored Merkle root.
pub struct IndexTables {
    mac_key: [u8; 32],
    db_key: [u8; 32],
    rows: Vec<IndexRow>,
    trash: Vec<TrashRow>,
    merkle_root: Option<[u8; 32]>,
}

impl View for IndexTables {
    /// The active entries: file id -> (logical path, encrypted size).
    type V = Map<Seq<char>, (Seq<char>, u64)>;

    open spec fn view(&self) -> Self::V {
        map_of(rows_entries(self.spec_rows()))
    }
}

impl IndexTables {
    pub closed spec fn mac_key(&self) -> Seq<u8> {
        self.mac_key@
    }

    pub closed spec fn spec_db_key(&self) -> Seq<u8> {
        self.db_key@
    }

    pub closed spec fn spec_rows(&self) -> Seq<IndexRow> {
        self.rows@
    }

    pub closed spec fn spec_trash(&self) -> Seq<TrashRow> {
        self.trash@
    }

    pub closed spec fn stored_root(&self) -> Option<Seq<u8>> {
        match self.merkle_root {
            Some(h) => Some(h@),
            None => None,
        }
    }

    /// The trash entries: file id -> (logical path, encrypted size).
    pub open spec fn trash_view(&self) -> Map<Seq<char>, (Seq<char>, u64)> {
        map_of(trash_entries(self.spec_trash()))
    }

    /// Each id occurs once per table.
    pub open spec fn wf(&self) -> bool {
        &&& ids_of(rows_entries(self.spec_rows())).no_duplicates()
        &&& ids_of(trash_entries(self.spec_trash())).no_duplicates()
    }

    /// Every active row carries its MAC.
    pub open spec fn rows_authentic(&self) -> bool {
        rows_valid(self.mac_key(), self.spec_rows())
    }

    /// The stored root is the root over the active rows; no root is stored only while
    /// there are no rows.
    pub open spec fn root_matches(&self) -> bool {
        match self.stored_root() {
            Some(h) => h == merkle_root(rows_entries(self.spec_rows())),
            None => self.spec_rows().len() == 0,
        }
    }

    /// What a freshly opened index has and every operation keeps.
    pub open spec fn consistent(&self) -> bool {
        self.wf() && self.rows_authentic() && self.root_matches()
    }

    /// The active row with id `k`, when there is one.
    pub open spec fn row_with(&self, k: Seq<char>) -> IndexRow {
        self.spec_rows()[index_of(rows_entries(self.spec_rows()), k)]
    }

    /// The trash row with id `k`, when there is one.
    pub open spec fn trash_row_with(&self, k: Seq<char>) -> TrashRow {
        self.spec_trash()[index_of(trash_entries(self.spec_trash()), k)]
    }

    /// An empty index under the keys derived from `master_key`.
    pub fn open(master_key: &MasterKey) -> (r: Self)
        ensures
            r.consistent(),
            r@ == Map::<Seq<char>, (Seq<char>, u64)>::empty(),
            r.trash_view() == Map::<Seq<char>, (Seq<char>, u64)>::empty(),
            r.mac_key() == index_mac_key_of(master_key@),
            r.spec_db_key() == db_key_of(master_key@),
            r.stored_root() is None,
    {
        let (mac_key, db_key) = Self::derive_keys(master_key);
        let r = IndexTables { mac_key, db_key, rows: Vec::new(), trash: Vec::new(), merkle_root: None };
        assert(rows_entries(r.rows@) =~= Seq::<EntryView>::empty());
        assert(trash_entries(r.trash@) =~= Seq::<EntryView>::empty());
        assert(r@ =~= Map::<Seq<char>, (Seq<char>, u64)>::empty());
        assert(r.trash_view() =~= Map::<Seq<char>, (Seq<char>, u64)>::empty());
        r
    }

    fn derive_keys(master_key: &MasterKey) -> (r: ([u8; 32], [u8; 32]))
        ensures
            r.0@ == index_mac_key_of(master_key@),
            r.1@ == db_key_of(master_key@),
    {
        // Both expansions are to 32 bytes, which never fails: the `Err` arms are unreachable.
        let no_salt: Vec<u8> = Vec::new();
        assert(no_salt@ =~= Seq::<u8>::empty());
        let mac_key = match hkdf_sha256(no_salt.as_slice(), master_key.as_bytes(), "aether-drive:index-hmac-key:v1".as_bytes()) {
            Ok(k) => k,
            Err(()) => [0u8; 32],
        };
        let db_key = match hkdf_sha256(no_salt.as_slice(), master_key.as_bytes(), "aether-drive:sqlcipher-key:v1".as_bytes()) {
            Ok(k) => k,
            Err(()) => [0u8; 32],
        };
        (mac_key, db_key)
    }

    /// The index as read back from the store. Rows are not judged here (every read
    /// verifies them); two rows with one id in a table are `Corrupt`.
    pub fn load(
        master_key: &MasterKey,
        rows: Vec<IndexRow>,
        trash: Vec<TrashRow>,
        merkle_root: Option<[u8; 32]>,
    ) -> (r: Result<Self, IndexError>)
        ensures
            r is Ok <==> ids_of(rows_entries(rows@)).no_duplicates() && ids_of(
                trash_entries(trash@),
            ).no_duplicates(),
            r matches Ok(t) ==> t.wf() && t.spec_rows() == rows@ && t.spec_trash() == trash@
                && t.mac_key() == index_mac_key_of(master_key@) && t.spec_db_key() == db_key_of(
                master_key@,
            ) && t.stored_root() == (match merkle_root {
                Some(h) => Some(h@),
                None => None::<Seq<u8>>,
            }),
            r matches Err(e) ==> e is Corrupt,
    {
        let mut i: usize = 0;
        while i < rows.len()
            invariant
                i <= rows@.len(),
                forall|a: int, b: int|
                    0 <= a < b < i ==> (#[trigger] rows@[a]).file_id@ != (#[trigger] rows@[b]).file_id@,
            decreases rows@.len() - i,
        {
            let mut j: usize = 0;
            while j < i
                invariant
                    j <= i < rows@.len(),
                    forall|a: int| 0 <= a < j ==> (#[trigger] rows@[a]).file_id@ != rows@[i as int].file_id@,
                decreases i - j,
            {
                if rows[j].file_id == rows[i].file_id {
                    proof {
                        assert(ids_of(rows_entries(rows@))[j as int] == ids_of(rows_entries(rows@))[i as int]);
                    }
                    return Err(IndexError::Corrupt);
                }
                j = j + 1;
            }
            i = i + 1;
        }
        let mut i: usize = 0;
        while i < trash.len()
            invariant
                i <= trash@.len(),
                forall|a: int, b: int|
                    0 <= a < b < i ==> (#[trigger] trash@[a]).file_id@ != (#[trigger] trash@[b]).file_id@,
            decreases trash@.len() - i,
        {
            let mut j: usize = 0;
            while j < i
                invariant
                    j <= i < trash@.len(),
                    forall|a: int| 0 <= a < j ==> (#[trigger] trash@[a]).file_id@ != trash@[i as int].file_id@,
                decreases i - j,
            {
                if trash[j].file_id == trash[i].file_id {
                    proof {
                        assert(ids_of(trash_entries(trash@))[j as int] == ids_of(trash_entries(trash@))[i as int]);
                    }
                    return Err(IndexError::Corrupt);
                }
                j = j + 1;
            }
            i = i + 1;
        }
        proof {
            assert forall|a: int, b: int|
                0 <= a < ids_of(rows_entries(rows@)).len() && 0 <= b < ids_of(rows_entries(rows@)).len() && a != b
                    implies ids_of(rows_entries(rows@))[a] != ids_of(rows_entries(rows@))[b] by {
                if a < b {
                    assert(rows@[a].file_id@ != rows@[b].file_id@);
                } else {
                    assert(rows@[b].file_id@ != rows@[a].file_id@);
                }
            }
            assert forall|a: int, b: int|
                0 <= a < ids_of(trash_entries(trash@)).len() && 0 <= b < ids_of(trash_entries(trash@)).len() && a != b
                    implies ids_of(trash_entries(trash@))[a] != ids_of(trash_entries(trash@))[b] by {
                if a < b {
                    assert(trash@[a].file_id@ != trash@[b].file_id@);
                } else {
                    assert(trash@[b].file_id@ != trash@[a].file_id@);
                }
            }
        }
        let (mac_key, db_key) = Self::derive_keys(master_key);
        Ok(IndexTables { mac_key, db_key, rows, trash, merkle_root })
    }

    /// The key that opens the encrypted store.
    pub fn db_key(&self) -> (r: [u8; 32])
        ensures
            r@ == self.spec_db_key(),
    {
        self.db_key
    }

    /// The MAC of a row with these fields.
    pub fn row_mac(&self, file_id: &str, logical_path: &str, encrypted_size: u64) -> (r: [u8; 32])
        ensures
            r@ == row_mac_of(self.mac_key(), (file_id@, logical_path@, encrypted_size)),
    {
        compute_row_mac(&self.mac_key, file_id, logical_path, encrypted_size)
    }

    pub fn rows(&self) -> (r: &Vec<IndexRow>)
        ensures
            r@ == self.spec_rows(),
    {
        &self.rows
    }

    pub fn trash_rows(&self) -> (r: &Vec<TrashRow>)
        ensures
            r@ == self.spec_trash(),
    {
        &self.trash
    }

    /// The stored Merkle root, if one was stored.
    pub fn get_merkle_root(&self) -> (r: Option<[u8; 32]>)
        ensures
            r matches Some(h) ==> self.stored_root() == Some(h@),
            r is None ==> self.stored_root() is None,
    {
        self.merkle_root
    }

    pub fn len(&self) -> (r: usize)
        requires
            self.wf(),
        ensures
            self@.dom().finite(),
            r == self@.len(),
    {
        proof {
            super::lemma_map_of_len(rows_entries(self.rows@));
        }
        self.rows.len()
    }

    pub fn is_empty(&self) -> (r: bool)
        requires
            self.wf(),
        ensures
            r == (self@.len() == 0),
    {
        self.len() == 0
    }

    /// Every active entry, each row verified; the first row whose MAC fails gives
    /// `Corrupt`.
    pub fn list_all(&self) -> (r: Result<Vec<(FileId, FileMetadata)>, IndexError>)
        ensures
            r is Ok <==> self.rows_authentic(),
            r matches Ok(v) ==> entries_view(v@).to_multiset() == rows_entries(
                self.spec_rows(),
            ).to_multiset() && sorted_by(entries_view(v@), path_order()),
            r matches Err(e) ==> e is Corrupt,
    {
        if !rows_check(&self.mac_key, &self.rows, self.rows.len()) {
            return Err(IndexError::Corrupt);
        }
        Ok(sort_by_path(entries_of_rows(&self.rows)))
    }

    /// The metadata of `file_id`: `None` when absent, `Corrupt` when its row fails MAC
    /// verification.
    pub fn get(&self, file_id: &FileId) -> (r: Result<Option<FileMetadata>, IndexError>)
        requires
            self.wf(),
        ensures
            !self@.contains_key(file_id@) ==> r matches Ok(None),
            self.rows_authentic() && self@.contains_key(file_id@) ==> (r matches Ok(Some(m))
                && self@[file_id@] == (m.logical_path@, m.encrypted_size)),
            self@.contains_key(file_id@) ==> ({
                let row = self.row_with(file_id@);
                if row.row_mac@ == row_mac_of(self.mac_key(), row_entry(row)) {
                    r matches Ok(Some(m)) && self@[file_id@] == (m.logical_path@, m.encrypted_size)
                } else {
                    r matches Err(IndexError::Corrupt)
                }
            }),
    {
        let ghost s = rows_entries(self.rows@);
        match find_row(&self.rows, file_id) {
            Some(i) => {
                proof {
                    lemma_map_of_index(s, i as int);
                    let k = file_id@;
                    let j = index_of(s, k);
                    assert(ids_of(s)[i as int] == ids_of(s)[j]);
                }
                let row = &self.rows[i];
                let expected = compute_row_mac(&self.mac_key, row.file_id.as_str(), row.logical_path.as_str(), row.encrypted_size);
                if !bytes_equal(&expected, &row.row_mac) {
                    return Err(IndexError::Corrupt);
                }
                Ok(Some(FileMetadata { logical_path: row.logical_path.clone(), encrypted_size: row.encrypted_size }))
            },
            None => {
                proof {
                    assert forall|j: int| 0 <= j < s.len() implies (#[trigger] s[j]).0 != file_id@ by {
                        assert(self.rows@[j].file_id@ != file_id@);
                    }
                    lemma_map_of_absent(s, file_id@);
                }
                Ok(None)
            },
        }
    }

    /// Writes the row of `file_id` with its MAC, replacing any row with that id, and
    /// stores the new Merkle root; returns the row written. Any other row that fails
    /// MAC verification gives `Corrupt` and changes nothing.
    pub fn upsert(&mut self, file_id: FileId, meta: FileMetadata) -> (r: Result<IndexRow, IndexError>)
        requires
            old(self).wf(),
        ensures
            final(self).wf(),
            final(self).mac_key() == old(self).mac_key(),
            final(self).spec_db_key() == old(self).spec_db_key(),
            final(self).spec_trash() == old(self).spec_trash(),
            r is Ok <==> others_valid(old(self).mac_key(), old(self).spec_rows(), file_id@),
            r matches Ok(row) ==> {
                &&& final(self)@ == old(self)@.insert(file_id@, (meta.logical_path@, meta.encrypted_size))
                &&& row_entry(row) == (file_id@, meta.logical_path@, meta.encrypted_size)
                &&& row.row_mac@ == row_mac_of(old(self).mac_key(), row_entry(row))
                &&& final(self).rows_authentic()
                &&& final(self).root_matches()
                &&& final(self).stored_root() is Some
            },
            r matches Err(e) ==> e is Corrupt && final(self).spec_rows() == old(self).spec_rows()
                && final(self).stored_root() == old(self).stored_root(),
    {
        let ghost before = rows_entries(self.rows@);
        let ghost old_rows = self.rows@;
        let found = find_row(&self.rows, &file_id);
        let skip = match found {
            Some(i) => i,
            None => self.rows.len(),
        };
        let ok = rows_check(&self.mac_key, &self.rows, skip);
        proof {
            if let Some(i) = found {
                assert forall|j: int| 0 <= j < old_rows.len() && j != i implies (#[trigger] old_rows[j]).file_id@ != file_id@ by {
                    assert(ids_of(before)[j] != ids_of(before)[i as int]);
                }
            }
        }
        if !ok {
            return Err(IndexError::Corrupt);
        }
        let row_mac = compute_row_mac(&self.mac_key, file_id.as_str(), meta.logical_path.as_str(), meta.encrypted_size);
        let written = IndexRow {
            file_id: file_id.clone(),
            logical_path: meta.logical_path.clone(),
            encrypted_size: meta.encrypted_size,
            row_mac,
        };
        let ghost e = (file_id@, meta.logical_path@, meta.encrypted_size);
        let stored = IndexRow { file_id, logical_path: meta.logical_path, encrypted_size: meta.encrypted_size, row_mac };
        match found {
            Some(i) => {
                proof {
                    lemma_map_of_update(before, i as int, e);
                }
                self.rows.set(i, stored);
                assert(rows_entries(self.rows@) =~= before.update(i as int, e));
            },
            None => {
                proof {
                    assert forall|j: int| 0 <= j < before.len() implies (#[trigger] before[j]).0 != e.0 by {
                        assert(old_rows[j].file_id@ != e.0);
                    }
                    lemma_map_of_push(before, e);
                }
                self.rows.push(stored);
                assert(rows_entries(self.rows@) =~= before.push(e));
            },
        }
        proof {
            assert forall|j: int| 0 <= j < self.rows@.len() implies (#[trigger] self.rows@[j]).row_mac@
                == row_mac_of(self.mac_key@, row_entry(self.rows@[j])) by {
                if j < old_rows.len() && j != skip {
                    assert(self.rows@[j] == old_rows[j]);
                }
            }
        }
        let root = root_of_rows(&self.rows);
        self.merkle_root = Some(root);
        Ok(written)
    }

    /// Deletes the row of `file_id`, if any, and stores the new Merkle root. Any other
    /// row that fails MAC verification gives `Corrupt` and changes nothing.
    pub fn remove(&mut self, file_id: &FileId) -> (r: Result<(), IndexError>)
        requires
            old(self).wf(),
        ensures
            final(self).wf(),
            final(self).mac_key() == old(self).mac_key(),
            final(self).spec_db_key() == old(self).spec_db_key(),
            final(self).spec_trash() == old(self).spec_trash(),
            r is Ok <==> others_valid(old(self).mac_key(), old(self).spec_rows(), file_id@),
            r is Ok ==> {
                &&& final(self)@ == old(self)@.remove(file_id@)
                &&& final(self).rows_authentic()
                &&& final(self).root_matches()
                &&& final(self).stored_root() is Some
            },
            r matches Err(e) ==> e is Corrupt && final(self).spec_rows() == old(self).spec_rows()
                && final(self).stored_root() == old(self).stored_root(),
    {
        let ghost before = rows_entries(self.rows@);
        let ghost old_rows = self.rows@;
        let found = find_row(&self.rows, file_id);
        let skip = match found {
            Some(i) => i,
            None => self.rows.len(),
        };
        let ok = rows_check(&self.mac_key, &self.rows, skip);
        proof {
            if let Some(i) = found {
                assert forall|j: int| 0 <= j < old_rows.len() && j != i implies (#[trigger] old_rows[j]).file_id@ != file_id@ by {
                    assert(ids_of(before)[j] != ids_of(before)[i as int]);
                }
            }
        }
        if !ok {
            return Err(IndexError::Corrupt);
        }
        match found {
            Some(i) => {
                proof {
                    lemma_map_of_remove(before, i as int);
                }
                self.rows.remove(i);
                assert(rows_entries(self.rows@) =~= before.remove(i as int));
                proof {
                    assert forall|j: int| 0 <= j < self.rows@.len() implies (#[trigger] self.rows@[j]).row_mac@
                        == row_mac_of(self.mac_key@, row_entry(self.rows@[j])) by {
                        if j < i {
                            assert(self.rows@[j] == old_rows[j]);
                        } else {
                            assert(self.rows@[j] == old_rows[j + 1]);
                        }
                    }
                }
            },
            None => {
                proof {
                    assert forall|j: int| 0 <= j < before.len() implies (#[trigger] before[j]).0 != file_id@ by {
                        assert(old_rows[j].file_id@ != file_id@);
                    }
                    lemma_map_of_absent(before, file_id@);
                    assert(map_of(before) =~= map_of(before).remove(file_id@));
                }
            },
        }
        let root = root_of_rows(&self.rows);
        self.merkle_root = Some(root);
        Ok(())
    }

    /// Moves the active row of `file_id` to the trash, stamped `deleted_at`, replacing any
    /// trash row with that id, and stores the new Merkle root. An absent id is
    /// `NotFound`; an active row that fails MAC verification is `Corrupt`. Either error
    /// changes nothing.
    pub fn move_to_trash(&mut self, file_id: &FileId, deleted_at: i64) -> (r: Result<(), IndexError>)
        requires
            old(self).wf(),
        ensures
            final(self).wf(),
            final(self).mac_key() == old(self).mac_key(),
            final(self).spec_db_key() == old(self).spec_db_key(),
            !old(self)@.contains_key(file_id@) ==> r == Err::<(), IndexError>(IndexError::NotFound),
            old(self)@.contains_key(file_id@) ==> (r is Ok <==> old(self).rows_authentic()),
            r is Ok ==> {
                &&& final(self)@ == old(self)@.remove(file_id@)
                &&& final(self).trash_view() == old(self).trash_view().insert(file_id@, old(self)@[file_id@])
                &&& final(self).trash_row_with(file_id@).deleted_at == deleted_at
                &&& final(self).rows_authentic()
                &&& final(self).root_matches()
                &&& (trash_valid(old(self).mac_key(), old(self).spec_trash()) ==> trash_valid(
                    final(self).mac_key(),
                    final(self).spec_trash(),
                ))
            },
            r is Err ==> final(self).spec_rows() == old(self).spec_rows() && final(self).spec_trash()
                == old(self).spec_trash() && final(self).stored_root() == old(self).stored_root(),
    {
        let ghost before = rows_entries(self.rows@);
        let ghost old_rows = self.rows@;
        let ghost tbefore = trash_entries(self.trash@);
        let ghost old_trash = self.trash@;
        let i = match find_row(&self.rows, file_id) {
            Some(i) => i,
            None => {
                proof {
                    assert forall|j: int| 0 <= j < before.len() implies (#[trigger] before[j]).0 != file_id@ by {
                        assert(old_rows[j].file_id@ != file_id@);
                    }
                    lemma_map_of_absent(before, file_id@);
                }
                return Err(IndexError::NotFound);
            },
        };
        proof {
            lemma_map_of_index(before, i as int);
        }
        if !rows_check(&self.mac_key, &self.rows, self.rows.len()) {
            return Err(IndexError::Corrupt);
        }
        let row = self.rows.remove(i);
        proof {
            lemma_map_of_remove(before, i as int);
            assert(rows_entries(self.rows@) =~= before.remove(i as int));
            assert forall|j: int| 0 <= j < self.rows@.len() implies (#[trigger] self.rows@[j]).row_mac@
                == row_mac_of(self.mac_key@, row_entry(self.rows@[j])) by {
                if j < i {
                    assert(self.rows@[j] == old_rows[j]);
                } else {
                    assert(self.rows@[j] == old_rows[j + 1]);
                }
            }
        }
        let ghost e = row_entry(row);
        let moved = TrashRow {
            file_id: row.file_id,
            logical_path: row.logical_path,
            encrypted_size: row.encrypted_size,
            deleted_at,
            row_mac: row.row_mac,
        };
        assert(trash_entry(moved) == e);
        let ghost at: int;
        match find_trash(&self.trash, file_id) {
            Some(t) => {
                proof {
                    lemma_map_of_update(tbefore, t as int, e);
                    at = t as int;
                }
                self.trash.set(t, moved);
                assert(trash_entries(self.trash@) =~= tbefore.update(t as int, e));
            },
            None => {
                proof {
                    assert forall|j: int| 0 <= j < tbefore.len() implies (#[trigger] tbefore[j]).0 != e.0 by {
                        assert(old_trash[j].file_id@ != e.0);
                    }
                    lemma_map_of_push(tbefore, e);
                    at = tbefore.len() as int;
                }
                self.trash.push(moved);
                assert(trash_entries(self.trash@) =~= tbefore.push(e));
            },
        }
        proof {
            let ts = trash_entries(self.trash@);
            assert(ts[at].0 == file_id@);
            lemma_map_of_index(ts, at);
            let k = index_of(ts, file_id@);
            assert(ids_of(ts)[at] == ids_of(ts)[k]);
            assert forall|j: int| 0 <= j < self.trash@.len() && trash_valid(self.mac_key@, old_trash) implies (#[trigger] self.trash@[j]).row_mac@
                == row_mac_of(self.mac_key@, trash_entry(self.trash@[j])) by {
                if j != at {
                    assert(self.trash@[j] == old_trash[j]);
                }
            }
        }
        let root = root_of_rows(&self.rows);
        self.merkle_root = Some(root);
        Ok(())
    }

    /// Moves the trash row of `file_id` back to the active rows, replacing any active row
    /// with that id, stores the new Merkle root and returns its metadata. An id not in the
    /// trash is `NotFound`; a trash row, or another active row, that fails MAC
    /// verification is `Corrupt`. Either error changes nothing.
    pub fn restore_from_trash(&mut self, file_id: &FileId) -> (r: Result<FileMetadata, IndexError>)
        requires
            old(self).wf(),
        ensures
            final(self).wf(),
            final(self).mac_key() == old(self).mac_key(),
            final(self).spec_db_key() == old(self).spec_db_key(),
            !old(self).trash_view().contains_key(file_id@) ==> r matches Err(IndexError::NotFound),
            old(self).trash_view().contains_key(file_id@) ==> (r is Ok <==> ({
                let t = old(self).trash_row_with(file_id@);
                &&& t.row_mac@ == row_mac_of(old(self).mac_key(), trash_entry(t))
                &&& others_valid(old(self).mac_key(), old(self).spec_rows(), file_id@)
            })),
            r matches Ok(m) ==> {
                &&& old(self).trash_view()[file_id@] == (m.logical_path@, m.encrypted_size)
                &&& final(self)@ == old(self)@.insert(file_id@, (m.logical_path@, m.encrypted_size))
                &&& final(self).trash_view() == old(self).trash_view().remove(file_id@)
                &&& final(self).rows_authentic()
                &&& final(self).root_matches()
            },
            r is Err ==> final(self).spec_rows() == old(self).spec_rows() && final(self).spec_trash()
                == old(self).spec_trash() && final(self).stored_root() == old(self).stored_root(),
    {
        let ghost tbefore = trash_entries(self.trash@);
        let ghost old_trash = self.trash@;
        let t = match find_trash(&self.trash, file_id) {
            Some(t) => t,
            None => {
                proof {
                    assert forall|j: int| 0 <= j < tbefore.len() implies (#[trigger] tbefore[j]).0 != file_id@ by {
                        assert(old_trash[j].file_id@ != file_id@);
                    }
                    lemma_map_of_absent(tbefore, file_id@);
                }
                return Err(IndexError::NotFound);
            },
        };
        proof {
            lemma_map_of_index(tbefore, t as int);
            let k = index_of(tbefore, file_id@);
            assert(ids_of(tbefore)[t as int] == ids_of(tbefore)[k]);
        }
        let trow = &self.trash[t];
        let expected = compute_row_mac(&self.mac_key, trow.file_id.as_str(), trow.logical_path.as_str(), trow.encrypted_size);
        if !bytes_equal(&expected, &trow.row_mac) {
            return Err(IndexError::Corrupt);
        }
        let ghost before = rows_entries(self.rows@);
        let ghost old_rows = self.rows@;
        let found = find_row(&self.rows, file_id);
        let skip = match found {
            Some(i) => i,
            None => self.rows.len(),
        };
        let ok = rows_check(&self.mac_key, &self.rows, skip);
        proof {
            if let Some(i) = found {
                assert forall|j: int| 0 <= j < old_rows.len() && j != i implies (#[trigger] old_rows[j]).file_id@ != file_id@ by {
                    assert(ids_of(before)[j] != ids_of(before)[i as int]);
                }
            }
        }
        if !ok {
            return Err(IndexError::Corrupt);
        }
        let trow = self.trash.remove(t);
        proof {
            lemma_map_of_remove(tbefore, t as int);
            assert(trash_entries(self.trash@) =~= tbefore.remove(t as int));
        }
        let ghost e = trash_entry(trow);
        let meta = FileMetadata { logical_path: trow.logical_path.clone(), encrypted_size: trow.encrypted_size };
        let stored = IndexRow {
            file_id: trow.file_id,
            logical_path: trow.logical_path,
            encrypted_size: trow.encrypted_size,
            row_mac: trow.row_mac,
        };
        assert(row_entry(stored) == e);
        match found {
            Some(i) => {
                proof {
                    lemma_map_of_update(before, i as int, e);
                }
                self.rows.set(i, stored);
                assert(rows_entries(self.rows@) =~= before.update(i as int, e));
            },
            None => {
                proof {
                    assert forall|j: int| 0 <= j < before.len() implies (#[trigger] before[j]).0 != e.0 by {
                        assert(old_rows[j].file_id@ != e.0);
                    }
                    lemma_map_of_push(before, e);
                }
                self.rows.push(stored);
                assert(rows_entries(self.rows@) =~= before.push(e));
            },
        }
        proof {
            assert forall|j: int| 0 <= j < self.rows@.len() implies (#[trigger] self.rows@[j]).row_mac@
                == row_mac_of(self.mac_key@, row_entry(self.rows@[j])) by {
                if j < old_rows.len() && j != skip {
                    assert(self.rows@[j] == old_rows[j]);
                }
            }
        }
        let root = root_of_rows(&self.rows);
        self.merkle_root = Some(root);
        Ok(meta)
    }

    /// Every trash entry with its deletion time, each row verified; the first row whose
    /// MAC fails gives `Corrupt`.
    pub fn list_trash(&self) -> (r: Result<Vec<(FileId, FileMetadata, i64)>, IndexError>)
        ensures
            r is Ok <==> trash_valid(self.mac_key(), self.spec_trash()),
            r matches Ok(v) ==> v@.len() == self.spec_trash().len() && forall|j: int|
                0 <= j < v@.len() ==> {
                    &&& (#[trigger] v@[j]).0@ == self.spec_trash()[j].file_id@
                    &&& v@[j].1.logical_path@ == self.spec_trash()[j].logical_path@
                    &&& v@[j].1.encrypted_size == self.spec_trash()[j].encrypted_size
                    &&& v@[j].2 == self.spec_trash()[j].deleted_at
                },
            r matches Err(e) ==> e is Corrupt,
    {
        if !trash_check(&self.mac_key, &self.trash) {
            return Err(IndexError::Corrupt);
        }
        let mut out: Vec<(FileId, FileMetadata, i64)> = Vec::new();
        let mut i: usize = 0;
        while i < self.trash.len()
            invariant
                i <= self.trash@.len(),
                out@.len() == i,
                forall|j: int|
                    0 <= j < i ==> {
                        &&& (#[trigger] out@[j]).0@ == self.trash@[j].file_id@
                        &&& out@[j].1.logical_path@ == self.trash@[j].logical_path@
                        &&& out@[j].1.encrypted_size == self.trash@[j].encrypted_size
                        &&& out@[j].2 == self.trash@[j].deleted_at
                    },
            decreases self.trash@.len() - i,
        {
            let t = &self.trash[i];
            out.push((t.file_id.clone(), FileMetadata { logical_path: t.logical_path.clone(), encrypted_size: t.encrypted_size }, t.deleted_at));
            i = i + 1;
        }
        Ok(out)
    }

    /// Deletes the trash row of `file_id`, if any.
    pub fn remove_from_trash(&mut self, file_id: &FileId)
        requires
            old(self).wf(),
        ensures
            final(self).wf(),
            final(self).mac_key() == old(self).mac_key(),
            final(self).spec_db_key() == old(self).spec_db_key(),
            final(self).spec_rows() == old(self).spec_rows(),
            final(self).stored_root() == old(self).stored_root(),
            final(self).trash_view() == old(self).trash_view().remove(file_id@),
            trash_valid(old(self).mac_key(), old(self).spec_trash()) ==> trash_valid(
                final(self).mac_key(),
                final(self).spec_trash(),
            ),
    {
        let ghost tbefore = trash_entries(self.trash@);
        let ghost old_trash = self.trash@;
        match find_trash(&self.trash, file_id) {
            Some(t) => {
                proof {
                    lemma_map_of_remove(tbefore, t as int);
                }
                self.trash.remove(t);
                proof {
                    assert(trash_entries(self.trash@) =~= tbefore.remove(t as int));
                    assert forall|j: int| 0 <= j < self.trash@.len() && trash_valid(self.mac_key@, old_trash) implies (#[trigger] self.trash@[j]).row_mac@
                        == row_mac_of(self.mac_key@, trash_entry(self.trash@[j])) by {
                        if j < t {
                            assert(self.trash@[j] == old_trash[j]);
                        } else {
                            assert(self.trash@[j] == old_trash[j + 1]);
                        }
                    }
                }
            },
            None => {
                proof {
                    assert forall|j: int| 0 <= j < tbefore.len() implies (#[trigger] tbefore[j]).0 != file_id@ by {
                        assert(old_trash[j].file_id@ != file_id@);
                    }
                    lemma_map_of_absent(tbefore, file_id@);
                    assert(map_of(tbefore) =~= map_of(tbefore).remove(file_id@));
                }
            },
        }
    }

    /// Deletes every trash row; returns how many there were.
    pub fn empty_trash(&mut self) -> (r: usize)
        requires
            old(self).wf(),
        ensures
            final(self).wf(),
            r == old(self).spec_trash().len(),
            final(self).mac_key() == old(self).mac_key(),
            final(self).spec_db_key() == old(self).spec_db_key(),
            final(self).spec_rows() == old(self).spec_rows(),
            final(self).stored_root() == old(self).stored_root(),
            final(self).spec_trash().len() == 0,
            final(self).trash_view() == Map::<Seq<char>, (Seq<char>, u64)>::empty(),
    {
        let count = self.trash.len();
        self.trash.clear();
        assert(trash_entries(self.trash@) =~= Seq::<EntryView>::empty());
        assert(self.trash_view() =~= Map::<Seq<char>, (Seq<char>, u64)>::empty());
        count
    }

    /// Rebuilds the Merkle root from the active rows and compares it with the stored
    /// one; with no stored root, the index is intact only when it is empty. A row that
    /// fails MAC verification gives `Corrupt`.
    pub fn verify_integrity(&self) -> (r: Result<bool, IndexError>)
        ensures
            r is Ok <==> self.rows_authentic(),
            r matches Ok(b) ==> b == self.root_matches(),
            self.consistent() ==> r == Ok::<bool, IndexError>(true),
            r matches Err(e) ==> e is Corrupt,
    {
        if !rows_check(&self.mac_key, &self.rows, self.rows.len()) {
            return Err(IndexError::Corrupt);
        }
        match &self.merkle_root {
            Some(stored) => {
                let computed = root_of_rows(&self.rows);
                Ok(bytes_equal(&computed, stored))
            },
            None => Ok(self.rows.len() == 0),
        }
    }
}

} // verus!
