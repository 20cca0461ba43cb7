//! Merkle root over the active index entries.
//!
//! Leaves are `SHA-256("aether-drive:merkle:entry:" || id || ":" || path || ":" || size_le64)`,
//! sorted in lexicographic byte order; a node is
//! `SHA-256("aether-drive:merkle:node:" || left || right)`, where a level of `n` children
//! splits at `n / 2`; the empty tree is `SHA-256("aether-drive:merkle:empty")`.
use super::order::{digest_views, lemma_lex_total, lex_order, sort_digests};
use super::{copy_entry, entries_view, entry_view, EntryView, FileId, FileMetadata};
use crate::bytes::{append_bytes, bytes_equal};
use crate::primitives::{sha256, sha256_of};
use vstd::bytes::{spec_u64_to_le_bytes, u64_to_le_bytes};
use vstd::prelude::*;
use vstd::utf8::encode_utf8;

verus! {

/// What a leaf hashes.
pub open spec fn leaf_input(e: EntryView) -> Seq<u8> {
    encode_utf8("aether-drive:merkle:entry:"@) + encode_utf8(e.0) + encode_utf8(":"@)
        + encode_utf8(e.1) + encode_utf8(":"@) + spec_u64_to_le_bytes(e.2)
}

pub open spec fn leaf_hash(e: EntryView) -> Seq<u8> {
    sha256_of(leaf_input(e))
}

pub open spec fn node_hash(left: Seq<u8>, right: Seq<u8>) -> Seq<u8> {
    sha256_of(encode_utf8("aether-drive:merkle:node:"@) + left + right)
}

pub open spec fn empty_root() -> Seq<u8> {
    sha256_of(encode_utf8("aether-drive:merkle:empty"@))
}

/// The hash of the tree over a non-empty sequence of leaves, split at `n / 2`.
pub open spec fn tree_hash(leaves: Seq<Seq<u8>>) -> Seq<u8>
    decreases leaves.len(),
{
    if leaves.len() <= 1 {
        leaves[0]
    } else {
        let mid = leaves.len() / 2;
        node_hash(
            tree_hash(leaves.subrange(0, mid as int)),
            tree_hash(leaves.subrange(mid as int, leaves.len() as int)),
        )
    }
}

/// The root over a collection of leaves, taken in lexicographic order.
pub open spec fn root_of_leaves(leaves: Seq<Seq<u8>>) -> Seq<u8> {
    if leaves.len() == 0 {
        empty_root()
    } else {
        tree_hash(leaves.sort_by(lex_order()))
    }
}

/// The Merkle root of a sequence of index entries.
pub open spec fn merkle_root(entries: Seq<EntryView>) -> Seq<u8> {
    root_of_leaves(entries.map_values(|e: EntryView| leaf_hash(e)))
}

/// The root depends only on which leaves there are, not on their order.
pub proof fn lemma_root_of_leaves_order_independent(a: Seq<Seq<u8>>, b: Seq<Seq<u8>>)
    requires
        a.to_multiset() == b.to_multiset(),
    ensures
        root_of_leaves(a) == root_of_leaves(b),
{
    broadcast use vstd::seq_lib::group_to_multiset_ensures;

    lemma_lex_total();
    a.lemma_sort_by_ensures(lex_order());
    b.lemma_sort_by_ensures(lex_order());
    vstd::seq_lib::lemma_sorted_unique(a.sort_by(lex_order()), b.sort_by(lex_order()), lex_order());
    assert(a.len() == a.to_multiset().len());
    assert(b.len() == b.to_multiset().len());
}

proof fn lemma_map_multiset<A, B>(a: Seq<A>, b: Seq<A>, f: spec_fn(A) -> B)
    requires
        a.to_multiset() == b.to_multiset(),
    ensures
        a.map_values(f).to_multiset() == b.map_values(f).to_multiset(),
    decreases a.len(),
{
    broadcast use vstd::seq_lib::group_to_multiset_ensures;
    broadcast use vstd::multiset::group_multiset_axioms;

    if a.len() == 0 {
        assert(b.len() == b.to_multiset().len());
        assert(a.map_values(f) =~= b.map_values(f));
    } else {
        let x = a.last();
        assert(a.to_multiset().count(x) > 0);
        assert(b.contains(x));
        let i = choose|i: int| 0 <= i < b.len() && b[i] == x;
        let a1 = a.drop_last();
        let b1 = b.remove(i);
        assert(a1.push(x) =~= a);
        assert(a1.to_multiset() =~= b1.to_multiset());
        lemma_map_multiset(a1, b1, f);
        assert(a.map_values(f) =~= a1.map_values(f).push(f(x)));
        assert(b.map_values(f).remove(i) =~= b1.map_values(f));
        assert(b.map_values(f)[i] == f(x));
        assert(a.map_values(f).to_multiset() =~= a1.map_values(f).to_multiset().insert(f(x)));
        assert(b1.map_values(f).to_multiset() =~= b.map_values(f).to_multiset().remove(f(x)));
        assert(b.map_values(f).to_multiset().count(f(x)) > 0);
    }
}

/// The Merkle root is independent of insertion order: two sequences holding the same
/// entries, in any order, have the same root.
pub proof fn lemma_root_independent_of_order(a: Seq<EntryView>, b: Seq<EntryView>)
    requires
        a.to_multiset() == b.to_multiset(),
    ensures
        merkle_root(a) == merkle_root(b),
{
    lemma_map_multiset(a, b, |e: EntryView| leaf_hash(e));
    lemma_root_of_leaves_order_independent(
        a.map_values(|e: EntryView| leaf_hash(e)),
        b.map_values(|e: EntryView| leaf_hash(e)),
    );
}

/// A node of the tree; only its hash is kept.
#[derive(Debug, Clone, Copy)]
pub struct MerkleNode {
    hash: [u8; 32],
}

impl MerkleNode {
    pub fn hash(&self) -> (r: &[u8; 32])
        ensures
            r@ == self.spec_hash(),
    {
        &self.hash
    }

    pub closed spec fn spec_hash(&self) -> Seq<u8> {
        self.hash@
    }
}

/// The root of the tree over a set of entries, with the entries it was built from.
pub struct MerkleTree {
    root: MerkleNode,
    entries: Vec<(FileId, FileMetadata)>,
}

fn hash_entry(id: &FileId, meta: &FileMetadata) -> (r: [u8; 32])
    ensures
        r@ == leaf_hash((id@, meta.logical_path@, meta.encrypted_size)),
{
    let mut input: Vec<u8> = Vec::new();
    append_bytes(&mut input, "aether-drive:merkle:entry:".as_bytes());
    append_bytes(&mut input, id.as_str().as_bytes());
    append_bytes(&mut input, ":".as_bytes());
    append_bytes(&mut input, meta.logical_path.as_str().as_bytes());
    append_bytes(&mut input, ":".as_bytes());
    let size = u64_to_le_bytes(meta.encrypted_size);
    append_bytes(&mut input, size.as_slice());
    assert(input@ =~= leaf_input((id@, meta.logical_path@, meta.encrypted_size)));
    sha256(input.as_slice())
}

fn hash_node(left: &[u8; 32], right: &[u8; 32]) -> (r: [u8; 32])
    ensures
        r@ == node_hash(left@, right@),
{
    let mut input: Vec<u8> = Vec::new();
    append_bytes(&mut input, "aether-drive:merkle:node:".as_bytes());
    append_bytes(&mut input, left);
    append_bytes(&mut input, right);
    sha256(input.as_slice())
}

fn build_tree(hashes: &Vec<[u8; 32]>, lo: usize, hi: usize) -> (r: [u8; 32])
    requires
        lo < hi <= hashes@.len(),
    ensures
        r@ == tree_hash(digest_views(hashes@.subrange(lo as int, hi as int))),
    decreases hi - lo,
{
    let ghost leaves = digest_views(hashes@.subrange(lo as int, hi as int));
    if hi - lo == 1 {
        return hashes[lo];
    }
    let mid = lo + (hi - lo) / 2;
    let left = build_tree(hashes, lo, mid);
    let right = build_tree(hashes, mid, hi);
    assert(leaves.subrange(0, (hi - lo) / 2) =~= digest_views(hashes@.subrange(lo as int, mid as int)));
    assert(leaves.subrange((hi - lo) / 2, leaves.len() as int) =~= digest_views(
        hashes@.subrange(mid as int, hi as int),
    ));
    hash_node(&left, &right)
}

impl MerkleTree {
    /// Builds the tree over `entries`: one leaf per entry, leaves sorted, then hashed
    /// pairwise up to the root.
    pub fn build(entries: &Vec<(FileId, FileMetadata)>) -> (r: Self)
        ensures
            r.spec_root() == merkle_root(entries_view(entries@)),
            r.spec_entries() == entries_view(entries@),
    {
        let mut leaves: Vec<[u8; 32]> = Vec::new();
        let mut copy: Vec<(FileId, FileMetadata)> = Vec::new();
        let mut i: usize = 0;
        while i < entries.len()
            invariant
                i <= entries@.len(),
                digest_views(leaves@) == entries_view(entries@.subrange(0, i as int)).map_values(
                    |e: EntryView| leaf_hash(e),
                ),
                entries_view(copy@) == entries_view(entries@.subrange(0, i as int)),
            decreases entries@.len() - i,
        {
            let ghost old_leaves = leaves@;
            let ghost old_copy = copy@;
            let e = &entries[i];
            let h = hash_entry(&e.0, &e.1);
            leaves.push(h);
            copy.push(copy_entry(e));
            proof {
                let prefix = entries@.subrange(0, i as int);
                assert(entries@.subrange(0, i + 1) =~= prefix.push(*e));
                assert(entries_view(prefix.push(*e)) =~= entries_view(prefix).push(entry_view(*e)));
                assert(digest_views(leaves@) =~= digest_views(old_leaves).push(h@));
                assert(entries_view(prefix).push(entry_view(*e)).map_values(|x: EntryView| leaf_hash(x))
                    =~= entries_view(prefix).map_values(|x: EntryView| leaf_hash(x)).push(leaf_hash(entry_view(*e))));
                assert(entries_view(copy@) =~= entries_view(old_copy).push(entry_view(*e)));
            }
            i = i + 1;
        }
        assert(entries@.subrange(0, entries@.len() as int) =~= entries@);
        let ghost all_leaves = entries_view(entries@).map_values(|e: EntryView| leaf_hash(e));
        if leaves.len() == 0 {
            let mut input: Vec<u8> = Vec::new();
            append_bytes(&mut input, "aether-drive:merkle:empty".as_bytes());
            let hash = sha256(input.as_slice());
            return MerkleTree { root: MerkleNode { hash }, entries: copy };
        }
        let sorted = sort_digests(&leaves);
        proof {
            broadcast use vstd::seq_lib::group_to_multiset_ensures;

            lemma_lex_total();
            all_leaves.lemma_sort_by_ensures(lex_order());
            vstd::seq_lib::lemma_sorted_unique(
                digest_views(sorted@),
                all_leaves.sort_by(lex_order()),
                lex_order(),
            );
            assert(digest_views(sorted@).len() == digest_views(sorted@).to_multiset().len());
            assert(digest_views(leaves@).len() == digest_views(leaves@).to_multiset().len());
            assert(sorted@.subrange(0, sorted@.len() as int) =~= sorted@);
        }
        let hash = build_tree(&sorted, 0, sorted.len());
        MerkleTree { root: MerkleNode { hash }, entries: copy }
    }

    pub closed spec fn spec_root(&self) -> Seq<u8> {
        self.root.spec_hash()
    }

    pub closed spec fn spec_entries(&self) -> Seq<EntryView> {
        entries_view(self.entries@)
    }

    pub fn root_hash(&self) -> (r: &[u8; 32])
        ensures
            r@ == self.spec_root(),
    {
        self.root.hash()
    }

    /// Whether `expected_root_hash` is this tree's root.
    pub fn verify(&self, expected_root_hash: &[u8; 32]) -> (r: bool)
        ensures
            r == (self.spec_root() == expected_root_hash@),
    {
        bytes_equal(self.root.hash(), expected_root_hash)
    }

    pub fn entries(&self) -> (r: &Vec<(FileId, FileMetadata)>)
        ensures
            entries_view(r@) == self.spec_entries(),
    {
        &self.entries
    }
}

} // verus!
