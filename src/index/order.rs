//! Lexicographic byte order on digests, and sorting by it.
use vstd::multiset::Multiset;
use vstd::prelude::*;
use vstd::relations::{sorted_by, total_ordering};

verus! {

/// `a` comes before `b`, or equals it, in lexicographic byte order.
pub open spec fn lex_le(a: Seq<u8>, b: Seq<u8>) -> bool
    decreases a.len(),
{
    if a.len() == 0 {
        true
    } else if b.len() == 0 {
        false
    } else if a[0] != b[0] {
        a[0] < b[0]
    } else {
        lex_le(a.drop_first(), b.drop_first())
    }
}

/// The order as a relation value.
pub open spec fn lex_order() -> spec_fn(Seq<u8>, Seq<u8>) -> bool {
    |a: Seq<u8>, b: Seq<u8>| lex_le(a, b)
}

pub proof fn lemma_lex_reflexive(a: Seq<u8>)
    ensures
        lex_le(a, a),
    decreases a.len(),
{
    if a.len() > 0 {
        lemma_lex_reflexive(a.drop_first());
    }
}

pub proof fn lemma_lex_antisymmetric(a: Seq<u8>, b: Seq<u8>)
    requires
        lex_le(a, b),
        lex_le(b, a),
    ensures
        a == b,
    decreases a.len(),
{
    if a.len() > 0 && b.len() > 0 {
        lemma_lex_antisymmetric(a.drop_first(), b.drop_first());
        assert(a =~= seq![a[0]] + a.drop_first());
        assert(b =~= seq![b[0]] + b.drop_first());
    } else {
        assert(a =~= b);
    }
}

pub proof fn lemma_lex_transitive(a: Seq<u8>, b: Seq<u8>, c: Seq<u8>)
    requires
        lex_le(a, b),
        lex_le(b, c),
    ensures
        lex_le(a, c),
    decreases a.len(),
{
    if a.len() > 0 && b.len() > 0 && c.len() > 0 {
        if a[0] == b[0] && b[0] == c[0] {
            lemma_lex_transitive(a.drop_first(), b.drop_first(), c.drop_first());
        }
    }
}

pub proof fn lemma_lex_connected(a: Seq<u8>, b: Seq<u8>)
    ensures
        lex_le(a, b) || lex_le(b, a),
    decreases a.len(),
{
    if a.len() > 0 && b.len() > 0 && a[0] == b[0] {
        lemma_lex_connected(a.drop_first(), b.drop_first());
    }
}

/// Lexicographic order is a total order.
pub proof fn lemma_lex_total()
    ensures
        total_ordering(lex_order()),
{
    assert forall|a: Seq<u8>| #[trigger] lex_order()(a, a) by {
        lemma_lex_reflexive(a);
    }
    assert forall|a: Seq<u8>, b: Seq<u8>|
        #[trigger] lex_order()(a, b) && #[trigger] lex_order()(b, a) implies a == b by {
        lemma_lex_antisymmetric(a, b);
    }
    assert forall|a: Seq<u8>, b: Seq<u8>, c: Seq<u8>|
        #[trigger] lex_order()(a, b) && #[trigger] lex_order()(b, c) implies lex_order()(a, c) by {
        lemma_lex_transitive(a, b, c);
    }
    assert forall|a: Seq<u8>, b: Seq<u8>|
        #[trigger] lex_order()(a, b) || #[trigger] lex_order()(b, a) by {
        lemma_lex_connected(a, b);
    }
}

/// The views of a sequence of digests.
pub open spec fn digest_views(s: Seq<[u8; 32]>) -> Seq<Seq<u8>> {
    s.map_values(|h: [u8; 32]| h@)
}

/// Compares two digests in lexicographic byte order.
pub fn digest_le(a: &[u8; 32], b: &[u8; 32]) -> (r: bool)
    ensures
        r == lex_le(a@, b@),
{
    let mut i: usize = 0;
    assert(a@.subrange(0, 32) =~= a@);
    assert(b@.subrange(0, 32) =~= b@);
    while i < 32
        invariant
            i <= 32,
            a@.len() == 32,
            b@.len() == 32,
            lex_le(a@, b@) == lex_le(a@.subrange(i as int, 32), b@.subrange(i as int, 32)),
        decreases 32 - i,
    {
        let ghost sa = a@.subrange(i as int, 32);
        let ghost sb = b@.subrange(i as int, 32);
        assert(sa.drop_first() =~= a@.subrange(i + 1, 32));
        assert(sb.drop_first() =~= b@.subrange(i + 1, 32));
        if a[i] != b[i] {
            return a[i] < b[i];
        }
        i = i + 1;
    }
    true
}

/// Compares two byte strings in lexicographic order.
pub fn bytes_le(a: &[u8], b: &[u8]) -> (r: bool)
    ensures
        r == lex_le(a@, b@),
{
    let mut i: usize = 0;
    assert(a@.subrange(0, a@.len() as int) =~= a@);
    assert(b@.subrange(0, b@.len() as int) =~= b@);
    while i < a.len() && i < b.len()
        invariant
            i <= a@.len(),
            i <= b@.len(),
            lex_le(a@, b@) == lex_le(a@.subrange(i as int, a@.len() as int), b@.subrange(i as int, b@.len() as int)),
        decreases a@.len() - i,
    {
        let ghost sa = a@.subrange(i as int, a@.len() as int);
        let ghost sb = b@.subrange(i as int, b@.len() as int);
        assert(sa.drop_first() =~= a@.subrange(i + 1, a@.len() as int));
        assert(sb.drop_first() =~= b@.subrange(i + 1, b@.len() as int));
        if a[i] != b[i] {
            return a[i] < b[i];
        }
        i = i + 1;
    }
    i == a.len()
}

/// Inserting an element adds it to the multiset.
pub proof fn lemma_insert_multiset<A>(s: Seq<A>, i: int, x: A)
    requires
        0 <= i <= s.len(),
    ensures
        s.insert(i, x).to_multiset() =~= s.to_multiset().insert(x),
{
    broadcast use vstd::seq_lib::group_to_multiset_ensures;

    let t = s.insert(i, x);
    assert(t.remove(i) =~= s);
    assert(t[i] == x);
    assert(t.to_multiset().count(x) > 0);
}

/// Sorts digests in lexicographic byte order; the result holds the same digests.
pub fn sort_digests(hashes: &Vec<[u8; 32]>) -> (r: Vec<[u8; 32]>)
    ensures
        sorted_by(digest_views(r@), lex_order()),
        digest_views(r@).to_multiset() == digest_views(hashes@).to_multiset(),
{
    proof {
        lemma_lex_total();
    }
    let mut sorted: Vec<[u8; 32]> = Vec::new();
    let mut k: usize = 0;
    assert(digest_views(sorted@) =~= digest_views(hashes@.subrange(0, 0)));
    while k < hashes.len()
        invariant
            k <= hashes@.len(),
            total_ordering(lex_order()),
            sorted_by(digest_views(sorted@), lex_order()),
            digest_views(sorted@).to_multiset() == digest_views(hashes@.subrange(0, k as int)).to_multiset(),
        decreases hashes@.len() - k,
    {
        let x = hashes[k];
        let mut pos: usize = 0;
        while pos < sorted.len() && digest_le(&sorted[pos], &x)
            invariant
                pos <= sorted@.len(),
                forall|j: int| 0 <= j < pos ==> lex_le(#[trigger] sorted@[j]@, x@),
            decreases sorted@.len() - pos,
        {
            pos = pos + 1;
        }
        let ghost old_views = digest_views(sorted@);
        sorted.insert(pos, x);
        proof {
            assert(digest_views(sorted@) =~= old_views.insert(pos as int, x@));
            lemma_insert_multiset(old_views, pos as int, x@);
            assert(hashes@.subrange(0, k + 1) =~= hashes@.subrange(0, k as int).push(x));
            assert(digest_views(hashes@.subrange(0, k + 1)) =~= digest_views(
                hashes@.subrange(0, k as int),
            ).push(x@));
            vstd::seq_lib::lemma_multiset_commutative(
                digest_views(hashes@.subrange(0, k as int)),
                seq![x@],
            );
            assert(digest_views(hashes@.subrange(0, k as int)).push(x@) =~= digest_views(
                hashes@.subrange(0, k as int),
            ) + seq![x@]);
            assert(seq![x@].to_multiset() =~= Multiset::empty().insert(x@)) by {
                broadcast use vstd::seq_lib::group_to_multiset_ensures;

                assert(seq![x@] =~= Seq::<Seq<u8>>::empty().push(x@));
            }
            let v = digest_views(sorted@);
            assert forall|a: int, b: int| 0 <= a < b < v.len() implies #[trigger] lex_order()(
                v[a],
                v[b],
            ) by {
                if pos < old_views.len() {
                    assert(!lex_order()(old_views[pos as int], x@));
                    assert(lex_order()(x@, old_views[pos as int]));
                }
                if b < pos {
                    assert(lex_order()(old_views[a], old_views[b]));
                } else if b == pos {
                    assert(lex_le(old_views[a], x@));
                } else if a < pos {
                    assert(lex_le(old_views[a], x@));
                    assert(lex_order()(old_views[a], old_views[b - 1]));
                } else if a == pos {
                    assert(lex_order()(x@, old_views[pos as int]));
                    if b - 1 > pos {
                        assert(lex_order()(old_views[pos as int], old_views[b - 1]));
                    }
                } else {
                    assert(lex_order()(old_views[a - 1], old_views[b - 1]));
                }
            }
        }
        k = k + 1;
    }
    assert(hashes@.subrange(0, hashes@.len() as int) =~= hashes@);
    sorted
}

} // verus!
