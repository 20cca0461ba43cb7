//! Reconciling the index with the objects of the remote store.
use crate::api::StorjFileInfo;
use crate::index::{entries_view, EntryView, FileId, FileMetadata};
use crate::primitives::{lowercase_of, to_lowercase};
use vstd::prelude::*;

verus! {

/// `s` without its `-` characters.
pub open spec fn without_dashes(s: Seq<char>) -> Seq<char> {
    s.filter(|c: char| c != '-')
}

/// The file id that an object key names: dashes dropped, lowercased.
pub open spec fn key_file_id(key: Seq<char>) -> Seq<char> {
    lowercase_of(without_dashes(key))
}

/// Local entries whose id names no remote object: they may be removed from the index.
pub open spec fn orphan_ids(local: Seq<EntryView>, remote_ids: Seq<Seq<char>>) -> Seq<Seq<char>> {
    local.filter(|e: EntryView| !remote_ids.contains(e.0)).map_values(|e: EntryView| e.0)
}

fn remove_dashes(s: &str) -> (r: String)
    ensures
        r@ == without_dashes(s@),
{
    let n = s.unicode_len();
    let mut out = String::new();
    let mut i: usize = 0;
    assert(s@.subrange(0, 0) =~= Seq::<char>::empty());
    while i < n
        invariant
            n == s@.len(),
            i <= n,
            out@ == without_dashes(s@.subrange(0, i as int)),
        decreases n - i,
    {
        let ghost prefix = s@.subrange(0, i as int);
        proof {
            reveal(Seq::filter);
            assert(s@.subrange(0, i + 1).drop_last() =~= prefix);
            assert(s@.subrange(0, i + 1).last() == s@[i as int]);
        }
        if s.get_char(i) != '-' {
            out.append(s.substring_char(i, i + 1));
            assert(out@ =~= without_dashes(prefix).push(s@[i as int]));
        }
        i = i + 1;
    }
    assert(s@.subrange(0, n as int) =~= s@);
    out
}

/// The ids whose remote delete succeeded, in order: `deleted[i]` reports the delete of
/// the object of `ids[i]`.
pub open spec fn deleted_ids(ids: Seq<Seq<char>>, deleted: Seq<bool>) -> Seq<Seq<char>>
    decreases ids.len(),
{
    if ids.len() == 0 || deleted.len() != ids.len() {
        Seq::empty()
    } else {
        let rest = deleted_ids(ids.drop_last(), deleted.drop_last());
        if deleted.last() {
            rest.push(ids.last())
        } else {
            rest
        }
    }
}

/// The trash entries to drop after the remote deletes of emptying the trash: those whose
/// object is gone, in trash order. An entry whose delete failed stays in the trash.
pub fn purged_ids(items: &Vec<(FileId, FileMetadata, i64)>, deleted: &Vec<bool>) -> (r: Vec<FileId>)
    requires
        deleted@.len() == items@.len(),
    ensures
        r@.map_values(|id: FileId| id@) == deleted_ids(
            items@.map_values(|t: (FileId, FileMetadata, i64)| t.0@),
            deleted@,
        ),
{
    let ghost ids = items@.map_values(|t: (FileId, FileMetadata, i64)| t.0@);
    let mut out: Vec<FileId> = Vec::new();
    let mut i: usize = 0;
    assert(out@.map_values(|id: FileId| id@) =~= deleted_ids(ids.subrange(0, 0), deleted@.subrange(0, 0)));
    while i < items.len()
        invariant
            i <= items@.len(),
            deleted@.len() == items@.len(),
            ids == items@.map_values(|t: (FileId, FileMetadata, i64)| t.0@),
            out@.map_values(|id: FileId| id@) == deleted_ids(ids.subrange(0, i as int), deleted@.subrange(0, i as int)),
        decreases items@.len() - i,
    {
        let ghost a = ids.subrange(0, i + 1);
        let ghost b = deleted@.subrange(0, i + 1);
        assert(a.drop_last() =~= ids.subrange(0, i as int));
        assert(b.drop_last() =~= deleted@.subrange(0, i as int));
        assert(a.last() == items@[i as int].0@);
        let ghost before = out@;
        if deleted[i] {
            out.push(items[i].0.clone());
            assert(out@.map_values(|id: FileId| id@) =~= before.map_values(|id: FileId| id@).push(items@[i as int].0@));
        }
        i = i + 1;
    }
    assert(ids.subrange(0, items@.len() as int) =~= ids);
    assert(deleted@.subrange(0, items@.len() as int) =~= deleted@);
    out
}

/// Reconciliation once the remote keys are mapped to file ids: the ids of the local
/// entries that no remote object names, in index order, and for each remote key, in
/// order, the metadata of the local entry that it names, if any.
pub fn reconcile_ids(
    local: &Vec<(FileId, FileMetadata)>,
    remote_keys: &Vec<String>,
    remote_ids: &Vec<String>,
) -> (r: (Vec<FileId>, Vec<StorjFileInfo>))
    requires
        remote_ids@.len() == remote_keys@.len(),
    ensures
        r.0@.map_values(|id: FileId| id@) == orphan_ids(
            entries_view(local@),
            remote_ids@.map_values(|k: String| k@),
        ),
        r.1@.len() == remote_keys@.len(),
        forall|j: int|
            0 <= j < remote_keys@.len() ==> {
                let info = #[trigger] r.1@[j];
                &&& info.uuid@ == remote_keys@[j]@
                &&& (info.logical_path is Some <==> exists|i: int|
                    0 <= i < local@.len() && local@[i].0@ == remote_ids@[j]@)
                &&& info.logical_path is Some ==> exists|i: int|
                    0 <= i < local@.len() && local@[i].0@ == remote_ids@[j]@ && local@[i].1.logical_path@
                        == info.logical_path->Some_0@ && info.encrypted_size == Some(
                        local@[i].1.encrypted_size,
                    )
                &&& info.logical_path is None ==> info.encrypted_size is None
            },
{
    let ghost ids = remote_ids@.map_values(|k: String| k@);
    let mut orphans: Vec<FileId> = Vec::new();
    let mut i: usize = 0;
    assert(entries_view(local@.subrange(0, 0)) =~= Seq::<EntryView>::empty());
    while i < local.len()
        invariant
            i <= local@.len(),
            ids == remote_ids@.map_values(|k: String| k@),
            orphans@.map_values(|id: FileId| id@) == entries_view(local@.subrange(0, i as int)).filter(
                |e: EntryView| !ids.contains(e.0),
            ).map_values(|e: EntryView| e.0),
        decreases local@.len() - i,
    {
        let id = &local[i].0;
        let mut found = false;
        let mut k: usize = 0;
        while k < remote_ids.len()
            invariant
                k <= remote_ids@.len(),
                ids == remote_ids@.map_values(|k: String| k@),
                found == exists|m: int| 0 <= m < k && ids[m] == id@,
            decreases remote_ids@.len() - k,
        {
            if remote_ids[k] == *id {
                assert(ids[k as int] == id@);
                found = true;
            }
            k = k + 1;
        }
        let ghost prefix = entries_view(local@.subrange(0, i as int));
        let ghost ev = (id@, local@[i as int].1.logical_path@, local@[i as int].1.encrypted_size);
        proof {
            reveal(Seq::filter);
            assert(local@.subrange(0, i + 1) =~= local@.subrange(0, i as int).push(local@[i as int]));
            assert(entries_view(local@.subrange(0, i + 1)) =~= prefix.push(ev));
            assert(prefix.push(ev).drop_last() =~= prefix);
            if found {
                let m = choose|m: int| 0 <= m < remote_ids@.len() && ids[m] == id@;
                assert(ids.contains(id@));
            } else {
                assert(!ids.contains(id@)) by {
                    if ids.contains(id@) {
                        let m = choose|m: int| 0 <= m < ids.len() && ids[m] == id@;
                    }
                }
            }
        }
        if !found {
            let ghost before = orphans@;
            orphans.push(id.clone());
            assert(orphans@.map_values(|id: FileId| id@) =~= before.map_values(|id: FileId| id@).push(id@));
            assert(prefix.push(ev).filter(|e: EntryView| !ids.contains(e.0)) =~= prefix.filter(|e: EntryView| !ids.contains(e.0)).push(ev));
            assert(prefix.filter(|e: EntryView| !ids.contains(e.0)).push(ev).map_values(|e: EntryView| e.0)
                =~= prefix.filter(|e: EntryView| !ids.contains(e.0)).map_values(|e: EntryView| e.0).push(id@));
        } else {
            assert(prefix.push(ev).filter(|e: EntryView| !ids.contains(e.0)) =~= prefix.filter(|e: EntryView| !ids.contains(e.0)));
        }
        i = i + 1;
    }
    assert(local@.subrange(0, local@.len() as int) =~= local@);
    let mut listing: Vec<StorjFileInfo> = Vec::new();
    let mut j: usize = 0;
    while j < remote_keys.len()
        invariant
            j <= remote_keys@.len(),
            remote_ids@.len() == remote_keys@.len(),
            listing@.len() == j,
            forall|q: int|
                0 <= q < j ==> {
                    let info = #[trigger] listing@[q];
                    &&& info.uuid@ == remote_keys@[q]@
                    &&& (info.logical_path is Some <==> exists|i: int|
                        0 <= i < local@.len() && local@[i].0@ == remote_ids@[q]@)
                    &&& info.logical_path is Some ==> exists|i: int|
                        0 <= i < local@.len() && local@[i].0@ == remote_ids@[q]@ && local@[i].1.logical_path@
                            == info.logical_path->Some_0@ && info.encrypted_size == Some(
                            local@[i].1.encrypted_size,
                        )
                    &&& info.logical_path is None ==> info.encrypted_size is None
                },
        decreases remote_keys@.len() - j,
    {
        let mut m: usize = 0;
        let mut hit: Option<usize> = None;
        while m < local.len() && hit.is_none()
            invariant
                m <= local@.len(),
                j < remote_ids@.len(),
                hit matches Some(h) ==> h < local@.len() && local@[h as int].0@ == remote_ids@[j as int]@,
                hit is None ==> forall|i: int| 0 <= i < m ==> local@[i].0@ != remote_ids@[j as int]@,
            decreases local@.len() - m,
        {
            if local[m].0 == remote_ids[j] {
                hit = Some(m);
            }
            m = m + 1;
        }
        let info = match hit {
            Some(h) => StorjFileInfo {
                uuid: remote_keys[j].clone(),
                logical_path: Some(local[h].1.logical_path.clone()),
                encrypted_size: Some(local[h].1.encrypted_size),
            },
            None => StorjFileInfo { uuid: remote_keys[j].clone(), logical_path: None, encrypted_size: None },
        };
        listing.push(info);
        j = j + 1;
    }
    (orphans, listing)
}

/// Reconciles the index with the keys of the remote objects: see `reconcile_ids`, with
/// each key's file id taken as its characters without dashes, lowercased.
pub fn reconcile_listing(local: &Vec<(FileId, FileMetadata)>, remote_keys: &Vec<String>) -> (r: (
    Vec<FileId>,
    Vec<StorjFileInfo>,
))
    ensures
        r.1@.len() == remote_keys@.len(),
        forall|j: int|
            0 <= j < remote_keys@.len() ==> {
                let info = #[trigger] r.1@[j];
                let id = key_file_id(remote_keys@[j]@);
                &&& info.uuid@ == remote_keys@[j]@
                &&& (info.logical_path is Some <==> exists|i: int|
                    0 <= i < local@.len() && local@[i].0@ == id)
                &&& info.logical_path is Some ==> exists|i: int|
                    0 <= i < local@.len() && local@[i].0@ == id && local@[i].1.logical_path@
                        == info.logical_path->Some_0@ && info.encrypted_size == Some(
                        local@[i].1.encrypted_size,
                    )
                &&& info.logical_path is None ==> info.encrypted_size is None
            },
        r.0@.map_values(|id: FileId| id@) == orphan_ids(
            entries_view(local@),
            remote_keys@.map_values(|k: String| key_file_id(k@)),
        ),
{
    let mut ids: Vec<String> = Vec::new();
    let mut j: usize = 0;
    while j < remote_keys.len()
        invariant
            j <= remote_keys@.len(),
            ids@.len() == j,
            forall|q: int| 0 <= q < j ==> (#[trigger] ids@[q])@ == key_file_id(remote_keys@[q]@),
        decreases remote_keys@.len() - j,
    {
        let plain = remove_dashes(remote_keys[j].as_str());
        ids.push(to_lowercase(plain.as_str()));
        j = j + 1;
    }
    assert(ids@.map_values(|k: String| k@) =~= remote_keys@.map_values(|k: String| key_file_id(k@)));
    reconcile_ids(local, remote_keys, &ids)
}

} // verus!
