//! Folder navigation over the flat index: empty folders are entries whose path ends in
//! `/` or whose size is 0; other folders are the first components below a parent.
use crate::api::{DirectoryEntry, FileEntry, FolderInfo};
use crate::index::{entries_view, EntryView, FileId, FileMetadata};
use crate::paths::{
    get_name_from_path, get_parent_path, is_prefix, name_of, normalize_path, normalized, parent_of,
    slash, trim_slashes, trim_trailing_slashes, under,
};
use vstd::prelude::*;

verus! {

pub open spec fn ends_with_slash(s: Seq<char>) -> bool {
    s.len() > 0 && s.last() == '/'
}

/// An entry that stands for an empty folder.
pub open spec fn is_folder_entry(e: EntryView) -> bool {
    ends_with_slash(e.1) || e.2 == 0
}

/// The folder that contains an empty-folder entry.
pub open spec fn folder_parent(path: Seq<char>) -> Seq<char> {
    let c = trim_trailing_slashes(path);
    if c.len() == 0 {
        seq!['/']
    } else {
        parent_of(c)
    }
}

/// The path under which an empty folder is listed: its own, ending in `/`.
pub open spec fn folder_key(path: Seq<char>) -> Seq<char> {
    if ends_with_slash(path) {
        path
    } else {
        path + seq!['/']
    }
}

pub open spec fn trim_leading_slashes(s: Seq<char>) -> Seq<char>
    decreases s.len(),
{
    if s.len() > 0 && s[0] == '/' {
        trim_leading_slashes(s.drop_first())
    } else {
        s
    }
}

/// The position of the first `/` of `s`, or -1.
pub open spec fn first_slash(s: Seq<char>) -> int
    decreases s.len(),
{
    if s.len() == 0 {
        -1
    } else if s[0] == '/' {
        0
    } else if first_slash(s.drop_first()) == -1 {
        -1
    } else {
        first_slash(s.drop_first()) + 1
    }
}

/// `s` without the prefix `p`, when it has it.
pub open spec fn strip_prefix(p: Seq<char>, s: Seq<char>) -> Seq<char> {
    if p.len() <= s.len() && s.subrange(0, p.len() as int) == p {
        s.subrange(p.len() as int, s.len() as int)
    } else {
        s
    }
}

/// The path of a file relative to the listed folder `pn` (already normalized).
pub open spec fn relative_path(pn: Seq<char>, file_path: Seq<char>) -> Seq<char> {
    if pn == seq!['/'] {
        trim_leading_slashes(file_path)
    } else {
        trim_leading_slashes(strip_prefix(pn, file_path))
    }
}

/// A file entry that lies directly in the listed folder `pn`.
pub open spec fn file_shown(pn: Seq<char>, e: EntryView) -> bool {
    let fp = normalized(e.1);
    let r = relative_path(pn, fp);
    &&& !is_folder_entry(e)
    &&& under(pn, fp)
    &&& r.len() > 0
    &&& first_slash(r) == -1
}

/// The folder path that an entry contributes to the listing of `pn`, if any: an empty
/// folder whose parent is `pn`, or the first component below `pn` of a deeper file.
pub open spec fn folder_candidate(pn: Seq<char>, e: EntryView) -> Option<Seq<char>> {
    if is_folder_entry(e) {
        if normalized(folder_parent(e.1)) == normalized(pn) && name_of(e.1).len() > 0 {
            Some(folder_key(e.1))
        } else {
            None
        }
    } else {
        let fp = normalized(e.1);
        let r = relative_path(pn, fp);
        if under(pn, fp) && r.len() > 0 && first_slash(r) > 0 {
            let first = r.subrange(0, first_slash(r));
            if pn == seq!['/'] {
                Some(seq!['/'] + first)
            } else {
                Some(pn + seq!['/'] + first)
            }
        } else {
            None
        }
    }
}

proof fn lemma_first_slash_bounds(s: Seq<char>)
    ensures
        -1 <= first_slash(s) < s.len(),
        first_slash(s) >= 0 ==> s[first_slash(s)] == '/',
        forall|j: int| 0 <= j < s.len() && (first_slash(s) == -1 || j < first_slash(s)) ==> s[j] != '/',
    decreases s.len(),
{
    if s.len() > 0 && s[0] != '/' {
        lemma_first_slash_bounds(s.drop_first());
        assert forall|j: int| 0 <= j < s.len() && (first_slash(s) == -1 || j < first_slash(s)) implies s[j] != '/' by {
            if j > 0 {
                assert(s.drop_first()[j - 1] == s[j]);
            }
        }
    }
}

fn ends_with_slash_exec(s: &str) -> (r: bool)
    ensures
        r == ends_with_slash(s@),
{
    let n = s.unicode_len();
    n > 0 && s.get_char(n - 1) == '/'
}

fn trim_leading(s: &str) -> (r: &str)
    ensures
        r@ == trim_leading_slashes(s@),
{
    let n = s.unicode_len();
    let mut start: usize = 0;
    assert(s@.subrange(0, n as int) =~= s@);
    while start < n && s.get_char(start) == '/'
        invariant
            n == s@.len(),
            start <= n,
            trim_leading_slashes(s@.subrange(start as int, n as int)) == trim_leading_slashes(s@),
        decreases n - start,
    {
        assert(s@.subrange(start as int, n as int).drop_first() =~= s@.subrange(start + 1, n as int));
        start = start + 1;
    }
    s.substring_char(start, n)
}

fn find_first_slash(s: &str) -> (r: Option<usize>)
    ensures
        r matches Some(i) ==> i == first_slash(s@),
        r is None ==> first_slash(s@) == -1,
{
    let n = s.unicode_len();
    let mut i: usize = 0;
    while i < n
        invariant
            n == s@.len(),
            i <= n,
            forall|j: int| 0 <= j < i ==> s@[j] != '/',
        decreases n - i,
    {
        if s.get_char(i) == '/' {
            proof {
                lemma_first_slash_bounds(s@);
            }
            return Some(i);
        }
        i = i + 1;
    }
    proof {
        lemma_first_slash_bounds(s@);
    }
    None
}

fn strip<'a>(p: &str, s: &'a str) -> (r: &'a str)
    ensures
        r@ == strip_prefix(p@, s@),
{
    let pn = p.unicode_len();
    let sn = s.unicode_len();
    if pn <= sn {
        let head = s.substring_char(0, pn).to_owned();
        let pp = p.to_owned();
        if head == pp {
            return s.substring_char(pn, sn);
        }
    }
    s.substring_char(0, sn)
}

/// Errors of folder creation.
#[derive(Debug, Clone, Copy, PartialEq, Eq)]
pub enum FolderError {
    EmptyName,
    NameHasSlash,
    AlreadyExists,
}

/// The path of a folder named `name` in `parent`: `parent/name/`.
pub open spec fn folder_path_of(name: Seq<char>, parent: Seq<char>) -> Seq<char> {
    let p = normalized(parent);
    if p == seq!['/'] {
        seq!['/'] + name + seq!['/']
    } else {
        p + seq!['/'] + name + seq!['/']
    }
}

/// The parent named, or the root.
pub open spec fn parent_or_root(parent_path: Option<&str>) -> Seq<char> {
    match parent_path {
        Some(p) => p@,
        None => seq!['/'],
    }
}

/// An entry whose normalized path is the folder's path, with or without the final `/`.
pub open spec fn clashes(e: EntryView, folder_path: Seq<char>) -> bool {
    normalized(e.1) == folder_path || normalized(e.1) == trim_trailing_slashes(folder_path)
}

/// The path of a new folder named `folder_name` in `parent_path` (the root when `None`).
/// An empty name, a name with `/`, or a path that an entry already has, is refused.
pub fn create_folder(folder_name: &str, parent_path: Option<&str>, entries: &Vec<(FileId, FileMetadata)>) -> (r:
    Result<String, FolderError>)
    ensures
        folder_name@.len() == 0 ==> r == Err::<String, FolderError>(FolderError::EmptyName),
        folder_name@.len() > 0 && folder_name@.contains('/') ==> r == Err::<String, FolderError>(
            FolderError::NameHasSlash,
        ),
        r matches Ok(p) ==> p@ == folder_path_of(folder_name@, parent_or_root(parent_path)) && forall|j: int|
            0 <= j < entries@.len() ==> !clashes(#[trigger] entries_view(entries@)[j], p@),
        r == Err::<String, FolderError>(FolderError::AlreadyExists) ==> exists|j: int|
            0 <= j < entries@.len() && clashes(#[trigger] entries_view(entries@)[j], folder_path_of(
                folder_name@,
                parent_or_root(parent_path),
            )),
{
    let root = slash();
    let parent = match parent_path {
        Some(p) => normalize_path(p),
        None => normalize_path(root.as_str()),
    };
    proof {
        reveal_strlit("/");
    }
    assert(normalized(seq!['/']) == seq!['/']) by {
        assert(seq!['/'].subrange(0, 1) =~= seq!['/']);
    }
    if folder_name.unicode_len() == 0 {
        return Err(FolderError::EmptyName);
    }
    if let Some(_) = find_first_slash(folder_name) {
        proof {
            lemma_first_slash_bounds(folder_name@);
        }
        return Err(FolderError::NameHasSlash);
    }
    proof {
        lemma_first_slash_bounds(folder_name@);
        if folder_name@.contains('/') {
            let j = choose|j: int| 0 <= j < folder_name@.len() && folder_name@[j] == '/';
            assert(folder_name@[j] != '/');
        }
    }
    let folder_path = if parent == root {
        slash().concat(folder_name).concat("/")
    } else {
        parent.concat("/").concat(folder_name).concat("/")
    };
    proof {
        reveal_strlit("/");
    }
    assert(folder_path@ == folder_path_of(folder_name@, parent_or_root(parent_path)));
    let trimmed = trim_slashes(folder_path.as_str()).to_owned();
    let mut i: usize = 0;
    while i < entries.len()
        invariant
            i <= entries@.len(),
            trimmed@ == trim_trailing_slashes(folder_path@),
            folder_name@.len() > 0,
            !folder_name@.contains('/'),
            folder_path@ == folder_path_of(folder_name@, parent_or_root(parent_path)),
            forall|j: int| 0 <= j < i ==> !clashes(#[trigger] entries_view(entries@)[j], folder_path@),
        decreases entries@.len() - i,
    {
        let existing = normalize_path(entries[i].1.logical_path.as_str());
        if existing == folder_path || existing == trimmed {
            assert(clashes(entries_view(entries@)[i as int], folder_path@));
            assert(clashes(entries_view(entries@)[i as int], folder_path_of(folder_name@, parent_or_root(parent_path))));
            return Err(FolderError::AlreadyExists);
        }
        i = i + 1;
    }
    Ok(folder_path)
}

pub open spec fn file_views(s: Seq<FileEntry>) -> Seq<EntryView> {
    s.map_values(|f: FileEntry| (f.id@, f.logical_path@, f.encrypted_size))
}

pub open spec fn folder_paths(s: Seq<FolderInfo>) -> Seq<Seq<char>> {
    s.map_values(|f: FolderInfo| f.path@)
}

/// Whether the entry is a file shown directly in `pn`, and the folder it contributes.
fn classify(pn: &str, path: &str, size: u64) -> (r: (bool, Option<String>))
    ensures
        r.0 == file_shown(pn@, (Seq::empty(), path@, size)),
        r.1 matches Some(f) ==> folder_candidate(pn@, (Seq::empty(), path@, size)) == Some(f@),
        r.1 is None ==> folder_candidate(pn@, (Seq::empty(), path@, size)) is None,
{
    let ghost e: EntryView = (Seq::empty(), path@, size);
    let root = slash();
    proof {
        reveal_strlit("/");
    }
    assert(root@ =~= seq!['/']);
    if ends_with_slash_exec(path) || size == 0 {
        let clean = trim_slashes(path);
        let parent = if clean.unicode_len() == 0 {
            slash()
        } else {
            get_parent_path(clean)
        };
        let a = normalize_path(parent.as_str());
        let b = normalize_path(pn);
        if a != b {
            return (false, None);
        }
        let name = get_name_from_path(path);
        if name.unicode_len() == 0 {
            return (false, None);
        }
        let key = if ends_with_slash_exec(path) {
            path.to_owned()
        } else {
            path.to_owned().concat("/")
        };
        return (false, Some(key));
    }
    let fp = normalize_path(path);
    if !is_prefix(pn, fp.as_str()) {
        return (false, None);
    }
    let pn_owned = pn.to_owned();
    let rel = if pn_owned == root {
        trim_leading(fp.as_str())
    } else {
        trim_leading(strip(pn, fp.as_str()))
    };
    if rel.unicode_len() == 0 {
        return (false, None);
    }
    match find_first_slash(rel) {
        None => (true, None),
        Some(k) => {
            if k == 0 {
                return (false, None);
            }
            proof {
                lemma_first_slash_bounds(rel@);
            }
            let first = rel.substring_char(0, k);
            let folder = if pn_owned == root {
                slash().concat(first)
            } else {
                pn_owned.concat("/").concat(first)
            };
            (false, Some(folder))
        },
    }
}

/// The listing of folder `parent_path` (the root when `None`): the files directly in
/// it, in index order, and the folders in it, each path once.
pub fn list_files_and_folders(entries: &Vec<(FileId, FileMetadata)>, parent_path: Option<&str>) -> (r:
    DirectoryEntry)
    ensures
        file_views(r.files@) == entries_view(entries@).filter(
            |e: EntryView| file_shown(normalized(parent_or_root(parent_path)), e),
        ),
        folder_paths(r.folders@).no_duplicates(),
        folder_paths(r.folders@).to_set() == entries_view(entries@).filter_map(
            |e: EntryView| folder_candidate(normalized(parent_or_root(parent_path)), e),
        ).to_set(),
        forall|j: int|
            0 <= j < r.folders@.len() ==> (#[trigger] r.folders@[j]).name@ == name_of(r.folders@[j].path@),
{
    let root = slash();
    let pn = match parent_path {
        Some(p) => normalize_path(p),
        None => normalize_path(root.as_str()),
    };
    let ghost pv = normalized(parent_or_root(parent_path));
    let mut files: Vec<FileEntry> = Vec::new();
    let mut folders: Vec<FolderInfo> = Vec::new();
    let mut i: usize = 0;
    assert(entries_view(entries@.subrange(0, 0)) =~= Seq::<EntryView>::empty());
    assert(folder_paths(folders@).to_set() =~= Seq::<Seq<char>>::empty().to_set());
    while i < entries.len()
        invariant
            i <= entries@.len(),
            pn@ == pv,
            file_views(files@) == entries_view(entries@.subrange(0, i as int)).filter(|e: EntryView| file_shown(pv, e)),
            folder_paths(folders@).no_duplicates(),
            folder_paths(folders@).to_set() == entries_view(entries@.subrange(0, i as int)).filter_map(|e: EntryView| folder_candidate(pv, e)).to_set(),
            forall|j: int| 0 <= j < folders@.len() ==> (#[trigger] folders@[j]).name@ == name_of(folders@[j].path@),
        decreases entries@.len() - i,
    {
        let entry = &entries[i];
        let ghost ev = entry_view_of(entry);
        let ghost prefix = entries_view(entries@.subrange(0, i as int));
        let ghost next = entries_view(entries@.subrange(0, i + 1));
        proof {
            assert(entries@.subrange(0, i + 1) =~= entries@.subrange(0, i as int).push(*entry));
            assert(next =~= prefix.push(ev));
            assert(next.drop_last() =~= prefix);
            reveal(Seq::filter);
            assert(file_shown(pv, ev) == file_shown(pv, (Seq::empty(), ev.1, ev.2)));
            assert(folder_candidate(pv, ev) == folder_candidate(pv, (Seq::empty(), ev.1, ev.2)));
        }
        let (is_file, folder) = classify(pn.as_str(), entry.1.logical_path.as_str(), entry.1.encrypted_size);
        assert(next.last() == ev);
        assert(file_shown(pv, ev) == is_file);
        if is_file {
            let ghost before = files@;
            files.push(FileEntry {
                id: entry.0.clone(),
                logical_path: entry.1.logical_path.clone(),
                encrypted_size: entry.1.encrypted_size,
            });
            assert(file_views(files@) =~= file_views(before).push(ev));
            assert(next.filter(|e: EntryView| file_shown(pv, e)) =~= prefix.filter(|e: EntryView| file_shown(pv, e)).push(ev));
        } else {
            assert(next.filter(|e: EntryView| file_shown(pv, e)) =~= prefix.filter(|e: EntryView| file_shown(pv, e)));
        }
        match folder {
            Some(path) => {
                assert(folder_candidate(pv, ev) == Some(path@));
                let ghost old_paths = folder_paths(folders@);
                let mut k: usize = 0;
                let mut present = false;
                while k < folders.len()
                    invariant
                        k <= folders@.len(),
                        old_paths == folder_paths(folders@),
                        present ==> old_paths.contains(path@),
                        !present ==> forall|j: int| 0 <= j < k ==> old_paths[j] != path@,
                    decreases folders@.len() - k,
                {
                    if !present && folders[k].path == path {
                        assert(old_paths[k as int] == path@);
                        present = true;
                    }
                    k = k + 1;
                }
                if !present {
                    let name = get_name_from_path(path.as_str());
                    folders.push(FolderInfo { name, path });
                    proof {
                        assert(folder_paths(folders@) =~= old_paths.push(path@));
                        assert forall|a: int, b: int|
                            0 <= a < b < folder_paths(folders@).len() implies folder_paths(folders@)[a]
                                != folder_paths(folders@)[b] by {
                            if b < old_paths.len() {
                                assert(old_paths[a] != old_paths[b]);
                            }
                        }
                    }
                }
                proof {
                    assert(folder_paths(folders@).to_set() =~= old_paths.to_set().insert(path@)) by {
                        if !present {
                            assert(folder_paths(folders@) =~= old_paths.push(path@));
                            assert(folder_paths(folders@)[old_paths.len() as int] == path@);
                            assert forall|x: Seq<char>| #[trigger] folder_paths(folders@).contains(x) implies old_paths.to_set().insert(path@).contains(x) by {
                                let j = choose|j: int| 0 <= j < folder_paths(folders@).len() && folder_paths(folders@)[j] == x;
                                if j < old_paths.len() {
                                    assert(old_paths[j] == x);
                                }
                            }
                            assert forall|x: Seq<char>| #[trigger] old_paths.contains(x) implies folder_paths(folders@).contains(x) by {
                                let j = choose|j: int| 0 <= j < old_paths.len() && old_paths[j] == x;
                                assert(folder_paths(folders@)[j] == x);
                            }
                        }
                    }
                    assert(next.filter_map(|e: EntryView| folder_candidate(pv, e)) =~= prefix.filter_map(|e: EntryView| folder_candidate(pv, e)) + seq![path@]);
                    assert(prefix.filter_map(|e: EntryView| folder_candidate(pv, e)) + seq![path@] =~= prefix.filter_map(|e: EntryView| folder_candidate(pv, e)).push(path@));
                    assert(prefix.filter_map(|e: EntryView| folder_candidate(pv, e)).push(path@).to_set() =~= prefix.filter_map(|e: EntryView| folder_candidate(pv, e)).to_set().insert(path@)) by {
                        let q = prefix.filter_map(|e: EntryView| folder_candidate(pv, e));
                        assert(q.push(path@)[q.len() as int] == path@);
                        assert forall|x: Seq<char>| #[trigger] q.push(path@).contains(x) implies q.to_set().insert(path@).contains(x) by {
                            let j = choose|j: int| 0 <= j < q.push(path@).len() && q.push(path@)[j] == x;
                            if j < q.len() {
                                assert(q[j] == x);
                            }
                        }
                        assert forall|x: Seq<char>| #[trigger] q.contains(x) implies q.push(path@).contains(x) by {
                            let j = choose|j: int| 0 <= j < q.len() && q[j] == x;
                            assert(q.push(path@)[j] == x);
                        }
                    }
                }
            },
            None => {
                assert(folder_candidate(pv, ev) is None);
                assert(next.filter_map(|e: EntryView| folder_candidate(pv, e)) =~= prefix.filter_map(|e: EntryView| folder_candidate(pv, e)));
            },
        }
        i = i + 1;
    }
    assert(entries@.subrange(0, entries@.len() as int) =~= entries@);
    DirectoryEntry { files, folders }
}

spec fn entry_view_of(e: &(FileId, FileMetadata)) -> EntryView {
    (e.0@, e.1.logical_path@, e.1.encrypted_size)
}

} // verus!
