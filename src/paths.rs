//! Logical paths: `/`-separated, rooted at `/`.
use vstd::prelude::*;

verus! {

/// `s` with each non-overlapping `"//"`, read left to right, replaced by `"/"`.
pub open spec fn collapse_double_slashes(s: Seq<char>) -> Seq<char>
    decreases s.len(),
{
    if s.len() < 2 {
        s
    } else if s[0] == '/' && s[1] == '/' {
        seq!['/'] + collapse_double_slashes(s.subrange(2, s.len() as int))
    } else {
        seq![s[0]] + collapse_double_slashes(s.drop_first())
    }
}

/// The normal form of a path: double slashes collapsed, then a leading `/` added when
/// missing.
pub open spec fn normalized(path: Seq<char>) -> Seq<char> {
    let c = collapse_double_slashes(path);
    if c.len() > 0 && c[0] == '/' {
        c
    } else {
        seq!['/'] + c
    }
}

/// `s` without its trailing slashes.
pub open spec fn trim_trailing_slashes(s: Seq<char>) -> Seq<char>
    decreases s.len(),
{
    if s.len() > 0 && s.last() == '/' {
        trim_trailing_slashes(s.drop_last())
    } else {
        s
    }
}

/// The position of the last `/` of `s`, or -1.
pub open spec fn last_slash(s: Seq<char>) -> int
    decreases s.len(),
{
    if s.len() == 0 {
        -1
    } else if s.last() == '/' {
        s.len() - 1
    } else {
        last_slash(s.drop_last())
    }
}

/// The last component of a path, trailing slashes ignored.
pub open spec fn name_of(path: Seq<char>) -> Seq<char> {
    let t = trim_trailing_slashes(path);
    t.subrange(last_slash(t) + 1, t.len() as int)
}

/// The parent of a path: `/` for the root and for top-level names.
pub open spec fn parent_of(path: Seq<char>) -> Seq<char> {
    let p = normalized(path);
    let t = trim_trailing_slashes(p);
    if p == seq!['/'] || last_slash(t) <= 0 {
        seq!['/']
    } else {
        t.subrange(0, last_slash(t))
    }
}

/// `path` lies under `prefix`: both normalized, `path` starts with `prefix` and either
/// ends there or continues with `/`; every rooted path lies under `/`.
pub open spec fn under(prefix: Seq<char>, path: Seq<char>) -> bool {
    let p = normalized(prefix);
    let q = normalized(path);
    if p == seq!['/'] {
        q.len() > 0 && q[0] == '/'
    } else {
        p.len() <= q.len() && q.subrange(0, p.len() as int) == p && (q.len() == p.len()
            || q[p.len() as int] == '/')
    }
}

proof fn lemma_last_slash_bounds(s: Seq<char>)
    ensures
        -1 <= last_slash(s) < s.len(),
        last_slash(s) >= 0 ==> s[last_slash(s)] == '/',
    decreases s.len(),
{
    if s.len() > 0 && s.last() != '/' {
        lemma_last_slash_bounds(s.drop_last());
    }
}

/// The string `"/"`.
pub fn slash() -> (r: String)
    ensures
        r@ == seq!['/'],
{
    let r = "/".to_owned();
    proof {
        reveal_strlit("/");
    }
    assert(r@ =~= seq!['/']);
    r
}

/// Collapses double slashes and roots the path at `/`.
pub fn normalize_path(path: &str) -> (r: String)
    ensures
        r@ == normalized(path@),
{
    let n = path.unicode_len();
    let mut out = String::new();
    let mut i: usize = 0;
    assert(path@.subrange(0, n as int) =~= path@);
    while i < n
        invariant
            n == path@.len(),
            i <= n,
            out@ + collapse_double_slashes(path@.subrange(i as int, n as int)) == collapse_double_slashes(path@),
        decreases n - i,
    {
        let ghost rest = path@.subrange(i as int, n as int);
        if i + 1 < n && path.get_char(i) == '/' && path.get_char(i + 1) == '/' {
            out.append(path.substring_char(i, i + 1));
            assert(rest.subrange(2, rest.len() as int) =~= path@.subrange(i + 2, n as int));
            assert(out@ + collapse_double_slashes(path@.subrange(i + 2, n as int)) =~= collapse_double_slashes(path@));
            i = i + 2;
        } else {
            out.append(path.substring_char(i, i + 1));
            assert(rest.drop_first() =~= path@.subrange(i + 1, n as int));
            assert(out@ + collapse_double_slashes(path@.subrange(i + 1, n as int)) =~= collapse_double_slashes(path@));
            i = i + 1;
        }
    }
    assert(path@.subrange(n as int, n as int) =~= Seq::<char>::empty());
    assert(out@ =~= collapse_double_slashes(path@));
    if out.unicode_len() > 0 && out.as_str().get_char(0) == '/' {
        out
    } else {
        let r = slash().concat(out.as_str());
        r
    }
}

/// `path` without its trailing slashes.
pub fn trim_slashes(path: &str) -> (r: &str)
    ensures
        r@ == trim_trailing_slashes(path@),
{
    let n = path.unicode_len();
    let mut end = n;
    assert(path@.subrange(0, n as int) =~= path@);
    while end > 0 && path.get_char(end - 1) == '/'
        invariant
            n == path@.len(),
            end <= n,
            trim_trailing_slashes(path@.subrange(0, end as int)) == trim_trailing_slashes(path@),
        decreases end,
    {
        assert(path@.subrange(0, end as int).drop_last() =~= path@.subrange(0, end - 1));
        end = end - 1;
    }
    assert(path@.subrange(0, n as int) =~= path@);
    path.substring_char(0, end)
}

/// Position of the last `/` of `s`, if any.
pub fn find_last_slash(s: &str) -> (r: Option<usize>)
    ensures
        r matches Some(i) ==> i == last_slash(s@),
        r is None ==> last_slash(s@) == -1,
{
    let n = s.unicode_len();
    let mut end = n;
    assert(s@.subrange(0, n as int) =~= s@);
    while end > 0
        invariant
            n == s@.len(),
            end <= n,
            last_slash(s@.subrange(0, end as int)) == last_slash(s@),
        decreases end,
    {
        if s.get_char(end - 1) == '/' {
            return Some(end - 1);
        }
        assert(s@.subrange(0, end as int).drop_last() =~= s@.subrange(0, end - 1));
        end = end - 1;
    }
    None
}

/// Whether `path` lies under `prefix`; see `under`.
pub fn is_prefix(prefix: &str, path: &str) -> (r: bool)
    ensures
        r == under(prefix@, path@),
{
    let p = normalize_path(prefix);
    let q = normalize_path(path);
    let root = slash();
    let pn = p.unicode_len();
    let qn = q.unicode_len();
    if p == root {
        return qn > 0 && q.as_str().get_char(0) == '/';
    }
    if pn > qn {
        return false;
    }
    let head = q.as_str().substring_char(0, pn).to_owned();
    if head != p {
        return false;
    }
    pn == qn || q.as_str().get_char(pn) == '/'
}

/// The parent of `path`; see `parent_of`.
pub fn get_parent_path(path: &str) -> (r: String)
    ensures
        r@ == parent_of(path@),
{
    let p = normalize_path(path);
    let root = slash();
    if p == root {
        return root;
    }
    let t = trim_slashes(p.as_str());
    proof {
        lemma_last_slash_bounds(t@);
    }
    match find_last_slash(t) {
        Some(i) => {
            if i == 0 {
                root
            } else {
                t.substring_char(0, i).to_owned()
            }
        },
        None => root,
    }
}

/// The last component of `path`; see `name_of`.
pub fn get_name_from_path(path: &str) -> (r: String)
    ensures
        r@ == name_of(path@),
{
    let t = trim_slashes(path);
    proof {
        lemma_last_slash_bounds(t@);
    }
    let n = t.unicode_len();
    match find_last_slash(t) {
        Some(i) => t.substring_char(i + 1, n).to_owned(),
        None => t.substring_char(0, n).to_owned(),
    }
}

} // verus!
