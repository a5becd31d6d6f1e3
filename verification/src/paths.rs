//! Paths as text: forward slashes between the segments, nothing resolved.

use crate::text::same_text;
use vstd::prelude::*;

verus! {

/// `.git`, the directory that is never shown.
pub open spec fn git_dir() -> Seq<char> {
    seq!['.', 'g', 'i', 't']
}

/// `.git/`, with which the path of everything inside `.git` begins.
pub open spec fn git_prefix() -> Seq<char> {
    seq!['.', 'g', 'i', 't', '/']
}

/// Whether the text can be the name of an entry of a directory: it is not
/// empty and holds no slash.
pub open spec fn plain_name(name: Seq<char>) -> bool {
    name.len() > 0 && !name.contains('/')
}

/// `.zip`, the suffix that asks for an archive.
pub open spec fn zip_suffix() -> Seq<char> {
    seq!['.', 'z', 'i', 'p']
}

/// `name` below `root`: the two with one slash between them. An empty side
/// adds nothing, and a root that ends in a slash gets no second one.
pub open spec fn join_spec(root: Seq<char>, name: Seq<char>) -> Seq<char> {
    if root.len() == 0 {
        name
    } else if name.len() == 0 {
        root
    } else if root.last() == '/' {
        root + name
    } else {
        root + seq!['/'] + name
    }
}

/// `path` where what lies below it begins: with a slash at its end, unless
/// it is empty or has one.
pub open spec fn below_prefix(path: Seq<char>) -> Seq<char> {
    if path.len() == 0 || path.last() == '/' {
        path
    } else {
        path + seq!['/']
    }
}

/// Whether `path` lies below the directory `dir`, at any depth.
pub open spec fn is_below(path: Seq<char>, dir: Seq<char>) -> bool {
    below_prefix(dir).is_prefix_of(path) && path.len() > below_prefix(dir).len()
}

/// A name below a directory gives a path below it, and what lies below
/// that path lies below the directory too; an empty name gives the
/// directory itself.
pub proof fn lemma_join_is_below(root: Seq<char>, name: Seq<char>)
    ensures
        name.len() == 0 ==> join_spec(root, name) == root,
        name.len() > 0 ==> is_below(join_spec(root, name), root),
        forall|path: Seq<char>| #[trigger]
            is_below(path, join_spec(root, name)) ==> is_below(path, root),
{
    let joined = join_spec(root, name);
    if name.len() > 0 {
        assert(joined =~= below_prefix(root) + name);
        assert(joined.subrange(0, below_prefix(root).len() as int) =~= below_prefix(root));
    }
    assert forall|path: Seq<char>| #[trigger] is_below(path, joined) implies is_below(
        path,
        root,
    ) by {
        if name.len() > 0 {
            let inner = below_prefix(joined);
            let outer = below_prefix(root);
            assert(inner.subrange(0, outer.len() as int) =~= outer);
            assert(path.subrange(0, inner.len() as int) =~= inner);
            assert(path.subrange(0, outer.len() as int) =~= outer);
        }
    }
}

/// Nothing below a directory with a plain name other than `.git` has a
/// path that begins with `.git/`.
pub proof fn lemma_not_inside_git(path: Seq<char>, dir: Seq<char>)
    requires
        is_below(path, dir),
        plain_name(dir),
        dir != git_dir(),
    ensures
        !git_prefix().is_prefix_of(path),
{
    if git_prefix().is_prefix_of(path) {
        let start = below_prefix(dir);
        assert(dir[dir.len() - 1] != '/');
        assert(start =~= dir + seq!['/']);
        assert forall|k: int| 0 <= k < start.len() implies path[k] == start[k] by {
            assert(path.subrange(0, start.len() as int)[k] == path[k]);
        }
        assert forall|k: int| 0 <= k < 5 implies path[k] == git_prefix()[k] by {
            assert(path.subrange(0, 5)[k] == path[k]);
        }
        if dir.len() < 4 {
            assert(path[dir.len() as int] == start[dir.len() as int]);
            assert(path[dir.len() as int] == git_prefix()[dir.len() as int]);
        } else if dir.len() > 4 {
            assert(path[4] == start[4]);
            assert(dir[4] == '/');
        } else {
            assert forall|k: int| 0 <= k < 4 implies dir[k] == git_dir()[k] by {
                assert(path[k] == start[k]);
                assert(path[k] == git_prefix()[k]);
            }
            assert(dir =~= git_dir());
        }
    }
}

/// A plain name is no path that begins with `.git/`.
pub proof fn lemma_plain_name_is_not_inside_git(name: Seq<char>)
    requires
        plain_name(name),
    ensures
        !git_prefix().is_prefix_of(name),
{
    if git_prefix().is_prefix_of(name) {
        assert(name.subrange(0, 5)[4] == name[4]);
        assert(name[4] == '/');
    }
}

/// Where a plain name below a directory leads: to the directory's own
/// beginning, the name, and behind it the slash with which everything
/// below begins.
pub proof fn lemma_join_of_plain_name(root: Seq<char>, name: Seq<char>)
    requires
        plain_name(name),
    ensures
        join_spec(root, name) == below_prefix(root) + name,
        below_prefix(join_spec(root, name)) == below_prefix(root) + name + seq!['/'],
{
    let joined = join_spec(root, name);
    assert(joined =~= below_prefix(root) + name);
    assert(joined[joined.len() - 1] == name[name.len() - 1]);
    assert(below_prefix(joined) =~= below_prefix(root) + name + seq!['/']);
}

/// An entry of a directory does not lie below another entry of it.
pub proof fn lemma_sibling_is_not_below(root: Seq<char>, one: Seq<char>, other: Seq<char>)
    requires
        plain_name(one),
        plain_name(other),
    ensures
        !is_below(join_spec(root, one), join_spec(root, other)),
{
    lemma_join_of_plain_name(root, one);
    lemma_join_of_plain_name(root, other);
    let path = join_spec(root, one);
    let start = below_prefix(join_spec(root, other));
    if is_below(path, join_spec(root, other)) {
        let at: int = (below_prefix(root).len() + other.len()) as int;
        assert(path.subrange(0, start.len() as int)[at] == path[at]);
        assert(path[at] == one[other.len() as int]);
    }
}

/// What lies below two entries of one directory lies below one entry: the
/// two have the same name.
pub proof fn lemma_below_one_entry(
    path: Seq<char>,
    root: Seq<char>,
    one: Seq<char>,
    other: Seq<char>,
)
    requires
        plain_name(one),
        plain_name(other),
        is_below(path, join_spec(root, one)),
        is_below(path, join_spec(root, other)),
    ensures
        one == other,
{
    lemma_join_of_plain_name(root, one);
    lemma_join_of_plain_name(root, other);
    let base: int = below_prefix(root).len() as int;
    let first = below_prefix(join_spec(root, one));
    let second = below_prefix(join_spec(root, other));
    assert forall|k: int| 0 <= k < first.len() implies path[k] == first[k] by {
        assert(path.subrange(0, first.len() as int)[k] == path[k]);
    }
    assert forall|k: int| 0 <= k < second.len() implies path[k] == second[k] by {
        assert(path.subrange(0, second.len() as int)[k] == path[k]);
    }
    if one.len() < other.len() {
        assert(path[base + one.len()] == first[base + one.len()]);
        assert(path[base + one.len()] == second[base + one.len()]);
        assert(other[one.len() as int] == '/');
    } else if other.len() < one.len() {
        assert(path[base + other.len()] == first[base + other.len()]);
        assert(path[base + other.len()] == second[base + other.len()]);
        assert(one[other.len() as int] == '/');
    } else {
        assert forall|k: int| 0 <= k < one.len() implies one[k] == other[k] by {
            assert(path[base + k] == first[base + k]);
            assert(path[base + k] == second[base + k]);
        }
        assert(one =~= other);
    }
}

/// Two names below one directory that give the same path are the same
/// name.
pub proof fn lemma_join_is_injective(root: Seq<char>, a: Seq<char>, b: Seq<char>)
    requires
        join_spec(root, a) == join_spec(root, b),
    ensures
        a == b,
{
    if root.len() > 0 {
        let prefix = below_prefix(root);
        if a.len() == 0 {
            assert(b.len() == 0) by {
                if b.len() > 0 {
                    assert(join_spec(root, b) =~= prefix + b);
                }
            }
            assert(a =~= b);
        } else if b.len() == 0 {
            assert(join_spec(root, a) =~= prefix + a);
        } else {
            assert(join_spec(root, a) =~= prefix + a);
            assert(join_spec(root, b) =~= prefix + b);
            assert(a =~= (prefix + a).skip(prefix.len() as int));
            assert(b =~= (prefix + b).skip(prefix.len() as int));
        }
    }
}

/// `s` ends in `suffix`.
pub open spec fn has_suffix(s: Seq<char>, suffix: Seq<char>) -> bool {
    s.len() >= suffix.len() && s.subrange(s.len() - suffix.len(), s.len() as int) == suffix
}

/// `path` without one trailing `.zip`; a path that has none is left alone.
pub open spec fn strip_zip_spec(path: Seq<char>) -> Seq<char> {
    if has_suffix(path, zip_suffix()) {
        path.take(path.len() - 4)
    } else {
        path
    }
}

/// `path` as seen from the directory `dir`, if it lies in it: what follows
/// `dir` and the slash after it. `dir` itself gives the empty path.
pub open spec fn relative_spec(dir: Seq<char>, path: Seq<char>) -> Option<Seq<char>> {
    if !dir.is_prefix_of(path) {
        None
    } else {
        let rest = path.skip(dir.len() as int);
        if rest.len() == 0 {
            Some(rest)
        } else if rest[0] == '/' {
            Some(rest.skip(1))
        } else if dir.len() == 0 || dir.last() == '/' {
            Some(rest)
        } else {
            None
        }
    }
}

/// Whether `path` is exactly `.git`.
pub fn is_git_dir(path: &str) -> (r: bool)
    ensures
        r == (path@ == git_dir()),
{
    proof {
        reveal_strlit(".git");
        assert(".git"@ =~= git_dir());
    }
    same_text(path, ".git")
}

/// The path of `name` below `root`.
pub fn join_path(root: &str, name: &str) -> (r: String)
    ensures
        r@ == join_spec(root@, name@),
{
    if root.is_empty() {
        return name.to_string();
    }
    if name.is_empty() {
        return root.to_string();
    }
    let n = root.unicode_len();
    let joined = if root.get_char(n - 1) == '/' {
        root.to_string()
    } else {
        proof {
            reveal_strlit("/");
            assert("/"@ =~= seq!['/']);
        }
        root.to_string().concat("/")
    };
    joined.concat(name)
}

/// Whether `path` ends in `.zip`.
pub fn ends_with_zip(path: &str) -> (r: bool)
    ensures
        r == has_suffix(path@, zip_suffix()),
{
    let n = path.unicode_len();
    if n < 4 {
        return false;
    }
    proof {
        reveal_strlit(".zip");
        assert(".zip"@ =~= zip_suffix());
    }
    same_text(path.substring_char(n - 4, n), ".zip")
}

/// `path` without its `.zip`.
pub fn strip_zip(path: &str) -> (r: String)
    ensures
        r@ == strip_zip_spec(path@),
{
    if ends_with_zip(path) {
        let n = path.unicode_len();
        path.substring_char(0, n - 4).to_string()
    } else {
        path.to_string()
    }
}

/// `path` as seen from `dir`, or `None` where it does not lie in `dir`.
pub fn relative_to(dir: &str, path: &str) -> (r: Option<String>)
    ensures
        match relative_spec(dir@, path@) {
            Some(rest) => r matches Some(s) && s@ == rest,
            None => r is None,
        },
{
    let n = dir.unicode_len();
    let m = path.unicode_len();
    if n > m {
        return None;
    }
    if !same_text(path.substring_char(0, n), dir) {
        return None;
    }
    let rest = path.substring_char(n, m);
    assert(rest@ == path@.skip(n as int));
    if n == m {
        Some(rest.to_string())
    } else if rest.get_char(0) == '/' {
        Some(rest.substring_char(1, m - n).to_string())
    } else if n == 0 || dir.get_char(n - 1) == '/' {
        Some(rest.to_string())
    } else {
        None
    }
}

/// The last segment of `path`: what follows its last slash, or all of it
/// where it has none. A path that ends in a slash has an empty last
/// segment.
pub fn file_name(path: &str) -> (r: String)
    ensures
        r@.len() <= path@.len(),
        r@ == path@.skip(path@.len() - r@.len()),
        !r@.contains('/'),
        r@.len() < path@.len() ==> path@[path@.len() - r@.len() - 1] == '/',
{
    let n = path.unicode_len();
    let mut i: usize = n;
    while i > 0 && path.get_char(i - 1) != '/'
        invariant
            0 <= i <= n,
            n == path@.len(),
            forall|k: int| i <= k < n ==> path@[k] != '/',
        decreases i,
    {
        i -= 1;
    }
    let name = path.substring_char(i, n);
    assert(name@ =~= path@.skip(path@.len() - name@.len()));
    name.to_string()
}

} // verus!
