//! The path model: plain text paths, with `/` as the separator.
//!
//! A path is absolute when it starts with `/`.  A relative reference is
//! joined onto the directory that holds the document, after any leading
//! `./` components are dropped; a document whose path has no directory
//! part resolves relative references against the empty base, which leaves
//! them as they are.

use vstd::prelude::*;

verus! {

/// A path is absolute when it starts with the separator.
pub open spec fn is_absolute(p: Seq<char>) -> bool {
    p.len() > 0 && p[0] == '/'
}

/// Drop every leading `./` component of a relative reference.
pub open spec fn strip_dot_slash(p: Seq<char>) -> Seq<char>
    decreases p.len(),
{
    if p.len() >= 2 && p[0] == '.' && p[1] == '/' {
        strip_dot_slash(p.skip(2))
    } else {
        p
    }
}

/// Join a relative reference onto a directory.  An empty directory leaves
/// the reference as it is; otherwise the two are glued with a single
/// separator.
pub open spec fn join(dir: Seq<char>, rel: Seq<char>) -> Seq<char> {
    if dir.len() == 0 {
        rel
    } else if dir[dir.len() - 1] == '/' {
        dir + rel
    } else {
        dir + seq!['/'] + rel
    }
}

/// Where a decoded local reference points: an absolute reference is used
/// unchanged; a relative one is joined onto the document's directory.
pub open spec fn resolved_path(dir: Seq<char>, p: Seq<char>) -> Seq<char> {
    if is_absolute(p) {
        p
    } else {
        join(dir, strip_dot_slash(p))
    }
}

/// The length of the directory prefix of a path: everything up to the
/// last separator, which is kept only when it is the leading one.  A path
/// without a separator has an empty directory part.
pub open spec fn dir_part_len(p: Seq<char>) -> nat
    decreases p.len(),
{
    if p.len() == 0 {
        0
    } else if p[p.len() - 1] == '/' {
        if p.len() == 1 {
            1
        } else {
            (p.len() - 1) as nat
        }
    } else {
        dir_part_len(p.drop_last())
    }
}

/// The directory that holds the file a path names.
pub open spec fn parent_of(p: Seq<char>) -> Seq<char> {
    p.take(dir_part_len(p) as int)
}

/// The part of a path after its last separator.
pub open spec fn name_start(p: Seq<char>) -> nat
    decreases p.len(),
{
    if p.len() == 0 {
        0
    } else if p[p.len() - 1] == '/' {
        p.len() as nat
    } else {
        name_start(p.drop_last())
    }
}

/// The position of the last `.` of a name, if it has one.
pub open spec fn last_dot(s: Seq<char>) -> Option<nat>
    decreases s.len(),
{
    if s.len() == 0 {
        None
    } else if s[s.len() - 1] == '.' {
        Some((s.len() - 1) as nat)
    } else {
        last_dot(s.drop_last())
    }
}

/// Whether a path names a Markdown file: its file name has an extension,
/// the extension does not open the name (a leading dot marks a hidden
/// file, not an extension), and it is one of the Markdown ones.
pub open spec fn spec_is_markdown(p: Seq<char>) -> bool {
    let name = p.skip(name_start(p) as int);
    match last_dot(name) {
        None => false,
        Some(j) => j > 0 && {
            let ext = name.skip(j as int + 1);
            ext == "md"@ || ext == "MD"@ || ext == "markdown"@
        },
    }
}

/// Law: resolution of a local reference.  An absolute reference resolves
/// to itself, untouched by the directory; a relative one resolves to the
/// directory joined with it (leading `./` components dropped).
pub proof fn lemma_resolution_cases(dir: Seq<char>, p: Seq<char>)
    ensures
        is_absolute(p) ==> resolved_path(dir, p) == p,
        !is_absolute(p) ==> resolved_path(dir, p) == join(dir, strip_dot_slash(p)),
{
}

fn str_eq(a: &str, b: &str) -> (r: bool)
    ensures
        r == (a@ == b@),
{
    let na = a.unicode_len();
    let nb = b.unicode_len();
    if na != nb {
        return false;
    }
    let mut i: usize = 0;
    while i < na
        invariant
            i <= na,
            na == a@.len() == b@.len(),
            forall|k: int| 0 <= k < i ==> a@[k] == b@[k],
        decreases na - i,
    {
        if a.get_char(i) != b.get_char(i) {
            return false;
        }
        i = i + 1;
    }
    proof {
        assert(a@ =~= b@);
    }
    true
}

/// The directory that holds the file `path` names; empty when the path
/// has no directory part.
pub fn parent_dir(path: &str) -> (dir: String)
    ensures
        dir@ == parent_of(path@),
{
    let n = path.unicode_len();
    let mut i: usize = n;
    proof {
        assert(path@.take(n as int) =~= path@);
    }
    while i > 0
        invariant
            i <= n,
            n == path@.len(),
            dir_part_len(path@) == dir_part_len(path@.take(i as int)),
        decreases i,
    {
        proof {
            assert(path@.take(i as int).drop_last() =~= path@.take(i as int - 1));
        }
        if path.get_char(i - 1) == '/' {
            proof {
                assert(path@.take(i as int)[i - 1] == path@[i - 1]);
            }
            let k = if i == 1 {
                1
            } else {
                i - 1
            };
            let d = path.substring_char(0, k);
            return d.to_owned();
        }
        i = i - 1;
    }
    proof {
        assert(path@.take(0) =~= Seq::<char>::empty());
        assert(parent_of(path@) =~= Seq::<char>::empty());
        reveal_strlit("");
        assert(""@ =~= Seq::<char>::empty());
    }
    String::new()
}

/// Whether the file a path names looks like a Markdown file, judged by
/// its extension alone.
pub fn is_markdown(file: &str) -> (r: bool)
    ensures
        r == spec_is_markdown(file@),
{
    let n = file.unicode_len();
    let mut i: usize = n;
    proof {
        assert(file@.take(n as int) =~= file@);
    }
    while i > 0 && file.get_char(i - 1) != '/'
        invariant
            i <= n,
            n == file@.len(),
            name_start(file@) == name_start(file@.take(i as int)),
        decreases i,
    {
        proof {
            assert(file@.take(i as int).drop_last() =~= file@.take(i as int - 1));
            assert(file@.take(i as int)[i - 1] == file@[i - 1]);
        }
        i = i - 1;
    }
    proof {
        if i == 0 {
            assert(file@.take(0) =~= Seq::<char>::empty());
        } else {
            assert(file@.take(i as int)[i - 1] == file@[i - 1]);
        }
        assert(name_start(file@) == i);
    }
    let ghost name = file@.skip(i as int);
    let mut j: usize = n;
    proof {
        assert(name.take(n - i as int) =~= name);
    }
    while j > i && file.get_char(j - 1) != '.'
        invariant
            i <= j <= n,
            n == file@.len(),
            name == file@.skip(i as int),
            name_start(file@) == i,
            last_dot(name) == last_dot(name.take(j - i as int)),
        decreases j,
    {
        proof {
            assert(name.take(j - i as int).drop_last() =~= name.take(j - i as int - 1));
            assert(name.take(j - i as int)[j - i - 1] == name[j - i - 1] == file@[j as int - 1]);
        }
        j = j - 1;
    }
    proof {
        if j == i {
            assert(name.take(0) =~= Seq::<char>::empty());
            assert(last_dot(name) is None);
        } else {
            assert(name.take(j - i as int)[j - i - 1] == name[j - i - 1] == file@[j as int - 1]);
            assert(last_dot(name) == Some((j - i - 1) as nat));
        }
    }
    if j == i || j == i + 1 {
        return false;
    }
    proof {
        assert(name.skip(j - i as int) =~= file@.skip(j as int));
    }
    let ext = file.substring_char(j, n);
    str_eq(ext, "md") || str_eq(ext, "MD") || str_eq(ext, "markdown")
}

/// Drop every leading `./` component of a relative reference.
fn strip_dots(rel: &str) -> (r: String)
    ensures
        r@ == strip_dot_slash(rel@),
{
    let mut t: &str = rel;
    let mut n = t.unicode_len();
    while n >= 2 && t.get_char(0) == '.' && t.get_char(1) == '/'
        invariant
            n == t@.len(),
            strip_dot_slash(rel@) == strip_dot_slash(t@),
        decreases n,
    {
        let next = t.substring_char(2, n);
        proof {
            assert(next@ =~= t@.skip(2));
        }
        t = next;
        n = n - 2;
    }
    t.to_owned()
}

/// Glue a relative reference onto a directory with a single separator;
/// an empty directory leaves the reference as it is.
fn join_path(dir: &str, rel: &str) -> (r: String)
    ensures
        r@ == join(dir@, rel@),
{
    let n = dir.unicode_len();
    if n == 0 {
        return rel.to_owned();
    }
    let mut out = dir.to_owned();
    if dir.get_char(n - 1) != '/' {
        out.append("/");
        proof {
            reveal_strlit("/");
            assert("/"@ =~= seq!['/']);
        }
    }
    out.append(rel);
    out
}

/// Where a decoded local reference points, given the document's
/// directory.
pub fn resolve_path(dir: &str, path: &str) -> (r: String)
    ensures
        r@ == resolved_path(dir@, path@),
{
    let n = path.unicode_len();
    if n > 0 && path.get_char(0) == '/' {
        return path.to_owned();
    }
    let stripped = strip_dots(path);
    join_path(dir, stripped.as_str())
}

} // verus!
