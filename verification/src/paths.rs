//! Absolute-path arithmetic over character sequences.
//!
//! Paths are plain text; the separator is `'/'`. The engine never touches the
//! filesystem itself, so everything here is pure computation.

use vstd::prelude::*;
use crate::text::{
    after_last,
    before_last,
    last_index_of,
    lemma_no_sep,
    lemma_split_at_last_sep,
    suffix_after_last,
};

verus! {

/// An absolute path: nonempty and rooted at the separator.
pub open spec fn is_abs(p: Seq<char>) -> bool {
    p.len() > 0 && p[0] == '/'
}

/// An absolute directory path in canonical form: no trailing separator
/// (except for the root itself).
pub open spec fn is_canonical_dir(p: Seq<char>) -> bool {
    is_abs(p) && (p.len() == 1 || p.last() != '/')
}

/// A directory child's base name: nonempty and free of separators.
pub open spec fn is_valid_name(n: Seq<char>) -> bool {
    n.len() > 0 && forall|k: int| 0 <= k < n.len() ==> n[k] != '/'
}

/// The final path component; empty when the path ends in a separator.
pub open spec fn file_name_of(p: Seq<char>) -> Seq<char> {
    after_last(p, '/')
}

/// The parent directory of an absolute path; `None` at the root or for a
/// path that is not absolute.
pub open spec fn parent_of(p: Seq<char>) -> Option<Seq<char>> {
    if p.len() <= 1 || p[0] != '/' {
        None
    } else {
        let pre = before_last(p, '/');
        if pre.len() == 0 {
            Some(seq!['/'])
        } else {
            Some(pre)
        }
    }
}

/// `dir` extended by one relative component (or a separator-joined tail).
pub open spec fn join_path(dir: Seq<char>, rel: Seq<char>) -> Seq<char> {
    if dir.len() > 0 && dir.last() == '/' {
        dir + rel
    } else {
        dir + seq!['/'] + rel
    }
}

/// `p` without its trailing separators.
pub open spec fn strip_seps(p: Seq<char>) -> Seq<char>
    decreases p.len(),
{
    if p.len() > 0 && p.last() == '/' {
        strip_seps(p.drop_last())
    } else {
        p
    }
}

/// The current- and parent-directory aliases, which name no component.
pub open spec fn is_dot_alias(n: Seq<char>) -> bool {
    (n.len() == 1 && n[0] == '.') || (n.len() == 2 && n[0] == '.' && n[1] == '.')
}

/// The path's nameable final component: the text after the last separator,
/// trailing separators ignored. The root and a path ending in a dot alias
/// (`.` or `..`) name no component.
pub open spec fn named_component(p: Seq<char>) -> Option<Seq<char>> {
    let n = after_last(strip_seps(p), '/');
    if n.len() == 0 || is_dot_alias(n) {
        None
    } else {
        Some(n)
    }
}

/// The view of an optional owned string.
pub open spec fn opt_view(o: Option<String>) -> Option<Seq<char>> {
    match o {
        Some(s) => Some(s@),
        None => None,
    }
}

/// Executable [`file_name_of`].
pub fn file_name(p: &str) -> (r: String)
    ensures
        r@ == file_name_of(p@),
{
    suffix_after_last(p, '/')
}

/// Executable [`join_path`].
pub fn path_join(dir: &str, rel: &str) -> (r: String)
    ensures
        r@ == join_path(dir@, rel@),
{
    let n = dir.unicode_len();
    let mut out = dir.to_owned();
    if n == 0 || dir.get_char(n - 1) != '/' {
        out.append("/");
    }
    out.append(rel);
    proof {
        reveal_strlit("/");
        assert("/"@ =~= seq!['/']);
        assert(out@ =~= join_path(dir@, rel@));
    }
    out
}

/// [`strip_seps`] keeps exactly the text before the trailing separators.
proof fn lemma_strip_seps_at(p: Seq<char>, end: int)
    requires
        0 <= end <= p.len(),
        forall|k: int| end <= k < p.len() ==> p[k] == '/',
        end > 0 ==> p[end - 1] != '/',
    ensures
        strip_seps(p) == p.take(end),
    decreases p.len(),
{
    if p.len() > 0 && p.last() == '/' {
        lemma_strip_seps_at(p.drop_last(), end);
        assert(p.drop_last().take(end) =~= p.take(end));
    } else {
        assert(p.take(end) =~= p);
    }
}

/// Executable [`strip_seps`].
fn strip_trailing_seps(p: &str) -> (r: String)
    ensures
        r@ == strip_seps(p@),
{
    let n = p.unicode_len();
    let mut end: usize = n;
    while end > 0 && p.get_char(end - 1) == '/'
        invariant
            end <= n,
            n == p@.len(),
            forall|k: int| end <= k < n ==> p@[k] == '/',
        decreases end,
    {
        end = end - 1;
    }
    proof {
        lemma_strip_seps_at(p@, end as int);
    }
    p.substring_char(0, end).to_owned()
}

/// Executable [`named_component`].
pub fn component_name(p: &str) -> (r: Option<String>)
    ensures
        opt_view(r) == named_component(p@),
{
    let stripped = strip_trailing_seps(p);
    let name = file_name(stripped.as_str());
    let n = name.as_str().unicode_len();
    if n == 0 {
        return None;
    }
    if name.as_str().get_char(0) == '.' && (n == 1 || (n == 2 && name.as_str().get_char(1)
        == '.')) {
        return None;
    }
    Some(name)
}

/// Executable [`parent_of`].
pub fn parent_dir(p: &str) -> (r: Option<String>)
    ensures
        opt_view(r) == parent_of(p@),
{
    let n = p.unicode_len();
    if n <= 1 {
        return None;
    }
    if p.get_char(0) != '/' {
        return None;
    }
    match last_index_of(p, '/') {
        Some(i) => {
            proof {
                lemma_split_at_last_sep(p@, '/', i as int);
            }
            if i == 0 {
                let root = p.substring_char(0, 1);
                proof {
                    assert(root@ =~= seq!['/']);
                }
                Some(root.to_owned())
            } else {
                proof {
                    assert(p@.subrange(0, i as int).len() == i as int);
                }
                Some(p.substring_char(0, i).to_owned())
            }
        },
        None => {
            proof {
                assert(p@[0] == '/');
                assert(false);
            }
            None
        },
    }
}

/// A parent, where one exists, is itself absolute.
pub proof fn lemma_parent_abs(p: Seq<char>)
    ensures
        parent_of(p) matches Some(q) ==> is_abs(q),
{
    if p.len() > 1 && p[0] == '/' {
        crate::text::lemma_before_last_prefix(p, '/');
    }
}

/// Joining a valid child name onto a canonical directory gives an absolute
/// canonical path whose parent is that directory and whose final component
/// is that name.
pub proof fn lemma_join_parent(dir: Seq<char>, name: Seq<char>)
    requires
        is_canonical_dir(dir),
        is_valid_name(name),
    ensures
        parent_of(join_path(dir, name)) == Some(dir),
        file_name_of(join_path(dir, name)) == name,
        is_canonical_dir(join_path(dir, name)),
{
    let j = join_path(dir, name);
    if dir.len() == 1 {
        assert(dir =~= seq!['/']);
        assert(j =~= dir + name);
        assert(j[0] == '/');
        assert(forall|k: int| 0 < k < j.len() ==> j[k] == name[k - 1]);
        lemma_split_at_last_sep(j, '/', 0);
        assert(j.subrange(1, j.len() as int) =~= name);
        assert(before_last(j, '/').len() == 0);
    } else {
        let i = dir.len() as int;
        assert(j =~= dir + seq!['/'] + name);
        assert(j[i] == '/');
        assert(forall|k: int| i < k < j.len() ==> j[k] == name[k - i - 1]);
        lemma_split_at_last_sep(j, '/', i);
        assert(j.subrange(i + 1, j.len() as int) =~= name);
        assert(j.subrange(0, i) =~= dir);
        assert(j[0] == dir[0]);
        assert(j.last() == name.last());
    }
}

} // verus!
