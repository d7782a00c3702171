//! The directory lister: turns one directory's raw children into the
//! canonical ordered entry sequence.
//!
//! The caller reads the directory (the engine performs no I/O) and hands in
//! each readable child's base name and directory flag; children it could not
//! read are simply absent. The lister joins names onto the directory,
//! classifies each child, and orders the result: directories first, then
//! files, each group ascending by name.

use vstd::prelude::*;
use crate::classify::{classify, classify_spec, is_hidden_name, IconClass};
use crate::order::{
    insert_by_key,
    key_sorted,
    lemma_insert_by_key_at,
    lemma_sort_by_key_permutes,
    lemma_sort_by_key_sorted,
    sort_by_key,
    HasKey,
};
use crate::paths::{
    file_name_of,
    is_canonical_dir,
    is_valid_name,
    join_path,
    lemma_join_parent,
    parent_of,
    path_join,
};
use crate::text::{str_before, text_le, text_lt};

verus! {

/// Why a listing could not be produced.
#[derive(Clone, Debug, PartialEq, Eq)]
pub enum ListError {
    /// The directory itself could not be opened or enumerated; carries the
    /// cause. Individual unreadable children are not errors: they are
    /// silently skipped by the reader.
    Unreadable(String),
}

/// What a directory read hands the engine for one readable child.
#[derive(Clone, Debug, PartialEq, Eq)]
pub struct RawChild {
    /// The child's base name.
    pub name: String,
    /// Whether the child is itself a directory.
    pub is_dir: bool,
}

pub struct RawChildView {
    pub name: Seq<char>,
    pub is_dir: bool,
}

impl View for RawChild {
    type V = RawChildView;

    open spec fn view(&self) -> RawChildView {
        RawChildView { name: self.name@, is_dir: self.is_dir }
    }
}

/// Whether a listed child is a directory or a file.
#[derive(Clone, Copy, Debug, PartialEq, Eq, Structural)]
pub enum EntryKind {
    Directory,
    File,
}

/// One listed filesystem child.
#[derive(Clone, Debug, PartialEq, Eq)]
pub struct DirEntry {
    /// The untruncated base name; shorten a copy for rendering, never this.
    pub display_name: String,
    /// The unique key among the entries of one listing.
    pub absolute_path: String,
    pub kind: EntryKind,
    /// True iff the base name starts with a dot.
    pub hidden: bool,
    pub icon_class: IconClass,
}

pub struct DirEntryView {
    pub display_name: Seq<char>,
    pub absolute_path: Seq<char>,
    pub kind: EntryKind,
    pub hidden: bool,
    pub icon_class: IconClass,
}

impl View for DirEntry {
    type V = DirEntryView;

    open spec fn view(&self) -> DirEntryView {
        DirEntryView {
            display_name: self.display_name@,
            absolute_path: self.absolute_path@,
            kind: self.kind,
            hidden: self.hidden,
            icon_class: self.icon_class,
        }
    }
}

impl HasKey for DirEntryView {
    open spec fn key(&self) -> Seq<char> {
        self.display_name
    }
}

pub open spec fn child_views(cs: Seq<RawChild>) -> Seq<RawChildView> {
    cs.map_values(|c: RawChild| c@)
}

pub open spec fn entry_views(es: Seq<DirEntry>) -> Seq<DirEntryView> {
    es.map_values(|e: DirEntry| e@)
}

/// The entry made for one raw child of `dir`.
pub open spec fn entry_of(dir: Seq<char>, c: RawChildView) -> DirEntryView {
    DirEntryView {
        display_name: c.name,
        absolute_path: join_path(dir, c.name),
        kind: if c.is_dir {
            EntryKind::Directory
        } else {
            EntryKind::File
        },
        hidden: is_hidden_name(c.name),
        icon_class: classify_spec(join_path(dir, c.name), c.is_dir),
    }
}

/// The entries for the children of `dir` on one side of the partition, in
/// order of appearance.
pub open spec fn entries_of(dir: Seq<char>, cs: Seq<RawChildView>, want_dir: bool) -> Seq<
    DirEntryView,
>
    decreases cs.len(),
{
    if cs.len() == 0 {
        Seq::empty()
    } else {
        let rest = entries_of(dir, cs.drop_last(), want_dir);
        if cs.last().is_dir == want_dir {
            rest.push(entry_of(dir, cs.last()))
        } else {
            rest
        }
    }
}

/// The canonical listing: directory entries sorted by name, then file
/// entries sorted by name.
pub open spec fn listing_of(dir: Seq<char>, cs: Seq<RawChildView>) -> Seq<DirEntryView> {
    sort_by_key(entries_of(dir, cs, true)) + sort_by_key(entries_of(dir, cs, false))
}

/// Inserts `e` at its sorted position by display name.
fn insert_entry(out: &mut Vec<DirEntry>, e: DirEntry)
    ensures
        entry_views(final(out)@) == insert_by_key(e@, entry_views(old(out)@)),
{
    let ghost s = entry_views(out@);
    let mut idx: usize = 0;
    while idx < out.len() && !str_before(e.display_name.as_str(), out[idx].display_name.as_str())
        invariant
            out@ == old(out)@,
            s == entry_views(out@),
            idx <= out@.len(),
            forall|k: int| 0 <= k < idx ==> !text_lt(e@.display_name, #[trigger] s[k].key()),
        decreases out@.len() - idx,
    {
        proof {
            assert(s[idx as int].key() == out@[idx as int].display_name@);
        }
        idx = idx + 1;
    }
    proof {
        if idx < out@.len() {
            assert(s[idx as int].key() == out@[idx as int].display_name@);
        }
        lemma_insert_by_key_at(e@, s, idx as int);
    }
    out.insert(idx, e);
    proof {
        assert(entry_views(out@) =~= s.subrange(0, idx as int) + seq![e@] + s.subrange(
            idx as int,
            s.len() as int,
        ));
    }
}

/// Sorts entries ascending by display name; the result is exactly the
/// specification-level sort.
fn sort_entries(v: Vec<DirEntry>) -> (r: Vec<DirEntry>)
    ensures
        entry_views(r@) == sort_by_key(entry_views(v@)),
{
    let ghost orig = entry_views(v@);
    let mut src = v;
    let mut out: Vec<DirEntry> = Vec::new();
    let ghost mut i: int = 0;
    while src.len() > 0
        invariant
            0 <= i <= orig.len(),
            entry_views(src@) == orig.skip(i),
            entry_views(out@) == sort_by_key(orig.take(i)),
        decreases src@.len(),
    {
        proof {
            assert(entry_views(src@).len() == src@.len());
            assert(i < orig.len());
        }
        let ghost pre = src@;
        let e = src.remove(0);
        proof {
            assert(entry_views(pre)[0] == e@);
            assert(e@ == orig[i]);
            assert forall|k: int| 0 <= k < src@.len() implies #[trigger] entry_views(src@)[k]
                == orig.skip(i + 1)[k] by {
                assert(src@[k] == pre[k + 1]);
                assert(entry_views(pre)[k + 1] == orig.skip(i)[k + 1]);
            }
            assert(entry_views(src@) =~= orig.skip(i + 1));
        }
        insert_entry(&mut out, e);
        proof {
            assert(orig.take(i + 1).drop_last() =~= orig.take(i));
            assert(orig.take(i + 1).last() == orig[i]);
            i = i + 1;
        }
    }
    proof {
        assert(orig.take(i) =~= orig);
    }
    out
}

/// Builds the canonical ordered listing of `dir` from its raw children.
pub fn build_listing(dir: &str, children: Vec<RawChild>) -> (r: Vec<DirEntry>)
    ensures
        entry_views(r@) == listing_of(dir@, child_views(children@)),
{
    let ghost cs = child_views(children@);
    let mut src = children;
    let mut dirs: Vec<DirEntry> = Vec::new();
    let mut files: Vec<DirEntry> = Vec::new();
    let ghost mut i: int = 0;
    while src.len() > 0
        invariant
            0 <= i <= cs.len(),
            child_views(src@) == cs.skip(i),
            entry_views(dirs@) == entries_of(dir@, cs.take(i), true),
            entry_views(files@) == entries_of(dir@, cs.take(i), false),
        decreases src@.len(),
    {
        proof {
            assert(child_views(src@).len() == src@.len());
            assert(i < cs.len());
        }
        let ghost pre = src@;
        let c = src.remove(0);
        let ghost cv = c@;
        proof {
            assert(child_views(pre)[0] == cv);
            assert(cv == cs[i]);
            assert forall|k: int| 0 <= k < src@.len() implies #[trigger] child_views(src@)[k]
                == cs.skip(i + 1)[k] by {
                assert(src@[k] == pre[k + 1]);
                assert(child_views(pre)[k + 1] == cs.skip(i)[k + 1]);
            }
            assert(child_views(src@) =~= cs.skip(i + 1));
        }
        let abs = path_join(dir, c.name.as_str());
        let icon = classify(abs.as_str(), c.is_dir);
        let hid = c.name.as_str().unicode_len() > 0 && c.name.as_str().get_char(0) == '.';
        let is_dir = c.is_dir;
        let e = DirEntry {
            display_name: c.name,
            absolute_path: abs,
            kind: if is_dir {
                EntryKind::Directory
            } else {
                EntryKind::File
            },
            hidden: hid,
            icon_class: icon,
        };
        proof {
            assert(e@ == entry_of(dir@, cv));
        }
        if is_dir {
            dirs.push(e);
        } else {
            files.push(e);
        }
        proof {
            assert(cs.take(i + 1).drop_last() =~= cs.take(i));
            assert(cs.take(i + 1).last() == cs[i]);
            assert(entry_views(dirs@) =~= entries_of(dir@, cs.take(i + 1), true));
            assert(entry_views(files@) =~= entries_of(dir@, cs.take(i + 1), false));
            i = i + 1;
        }
    }
    proof {
        assert(cs.take(i) =~= cs);
    }
    let mut out = sort_entries(dirs);
    let mut rest = sort_entries(files);
    out.append(&mut rest);
    proof {
        assert(entry_views(out@) =~= listing_of(dir@, cs));
    }
    out
}

/// The directory lister's contract over a caller-performed read: a
/// readable directory yields its canonical ordered listing, an unreadable
/// one surfaces the read's own error.
pub fn list(dir: &str, read: Result<Vec<RawChild>, ListError>) -> (r: Result<
    Vec<DirEntry>,
    ListError,
>)
    ensures
        (match read {
            Ok(ch) => r matches Ok(es) && entry_views(es@) == listing_of(dir@, child_views(ch@)),
            Err(e) => r == Err::<Vec<DirEntry>, ListError>(e),
        }),
{
    match read {
        Ok(ch) => Ok(build_listing(dir, ch)),
        Err(e) => Err(e),
    }
}

/// The display copy of a name: over 25 characters it becomes the first 22
/// and a three-dot ellipsis. The stored entry keeps the full name.
pub open spec fn truncated_spec(n: Seq<char>) -> Seq<char> {
    if n.len() > 25 {
        n.take(22) + "..."@
    } else {
        n
    }
}

/// Executable [`truncated_spec`].
pub fn truncate_display_name(name: &str) -> (r: String)
    ensures
        r@ == truncated_spec(name@),
{
    let n = name.unicode_len();
    if n > 25 {
        let mut s = name.substring_char(0, 22).to_owned();
        s.append("...");
        proof {
            assert(s@ =~= name@.take(22) + "..."@);
        }
        s
    } else {
        name.to_owned()
    }
}

/// Every element of one partition side is the entry of some raw child on
/// that side.
proof fn lemma_entries_of_elems(dir: Seq<char>, cs: Seq<RawChildView>, want_dir: bool)
    ensures
        forall|x: DirEntryView|
            #[trigger] entries_of(dir, cs, want_dir).contains(x) ==> exists|k: int|
                0 <= k < cs.len() && x == entry_of(dir, #[trigger] cs[k]) && cs[k].is_dir
                    == want_dir,
    decreases cs.len(),
{
    if cs.len() > 0 {
        lemma_entries_of_elems(dir, cs.drop_last(), want_dir);
        assert forall|x: DirEntryView| #[trigger] entries_of(dir, cs, want_dir).contains(
            x,
        ) implies exists|k: int|
            0 <= k < cs.len() && x == entry_of(dir, #[trigger] cs[k]) && cs[k].is_dir
                == want_dir by {
            let rest = entries_of(dir, cs.drop_last(), want_dir);
            let r = entries_of(dir, cs, want_dir);
            let j = choose|j: int| 0 <= j < r.len() && r[j] == x;
            if cs.last().is_dir == want_dir && j == r.len() - 1 {
                assert(x == entry_of(dir, cs[cs.len() - 1]));
            } else {
                assert(rest[j] == x);
                assert(rest.contains(x));
                let k = choose|k: int|
                    0 <= k < cs.drop_last().len() && x == entry_of(
                        dir,
                        #[trigger] cs.drop_last()[k],
                    ) && cs.drop_last()[k].is_dir == want_dir;
                assert(cs.drop_last()[k] == cs[k]);
            }
        }
    }
}

/// Every listed entry's path starts at the listed directory, so it is
/// absolute whenever the directory is.
pub proof fn lemma_listing_abs(dir: Seq<char>, cs: Seq<RawChildView>)
    requires
        crate::paths::is_abs(dir),
    ensures
        forall|i: int|
            0 <= i < listing_of(dir, cs).len() ==> crate::paths::is_abs(
                #[trigger] listing_of(dir, cs)[i].absolute_path,
            ),
{
    let a = sort_by_key(entries_of(dir, cs, true));
    let b = sort_by_key(entries_of(dir, cs, false));
    lemma_sort_by_key_permutes(entries_of(dir, cs, true));
    lemma_sort_by_key_permutes(entries_of(dir, cs, false));
    lemma_entries_of_elems(dir, cs, true);
    lemma_entries_of_elems(dir, cs, false);
    assert forall|i: int| 0 <= i < listing_of(dir, cs).len() implies crate::paths::is_abs(
        #[trigger] listing_of(dir, cs)[i].absolute_path,
    ) by {
        let e = listing_of(dir, cs)[i];
        if i < a.len() {
            assert(a[i] == e);
            assert(a.contains(e));
            assert(entries_of(dir, cs, true).contains(e));
            let k = choose|k: int|
                0 <= k < cs.len() && e == entry_of(dir, #[trigger] cs[k]) && cs[k].is_dir == true;
            assert(e.absolute_path == join_path(dir, cs[k].name));
            assert(e.absolute_path[0] == dir[0]);
        } else {
            assert(b[i - a.len()] == e);
            assert(b.contains(e));
            assert(entries_of(dir, cs, false).contains(e));
            let k = choose|k: int|
                0 <= k < cs.len() && e == entry_of(dir, #[trigger] cs[k]) && cs[k].is_dir == false;
            assert(e.absolute_path == join_path(dir, cs[k].name));
            assert(e.absolute_path[0] == dir[0]);
        }
    }
}

proof fn lemma_entries_of_len(dir: Seq<char>, cs: Seq<RawChildView>)
    ensures
        entries_of(dir, cs, true).len() + entries_of(dir, cs, false).len() == cs.len(),
    decreases cs.len(),
{
    if cs.len() > 0 {
        lemma_entries_of_len(dir, cs.drop_last());
    }
}

proof fn lemma_entries_of_complete(dir: Seq<char>, cs: Seq<RawChildView>, want_dir: bool)
    ensures
        forall|k: int|
            0 <= k < cs.len() && cs[k].is_dir == want_dir ==> entries_of(
                dir,
                cs,
                want_dir,
            ).contains(entry_of(dir, #[trigger] cs[k])),
    decreases cs.len(),
{
    if cs.len() > 0 {
        lemma_entries_of_complete(dir, cs.drop_last(), want_dir);
        let r = entries_of(dir, cs, want_dir);
        let rest = entries_of(dir, cs.drop_last(), want_dir);
        assert forall|k: int| 0 <= k < cs.len() && cs[k].is_dir == want_dir implies r.contains(
            entry_of(dir, #[trigger] cs[k]),
        ) by {
            if k < cs.len() - 1 {
                assert(cs.drop_last()[k] == cs[k]);
                assert(rest.contains(entry_of(dir, cs[k])));
                let j = choose|j: int| 0 <= j < rest.len() && rest[j] == entry_of(dir, cs[k]);
                assert(r[j] == entry_of(dir, cs[k]));
            } else {
                assert(r.last() == entry_of(dir, cs[k]));
            }
        }
    }
}

/// Nothing is dropped and nothing is invented: a listing has exactly one
/// entry per raw child, and every child's entry is in it.
pub proof fn lemma_listing_complete(dir: Seq<char>, cs: Seq<RawChildView>)
    ensures
        listing_of(dir, cs).len() == cs.len(),
        forall|k: int|
            0 <= k < cs.len() ==> listing_of(dir, cs).contains(entry_of(dir, #[trigger] cs[k])),
{
    let ta = entries_of(dir, cs, true);
    let tb = entries_of(dir, cs, false);
    let a = sort_by_key(ta);
    let b = sort_by_key(tb);
    lemma_entries_of_len(dir, cs);
    lemma_sort_by_key_permutes(ta);
    lemma_sort_by_key_permutes(tb);
    lemma_entries_of_complete(dir, cs, true);
    lemma_entries_of_complete(dir, cs, false);
    assert forall|k: int| 0 <= k < cs.len() implies listing_of(dir, cs).contains(
        entry_of(dir, #[trigger] cs[k]),
    ) by {
        let e = entry_of(dir, cs[k]);
        if cs[k].is_dir {
            assert(a.contains(e));
            let j = choose|j: int| 0 <= j < a.len() && a[j] == e;
            assert(listing_of(dir, cs)[j] == e);
        } else {
            assert(b.contains(e));
            let j = choose|j: int| 0 <= j < b.len() && b[j] == e;
            assert(listing_of(dir, cs)[a.len() + j] == e);
        }
    }
}

/// No recursion leakage: every listed entry sits directly in the listed
/// directory, under its own untruncated name, at an absolute canonical path.
pub proof fn lemma_listing_paths(dir: Seq<char>, cs: Seq<RawChildView>)
    requires
        is_canonical_dir(dir),
        forall|k: int| 0 <= k < cs.len() ==> is_valid_name(#[trigger] cs[k].name),
    ensures
        forall|i: int|
            0 <= i < listing_of(dir, cs).len() ==> {
                let e = #[trigger] listing_of(dir, cs)[i];
                parent_of(e.absolute_path) == Some(dir) && file_name_of(e.absolute_path)
                    == e.display_name && is_canonical_dir(e.absolute_path)
            },
{
    let a = sort_by_key(entries_of(dir, cs, true));
    let b = sort_by_key(entries_of(dir, cs, false));
    lemma_sort_by_key_permutes(entries_of(dir, cs, true));
    lemma_sort_by_key_permutes(entries_of(dir, cs, false));
    lemma_entries_of_elems(dir, cs, true);
    lemma_entries_of_elems(dir, cs, false);
    assert forall|i: int| 0 <= i < listing_of(dir, cs).len() implies {
        let e = #[trigger] listing_of(dir, cs)[i];
        parent_of(e.absolute_path) == Some(dir) && file_name_of(e.absolute_path)
            == e.display_name && is_canonical_dir(e.absolute_path)
    } by {
        let e = listing_of(dir, cs)[i];
        if i < a.len() {
            assert(a[i] == e);
            assert(a.contains(e));
            assert(entries_of(dir, cs, true).contains(e));
            let k = choose|k: int|
                0 <= k < cs.len() && e == entry_of(dir, #[trigger] cs[k]) && cs[k].is_dir == true;
            lemma_join_parent(dir, cs[k].name);
        } else {
            assert(b[i - a.len()] == e);
            assert(b.contains(e));
            assert(entries_of(dir, cs, false).contains(e));
            let k = choose|k: int|
                0 <= k < cs.len() && e == entry_of(dir, #[trigger] cs[k]) && cs[k].is_dir == false;
            lemma_join_parent(dir, cs[k].name);
        }
    }
}

/// The ordering law: in any listing, every directory entry precedes every
/// file entry, and entries of the same kind are ascending by name.
pub proof fn lemma_listing_ordered(dir: Seq<char>, cs: Seq<RawChildView>)
    ensures
        forall|i: int, j: int|
            0 <= i < j < listing_of(dir, cs).len() ==> !(#[trigger] listing_of(dir, cs)[i].kind
                is File && #[trigger] listing_of(dir, cs)[j].kind is Directory),
        forall|i: int, j: int|
            0 <= i < j < listing_of(dir, cs).len() && #[trigger] listing_of(dir, cs)[i].kind
                == #[trigger] listing_of(dir, cs)[j].kind ==> text_le(
                listing_of(dir, cs)[i].display_name,
                listing_of(dir, cs)[j].display_name,
            ),
{
    let ta = entries_of(dir, cs, true);
    let tb = entries_of(dir, cs, false);
    let a = sort_by_key(ta);
    let b = sort_by_key(tb);
    let l = listing_of(dir, cs);
    lemma_sort_by_key_permutes(ta);
    lemma_sort_by_key_permutes(tb);
    lemma_sort_by_key_sorted(ta);
    lemma_sort_by_key_sorted(tb);
    lemma_entries_of_elems(dir, cs, true);
    lemma_entries_of_elems(dir, cs, false);
    assert forall|i: int| 0 <= i < a.len() implies #[trigger] a[i].kind is Directory by {
        assert(a.contains(a[i]));
        assert(ta.contains(a[i]));
    }
    assert forall|i: int| 0 <= i < b.len() implies #[trigger] b[i].kind is File by {
        assert(b.contains(b[i]));
        assert(tb.contains(b[i]));
    }
    assert forall|i: int, j: int|
        0 <= i < j < l.len() && #[trigger] l[i].kind == #[trigger] l[j].kind implies text_le(
        l[i].display_name,
        l[j].display_name,
    ) by {
        if j < a.len() {
            assert(l[i] == a[i] && l[j] == a[j]);
            assert(text_le(a[i].key(), a[j].key()));
        } else if i >= a.len() {
            assert(l[i] == b[i - a.len()] && l[j] == b[j - a.len()]);
            assert(text_le(b[i - a.len()].key(), b[j - a.len()].key()));
        } else {
            assert(l[i] == a[i] && l[j] == b[j - a.len()]);
            assert(a[i].kind is Directory && b[j - a.len()].kind is File);
        }
    }
}

} // verus!
