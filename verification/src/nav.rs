//! Navigation state: the single owner of the current directory.
//!
//! `NavState` holds exactly one current path and the most recently produced
//! entry sequence, and changes only through successful navigation commands.
//! The engine does no I/O: for each command the caller probes and reads the
//! target directory and hands the outcome in as a [`TargetRead`]; a failed
//! navigation leaves both the path and the entries exactly as they were, so
//! readers never observe a partial update.

use vstd::prelude::*;
use crate::listing::{
    build_listing,
    child_views,
    entry_views,
    lemma_listing_abs,
    listing_of,
    DirEntry,
    DirEntryView,
    EntryKind,
    ListError,
    RawChild,
    RawChildView,
};
use crate::paths::{is_abs, lemma_parent_abs, opt_view, parent_dir, parent_of};

verus! {

/// Why a navigation command was rejected. Every failure leaves the state in
/// its last good configuration.
#[derive(Clone, Debug, PartialEq, Eq)]
pub enum NavError {
    /// The target does not exist or is not a directory.
    InvalidTarget,
    /// The target directory could not be read; carries the cause.
    Unreadable(String),
    /// `navigate_up` at a filesystem root: a benign no-op signal.
    NoParent,
}

/// The outcome of the caller's attempt to probe and read a navigation
/// target, handed to the engine as a plain value.
pub enum TargetRead {
    /// The target does not exist or is not a directory.
    InvalidTarget,
    /// The target is a directory but could not be enumerated.
    Failed(ListError),
    /// The readable children (unreadable ones already silently skipped).
    Children(Vec<RawChild>),
}

/// What activating an entry should do.
#[derive(Clone, Debug, PartialEq, Eq)]
pub enum ActivationTarget {
    /// The entry is a directory: navigate into it.
    EnterDirectory(String),
    /// The entry is a file: ask the display layer to open this absolute
    /// path with the OS default handler. The engine never launches anything
    /// itself.
    OpenExternally(String),
}

/// The effect of a completed activation.
#[derive(Clone, Debug, PartialEq, Eq)]
pub enum Activation {
    /// The activated directory was adopted as the current directory.
    Navigated,
    /// The named file should be opened externally; the state is untouched.
    OpenExternally(String),
}

/// The abstract navigation state: one current path, one entry sequence.
pub struct NavView {
    pub current_path: Seq<char>,
    pub entries: Seq<DirEntryView>,
}

/// The single owner of the current directory and its published listing.
pub struct NavState {
    current_path: String,
    entries: Vec<DirEntry>,
}

impl View for NavState {
    type V = NavView;

    closed spec fn view(&self) -> NavView {
        NavView { current_path: self.current_path@, entries: entry_views(self.entries@) }
    }
}

/// A successful adoption of `candidate` seen against the children `cs` the
/// caller read: path and entries are replaced together, the entries being
/// exactly the canonical listing.
pub open spec fn nav_ok_post(
    pre: NavView,
    candidate: Seq<char>,
    cs: Seq<RawChildView>,
    post: NavView,
) -> bool {
    post.current_path == candidate && post.entries == listing_of(candidate, cs)
}

impl NavState {
    /// Well-formed: the current path is absolute and so is every entry's.
    pub open spec fn wf(&self) -> bool {
        is_abs(self@.current_path) && forall|i: int|
            0 <= i < self@.entries.len() ==> is_abs(#[trigger] self@.entries[i].absolute_path)
    }

    /// A fresh state at `initial`, with nothing listed yet.
    pub fn new(initial: String) -> (s: Self)
        requires
            is_abs(initial@),
        ensures
            s@.current_path == initial@,
            s@.entries == Seq::<DirEntryView>::empty(),
            s.wf(),
    {
        let s = NavState { current_path: initial, entries: Vec::new() };
        proof {
            assert(entry_views(s.entries@) =~= Seq::<DirEntryView>::empty());
        }
        s
    }

    /// The current directory, for the address display.
    pub fn current_path(&self) -> (r: &str)
        ensures
            r@ == self@.current_path,
    {
        self.current_path.as_str()
    }

    /// The published entries snapshot; view projections only read it.
    pub fn entries(&self) -> (r: &Vec<DirEntry>)
        ensures
            entry_views(r@) == self@.entries,
    {
        &self.entries
    }

    /// How many entries the current listing has.
    pub fn entry_count(&self) -> (n: usize)
        ensures
            n == self@.entries.len(),
    {
        self.entries.len()
    }

    /// Adopt `candidate` as the current directory. On success the path and
    /// the entries are replaced together (never one without the other); on
    /// any failure both are exactly unchanged.
    pub fn navigate_to(&mut self, candidate: &str, read: TargetRead) -> (r: Result<(), NavError>)
        requires
            old(self).wf(),
            is_abs(candidate@),
        ensures
            final(self).wf(),
            (match read {
                TargetRead::InvalidTarget => r == Err::<(), NavError>(NavError::InvalidTarget)
                    && final(self)@ == old(self)@,
                TargetRead::Failed(ListError::Unreadable(c)) => r == Err::<(), NavError>(
                    NavError::Unreadable(c),
                ) && final(self)@ == old(self)@,
                TargetRead::Children(ch) => r == Ok::<(), NavError>(()) && nav_ok_post(
                    old(self)@,
                    candidate@,
                    child_views(ch@),
                    final(self)@,
                ),
            }),
    {
        match read {
            TargetRead::InvalidTarget => Err(NavError::InvalidTarget),
            TargetRead::Failed(e) => match e {
                ListError::Unreadable(c) => Err(NavError::Unreadable(c)),
            },
            TargetRead::Children(ch) => {
                let ghost cs = child_views(ch@);
                let listed = build_listing(candidate, ch);
                self.current_path = candidate.to_owned();
                self.entries = listed;
                proof {
                    lemma_listing_abs(candidate@, cs);
                }
                Ok(())
            },
        }
    }

    /// The path `navigate_up` would adopt, for the caller to read first.
    pub fn up_target(&self) -> (r: Option<String>)
        ensures
            opt_view(r) == parent_of(self@.current_path),
    {
        parent_dir(self.current_path.as_str())
    }

    /// Navigate to the parent of the current directory; at a filesystem
    /// root this is a benign no-op. `read` is the caller's read of that
    /// parent and is ignored when there is none.
    pub fn navigate_up(&mut self, read: TargetRead) -> (r: Result<(), NavError>)
        requires
            old(self).wf(),
        ensures
            final(self).wf(),
            (match parent_of(old(self)@.current_path) {
                None => r == Err::<(), NavError>(NavError::NoParent) && final(self)@ == old(
                    self,
                )@,
                Some(p) => (match read {
                    TargetRead::InvalidTarget => r == Err::<(), NavError>(NavError::InvalidTarget)
                        && final(self)@ == old(self)@,
                    TargetRead::Failed(ListError::Unreadable(c)) => r == Err::<(), NavError>(
                        NavError::Unreadable(c),
                    ) && final(self)@ == old(self)@,
                    TargetRead::Children(ch) => r == Ok::<(), NavError>(()) && nav_ok_post(
                        old(self)@,
                        p,
                        child_views(ch@),
                        final(self)@,
                    ),
                }),
            }),
    {
        proof {
            lemma_parent_abs(self@.current_path);
        }
        match parent_dir(self.current_path.as_str()) {
            None => Err(NavError::NoParent),
            Some(p) => self.navigate_to(p.as_str(), read),
        }
    }

    /// What activating the entry at `index` should do; out-of-range indices
    /// do nothing. Reading this never changes the state.
    pub fn activation_target(&self, index: usize) -> (r: Option<ActivationTarget>)
        ensures
            (match r {
                None => index >= self@.entries.len(),
                Some(ActivationTarget::EnterDirectory(p)) => index < self@.entries.len()
                    && self@.entries[index as int].kind == EntryKind::Directory && p@
                    == self@.entries[index as int].absolute_path,
                Some(ActivationTarget::OpenExternally(p)) => index < self@.entries.len()
                    && self@.entries[index as int].kind == EntryKind::File && p@
                    == self@.entries[index as int].absolute_path,
            }),
    {
        if index >= self.entries.len() {
            return None;
        }
        let p = self.entries[index].absolute_path.clone();
        match self.entries[index].kind {
            EntryKind::Directory => Some(ActivationTarget::EnterDirectory(p)),
            EntryKind::File => Some(ActivationTarget::OpenExternally(p)),
        }
    }

    /// Activate the entry at `index`: a directory is navigated into (with
    /// `read` the caller's read of it), a file is handed back for external
    /// opening with the state untouched, and an out-of-range index is
    /// rejected.
    pub fn activate(&mut self, index: usize, read: TargetRead) -> (r: Result<Activation, NavError>)
        requires
            old(self).wf(),
        ensures
            final(self).wf(),
            index >= old(self)@.entries.len() ==> r == Err::<Activation, NavError>(
                NavError::InvalidTarget,
            ) && final(self)@ == old(self)@,
            (index < old(self)@.entries.len() && old(self)@.entries[index as int].kind
                == EntryKind::File) ==> final(self)@ == old(self)@ && (r matches Ok(
                Activation::OpenExternally(p),
            ) && p@ == old(self)@.entries[index as int].absolute_path),
            (index < old(self)@.entries.len() && old(self)@.entries[index as int].kind
                == EntryKind::Directory) ==> (match read {
                TargetRead::InvalidTarget => r == Err::<Activation, NavError>(
                    NavError::InvalidTarget,
                ) && final(self)@ == old(self)@,
                TargetRead::Failed(ListError::Unreadable(c)) => r == Err::<Activation, NavError>(
                    NavError::Unreadable(c),
                ) && final(self)@ == old(self)@,
                TargetRead::Children(ch) => r == Ok::<Activation, NavError>(Activation::Navigated)
                    && nav_ok_post(
                    old(self)@,
                    old(self)@.entries[index as int].absolute_path,
                    child_views(ch@),
                    final(self)@,
                ),
            }),
    {
        if index >= self.entries.len() {
            return Err(NavError::InvalidTarget);
        }
        let p = self.entries[index].absolute_path.clone();
        match self.entries[index].kind {
            EntryKind::File => Ok(Activation::OpenExternally(p)),
            EntryKind::Directory => {
                proof {
                    assert(p@ == self@.entries[index as int].absolute_path);
                    assert(is_abs(p@));
                }
                match self.navigate_to(p.as_str(), read) {
                    Ok(()) => Ok(Activation::Navigated),
                    Err(e) => Err(e),
                }
            },
        }
    }
}

/// Idempotence: after a successful navigation, navigating again to the now
/// current directory and seeing the same children (the directory unchanged
/// on disk) reproduces an equal entry sequence and the same path.
pub proof fn lemma_navigate_idempotent(
    s0: NavView,
    s1: NavView,
    s2: NavView,
    candidate: Seq<char>,
    cs: Seq<RawChildView>,
)
    requires
        nav_ok_post(s0, candidate, cs, s1),
        nav_ok_post(s1, s1.current_path, cs, s2),
    ensures
        s2.entries == s1.entries,
        s2.current_path == s1.current_path,
{
}

} // verus!
