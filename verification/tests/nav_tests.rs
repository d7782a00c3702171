use casper::listing::{EntryKind, ListError, RawChild};
use casper::nav::{Activation, ActivationTarget, NavError, NavState, TargetRead};

fn child(name: &str, is_dir: bool) -> RawChild {
    RawChild { name: name.to_string(), is_dir }
}

fn home_children() -> TargetRead {
    TargetRead::Children(vec![child("notes.txt", false), child("Projects", true)])
}

#[test]
fn end_to_end_activation_scenario() {
    let mut nav = NavState::new("/home/u".to_string());
    assert_eq!(nav.navigate_to("/home/u", home_children()), Ok(()));

    let entries = nav.entries().clone();
    assert_eq!(entries.len(), 2);
    assert_eq!(entries[0].display_name, "Projects");
    assert_eq!(entries[0].kind, EntryKind::Directory);
    assert_eq!(entries[1].display_name, "notes.txt");
    assert_eq!(entries[1].kind, EntryKind::File);

    // Activating the file only names the target; the state is untouched.
    assert_eq!(
        nav.activation_target(1),
        Some(ActivationTarget::OpenExternally("/home/u/notes.txt".to_string()))
    );
    let opened = nav.activate(1, TargetRead::Children(vec![]));
    assert_eq!(opened, Ok(Activation::OpenExternally("/home/u/notes.txt".to_string())));
    assert_eq!(nav.current_path(), "/home/u");
    assert_eq!(nav.entries(), &entries);

    // Activating the directory adopts it and repopulates the entries.
    assert_eq!(
        nav.activation_target(0),
        Some(ActivationTarget::EnterDirectory("/home/u/Projects".to_string()))
    );
    let entered = nav.activate(0, TargetRead::Children(vec![child("demo.rs", false)]));
    assert_eq!(entered, Ok(Activation::Navigated));
    assert_eq!(nav.current_path(), "/home/u/Projects");
    assert_eq!(nav.entry_count(), 1);
    assert_eq!(nav.entries()[0].display_name, "demo.rs");
}

#[test]
fn failing_navigation_changes_nothing() {
    let mut nav = NavState::new("/home/u".to_string());
    assert_eq!(nav.navigate_to("/home/u", home_children()), Ok(()));
    let path_before = nav.current_path().to_string();
    let entries_before = nav.entries().clone();

    let denied = nav.navigate_to(
        "/home/u/locked",
        TargetRead::Failed(ListError::Unreadable("permission denied".to_string())),
    );
    assert_eq!(denied, Err(NavError::Unreadable("permission denied".to_string())));
    assert_eq!(nav.current_path(), path_before);
    assert_eq!(nav.entries(), &entries_before);

    let missing = nav.navigate_to("/does/not/exist", TargetRead::InvalidTarget);
    assert_eq!(missing, Err(NavError::InvalidTarget));
    assert_eq!(nav.current_path(), path_before);
    assert_eq!(nav.entries(), &entries_before);
}

#[test]
fn renavigating_the_same_directory_reproduces_the_entries() {
    let mut nav = NavState::new("/home/u".to_string());
    assert_eq!(nav.navigate_to("/home/u", home_children()), Ok(()));
    let first = nav.entries().clone();
    assert_eq!(nav.navigate_to("/home/u", home_children()), Ok(()));
    assert_eq!(nav.entries(), &first);
    assert_eq!(nav.current_path(), "/home/u");
}

#[test]
fn navigate_up_walks_to_the_parent() {
    let mut nav = NavState::new("/home/u".to_string());
    assert_eq!(nav.up_target(), Some("/home".to_string()));
    assert_eq!(nav.navigate_up(TargetRead::Children(vec![child("u", true)])), Ok(()));
    assert_eq!(nav.current_path(), "/home");
    assert_eq!(nav.entries()[0].display_name, "u");

    assert_eq!(nav.up_target(), Some("/".to_string()));
    assert_eq!(nav.navigate_up(TargetRead::Children(vec![])), Ok(()));
    assert_eq!(nav.current_path(), "/");
}

#[test]
fn navigate_up_at_the_root_is_a_benign_no_op() {
    let mut nav = NavState::new("/".to_string());
    assert_eq!(nav.up_target(), None);
    let before = nav.entries().clone();
    assert_eq!(nav.navigate_up(TargetRead::Children(vec![])), Err(NavError::NoParent));
    assert_eq!(nav.current_path(), "/");
    assert_eq!(nav.entries(), &before);
}

#[test]
fn out_of_range_activation_is_rejected_without_change() {
    let mut nav = NavState::new("/home/u".to_string());
    assert_eq!(nav.navigate_to("/home/u", home_children()), Ok(()));
    let entries_before = nav.entries().clone();
    assert_eq!(nav.activation_target(2), None);
    assert_eq!(nav.activate(2, TargetRead::Children(vec![])), Err(NavError::InvalidTarget));
    assert_eq!(nav.current_path(), "/home/u");
    assert_eq!(nav.entries(), &entries_before);
}

#[test]
fn a_fresh_state_has_no_entries() {
    let nav = NavState::new("/home/u".to_string());
    assert_eq!(nav.current_path(), "/home/u");
    assert_eq!(nav.entry_count(), 0);
}
