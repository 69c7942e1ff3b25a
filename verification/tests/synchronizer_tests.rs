use note_index::index::Index;
use note_index::synchronizer::apply_event;
use note_index::synchronizer::apply_new_document;
use note_index::synchronizer::next_state;
use note_index::synchronizer::FileData;
use note_index::synchronizer::SyncState;
use note_index::watcher::IndexEvent;

fn data(content: &str, modified: u64) -> FileData {
    FileData {
        content: content.to_string(),
        modified: Some(modified),
    }
}

// Applying Created(p) then Modified(p) with different content leaves one
// document at p, carrying the modified content under the id that was
// assigned on Created.
#[test]
fn created_then_modified_keeps_id_and_new_content() {
    let mut index = Index::new();
    let path = "notes/today.txt".to_string();

    let changed = apply_event(
        &mut index,
        &IndexEvent::Created(path.clone()),
        Some(data("first draft", 10)),
    );
    assert!(changed);

    let first_id = index.path_id(&path).expect("document should be indexed");

    let changed = apply_event(
        &mut index,
        &IndexEvent::Modified(path.clone()),
        Some(data("second draft revised", 20)),
    );
    assert!(changed);

    let second_id = index.path_id(&path).expect("document should still be indexed");
    assert_eq!(first_id, second_id);

    let stored = index.get_document(second_id).expect("document should exist");
    assert_eq!(stored.content, "second draft revised");
    assert_eq!(stored.modified, Some(20));

    assert_eq!(index.search_query("first"), Vec::<u128>::new());
    assert_eq!(index.search_query("revised"), vec![second_id]);
}

// A new path is indexed under the candidate id exactly when that id is
// free; an id already naming a live document changes nothing.
#[test]
fn new_document_under_chosen_id() {
    let mut index = Index::new();

    let changed = apply_new_document(&mut index, &"n.txt".to_string(), data("alpha", 1), 42);
    assert!(changed);
    assert_eq!(index.path_id(&"n.txt".to_string()), Some(42));
    assert_eq!(index.search_query("alpha"), vec![42]);

    let changed = apply_new_document(&mut index, &"other.txt".to_string(), data("beta", 2), 42);
    assert!(!changed);
    assert!(index.path_id(&"other.txt".to_string()).is_none());
    assert_eq!(index.search_query("beta"), Vec::<u128>::new());
    assert_eq!(index.search_query("alpha"), vec![42]);
}

// A failed read drops the event without touching the index.
#[test]
fn failed_read_drops_event() {
    let mut index = Index::new();
    let changed = apply_event(&mut index, &IndexEvent::Created("gone.txt".to_string()), None);
    assert!(!changed);
    assert_eq!(index.posting_count(), 0);
}

// A Deleted event removes the document at the path and reports whether
// anything was there.
#[test]
fn deleted_event_removes_document() {
    let mut index = Index::new();
    let path = "note.txt".to_string();
    apply_event(
        &mut index,
        &IndexEvent::Created(path.clone()),
        Some(data("short lived", 1)),
    );
    assert!(index.path_id(&path).is_some());

    let changed = apply_event(&mut index, &IndexEvent::Deleted(path.clone()), None);
    assert!(changed);
    assert!(index.path_id(&path).is_none());
    assert_eq!(index.search_query("short"), Vec::<u128>::new());

    let changed_again = apply_event(&mut index, &IndexEvent::Deleted(path), None);
    assert!(!changed_again);
}

// The control state drains on shutdown or a closed queue, checked
// before blocking, and never returns to running.
#[test]
fn control_state_transitions() {
    assert_eq!(next_state(SyncState::Running, false, false), SyncState::Running);
    assert_eq!(next_state(SyncState::Running, true, false), SyncState::Draining);
    assert_eq!(next_state(SyncState::Running, false, true), SyncState::Draining);
    assert_eq!(next_state(SyncState::Draining, false, false), SyncState::Draining);
}
