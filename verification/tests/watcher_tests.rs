use note_index::watcher::translate_event;
use note_index::watcher::IndexEvent;
use note_index::watcher::RawEventKind;
use std::sync::mpsc;

fn run_watcher_with_event(kind: RawEventKind, paths: Vec<&str>) -> Vec<IndexEvent> {
    // 1. Create channel
    let (tx, rx) = mpsc::channel::<IndexEvent>();

    // 2. Translate the raw notification into domain events
    let events = translate_event(kind, &paths.iter().map(|p| p.to_string()).collect());

    // 3. Send a domain level event per affected path, as the watcher would
    for ev in events {
        let _ = tx.send(ev);
    }

    // 4. Drain rx and return collected IndexEvents
    let mut rec_txs = Vec::new();

    // Keep trying to receive until the channel is empty
    while let Ok(rec) = rx.try_recv() {
        rec_txs.push(rec);
    }

    rec_txs
}

#[test]
fn watcher_sends_created_event_for_txt_file() {
    // Simulate a Create notification with a .txt path
    let received = run_watcher_with_event(RawEventKind::Create, vec!["note.txt"]);

    assert_eq!(received.len(), 1, "Expected an IndexEvent");
    match &received[0] {
        IndexEvent::Created(path) => {
            assert_eq!(path, "note.txt");
        }
        _ => panic!("Expected Created event"),
    }
}

#[test]
fn watcher_filters_non_txt_md_files() {
    // A Create notification for a .jpg and a .tmp file produces nothing
    let received = run_watcher_with_event(RawEventKind::Create, vec!["photo.jpg", "scratch.tmp"]);
    assert!(received.is_empty());
}

#[test]
fn watcher_handles_multiple_paths_in_one_event() {
    // One notification can affect several paths; only .txt/.md pass
    let received = run_watcher_with_event(
        RawEventKind::Create,
        vec!["a.txt", "b.md", "c.jpg", "d.tmp"],
    );

    assert_eq!(received.len(), 2);
    match &received[0] {
        IndexEvent::Created(path) => assert_eq!(path, "a.txt"),
        _ => panic!("Expected Created event"),
    }
    match &received[1] {
        IndexEvent::Created(path) => assert_eq!(path, "b.md"),
        _ => panic!("Expected Created event"),
    }
}

#[test]
fn watcher_gracefully_handles_channel_closed() {
    // 1. Set up a channel and drop the receiver immediately
    let (tx, rx) = mpsc::channel::<IndexEvent>();
    drop(rx);

    // 2. Translating and sending must not panic; send just reports an error
    let events = translate_event(RawEventKind::Create, &vec!["note.txt".to_string()]);
    for ev in events {
        assert!(tx.send(ev).is_err());
    }
}

#[test]
fn watcher_translates_modify_and_delete_events() {
    let modified = run_watcher_with_event(RawEventKind::Modify, vec!["note.txt"]);
    assert_eq!(modified.len(), 1);
    match &modified[0] {
        IndexEvent::Modified(path) => assert_eq!(path, "note.txt"),
        _ => panic!("Expected Modified event"),
    }

    let deleted = run_watcher_with_event(RawEventKind::Remove, vec!["note.md"]);
    assert_eq!(deleted.len(), 1);
    match &deleted[0] {
        IndexEvent::Deleted(path) => assert_eq!(path, "note.md"),
        _ => panic!("Expected Deleted event"),
    }
}

#[test]
fn watcher_ignores_unrelated_kinds() {
    let received = run_watcher_with_event(RawEventKind::Other, vec!["note.txt"]);
    assert!(received.is_empty());
}
