use note_index::document::Document;
use note_index::index::Index;
use note_index::snapshot::restore;
use note_index::snapshot::Snapshot;

fn doc(id: u128, path: &str, content: &str) -> Document {
    Document {
        id,
        path: path.to_string(),
        content: content.to_string(),
        modified: Some(5),
    }
}

// A snapshot restores to an index with exactly the same maps: searches,
// documents, paths and stored token sets all carry over.
#[test]
fn snapshot_round_trips() {
    let mut index = Index::new();
    index.add_document(doc(1, "a.txt", "alpha beta"));
    index.add_document(doc(2, "b.txt", "beta gamma"));

    let snap = index.snapshot();
    let restored = restore(snap).expect("a snapshot of a live index must restore");

    let mut hits = restored.search_query("beta");
    hits.sort();
    assert_eq!(hits, vec![1, 2]);
    assert_eq!(restored.search_query("alpha"), vec![1]);
    assert_eq!(restored.path_id(&"b.txt".to_string()), Some(2));
    let stored = restored.get_document(1).expect("document should survive");
    assert_eq!(stored.content, "alpha beta");
    assert_eq!(stored.modified, Some(5));
}

#[test]
fn empty_snapshot_restores_to_empty_index() {
    let snap = Snapshot {
        postings: vec![],
        documents: vec![],
        path_to_id: vec![],
        doc_tokens: vec![],
    };
    let restored = restore(snap).expect("an empty snapshot is consistent");
    assert_eq!(restored.posting_count(), 0);
}

// A snapshot whose postings disagree with the stored documents is
// rejected whole.
#[test]
fn inconsistent_snapshot_is_rejected() {
    let mut index = Index::new();
    index.add_document(doc(1, "a.txt", "alpha beta"));
    let mut snap = index.snapshot();

    // claim a token that no document carries
    snap.postings.push(("ghost".to_string(), vec![1]));

    assert!(restore(snap).is_none());
}

// An empty posting list violates the no-orphan invariant and is
// rejected.
#[test]
fn empty_posting_list_is_rejected() {
    let mut index = Index::new();
    index.add_document(doc(1, "a.txt", "alpha"));
    let mut snap = index.snapshot();

    snap.postings.push(("hollow".to_string(), vec![]));

    assert!(restore(snap).is_none());
}

// A stored token set that does not match the document's content is
// rejected rather than silently adopted.
#[test]
fn stale_token_cache_is_rejected() {
    let mut index = Index::new();
    index.add_document(doc(1, "a.txt", "alpha"));
    let mut snap = index.snapshot();

    snap.doc_tokens = vec![(1, vec!["alpha".to_string(), "stale".to_string()])];

    assert!(restore(snap).is_none());
}

// Duplicate keys make a snapshot ambiguous; it is rejected.
#[test]
fn duplicate_path_entries_are_rejected() {
    let mut index = Index::new();
    index.add_document(doc(1, "a.txt", "alpha"));
    let mut snap = index.snapshot();

    snap.path_to_id.push(("a.txt".to_string(), 1));

    assert!(restore(snap).is_none());
}
