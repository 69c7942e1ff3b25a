use note_index::document::Document;
use note_index::index::Index;

fn doc(id: u128, path: &str, content: &str) -> Document {
    Document {
        id,
        path: path.to_string(),
        content: content.to_string(),
        modified: None,
    }
}

fn postings_of(index: &Index, token: &str) -> Vec<u128> {
    index
        .postings_for(&token.to_string())
        .map(|s| s.to_vec())
        .unwrap_or_default()
}

#[test]
fn new_index_is_empty() {
    let index = Index::new();
    assert!(index.posting_count() == 0);
}

#[test]
fn add_single_document_indexes_tokens() {
    let mut index = Index::new();

    let doc = doc(1, "note.txt", "Hello world");

    // Extract what we need before move so we can still assert
    let doc_id = doc.id;

    index.add_document(doc);

    let hello = index.postings_for(&"hello".to_string()).unwrap();
    let world = index.postings_for(&"world".to_string()).unwrap();
    assert!(hello.contains(doc_id));
    assert!(world.contains(doc_id));

    assert_eq!(hello.len(), 1);
    assert_eq!(world.len(), 1);
}

#[test]
fn add_two_docs() {
    let mut index = Index::new();

    let doc1 = doc(1, "note.txt", "Hello world");
    let doc2 = doc(2, "note.txt", "Hello world how are you friend?");

    // Grab ids before moving doc ownership
    let doc_id = doc1.id;
    let doc_id_2 = doc2.id;

    index.add_document(doc1);
    index.add_document(doc2);

    assert!(index.postings_for(&"hello".to_string()).unwrap().contains(doc_id));
    assert!(index.postings_for(&"friend".to_string()).unwrap().contains(doc_id_2));

    assert_eq!(index.postings_for(&"hello".to_string()).unwrap().len(), 2);
    assert_eq!(index.postings_for(&"world".to_string()).unwrap().len(), 2);
}

#[test]
fn search_empty_query_returns_empty_vec() {
    let index = Index::new();
    let query = "";

    let search_results = index.search_query(query);
    let empty_vec: Vec<u128> = Vec::new();

    assert_eq!(search_results, empty_vec);
}

#[test]
fn search_single_token_returns_matching_doc() {
    let query = "I believe";
    let mut index = Index::new();

    let doc = doc(1, "note.txt", "I believe that we will win because we are champtions at hear");

    let doc_id = doc.id;
    index.add_document(doc);

    let all_docs_ids = index.search_query(query);

    assert_eq!(all_docs_ids.len(), 1);
    assert!(all_docs_ids.contains(&doc_id));
}

#[test]
fn search_multiple_tokens_returns_union_of_docs() {
    let query = "believe victory";
    let mut index = Index::new();

    let doc1 = doc(1, "note1.txt", "I believe in hard work");
    let doc2 = doc(2, "note2.txt", "Victory comes to the prepared");

    let doc_id = doc1.id;
    let doc_id_2 = doc2.id;

    index.add_document(doc1);
    index.add_document(doc2);

    let results = index.search_query(query);

    assert_eq!(results.len(), 2);
    assert!(results.contains(&doc_id));
    assert!(results.contains(&doc_id_2));
}

#[test]
fn search_unknown_token_returns_empty_vec() {
    let query = "I will";
    let mut index = Index::new();

    let doc = doc(1, "note.txt", "Sometimes you just want a chicken sandwich, lol");

    index.add_document(doc);

    let all_docs_ids = index.search_query(query);

    assert_eq!(all_docs_ids.len(), 0);
}

// Even though multiple tokens match (and one appears multiple times),
// the document ID must appear exactly once in results.
#[test]
fn search_does_not_duplicate_document_ids() {
    let query = "Good morning";
    let mut index = Index::new();

    let doc = doc(1, "note.txt", "I just want to say good morning, friends! So, good morning!");

    let doc_id = doc.id;

    index.add_document(doc);

    let all_docs_ids = index.search_query(query);

    assert_eq!(all_docs_ids.len(), 1);
    assert!(all_docs_ids.contains(&doc_id));
}

#[test]
fn remove_document_removes_doc_from_postings() {
    let mut index = Index::new();

    let doc1 = doc(1, "note.txt", "I believe that we will win");
    let doc2 = doc(2, "note.txt", "I believe!");

    let doc1_id = doc1.id;
    let doc2_id = doc2.id;

    index.add_document(doc1);
    index.add_document(doc2);

    index.remove_document(doc1_id);

    // Shared token still exists but only contains doc2
    let postings_for_believe = postings_of(&index, "believe");
    assert!(!postings_for_believe.contains(&doc1_id));
    assert!(postings_for_believe.contains(&doc2_id));

    // Tokens unique to removed document are gone
    assert!(!index.contains_token(&"that".to_string()));
    assert!(!index.contains_token(&"we".to_string()));
    assert!(!index.contains_token(&"will".to_string()));
    assert!(!index.contains_token(&"win".to_string()));

    // Check documents map
    assert!(index.get_document(doc1_id).is_none());
    assert!(index.get_document(doc2_id).is_some());
}

#[test]
fn remove_document_removes_orphaned_tokens() {
    // 1. Create a new index
    let mut index = Index::new();

    // 2. Create a document with unique tokens
    let doc = doc(1, "note.txt", "Some unique tokens here");
    let doc_id = doc.id;

    // 3. Add the document to the index
    index.add_document(doc);

    // 4. Capture all tokens for this document BEFORE removal
    let tokens_of_doc: Vec<String> = index.tokens_of_document(doc_id).unwrap().to_vec();

    // Assert all tokens exist before removal
    for token in &tokens_of_doc {
        assert!(index.contains_token(token));
    }

    // 5. Remove the document
    index.remove_document(doc_id);

    // 6. Assert all tokens are no longer present
    for token in tokens_of_doc {
        assert!(!index.contains_token(&token));
    }

    // 7. Assert the document itself is gone
    assert!(index.get_document(doc_id).is_none());
    assert!(index.tokens_of_document(doc_id).is_none());
}

#[test]
fn remove_document_cleans_up_internal_maps() {
    // 1. Create a new index
    let mut index = Index::new();

    // 2. Create a document with a path
    let doc = doc(1, "note.txt", "Some unique tokens here");

    // 3. Capture doc_id and path before moving the document
    let doc_id = doc.id;

    // 4. Add the document to the index
    index.add_document(doc);

    // 5. Assert document exists in all maps
    let path = "note.txt".to_string();
    assert!(index.get_document(doc_id).is_some());
    assert!(index.tokens_of_document(doc_id).is_some());
    assert_eq!(index.path_id(&path), Some(doc_id));

    // 6. Remove the document
    index.remove_document(doc_id);

    // 7. Assert document no longer exists in any map
    assert!(index.get_document(doc_id).is_none());
    assert!(index.tokens_of_document(doc_id).is_none());
    assert!(index.path_id(&path).is_none());
}

#[test]
fn upsert_replaces_existing_document_for_same_path() {
    let mut index = Index::new();
    let path = "note.txt";

    let doc1 = doc(1, path, "hello world");
    let doc2 = doc(2, path, "goodbye world");

    index.upsert_document(doc1);
    index.upsert_document(doc2);

    let results = index.search_query("goodbye");
    assert_eq!(results.len(), 1);
}

// Upserting two documents with the same path but different content leaves
// exactly one live document: old-only tokens stop matching, new-only
// tokens match exactly the replacement.
#[test]
fn upsert_old_tokens_stop_matching() {
    let mut index = Index::new();

    index.upsert_document(doc(1, "note.txt", "alpha beta"));
    index.upsert_document(doc(2, "note.txt", "beta gamma"));

    assert_eq!(index.search_query("alpha"), Vec::<u128>::new());
    assert!(!index.contains_token(&"alpha".to_string()));
    assert_eq!(index.search_query("gamma"), vec![2]);
    assert_eq!(index.path_id(&"note.txt".to_string()), Some(2));
    assert!(index.get_document(1).is_none());
}

// Adding a document and removing it again restores all four maps.
#[test]
fn add_then_remove_restores_empty_index() {
    let mut index = Index::new();
    index.add_document(doc(7, "note.txt", "some words here"));
    index.remove_document(7);

    assert_eq!(index.posting_count(), 0);
    assert!(index.get_document(7).is_none());
    assert!(index.tokens_of_document(7).is_none());
    assert!(index.path_id(&"note.txt".to_string()).is_none());
}

// Removing a document by its path clears its unique tokens from the
// postings, so searches for them come back empty.
#[test]
fn remove_by_path_clears_former_tokens() {
    let mut index = Index::new();
    index.add_document(doc(3, "gone.txt", "ephemeral wording"));

    index.remove_document_by_path(&"gone.txt".to_string());

    assert_eq!(index.search_query("ephemeral"), Vec::<u128>::new());
    assert!(!index.contains_token(&"ephemeral".to_string()));
    assert!(!index.contains_token(&"wording".to_string()));
    assert!(index.get_document(3).is_none());
}

// Two documents sharing a token are both found; a token only one of
// them carries finds only that one.
#[test]
fn search_finds_shared_and_unique_tokens() {
    let mut index = Index::new();

    index.add_document(doc(1, "note1.txt", "Hello world"));
    index.add_document(doc(2, "note2.txt", "Hello world how are you friend"));

    let mut hello_hits = index.search_query("hello");
    hello_hits.sort();
    assert_eq!(hello_hits, vec![1, 2]);

    assert_eq!(index.search_query("friend"), vec![2]);
}

// Removing an unknown id or path is a no-op, not an error.
#[test]
fn remove_unknown_is_noop() {
    let mut index = Index::new();
    index.add_document(doc(1, "note.txt", "hello world"));

    index.remove_document(99);
    index.remove_document_by_path(&"other.txt".to_string());

    assert_eq!(index.search_query("hello"), vec![1]);
}
