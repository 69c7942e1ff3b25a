use note_index::ingestion::has_text_extension;
use note_index::ingestion::IngestError;

#[test]
fn text_extensions_are_recognized() {
    assert!(has_text_extension("note.txt"));
    assert!(has_text_extension("note.md"));
    assert!(has_text_extension("dir/sub/note.txt"));
    assert!(has_text_extension("archive.2024.md"));
}

#[test]
fn other_extensions_are_rejected() {
    assert!(!has_text_extension("image.png"));
    assert!(!has_text_extension("note.txt.bak"));
    assert!(!has_text_extension("noextension"));
    assert!(!has_text_extension("dir.txt/binary"));
}

#[test]
fn hidden_files_have_no_extension() {
    assert!(!has_text_extension(".txt"));
    assert!(!has_text_extension("dir/.md"));
    assert!(has_text_extension(".hidden.txt"));
}

#[test]
fn ingest_error_messages() {
    assert_eq!(IngestError::NotDirectory.message(), "path is not a directory");
    assert_eq!(IngestError::Io.message(), "could not read the directory");
    assert_eq!(IngestError::NotDirectory, IngestError::NotDirectory);
    assert_ne!(IngestError::NotDirectory, IngestError::Io);
}
