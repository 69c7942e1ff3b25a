use note_index::tokenizer::tokenize;

#[test]
fn test_punctuation() {
    let tokens = tokenize("Rust!!! is... awesome??");
    assert_eq!(tokens, vec!["rust", "is", "awesome"]);
}

#[test]
fn test_lowercasing() {
    let tokens = tokenize("HeLLo WoRLD");

    assert_eq!(tokens, vec!["hello", "world"]);
}

#[test]
fn test_empty_input() {
    let tokens = tokenize("");
    assert!(tokens.is_empty());
}

#[test]
fn test_unicode_behavior() {
    let tokens = tokenize("naïve café");
    assert_eq!(tokens, vec!["na", "ve", "caf"]);
}

#[test]
fn test_digits_kept() {
    let tokens = tokenize("notes2024 v2.1");
    assert_eq!(tokens, vec!["notes2024", "v2", "1"]);
}

#[test]
fn test_whitespace_only() {
    let tokens = tokenize(" \t\n  ");
    assert!(tokens.is_empty());
}
