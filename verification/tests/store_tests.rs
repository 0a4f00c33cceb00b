use site_core::store::{
    file_name_for_slug, get_by_slug, is_document_file, list_documents, DirEntry, ReadOutcome,
    StoreError,
};

#[test]
fn listing_keeps_only_document_files() {
    let entries = vec![
        DirEntry { name: "note.md".to_string(), text: Some("# hello".to_string()) },
        DirEntry { name: "readme.txt".to_string(), text: Some("plain".to_string()) },
    ];
    let posts = list_documents(&entries);
    assert_eq!(posts.len(), 1);
    assert_eq!(posts[0].slug, "note");
    assert_eq!(posts[0].content, "# hello");
}

#[test]
fn listing_skips_unreadable_entries() {
    let entries = vec![
        DirEntry { name: "a.md".to_string(), text: None },
        DirEntry { name: "b.md".to_string(), text: Some("b text".to_string()) },
    ];
    let posts = list_documents(&entries);
    assert_eq!(posts.len(), 1);
    assert_eq!(posts[0].slug, "b");
}

#[test]
fn listing_keeps_directory_order() {
    let entries = vec![
        DirEntry { name: "z.md".to_string(), text: Some("z".to_string()) },
        DirEntry { name: "a.md".to_string(), text: Some("a".to_string()) },
    ];
    let posts = list_documents(&entries);
    assert_eq!(posts.len(), 2);
    assert_eq!(posts[0].slug, "z");
    assert_eq!(posts[1].slug, "a");
}

#[test]
fn get_by_slug_parses_found_text() {
    let r = get_by_slug("my-file", ReadOutcome::Found("# body".to_string()));
    let p = r.unwrap();
    assert_eq!(p.slug, "my-file");
    assert_eq!(p.content, "# body");
    assert_eq!(p.hidden, false);
}

#[test]
fn get_by_slug_missing_is_not_found() {
    let r = get_by_slug("does-not-exist", ReadOutcome::Missing);
    assert_eq!(r.unwrap_err(), StoreError::NotFound);
}

#[test]
fn get_by_slug_failed_read_is_io_error() {
    let r = get_by_slug("whatever", ReadOutcome::Failed);
    assert_eq!(r.unwrap_err(), StoreError::IoError);
}

#[test]
fn expected_file_name_appends_suffix() {
    assert_eq!(file_name_for_slug("my-file"), "my-file.md");
    assert_eq!(file_name_for_slug(""), ".md");
}

#[test]
fn document_file_recognition() {
    assert!(is_document_file("a.md"));
    assert!(is_document_file(".md"));
    assert!(!is_document_file("a.txt"));
    assert!(!is_document_file("md"));
    assert!(!is_document_file(""));
}
