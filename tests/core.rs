use std::io::{Read, Write};

use large_text::encoding::{detect_encoding, encoding_for_label};
use large_text::file_reader::FileReader;
use large_text::line_indexer::LineIndexer;
use large_text::replacer::Replacer;
use large_text::search_engine::SearchEngine;
use tempfile::NamedTempFile;

fn file_with(content: &str) -> (NamedTempFile, String, Vec<u8>) {
    let mut file = NamedTempFile::new().unwrap();
    file.write_all(content.as_bytes()).unwrap();
    file.flush().unwrap();
    let path = file.path().to_string_lossy().to_string();
    let mut bytes = Vec::new();
    file.reopen().unwrap().read_to_end(&mut bytes).unwrap();
    (file, path, bytes)
}

#[test]
fn test_detect_encoding() {
    assert_eq!(detect_encoding(b"\xEF\xBB\xBFhello").name(), "UTF-8");
    assert_eq!(detect_encoding(b"\xFF\xFEhello").name(), "UTF-16LE");
    assert_eq!(detect_encoding(b"\xFE\xFFhello").name(), "UTF-16BE");
    assert_eq!(detect_encoding(b"hello world").name(), "UTF-8");
    // Invalid UTF-8 sequence
    assert_eq!(detect_encoding(b"\xFF\xFF\xFF").name(), "windows-1252");
}

#[test]
fn test_file_reader() {
    let (_file, path, bytes) = file_with("Hello World\nLine 2");
    let reader = FileReader::new(path, &bytes, encoding_for_label(None)).unwrap();
    assert_eq!(reader.len(), 18);
    assert_eq!(reader.get_chunk(0, 5), "Hello");
    assert_eq!(reader.get_chunk(6, 11), "World");
    assert_eq!(reader.get_bytes(0, 5), b"Hello");
}

#[test]
fn test_empty_file() {
    let (_file, path, bytes) = file_with("");
    let result = FileReader::new(path, &bytes, encoding_for_label(None));
    assert!(result.is_err());
}

#[test]
fn test_line_indexer_small_file() {
    let (_file, path, bytes) = file_with("Line 1\nLine 2\nLine 3");
    let reader = FileReader::new(path, &bytes, detect_encoding(b"")).unwrap();
    let mut indexer = LineIndexer::new();
    indexer.index_file(&reader);

    assert_eq!(indexer.total_lines(), 3);
    assert_eq!(*indexer.line_offsets(), vec![0, 7, 14]);
}

#[test]
fn test_line_indexer_empty_lines() {
    let (_file, path, bytes) = file_with("\n\n\n");
    let reader = FileReader::new(path, &bytes, detect_encoding(b"")).unwrap();
    let mut indexer = LineIndexer::new();
    indexer.index_file(&reader);

    assert_eq!(indexer.total_lines(), 4);
    assert_eq!(*indexer.line_offsets(), vec![0, 1, 2, 3]);
}

#[test]
fn test_replace_all_simple() {
    let out = Replacer::replace_all(b"Hello World, Hello Universe", "Hello", "Hi", false, false)
        .unwrap_or_else(|e| panic!("Error: {:?}", e));
    assert_eq!(String::from_utf8(out).unwrap(), "Hi World, Hi Universe");
}

#[test]
fn test_replace_all_regex() {
    let out = Replacer::replace_all(b"Item 1, Item 2, Item 3", r"Item (\d)", "Object $1", true, true)
        .unwrap_or_else(|e| panic!("Error: {:?}", e));
    assert_eq!(String::from_utf8(out).unwrap(), "Object 1, Object 2, Object 3");
}

#[test]
fn test_find_in_text() {
    let mut engine = SearchEngine::new();
    engine.set_query("test".to_string(), false, false);

    let text = "This is a test string. Another test.";
    let matches = engine.find_in_text(text);
    assert_eq!(matches.len(), 2);
    assert_eq!(matches[0], (10, 14));
    assert_eq!(matches[1], (31, 35));
}

#[test]
fn test_find_in_text_regex() {
    let mut engine = SearchEngine::new();
    engine.set_query(r"\d+".to_string(), true, false);

    let text = "There are 123 apples and 456 oranges.";
    let matches = engine.find_in_text(text);
    assert_eq!(matches.len(), 2);
    assert_eq!(matches[0], (10, 13)); // "123"
    assert_eq!(matches[1], (25, 28)); // "456"
}

#[test]
fn test_count_matches() {
    let (_file, path, bytes) = file_with("test\ntest\ntest");
    let reader = FileReader::new(path, &bytes, detect_encoding(b"")).unwrap();
    let mut engine = SearchEngine::new();
    engine.set_query("test".to_string(), false, false);

    let threads = 4;
    let count = engine.count_matches(&reader, threads).unwrap_or_else(|e| panic!("Error: {:?}", e));
    assert_eq!(count, 3);
}
