use large_text::detect::{
    calculate_confidence, count_gbk_pattern, count_utf8_chinese_pattern, detect_sample,
    detect_utf16_by_nulls, detect_with_guess, DetectedKind,
};
use large_text::encoding::{encoding_for_label, encoding_from_name};
use large_text::file_reader::{FileReader, OpenError};
use large_text::flow::{sanitize_name, FilterLogic, StrOperation};
use large_text::line_indexer::LineIndexer;
use large_text::replacer::{Replacer, ReplaceStream, SinglePlan, BUFFER_SIZE};
use large_text::search_engine::{shard_ranges, SearchEngine, SearchError};
use large_text::text::replace_in_line;
use large_text::view::{get_available_encodings, get_file_content, get_line, search_page, LineError};

fn indexed(bytes: &[u8]) -> (FileReader<'_>, LineIndexer) {
    let reader = FileReader::new("mem.txt".to_string(), bytes, encoding_for_label(None)).unwrap();
    let mut indexer = LineIndexer::new();
    indexer.index_file(&reader);
    (reader, indexer)
}

#[test]
fn empty_file_is_refused() {
    let r = FileReader::new("empty.txt".to_string(), b"", encoding_for_label(None));
    assert!(matches!(r, Err(OpenError::EmptyFile)));
}

#[test]
fn small_file_lines() {
    let data = b"Line 1\nLine 2\nLine 3";
    let (reader, indexer) = indexed(data);
    assert_eq!(indexer.total_lines(), 3);
    assert_eq!(*indexer.line_offsets(), vec![0, 7, 14]);
    assert_eq!(get_line(&reader, &indexer, 2).unwrap(), "Line 2\n");
    assert_eq!(get_line(&reader, &indexer, 3).unwrap(), "Line 3");
    assert_eq!(get_line(&reader, &indexer, 4), Err(LineError::OutOfRange(4)));
}

#[test]
fn blank_line_index() {
    let (_reader, indexer) = indexed(b"\n\n\n");
    assert_eq!(indexer.total_lines(), 4);
    assert_eq!(*indexer.line_offsets(), vec![0, 1, 2, 3]);
}

#[test]
fn line_count_is_newlines_plus_one() {
    let (_r, a) = indexed(b"a\nb\n");
    assert_eq!(a.total_lines(), 3);
    let (_r, b) = indexed(b"no newline");
    assert_eq!(b.total_lines(), 1);
}

#[test]
fn line_at_offset_ends() {
    let data = b"ab\ncd\nef";
    let (_reader, indexer) = indexed(data);
    assert_eq!(indexer.find_line_at_offset(0), 0);
    assert_eq!(indexer.find_line_at_offset(2), 0);
    assert_eq!(indexer.find_line_at_offset(3), 1);
    let last = indexer.find_line_at_offset(data.len() - 1);
    assert_eq!(last, 2);
    assert!(last < indexer.total_lines());
}

#[test]
fn file_content_pages() {
    let (reader, indexer) = indexed(b"one\ntwo\nthree");
    let lines = get_file_content(&reader, &indexer, 1, 10);
    assert_eq!(lines, vec!["two\n".to_string(), "three".to_string()]);
    assert!(get_file_content(&reader, &indexer, 2, 1).is_empty());
}

#[test]
fn literal_search_case_insensitive() {
    let data = b"Hello World, Hello Universe";
    let (reader, indexer) = indexed(data);
    let res = search_page(&reader, &indexer, "hello".to_string(), false, false, 1, 10, 4).unwrap();
    assert_eq!(res.total_matches, 2);
    let offs: Vec<usize> = res.matches.iter().map(|m| m.byte_offset).collect();
    assert_eq!(offs, vec![0, 13]);
    assert_eq!(res.matches[1].line_number, 1);
    assert_eq!(res.matches[1].match_start, 13);
    assert_eq!(res.matches[1].line_content, "Hello World, Hello Universe");
}

#[test]
fn regex_search() {
    let data = b"Item 1, Item 2, Item 3";
    let (reader, indexer) = indexed(data);
    let res = search_page(&reader, &indexer, r"Item (\d)".to_string(), true, true, 1, 10, 2).unwrap();
    assert_eq!(res.total_matches, 3);
    let got: Vec<(usize, usize)> = res.matches.iter().map(|m| (m.byte_offset, m.match_length)).collect();
    assert_eq!(got, vec![(0, 6), (8, 6), (16, 6)]);
}

#[test]
fn invalid_regex_is_reported() {
    let (reader, indexer) = indexed(b"abc");
    let res = search_page(&reader, &indexer, "(".to_string(), true, true, 1, 10, 1);
    assert_eq!(res.err().unwrap(), "Invalid regex");
    let mut engine = SearchEngine::new();
    engine.set_query("(".to_string(), true, true);
    assert_eq!(engine.count_matches(&reader, 1), Err(SearchError::InvalidRegex));
}

#[test]
fn literal_query_escapes_meta_characters() {
    let (reader, _indexer) = indexed(b"a.b axb a.b");
    let mut engine = SearchEngine::new();
    engine.set_query("a.b".to_string(), false, true);
    assert_eq!(engine.count_matches(&reader, 3), Ok(2));
}

#[test]
fn empty_query_finds_nothing() {
    let (reader, _indexer) = indexed(b"abc");
    let mut engine = SearchEngine::new();
    engine.set_query(String::new(), false, false);
    assert_eq!(engine.count_matches(&reader, 2), Ok(0));
    assert!(engine.fetch_matches(&reader, 0, 10).unwrap().is_empty());
}

#[test]
fn fetch_is_increasing_and_paged() {
    let data = b"x x x x x";
    let (reader, _indexer) = indexed(data);
    let mut engine = SearchEngine::new();
    engine.set_query("x".to_string(), false, true);
    let all = engine.fetch_matches(&reader, 0, 100).unwrap();
    let offs: Vec<usize> = all.iter().map(|m| m.byte_offset).collect();
    assert_eq!(offs, vec![0, 2, 4, 6, 8]);
    let some = engine.fetch_matches(&reader, 3, 2).unwrap();
    let offs: Vec<usize> = some.iter().map(|m| m.byte_offset).collect();
    assert_eq!(offs, vec![4, 6]);
}

#[test]
fn count_independent_of_threads() {
    let text = "needle hay ".repeat(500);
    let (reader, _indexer) = indexed(text.as_bytes());
    let mut engine = SearchEngine::new();
    engine.set_query("needle".to_string(), false, true);
    for t in [1, 2, 3, 7, 16] {
        assert_eq!(engine.count_matches(&reader, t), Ok(500));
    }
}

#[test]
fn shards_cover_the_file() {
    assert_eq!(shard_ranges(10, 3), vec![(0, 4), (4, 8), (8, 10)]);
    assert_eq!(shard_ranges(2, 4), vec![(0, 1), (1, 2)]);
    assert!(shard_ranges(0, 4).is_empty());
    assert_eq!(shard_ranges(5, 0), vec![(0, 5)]);
}

#[test]
fn streaming_replace_with_capture_groups() {
    let out = Replacer::replace_all(b"Item 1, Item 2, Item 3", r"Item (\d)", "Object $1", true, true).unwrap();
    assert_eq!(out, b"Object 1, Object 2, Object 3".to_vec());
}

#[test]
fn streaming_replace_identity_is_idempotent() {
    let input = b"abc abc ABC";
    let once = Replacer::replace_all(input, "abc", "abc", false, false).unwrap();
    let twice = Replacer::replace_all(&once, "abc", "abc", false, false).unwrap();
    assert_eq!(once, b"abc abc abc".to_vec());
    assert_eq!(once, twice);
}

#[test]
fn streaming_replace_across_buffers() {
    let mut input = Vec::new();
    while input.len() < BUFFER_SIZE * 2 + 100 {
        input.extend_from_slice(b"foo bar ");
    }
    let out = Replacer::replace_all(&input, "foo", "qux", false, true).unwrap();
    let expected: Vec<u8> = String::from_utf8(input.clone()).unwrap().replace("foo", "qux").into_bytes();
    assert_eq!(out.len(), expected.len());
    assert!(out == expected);
}

#[test]
fn streaming_replace_invalid_regex() {
    assert!(Replacer::replace_all(b"abc", "(", "x", true, true).is_err());
    assert!(ReplaceStream::new("(", "x", true, true).is_err());
}

#[test]
fn point_replace_equal_length() {
    assert_eq!(Replacer::plan_single(5, 5), SinglePlan::InPlace);
    let out = Replacer::replace_single_in(b"Hello World", 0, 5, b"Howdy");
    assert_eq!(out.len(), 11);
    assert_eq!(out, b"Howdy World".to_vec());
}

#[test]
fn point_replace_other_length() {
    assert_eq!(Replacer::plan_single(5, 2), SinglePlan::Rewrite);
    let out = Replacer::replace_single_in(b"Hello World", 6, 5, b"Go");
    assert_eq!(out, b"Hello Go".to_vec());
    assert_eq!(out.len(), 11 - 5 + 2);
}

#[test]
fn line_replace_round_trip() {
    let mut first = false;
    let (a, changed) = replace_in_line("one two one", "one", "uno", true, true, &mut first);
    assert!(changed);
    assert_eq!(a, "uno two uno");
    let (b, _) = replace_in_line(&a, "uno", "one", true, true, &mut first);
    assert_eq!(b, "one two one");
}

#[test]
fn line_replace_case_insensitive_and_first_only() {
    let mut first = false;
    let (a, changed) = replace_in_line("Foo foo FOO", "foo", "bar", true, false, &mut first);
    assert!(changed);
    assert_eq!(a, "bar bar bar");
    let (b, changed) = replace_in_line("Foo foo", "foo", "bar", false, false, &mut first);
    assert!(changed);
    assert!(first);
    assert_eq!(b, "bar foo");
    let (c, changed) = replace_in_line("foo", "foo", "bar", false, false, &mut first);
    assert!(!changed);
    assert_eq!(c, "foo");
    let (d, changed) = replace_in_line("abc", "", "x", true, true, &mut first);
    assert!(!changed);
    assert_eq!(d, "abc");
}

#[test]
fn encoding_detection_scenarios() {
    let bom = detect_sample(b"\xEF\xBB\xBFhello", true);
    assert_eq!(bom.encoding, "UTF-8");
    assert!(bom.has_bom);
    assert_eq!(bom.confidence, 1000);
    let le = detect_sample(b"\xFF\xFEh\x00i\x00", true);
    assert_eq!(le.encoding, "UTF-16LE");
    let ascii = detect_sample(b"hello world", true);
    assert_eq!(ascii.encoding, "UTF-8");
    assert!(!ascii.has_bom);
    let empty = detect_sample(b"", true);
    assert_eq!((empty.encoding.as_str(), empty.confidence), ("UTF-8", 500));
}

#[test]
fn encoding_detection_by_nulls_and_patterns() {
    let r = detect_utf16_by_nulls(b"a\x00b\x00c\x00d\x00");
    assert_eq!(r, Some((DetectedKind::Utf16Le, 1000)));
    let r = detect_utf16_by_nulls(b"\x00a\x00b\x00c\x00d");
    assert_eq!(r, Some((DetectedKind::Utf16Be, 1000)));
    assert_eq!(detect_utf16_by_nulls(b"abcd"), None);
    assert_eq!(detect_utf16_by_nulls(b"a\x00b"), None);
    // "中文" in GBK and in UTF-8
    let gbk = b"\xD6\xD0\xCE\xC4";
    assert_eq!(count_gbk_pattern(gbk), 2);
    let utf8 = "中文".as_bytes();
    assert_eq!(count_utf8_chinese_pattern(utf8), 2);
    assert_eq!(count_gbk_pattern(utf8), 0);
    let g = detect_sample(gbk, true);
    assert_eq!(g.encoding, "GBK");
    assert_eq!(g.confidence, 900);
    let u = detect_sample(utf8, true);
    assert_eq!(u.encoding, "UTF-8");
    assert_eq!(u.confidence, 950);
}

#[test]
fn encoding_confidence_values() {
    assert_eq!(calculate_confidence(0, DetectedKind::Utf8, true, 0, 0), 850);
    assert_eq!(calculate_confidence(1048576, DetectedKind::Utf8, true, 0, 3), 990);
    assert_eq!(calculate_confidence(524288, DetectedKind::Gbk, true, 1, 1), 675);
    assert_eq!(calculate_confidence(0, DetectedKind::Utf16Be, false, 0, 0), 900);
    let guessed = detect_with_guess(b"\xFF", true, "UTF-8");
    assert_eq!(guessed.encoding, "UTF-8");
    let other = detect_with_guess(b"\xFF", true, "windows-1252");
    assert_eq!(other.encoding, "GBK");
}

#[test]
fn encoding_labels() {
    assert_eq!(encoding_for_label(Some("latin1")).name(), "windows-1252");
    assert_eq!(encoding_for_label(Some("nonsense")).name(), "UTF-8");
    assert_eq!(encoding_for_label(None).name(), "UTF-8");
    assert_eq!(encoding_from_name("GB18030").unwrap().name(), "GBK");
    assert_eq!(encoding_from_name("utf-16le").unwrap().name(), "UTF-16LE");
    assert!(encoding_from_name("nonsense").is_none());
    let opts = get_available_encodings();
    assert_eq!(opts.len(), 5);
    assert_eq!(opts[4].label, "ISO-8859-1");
    assert_eq!(opts[4].name, "windows-1252");
}

#[test]
fn decoding_through_encoding() {
    let data = b"caf\xE9";
    let reader = FileReader::new("x".to_string(), data, encoding_for_label(Some("windows-1252"))).unwrap();
    assert_eq!(reader.get_chunk(0, 10), "café");
    assert_eq!(reader.get_chunk(3, 2), "");
}

#[test]
fn column_operations() {
    let op = |mode: &str| StrOperation {
        column: "c".to_string(),
        mode: mode.to_string(),
        comparand: None,
        replacement: None,
        newcol: None,
    };
    assert!(!op("trim").produces_new_column());
    assert!(!op("normalize").produces_new_column());
    assert!(op("len").produces_new_column());
    assert_eq!(FilterLogic::from_name("AND"), FilterLogic::And);
    assert_eq!(FilterLogic::from_name("or"), FilterLogic::Or);
    assert_eq!(FilterLogic::from_name("xor"), FilterLogic::Or);
}

#[test]
fn sheet_names_for_files() {
    assert_eq!(sanitize_name("a/b:c"), "a_b_c");
    assert_eq!(sanitize_name(" .name. "), "name");
    assert_eq!(sanitize_name(&"x".repeat(60)), "x".repeat(50));
    assert_eq!(sanitize_name("tab\there"), "tab_here");
}

#[test]
fn sparse_index_for_large_files() {
    let data = "abcdefghi\n".repeat(1_048_577);
    let (reader, indexer) = indexed(data.as_bytes());
    assert_eq!(indexer.total_lines(), 1_048_577);
    assert_eq!(indexer.line_offsets()[0], 0);
    assert_eq!(indexer.line_offsets()[1], 10_485_760);
    assert_eq!(indexer.find_line_at_offset(0), 0);
    assert_eq!(indexer.find_line_at_offset(25), 2);
    assert!(indexer.find_line_at_offset(data.len() - 1) <= indexer.total_lines());
    assert_eq!(indexer.get_line_with_reader(5, &reader), Some((50, 59)));
    let res = search_page(&reader, &indexer, "ghi".to_string(), true, false, 1, 2, 4).unwrap();
    assert_eq!(res.total_matches, 1_048_577);
    assert_eq!(res.matches.len(), 2);
    assert_eq!(res.matches[0].line_number, 1);
    assert_eq!(res.matches[0].line_content, "abcdefghi\n");
    assert_eq!(res.matches[1].line_number, 2);
    assert_eq!(res.matches[1].match_start, 6);
}

#[test]
fn replacing_a_text_by_itself_changes_nothing() {
    let mut first = false;
    let (a, changed) = replace_in_line("ab ab", "ab", "ab", true, true, &mut first);
    assert!(changed);
    assert_eq!(a, "ab ab");
}

#[test]
fn auxiliary_detector_settles_open_cases() {
    let r = detect_sample(b"caf\xE9 au lait", true);
    assert!(r.encoding == "GBK" || r.encoding == "UTF-8");
    assert!(!r.has_bom);
    assert!(r.confidence >= 300 && r.confidence <= 990);
}

#[test]
fn later_pages_start_further_in() {
    let (reader, indexer) = indexed(b"x x x x x");
    let res = search_page(&reader, &indexer, "x".to_string(), true, false, 2, 2, 1).unwrap();
    assert_eq!(res.total_matches, 5);
    let offs: Vec<usize> = res.matches.iter().map(|m| m.byte_offset).collect();
    assert_eq!(offs, vec![2, 4]);
    assert_eq!((res.page, res.page_size), (2, 2));
}

#[test]
fn utf16_confidence_is_the_nul_share() {
    assert_eq!(detect_utf16_by_nulls(b"a\x00b\x00c\x00dd"), Some((DetectedKind::Utf16Le, 750)));
}

#[test]
fn literal_replace_is_verbatim_and_case_selectable() {
    let out = Replacer::replace_all(b"Foo foo", "foo", "x$1", false, true).unwrap();
    assert_eq!(out, b"Foo x$1".to_vec());
    let out = Replacer::replace_all(b"Foo foo", "foo", "x", false, false).unwrap();
    assert_eq!(out, b"x x".to_vec());
}

#[test]
fn dense_lines_end_at_the_file_end() {
    let (reader, indexer) = indexed(b"ab\ncd");
    assert_eq!(indexer.get_line_with_reader(0, &reader), Some((0, 3)));
    assert_eq!(indexer.get_line_with_reader(1, &reader), Some((3, 5)));
    assert_eq!(indexer.get_line_with_reader(2, &reader), None);
    assert_eq!(indexer.get_line_range(1), Some((3, usize::MAX)));
}
