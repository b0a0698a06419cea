//! The request surface of the viewer: file facts, pages of lines, single
//! lines and pages of search matches, computed from a window and its index.
use vstd::prelude::*;
use crate::encoding::{TextEncoding, available_encodings, decoded_text};
use crate::file_reader::{FileReader, clamped};
use crate::line_indexer::LineIndexer;
use crate::line_indexer::{count_newlines, lemma_newlines_mono, newlines, no_newline, saturate};
use crate::matcher::regex_compiles;
use crate::search_engine::{
    SearchEngine,
    SearchResult as RawMatch,
    fetch_from,
    overlap_for,
    query_pattern,
    shard_size,
    shards_count,
};
use vstd::utf8::encode_utf8;

verus! {

/// The most lines one request returns.
pub const MAX_LINES_PER_REQUEST: usize = 1000;

/// What the viewer reports of an open file.
pub struct FileInfo {
    pub path: String,
    pub size: u64,
    pub encoding: String,
    pub line_count: usize,
}

/// A match with its line: the 1-based line number, the line's text, where
/// the match starts within the line, its length and its file offset.
pub struct SearchMatch {
    pub line_number: usize,
    pub line_content: String,
    pub match_start: usize,
    pub match_length: usize,
    pub byte_offset: usize,
}

/// One page of search results, with the total count.
pub struct SearchResult {
    pub total_matches: usize,
    pub matches: Vec<SearchMatch>,
    pub page: usize,
    pub page_size: usize,
}

/// An encoding offered to the user: the label shown and the encoding's name.
pub struct EncodingOption {
    pub label: String,
    pub name: String,
}

pub struct OpenFileParams {
    pub path: String,
    pub encoding: Option<String>,
}

pub struct GetLinesParams {
    pub path: String,
    pub start_line: usize,
    pub end_line: usize,
    pub encoding: Option<String>,
}

pub struct SearchParams {
    pub path: String,
    pub query: String,
    pub case_sensitive: bool,
    pub use_regex: bool,
    pub page: usize,
    pub page_size: usize,
}

pub struct ReplaceParams {
    pub path: String,
    pub search_query: String,
    pub replace_text: String,
    pub replace_all: bool,
    pub case_sensitive: bool,
    pub encoding: Option<String>,
}

/// Why a line could not be read.
#[derive(Clone, Copy, Debug, PartialEq, Eq, Structural)]
pub enum LineError {
    /// The (1-based) line number lies past the index.
    OutOfRange(usize),
}

/// The decoded text of `data[start..end]` (cut to the length) in `enc`.
pub open spec fn chunk_text(enc: Seq<char>, data: Seq<u8>, start: int, end: int) -> Seq<char> {
    if start >= (if end < data.len() {
        end
    } else {
        data.len() as int
    }) {
        Seq::empty()
    } else {
        decoded_text(enc, clamped(data, start, end))
    }
}

/// `t` is the decoded text of line `n` as the index resolves it.
pub open spec fn line_text_is(indexer: &LineIndexer, reader: &FileReader, n: int, t: Seq<char>) -> bool {
    match indexer.line_span(reader@, n) {
        Some((s, e)) => t == chunk_text(reader.spec_encoding(), reader@, s as int, e as int),
        None => false,
    }
}

/// The facts of an indexed file.
pub fn file_info(reader: &FileReader, indexer: &LineIndexer) -> (r: FileInfo)
    ensures
        r.path@ == reader.spec_path(),
        r.size == reader@.len(),
        r.encoding@ == reader.spec_encoding(),
        r.line_count == indexer.spec_total_lines(),
{
    FileInfo {
        path: reader.path().clone(),
        size: reader.len() as u64,
        encoding: reader.encoding().name().clone(),
        line_count: indexer.total_lines(),
    }
}

/// The encodings offered to the user.
pub fn get_available_encodings() -> (r: Vec<EncodingOption>)
    ensures
        r@.len() == 5,
        r@[0].label@ == "UTF-8"@ && r@[0].name@ == "UTF-8"@,
        r@[1].label@ == "UTF-16 LE"@ && r@[1].name@ == "UTF-16LE"@,
        r@[2].label@ == "UTF-16 BE"@ && r@[2].name@ == "UTF-16BE"@,
        r@[3].label@ == "Windows-1252"@ && r@[3].name@ == "windows-1252"@,
        r@[4].label@ == "ISO-8859-1"@ && r@[4].name@ == "windows-1252"@,
{
    let all = available_encodings();
    let mut r: Vec<EncodingOption> = Vec::new();
    let mut i: usize = 0;
    while i < all.len()
        invariant
            i <= all@.len(),
            r@.len() == i,
            forall|j: int| 0 <= j < i ==> (#[trigger] r@[j]).label@ == all@[j].0@ && r@[j].name@
                == all@[j].1@,
        decreases all.len() - i,
    {
        let label = all[i].0.clone();
        let name = all[i].1.name().clone();
        r.push(EncodingOption { label, name });
        i = i + 1;
    }
    r
}

/// Lines `start_line..end_line` (0-based, at most `MAX_LINES_PER_REQUEST`),
/// each resolved through the index and decoded; fewer at the end of the
/// file.
pub fn get_file_content(reader: &FileReader, indexer: &LineIndexer, start_line: usize, end_line: usize) -> (r:
    Vec<String>)
    requires
        indexer.inv(),
        indexer.wf(reader@),
    ensures
        r@.len() <= MAX_LINES_PER_REQUEST,
        start_line + r@.len() <= end_line || r@.len() == 0,
        forall|i: int|
            0 <= i < r@.len() ==> line_text_is(indexer, reader, start_line + i, (#[trigger] r@[i])@),
        ({
            let cap = if start_line + MAX_LINES_PER_REQUEST < end_line {
                start_line + MAX_LINES_PER_REQUEST
            } else {
                end_line as int
            };
            start_line + r@.len() < cap ==> indexer.line_span(reader@, start_line + r@.len()) is None
        }),
{
    let actual_end = if end_line < start_line {
        start_line
    } else if end_line - start_line > MAX_LINES_PER_REQUEST {
        start_line + MAX_LINES_PER_REQUEST
    } else {
        end_line
    };
    let mut lines: Vec<String> = Vec::new();
    let mut n = start_line;
    let mut done = false;
    while n < actual_end && !done
        invariant
            start_line <= n <= actual_end,
            actual_end <= start_line + MAX_LINES_PER_REQUEST,
            actual_end == (if start_line + MAX_LINES_PER_REQUEST < end_line {
                start_line + MAX_LINES_PER_REQUEST
            } else if end_line < start_line {
                start_line as int
            } else {
                end_line as int
            }),
            lines@.len() == n - start_line,
            indexer.inv(),
            indexer.wf(reader@),
            forall|i: int|
                0 <= i < lines@.len() ==> line_text_is(indexer, reader, start_line + i, (#[trigger] lines@[i])@),
            done ==> n < actual_end && indexer.line_span(reader@, n as int) is None,
        decreases actual_end - n + if done {
            0int
        } else {
            1int
        },
    {
        match indexer.get_line_with_reader(n, reader) {
            Some((s, e)) => {
                let t = reader.get_chunk(s, e);
                let ghost before = lines@;
                lines.push(t);
                proof {
                    assert forall|i: int| 0 <= i < lines@.len() implies line_text_is(
                        indexer,
                        reader,
                        start_line + i,
                        (#[trigger] lines@[i])@,
                    ) by {
                        if i < before.len() {
                            assert(lines@[i] == before[i]);
                        }
                    }
                }
                n = n + 1;
            },
            None => {
                done = true;
            },
        }
    }
    lines
}

/// The text of line `line_number` (1-based; 0 reads as 1) as the index
/// gives its range (dense: exact, with its newline; sparse: from the
/// estimated position to the end of the file).
pub fn get_line(reader: &FileReader, indexer: &LineIndexer, line_number: usize) -> (r: Result<
    String,
    LineError,
>)
    requires
        indexer.inv(),
    ensures
        ({
            let idx = if line_number > 0 {
                line_number - 1
            } else {
                0
            };
            match indexer.line_range_spec(idx) {
                Some((s, e)) => r matches Ok(t) && t@ == chunk_text(
                    reader.spec_encoding(),
                    reader@,
                    s as int,
                    e as int,
                ),
                None => r == Err::<String, LineError>(LineError::OutOfRange(line_number)),
            }
        }),
{
    let idx = if line_number > 0 {
        line_number - 1
    } else {
        0
    };
    match indexer.get_line_range(idx) {
        Some((s, e)) => Ok(reader.get_chunk(s, e)),
        None => Err(LineError::OutOfRange(line_number)),
    }
}

/// How far a scan for the end of a match's line reaches.
pub const LINE_SCAN_LIMIT: usize = 10000;

/// The start of the line holding byte `offset`: just after the last newline
/// before it, or the file's start.
pub open spec fn scanned_line_start(data: Seq<u8>, offset: int, s: int) -> bool {
    &&& 0 <= s <= offset
    &&& no_newline(data, s, offset)
    &&& s > 0 ==> data[s - 1] == 10u8
}

/// The end of the line holding byte `offset`, as far as a forward scan of
/// `LINE_SCAN_LIMIT` bytes reaches: just after the first newline from
/// `offset`, else where the scan stopped.
pub open spec fn scanned_line_end(data: Seq<u8>, offset: int, e: int) -> bool {
    let limit = if offset + LINE_SCAN_LIMIT < data.len() {
        offset + LINE_SCAN_LIMIT
    } else {
        data.len() as int
    };
    ||| (offset < e <= limit && data[e - 1] == 10u8 && no_newline(data, offset, e - 1))
    ||| (e == (if limit > offset {
        limit
    } else {
        offset
    }) && no_newline(data, offset, limit))
}

/// The bounds of the line around byte `offset`, found by scanning the bytes:
/// back to the newline before it (or the file's start), forward to just past
/// the newline after it within `LINE_SCAN_LIMIT` bytes.
pub fn scan_line_from_offset(reader: &FileReader, offset: usize) -> (r: (usize, usize))
    requires
        offset <= reader@.len(),
    ensures
        scanned_line_start(reader@, offset as int, r.0 as int),
        scanned_line_end(reader@, offset as int, r.1 as int),
{
    let data = reader.all_data();
    let len = data.len();
    let mut start = offset;
    let mut found = false;
    while start > 0 && !found
        invariant
            start <= offset <= len == data@.len(),
            no_newline(data@, start as int, offset as int),
            found ==> start > 0 && data@[start - 1] == 10u8,
        decreases start + if found {
            0int
        } else {
            1int
        },
    {
        if data[start - 1] == 10u8 {
            found = true;
        } else {
            start = start - 1;
        }
    }
    let limit = if LINE_SCAN_LIMIT < len - offset {
        offset + LINE_SCAN_LIMIT
    } else {
        len
    };
    let mut end = offset;
    let mut done = false;
    while end < limit && !done
        invariant
            offset <= end <= limit <= len == data@.len(),
            limit == (if offset + LINE_SCAN_LIMIT < len {
                offset + LINE_SCAN_LIMIT
            } else {
                len as int
            }),
            !done ==> no_newline(data@, offset as int, end as int),
            done ==> offset < end && data@[end - 1] == 10u8 && no_newline(data@, offset as int, end - 1),
        decreases limit - end + if done {
            0int
        } else {
            1int
        },
    {
        if data[end] == 10u8 {
            done = true;
        }
        end = end + 1;
    }
    (start, end)
}

/// The 0-based line of the line start `offset`, counted exactly from the
/// index's estimate: newlines between the estimated line's start and
/// `offset` are added, or, when that start lies past `offset`, subtracted.
pub open spec fn counted_line(indexer: &LineIndexer, data: Seq<u8>, offset: int) -> int {
    let est = indexer.line_at(offset) as int;
    let anchor = match indexer.line_span(data, est) {
        Some((s, e)) => s as int,
        None => offset,
    };
    if anchor <= offset {
        saturate(est + (newlines(data, offset) - newlines(data, anchor))) as int
    } else {
        let back = newlines(data, anchor) - newlines(data, offset);
        if back < est {
            est - back
        } else {
            0
        }
    }
}

/// The line number of `offset`, from the index's estimate corrected by
/// counting newlines.
pub fn count_lines_accurate(indexer: &LineIndexer, reader: &FileReader, offset: usize) -> (r: usize)
    requires
        indexer.inv(),
        indexer.wf(reader@),
        offset <= reader@.len(),
    ensures
        r == counted_line(indexer, reader@, offset as int),
{
    let data = reader.all_data();
    let estimated = indexer.find_line_at_offset(offset);
    let anchor = match indexer.get_line_with_reader(estimated, reader) {
        Some((s, _e)) => s,
        None => offset,
    };
    proof {
        if indexer.is_dense() {
            indexer.lemma_span_in_file(reader@, estimated as int);
        }
    }
    if anchor <= offset {
        let between = count_newlines(data, anchor, offset);
        if between <= usize::MAX - estimated {
            estimated + between
        } else {
            usize::MAX
        }
    } else {
        let mut line_num = estimated;
        let mut pos = anchor;
        while pos > offset && line_num > 0
            invariant
                offset <= pos <= anchor <= data@.len(),
                line_num <= estimated,
                estimated - line_num == newlines(data@, anchor as int) - newlines(data@, pos as int),
            decreases pos,
        {
            pos = pos - 1;
            if data[pos] == 10u8 {
                line_num = line_num - 1;
            }
        }
        proof {
            lemma_newlines_mono(data@, offset as int, pos as int);
            lemma_newlines_mono(data@, pos as int, anchor as int);
        }
        line_num
    }
}

/// `m` is the match `raw` with its line: the 1-based line number of its
/// offset, the text of that line as resolved (or of the match alone where
/// the line cannot be resolved) and where the match starts in it.
pub open spec fn enriched(indexer: &LineIndexer, reader: &FileReader, raw: RawMatch, m: SearchMatch) -> bool {
    let off = raw.byte_offset as int;
    let line = indexer.line_at(off);
    let (ls, le) = match indexer.line_span(reader@, line as int) {
        Some(b) => b,
        None => (raw.byte_offset, saturate(off + raw.match_len)),
    };
    &&& m.match_length == raw.match_len
    &&& m.byte_offset == raw.byte_offset
    &&& indexer.is_dense() ==> {
        &&& m.line_number == saturate(line + 1)
        &&& m.line_content@ == chunk_text(reader.spec_encoding(), reader@, ls as int, le as int)
        &&& m.match_start == if off >= ls {
            off - ls
        } else {
            0
        }
    }
    &&& !indexer.is_dense() ==> exists|s: int, e: int|
        {
            &&& scanned_line_start(reader@, off, s)
            &&& scanned_line_end(reader@, off, e)
            &&& m.line_number == saturate(counted_line(indexer, reader@, s) + 1)
            &&& m.line_content@ == chunk_text(reader.spec_encoding(), reader@, s, e)
            &&& m.match_start == off - s
        }
}

/// A match with its line.
pub fn enrich_match(reader: &FileReader, indexer: &LineIndexer, raw: RawMatch) -> (r: SearchMatch)
    requires
        indexer.inv(),
        indexer.wf(reader@),
        raw.byte_offset <= reader@.len(),
    ensures
        enriched(indexer, reader, raw, r),
{
    let off = raw.byte_offset;
    if !indexer.is_dense_index() {
        let (ls, le) = scan_line_from_offset(reader, off);
        let line = count_lines_accurate(indexer, reader, ls);
        let line_content = reader.get_chunk(ls, le);
        let r = SearchMatch {
            line_number: if line < usize::MAX {
                line + 1
            } else {
                usize::MAX
            },
            line_content,
            match_start: off - ls,
            match_length: raw.match_len,
            byte_offset: off,
        };
        proof {
            let s = ls as int;
            let e = le as int;
            assert(scanned_line_start(reader@, off as int, s) && scanned_line_end(reader@, off as int, e)
                && r.line_number == saturate(counted_line(indexer, reader@, s) + 1)
                && r.line_content@ == chunk_text(reader.spec_encoding(), reader@, s, e)
                && r.match_start == off - s);
        }
        return r;
    }
    let line = indexer.find_line_at_offset(off);
    let (ls, le) = match indexer.get_line_with_reader(line, reader) {
        Some(b) => b,
        None => (off, if raw.match_len <= usize::MAX - off {
            off + raw.match_len
        } else {
            usize::MAX
        }),
    };
    let line_content = reader.get_chunk(ls, le);
    SearchMatch {
        line_number: if line < usize::MAX {
            line + 1
        } else {
            usize::MAX
        },
        line_content,
        match_start: if off >= ls {
            off - ls
        } else {
            0
        },
        match_length: raw.match_len,
        byte_offset: off,
    }
}

/// The first byte a page of results is fetched from: `(page - 1) *
/// page_size`, page 0 read as 1.
pub open spec fn page_start(page: int, page_size: int) -> usize {
    saturate(
        (if page > 0 {
            page - 1
        } else {
            0
        }) * page_size,
    )
}

/// Searches the file: counts every match of the query (over `num_threads`
/// shards), then fetches one page of matches from the page's start offset,
/// each with its line. An empty query, or an empty file, gives no match; a
/// query that does not compile gives the error message.
pub fn search_page(
    reader: &FileReader,
    indexer: &LineIndexer,
    query: String,
    case_sensitive: bool,
    use_regex: bool,
    page: usize,
    page_size: usize,
    num_threads: usize,
) -> (r: Result<SearchResult, String>)
    requires
        indexer.inv(),
        indexer.wf(reader@),
    ensures
        ({
            let p = query_pattern(query@, use_regex, case_sensitive);
            let live = reader@.len() > 0 && query@.len() > 0;
            let t = if num_threads > 0 {
                num_threads as int
            } else {
                1
            };
            let overlap = overlap_for((encode_utf8(query@).len() as usize) as int);
            let total = if live {
                shards_count(p, reader.spec_encoding(), reader@, 0, t, shard_size(reader@.len() as int, t), overlap) as usize
            } else {
                0
            };
            let fetched = fetch_from(
                p,
                reader.spec_encoding(),
                reader@,
                page_start(page as int, page_size as int) as int,
                page_size as int,
                overlap,
            );
            &&& (r is Err <==> live && !regex_compiles(p))
            &&& r matches Err(msg) ==> msg@ == "Invalid regex"@
            &&& r matches Ok(res) ==> {
                &&& res.page == page
                &&& res.page_size == page_size
                &&& res.total_matches == total
                &&& total == 0 ==> res.matches@.len() == 0
                &&& total > 0 ==> res.matches@.len() == fetched.len() && forall|i: int|
                    0 <= i < fetched.len() ==> enriched(indexer, reader, fetched[i], #[trigger] res.matches@[i])
            }
        }),
{
    let mut engine = SearchEngine::new();
    engine.set_query(query, use_regex, case_sensitive);
    let total = match engine.count_matches(reader, num_threads) {
        Ok(n) => n,
        Err(e) => {
            return Err(e.message());
        },
    };
    if total == 0 {
        return Ok(SearchResult { total_matches: 0, matches: Vec::new(), page, page_size });
    }
    let before = if page > 0 {
        page - 1
    } else {
        0
    };
    proof {
        let b = before as int;
        let z = page_size as int;
        if page_size > 0 && before > usize::MAX / page_size {
            assert(b * z > usize::MAX) by (nonlinear_arith)
                requires b > (usize::MAX as int) / z, z > 0;
        }
        if page_size > 0 && before <= usize::MAX / page_size {
            assert(b * z <= usize::MAX) by (nonlinear_arith)
                requires b <= (usize::MAX as int) / z, z > 0;
        }
    }
    let start_offset = if page_size == 0 || before <= usize::MAX / page_size {
        before * page_size
    } else {
        usize::MAX
    };
    let fetched = match engine.fetch_matches(reader, start_offset, page_size) {
        Ok(v) => v,
        Err(e) => {
            return Err(e.message());
        },
    };
    let mut matches: Vec<SearchMatch> = Vec::new();
    let mut i: usize = 0;
    while i < fetched.len()
        invariant
            i <= fetched@.len(),
            matches@.len() == i,
            indexer.inv(),
            indexer.wf(reader@),
            forall|j: int| 0 <= j < i ==> enriched(indexer, reader, fetched@[j], #[trigger] matches@[j]),
            forall|j: int| 0 <= j < fetched@.len() ==> #[trigger] fetched@[j].byte_offset < reader@.len(),
        decreases fetched.len() - i,
    {
        let m = enrich_match(reader, indexer, fetched[i]);
        matches.push(m);
        i = i + 1;
    }
    Ok(SearchResult { total_matches: total, matches, page, page_size })
}

} // verus!
