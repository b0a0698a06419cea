//! Counting and fetching the matches of a query across a whole file, in
//! chunks read with an overlap so that no match straddling a boundary is lost
//! or counted twice.
use vstd::prelude::*;
use vstd::utf8::{encode_utf8, valid_utf8};
use crate::encoding::{decoded_text, is_utf8};
use crate::file_reader::{FileReader, clamped};
use crate::matcher::{
    Matcher,
    compile,
    escape,
    find_all,
    ordered_ranges,
    regex_compiles,
    regex_escaped,
    regex_matches,
};

verus! {

/// Bytes a counting shard scans per batch.
pub const COUNT_BATCH_SIZE: usize = 4194304;

/// Bytes a fetch scans per chunk.
pub const FETCH_CHUNK_SIZE: usize = 10485760;

/// The least overlap read past a batch or chunk boundary.
pub const MIN_OVERLAP: usize = 1000;

/// A match: where it starts in the file and how many bytes it spans.
#[derive(Clone, Copy, Debug, PartialEq, Eq, Structural)]
pub struct SearchResult {
    pub byte_offset: usize,
    pub match_len: usize,
}

/// The matches one fetch chunk produced.
pub struct ChunkSearchResult {
    pub matches: Vec<SearchResult>,
}

/// Which operation a `Done` message ends.
#[derive(Clone, Copy, Debug, PartialEq, Eq, Structural)]
pub enum SearchType {
    Count,
    Fetch,
}

/// What a running search reports.
pub enum SearchMessage {
    ChunkResult(ChunkSearchResult),
    CountResult(usize),
    Done(SearchType),
    Error(String),
}

/// Why a search could not run.
#[derive(Clone, Copy, Debug, PartialEq, Eq, Structural)]
pub enum SearchError {
    /// The query did not compile as a regular expression.
    InvalidRegex,
}

impl SearchError {
    /// The message reported for the error.
    pub fn message(&self) -> (r: String)
        ensures
            r@ == "Invalid regex"@,
    {
        String::from_str("Invalid regex")
    }
}

/// The bytes a scan searches: the raw bytes when they are well-formed UTF-8,
/// else the UTF-8 of their decoding in the file's encoding (whose offsets
/// then only approximate file offsets).
pub open spec fn scan_bytes(enc: Seq<char>, raw: Seq<u8>) -> Seq<u8> {
    if valid_utf8(raw) {
        raw
    } else {
        encode_utf8(decoded_text(enc, raw))
    }
}

/// The pattern compiled for a query: escaped unless it is a regular
/// expression, and prefixed with the case-insensitive flag unless the search
/// is case sensitive.
pub open spec fn query_pattern(q: Seq<char>, use_regex: bool, case_sensitive: bool) -> Seq<char> {
    let body = if use_regex {
        q
    } else {
        regex_escaped(q)
    };
    if case_sensitive {
        body
    } else {
        "(?i)"@ + body
    }
}

/// The overlap for a query of `qlen` bytes: one less than its length, at
/// least `MIN_OVERLAP`.
pub open spec fn overlap_for(qlen: int) -> int {
    if qlen - 1 > MIN_OVERLAP {
        qlen - 1
    } else {
        MIN_OVERLAP as int
    }
}

/// The matches in `ms` that start before `limit`.
pub open spec fn count_starting_before(ms: Seq<(usize, usize)>, limit: int) -> nat
    decreases ms.len(),
{
    if ms.len() == 0 {
        0
    } else {
        count_starting_before(ms.drop_last(), limit) + if (ms.last().0 as int) < limit {
            1nat
        } else {
            0nat
        }
    }
}

/// The matches a counting batch `[pos, batch_end)` accepts: those found in
/// the bytes up to `overlap` past its end that start inside it.
pub open spec fn batch_count(
    pattern: Seq<char>,
    enc: Seq<char>,
    data: Seq<u8>,
    pos: int,
    batch_end: int,
    overlap: int,
) -> nat {
    count_starting_before(
        regex_matches(pattern, scan_bytes(enc, clamped(data, pos, batch_end + overlap))),
        batch_end - pos,
    )
}

/// The end of the counting batch that starts at `pos` in a range ending at
/// `end`.
pub open spec fn batch_end_of(pos: int, end: int) -> int {
    if pos + COUNT_BATCH_SIZE < end {
        pos + COUNT_BATCH_SIZE
    } else {
        end
    }
}

/// The matches a shard `[pos, end)` accepts, batch by batch.
pub open spec fn range_count(
    pattern: Seq<char>,
    enc: Seq<char>,
    data: Seq<u8>,
    pos: int,
    end: int,
    overlap: int,
) -> nat
    decreases end - pos,
{
    if pos >= end {
        0
    } else {
        let be = batch_end_of(pos, end);
        batch_count(pattern, enc, data, pos, be, overlap) + range_count(
            pattern,
            enc,
            data,
            be,
            end,
            overlap,
        )
    }
}

/// The size of each of `threads` shards of `len` bytes: `len / threads`
/// rounded up.
pub open spec fn shard_size(len: int, threads: int) -> int {
    len / threads + if len % threads != 0 {
        1int
    } else {
        0int
    }
}

/// The matches shards `i..threads` accept, the `i`-th shard spanning
/// `[i * size, min((i + 1) * size, len))`; shards that start past the end
/// are empty.
pub open spec fn shards_count(
    pattern: Seq<char>,
    enc: Seq<char>,
    data: Seq<u8>,
    i: int,
    threads: int,
    size: int,
    overlap: int,
) -> nat
    decreases threads - i,
{
    if i >= threads || i < 0 || i * size >= data.len() {
        0
    } else {
        let end = if i * size + size < data.len() {
            i * size + size
        } else {
            data.len() as int
        };
        range_count(pattern, enc, data, i * size, end, overlap) + shards_count(
            pattern,
            enc,
            data,
            i + 1,
            threads,
            size,
            overlap,
        )
    }
}

proof fn lemma_starts_at_least_index(ms: Seq<(usize, usize)>, len: int)
    requires
        ordered_ranges(ms, len),
    ensures
        forall|i: int| 0 <= i < ms.len() ==> ms[i].0 >= i,
    decreases ms.len(),
{
    if ms.len() > 0 {
        let shorter = ms.drop_last();
        assert(ordered_ranges(shorter, len)) by {
            assert forall|i: int, j: int| 0 <= i < j < shorter.len() implies #[trigger] shorter[i].1
                <= #[trigger] shorter[j].0 && shorter[i].0 < shorter[j].0 by {
                assert(shorter[i] == ms[i] && shorter[j] == ms[j]);
            }
        }
        lemma_starts_at_least_index(shorter, len);
        assert forall|i: int| 0 <= i < ms.len() implies ms[i].0 >= i by {
            if i < ms.len() - 1 {
                assert(shorter[i] == ms[i]);
            } else if i > 0 {
                assert(shorter[i - 1] == ms[i - 1]);
                assert(ms[i - 1].1 <= ms[i].0 && ms[i - 1].0 < ms[i].0);
            }
        }
    }
}

proof fn lemma_count_all_before(ms: Seq<(usize, usize)>, limit: int)
    requires
        forall|i: int| 0 <= i < ms.len() ==> (ms[i].0 as int) < limit,
    ensures
        count_starting_before(ms, limit) == ms.len(),
    decreases ms.len(),
{
    if ms.len() > 0 {
        let shorter = ms.drop_last();
        assert forall|i: int| 0 <= i < shorter.len() implies (shorter[i].0 as int) < limit by {
            assert(shorter[i] == ms[i]);
        }
        lemma_count_all_before(shorter, limit);
    }
}

/// At most `limit` matches with distinct, increasing starts start before it.
proof fn lemma_count_bounded(ms: Seq<(usize, usize)>, len: int, limit: int)
    requires
        ordered_ranges(ms, len),
        limit >= 0,
    ensures
        count_starting_before(ms, limit) <= limit,
    decreases ms.len(),
{
    if ms.len() > 0 {
        let n = ms.len() as int;
        lemma_starts_at_least_index(ms, len);
        if (ms.last().0 as int) < limit {
            assert forall|i: int| 0 <= i < ms.len() implies (ms[i].0 as int) < limit by {
                if i < n - 1 {
                    assert(ms[i].0 < ms[n - 1].0);
                }
            }
            lemma_count_all_before(ms, limit);
        } else {
            let shorter = ms.drop_last();
            assert(ordered_ranges(shorter, len)) by {
                assert forall|i: int, j: int| 0 <= i < j < shorter.len() implies #[trigger] shorter[i].1
                    <= #[trigger] shorter[j].0 && shorter[i].0 < shorter[j].0 by {
                    assert(shorter[i] == ms[i] && shorter[j] == ms[j]);
                }
            }
            lemma_count_bounded(shorter, len, limit);
        }
    }
}

/// The end of the fetch chunk starting at `cs`, and the end of the range in
/// which it accepts match starts: the file's end on the last chunk, else
/// `overlap` before the chunk's end.
pub open spec fn chunk_end_of(cs: int, len: int) -> int {
    if cs + FETCH_CHUNK_SIZE < len {
        cs + FETCH_CHUNK_SIZE
    } else {
        len
    }
}

pub open spec fn valid_end_of(cs: int, len: int, overlap: int) -> int {
    if chunk_end_of(cs, len) >= len {
        len
    } else {
        chunk_end_of(cs, len) - overlap
    }
}

/// The matches in `ms`, found at `base`, that start before `limit`, as
/// results with file offsets.
pub open spec fn accepted(ms: Seq<(usize, usize)>, base: int, limit: int) -> Seq<SearchResult>
    decreases ms.len(),
{
    if ms.len() == 0 {
        Seq::empty()
    } else {
        let rest = accepted(ms.drop_last(), base, limit);
        let m = ms.last();
        if base + m.0 < limit {
            rest.push(
                SearchResult { byte_offset: (base + m.0) as usize, match_len: (m.1 - m.0) as usize },
            )
        } else {
            rest
        }
    }
}

/// The matches the fetch chunk at `cs` accepts.
pub open spec fn chunk_accepted(
    pattern: Seq<char>,
    enc: Seq<char>,
    data: Seq<u8>,
    cs: int,
    overlap: int,
) -> Seq<SearchResult> {
    accepted(
        regex_matches(pattern, scan_bytes(enc, clamped(data, cs, cs + FETCH_CHUNK_SIZE))),
        cs,
        valid_end_of(cs, data.len() as int, overlap),
    )
}

/// The first `n` items of `s`, or all of them.
pub open spec fn first_n<T>(s: Seq<T>, n: int) -> Seq<T> {
    if s.len() <= n {
        s
    } else {
        s.take(n)
    }
}

/// What a fetch from chunk start `cs` yields, at most `remaining` matches:
/// each chunk's accepted matches in turn, the next chunk starting where the
/// previous one stopped accepting.
pub open spec fn fetch_from(
    pattern: Seq<char>,
    enc: Seq<char>,
    data: Seq<u8>,
    cs: int,
    remaining: int,
    overlap: int,
) -> Seq<SearchResult>
    decreases data.len() - cs,
{
    if cs < 0 || cs >= data.len() || remaining <= 0 {
        Seq::empty()
    } else {
        let taken = first_n(chunk_accepted(pattern, enc, data, cs, overlap), remaining);
        let ve = valid_end_of(cs, data.len() as int, overlap);
        if chunk_end_of(cs, data.len() as int) >= data.len() || ve <= cs || ve >= data.len() {
            taken
        } else {
            taken + fetch_from(pattern, enc, data, ve, remaining - taken.len(), overlap)
        }
    }
}

/// Offsets strictly increasing.
pub open spec fn increasing_offsets(rs: Seq<SearchResult>) -> bool {
    forall|i: int, j: int| 0 <= i < j < rs.len() ==> rs[i].byte_offset < rs[j].byte_offset
}

/// The matches of `m` in the scan bytes of `reader[start..end]`.
fn matches_in(reader: &FileReader, m: &Matcher, start: usize, end: usize) -> (r: Vec<(usize, usize)>)
    ensures
        r@ == regex_matches(
            m@,
            scan_bytes(reader.spec_encoding(), clamped(reader@, start as int, end as int)),
        ),
        ordered_ranges(
            r@,
            scan_bytes(reader.spec_encoding(), clamped(reader@, start as int, end as int)).len() as int,
        ),
{
    let raw = reader.get_bytes(start, end);
    if is_utf8(raw) {
        find_all(m, raw)
    } else {
        let text = reader.encoding().decode(raw);
        find_all(m, text.as_str().as_bytes())
    }
}

/// The overlap for a query of `qlen` bytes.
fn overlap_of(qlen: usize) -> (r: usize)
    ensures
        r == overlap_for(qlen as int),
{
    if qlen > 0 && qlen - 1 > MIN_OVERLAP {
        qlen - 1
    } else {
        MIN_OVERLAP
    }
}

/// Counts the matches of the batch `[pos, batch_end)`, reading `overlap`
/// bytes past its end.
fn count_batch(m: &Matcher, reader: &FileReader, pos: usize, batch_end: usize, overlap: usize) -> (r: usize)
    requires
        pos <= batch_end <= reader@.len(),
    ensures
        r == batch_count(m@, reader.spec_encoding(), reader@, pos as int, batch_end as int, overlap as int),
        r <= batch_end - pos,
{
    let len = reader.len();
    let read_end = if overlap < len - batch_end {
        batch_end + overlap
    } else {
        len
    };
    assert(clamped(reader@, pos as int, read_end as int) == clamped(
        reader@,
        pos as int,
        batch_end + overlap,
    ));
    let ms = matches_in(reader, m, pos, read_end);
    let count = count_starting_below(&ms, batch_end - pos);
    proof {
        lemma_count_bounded(
            ms@,
            scan_bytes(reader.spec_encoding(), clamped(reader@, pos as int, read_end as int)).len() as int,
            (batch_end - pos) as int,
        );
    }
    count
}

/// How many of the matches `ms` start below `limit`.
pub fn count_starting_below(ms: &Vec<(usize, usize)>, limit: usize) -> (r: usize)
    ensures
        r == count_starting_before(ms@, limit as int),
{
    let mut count: usize = 0;
    let mut k: usize = 0;
    while k < ms.len()
        invariant
            k <= ms@.len(),
            count == count_starting_before(ms@.take(k as int), limit as int),
            count <= k,
        decreases ms.len() - k,
    {
        assert(ms@.take(k + 1).drop_last() == ms@.take(k as int));
        if ms[k].0 < limit {
            count = count + 1;
        }
        k = k + 1;
    }
    assert(ms@.take(ms@.len() as int) == ms@);
    count
}

/// Counts the matches of the shard `[start, end)`, batch by batch.
fn count_range(m: &Matcher, reader: &FileReader, start: usize, end: usize, overlap: usize) -> (r: usize)
    requires
        start <= end <= reader@.len(),
    ensures
        r == range_count(m@, reader.spec_encoding(), reader@, start as int, end as int, overlap as int),
        r <= end - start,
{
    let mut pos = start;
    let mut total: usize = 0;
    while pos < end
        invariant
            start <= pos <= end <= reader@.len(),
            total + range_count(m@, reader.spec_encoding(), reader@, pos as int, end as int, overlap as int)
                == range_count(m@, reader.spec_encoding(), reader@, start as int, end as int, overlap as int),
            total <= pos - start,
        decreases end - pos,
    {
        let batch_end = if COUNT_BATCH_SIZE < end - pos {
            pos + COUNT_BATCH_SIZE
        } else {
            end
        };
        let c = count_batch(m, reader, pos, batch_end, overlap);
        total = total + c;
        pos = batch_end;
    }
    total
}

/// Counts the matches of the whole file, shard by shard, with `threads`
/// shards of equal size (the last one shorter).
fn count_shards(m: &Matcher, reader: &FileReader, threads: usize, overlap: usize) -> (r: usize)
    requires
        threads > 0,
    ensures
        r == shards_count(
            m@,
            reader.spec_encoding(),
            reader@,
            0,
            threads as int,
            shard_size(reader@.len() as int, threads as int),
            overlap as int,
        ),
{
    let len = reader.len();
    let q = len / threads;
    proof {
        if len % threads != 0 {
            assert(q < len) by (nonlinear_arith)
                requires q == len / threads, len % threads != 0, threads > 0, len >= 0;
        }
    }
    let size = if len % threads != 0 {
        q + 1
    } else {
        q
    };
    let ghost sz = shard_size(len as int, threads as int);
    let ghost pat = m@;
    let ghost enc = reader.spec_encoding();
    let ghost data = reader@;
    assert(size == sz);
    let mut i: usize = 0;
    let mut ts: usize = 0;
    let mut total: usize = 0;
    while i < threads && ts < len
        invariant
            len == data.len(),
            data == reader@,
            pat == m@,
            enc == reader.spec_encoding(),
            threads > 0,
            size == sz,
            i <= threads,
            ts as int == if i * sz < len {
                i * sz
            } else {
                len as int
            },
            total + shards_count(pat, enc, data, i as int, threads as int, sz, overlap as int)
                == shards_count(pat, enc, data, 0, threads as int, sz, overlap as int),
            total <= ts,
        decreases threads - i,
    {
        let te = if size < len - ts {
            ts + size
        } else {
            len
        };
        proof {
            assert((i + 1) * sz == i * sz + sz) by (nonlinear_arith);
            assert(i * sz >= 0) by (nonlinear_arith)
                requires sz >= 0;
        }
        let c = count_range(m, reader, ts, te, overlap);
        total = total + c;
        ts = te;
        i = i + 1;
    }
    proof {
        if i < threads {
            assert(ts >= len);
            assert(i * sz >= len);
        }
    }
    total
}

/// The matches of `m` accepted by the fetch chunk at `cs`, at most
/// `remaining` of them, and where the next chunk starts (none after the
/// last).
fn fetch_chunk_with(
    m: &Matcher,
    reader: &FileReader,
    cs: usize,
    remaining: usize,
    overlap: usize,
) -> (r: (Vec<SearchResult>, Option<usize>))
    requires
        cs < reader@.len(),
    ensures
        r.0@ == first_n(
            chunk_accepted(m@, reader.spec_encoding(), reader@, cs as int, overlap as int),
            remaining as int,
        ),
        increasing_offsets(r.0@),
        forall|i: int|
            0 <= i < r.0@.len() ==> cs <= #[trigger] r.0@[i].byte_offset && r.0@[i].byte_offset
                < valid_end_of(cs as int, reader@.len() as int, overlap as int),
        ({
            let ve = valid_end_of(cs as int, reader@.len() as int, overlap as int);
            if chunk_end_of(cs as int, reader@.len() as int) >= reader@.len() || ve <= cs || ve
                >= reader@.len() {
                r.1 is None
            } else {
                r.1 == Some(ve as usize)
            }
        }),
{
    let len = reader.len();
    let ce = if FETCH_CHUNK_SIZE < len - cs {
        cs + FETCH_CHUNK_SIZE
    } else {
        len
    };
    assert(clamped(reader@, cs as int, ce as int) == clamped(
        reader@,
        cs as int,
        cs + FETCH_CHUNK_SIZE,
    ));
    let last = ce >= len;
    // the accepted starts, relative to `cs`, lie below `limit`
    let limit: usize = if last {
        len - cs
    } else if ce - cs > overlap {
        ce - overlap - cs
    } else {
        0
    };
    let ghost ve = valid_end_of(cs as int, len as int, overlap as int);
    assert(limit as int == if ve - cs > 0 { ve - cs } else { 0 });
    let ms = matches_in(reader, m, cs, ce);
    let mut out = accept_matches(&ms, cs, limit);
    proof {
        if ve - cs <= 0 {
            lemma_accepted_none(ms@, cs as int, ve);
            lemma_accepted_none(ms@, cs as int, cs as int);
        }
    }
    if out.len() > remaining {
        out.truncate(remaining);
    }
    let next = if last || limit == 0 || ce - overlap >= len {
        None
    } else {
        Some(ce - overlap)
    };
    (out, next)
}

proof fn lemma_accepted_none(ms: Seq<(usize, usize)>, base: int, limit: int)
    requires
        limit <= base,
    ensures
        accepted(ms, base, limit).len() == 0,
    decreases ms.len(),
{
    if ms.len() > 0 {
        lemma_accepted_none(ms.drop_last(), base, limit);
    }
}

/// The matches `ms` (found at file offset `base`) that start less than
/// `limit` bytes past `base`, as results with file offsets.
pub fn accept_matches(ms: &Vec<(usize, usize)>, base: usize, limit: usize) -> (r: Vec<SearchResult>)
    requires
        forall|a: int| 0 <= a < ms@.len() ==> #[trigger] ms@[a].0 <= ms@[a].1,
        forall|a: int, b: int| 0 <= a < b < ms@.len() ==> #[trigger] ms@[a].0 < #[trigger] ms@[b].0,
        base + limit <= usize::MAX,
    ensures
        r@ == accepted(ms@, base as int, base + limit),
        increasing_offsets(r@),
        forall|i: int|
            0 <= i < r@.len() ==> base <= #[trigger] r@[i].byte_offset && r@[i].byte_offset < base
                + limit,
{
    let ghost ve = base + limit;
    let mut out: Vec<SearchResult> = Vec::new();
    let mut k: usize = 0;
    while k < ms.len()
        invariant
            k <= ms@.len(),
            ve == base + limit,
            ve <= usize::MAX,
            forall|a: int| 0 <= a < ms@.len() ==> #[trigger] ms@[a].0 <= ms@[a].1,
            forall|a: int, b: int| 0 <= a < b < ms@.len() ==> #[trigger] ms@[a].0 < #[trigger] ms@[b].0,
            out@ == accepted(ms@.take(k as int), base as int, ve),
            forall|i: int|
                0 <= i < out@.len() ==> base <= #[trigger] out@[i].byte_offset && out@[i].byte_offset
                    < ve,
            increasing_offsets(out@),
            k > 0 && out@.len() > 0 ==> out@.last().byte_offset <= base + ms@[k - 1].0,
            out@.len() <= k,
        decreases ms.len() - k,
    {
        assert(ms@.take(k + 1).drop_last() == ms@.take(k as int));
        let (st, en) = ms[k];
        if st < limit {
            out.push(SearchResult { byte_offset: base + st, match_len: en - st });
        }
        k = k + 1;
    }
    assert(ms@.take(ms@.len() as int) == ms@);
    out
}

/// The shards of a file of `file_len` bytes for `num_threads` workers (at
/// least one): consecutive ranges of `shard_size` bytes, the last one cut at
/// the end; together they cover the file once.
pub fn shard_ranges(file_len: usize, num_threads: usize) -> (r: Vec<(usize, usize)>)
    ensures
        file_len == 0 <==> r@.len() == 0,
        r@.len() > 0 ==> r@[0].0 == 0 && r@.last().1 == file_len,
        forall|i: int| 0 <= i < r@.len() ==> #[trigger] r@[i].0 < r@[i].1,
        forall|i: int| 0 <= i < r@.len() - 1 ==> #[trigger] r@[i].1 == r@[i + 1].0,
        forall|i: int|
            0 <= i < r@.len() ==> #[trigger] r@[i].0 == i * shard_size(
                file_len as int,
                if num_threads > 0 {
                    num_threads as int
                } else {
                    1
                },
            ),
{
    let threads = if num_threads > 0 {
        num_threads
    } else {
        1
    };
    let q = file_len / threads;
    proof {
        if file_len % threads != 0 {
            assert(q < file_len) by (nonlinear_arith)
                requires q == file_len / threads, file_len % threads != 0, threads > 0, file_len >= 0;
        }
    }
    let size = if file_len % threads != 0 {
        q + 1
    } else {
        q
    };
    let ghost sz = shard_size(file_len as int, threads as int);
    proof {
        if file_len > 0 && file_len % threads == 0 {
            assert(q > 0) by (nonlinear_arith)
                requires q == file_len / threads, threads > 0, file_len > 0, file_len % threads == 0;
        }
    }
    let mut r: Vec<(usize, usize)> = Vec::new();
    let mut i: usize = 0;
    let mut ts: usize = 0;
    while i < threads && ts < file_len
        invariant
            size == sz,
            file_len > 0 ==> size > 0,
            i <= threads,
            r@.len() == i,
            ts as int == if i * sz < file_len {
                i * sz
            } else {
                file_len as int
            },
            i > 0 ==> r@.last().1 == ts,
            i == 0 ==> ts == 0,
            forall|k: int| 0 <= k < r@.len() ==> #[trigger] r@[k].0 < r@[k].1,
            forall|k: int| 0 <= k < r@.len() - 1 ==> #[trigger] r@[k].1 == r@[k + 1].0,
            forall|k: int| 0 <= k < r@.len() ==> #[trigger] r@[k].0 == k * sz,
            r@.len() > 0 ==> r@[0].0 == 0,
        decreases threads - i,
    {
        let te = if size < file_len - ts {
            ts + size
        } else {
            file_len
        };
        proof {
            assert((i + 1) * sz == i * sz + sz) by (nonlinear_arith);
            assert(i * sz >= 0) by (nonlinear_arith)
                requires sz >= 0;
        }
        r.push((ts, te));
        ts = te;
        i = i + 1;
    }
    proof {
        if file_len > 0 && i < threads {
            assert(ts >= file_len);
        }
        if file_len > 0 && i == threads {
            assert(threads * sz >= file_len) by (nonlinear_arith)
                requires sz == file_len / threads + (if file_len % threads != 0 { 1int } else { 0int }), threads > 0, file_len > 0;
        }
    }
    r
}

/// Fetches up to `max_results` matches of `m` from `start_offset` on, chunk
/// by chunk.
fn fetch_all(
    m: &Matcher,
    reader: &FileReader,
    start_offset: usize,
    max_results: usize,
    overlap: usize,
) -> (r: Vec<SearchResult>)
    ensures
        r@ == fetch_from(
            m@,
            reader.spec_encoding(),
            reader@,
            start_offset as int,
            max_results as int,
            overlap as int,
        ),
        increasing_offsets(r@),
        forall|i: int|
            0 <= i < r@.len() ==> start_offset <= #[trigger] r@[i].byte_offset < reader@.len(),
{
    let len = reader.len();
    let ghost pat = m@;
    let ghost enc = reader.spec_encoding();
    let ghost data = reader@;
    let ghost whole = fetch_from(pat, enc, data, start_offset as int, max_results as int, overlap as int);
    let mut results: Vec<SearchResult> = Vec::new();
    let mut cs = start_offset;
    let mut done = false;
    while !done && cs < len && results.len() < max_results
        invariant
            len == data.len(),
            data == reader@,
            pat == m@,
            enc == reader.spec_encoding(),
            start_offset <= cs,
            results@.len() <= max_results,
            !done ==> results@ + fetch_from(
                pat,
                enc,
                data,
                cs as int,
                max_results - results@.len(),
                overlap as int,
            ) == whole,
            done ==> results@ == whole,
            increasing_offsets(results@),
            forall|i: int|
                0 <= i < results@.len() ==> start_offset <= #[trigger] results@[i].byte_offset
                    && results@[i].byte_offset < len,
            !done ==> forall|i: int|
                0 <= i < results@.len() ==> #[trigger] results@[i].byte_offset < cs,
        decreases len - cs + if done {
            0int
        } else {
            1int
        },
    {
        let (mut chunk, next) = fetch_chunk_with(m, reader, cs, max_results - results.len(), overlap);
        let ghost before = results@;
        let ghost got = chunk@;
        results.append(&mut chunk);
        proof {
            assert(results@ == before + got);
            assert forall|i: int, j: int|
                0 <= i < j < results@.len() implies results@[i].byte_offset
                < results@[j].byte_offset by {
                if j >= before.len() && i < before.len() {
                    assert(got[j - before.len()].byte_offset >= cs);
                } else if i >= before.len() {
                    assert(got[i - before.len()].byte_offset < got[j - before.len()].byte_offset);
                }
            }
            assert forall|i: int| 0 <= i < results@.len() implies start_offset
                <= #[trigger] results@[i].byte_offset && results@[i].byte_offset < len by {
                if i >= before.len() {
                    assert(got[i - before.len()].byte_offset >= cs);
                }
            }
        }
        match next {
            Some(n) => {
                proof {
                    assert forall|i: int| 0 <= i < results@.len() implies #[trigger] results@[i].byte_offset
                        < n by {
                        if i >= before.len() {
                            assert(got[i - before.len()].byte_offset < n);
                        }
                    }
                }
                cs = n;
            },
            None => {
                done = true;
            },
        }
    }
    results
}

/// A search over a file: the query, how it is read, and its compiled form
/// (none when the query does not compile).
pub struct SearchEngine {
    query: String,
    use_regex: bool,
    case_sensitive: bool,
    regex: Option<Matcher>,
    results: Vec<SearchResult>,
    total_results: usize,
}

impl Default for SearchEngine {
    fn default() -> (r: SearchEngine)
        ensures
            r.spec_query().len() == 0,
            r.spec_pattern() is None,
    {
        SearchEngine::new()
    }
}

impl SearchEngine {
    pub closed spec fn spec_query(&self) -> Seq<char> {
        self.query@
    }

    pub closed spec fn spec_use_regex(&self) -> bool {
        self.use_regex
    }

    pub closed spec fn spec_case_sensitive(&self) -> bool {
        self.case_sensitive
    }

    /// The pattern of the compiled query, if it compiled.
    pub closed spec fn spec_pattern(&self) -> Option<Seq<char>> {
        match self.regex {
            Some(m) => Some(m@),
            None => None,
        }
    }

    /// The overlap the query's length in bytes asks for.
    pub open spec fn spec_overlap(&self) -> int {
        overlap_for((encode_utf8(self.spec_query()).len() as usize) as int)
    }

    /// An engine with an empty query.
    pub fn new() -> (r: SearchEngine)
        ensures
            r.spec_query().len() == 0,
            r.spec_pattern() is None,
            !r.spec_use_regex(),
            !r.spec_case_sensitive(),
    {
        SearchEngine {
            query: String::new(),
            use_regex: false,
            case_sensitive: false,
            regex: None,
            results: Vec::new(),
            total_results: 0,
        }
    }

    /// Sets the query and compiles its pattern.
    pub fn set_query(&mut self, query: String, use_regex: bool, case_sensitive: bool)
        ensures
            final(self).spec_query() == query@,
            final(self).spec_use_regex() == use_regex,
            final(self).spec_case_sensitive() == case_sensitive,
            final(self).spec_pattern() == if regex_compiles(
                query_pattern(query@, use_regex, case_sensitive),
            ) {
                Some(query_pattern(query@, use_regex, case_sensitive))
            } else {
                None
            },
    {
        let body = if use_regex {
            query.clone()
        } else {
            escape(query.as_str())
        };
        let pattern = if case_sensitive {
            body
        } else {
            String::from_str("(?i)").concat(body.as_str())
        };
        self.query = query;
        self.use_regex = use_regex;
        self.case_sensitive = case_sensitive;
        self.regex = compile(pattern.as_str());
        self.results = Vec::new();
    }

    /// The (start, end) byte ranges of the query's matches in `text`; none
    /// for an empty query or one that did not compile.
    pub fn find_in_text(&self, text: &str) -> (r: Vec<(usize, usize)>)
        ensures
            r@ == if self.spec_query().len() == 0 {
                Seq::empty()
            } else {
                match self.spec_pattern() {
                    Some(p) => regex_matches(p, encode_utf8(text@)),
                    None => Seq::empty(),
                }
            },
    {
        if self.query.as_str().is_empty() {
            return Vec::new();
        }
        match &self.regex {
            Some(m) => find_all(m, text.as_bytes()),
            None => Vec::new(),
        }
    }

    /// Counts the query's matches in the file, splitting it into
    /// `num_threads` shards (at least one) scanned batch by batch; the same
    /// count that the shards give when scanned in parallel.
    pub fn count_matches(&self, reader: &FileReader, num_threads: usize) -> (r: Result<
        usize,
        SearchError,
    >)
        ensures
            reader@.len() == 0 || self.spec_query().len() == 0 ==> r == Ok::<usize, SearchError>(0),
            reader@.len() > 0 && self.spec_query().len() > 0 ==> match self.spec_pattern() {
                None => r == Err::<usize, SearchError>(SearchError::InvalidRegex),
                Some(p) => {
                    let t = if num_threads > 0 {
                        num_threads as int
                    } else {
                        1
                    };
                    r == Ok::<usize, SearchError>(
                        shards_count(
                            p,
                            reader.spec_encoding(),
                            reader@,
                            0,
                            t,
                            shard_size(reader@.len() as int, t),
                            self.spec_overlap(),
                        ) as usize,
                    )
                },
            },
    {
        if reader.len() == 0 || self.query.as_str().is_empty() {
            return Ok(0);
        }
        let threads = if num_threads > 0 {
            num_threads
        } else {
            1
        };
        let overlap = overlap_of(self.query.as_str().len());
        match &self.regex {
            Some(m) => Ok(count_shards(m, reader, threads, overlap)),
            None => Err(SearchError::InvalidRegex),
        }
    }

    /// Fetches up to `max_results` matches from byte `start_offset` on, in
    /// 10 MiB chunks; offsets come out strictly increasing.
    pub fn fetch_matches(&self, reader: &FileReader, start_offset: usize, max_results: usize) -> (r:
        Result<Vec<SearchResult>, SearchError>)
        ensures
            reader@.len() == 0 || self.spec_query().len() == 0 ==> (r matches Ok(v) && v@.len() == 0),
            reader@.len() > 0 && self.spec_query().len() > 0 ==> match self.spec_pattern() {
                None => r == Err::<Vec<SearchResult>, SearchError>(SearchError::InvalidRegex),
                Some(p) => (r matches Ok(v) && v@ == fetch_from(
                    p,
                    reader.spec_encoding(),
                    reader@,
                    start_offset as int,
                    max_results as int,
                    self.spec_overlap(),
                )),
            },
            r matches Ok(v) ==> (increasing_offsets(v@) && v@.len() <= max_results && forall|i: int|
                0 <= i < v@.len() ==> start_offset <= #[trigger] v@[i].byte_offset < reader@.len()),
    {
        if reader.len() == 0 || self.query.as_str().is_empty() {
            return Ok(Vec::new());
        }
        let overlap = overlap_of(self.query.as_str().len());
        match &self.regex {
            Some(m) => {
                let r = fetch_all(m, reader, start_offset, max_results, overlap);
                proof {
                    lemma_fetch_len(m@, reader.spec_encoding(), reader@, start_offset as int, max_results as int, overlap as int);
                }
                Ok(r)
            },
            None => Err(SearchError::InvalidRegex),
        }
    }

    /// One counting batch of a shard ending at `shard_end`, from `pos`: how
    /// many matches it accepts and where the next batch starts. An empty
    /// query accepts none and ends the shard.
    pub fn count_batch_in(&self, reader: &FileReader, pos: usize, shard_end: usize) -> (r: Result<
        (usize, usize),
        SearchError,
    >)
        requires
            pos < shard_end <= reader@.len(),
        ensures
            self.spec_query().len() == 0 ==> r == Ok::<(usize, usize), SearchError>((0, shard_end)),
            self.spec_query().len() > 0 ==> match self.spec_pattern() {
                None => r == Err::<(usize, usize), SearchError>(SearchError::InvalidRegex),
                Some(p) => r == Ok::<(usize, usize), SearchError>(
                    (
                        batch_count(
                            p,
                            reader.spec_encoding(),
                            reader@,
                            pos as int,
                            batch_end_of(pos as int, shard_end as int),
                            self.spec_overlap(),
                        ) as usize,
                        batch_end_of(pos as int, shard_end as int) as usize,
                    ),
                ),
            },
    {
        if self.query.as_str().is_empty() {
            return Ok((0, shard_end));
        }
        let overlap = overlap_of(self.query.as_str().len());
        match &self.regex {
            Some(m) => {
                let batch_end = if COUNT_BATCH_SIZE < shard_end - pos {
                    pos + COUNT_BATCH_SIZE
                } else {
                    shard_end
                };
                Ok((count_batch(m, reader, pos, batch_end, overlap), batch_end))
            },
            None => Err(SearchError::InvalidRegex),
        }
    }

    /// One fetch chunk from `chunk_start`: up to `remaining` matches it
    /// accepts, in increasing order, and where the next chunk starts (none
    /// after the last).
    pub fn fetch_chunk(&self, reader: &FileReader, chunk_start: usize, remaining: usize) -> (r:
        Result<(Vec<SearchResult>, Option<usize>), SearchError>)
        requires
            chunk_start < reader@.len(),
        ensures
            self.spec_query().len() == 0 ==> (r matches Ok((v, n)) && v@.len() == 0 && n is None),
            self.spec_query().len() > 0 && self.spec_pattern() is None ==> r == Err::<
                (Vec<SearchResult>, Option<usize>),
                SearchError,
            >(SearchError::InvalidRegex),
            self.spec_query().len() > 0 && self.spec_pattern() is Some ==> (r matches Ok((v, n))
                && v@ == first_n(
                chunk_accepted(
                    self.spec_pattern()->0,
                    reader.spec_encoding(),
                    reader@,
                    chunk_start as int,
                    self.spec_overlap(),
                ),
                remaining as int,
            ) && increasing_offsets(v@) && ({
                let ve = valid_end_of(chunk_start as int, reader@.len() as int, self.spec_overlap());
                if chunk_end_of(chunk_start as int, reader@.len() as int) >= reader@.len() || ve
                    <= chunk_start || ve >= reader@.len() {
                    n is None
                } else {
                    n == Some(ve as usize)
                }
            })),
    {
        if self.query.as_str().is_empty() {
            return Ok((Vec::new(), None));
        }
        let overlap = overlap_of(self.query.as_str().len());
        match &self.regex {
            Some(m) => Ok(fetch_chunk_with(m, reader, chunk_start, remaining, overlap)),
            None => Err(SearchError::InvalidRegex),
        }
    }

    /// Forgets the query.
    pub fn clear(&mut self)
        ensures
            final(self).spec_query().len() == 0,
            final(self).spec_pattern() is None,
    {
        self.query = String::new();
        self.results = Vec::new();
        self.regex = None;
        self.total_results = 0;
    }
}

proof fn lemma_fetch_len(
    pattern: Seq<char>,
    enc: Seq<char>,
    data: Seq<u8>,
    cs: int,
    remaining: int,
    overlap: int,
)
    ensures
        fetch_from(pattern, enc, data, cs, remaining, overlap).len() <= if remaining > 0 {
            remaining
        } else {
            0
        },
    decreases data.len() - cs,
{
    if !(cs < 0 || cs >= data.len() || remaining <= 0) {
        let taken = first_n(chunk_accepted(pattern, enc, data, cs, overlap), remaining);
        let ve = valid_end_of(cs, data.len() as int, overlap);
        if !(chunk_end_of(cs, data.len() as int) >= data.len() || ve <= cs || ve >= data.len()) {
            lemma_fetch_len(pattern, enc, data, ve, remaining - taken.len(), overlap);
        }
    }
}

} // verus!
