//! Line number to byte offset mapping: every line start for small files, and
//! checkpoints with a learned average line length for large ones.
use vstd::prelude::*;
use crate::file_reader::FileReader;

verus! {

/// Files up to this size get every line start recorded.
pub const FULL_INDEX_THRESHOLD: usize = 10_485_760;

/// Distance between checkpoints in a sparse index.
pub const SPARSE_SAMPLE_SIZE: usize = 10_485_760;

/// The most checkpoints a sparse index records.
pub const SAMPLE_COUNT_LIMIT: usize = 100;

/// How many leading checkpoint chunks are sampled for the average line length.
pub const SAMPLED_CHUNKS: usize = 5;

/// The average line length assumed when the sample holds no newline.
pub const DEFAULT_LINE_LENGTH: usize = 80;

/// The least distance scanned either way when resolving a line in a sparse
/// index.
pub const MIN_SCAN_RADIUS: usize = 65536;

/// The start of every line of `data[..n]`: 0, and each position just after a
/// newline byte.
pub open spec fn line_starts(data: Seq<u8>, n: int) -> Seq<usize>
    decreases n,
{
    if n <= 0 {
        seq![0usize]
    } else if data[n - 1] == 10u8 {
        line_starts(data, n - 1).push(n as usize)
    } else {
        line_starts(data, n - 1)
    }
}

/// The number of newline bytes in `data[..n]`.
pub open spec fn newlines(data: Seq<u8>, n: int) -> nat
    decreases n,
{
    if n <= 0 {
        0
    } else {
        newlines(data, n - 1) + if data[n - 1] == 10u8 {
            1nat
        } else {
            0nat
        }
    }
}

/// Strictly increasing.
pub open spec fn increasing(s: Seq<usize>) -> bool {
    forall|i: int, j: int| 0 <= i < j < s.len() ==> s[i] < s[j]
}

/// `x`, or `usize::MAX` where it does not fit.
pub open spec fn saturate(x: int) -> usize {
    if x > usize::MAX {
        usize::MAX
    } else {
        x as usize
    }
}

/// The checkpoints of a sparse index over a file of `size` bytes.
pub open spec fn checkpoints(size: int) -> Seq<usize> {
    let n = size / (SPARSE_SAMPLE_SIZE as int) + if size % (SPARSE_SAMPLE_SIZE as int) != 0 {
        1int
    } else {
        0int
    };
    let k = if n < SAMPLE_COUNT_LIMIT {
        n
    } else {
        SAMPLE_COUNT_LIMIT as int
    };
    Seq::new(k as nat, |i: int| (i * SPARSE_SAMPLE_SIZE) as usize)
}

/// The number of bytes sampled for the average line length.
pub open spec fn sampled_len(size: int) -> int {
    let cap = (SAMPLED_CHUNKS * SPARSE_SAMPLE_SIZE) as int;
    if size < cap {
        size
    } else {
        cap
    }
}

proof fn lemma_line_starts(data: Seq<u8>, n: int)
    requires
        0 <= n <= data.len() <= usize::MAX,
    ensures
        line_starts(data, n).len() == newlines(data, n) + 1,
        line_starts(data, n)[0] == 0,
        increasing(line_starts(data, n)),
        forall|i: int| 0 <= i < line_starts(data, n).len() ==> line_starts(data, n)[i] <= n,
        newlines(data, n) <= n,
    decreases n,
{
    if n > 0 {
        lemma_line_starts(data, n - 1);
        let prev = line_starts(data, n - 1);
        if data[n - 1] == 10u8 {
            let cur = prev.push(n as usize);
            assert forall|i: int, j: int| 0 <= i < j < cur.len() implies cur[i] < cur[j] by {
                if j == cur.len() - 1 {
                    assert(cur[i] == prev[i]);
                }
            }
        }
    }
}

/// Counts the newline bytes in `data[start..end]`.
pub fn count_newlines(data: &[u8], start: usize, end: usize) -> (r: usize)
    requires
        start <= end <= data@.len(),
    ensures
        r == newlines(data@, end as int) - newlines(data@, start as int),
{
    let mut i = start;
    let mut r: usize = 0;
    while i < end
        invariant
            start <= i <= end <= data@.len(),
            r == newlines(data@, i as int) - newlines(data@, start as int),
            r <= i - start,
        decreases end - i,
    {
        if data[i] == 10u8 {
            r = r + 1;
        }
        i = i + 1;
    }
    r
}

pub proof fn lemma_newlines_mono(data: Seq<u8>, a: int, b: int)
    requires
        0 <= a <= b <= data.len(),
    ensures
        newlines(data, a) <= newlines(data, b),
        newlines(data, b) - newlines(data, a) <= b - a,
    decreases b - a,
{
    if a < b {
        lemma_newlines_mono(data, a, b - 1);
    }
}

/// No newline byte in `data[lo..hi]`.
pub open spec fn no_newline(data: Seq<u8>, lo: int, hi: int) -> bool {
    forall|i: int| lo <= i < hi ==> data[i] != 10u8
}

/// `s` starts the line holding position `p`, as far as a scan back to `lo`
/// can tell: just after the last newline before `p`, or `lo` if there is none.
pub open spec fn starts_line_at(data: Seq<u8>, lo: int, p: int, s: int) -> bool {
    ||| (s == lo && no_newline(data, lo, p))
    ||| (lo < s <= p && data[s - 1] == 10u8 && no_newline(data, s, p))
}

/// `e` ends the line holding position `p`, as far as a scan up to `hi` can
/// tell: at the first newline from `p`, or `hi` if there is none.
pub open spec fn ends_line_at(data: Seq<u8>, p: int, hi: int, e: int) -> bool {
    ||| (e == hi && no_newline(data, p, hi))
    ||| (p <= e < hi && data[e] == 10u8 && no_newline(data, p, e))
}

/// The index `i` of the last offset at or before `offset`.
pub open spec fn is_line_of(offs: Seq<usize>, offset: int, i: int) -> bool {
    &&& 0 <= i < offs.len()
    &&& offs[i] <= offset
    &&& i + 1 < offs.len() ==> offset < offs[i + 1]
}

proof fn lemma_line_of_unique(offs: Seq<usize>, offset: int, i: int)
    requires
        increasing(offs),
        is_line_of(offs, offset, i),
        offs.len() <= usize::MAX,
    ensures
        forall|j: int| is_line_of(offs, offset, j) ==> j == i,
        (choose|j: usize| is_line_of(offs, offset, j as int)) == i,
{
    assert forall|j: int| is_line_of(offs, offset, j) implies j == i by {
        if j < i {
            assert(offs[j + 1] <= offs[i]);
        } else if j > i {
            assert(offs[i + 1] <= offs[j]);
        }
    }
    assert(is_line_of(offs, offset, (i as usize) as int));
}

proof fn lemma_line_of_exists(offs: Seq<usize>, offset: int)
    requires
        offs.len() > 0,
        offs[0] <= offset,
    ensures
        exists|i: int| is_line_of(offs, offset, i),
    decreases offs.len(),
{
    let n = offs.len() as int;
    if offs[n - 1] <= offset {
        assert(is_line_of(offs, offset, n - 1));
    } else {
        let shorter = offs.drop_last();
        lemma_line_of_exists(shorter, offset);
        let i = choose|i: int| is_line_of(shorter, offset, i);
        assert(is_line_of(offs, offset, i));
    }
}

proof fn lemma_line_bounds_unique(data: Seq<u8>, lo: int, p: int, hi: int, s1: int, s2: int, e1: int, e2: int)
    requires
        starts_line_at(data, lo, p, s1),
        starts_line_at(data, lo, p, s2),
        ends_line_at(data, p, hi, e1),
        ends_line_at(data, p, hi, e2),
    ensures
        s1 == s2,
        e1 == e2,
{
    if s1 < s2 {
        assert(data[s2 - 1] == 10u8);
    } else if s2 < s1 {
        assert(data[s1 - 1] == 10u8);
    }
    if e1 < e2 {
        assert(data[e1] == 10u8);
    } else if e2 < e1 {
        assert(data[e2] == 10u8);
    }
}

/// Where a line sits in a file: every line start in a dense index, or
/// checkpoints and an average line length `avg_num / avg_den` in a sparse one.
pub struct LineIndexer {
    line_offsets: Vec<usize>,
    total_lines: usize,
    indexed: bool,
    sample_interval: usize,
    file_size: usize,
    avg_num: usize,
    avg_den: usize,
}

impl Default for LineIndexer {
    fn default() -> (r: LineIndexer)
        ensures
            r.inv(),
            r.offsets() == seq![0usize],
            r.is_dense(),
            r.spec_total_lines() == 0,
    {
        LineIndexer::new()
    }
}

impl LineIndexer {
    /// The recorded offsets: line starts when dense, checkpoints when sparse.
    pub closed spec fn offsets(&self) -> Seq<usize> {
        self.line_offsets@
    }

    /// Whether every line start is recorded.
    pub closed spec fn is_dense(&self) -> bool {
        self.sample_interval == 0
    }

    pub closed spec fn spec_total_lines(&self) -> usize {
        self.total_lines
    }

    /// The average line length is `spec_avg_num() / spec_avg_den()` bytes.
    pub closed spec fn spec_avg_num(&self) -> int {
        self.avg_num as int
    }

    pub closed spec fn spec_avg_den(&self) -> int {
        self.avg_den as int
    }

    /// The size of the indexed file.
    pub closed spec fn spec_file_size(&self) -> int {
        self.file_size as int
    }

    /// Whether a file has been indexed.
    pub closed spec fn spec_indexed(&self) -> bool {
        self.indexed
    }

    /// Bytes between checkpoints; 0 for a dense index.
    pub closed spec fn spec_sample_interval(&self) -> int {
        self.sample_interval as int
    }

    /// What holds of every index, indexed or not: a positive average line
    /// length of bounded size, and in dense form offsets that start at 0 and
    /// increase.
    pub open spec fn inv(&self) -> bool {
        &&& 0 < self.spec_avg_den() <= self.spec_avg_num() <= SAMPLED_CHUNKS * SPARSE_SAMPLE_SIZE
        &&& self.is_dense() ==> {
            &&& self.offsets().len() > 0
            &&& self.offsets()[0] == 0
            &&& increasing(self.offsets())
        }
    }

    /// The estimated byte position of line `n` in a sparse index: `n` times
    /// the average line length, rounded down.
    pub open spec fn estimated_pos(&self, n: int) -> usize {
        saturate(n * (self.spec_avg_num()) / (self.spec_avg_den()))
    }

    /// The position `get_line_with_reader` scans around for line `n` in a
    /// sparse index: `n` times the average line length, rounded to the
    /// nearest byte (halves up).
    pub open spec fn resolved_pos(&self, n: int) -> usize {
        saturate((2 * n * self.spec_avg_num() + self.spec_avg_den()) / (2 * self.spec_avg_den()))
    }

    /// The true bounds of line `n` in a dense index: from its start to the
    /// next line's start, the last line running to the end of the file.
    pub open spec fn dense_line_bounds(&self, n: int) -> Option<(usize, usize)> {
        if n < 0 || n >= self.offsets().len() {
            None
        } else {
            Some(
                (
                    self.offsets()[n],
                    if n + 1 < self.offsets().len() {
                        self.offsets()[n + 1]
                    } else {
                        self.spec_file_size() as usize
                    },
                ),
            )
        }
    }

    /// The distance scanned either way around an estimated position: twice
    /// the average line length, at least `MIN_SCAN_RADIUS`.
    pub open spec fn scan_radius(&self) -> int {
        let twice = 2 * (self.spec_avg_num()) / (self.spec_avg_den());
        if twice > MIN_SCAN_RADIUS {
            twice
        } else {
            MIN_SCAN_RADIUS as int
        }
    }

    /// The line that byte `offset` falls in: the last line start at or before
    /// it when dense, `offset` divided by the average line length when sparse.
    pub open spec fn line_at(&self, offset: int) -> usize {
        if self.is_dense() {
            choose|i: usize| is_line_of(self.offsets(), offset, i as int)
        } else {
            (offset * (self.spec_avg_den()) / (self.spec_avg_num())) as usize
        }
    }

    /// The bounds of the scan window around the estimated position of line
    /// `n` in a sparse index over `size` bytes: its start, the estimated
    /// position (held within the window) and its end.
    pub open spec fn scan_window(&self, n: int, size: int) -> (int, int, int) {
        let est = self.resolved_pos(n) as int;
        let lo = if est - self.scan_radius() < 0 {
            0
        } else if est - self.scan_radius() < size {
            est - self.scan_radius()
        } else {
            size
        };
        let hi = if est + self.scan_radius() < size {
            est + self.scan_radius()
        } else {
            size
        };
        let p = if est < hi {
            est
        } else {
            hi
        };
        (lo, p, hi)
    }

    /// The byte range `get_line_with_reader` gives for line `n` of `data`.
    pub open spec fn line_span(&self, data: Seq<u8>, n: int) -> Option<(usize, usize)> {
        if self.is_dense() {
            self.dense_line_bounds(n)
        } else {
            let (lo, p, hi) = self.scan_window(n, data.len() as int);
            if lo >= hi {
                None
            } else {
                Some(
                    choose|b: (usize, usize)|
                        starts_line_at(data, lo, p, b.0 as int) && ends_line_at(data, p, hi, b.1 as int),
                )
            }
        }
    }

    /// The index describes `data`: dense with every line start when the file
    /// is at most the threshold, else sparse with checkpoints and the average
    /// line length over the sampled leading chunks.
    pub open spec fn wf(&self, data: Seq<u8>) -> bool {
        &&& self.spec_indexed()
        &&& self.spec_file_size() == data.len()
        &&& self.spec_avg_num() > 0
        &&& self.spec_avg_den() > 0
        &&& if data.len() <= FULL_INDEX_THRESHOLD {
            &&& self.is_dense()
            &&& self.offsets() == line_starts(data, data.len() as int)
            &&& self.spec_total_lines() == self.offsets().len()
            &&& self.spec_avg_num() == DEFAULT_LINE_LENGTH && self.spec_avg_den() == 1
        } else {
            let nl = newlines(data, sampled_len(data.len() as int));
            &&& self.spec_sample_interval() == SPARSE_SAMPLE_SIZE
            &&& self.offsets() == checkpoints(data.len() as int)
            &&& if nl > 0 {
                self.spec_avg_num() == sampled_len(data.len() as int) && self.spec_avg_den() == nl
            } else {
                self.spec_avg_num() == DEFAULT_LINE_LENGTH && self.spec_avg_den() == 1
            }
            &&& self.spec_total_lines() == (data.len() as int) * (self.spec_avg_den())
                / (self.spec_avg_num())
        }
    }

    /// A fresh index, before any file: one offset, 0.
    pub fn new() -> (r: LineIndexer)
        ensures
            r.inv(),
            r.offsets() == seq![0usize],
            r.is_dense(),
            r.spec_total_lines() == 0,
    {
        LineIndexer {
            line_offsets: vec![0],
            total_lines: 0,
            indexed: false,
            sample_interval: 0,
            file_size: 0,
            avg_num: DEFAULT_LINE_LENGTH,
            avg_den: 1,
        }
    }

    /// Records every line start of `data`.
    fn full_index(&mut self, data: &[u8])
        requires
            old(self).line_offsets@ == seq![0usize],
        ensures
            final(self).line_offsets@ == line_starts(data@, data@.len() as int),
            final(self).total_lines == old(self).total_lines,
            final(self).indexed == old(self).indexed,
            final(self).sample_interval == old(self).sample_interval,
            final(self).file_size == old(self).file_size,
            final(self).avg_num == old(self).avg_num,
            final(self).avg_den == old(self).avg_den,
    {
        let n = data.len();
        let mut i: usize = 0;
        while i < n
            invariant
                i <= n == data@.len(),
                self.line_offsets@ == line_starts(data@, i as int),
                self.total_lines == old(self).total_lines,
                self.indexed == old(self).indexed,
                self.sample_interval == old(self).sample_interval,
                self.file_size == old(self).file_size,
                self.avg_num == old(self).avg_num,
                self.avg_den == old(self).avg_den,
            decreases n - i,
        {
            if data[i] == 10u8 {
                self.line_offsets.push(i + 1);
            }
            i = i + 1;
        }
    }

    /// Records the checkpoints of `data` and learns the average line length
    /// from the leading chunks.
    fn sparse_sample_index(&mut self, data: &[u8])
        requires
            old(self).line_offsets@ == Seq::<usize>::empty(),
            old(self).file_size == data@.len(),
        ensures
            final(self).line_offsets@ == checkpoints(data@.len() as int),
            final(self).sample_interval == SPARSE_SAMPLE_SIZE,
            final(self).avg_num > 0 && final(self).avg_den > 0,
            newlines(data@, sampled_len(data@.len() as int)) > 0 ==> final(self).avg_num
                == sampled_len(data@.len() as int) && final(self).avg_den == newlines(
                data@,
                sampled_len(data@.len() as int),
            ),
            newlines(data@, sampled_len(data@.len() as int)) == 0 ==> final(self).avg_num
                == DEFAULT_LINE_LENGTH && final(self).avg_den == 1,
            final(self).avg_den <= final(self).avg_num,
            final(self).avg_num <= SAMPLED_CHUNKS * SPARSE_SAMPLE_SIZE,
            final(self).total_lines == old(self).total_lines,
            final(self).indexed == old(self).indexed,
            final(self).file_size == old(self).file_size,
    {
        let size = data.len();
        self.sample_interval = SPARSE_SAMPLE_SIZE;
        let whole = size / SPARSE_SAMPLE_SIZE;
        let n = whole + if size % SPARSE_SAMPLE_SIZE != 0 {
            1usize
        } else {
            0usize
        };
        let k = if n < SAMPLE_COUNT_LIMIT {
            n
        } else {
            SAMPLE_COUNT_LIMIT
        };
        let mut i: usize = 0;
        while i < k
            invariant
                k <= SAMPLE_COUNT_LIMIT,
                k == checkpoints(size as int).len(),
                size == data@.len(),
                i <= k,
                self.line_offsets@ == checkpoints(size as int).subrange(0, i as int),
                self.sample_interval == SPARSE_SAMPLE_SIZE,
                self.total_lines == old(self).total_lines,
                self.indexed == old(self).indexed,
                self.file_size == old(self).file_size,
            decreases k - i,
        {
            self.line_offsets.push(i * SPARSE_SAMPLE_SIZE);
            i = i + 1;
        }
        assert(self.line_offsets@ =~= checkpoints(size as int));
        let sampled = if size < SAMPLED_CHUNKS * SPARSE_SAMPLE_SIZE {
            size
        } else {
            SAMPLED_CHUNKS * SPARSE_SAMPLE_SIZE
        };
        let nl = count_newlines(data, 0, sampled);
        proof {
            lemma_newlines_mono(data@, 0, sampled as int);
        }
        if nl > 0 {
            self.avg_num = sampled;
            self.avg_den = nl;
        } else {
            self.avg_num = DEFAULT_LINE_LENGTH;
            self.avg_den = 1;
        }
    }

    /// Indexes the file that `reader` shows: densely up to the threshold,
    /// sparsely beyond.
    pub fn index_file(&mut self, reader: &FileReader)
        ensures
            final(self).inv(),
            final(self).wf(reader@),
            reader@.len() <= FULL_INDEX_THRESHOLD ==> final(self).is_dense()
                && final(self).spec_total_lines() == newlines(reader@, reader@.len() as int) + 1,
    {
        let data = reader.all_data();
        self.line_offsets.clear();
        self.file_size = data.len();
        if self.file_size <= FULL_INDEX_THRESHOLD {
            self.line_offsets.push(0);
            self.avg_num = DEFAULT_LINE_LENGTH;
            self.avg_den = 1;
            self.sample_interval = 0;
            self.full_index(data);
            proof {
                lemma_line_starts(data@, data@.len() as int);
            }
            self.total_lines = self.line_offsets.len();
        } else {
            self.sparse_sample_index(data);
            proof {
                let s = self.file_size as int;
                let d = self.avg_den as int;
                assert(s * d <= 18446744073709551615 * 52428800) by (nonlinear_arith)
                    requires 0 <= s <= 18446744073709551615, 0 <= d <= 52428800;
            }
            let t = (self.file_size as u128) * (self.avg_den as u128) / (self.avg_num as u128);
            proof {
                let s = self.file_size as int;
                let d = self.avg_den as int;
                let m = self.avg_num as int;
                assert(s * d / m <= s) by (nonlinear_arith)
                    requires d <= m, 0 < d, 0 <= s;
                assert(s * d / m >= 0) by (nonlinear_arith)
                    requires 0 < m, 0 < d, 0 <= s;
            }
            self.total_lines = t as usize;
        }
        self.indexed = true;
    }

    /// The byte range of line `n`: exact when dense (the last line runs to
    /// `usize::MAX`), an estimated start running to `usize::MAX` when sparse.
    pub fn get_line_range(&self, line_num: usize) -> (r: Option<(usize, usize)>)
        requires
            self.inv(),
        ensures
            r == self.line_range_spec(line_num as int),
            self.is_dense() ==> r == if line_num >= self.offsets().len() {
                None
            } else {
                Some(
                    (
                        self.offsets()[line_num as int],
                        if line_num + 1 < self.offsets().len() {
                            self.offsets()[line_num + 1]
                        } else {
                            usize::MAX
                        },
                    ),
                )
            },
            !self.is_dense() ==> r == Some((self.estimated_pos(line_num as int), usize::MAX)),
    {
        if self.sample_interval == 0 {
            if line_num >= self.line_offsets.len() {
                return None;
            }
            let start = self.line_offsets[line_num];
            let end = if line_num + 1 < self.line_offsets.len() {
                self.line_offsets[line_num + 1]
            } else {
                usize::MAX
            };
            Some((start, end))
        } else {
            Some((self.estimate_pos(line_num), usize::MAX))
        }
    }

    fn resolve_pos(&self, line_num: usize) -> (r: usize)
        requires
            self.inv(),
        ensures
            r == self.resolved_pos(line_num as int),
    {
        proof {
            let n = line_num as int;
            let m = self.avg_num as int;
            let d = self.avg_den as int;
            assert(2 * n * m + d <= 2 * 18446744073709551615 * 52428800 + 52428800) by (nonlinear_arith)
                requires 0 <= n <= 18446744073709551615, 0 <= m <= 52428800, 0 < d <= 52428800;
            assert((2 * n * m + d) / (2 * d) >= 0) by (nonlinear_arith)
                requires 0 <= n, 0 <= m, d > 0;
        }
        let x = (2 * (line_num as u128) * (self.avg_num as u128) + (self.avg_den as u128)) / (2 * (self.avg_den as u128));
        if x > usize::MAX as u128 {
            usize::MAX
        } else {
            x as usize
        }
    }

    fn estimate_pos(&self, line_num: usize) -> (r: usize)
        requires
            self.inv(),
        ensures
            r == self.estimated_pos(line_num as int),
    {
        proof {
            let n = line_num as int;
            let m = self.avg_num as int;
            assert(n * m <= 18446744073709551615 * 52428800) by (nonlinear_arith)
                requires 0 <= n <= 18446744073709551615, 0 <= m <= 52428800;
            assert(n * m / (self.avg_den as int) >= 0) by (nonlinear_arith)
                requires 0 <= n, 0 <= m, self.avg_den > 0;
        }
        let x = (line_num as u128) * (self.avg_num as u128) / (self.avg_den as u128);
        if x > usize::MAX as u128 {
            usize::MAX
        } else {
            x as usize
        }
    }

    /// The true byte range of line `n`. Dense: as `get_line_range`. Sparse:
    /// around the estimated position, within the scan radius, from just after
    /// the newline before it (or the scan's start) to the newline after it (or
    /// the scan's end); `None` when the scan window is empty.
    pub fn get_line_with_reader(&self, line_num: usize, reader: &FileReader) -> (r: Option<
        (usize, usize),
    >)
        requires
            self.inv(),
            self.wf(reader@),
        ensures
            r == self.line_span(reader@, line_num as int),
            self.is_dense() ==> r == self.dense_line_bounds(line_num as int),
            !self.is_dense() ==> {
                let (lo, p, hi) = self.scan_window(line_num as int, reader@.len() as int);
                if lo >= hi {
                    r is None
                } else {
                    r matches Some((s, e)) && starts_line_at(reader@, lo, p, s as int)
                        && ends_line_at(reader@, p, hi, e as int)
                }
            },
    {
        if self.sample_interval == 0 {
            if line_num >= self.line_offsets.len() {
                return None;
            }
            let start = self.line_offsets[line_num];
            let end = if line_num + 1 < self.line_offsets.len() {
                self.line_offsets[line_num + 1]
            } else {
                self.file_size
            };
            return Some((start, end));
        }
        let est = self.resolve_pos(line_num);
        proof {
            let m = self.avg_num as int;
            let d = self.avg_den as int;
            assert(2 * m / d <= 2 * m) by (nonlinear_arith)
                requires 0 < d, 0 <= m;
            assert(2 * m / d >= 0) by (nonlinear_arith)
                requires 0 < d, 0 <= m;
        }
        let twice = 2 * self.avg_num / self.avg_den;
        let radius = if twice > MIN_SCAN_RADIUS {
            twice
        } else {
            MIN_SCAN_RADIUS
        };
        let size = self.file_size;
        let back = if est >= radius {
            est - radius
        } else {
            0
        };
        let scan_start = if back < size {
            back
        } else {
            size
        };
        let scan_end = if est <= usize::MAX - radius && est + radius < size {
            est + radius
        } else {
            size
        };
        if scan_start >= scan_end {
            return None;
        }
        let chunk = reader.get_bytes(scan_start, scan_end);
        let p = if est < scan_end {
            est
        } else {
            scan_end
        };
        let mut line_start = scan_start;
        let mut found = false;
        let mut i = p;
        while i > scan_start && !found
            invariant
                scan_start <= i <= p <= scan_end <= reader@.len(),
                chunk@ == reader@.subrange(scan_start as int, scan_end as int),
                !found ==> no_newline(reader@, i as int, p as int) && line_start == scan_start,
                found ==> scan_start < line_start <= p && reader@[line_start - 1] == 10u8
                    && no_newline(reader@, line_start as int, p as int),
            decreases i + if found { 0int } else { 1int },
        {
            if chunk[i - 1 - scan_start] == 10u8 {
                line_start = i;
                found = true;
            } else {
                i = i - 1;
            }
        }
        let mut line_end = scan_end;
        let mut found_end = false;
        let mut j = p;
        while j < scan_end && !found_end
            invariant
                scan_start <= p <= j <= scan_end <= reader@.len(),
                chunk@ == reader@.subrange(scan_start as int, scan_end as int),
                !found_end ==> no_newline(reader@, p as int, j as int) && line_end == scan_end,
                found_end ==> p <= line_end < scan_end && reader@[line_end as int] == 10u8
                    && no_newline(reader@, p as int, line_end as int),
            decreases scan_end - j + if found_end { 0int } else { 1int },
        {
            if chunk[j - scan_start] == 10u8 {
                line_end = j;
                found_end = true;
            } else {
                j = j + 1;
            }
        }
        proof {
            let (lo, pp, hi) = self.scan_window(line_num as int, reader@.len() as int);
            assert(lo == scan_start && pp == p && hi == scan_end);
            let b = (line_start, line_end);
            assert(starts_line_at(reader@, lo, pp, b.0 as int) && ends_line_at(reader@, pp, hi, b.1 as int));
            let c = choose|c: (usize, usize)|
                starts_line_at(reader@, lo, pp, c.0 as int) && ends_line_at(reader@, pp, hi, c.1 as int);
            lemma_line_bounds_unique(reader@, lo, pp, hi, b.0 as int, c.0 as int, b.1 as int, c.1 as int);
        }
        Some((line_start, line_end))
    }

    /// The line that byte `offset` falls in: by binary search over the line
    /// starts when dense, by the average line length when sparse.
    pub fn find_line_at_offset(&self, offset: usize) -> (r: usize)
        requires
            self.inv(),
        ensures
            r == self.line_at(offset as int),
            self.is_dense() ==> is_line_of(self.offsets(), offset as int, r as int),
    {
        if self.sample_interval == 0 {
            let offs = &self.line_offsets;
            let mut lo: usize = 0;
            let mut hi: usize = offs.len();
            while hi - lo > 1
                invariant
                    offs@ == self.line_offsets@,
                    self.inv(),
                    self.sample_interval == 0,
                    0 <= lo < hi <= offs@.len(),
                    offs@[lo as int] <= offset,
                    hi < offs@.len() ==> offset < offs@[hi as int],
                decreases hi - lo,
            {
                let mid = lo + (hi - lo) / 2;
                if offs[mid] <= offset {
                    lo = mid;
                } else {
                    hi = mid;
                }
            }
            proof {
                assert(is_line_of(offs@, offset as int, lo as int));
                lemma_line_of_unique(offs@, offset as int, lo as int);
            }
            lo
        } else {
            proof {
                let o = offset as int;
                let d = self.avg_den as int;
                let m = self.avg_num as int;
                assert(o * d <= 18446744073709551615 * 52428800) by (nonlinear_arith)
                    requires 0 <= o <= 18446744073709551615, 0 <= d <= 52428800;
                assert(o * d / m <= o) by (nonlinear_arith)
                    requires 0 < d <= m, 0 <= o;
                assert(o * d / m >= 0) by (nonlinear_arith)
                    requires 0 < d <= m, 0 <= o;
            }
            ((offset as u128) * (self.avg_den as u128) / (self.avg_num as u128)) as usize
        }
    }

    /// A line of a dense index starts within the file.
    pub proof fn lemma_span_in_file(&self, data: Seq<u8>, n: int)
        requires
            self.wf(data),
            self.is_dense(),
            0 <= n,
        ensures
            self.line_span(data, n) matches Some((s, e)) ==> s <= data.len(),
    {
        lemma_line_starts(data, data.len() as int);
        if 0 <= n < self.line_offsets@.len() {
            assert(self.line_offsets@[n] <= data.len());
        }
    }

    /// The range `get_line_range` gives for line `n`.
    pub open spec fn line_range_spec(&self, n: int) -> Option<(usize, usize)> {
        if self.is_dense() {
            self.get_line_range_spec(n)
        } else {
            Some((self.estimated_pos(n), usize::MAX))
        }
    }

    /// The range `get_line_range` gives on a dense index.
    pub open spec fn get_line_range_spec(&self, n: int) -> Option<(usize, usize)> {
        if n >= self.offsets().len() {
            None
        } else {
            Some(
                (
                    self.offsets()[n],
                    if n + 1 < self.offsets().len() {
                        self.offsets()[n + 1]
                    } else {
                        usize::MAX
                    },
                ),
            )
        }
    }

    /// In a dense index the line count is the number of newline bytes plus
    /// one: a file that does not end in a newline has one line more than
    /// newlines, and a trailing newline opens a last, empty line.
    pub proof fn lemma_dense_line_count(&self, data: Seq<u8>)
        requires
            self.wf(data),
            data.len() <= FULL_INDEX_THRESHOLD,
        ensures
            self.is_dense(),
            self.offsets() == line_starts(data, data.len() as int),
            self.spec_total_lines() == self.offsets().len(),
            self.spec_total_lines() == newlines(data, data.len() as int) + 1,
            self.offsets()[0] == 0,
    {
        lemma_line_starts(data, data.len() as int);
    }

    /// Offset 0 lies in line 0, and the last byte of the file lies in a line
    /// below the line count (dense), or at most at the estimated count
    /// (sparse, where the count is an estimate).
    pub proof fn lemma_line_at_offset_bounds(&self, data: Seq<u8>)
        requires
            self.inv(),
            self.wf(data),
            data.len() > 0,
        ensures
            self.line_at(0) == 0,
            self.is_dense() ==> self.line_at(data.len() - 1) < self.spec_total_lines(),
            !self.is_dense() ==> self.line_at(data.len() - 1) <= self.spec_total_lines(),
    {
        if self.sample_interval == 0 {
            let offs = self.line_offsets@;
            assert(is_line_of(offs, 0, 0));
            lemma_line_of_unique(offs, 0, 0);
            let last = data.len() - 1;
            lemma_line_of_exists(offs, last);
            let i = choose|i: int| is_line_of(offs, last, i);
            lemma_line_of_unique(offs, last, i);
        } else {
            let s = data.len() as int;
            let d = self.avg_den as int;
            let m = self.avg_num as int;
            assert(0 * d / m == 0) by (nonlinear_arith)
                requires 0 < m;
            assert((s - 1) * d / m <= s * d / m) by (nonlinear_arith)
                requires 0 < m, 0 < d, 1 <= s;
            assert((s - 1) * d / m >= 0) by (nonlinear_arith)
                requires 0 < m, 0 < d, 1 <= s;
        }
    }

    /// Whether every line start is recorded.
    pub fn is_dense_index(&self) -> (r: bool)
        ensures
            r == self.is_dense(),
    {
        self.sample_interval == 0
    }

    pub fn total_lines(&self) -> (r: usize)
        ensures
            r == self.spec_total_lines(),
    {
        self.total_lines
    }

    pub fn line_offsets(&self) -> (r: &Vec<usize>)
        ensures
            r@ == self.offsets(),
    {
        &self.line_offsets
    }
}

} // verus!
