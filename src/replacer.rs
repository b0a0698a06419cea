//! Whole-file find and replace in bounded memory: the input is taken a
//! buffer at a time, and matches are only committed inside the buffer's safe
//! zone, so that none is split at a buffer boundary.
use vstd::prelude::*;
use vstd::utf8::encode_utf8;
use crate::matcher::{
    Matcher,
    compile,
    escape,
    expand_all,
    ordered_ranges,
    regex_compiles,
    regex_escaped,
    find_all,
    regex_capture_matches,
    regex_expansion,
    regex_matches,
    spans_of,
};

verus! {

/// Bytes of input taken per buffer.
pub const BUFFER_SIZE: usize = 1048576;

/// Bytes at the end of a buffer (before end of input) whose matches wait for
/// the next buffer; enough to hold any match.
pub const OVERLAP_SIZE: usize = 4096;

/// What a running replace reports.
pub enum ReplaceMessage {
    /// Bytes processed so far, of the total.
    Progress(usize, usize),
    Done,
    Error(String),
}

/// Why a replace could not run.
#[derive(Clone, Copy, Debug, PartialEq, Eq, Structural)]
pub enum ReplaceError {
    /// The query did not compile as a regular expression.
    InvalidRegex,
}

/// Whole-file replacement.
pub struct Replacer;

/// A byte that starts a UTF-8 character (not a continuation byte `10xxxxxx`).
pub open spec fn is_char_start(b: u8) -> bool {
    b < 0x80 || b >= 0xC0
}

/// Whether `b` starts a UTF-8 character.
pub fn is_utf8_char_boundary(b: u8) -> (r: bool)
    ensures
        r == is_char_start(b),
{
    b < 0x80 || b >= 0xC0
}

/// Where a buffer that more input follows is cut, so that the scanned part
/// does not end inside a character: at the last character start among its
/// final four bytes (a UTF-8 character has at most four), or at its end when
/// there is none there (or it is the first byte).
pub open spec fn cut_point(buf: Seq<u8>) -> int {
    let n = buf.len() as int;
    if n >= 2 && is_char_start(buf[n - 1]) {
        n - 1
    } else if n >= 3 && is_char_start(buf[n - 2]) {
        n - 2
    } else if n >= 4 && is_char_start(buf[n - 3]) {
        n - 3
    } else if n >= 5 && is_char_start(buf[n - 4]) {
        n - 4
    } else {
        n
    }
}

/// The index of the first match from `i` on that starts at or after `safe`
/// (or the number of matches).
pub open spec fn first_unsafe(ms: Seq<(usize, usize)>, safe: int, i: int) -> int
    decreases ms.len() - i,
{
    if i < 0 || i >= ms.len() || ms[i].0 >= safe {
        i
    } else {
        first_unsafe(ms, safe, i + 1)
    }
}

/// The output for the first `k` matches `ms` with expansions `xs`: each
/// one's preceding bytes (from the previous match's end), then its
/// expansion.
pub open spec fn spliced(buf: Seq<u8>, ms: Seq<(usize, usize)>, xs: Seq<Seq<u8>>, k: int) -> Seq<u8>
    decreases k,
{
    if k <= 0 {
        Seq::empty()
    } else {
        let prev_end = if k >= 2 {
            ms[k - 2].1 as int
        } else {
            0
        };
        spliced(buf, ms, xs, k - 1) + buf.subrange(prev_end, ms[k - 1].0 as int) + xs[k - 1]
    }
}

/// The output and the bytes used up when the matches `ms` (expansions `xs`)
/// that start before `safe` are replaced: through the safe zone's end, or
/// through the last replaced match's end if that reaches past it.
pub open spec fn splice_step(buf: Seq<u8>, ms: Seq<(usize, usize)>, xs: Seq<Seq<u8>>, safe: int) -> (
    Seq<u8>,
    int,
) {
    let k = first_unsafe(ms, safe, 0);
    let out = spliced(buf, ms, xs, k);
    let last_end = if k >= 1 {
        ms[k - 1].1 as int
    } else {
        0
    };
    if last_end > safe {
        (out, last_end)
    } else {
        (out + buf.subrange(last_end, safe), safe)
    }
}

/// The expansions of captured matches.
pub open spec fn expansions_of(caps: Seq<(usize, usize, Vec<u8>)>) -> Seq<Seq<u8>> {
    caps.map_values(|t: (usize, usize, Vec<u8>)| t.2@)
}

/// One buffer's work: the output and how many leading bytes of the buffer it
/// used up. The scanned part is the whole buffer at end of input, else the
/// buffer cut before its last character; the safe zone is the scanned part,
/// less `OVERLAP_SIZE` bytes before end of input. Matches that start in the
/// safe zone are replaced; the bytes up to the safe zone's end, or up to the
/// last replaced match's end if that reaches past it, are used up. With
/// `expand`, a match is replaced by the expansion of `rep` (its capture-group
/// references filled in); without, by `rep` as it stands.
pub open spec fn buffer_step(pattern: Seq<char>, rep: Seq<u8>, expand: bool, buf: Seq<u8>, eof: bool) -> (
    Seq<u8>,
    int,
) {
    let vl = if eof {
        buf.len() as int
    } else {
        cut_point(buf)
    };
    let safe = if eof {
        vl
    } else if vl > OVERLAP_SIZE {
        vl - OVERLAP_SIZE
    } else {
        0
    };
    let hay = buf.subrange(0, vl);
    if expand {
        let ms = regex_capture_matches(pattern, hay);
        let xs = Seq::new(ms.len(), |i: int| regex_expansion(pattern, hay, i, rep));
        splice_step(buf, ms, xs, safe)
    } else {
        let ms = regex_matches(pattern, hay);
        splice_step(buf, ms, Seq::new(ms.len(), |i: int| rep), safe)
    }
}

/// Appends `src[from..to]` to `out`.
fn append_range(out: &mut Vec<u8>, src: &[u8], from: usize, to: usize)
    requires
        from <= to <= src@.len(),
    ensures
        final(out)@ == old(out)@ + src@.subrange(from as int, to as int),
{
    let mut i = from;
    while i < to
        invariant
            from <= i <= to <= src@.len(),
            out@ == old(out)@ + src@.subrange(from as int, i as int),
        decreases to - i,
    {
        out.push(src[i]);
        proof {
            assert(src@.subrange(from as int, i + 1) == src@.subrange(from as int, i as int).push(
                src@[i as int],
            ));
        }
        i = i + 1;
    }
}

proof fn lemma_first_unsafe_bounds(ms: Seq<(usize, usize)>, safe: int, i: int)
    requires
        0 <= i <= ms.len(),
    ensures
        i <= first_unsafe(ms, safe, i) <= ms.len(),
        forall|j: int| i <= j < first_unsafe(ms, safe, i) ==> ms[j].0 < safe,
        first_unsafe(ms, safe, i) < ms.len() ==> ms[first_unsafe(ms, safe, i)].0 >= safe,
    decreases ms.len() - i,
{
    if i < ms.len() && ms[i].0 < safe {
        lemma_first_unsafe_bounds(ms, safe, i + 1);
    }
}

/// The cut point of a buffer that more input follows.
fn cut_point_of(buf: &[u8]) -> (r: usize)
    ensures
        r == cut_point(buf@),
{
    let n = buf.len();
    if n >= 2 && is_utf8_char_boundary(buf[n - 1]) {
        n - 1
    } else if n >= 3 && is_utf8_char_boundary(buf[n - 2]) {
        n - 2
    } else if n >= 4 && is_utf8_char_boundary(buf[n - 3]) {
        n - 3
    } else if n >= 5 && is_utf8_char_boundary(buf[n - 4]) {
        n - 4
    } else {
        n
    }
}

impl Replacer {
    /// Compiles the pattern of a replace: the query itself when it is a
    /// regular expression, else the query escaped and matched without
    /// regard to case.
    pub fn compile_query(query: &str, use_regex: bool, case_sensitive: bool) -> (r: Result<Matcher, ReplaceError>)
        ensures
            r is Ok <==> regex_compiles(replace_pattern(query@, use_regex, case_sensitive)),
            r matches Ok(m) ==> m@ == replace_pattern(query@, use_regex, case_sensitive),
            r is Err ==> r == Err::<Matcher, ReplaceError>(ReplaceError::InvalidRegex),
    {
        let body = if use_regex {
            String::from_str(query)
        } else {
            escape(query)
        };
        let pattern = if case_sensitive {
            body
        } else {
            String::from_str("(?i)").concat(body.as_str())
        };
        match compile(pattern.as_str()) {
            Some(m) => Ok(m),
            None => Err(ReplaceError::InvalidRegex),
        }
    }

    /// Does one buffer's work (see `buffer_step`): returns the output and how
    /// many leading bytes of the buffer were used up.
    pub fn process_buffer(m: &Matcher, buf: &[u8], eof: bool, replacement: &[u8], expand: bool) -> (r: (
        Vec<u8>,
        usize,
    ))
        ensures
            (r.0@, r.1 as int) == buffer_step(m@, replacement@, expand, buf@, eof),
            r.1 <= buf@.len(),
            eof ==> r.1 == buf@.len(),
            !eof && buf@.len() >= BUFFER_SIZE ==> r.1 > 0,
    {
        let n = buf.len();
        let valid_len = if eof {
            n
        } else {
            cut_point_of(buf)
        };
        let safe = if eof {
            valid_len
        } else if valid_len > OVERLAP_SIZE {
            valid_len - OVERLAP_SIZE
        } else {
            0
        };
        let hay = &buf[0..valid_len];
        if !expand {
            let ms = find_all(m, hay);
            let mut caps: Vec<(usize, usize, Vec<u8>)> = Vec::new();
            let mut i: usize = 0;
            while i < ms.len()
                invariant
                    i <= ms@.len(),
                    caps@.len() == i,
                    forall|j: int| 0 <= j < i ==> (#[trigger] caps@[j].0, caps@[j].1) == ms@[j]
                        && caps@[j].2@ == replacement@,
                decreases ms.len() - i,
            {
                let mut x: Vec<u8> = Vec::new();
                append_range(&mut x, replacement, 0, replacement.len());
                proof {
                    assert(replacement@.subrange(0, replacement@.len() as int) == replacement@);
                }
                caps.push((ms[i].0, ms[i].1, x));
                i = i + 1;
            }
            proof {
                assert(hay@ == buf@.subrange(0, valid_len as int));
                assert(hay@.len() == valid_len);
                let xs = Seq::new(ms@.len(), |j: int| replacement@);
                assert(spans_of(caps@) =~= ms@);
                assert forall|j: int| 0 <= j < xs.len() implies expansions_of(caps@)[j] == xs[j] by {
                    assert((caps@[j].0, caps@[j].1) == ms@[j]);
                }
                assert(expansions_of(caps@) =~= xs);
                assert forall|j: int| 0 <= j < caps@.len() implies #[trigger] caps@[j].0 <= caps@[j].1
                    <= valid_len by {
                    assert(ms@[j].0 <= ms@[j].1 <= hay@.len());
                }
                assert forall|j: int, k: int| 0 <= j < k < caps@.len() implies #[trigger] caps@[j].1
                    <= #[trigger] caps@[k].0 by {
                    assert(ms@[j].1 <= ms@[k].0);
                }
            }
            return Replacer::splice_captures(buf, &caps, valid_len, safe);
        }
        let caps = expand_all(m, hay, replacement);
        proof {
            let ms = regex_capture_matches(m@, hay@);
            let xs = Seq::new(ms.len(), |i: int| regex_expansion(m@, hay@, i, replacement@));
            assert(hay@ == buf@.subrange(0, valid_len as int));
            assert(spans_of(caps@) =~= ms);
            assert(caps@.len() == ms.len());
            assert forall|i: int| 0 <= i < xs.len() implies expansions_of(caps@)[i] == xs[i] by {
                assert(0 <= i < caps@.len());
                assert((caps@[i].0, caps@[i].1) == ms[i]);
                assert(caps@[i].2@ == regex_expansion(m@, hay@, i, replacement@));
            }
            assert(expansions_of(caps@) =~= xs);
            assert(hay@.len() == valid_len);
            let mapped = spans_of(caps@);
            assert forall|i: int| 0 <= i < caps@.len() implies #[trigger] caps@[i].0 <= caps@[i].1
                <= valid_len by {
                assert(mapped[i] == (caps@[i].0, caps@[i].1));
                assert(mapped[i].0 <= mapped[i].1 <= hay@.len());
            }
            assert forall|i: int, j: int| 0 <= i < j < caps@.len() implies #[trigger] caps@[i].1
                <= #[trigger] caps@[j].0 by {
                assert(mapped[i] == (caps@[i].0, caps@[i].1));
                assert(mapped[j] == (caps@[j].0, caps@[j].1));
                assert(mapped[i].1 <= mapped[j].0);
            }
        }
        Replacer::splice_captures(buf, &caps, valid_len, safe)
    }

    /// Replaces, in `buf`, the captured matches `caps` (found in its first
    /// `valid_len` bytes) that start before `safe` by their expansions; returns
    /// the output and how many leading bytes of the buffer were used up.
    pub fn splice_captures(buf: &[u8], caps: &Vec<(usize, usize, Vec<u8>)>, valid_len: usize, safe: usize) -> (r: (
        Vec<u8>,
        usize,
    ))
        requires
            safe <= valid_len <= buf@.len(),
            forall|i: int| 0 <= i < caps@.len() ==> #[trigger] caps@[i].0 <= caps@[i].1 <= valid_len,
            forall|i: int, j: int| 0 <= i < j < caps@.len() ==> #[trigger] caps@[i].1 <= #[trigger] caps@[j].0,
        ensures
            (r.0@, r.1 as int) == splice_step(buf@, spans_of(caps@), expansions_of(caps@), safe as int),
            safe <= r.1 <= valid_len,
    {
        let ghost ms = spans_of(caps@);
        let ghost xs = expansions_of(caps@);
        let n = buf.len();
        proof {
            lemma_first_unsafe_bounds(ms, safe as int, 0);
        }
        let ghost k_end = first_unsafe(ms, safe as int, 0);
        let mut out: Vec<u8> = Vec::new();
        let mut last_end: usize = 0;
        let mut k: usize = 0;
        while k < caps.len() && caps[k].0 < safe
            invariant
                caps@.len() == ms.len() == xs.len(),
                ms == spans_of(caps@),
                xs == expansions_of(caps@),
                forall|i: int| 0 <= i < caps@.len() ==> #[trigger] caps@[i].0 <= caps@[i].1 <= valid_len,
                forall|i: int, j: int| 0 <= i < j < caps@.len() ==> #[trigger] caps@[i].1 <= #[trigger] caps@[j].0,
                forall|j: int| 0 <= j < k_end ==> ms[j].0 < safe,
                k_end < ms.len() ==> ms[k_end].0 >= safe,
                0 <= k_end <= ms.len(),
                k <= k_end,
                safe <= valid_len <= n == buf@.len(),
                last_end == if k >= 1 {
                    ms[k - 1].1 as int
                } else {
                    0
                },
                last_end <= valid_len,
                out@ == spliced(buf@, ms, xs, k as int),
            decreases caps.len() - k,
        {
            let st = caps[k].0;
            proof {
                if k >= 1 {
                    assert(caps@[k - 1].1 <= caps@[k as int].0);
                }
                assert(ms[k as int] == (caps@[k as int].0, caps@[k as int].1));
            }
            append_range(&mut out, buf, last_end, st);
            let x = &caps[k].2;
            let mut t: usize = 0;
            let ghost before = out@;
            while t < x.len()
                invariant
                    t <= x@.len(),
                    out@ == before + x@.subrange(0, t as int),
                decreases x.len() - t,
            {
                out.push(x[t]);
                proof {
                    assert(x@.subrange(0, t + 1) == x@.subrange(0, t as int).push(x@[t as int]));
                }
                t = t + 1;
            }
            proof {
                assert(x@.subrange(0, x@.len() as int) == x@);
                assert(xs[k as int] == x@);
                if k + 1 > k_end {
                    assert(ms[k as int].0 < safe);
                    assert(k_end < ms.len());
                    assert(false);
                }
            }
            last_end = caps[k].1;
            k = k + 1;
        }
        proof {
            if k < k_end {
                assert(ms[k as int].0 < safe);
                assert(caps@[k as int].0 == ms[k as int].0);
                assert(false);
            }
        }
        if last_end > safe {
            (out, last_end)
        } else {
            append_range(&mut out, buf, last_end, safe);
            (out, safe)
        }
    }
}

/// The replace as it runs over `input`, from a buffer `buf` holding the
/// input up to `pos` not yet used up: each round does one buffer's work and
/// then tops the buffer up to `BUFFER_SIZE` from the input; a top-up that
/// comes short marks the end of input, and the run ends with an empty buffer
/// at end of input.
pub open spec fn stream_run(
    pattern: Seq<char>,
    rep: Seq<u8>,
    expand: bool,
    input: Seq<u8>,
    buf: Seq<u8>,
    pos: int,
    eof: bool,
) -> Seq<u8>
    decreases input.len() - pos, if eof {
        0int
    } else {
        1int
    }, buf.len(),
{
    if pos < 0 || pos > input.len() || (eof && buf.len() == 0) {
        Seq::empty()
    } else {
        let (out, shift) = buffer_step(pattern, rep, expand, buf, eof);
        if shift < 0 || shift > buf.len() {
            out
        } else {
            let rest = buf.subrange(shift, buf.len() as int);
            let w = if eof || rest.len() >= BUFFER_SIZE {
                0
            } else {
                BUFFER_SIZE - rest.len()
            };
            let take = if w < input.len() - pos {
                w
            } else {
                input.len() - pos
            };
            let next_eof = eof || take < w;
            if take == 0 && !next_eof {
                out
            } else if take == 0 && eof && shift == 0 {
                out
            } else {
                out + stream_run(
                    pattern,
                    rep,
                    expand,
                    input,
                    rest + input.subrange(pos, pos + take),
                    pos + take,
                    next_eof,
                )
            }
        }
    }
}

/// The first buffer of a replace over `input`.
pub open spec fn first_take(input: Seq<u8>) -> int {
    if input.len() < BUFFER_SIZE {
        input.len() as int
    } else {
        BUFFER_SIZE as int
    }
}

/// The whole output of a replace over `input`.
pub open spec fn replaced_output(pattern: Seq<char>, rep: Seq<u8>, expand: bool, input: Seq<u8>) -> Seq<u8> {
    let t = first_take(input);
    stream_run(pattern, rep, expand, input, input.subrange(0, t), t, t < BUFFER_SIZE)
}

/// A replace in progress: the compiled query, the replacement, the buffered
/// input not yet used up, whether the input has ended, and how many input
/// bytes are done.
pub struct ReplaceStream {
    matcher: Matcher,
    replacement: Vec<u8>,
    expand: bool,
    buffer: Vec<u8>,
    eof: bool,
    processed: usize,
}

impl ReplaceStream {
    pub closed spec fn spec_pattern(&self) -> Seq<char> {
        self.matcher@
    }

    pub closed spec fn spec_replacement(&self) -> Seq<u8> {
        self.replacement@
    }

    /// Whether the replacement's capture-group references are filled in.
    pub closed spec fn spec_expand(&self) -> bool {
        self.expand
    }

    pub closed spec fn spec_buffer(&self) -> Seq<u8> {
        self.buffer@
    }

    pub closed spec fn spec_eof(&self) -> bool {
        self.eof
    }

    pub closed spec fn spec_processed(&self) -> usize {
        self.processed
    }

    /// Starts a replace of `query` by `replace_with`: a regular expression
    /// with capture-group references in the replacement when `use_regex`,
    /// else literal text replaced by the replacement as it stands; without
    /// regard to case unless `case_sensitive`. Fails when the query does not
    /// compile.
    pub fn new(query: &str, replace_with: &str, use_regex: bool, case_sensitive: bool) -> (r: Result<
        ReplaceStream,
        ReplaceError,
    >)
        ensures
            r is Ok <==> regex_compiles(replace_pattern(query@, use_regex, case_sensitive)),
            r is Err ==> r == Err::<ReplaceStream, ReplaceError>(ReplaceError::InvalidRegex),
            r matches Ok(st) ==> st.spec_pattern() == replace_pattern(query@, use_regex, case_sensitive)
                && st.spec_expand() == use_regex && st.spec_replacement() == encode_utf8(replace_with@) && st.spec_buffer().len()
                == 0 && !st.spec_eof() && st.spec_processed() == 0,
    {
        match Replacer::compile_query(query, use_regex, case_sensitive) {
            Ok(m) => {
                let rb = replace_with.as_bytes();
                let mut replacement: Vec<u8> = Vec::new();
                append_range(&mut replacement, rb, 0, rb.len());
                proof {
                    assert(rb@.subrange(0, rb@.len() as int) == rb@);
                }
                Ok(
                    ReplaceStream {
                        matcher: m,
                        replacement,
                        expand: use_regex,
                        buffer: Vec::new(),
                        eof: false,
                        processed: 0,
                    },
                )
            },
            Err(e) => Err(e),
        }
    }

    /// How many input bytes the buffer takes next: none once the input has
    /// ended, else what tops it up to `BUFFER_SIZE`.
    pub fn wants(&self) -> (r: usize)
        ensures
            r == if self.spec_eof() || self.spec_buffer().len() >= BUFFER_SIZE {
                0
            } else {
                BUFFER_SIZE - self.spec_buffer().len()
            },
    {
        if self.eof || self.buffer.len() >= BUFFER_SIZE {
            0
        } else {
            BUFFER_SIZE - self.buffer.len()
        }
    }

    /// Hands over input; fewer bytes than wanted mark the end of input.
    pub fn supply(&mut self, data: &[u8])
        ensures
            final(self).spec_buffer() == old(self).spec_buffer() + data@,
            final(self).spec_eof() == (old(self).spec_eof() || data@.len() < old(self).wants_spec()),
            final(self).spec_pattern() == old(self).spec_pattern(),
            final(self).spec_replacement() == old(self).spec_replacement(),
            final(self).spec_expand() == old(self).spec_expand(),
            final(self).spec_processed() == old(self).spec_processed(),
    {
        let w = self.wants();
        append_range(&mut self.buffer, data, 0, data.len());
        proof {
            assert(data@.subrange(0, data@.len() as int) == data@);
        }
        if data.len() < w {
            self.eof = true;
        }
    }

    pub open spec fn wants_spec(&self) -> int {
        if self.spec_eof() || self.spec_buffer().len() >= BUFFER_SIZE {
            0
        } else {
            BUFFER_SIZE - self.spec_buffer().len()
        }
    }

    /// Whether the replace is over: the input has ended and the buffer is
    /// used up.
    pub fn is_finished(&self) -> (r: bool)
        ensures
            r == (self.spec_eof() && self.spec_buffer().len() == 0),
    {
        self.eof && self.buffer.len() == 0
    }

    /// Input bytes done so far.
    pub fn processed(&self) -> (r: usize)
        ensures
            r == self.spec_processed(),
    {
        self.processed
    }

    /// Does one buffer's work and drops the bytes it used up; returns the
    /// output.
    pub fn step(&mut self) -> (r: Vec<u8>)
        ensures
            ({
                let (out, shift) = buffer_step(
                    old(self).spec_pattern(),
                    old(self).spec_replacement(),
                    old(self).spec_expand(),
                    old(self).spec_buffer(),
                    old(self).spec_eof(),
                );
                &&& r@ == out
                &&& 0 <= shift <= old(self).spec_buffer().len()
                &&& old(self).spec_eof() ==> shift == old(self).spec_buffer().len()
                &&& !old(self).spec_eof() && old(self).spec_buffer().len() >= BUFFER_SIZE ==> shift > 0
                &&& final(self).spec_buffer() == old(self).spec_buffer().subrange(
                    shift,
                    old(self).spec_buffer().len() as int,
                )
                &&& final(self).spec_processed() == saturate_add(old(self).spec_processed() as int, shift)
            }),
            final(self).spec_eof() == old(self).spec_eof(),
            final(self).spec_pattern() == old(self).spec_pattern(),
            final(self).spec_replacement() == old(self).spec_replacement(),
            final(self).spec_expand() == old(self).spec_expand(),
    {
        let (out, shift) = Replacer::process_buffer(
            &self.matcher,
            self.buffer.as_slice(),
            self.eof,
            self.replacement.as_slice(),
            self.expand,
        );
        let n = self.buffer.len();
        let mut rest: Vec<u8> = Vec::new();
        append_range(&mut rest, self.buffer.as_slice(), shift, n);
        self.buffer = rest;
        self.processed = if shift <= usize::MAX - self.processed {
            self.processed + shift
        } else {
            usize::MAX
        };
        out
    }
}

/// `a + b`, or `usize::MAX` where it does not fit.
pub open spec fn saturate_add(a: int, b: int) -> usize {
    if a + b > usize::MAX {
        usize::MAX
    } else {
        (a + b) as usize
    }
}

impl Replacer {
    /// Replaces every match of `query` in `input` by `replace_with` (a
    /// regular expression with capture-group references when `use_regex`,
    /// else literal text and a literal replacement; without regard to case
    /// unless `case_sensitive`), a buffer at a time, as a streaming replace
    /// over a file does.
    pub fn replace_all(input: &[u8], query: &str, replace_with: &str, use_regex: bool, case_sensitive: bool) -> (r: Result<
        Vec<u8>,
        ReplaceError,
    >)
        ensures
            r is Ok <==> regex_compiles(replace_pattern(query@, use_regex, case_sensitive)),
            r is Err ==> r == Err::<Vec<u8>, ReplaceError>(ReplaceError::InvalidRegex),
            r matches Ok(out) ==> out@ == replaced_output(
                replace_pattern(query@, use_regex, case_sensitive),
                encode_utf8(replace_with@),
                use_regex,
                input@,
            ),
    {
        let mut st = match ReplaceStream::new(query, replace_with, use_regex, case_sensitive) {
            Ok(st) => st,
            Err(e) => {
                return Err(e);
            },
        };
        let ghost pat = replace_pattern(query@, use_regex, case_sensitive);
        let ghost rep = encode_utf8(replace_with@);
        let len = input.len();
        let first = if BUFFER_SIZE < len {
            BUFFER_SIZE
        } else {
            len
        };
        st.supply(&input[0..first]);
        let mut pos = first;
        let mut out: Vec<u8> = Vec::new();
        assert(input@.subrange(0, first as int) == Seq::<u8>::empty() + input@.subrange(0, first as int));
        while !st.is_finished()
            invariant
                pos <= len == input@.len(),
                st.spec_pattern() == pat,
                st.spec_replacement() == rep,
                st.spec_expand() == use_regex,
                st.spec_buffer().len() <= BUFFER_SIZE,
                out@ + stream_run(pat, rep, use_regex, input@, st.spec_buffer(), pos as int, st.spec_eof())
                    == replaced_output(pat, rep, use_regex, input@),
            decreases len - pos, if st.spec_eof() {
                0int
            } else {
                1int
            }, st.spec_buffer().len(),
        {
            let ghost buf0 = st.spec_buffer();
            let ghost eof0 = st.spec_eof();
            let piece = st.step();
            let w = st.wants();
            let take = if w < len - pos {
                w
            } else {
                len - pos
            };
            st.supply(&input[pos..pos + take]);
            proof {
                assert(!(eof0 && buf0.len() == 0));
                assert(input@.subrange(pos as int, pos + take) == input@.subrange(pos as int, (pos + take) as int));
            }
            let mut t: usize = 0;
            let ghost before = out@;
            while t < piece.len()
                invariant
                    t <= piece@.len(),
                    out@ == before + piece@.subrange(0, t as int),
                decreases piece.len() - t,
            {
                out.push(piece[t]);
                proof {
                    assert(piece@.subrange(0, t + 1) == piece@.subrange(0, t as int).push(
                        piece@[t as int],
                    ));
                }
                t = t + 1;
            }
            proof {
                assert(piece@.subrange(0, piece@.len() as int) == piece@);
            }
            pos = pos + take;
        }
        Ok(out)
    }
}

/// How a point replace rewrites a file.
#[derive(Clone, Copy, Debug, PartialEq, Eq, Structural)]
pub enum SinglePlan {
    /// The new text is as long as the old: overwrite it where it stands.
    InPlace,
    /// The lengths differ: copy the file to a sibling with the text
    /// replaced, then rename it over the file.
    Rewrite,
}

/// The content after a point replace: `new_text` in place of the `old_len`
/// bytes at `offset`.
pub open spec fn patched(content: Seq<u8>, offset: int, old_len: int, new_text: Seq<u8>) -> Seq<u8> {
    content.subrange(0, offset) + new_text + content.subrange(offset + old_len, content.len() as int)
}

impl Replacer {
    /// How a point replace of `old_len` bytes by `new_len` bytes proceeds.
    pub fn plan_single(old_len: usize, new_len: usize) -> (r: SinglePlan)
        ensures
            r == (if old_len == new_len {
                SinglePlan::InPlace
            } else {
                SinglePlan::Rewrite
            }),
    {
        if old_len == new_len {
            SinglePlan::InPlace
        } else {
            SinglePlan::Rewrite
        }
    }

    /// The content a point replace leaves: `new_text` in place of the
    /// `old_len` bytes at `offset`.
    pub fn replace_single_in(content: &[u8], offset: usize, old_len: usize, new_text: &[u8]) -> (r: Vec<u8>)
        requires
            offset <= content@.len(),
            old_len <= content@.len() - offset,
        ensures
            r@ == patched(content@, offset as int, old_len as int, new_text@),
    {
        let n = content.len();
        let mut r: Vec<u8> = Vec::new();
        append_range(&mut r, content, 0, offset);
        append_range(&mut r, new_text, 0, new_text.len());
        append_range(&mut r, content, offset + old_len, n);
        proof {
            assert(new_text@.subrange(0, new_text@.len() as int) == new_text@);
        }
        r
    }

    /// A point replace keeps the file's size when the new text is as long as
    /// the old, and otherwise changes it by the difference: the new size is
    /// the old size, less the old length, plus the new text's length.
    pub proof fn lemma_single_size(content: Seq<u8>, offset: int, old_len: int, new_text: Seq<u8>)
        requires
            0 <= offset,
            0 <= old_len,
            offset + old_len <= content.len(),
        ensures
            patched(content, offset, old_len, new_text).len() == content.len() - old_len
                + new_text.len(),
            new_text.len() == old_len ==> patched(content, offset, old_len, new_text).len()
                == content.len(),
    {
    }
}

/// The pattern a replace compiles for a query.
pub open spec fn replace_pattern(query: Seq<char>, use_regex: bool, case_sensitive: bool) -> Seq<char> {
    let body = if use_regex {
        query
    } else {
        regex_escaped(query)
    };
    if case_sensitive {
        body
    } else {
        "(?i)"@ + body
    }
}

} // verus!
