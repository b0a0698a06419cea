//! Text as sequences of characters: conversion, case folding and literal
//! search and replace within a line.
use vstd::prelude::*;
use vstd::std_specs::iter::IteratorSpec;
use vstd::string::{axiom_spec_iter, next_postcondition};

verus! {

/// The text that `str::to_lowercase` gives.
pub uninterp spec fn lower_of(s: Seq<char>) -> Seq<char>;

/// Relies on `str::to_lowercase`, whose result depends on the characters
/// alone; an empty text stays empty.
#[verifier::external_body]
pub(crate) fn to_lower(s: &str) -> (r: String)
    ensures
        r@ == lower_of(s@),
        s@.len() == 0 ==> r@.len() == 0,
{
    s.to_lowercase()
}

/// Relies on `String::push`, which appends one character.
#[verifier::external_body]
fn push_char(s: &mut String, c: char)
    ensures
        final(s)@ == old(s)@.push(c),
{
    s.push(c)
}

/// The characters of a text.
pub fn chars_of(s: &str) -> (r: Vec<char>)
    ensures
        r@ == s@,
{
    broadcast use axiom_spec_iter, next_postcondition;

    let mut it = s.chars();
    let mut r: Vec<char> = Vec::new();
    loop
        invariant
            r@ + IteratorSpec::remaining(&it) == s@,
        decreases s@.len() - r@.len(),
    {
        match it.next() {
            Some(c) => {
                r.push(c);
            },
            None => {
                return r;
            },
        }
    }
}

/// The text of `chars[from..to]`.
pub fn string_of(chars: &[char], from: usize, to: usize) -> (r: String)
    requires
        from <= to <= chars@.len(),
    ensures
        r@ == chars@.subrange(from as int, to as int),
{
    let mut r = String::new();
    let mut i = from;
    while i < to
        invariant
            from <= i <= to <= chars@.len(),
            r@ == chars@.subrange(from as int, i as int),
        decreases to - i,
    {
        push_char(&mut r, chars[i]);
        proof {
            assert(chars@.subrange(from as int, i + 1) == chars@.subrange(from as int, i as int).push(
                chars@[i as int],
            ));
        }
        i = i + 1;
    }
    r
}

/// Whether `pat` occurs in `text` at `at`.
pub open spec fn occurs_at(text: Seq<char>, pat: Seq<char>, at: int) -> bool {
    0 <= at && at + pat.len() <= text.len() && text.subrange(at, at + pat.len()) == pat
}

/// The starts of the leftmost non-overlapping occurrences of a non-empty
/// `pat` in `text` from `from` on.
pub open spec fn occurrences(text: Seq<char>, pat: Seq<char>, from: int) -> Seq<int>
    decreases text.len() - from,
{
    if pat.len() == 0 || from < 0 || from + pat.len() > text.len() {
        Seq::empty()
    } else if occurs_at(text, pat, from) {
        seq![from].add(occurrences(text, pat, from + pat.len()))
    } else {
        occurrences(text, pat, from + 1)
    }
}

/// `text[a..b]`, with `a` and `b` held within the text and `b` at least `a`.
pub open spec fn piece(text: Seq<char>, a: int, b: int) -> Seq<char> {
    let lo = if a < 0 {
        0
    } else if a > text.len() {
        text.len() as int
    } else {
        a
    };
    let hi = if b < lo {
        lo
    } else if b > text.len() {
        text.len() as int
    } else {
        b
    };
    text.subrange(lo, hi)
}

/// `text` with `plen` characters at each of `starts` replaced by `rep`,
/// continuing from `last`.
pub open spec fn splice(text: Seq<char>, starts: Seq<int>, plen: int, rep: Seq<char>, last: int) -> Seq<
    char,
>
    decreases starts.len(),
{
    if starts.len() == 0 {
        piece(text, last, text.len() as int)
    } else {
        piece(text, last, starts[0]) + rep + splice(
            text,
            starts.drop_first(),
            plen,
            rep,
            starts[0] + plen,
        )
    }
}

/// Whether `pat` occurs in `text` at `at`.
fn matches_at(text: &[char], pat: &[char], at: usize) -> (r: bool)
    requires
        at <= text@.len(),
    ensures
        r == occurs_at(text@, pat@, at as int),
{
    let n = text.len();
    if pat.len() > n - at {
        return false;
    }
    let mut k: usize = 0;
    while k < pat.len()
        invariant
            n == text@.len(),
            k <= pat@.len(),
            at + pat@.len() <= text@.len(),
            forall|j: int| 0 <= j < k ==> text@[at + j] == pat@[j],
        decreases pat.len() - k,
    {
        if text[at + k] != pat[k] {
            assert(text@.subrange(at as int, at + pat@.len())[k as int] != pat@[k as int]);
            return false;
        }
        k = k + 1;
    }
    assert(text@.subrange(at as int, at + pat@.len()) == pat@);
    true
}

/// The starts of the leftmost non-overlapping occurrences of `pat` in
/// `text` (none for an empty `pat`).
pub fn find_occurrences(text: &[char], pat: &[char]) -> (r: Vec<usize>)
    ensures
        r@.map_values(|p: usize| p as int) == occurrences(text@, pat@, 0),
{
    let mut r: Vec<usize> = Vec::new();
    if pat.len() == 0 {
        return r;
    }
    let mut i: usize = 0;
    while i <= text.len() && pat.len() <= text.len() - i
        invariant
            pat@.len() > 0,
            r@.map_values(|p: usize| p as int) + occurrences(text@, pat@, i as int) == occurrences(
                text@,
                pat@,
                0,
            ),
        decreases text.len() - i,
    {
        if matches_at(text, pat, i) {
            let ghost before = r@;
            r.push(i);
            proof {
                assert(r@.map_values(|p: usize| p as int) == before.map_values(|p: usize| p as int).push(
                    i as int,
                ));
            }
            i = i + pat.len();
        } else {
            i = i + 1;
        }
    }
    r
}

/// The text of `piece(text, a, b)`.
fn piece_of(text: &[char], a: usize, b: usize) -> (r: String)
    ensures
        r@ == piece(text@, a as int, b as int),
{
    let n = text.len();
    let lo = if a > n {
        n
    } else {
        a
    };
    let hi = if b < lo {
        lo
    } else if b > n {
        n
    } else {
        b
    };
    string_of(text, lo, hi)
}

/// `text` with `plen` characters at each of `starts` replaced by `rep`.
pub fn splice_text(text: &[char], starts: &[usize], plen: usize, rep: &str) -> (r: String)
    ensures
        r@ == splice(text@, starts@.map_values(|p: usize| p as int), plen as int, rep@, 0),
{
    let ghost all = starts@.map_values(|p: usize| p as int);
    let mut r = String::new();
    let mut last: usize = 0;
    let mut k: usize = 0;
    let ghost glast: int = 0;
    let n = text.len();
    assert(all.subrange(0, all.len() as int) == all);
    while k < starts.len()
        invariant
            n == text@.len(),
            k <= starts@.len(),
            all == starts@.map_values(|p: usize| p as int),
            r@ + splice(text@, all.subrange(k as int, all.len() as int), plen as int, rep@, glast)
                == splice(text@, all, plen as int, rep@, 0),
            piece(text@, last as int, text@.len() as int) == piece(text@, glast, text@.len() as int),
            forall|b: int| #[trigger] piece(text@, last as int, b) == piece(text@, glast, b),
        decreases starts.len() - k,
    {
        let st = starts[k];
        let p = piece_of(text, last, st);
        r.append(p.as_str());
        r.append(rep);
        proof {
            let rest = all.subrange(k as int, all.len() as int);
            assert(rest[0] == st as int);
            assert(rest.drop_first() == all.subrange(k + 1, all.len() as int));
        }
        let next = if plen > usize::MAX - st {
            usize::MAX
        } else {
            st + plen
        };
        proof {
            glast = st + plen;
            assert forall|b: int| #[trigger] piece(text@, next as int, b) == piece(text@, glast, b) by {
                if next as int != glast {
                    assert(next as int >= text@.len());
                    assert(glast >= text@.len());
                }
            }
        }
        last = next;
        k = k + 1;
    }
    proof {
        assert(all.subrange(k as int, all.len() as int).len() == 0);
    }
    let p = piece_of(text, last, text.len());
    r.append(p.as_str());
    r
}

/// What replacing in one line gives: the new line, whether a replacement was
/// made, and whether the first replacement has now been made. An empty
/// search changes nothing. Occurrences are leftmost and non-overlapping, in
/// the line itself when case sensitive, else in the lowercased line for the
/// lowercased search (and spliced into the line as written).
pub open spec fn line_replaced(
    line: Seq<char>,
    search: Seq<char>,
    rep: Seq<char>,
    replace_all: bool,
    case_sensitive: bool,
    replaced_first: bool,
) -> (Seq<char>, bool, bool) {
    let starts = if case_sensitive {
        occurrences(line, search, 0)
    } else {
        occurrences(lower_of(line), lower_of(search), 0)
    };
    if search.len() == 0 {
        (line, false, replaced_first)
    } else if replace_all {
        (splice(line, starts, search.len() as int, rep, 0), starts.len() > 0, replaced_first)
    } else if replaced_first {
        (line, false, true)
    } else if starts.len() == 0 {
        (line, false, false)
    } else {
        (splice(line, seq![starts[0]], search.len() as int, rep, 0), true, true)
    }
}

/// Replaces `search` by `replace` in one line: every occurrence, or only the
/// first one of the whole file (tracked by `replaced_first`). Returns the new
/// line and whether it changed.
pub fn replace_in_line(
    line: &str,
    search: &str,
    replace: &str,
    replace_all: bool,
    case_sensitive: bool,
    replaced_first: &mut bool,
) -> (r: (String, bool))
    ensures
        (r.0@, r.1, *final(replaced_first)) == line_replaced(
            line@,
            search@,
            replace@,
            replace_all,
            case_sensitive,
            *old(replaced_first),
        ),
{
    let line_chars = chars_of(line);
    let search_chars = chars_of(search);
    if search_chars.len() == 0 || (!replace_all && *replaced_first) {
        return (string_of(line_chars.as_slice(), 0, line_chars.len()), false);
    }
    let starts = if case_sensitive {
        find_occurrences(line_chars.as_slice(), search_chars.as_slice())
    } else {
        let lower_line = to_lower(line);
        let lower_search = to_lower(search);
        let ll = chars_of(lower_line.as_str());
        let ls = chars_of(lower_search.as_str());
        find_occurrences(ll.as_slice(), ls.as_slice())
    };
    proof {
        assert(line_chars@.subrange(0, line_chars@.len() as int) == line_chars@);
    }
    if replace_all {
        let out = splice_text(line_chars.as_slice(), starts.as_slice(), search_chars.len(), replace);
        (out, starts.len() > 0)
    } else if starts.len() == 0 {
        (string_of(line_chars.as_slice(), 0, line_chars.len()), false)
    } else {
        let mut first: Vec<usize> = Vec::new();
        first.push(starts[0]);
        proof {
            assert(first@.map_values(|p: usize| p as int) == seq![starts@.map_values(|p: usize| p as int)[0]]);
        }
        *replaced_first = true;
        let out = splice_text(line_chars.as_slice(), first.as_slice(), search_chars.len(), replace);
        (out, true)
    }
}

/// `text` with every leftmost non-overlapping occurrence of `pat` replaced by
/// `rep`.
pub open spec fn replace_literal(text: Seq<char>, pat: Seq<char>, rep: Seq<char>) -> Seq<char> {
    splice(text, occurrences(text, pat, 0), pat.len() as int, rep, 0)
}

/// The parts of `text[from..]` between the leftmost non-overlapping
/// occurrences of a non-empty `pat`.
pub open spec fn pieces(text: Seq<char>, pat: Seq<char>, from: int) -> Seq<Seq<char>>
    decreases text.len() - from,
{
    if pat.len() == 0 || from < 0 || from + pat.len() > text.len() {
        seq![piece(text, from, text.len() as int)]
    } else if occurs_at(text, pat, from) {
        seq![Seq::<char>::empty()].add(pieces(text, pat, from + pat.len()))
    } else {
        let rest = pieces(text, pat, from + 1);
        rest.update(0, seq![text[from]] + rest[0])
    }
}

/// The parts joined with `sep` between them.
pub open spec fn join(parts: Seq<Seq<char>>, sep: Seq<char>) -> Seq<char>
    decreases parts.len(),
{
    if parts.len() == 0 {
        Seq::empty()
    } else if parts.len() == 1 {
        parts[0]
    } else {
        parts[0] + sep + join(parts.drop_first(), sep)
    }
}

proof fn lemma_pieces_nonempty(text: Seq<char>, pat: Seq<char>, from: int)
    ensures
        pieces(text, pat, from).len() >= 1,
    decreases text.len() - from,
{
    if !(pat.len() == 0 || from < 0 || from + pat.len() > text.len()) {
        if occurs_at(text, pat, from) {
            lemma_pieces_nonempty(text, pat, from + pat.len());
        } else {
            lemma_pieces_nonempty(text, pat, from + 1);
        }
    }
}

proof fn lemma_join_front(parts: Seq<Seq<char>>, sep: Seq<char>, x: Seq<char>)
    requires
        parts.len() >= 1,
    ensures
        join(parts.update(0, x + parts[0]), sep) == x + join(parts, sep),
{
    let u = parts.update(0, x + parts[0]);
    if parts.len() > 1 {
        assert(u.drop_first() == parts.drop_first());
    }
}

/// Splicing from `last` is the untouched stretch up to `from` followed by
/// the pieces from `from` joined with the replacement.
proof fn lemma_splice_is_join(text: Seq<char>, pat: Seq<char>, rep: Seq<char>, last: int, from: int)
    requires
        pat.len() > 0,
        0 <= last <= from <= text.len(),
    ensures
        splice(text, occurrences(text, pat, from), pat.len() as int, rep, last) == text.subrange(last, from)
            + join(pieces(text, pat, from), rep),
    decreases text.len() - from,
{
    let n = text.len() as int;
    if from + pat.len() > n {
        assert(piece(text, last, n) == text.subrange(last, from) + text.subrange(from, n));
        assert(piece(text, from, n) == text.subrange(from, n));
    } else if occurs_at(text, pat, from) {
        let next = from + pat.len();
        lemma_splice_is_join(text, pat, rep, next, next);
        lemma_pieces_nonempty(text, pat, next);
        let occ = occurrences(text, pat, from);
        assert(occ[0] == from);
        assert(occ.drop_first() == occurrences(text, pat, next));
        assert(piece(text, last, from) == text.subrange(last, from));
        assert(text.subrange(next, next) == Seq::<char>::empty());
        let ps = pieces(text, pat, from);
        assert(ps.drop_first() == pieces(text, pat, next));
        assert(ps[0] == Seq::<char>::empty());
    } else {
        lemma_splice_is_join(text, pat, rep, last, from + 1);
        lemma_pieces_nonempty(text, pat, from + 1);
        let rest = pieces(text, pat, from + 1);
        lemma_join_front(rest, rep, seq![text[from]]);
        assert(text.subrange(last, from + 1) == text.subrange(last, from) + seq![text[from]]);
    }
}

/// The pieces of `text` from `from`, joined with the pattern again, give
/// back `text[from..]`.
proof fn lemma_join_pieces(text: Seq<char>, pat: Seq<char>, from: int)
    requires
        pat.len() > 0,
        0 <= from <= text.len(),
    ensures
        join(pieces(text, pat, from), pat) == text.subrange(from, text.len() as int),
    decreases text.len() - from,
{
    let n = text.len() as int;
    if from + pat.len() > n {
    } else if occurs_at(text, pat, from) {
        let next = from + pat.len();
        lemma_join_pieces(text, pat, next);
        lemma_pieces_nonempty(text, pat, next);
        let ps = pieces(text, pat, from);
        assert(ps.drop_first() == pieces(text, pat, next));
        assert(text.subrange(from, n) == text.subrange(from, next) + text.subrange(next, n));
    } else {
        lemma_join_pieces(text, pat, from + 1);
        lemma_pieces_nonempty(text, pat, from + 1);
        lemma_join_front(pieces(text, pat, from + 1), pat, seq![text[from]]);
        assert(text.subrange(from, n) == seq![text[from]] + text.subrange(from + 1, n));
    }
}

/// Replacing every `q` by `q2` and then every `q2` by `q` (both case
/// sensitive) gives the line back, provided `q2` occurs in the first result
/// exactly where it replaced `q` (the occurrences do not overlap or touch
/// other text to form new ones).
pub proof fn lemma_replace_round_trip(line: Seq<char>, q: Seq<char>, q2: Seq<char>, replaced_first: bool)
    requires
        q.len() > 0,
        q2.len() > 0,
        pieces(replace_literal(line, q, q2), q2, 0) == pieces(line, q, 0),
    ensures
        line_replaced(line, q, q2, true, true, replaced_first).0 == replace_literal(line, q, q2),
        line_replaced(
            line_replaced(line, q, q2, true, true, replaced_first).0,
            q2,
            q,
            true,
            true,
            replaced_first,
        ).0 == line,
{
    let g = replace_literal(line, q, q2);
    lemma_splice_is_join(line, q, q2, 0, 0);
    lemma_splice_is_join(g, q2, q, 0, 0);
    lemma_join_pieces(line, q, 0);
    assert(line.subrange(0, 0) == Seq::<char>::empty());
    assert(g.subrange(0, 0) == Seq::<char>::empty());
    assert(line.subrange(0, line.len() as int) == line);
}

/// Replacing every occurrence of a text by itself (case sensitive) leaves a
/// line as it is, so doing it again changes nothing either.
pub proof fn lemma_replace_identity(line: Seq<char>, q: Seq<char>, replaced_first: bool)
    requires
        q.len() > 0,
    ensures
        line_replaced(line, q, q, true, true, replaced_first).0 == line,
        line_replaced(
            line_replaced(line, q, q, true, true, replaced_first).0,
            q,
            q,
            true,
            true,
            replaced_first,
        ).0 == line_replaced(line, q, q, true, true, replaced_first).0,
{
    lemma_splice_is_join(line, q, q, 0, 0);
    lemma_join_pieces(line, q, 0);
    assert(line.subrange(0, 0) == Seq::<char>::empty());
    assert(line.subrange(0, line.len() as int) == line);
}

} // verus!
