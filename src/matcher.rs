//! Compiled regular expressions over bytes, and what their searches report.
use vstd::prelude::*;

verus! {

#[verifier::external_type_specification]
#[verifier::external_body]
pub struct ExBytesRegex(regex::bytes::Regex);

/// Whether `regex::bytes::Regex::new` accepts the pattern.
pub uninterp spec fn regex_compiles(pattern: Seq<char>) -> bool;

/// The (start, end) byte ranges of the successive non-overlapping
/// leftmost-first matches of the pattern in the haystack.
pub uninterp spec fn regex_matches(pattern: Seq<char>, haystack: Seq<u8>) -> Seq<(usize, usize)>;

/// The (start, end) byte ranges of the matches that captures iteration
/// reports for the pattern in the haystack (the same as its searches).
pub uninterp spec fn regex_capture_matches(pattern: Seq<char>, haystack: Seq<u8>) -> Seq<(usize, usize)>;

/// The bytes that expanding `replacement` (with its `$name` and `${name}`
/// references to capture groups) gives for the `i`-th match of the pattern in
/// the haystack.
pub uninterp spec fn regex_expansion(
    pattern: Seq<char>,
    haystack: Seq<u8>,
    i: int,
    replacement: Seq<u8>,
) -> Seq<u8>;

/// The characters that have a meaning in a regular expression.
pub open spec fn is_regex_meta(c: char) -> bool {
    ||| c == '\\'
    ||| c == '.'
    ||| c == '+'
    ||| c == '*'
    ||| c == '?'
    ||| c == '('
    ||| c == ')'
    ||| c == '|'
    ||| c == '['
    ||| c == ']'
    ||| c == '{'
    ||| c == '}'
    ||| c == '^'
    ||| c == '$'
    ||| c == '#'
    ||| c == '&'
    ||| c == '-'
    ||| c == '~'
}

/// The pattern that matches the text literally: a backslash before every
/// meta character.
pub open spec fn regex_escaped(text: Seq<char>) -> Seq<char>
    decreases text.len(),
{
    if text.len() == 0 {
        Seq::empty()
    } else {
        regex_escaped(text.drop_last()) + if is_regex_meta(text.last()) {
            seq!['\\', text.last()]
        } else {
            seq![text.last()]
        }
    }
}

/// Ranges that lie in a haystack of `len` bytes, in order, without overlap,
/// with starts strictly increasing.
pub open spec fn ordered_ranges(ms: Seq<(usize, usize)>, len: int) -> bool {
    &&& forall|i: int| 0 <= i < ms.len() ==> #[trigger] ms[i].0 <= ms[i].1 <= len
    &&& forall|i: int, j: int|
        0 <= i < j < ms.len() ==> #[trigger] ms[i].1 <= #[trigger] ms[j].0 && ms[i].0 < ms[j].0
}

/// The spans of captured matches.
pub open spec fn spans_of(caps: Seq<(usize, usize, Vec<u8>)>) -> Seq<(usize, usize)> {
    caps.map_values(|t: (usize, usize, Vec<u8>)| (t.0, t.1))
}

/// A compiled regular expression, with the pattern it was compiled from.
pub struct Matcher {
    re: regex::bytes::Regex,
    pattern: String,
}

impl View for Matcher {
    type V = Seq<char>;

    /// The pattern the expression was compiled from.
    closed spec fn view(&self) -> Seq<char> {
        self.pattern@
    }
}

/// Relies on `regex::bytes::Regex::new`, which fails exactly on the patterns
/// it refuses.
#[verifier::external_body]
pub(crate) fn compile(pattern: &str) -> (r: Option<Matcher>)
    ensures
        r is Some <==> regex_compiles(pattern@),
        r matches Some(m) ==> m@ == pattern@,
{
    match regex::bytes::Regex::new(pattern) {
        Ok(re) => Some(Matcher { re, pattern: pattern.to_string() }),
        Err(_) => None,
    }
}

/// Relies on `regex::escape`, which puts a backslash before each meta
/// character of a fixed list and copies every other character.
#[verifier::external_body]
pub(crate) fn escape(text: &str) -> (r: String)
    ensures
        r@ == regex_escaped(text@),
{
    regex::escape(text)
}

/// Relies on `regex::bytes::Regex::find_iter`: successive non-overlapping
/// matches, as byte ranges of the haystack, in order (an empty match is
/// never reported twice at one position, so starts strictly increase).
#[verifier::external_body]
pub(crate) fn find_all(m: &Matcher, haystack: &[u8]) -> (r: Vec<(usize, usize)>)
    ensures
        r@ == regex_matches(m@, haystack@),
        ordered_ranges(r@, haystack@.len() as int),
{
    let mut r = Vec::new();
    for mat in m.re.find_iter(haystack) {
        r.push((mat.start(), mat.end()));
    }
    r
}

/// Relies on `regex::bytes::Regex::captures_iter` (successive
/// non-overlapping matches, in order, as `find_iter` reports them) and
/// `Captures::expand`, which fills in group references.
#[verifier::external_body]
pub(crate) fn expand_all(m: &Matcher, haystack: &[u8], replacement: &[u8]) -> (r: Vec<(usize, usize, Vec<u8>)>)
    ensures
        r@.len() == regex_capture_matches(m@, haystack@).len(),
        forall|i: int|
            0 <= i < r@.len() ==> (#[trigger] r@[i].0, r@[i].1) == regex_capture_matches(m@, haystack@)[i]
            && r@[i].2@ == regex_expansion(m@, haystack@, i, replacement@),
        ordered_ranges(spans_of(r@), haystack@.len() as int),
{
    let mut r = Vec::new();
    for cap in m.re.captures_iter(haystack) {
        let mat = cap.get(0).unwrap();
        let mut dst = Vec::new();
        cap.expand(replacement, &mut dst);
        r.push((mat.start(), mat.end(), dst));
    }
    r
}

} // verus!
