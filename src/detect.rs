//! Guessing the encoding of a sample of bytes: byte order marks, the density
//! of NUL bytes, UTF-8 validity and the byte patterns of Chinese text.
use vstd::prelude::*;
use vstd::utf8::valid_utf8;

verus! {

/// The name of the encoding that chardetng's detector guesses for a sample
/// fed whole, with no top-level domain and UTF-8 allowed.
pub uninterp spec fn chardet_guess(sample: Seq<u8>) -> Seq<char>;

/// Relies on `chardetng::EncodingDetector` (`new`, `feed`, `guess`), whose
/// guess depends on the bytes fed alone.
#[verifier::external_body]
fn guess_with_chardet(sample: &[u8]) -> (r: String)
    ensures
        r@ == chardet_guess(sample@),
{
    let mut detector = chardetng::EncodingDetector::new();
    detector.feed(sample, true);
    detector.guess(None, true).name().to_string()
}

/// The encodings that detection can settle on.
#[derive(Clone, Copy, Debug, PartialEq, Eq, Structural)]
pub enum DetectedKind {
    Utf8,
    Utf16Le,
    Utf16Be,
    Gbk,
}

pub open spec fn kind_name(k: DetectedKind) -> Seq<char> {
    match k {
        DetectedKind::Utf8 => "UTF-8"@,
        DetectedKind::Utf16Le => "UTF-16LE"@,
        DetectedKind::Utf16Be => "UTF-16BE"@,
        DetectedKind::Gbk => "GBK"@,
    }
}

impl DetectedKind {
    /// The canonical name of the encoding.
    pub fn name(&self) -> (r: String)
        ensures
            r@ == kind_name(*self),
    {
        match self {
            DetectedKind::Utf8 => String::from_str("UTF-8"),
            DetectedKind::Utf16Le => String::from_str("UTF-16LE"),
            DetectedKind::Utf16Be => String::from_str("UTF-16BE"),
            DetectedKind::Gbk => String::from_str("GBK"),
        }
    }
}

/// A first byte of a GBK two-byte character.
pub open spec fn is_gbk_lead(b: u8) -> bool {
    0x81 <= b <= 0xFE
}

/// A second byte of a GBK two-byte character.
pub open spec fn is_gbk_trail(b: u8) -> bool {
    (0x40 <= b <= 0x7E) || (0x80 <= b <= 0xFE)
}

/// A three-byte UTF-8 sequence at `i` whose first byte lies in E0..E9, the
/// range of the common Chinese characters.
pub open spec fn utf8_cjk_at(s: Seq<u8>, i: int) -> bool {
    0 <= i && i + 2 < s.len() && 0xE0 <= s[i] <= 0xE9 && 0x80 <= s[i + 1] <= 0xBF && 0x80
        <= s[i + 2] <= 0xBF
}

/// The GBK pairs met scanning from `i`: a pair is counted and skipped, a
/// UTF-8 Chinese triple is skipped uncounted, any other byte is stepped over.
pub open spec fn gbk_pairs_from(s: Seq<u8>, i: int) -> nat
    decreases s.len() - i,
{
    if i < 0 || i + 1 >= s.len() {
        0
    } else if is_gbk_lead(s[i]) && is_gbk_trail(s[i + 1]) {
        if utf8_cjk_at(s, i) {
            gbk_pairs_from(s, i + 3)
        } else {
            1 + gbk_pairs_from(s, i + 2)
        }
    } else {
        gbk_pairs_from(s, i + 1)
    }
}

/// The UTF-8 Chinese triples met scanning from `i`, each skipped whole.
pub open spec fn utf8_cjk_from(s: Seq<u8>, i: int) -> nat
    decreases s.len() - i,
{
    if i < 0 || i >= s.len() {
        0
    } else if utf8_cjk_at(s, i) {
        1 + utf8_cjk_from(s, i + 3)
    } else {
        utf8_cjk_from(s, i + 1)
    }
}

/// Counts the byte pairs that look like GBK two-byte characters.
pub fn count_gbk_pattern(sample: &[u8]) -> (r: usize)
    ensures
        r == gbk_pairs_from(sample@, 0),
{
    let n = sample.len();
    let mut count: usize = 0;
    let mut i: usize = 0;
    while n > 0 && i < n - 1
        invariant
            i <= n,
            n == sample@.len(),
            count <= i,
            count + gbk_pairs_from(sample@, i as int) == gbk_pairs_from(sample@, 0),
        decreases n - i,
    {
        let b1 = sample[i];
        let b2 = sample[i + 1];
        if 0x81 <= b1 && b1 <= 0xFE && ((0x40 <= b2 && b2 <= 0x7E) || (0x80 <= b2 && b2 <= 0xFE)) {
            if 0xE0 <= b1 && b1 <= 0xE9 && n - i > 2 {
                let b3 = sample[i + 2];
                if 0x80 <= b2 && b2 <= 0xBF && 0x80 <= b3 && b3 <= 0xBF {
                    i = i + 3;
                    continue;
                }
            }
            count = count + 1;
            i = i + 2;
        } else {
            i = i + 1;
        }
    }
    count
}

/// Counts the three-byte UTF-8 sequences typical of Chinese text.
pub fn count_utf8_chinese_pattern(sample: &[u8]) -> (r: usize)
    ensures
        r == utf8_cjk_from(sample@, 0),
{
    let n = sample.len();
    let mut count: usize = 0;
    let mut i: usize = 0;
    while i < n
        invariant
            i <= n,
            n == sample@.len(),
            count <= i,
            count + utf8_cjk_from(sample@, i as int) == utf8_cjk_from(sample@, 0),
        decreases n - i,
    {
        let b1 = sample[i];
        if 0xE0 <= b1 && b1 <= 0xE9 && n - i > 2 {
            let b2 = sample[i + 1];
            let b3 = sample[i + 2];
            if 0x80 <= b2 && b2 <= 0xBF && 0x80 <= b3 && b3 <= 0xBF {
                count = count + 1;
                i = i + 3;
                continue;
            }
        }
        i = i + 1;
    }
    count
}

/// NUL bytes among the first `k` byte pairs of `s`, at position `p` (0 or 1)
/// within each pair.
pub open spec fn nulls_in_pairs(s: Seq<u8>, p: int, k: int) -> nat
    decreases k,
{
    if k <= 0 {
        0
    } else {
        nulls_in_pairs(s, p, k - 1) + if s[2 * (k - 1) + p] == 0 {
            1nat
        } else {
            0nat
        }
    }
}

/// UTF-16 recognised by NUL density: on an even sample of at least four
/// bytes, the side whose NUL count exceeds 70% of the pairs wins, little
/// endian first; the confidence, in thousandths, is that side's share.
pub open spec fn utf16_by_nulls(s: Seq<u8>) -> Option<(DetectedKind, int)> {
    if s.len() < 4 || s.len() % 2 != 0 {
        None
    } else {
        let pairs = s.len() / 2;
        let threshold = pairs * 7 / 10;
        let le = nulls_in_pairs(s, 1, pairs as int);
        let be = nulls_in_pairs(s, 0, pairs as int);
        if le > threshold {
            Some((DetectedKind::Utf16Le, (le as int) * 1000 / (pairs as int)))
        } else if be > threshold {
            Some((DetectedKind::Utf16Be, (be as int) * 1000 / (pairs as int)))
        } else {
            None
        }
    }
}

/// Recognises UTF-16 text by the share of NUL bytes on one side of each pair;
/// the confidence is in thousandths.
pub fn detect_utf16_by_nulls(sample: &[u8]) -> (r: Option<(DetectedKind, u32)>)
    ensures
        match r {
            Some((k, c)) => utf16_by_nulls(sample@) == Some((k, c as int)),
            None => utf16_by_nulls(sample@) is None,
        },
{
    let n = sample.len();
    if n < 4 || n % 2 != 0 {
        return None;
    }
    let pairs = n / 2;
    let threshold = ((pairs as u128) * 7 / 10) as usize;
    let mut le: usize = 0;
    let mut be: usize = 0;
    let mut k: usize = 0;
    while k < pairs
        invariant
            n == sample@.len(),
            pairs == n / 2,
            k <= pairs,
            le == nulls_in_pairs(sample@, 1, k as int),
            be == nulls_in_pairs(sample@, 0, k as int),
            le <= k,
            be <= k,
        decreases pairs - k,
    {
        if sample[2 * k + 1] == 0 {
            le = le + 1;
        }
        if sample[2 * k] == 0 {
            be = be + 1;
        }
        k = k + 1;
    }
    if le > threshold {
        let c = ((le as u128) * 1000 / (pairs as u128)) as u32;
        proof {
            assert((le as int) * 1000 / (pairs as int) <= 1000) by (nonlinear_arith)
                requires le <= pairs, pairs > 0;
        }
        return Some((DetectedKind::Utf16Le, c));
    }
    if be > threshold {
        let c = ((be as u128) * 1000 / (pairs as u128)) as u32;
        proof {
            assert((be as int) * 1000 / (pairs as int) <= 1000) by (nonlinear_arith)
                requires be <= pairs, pairs > 0;
        }
        return Some((DetectedKind::Utf16Be, c));
    }
    None
}

/// What the sample's size adds to the confidence, in thousandths: 150 for
/// each MiB, at most 150.
pub open spec fn size_bonus(len: int) -> int {
    if len >= 1048576 {
        150
    } else {
        len * 150 / 1048576
    }
}

/// The confidence, in thousandths, for a decision reached from the byte
/// patterns: 700, plus the size bonus, plus what the encoding's evidence
/// adds, kept within 300..990.
pub open spec fn confidence_of(len: int, k: DetectedKind, valid: bool, gbk: int, cjk: int) -> int {
    let base = 700 + size_bonus(len);
    let adj = match k {
        DetectedKind::Utf8 => (if valid {
            150int
        } else {
            0int
        }) + (if cjk > 0 && gbk == 0 {
            100int
        } else {
            0int
        }),
        DetectedKind::Gbk => if !valid && gbk >= 2 {
            200int
        } else if gbk > cjk {
            100int
        } else {
            -100int
        },
        _ => 200int,
    };
    let c = base + adj;
    if c < 300 {
        300
    } else if c > 990 {
        990
    } else {
        c
    }
}

/// Computes the confidence of a decision, in thousandths.
pub fn calculate_confidence(
    sample_len: usize,
    kind: DetectedKind,
    is_valid_utf8: bool,
    gbk_count: usize,
    utf8_count: usize,
) -> (r: u32)
    ensures
        r == confidence_of(
            sample_len as int,
            kind,
            is_valid_utf8,
            gbk_count as int,
            utf8_count as int,
        ),
{
    let bonus: i64 = if sample_len >= 1048576 {
        150
    } else {
        (sample_len as i64) * 150 / 1048576
    };
    proof {
        if sample_len < 1048576 {
            assert((sample_len as int) * 150 / 1048576 <= 150) by (nonlinear_arith)
                requires sample_len < 1048576;
            assert((sample_len as int) * 150 / 1048576 >= 0) by (nonlinear_arith)
                requires sample_len >= 0;
        }
    }
    let mut c: i64 = 700 + bonus;
    match kind {
        DetectedKind::Utf8 => {
            if is_valid_utf8 {
                c = c + 150;
            }
            if utf8_count > 0 && gbk_count == 0 {
                c = c + 100;
            }
        },
        DetectedKind::Gbk => {
            if !is_valid_utf8 && gbk_count >= 2 {
                c = c + 200;
            } else if gbk_count > utf8_count {
                c = c + 100;
            } else {
                c = c - 100;
            }
        },
        _ => {
            c = c + 200;
        },
    }
    if c < 300 {
        300
    } else if c > 990 {
        990
    } else {
        c as u32
    }
}

/// The outcome of detection: the encoding's name, the confidence in
/// thousandths, and whether a byte order mark decided it.
pub struct EncodingResult {
    pub encoding: String,
    pub confidence: u32,
    pub has_bom: bool,
}

impl EncodingResult {
    fn new(kind: DetectedKind, confidence: u32, has_bom: bool) -> (r: EncodingResult)
        ensures
            r.encoding@ == kind_name(kind),
            r.confidence == confidence,
            r.has_bom == has_bom,
    {
        EncodingResult { encoding: kind.name(), confidence, has_bom }
    }
}

/// The encoding that a byte order mark announces, on a sample of at least two
/// bytes.
pub open spec fn bom_kind(s: Seq<u8>) -> Option<DetectedKind> {
    if s.len() >= 3 && s[0] == 0xEF && s[1] == 0xBB && s[2] == 0xBF {
        Some(DetectedKind::Utf8)
    } else if s.len() >= 2 && s[0] == 0xFF && s[1] == 0xFE {
        Some(DetectedKind::Utf16Le)
    } else if s.len() >= 2 && s[0] == 0xFE && s[1] == 0xFF {
        Some(DetectedKind::Utf16Be)
    } else {
        None
    }
}

/// The decision from UTF-8 validity and the pattern counts; the auxiliary
/// detector's guess is consulted only for malformed UTF-8 with fewer than two
/// GBK pairs, and anything but UTF-8 from it means GBK.
pub open spec fn chosen_kind(s: Seq<u8>, guess: Seq<char>) -> DetectedKind {
    let g = gbk_pairs_from(s, 0);
    let u = utf8_cjk_from(s, 0);
    if valid_utf8(s) {
        if u > 0 && g == 0 {
            DetectedKind::Utf8
        } else if g >= 2 && g > u {
            DetectedKind::Gbk
        } else {
            DetectedKind::Utf8
        }
    } else if g >= 2 {
        DetectedKind::Gbk
    } else if guess == "UTF-8"@ {
        DetectedKind::Utf8
    } else {
        DetectedKind::Gbk
    }
}

/// Detection of a sample, given the auxiliary detector's guess: an empty
/// sample is UTF-8 at 500; a byte order mark (when looked for) decides at
/// 1000; then the NUL test; then the byte patterns.
pub open spec fn detection(s: Seq<u8>, check_bom: bool, guess: Seq<char>) -> (
    DetectedKind,
    int,
    bool,
) {
    if s.len() == 0 {
        (DetectedKind::Utf8, 500, false)
    } else if check_bom && s.len() >= 2 && bom_kind(s) is Some {
        (bom_kind(s)->0, 1000, true)
    } else if let Some((k, c)) = utf16_by_nulls(s) {
        (k, c, false)
    } else {
        let k = chosen_kind(s, guess);
        (
            k,
            confidence_of(
                s.len() as int,
                k,
                valid_utf8(s),
                gbk_pairs_from(s, 0) as int,
                utf8_cjk_from(s, 0) as int,
            ),
            false,
        )
    }
}

pub open spec fn result_is(r: EncodingResult, d: (DetectedKind, int, bool)) -> bool {
    r.encoding@ == kind_name(d.0) && r.confidence == d.1 && r.has_bom == d.2
}

/// Detects the encoding of a sample, given what the auxiliary detector
/// guessed for it.
pub fn detect_with_guess(sample: &[u8], check_bom: bool, guess: &str) -> (r: EncodingResult)
    ensures
        result_is(r, detection(sample@, check_bom, guess@)),
{
    let n = sample.len();
    if n == 0 {
        return EncodingResult::new(DetectedKind::Utf8, 500, false);
    }
    if check_bom && n >= 2 {
        if n >= 3 && sample[0] == 0xEF && sample[1] == 0xBB && sample[2] == 0xBF {
            return EncodingResult::new(DetectedKind::Utf8, 1000, true);
        }
        if sample[0] == 0xFF && sample[1] == 0xFE {
            return EncodingResult::new(DetectedKind::Utf16Le, 1000, true);
        }
        if sample[0] == 0xFE && sample[1] == 0xFF {
            return EncodingResult::new(DetectedKind::Utf16Be, 1000, true);
        }
    }
    if let Some((kind, confidence)) = detect_utf16_by_nulls(sample) {
        return EncodingResult::new(kind, confidence, false);
    }
    let is_valid_utf8 = crate::encoding::is_utf8(sample);
    let gbk_count = count_gbk_pattern(sample);
    let utf8_count = count_utf8_chinese_pattern(sample);
    let kind = if is_valid_utf8 {
        if utf8_count > 0 && gbk_count == 0 {
            DetectedKind::Utf8
        } else if gbk_count >= 2 && gbk_count > utf8_count {
            DetectedKind::Gbk
        } else {
            DetectedKind::Utf8
        }
    } else if gbk_count >= 2 {
        DetectedKind::Gbk
    } else if crate::encoding::same_text(guess, "UTF-8") {
        DetectedKind::Utf8
    } else {
        DetectedKind::Gbk
    };
    let confidence = calculate_confidence(n, kind, is_valid_utf8, gbk_count, utf8_count);
    EncodingResult::new(kind, confidence, false)
}

/// Detects the encoding of a sample (the whole of a file under 1 MiB, else
/// its first 512 KiB), asking chardetng only where the byte patterns leave
/// the question open.
pub fn detect_sample(sample: &[u8], check_bom: bool) -> (r: EncodingResult)
    ensures
        result_is(r, detection(sample@, check_bom, chardet_guess(sample@))),
{
    let consult = !crate::encoding::is_utf8(sample) && count_gbk_pattern(sample) < 2;
    if consult {
        let guess = guess_with_chardet(sample);
        detect_with_guess(sample, check_bom, guess.as_str())
    } else {
        detect_with_guess(sample, check_bom, "")
    }
}

} // verus!
