//! Descriptions of the column operations of the data tools, and the file
//! names they derive from sheet names.
use vstd::prelude::*;
use crate::encoding::same_text;
use crate::text::{chars_of, lower_of, string_of, to_lower};

verus! {

/// An operation as a user describes it.
pub struct Operation {
    pub op: String,
    pub mode: Option<String>,
    pub logic: Option<String>,
    pub column: Option<String>,
    pub value: Option<String>,
    pub comparand: Option<String>,
    pub replacement: Option<String>,
    pub newcol: Option<String>,
}

/// A string operation on a column.
pub struct StrOperation {
    pub column: String,
    pub mode: String,
    pub comparand: Option<String>,
    pub replacement: Option<String>,
    pub newcol: Option<String>,
}

/// The modes that change a column in place.
pub open spec fn is_in_place_mode(m: Seq<char>) -> bool {
    ||| m == "fill"@
    ||| m == "f_fill"@
    ||| m == "lower"@
    ||| m == "upper"@
    ||| m == "trim"@
    ||| m == "ltrim"@
    ||| m == "rtrim"@
    ||| m == "squeeze"@
    ||| m == "strip"@
    ||| m == "replace"@
    ||| m == "regex_replace"@
    ||| m == "round"@
    ||| m == "reverse"@
    ||| m == "abs"@
    ||| m == "neg"@
    ||| m == "normalize"@
}

impl StrOperation {
    /// Whether the operation writes a new column rather than changing its
    /// column in place.
    pub fn produces_new_column(&self) -> (r: bool)
        ensures
            r == !is_in_place_mode(self.mode@),
    {
        let m = self.mode.as_str();
        !(same_text(m, "fill") || same_text(m, "f_fill") || same_text(m, "lower") || same_text(
            m,
            "upper",
        ) || same_text(m, "trim") || same_text(m, "ltrim") || same_text(m, "rtrim") || same_text(
            m,
            "squeeze",
        ) || same_text(m, "strip") || same_text(m, "replace") || same_text(m, "regex_replace")
            || same_text(m, "round") || same_text(m, "reverse") || same_text(m, "abs") || same_text(
            m,
            "neg",
        ) || same_text(m, "normalize"))
    }
}

/// How a filter combines with the others.
#[derive(Clone, Copy, Debug, PartialEq, Eq, Structural)]
pub enum FilterLogic {
    And,
    Or,
}

impl FilterLogic {
    /// The logic a word names, without regard to case: "and", else "or".
    pub fn from_name(s: &str) -> (r: FilterLogic)
        ensures
            r == (if lower_of(s@) == "and"@ {
                FilterLogic::And
            } else {
                FilterLogic::Or
            }),
    {
        let lowered = to_lower(s);
        if same_text(lowered.as_str(), "and") {
            FilterLogic::And
        } else {
            FilterLogic::Or
        }
    }
}

impl<'a> From<&'a str> for FilterLogic {
    fn from(s: &'a str) -> (r: FilterLogic) {
        FilterLogic::from_name(s)
    }
}

impl<'a> vstd::std_specs::convert::FromSpecImpl<&'a str> for FilterLogic {
    open spec fn obeys_from_spec() -> bool {
        true
    }

    open spec fn from_spec(v: &'a str) -> FilterLogic {
        if lower_of(v@) == "and"@ {
            FilterLogic::And
        } else {
            FilterLogic::Or
        }
    }
}

/// Where an output column comes from: an input column or a computed one.
#[derive(Clone, Copy, Debug, PartialEq, Eq, Structural)]
pub enum ColumnSource {
    Original(usize),
    Dynamic(usize),
}

/// A control character (general category Cc).
pub open spec fn is_control_char(c: char) -> bool {
    (c as u32) <= 0x1F || (0x7F <= (c as u32) && (c as u32) <= 0x9F)
}

/// A character that cannot stand in a file name.
pub open spec fn is_unsafe_name_char(c: char) -> bool {
    ||| c == '/'
    ||| c == '\\'
    ||| c == ':'
    ||| c == '*'
    ||| c == '?'
    ||| c == '"'
    ||| c == '<'
    ||| c == '>'
    ||| c == '|'
    ||| is_control_char(c)
}

/// The most characters a derived file name keeps.
pub const MAX_NAME_CHARS: usize = 50;

pub open spec fn is_name_trim(c: char) -> bool {
    c == '.' || c == ' '
}

/// `s` without leading dots and spaces.
pub open spec fn trim_front(s: Seq<char>) -> Seq<char>
    decreases s.len(),
{
    if s.len() > 0 && is_name_trim(s[0]) {
        trim_front(s.drop_first())
    } else {
        s
    }
}

/// `s` without trailing dots and spaces.
pub open spec fn trim_back(s: Seq<char>) -> Seq<char>
    decreases s.len(),
{
    if s.len() > 0 && is_name_trim(s.last()) {
        trim_back(s.drop_last())
    } else {
        s
    }
}

/// A sheet name made fit for a file name: unsafe characters become `_`,
/// the first `MAX_NAME_CHARS` characters are kept, and dots and spaces at
/// either end are dropped.
pub open spec fn sanitized(s: Seq<char>) -> Seq<char> {
    let mapped = s.map_values(|c: char| if is_unsafe_name_char(c) { '_' } else { c });
    let kept = if mapped.len() <= MAX_NAME_CHARS {
        mapped
    } else {
        mapped.take(MAX_NAME_CHARS as int)
    };
    trim_back(trim_front(kept))
}

/// Makes a sheet name fit for a file name.
pub fn sanitize_name(s: &str) -> (r: String)
    ensures
        r@ == sanitized(s@),
{
    let cs = chars_of(s);
    let n = if cs.len() <= MAX_NAME_CHARS {
        cs.len()
    } else {
        MAX_NAME_CHARS
    };
    let mut kept: Vec<char> = Vec::new();
    let mut i: usize = 0;
    while i < n
        invariant
            i <= n <= cs@.len(),
            kept@ == cs@.map_values(|c: char| if is_unsafe_name_char(c) { '_' } else { c }).take(
                i as int,
            ),
        decreases n - i,
    {
        let c = cs[i];
        let u = (c as u32) <= 0x1F || (0x7F <= (c as u32) && (c as u32) <= 0x9F) || c == '/' || c
            == '\\' || c == ':' || c == '*' || c == '?' || c == '"' || c == '<' || c == '>' || c == '|';
        kept.push(if u {
            '_'
        } else {
            c
        });
        proof {
            let mapped = cs@.map_values(|c: char| if is_unsafe_name_char(c) { '_' } else { c });
            assert(mapped.take(i + 1) == mapped.take(i as int).push(mapped[i as int]));
        }
        i = i + 1;
    }
    let ghost mapped = cs@.map_values(|c: char| if is_unsafe_name_char(c) { '_' } else { c });
    assert(kept@ == (if mapped.len() <= MAX_NAME_CHARS {
        mapped
    } else {
        mapped.take(MAX_NAME_CHARS as int)
    }));
    let mut lo: usize = 0;
    assert(kept@.subrange(0, kept@.len() as int) == kept@);
    while lo < kept.len() && (kept[lo] == '.' || kept[lo] == ' ')
        invariant
            lo <= kept@.len(),
            trim_front(kept@.subrange(lo as int, kept@.len() as int)) == trim_front(kept@),
        decreases kept.len() - lo,
    {
        proof {
            assert(kept@.subrange(lo as int, kept@.len() as int).drop_first() == kept@.subrange(
                lo + 1,
                kept@.len() as int,
            ));
        }
        lo = lo + 1;
    }
    let ghost front = kept@.subrange(lo as int, kept@.len() as int);
    assert(trim_front(front) == front);
    let mut hi: usize = kept.len();
    while hi > lo && (kept[hi - 1] == '.' || kept[hi - 1] == ' ')
        invariant
            lo <= hi <= kept@.len(),
            front == kept@.subrange(lo as int, kept@.len() as int),
            trim_back(kept@.subrange(lo as int, hi as int)) == trim_back(front),
        decreases hi - lo,
    {
        proof {
            assert(kept@.subrange(lo as int, hi as int).drop_last() == kept@.subrange(
                lo as int,
                hi - 1,
            ));
        }
        hi = hi - 1;
    }
    assert(trim_back(kept@.subrange(lo as int, hi as int)) == kept@.subrange(lo as int, hi as int));
    string_of(kept.as_slice(), lo, hi)
}

} // verus!
