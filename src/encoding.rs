//! Character encodings: the catalogue of labels and decoding into text.
use vstd::prelude::*;
use vstd::utf8::valid_utf8;

verus! {

#[verifier::external_type_specification]
#[verifier::external_body]
pub struct ExEncoding(encoding_rs::Encoding);

/// The canonical name of the encoding that the WHATWG registry gives a label.
pub uninterp spec fn label_lookup(label: Seq<char>) -> Option<Seq<char>>;

/// The text that decoding `bytes` with the named encoding gives (a byte order
/// mark, if any, is honoured and removed; malformed input becomes
/// replacement characters).
pub uninterp spec fn decoded_text(encoding_name: Seq<char>, bytes: Seq<u8>) -> Seq<char>;

/// A character encoding of the registry, together with its canonical name.
pub struct TextEncoding {
    enc: &'static encoding_rs::Encoding,
    name: String,
}

/// Relies on `encoding_rs::Encoding::for_label` (the registry lookup, a
/// function of the label alone) and `Encoding::name`.
#[verifier::external_body]
fn lookup_label(label: &str) -> (r: Option<TextEncoding>)
    ensures
        match r {
            Some(e) => label_lookup(label@) == Some(e@),
            None => label_lookup(label@) is None,
        },
{
    match encoding_rs::Encoding::for_label(label.as_bytes()) {
        Some(enc) => Some(TextEncoding { enc, name: enc.name().to_string() }),
        None => None,
    }
}

/// Relies on `encoding_rs::Encoding::decode`, which decodes lossily and
/// depends on the encoding and the bytes alone.
#[verifier::external_body]
fn decode_with(e: &TextEncoding, bytes: &[u8]) -> (r: String)
    ensures
        r@ == decoded_text(e@, bytes@),
{
    e.enc.decode(bytes).0.into_owned()
}

/// Relies on `encoding_rs::UTF_8`, named "UTF-8".
#[verifier::external_body]
pub(crate) fn utf_8() -> (r: TextEncoding)
    ensures
        r@ == "UTF-8"@,
{
    TextEncoding { enc: encoding_rs::UTF_8, name: encoding_rs::UTF_8.name().to_string() }
}

/// Relies on `encoding_rs::UTF_16LE`, named "UTF-16LE".
#[verifier::external_body]
pub(crate) fn utf_16le() -> (r: TextEncoding)
    ensures
        r@ == "UTF-16LE"@,
{
    TextEncoding { enc: encoding_rs::UTF_16LE, name: encoding_rs::UTF_16LE.name().to_string() }
}

/// Relies on `encoding_rs::UTF_16BE`, named "UTF-16BE".
#[verifier::external_body]
pub(crate) fn utf_16be() -> (r: TextEncoding)
    ensures
        r@ == "UTF-16BE"@,
{
    TextEncoding { enc: encoding_rs::UTF_16BE, name: encoding_rs::UTF_16BE.name().to_string() }
}

/// Relies on `encoding_rs::WINDOWS_1252`, named "windows-1252".
#[verifier::external_body]
pub(crate) fn windows_1252() -> (r: TextEncoding)
    ensures
        r@ == "windows-1252"@,
{
    TextEncoding {
        enc: encoding_rs::WINDOWS_1252,
        name: encoding_rs::WINDOWS_1252.name().to_string(),
    }
}

/// Relies on `encoding_rs::GBK`, named "GBK".
#[verifier::external_body]
pub(crate) fn gbk() -> (r: TextEncoding)
    ensures
        r@ == "GBK"@,
{
    TextEncoding { enc: encoding_rs::GBK, name: encoding_rs::GBK.name().to_string() }
}

impl View for TextEncoding {
    type V = Seq<char>;

    /// The canonical name of the encoding.
    closed spec fn view(&self) -> Seq<char> {
        self.name@
    }
}

impl TextEncoding {
    /// The canonical name of the encoding.
    pub fn name(&self) -> (r: &String)
        ensures
            r@ == self@,
    {
        &self.name
    }

    /// Decodes bytes into text, lossily.
    pub fn decode(&self, bytes: &[u8]) -> (r: String)
        ensures
            r@ == decoded_text(self@, bytes@),
    {
        decode_with(self, bytes)
    }
}

/// The encoding for a label, looked up without regard to case; an unknown
/// label, or none, gives UTF-8.
pub fn encoding_for_label(label: Option<&str>) -> (r: TextEncoding)
    ensures
        r@ == match label {
            Some(l) => match label_lookup(l@) {
                Some(n) => n,
                None => "UTF-8"@,
            },
            None => "UTF-8"@,
        },
{
    match label {
        Some(l) => match lookup_label(l) {
            Some(e) => e,
            None => utf_8(),
        },
        None => utf_8(),
    }
}

/// Relies on `std::str::from_utf8`, which accepts exactly the well-formed
/// UTF-8 byte sequences.
#[verifier::external_body]
pub(crate) fn is_utf8(bytes: &[u8]) -> (r: bool)
    ensures
        r == valid_utf8(bytes@),
{
    std::str::from_utf8(bytes).is_ok()
}

/// Whether `a` and `b` hold the same text.
pub fn same_text(a: &str, b: &str) -> (r: bool)
    ensures
        r == (a@ == b@),
{
    let sa = String::from_str(a);
    let sb = String::from_str(b);
    sa == sb
}

/// The encoding that a byte order mark at the start of `b` announces.
pub open spec fn bom_encoding(b: Seq<u8>) -> Option<Seq<char>> {
    if b.len() >= 3 && b[0] == 0xEF && b[1] == 0xBB && b[2] == 0xBF {
        Some("UTF-8"@)
    } else if b.len() >= 2 && b[0] == 0xFF && b[1] == 0xFE {
        Some("UTF-16LE"@)
    } else if b.len() >= 2 && b[0] == 0xFE && b[1] == 0xFF {
        Some("UTF-16BE"@)
    } else {
        None
    }
}

/// The encoding that `detect_encoding` picks: the byte order mark, else UTF-8
/// for well-formed UTF-8, else windows-1252.
pub open spec fn sniffed_encoding(b: Seq<u8>) -> Seq<char> {
    match bom_encoding(b) {
        Some(n) => n,
        None => if valid_utf8(b) {
            "UTF-8"@
        } else {
            "windows-1252"@
        },
    }
}

/// Guesses the encoding of bytes from a byte order mark and UTF-8 validity.
pub fn detect_encoding(bytes: &[u8]) -> (r: TextEncoding)
    ensures
        r@ == sniffed_encoding(bytes@),
{
    let n = bytes.len();
    if n >= 3 && bytes[0] == 0xEF && bytes[1] == 0xBB && bytes[2] == 0xBF {
        return utf_8();
    }
    if n >= 2 {
        if bytes[0] == 0xFF && bytes[1] == 0xFE {
            return utf_16le();
        }
        if bytes[0] == 0xFE && bytes[1] == 0xFF {
            return utf_16be();
        }
    }
    if is_utf8(bytes) {
        utf_8()
    } else {
        windows_1252()
    }
}

/// The encoding for a name as a user writes it: the common names directly,
/// "GB18030" as GBK, any other through the registry.
pub fn encoding_from_name(name: &str) -> (r: Option<TextEncoding>)
    ensures
        match r {
            Some(e) => if name@ == "UTF-8"@ {
                e@ == "UTF-8"@
            } else if name@ == "GBK"@ || name@ == "GB18030"@ {
                e@ == "GBK"@
            } else if name@ == "UTF-16LE"@ {
                e@ == "UTF-16LE"@
            } else if name@ == "UTF-16BE"@ {
                e@ == "UTF-16BE"@
            } else {
                label_lookup(name@) == Some(e@)
            },
            None => name@ != "UTF-8"@ && name@ != "GBK"@ && name@ != "GB18030"@
                && name@ != "UTF-16LE"@ && name@ != "UTF-16BE"@ && label_lookup(name@) is None,
        },
{
    if same_text(name, "UTF-8") {
        Some(utf_8())
    } else if same_text(name, "GBK") || same_text(name, "GB18030") {
        Some(gbk())
    } else if same_text(name, "UTF-16LE") {
        Some(utf_16le())
    } else if same_text(name, "UTF-16BE") {
        Some(utf_16be())
    } else {
        lookup_label(name)
    }
}

/// The encodings offered to a user, each with the label it is shown under.
pub fn available_encodings() -> (r: Vec<(String, TextEncoding)>)
    ensures
        r@.len() == 5,
        r@[0].0@ == "UTF-8"@ && r@[0].1@ == "UTF-8"@,
        r@[1].0@ == "UTF-16 LE"@ && r@[1].1@ == "UTF-16LE"@,
        r@[2].0@ == "UTF-16 BE"@ && r@[2].1@ == "UTF-16BE"@,
        r@[3].0@ == "Windows-1252"@ && r@[3].1@ == "windows-1252"@,
        r@[4].0@ == "ISO-8859-1"@ && r@[4].1@ == "windows-1252"@,
{
    let mut v: Vec<(String, TextEncoding)> = Vec::new();
    v.push((String::from_str("UTF-8"), utf_8()));
    v.push((String::from_str("UTF-16 LE"), utf_16le()));
    v.push((String::from_str("UTF-16 BE"), utf_16be()));
    v.push((String::from_str("Windows-1252"), windows_1252()));
    v.push((String::from_str("ISO-8859-1"), windows_1252()));
    v
}

} // verus!
