//! A read-only window on a file's bytes, decoded on demand.
use vstd::prelude::*;
use crate::encoding::{TextEncoding, decoded_text};

verus! {

/// Why a window could not be opened.
#[derive(Clone, Copy, Debug, PartialEq, Eq, Structural)]
pub enum OpenError {
    /// The file holds no bytes, and an empty file cannot be mapped.
    EmptyFile,
}

/// The bytes of a file (typically a memory map that the caller owns), its
/// path and the encoding its text is read in. The bytes are never empty.
pub struct FileReader<'a> {
    data: &'a [u8],
    path: String,
    encoding: TextEncoding,
}

/// The part of `data` between `start` and `end`, with `end` cut to the length;
/// empty when nothing is left.
pub open spec fn clamped(data: Seq<u8>, start: int, end: int) -> Seq<u8> {
    let e = if end < data.len() {
        end
    } else {
        data.len() as int
    };
    if start >= e {
        Seq::empty()
    } else {
        data.subrange(start, e)
    }
}

impl<'a> View for FileReader<'a> {
    type V = Seq<u8>;

    /// The file's bytes.
    closed spec fn view(&self) -> Seq<u8> {
        self.data@
    }
}

impl<'a> FileReader<'a> {
    /// A window is never empty.
    #[verifier::type_invariant]
    spec fn non_empty(&self) -> bool {
        self.data@.len() > 0
    }

    /// The encoding the window reads text in.
    pub closed spec fn spec_encoding(&self) -> Seq<char> {
        self.encoding@
    }

    /// The path the window was opened on.
    pub closed spec fn spec_path(&self) -> Seq<char> {
        self.path@
    }

    /// Opens a window on a file's bytes; an empty file is refused.
    pub fn new(path: String, data: &'a [u8], encoding: TextEncoding) -> (r: Result<
        FileReader<'a>,
        OpenError,
    >)
        ensures
            data@.len() == 0 <==> r is Err,
            r matches Ok(w) ==> w@ == data@ && w.spec_path() == path@ && w.spec_encoding()
                == encoding@,
    {
        if data.len() == 0 {
            return Err(OpenError::EmptyFile);
        }
        Ok(FileReader { data, path, encoding })
    }

    /// The text of the bytes in `start..end` (cut to the length), decoded in
    /// the window's encoding.
    pub fn get_chunk(&self, start: usize, end: usize) -> (r: String)
        ensures
            r@ == if start >= (if end < self@.len() { end as int } else { self@.len() as int }) {
                Seq::<char>::empty()
            } else {
                decoded_text(self.spec_encoding(), clamped(self@, start as int, end as int))
            },
    {
        let end = if end < self.data.len() {
            end
        } else {
            self.data.len()
        };
        if start >= end {
            return String::new();
        }
        self.encoding.decode(&self.data[start..end])
    }

    /// The bytes in `start..end`, with `end` cut to the length.
    pub fn get_bytes(&self, start: usize, end: usize) -> (r: &'a [u8])
        ensures
            r@ == clamped(self@, start as int, end as int),
    {
        let end = if end < self.data.len() {
            end
        } else {
            self.data.len()
        };
        if start >= end {
            return &[];
        }
        &self.data[start..end]
    }

    pub fn len(&self) -> (r: usize)
        ensures
            r == self@.len(),
            r > 0,
    {
        proof {
            use_type_invariant(self);
        }
        self.data.len()
    }

    pub fn is_empty(&self) -> (r: bool)
        ensures
            r == (self@.len() == 0),
            !r,
    {
        proof {
            use_type_invariant(self);
        }
        self.data.len() == 0
    }

    pub fn path(&self) -> (r: &String)
        ensures
            r@ == self.spec_path(),
    {
        &self.path
    }

    pub fn encoding(&self) -> (r: &TextEncoding)
        ensures
            r@ == self.spec_encoding(),
    {
        &self.encoding
    }

    pub fn all_data(&self) -> (r: &'a [u8])
        ensures
            r@ == self@,
    {
        self.data
    }
}

} // verus!
