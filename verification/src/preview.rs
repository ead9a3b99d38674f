//! Content classification for the preview pane: image by path extension,
//! text by byte statistics and UTF-8 validity, binary otherwise.

use vstd::prelude::*;
use vstd::string::{StrSliceExecFns, StringExecFns};
use vstd::utf8::{decode_utf8, valid_utf8};

verus! {

/// Whether a byte is a control character that ordinary text does not hold:
/// below space, not zero, and none of newline, carriage return, tab.
pub open spec fn is_stray_control(c: u8) -> bool {
    0 < c < 32 && c != 10 && c != 13 && c != 9
}

/// How many of the first `n` bytes are zero.
pub open spec fn null_count(b: Seq<u8>, n: int) -> int
    decreases n,
{
    if n <= 0 {
        0
    } else {
        null_count(b, n - 1) + if b[n - 1] == 0 {
            1int
        } else {
            0int
        }
    }
}

/// How many of the first `n` bytes are stray control characters.
pub open spec fn control_count(b: Seq<u8>, n: int) -> int
    decreases n,
{
    if n <= 0 {
        0
    } else {
        control_count(b, n - 1) + if is_stray_control(b[n - 1]) {
            1int
        } else {
            0int
        }
    }
}

/// The number of bytes examined: the first kilobyte, or the whole buffer when
/// it is shorter.
pub open spec fn sample_len(b: Seq<u8>) -> int {
    if b.len() <= 1024 {
        b.len() as int
    } else {
        1024
    }
}

/// A buffer looks like text when, over the examined sample, fewer than one
/// byte in a hundred is zero and fewer than one byte in ten is a stray
/// control character. An empty buffer counts as text.
pub open spec fn spec_is_text(b: Seq<u8>) -> bool {
    b.len() == 0 || (100 * null_count(b, sample_len(b)) < sample_len(b) && 10 * control_count(
        b,
        sample_len(b),
    ) < sample_len(b))
}

/// Decides whether the buffer's content appears to be text.
pub fn is_text_content(buffer: &[u8]) -> (r: bool)
    ensures
        r == spec_is_text(buffer@),
{
    if buffer.len() == 0 {
        return true;
    }
    let len = buffer.len();
    let sample: usize = if len < 1024 {
        len
    } else {
        1024
    };
    let mut nulls: usize = 0;
    let mut controls: usize = 0;
    let mut i: usize = 0;
    while i < sample
        invariant
            sample == sample_len(buffer@),
            sample <= buffer@.len(),
            i <= sample,
            nulls == null_count(buffer@, i as int),
            controls == control_count(buffer@, i as int),
            nulls <= i,
            controls <= i,
        decreases sample - i,
    {
        let b = buffer[i];
        if b == 0 {
            nulls = nulls + 1;
        } else if b < 32 && b != 10 && b != 13 && b != 9 {
            controls = controls + 1;
        }
        i = i + 1;
    }
    100 * nulls < sample && 10 * controls < sample
}

/// The image format that the image library recognizes from a path, named by
/// that format's primary file extension; `None` when the path's extension
/// names no known format.
pub uninterp spec fn image_ext_of(path: Seq<char>) -> Option<Seq<char>>;

/// Relies on image::ImageFormat::from_path, which recognizes a format from
/// the path's extension alone, and on ImageFormat::extensions_str, whose
/// first entry names that format; both depend only on the path.
#[verifier::external_body]
fn image_format_from_path(path: &str) -> (r: Option<String>)
    ensures
        r is Some <==> image_ext_of(path@) is Some,
        r matches Some(e) ==> e@ == image_ext_of(path@)->0,
{
    match image::ImageFormat::from_path(std::path::Path::new(path)) {
        Ok(f) => f.extensions_str().first().map(|s| (*s).to_string()),
        Err(_) => None,
    }
}

/// Relies on String::from_utf8: it returns Ok exactly when the bytes are a
/// valid UTF-8 encoding, and then carries the characters they encode.
#[verifier::external_body]
fn utf8_to_string(bytes: Vec<u8>) -> (r: Option<String>)
    ensures
        r is Some <==> valid_utf8(bytes@),
        r matches Some(s) ==> s@ == decode_utf8(bytes@),
{
    String::from_utf8(bytes).ok()
}

/// How a file is rendered in the preview pane: decoded text, image bytes with
/// the recognized format's extension name, or opaque binary.
pub enum Preview {
    Text(String),
    Image(Vec<u8>, String),
    Binary,
}

impl Preview {
    /// Classifies a file from its path and its contents: a path whose
    /// extension names a known image format is an image; otherwise contents
    /// that look like text and decode as UTF-8 are text; all else is binary.
    pub fn from_file(path: &str, contents: Vec<u8>) -> (p: Preview)
        ensures
            match p {
                Preview::Image(b, e) => image_ext_of(path@) is Some && e@ == image_ext_of(
                    path@,
                )->0 && b@ == contents@,
                Preview::Text(t) => image_ext_of(path@) is None && spec_is_text(contents@)
                    && valid_utf8(contents@) && t@ == decode_utf8(contents@),
                Preview::Binary => image_ext_of(path@) is None && !(spec_is_text(contents@)
                    && valid_utf8(contents@)),
            },
    {
        if let Some(ext) = image_format_from_path(path) {
            return Preview::Image(contents, ext);
        }
        if is_text_content(contents.as_slice()) {
            match utf8_to_string(contents) {
                Some(t) => Preview::Text(t),
                None => Preview::Binary,
            }
        } else {
            Preview::Binary
        }
    }

    /// A short rendering of the preview: text truncated to its first
    /// thousand characters, an image named by its extension, or a fixed
    /// marker for binary content.
    pub fn to_string(&self) -> (s: String)
        ensures
            match self {
                Preview::Text(c) => if c@.len() > 1000 {
                    s@ == c@.subrange(0, 1000) + "..."@
                } else {
                    s@ == c@
                },
                Preview::Image(_, e) => s@ == "Image file ("@ + e@ + ")"@,
                Preview::Binary => s@ == "Binary file"@,
            },
    {
        match self {
            Preview::Text(content) => {
                let n = content.as_str().unicode_len();
                if n > 1000 {
                    let head = content.as_str().substring_char(0, 1000);
                    let mut s = head.to_owned();
                    s.append("...");
                    proof {
                        assert(content@.subrange(0, 1000) == content@.take(1000));
                    }
                    s
                } else {
                    content.clone()
                }
            },
            Preview::Image(_, ext) => {
                let mut s = "Image file (".to_owned();
                s.append(ext.as_str());
                s.append(")");
                s
            },
            Preview::Binary => "Binary file".to_owned(),
        }
    }
}

} // verus!
