use vstd::prelude::*;
use vstd::utf8::{decode_utf8, valid_utf8};

verus! {

/// The text encodings a subtitle stream may be written in.
#[derive(Clone, Copy, Debug, PartialEq, Eq, Structural)]
pub enum TextEncoding {
    Utf8,
    Utf16Be,
    Utf16Le,
}

/// The encoding announced by a byte-order mark at the start of `data`, with
/// the length of the mark.
pub open spec fn bom_of(data: Seq<u8>) -> Option<(TextEncoding, nat)> {
    if data.len() >= 3 && data[0] == 0xEF && data[1] == 0xBB && data[2] == 0xBF {
        Some((TextEncoding::Utf8, 3))
    } else if data.len() >= 2 && data[0] == 0xFE && data[1] == 0xFF {
        Some((TextEncoding::Utf16Be, 2))
    } else if data.len() >= 2 && data[0] == 0xFF && data[1] == 0xFE {
        Some((TextEncoding::Utf16Le, 2))
    } else {
        None
    }
}

/// The encoding a stream is read in and the number of leading bytes to
/// skip: the marked encoding, or UTF-8 with nothing skipped.
pub open spec fn detected(data: Seq<u8>) -> (TextEncoding, nat) {
    match bom_of(data) {
        Some(found) => found,
        None => (TextEncoding::Utf8, 0),
    }
}

/// Chooses the encoding of a stream from its first bytes.
pub fn detect_encoding(data: &[u8]) -> (r: (TextEncoding, usize))
    ensures
        r.0 == detected(data@).0,
        r.1 == detected(data@).1,
{
    let n = data.len();
    if n >= 3 && data[0] == 0xEF && data[1] == 0xBB && data[2] == 0xBF {
        (TextEncoding::Utf8, 3)
    } else if n >= 2 && data[0] == 0xFE && data[1] == 0xFF {
        (TextEncoding::Utf16Be, 2)
    } else if n >= 2 && data[0] == 0xFF && data[1] == 0xFE {
        (TextEncoding::Utf16Le, 2)
    } else {
        (TextEncoding::Utf8, 0)
    }
}

/// The largest input the parser accepts. Decoding a buffer may need up to
/// three bytes of text per input byte, and a `String` holds at most
/// `isize::MAX` bytes.
pub open spec fn max_input_len() -> int {
    isize::MAX / 8
}

/// The text that `bytes` decode to in `enc`, malformed sequences replaced.
pub uninterp spec fn decoded(enc: TextEncoding, bytes: Seq<u8>) -> Seq<char>;

/// The text of a line's bytes: valid UTF-8 read as UTF-8 gives exactly the
/// characters it encodes; anything else is decoded with replacement.
pub open spec fn decode_text(enc: TextEncoding, bytes: Seq<u8>) -> Seq<char> {
    if enc == TextEncoding::Utf8 && valid_utf8(bytes) {
        decode_utf8(bytes)
    } else {
        decoded(enc, bytes)
    }
}

/// Relies on `encoding_rs::Encoding::decode_without_bom_handling`: decodes a
/// whole buffer in the given encoding, replacing malformed sequences with
/// U+FFFD; a UTF-8 buffer that is already valid comes back as its own text.
/// It allocates at most a few bytes of output per input byte.
#[verifier::external_body]
pub(crate) fn decode_bytes(enc: TextEncoding, bytes: &[u8]) -> (r: String)
    requires
        bytes@.len() <= max_input_len(),
    ensures
        enc == TextEncoding::Utf8 && valid_utf8(bytes@) ==> r@ == decode_utf8(bytes@),
        !(enc == TextEncoding::Utf8 && valid_utf8(bytes@)) ==> r@ == decoded(enc, bytes@),
{
    let encoding = match enc {
        TextEncoding::Utf8 => encoding_rs::UTF_8,
        TextEncoding::Utf16Be => encoding_rs::UTF_16BE,
        TextEncoding::Utf16Le => encoding_rs::UTF_16LE,
    };
    encoding.decode_without_bom_handling(bytes).0.into_owned()
}

} // verus!
