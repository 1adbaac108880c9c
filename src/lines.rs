use crate::encoding::{decode_bytes, decode_text, max_input_len, TextEncoding};
use vstd::prelude::*;
use vstd::slice::slice_subrange;

verus! {

/// Width in bytes of one text unit of `enc`.
pub open spec fn unit_width(enc: TextEncoding) -> nat {
    if enc == TextEncoding::Utf8 {
        1
    } else {
        2
    }
}

/// Whether `s` starts with the line feed unit of `enc`.
pub open spec fn starts_with_newline(enc: TextEncoding, s: Seq<u8>) -> bool {
    match enc {
        TextEncoding::Utf8 => s.len() >= 1 && s[0] == 0x0A,
        TextEncoding::Utf16Be => s.len() >= 2 && s[0] == 0x00 && s[1] == 0x0A,
        TextEncoding::Utf16Le => s.len() >= 2 && s[0] == 0x0A && s[1] == 0x00,
    }
}

/// Length in bytes of the raw line at the front of `s`: up to and including
/// the first line feed unit, or all of `s` when it holds none. The search
/// steps over whole units, so a two-byte encoding stays aligned.
pub open spec fn line_len(enc: TextEncoding, s: Seq<u8>) -> nat
    decreases s.len(),
{
    if s.len() == 0 {
        0
    } else if starts_with_newline(enc, s) {
        unit_width(enc)
    } else if s.len() <= unit_width(enc) {
        s.len()
    } else {
        unit_width(enc) + line_len(enc, s.skip(unit_width(enc) as int))
    }
}

/// What is left of `s` after its first line.
pub open spec fn after_line(enc: TextEncoding, s: Seq<u8>) -> Seq<u8> {
    s.skip(line_len(enc, s) as int)
}

/// `s` without one trailing line feed and, behind it, one carriage return.
pub open spec fn trimmed(s: Seq<char>) -> Seq<char> {
    if s.len() > 0 && s.last() == '\n' {
        let t = s.drop_last();
        if t.len() > 0 && t.last() == '\r' {
            t.drop_last()
        } else {
            t
        }
    } else {
        s
    }
}

/// The text of the first line of `s`: decoded, then trimmed.
pub open spec fn line_text(enc: TextEncoding, s: Seq<u8>) -> Seq<char> {
    trimmed(decode_text(enc, s.take(line_len(enc, s) as int)))
}

/// A non-empty stream has a first line of at least one byte.
pub proof fn lemma_line_len_bounds(enc: TextEncoding, s: Seq<u8>)
    ensures
        line_len(enc, s) <= s.len(),
        s.len() > 0 ==> line_len(enc, s) >= 1,
    decreases s.len(),
{
    if s.len() > 0 && !starts_with_newline(enc, s) && s.len() > unit_width(enc) {
        lemma_line_len_bounds(enc, s.skip(unit_width(enc) as int));
    }
}

/// Index just past the line of `data` that starts at `pos`.
fn line_end(enc: TextEncoding, data: &[u8], pos: usize) -> (e: usize)
    requires
        pos < data@.len(),
    ensures
        e == pos + line_len(enc, data@.skip(pos as int)),
{
    let n = data.len();
    let w: usize = if enc == TextEncoding::Utf8 {
        1
    } else {
        2
    };
    let mut k: usize = pos;
    loop
        invariant
            n == data@.len(),
            w == unit_width(enc),
            pos <= k < n,
            line_len(enc, data@.skip(pos as int)) == (k - pos) + line_len(enc, data@.skip(k as int)),
        decreases n - k,
    {
        let s = Ghost(data@.skip(k as int));
        let at_newline = match enc {
            TextEncoding::Utf8 => data[k] == 0x0A,
            TextEncoding::Utf16Be => k + 1 < n && data[k] == 0x00 && data[k + 1] == 0x0A,
            TextEncoding::Utf16Le => k + 1 < n && data[k] == 0x0A && data[k + 1] == 0x00,
        };
        assert(at_newline == starts_with_newline(enc, s@));
        if at_newline {
            return k + w;
        }
        if n - k <= w {
            return n;
        }
        assert(s@.skip(w as int) =~= data@.skip((k + w) as int));
        k = k + w;
    }
}

/// Removes one trailing line feed and, if one then ends the line, one
/// carriage return. A line without a final line feed is left as it is.
pub fn trim_newline(line: &mut String)
    ensures
        final(line)@ == trimmed(old(line)@),
{
    let n = line.as_str().unicode_len();
    if n > 0 && line.as_str().get_char(n - 1) == '\n' {
        let keep = if n >= 2 && line.as_str().get_char(n - 2) == '\r' {
            n - 2
        } else {
            n - 1
        };
        let kept = line.as_str().substring_char(0, keep).to_owned();
        assert(kept@ =~= trimmed(old(line)@));
        *line = kept;
    }
}

/// Reads the line of `data` that starts at `pos`: its text and the index
/// just past it.
pub(crate) fn read_line_at(enc: TextEncoding, data: &[u8], pos: usize) -> (r: (String, usize))
    requires
        pos < data@.len(),
        data@.len() <= max_input_len(),
    ensures
        r.0@ == line_text(enc, data@.skip(pos as int)),
        r.1 == pos + line_len(enc, data@.skip(pos as int)),
        data@.skip(r.1 as int) == after_line(enc, data@.skip(pos as int)),
        pos < r.1 <= data@.len(),
{
    let ghost s = data@.skip(pos as int);
    proof {
        lemma_line_len_bounds(enc, s);
    }
    let end = line_end(enc, data, pos);
    let raw = slice_subrange(data, pos, end);
    assert(raw@ =~= s.take(line_len(enc, s) as int));
    let mut line = decode_bytes(enc, raw);
    trim_newline(&mut line);
    assert(data@.skip(end as int) =~= after_line(enc, s));
    (line, end)
}

} // verus!
