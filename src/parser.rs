use crate::encoding::{bom_of, detect_encoding, detected, max_input_len, TextEncoding};
use crate::error::{Error, ErrorKind};
use crate::fields::{parse_position, parse_timecode, position_value, timecode_pair};
use crate::format::{Caption, SubRip};
use crate::lines::{after_line, lemma_line_len_bounds, line_len, line_text, read_line_at, trimmed};
use vstd::prelude::*;
use vstd::slice::slice_to_vec;
use vstd::utf8::{decode_utf8, valid_utf8};

verus! {

/// The first line of `s` that is not empty, and what follows it; `None`
/// when only empty lines are left.
pub open spec fn skip_blank(enc: TextEncoding, s: Seq<u8>) -> Option<(Seq<char>, Seq<u8>)>
    decreases s.len(),
{
    if s.len() == 0 {
        None
    } else {
        proof {
            lemma_line_len_bounds(enc, s);
        }
        if line_text(enc, s).len() == 0 {
            skip_blank(enc, after_line(enc, s))
        } else {
            Some((line_text(enc, s), after_line(enc, s)))
        }
    }
}

/// The text lines at the front of `s`, up to an empty line or the end of
/// `s`, and what follows them (the empty line is consumed).
pub open spec fn text_block(enc: TextEncoding, s: Seq<u8>) -> (Seq<Seq<char>>, Seq<u8>)
    decreases s.len(),
{
    if s.len() == 0 {
        (Seq::empty(), s)
    } else {
        proof {
            lemma_line_len_bounds(enc, s);
        }
        if line_text(enc, s).len() == 0 {
            (Seq::empty(), after_line(enc, s))
        } else {
            let rest = text_block(enc, after_line(enc, s));
            (seq![line_text(enc, s)] + rest.0, rest.1)
        }
    }
}

/// What is left after the lines of a malformed record are dropped: up to and
/// including the next empty line, or to the end of `s`.
pub open spec fn resync(enc: TextEncoding, s: Seq<u8>) -> Seq<u8>
    decreases s.len(),
{
    if s.len() == 0 {
        s
    } else {
        proof {
            lemma_line_len_bounds(enc, s);
        }
        if line_text(enc, s).len() == 0 {
            after_line(enc, s)
        } else {
            resync(enc, after_line(enc, s))
        }
    }
}

pub proof fn lemma_skip_blank_shrinks(enc: TextEncoding, s: Seq<u8>)
    ensures
        skip_blank(enc, s) matches Some(found) ==> found.1.len() < s.len(),
    decreases s.len(),
{
    if s.len() > 0 {
        lemma_line_len_bounds(enc, s);
        lemma_skip_blank_shrinks(enc, after_line(enc, s));
    }
}

pub proof fn lemma_text_block_shrinks(enc: TextEncoding, s: Seq<u8>)
    ensures
        text_block(enc, s).1.len() <= s.len(),
    decreases s.len(),
{
    if s.len() > 0 {
        lemma_line_len_bounds(enc, s);
        lemma_text_block_shrinks(enc, after_line(enc, s));
    }
}

pub proof fn lemma_resync_shrinks(enc: TextEncoding, s: Seq<u8>)
    ensures
        resync(enc, s).len() <= s.len(),
    decreases s.len(),
{
    if s.len() > 0 {
        lemma_line_len_bounds(enc, s);
        lemma_resync_shrinks(enc, after_line(enc, s));
    }
}

/// The next entry of the stream `s` and what is left after it.
///
/// Blank lines are skipped up to a position line. A position that does not
/// parse gives an `InvalidPosition` error; the record's other lines are then
/// dropped up to the next empty line. Otherwise the next line is the
/// timecode line: the stream ending there ends it cleanly, and a timecode
/// that does not parse gives an `InvalidTimecode` error, after which the
/// rest of the record is dropped (an empty timecode line is itself the
/// separator). A record with no text lines is no record: parsing goes on
/// with the next one.
pub open spec fn next_entry(enc: TextEncoding, s: Seq<u8>) -> (Option<Result<Caption, Error>>, Seq<u8>)
    decreases s.len(),
{
    match skip_blank(enc, s) {
        None => (None, Seq::empty()),
        Some((position_line, r1)) => match position_value(position_line) {
            Err(e) => (
                Some(Err(Error { kind: ErrorKind::InvalidPosition, cause: e })),
                resync(enc, r1),
            ),
            Ok(position) => if r1.len() == 0 {
                (None, r1)
            } else {
                let timecode_line = line_text(enc, r1);
                let r2 = after_line(enc, r1);
                match timecode_pair(timecode_line) {
                    Err(e) => (
                        Some(Err(Error { kind: ErrorKind::InvalidTimecode, cause: e })),
                        if timecode_line.len() == 0 {
                            r2
                        } else {
                            resync(enc, r2)
                        },
                    ),
                    Ok((start, end)) => {
                        let (text, r3) = text_block(enc, r2);
                        if text.len() == 0 {
                            proof {
                                lemma_skip_blank_shrinks(enc, s);
                                lemma_line_len_bounds(enc, r1);
                                lemma_text_block_shrinks(enc, r2);
                            }
                            next_entry(enc, r3)
                        } else {
                            (Some(Ok(Caption { position, start, end, text })), r3)
                        }
                    },
                }
            },
        },
    }
}

pub proof fn lemma_next_entry_shrinks(enc: TextEncoding, s: Seq<u8>)
    ensures
        next_entry(enc, s).1.len() <= s.len(),
        next_entry(enc, s).0 is Some ==> next_entry(enc, s).1.len() < s.len(),
        next_entry(enc, s).0 is None ==> next_entry(enc, s).1.len() == 0,
    decreases s.len(),
{
    lemma_skip_blank_shrinks(enc, s);
    if let Some((position_line, r1)) = skip_blank(enc, s) {
        lemma_resync_shrinks(enc, r1);
        if r1.len() > 0 {
            lemma_line_len_bounds(enc, r1);
            let r2 = after_line(enc, r1);
            lemma_resync_shrinks(enc, r2);
            lemma_text_block_shrinks(enc, r2);
            lemma_next_entry_shrinks(enc, text_block(enc, r2).1);
        }
    }
}

/// Every entry of the stream `s`, in order.
pub open spec fn entries(enc: TextEncoding, s: Seq<u8>) -> Seq<Result<Caption, Error>>
    decreases s.len(),
{
    match next_entry(enc, s).0 {
        None => Seq::empty(),
        Some(entry) => {
            proof {
                lemma_next_entry_shrinks(enc, s);
            }
            seq![entry] + entries(enc, next_entry(enc, s).1)
        },
    }
}

/// A stream with no bytes left holds no entries.
pub proof fn lemma_entries_of_nothing(enc: TextEncoding, s: Seq<u8>)
    requires
        s.len() == 0,
    ensures
        entries(enc, s) == Seq::<Result<Caption, Error>>::empty(),
{
    assert(skip_blank(enc, s) is None);
    assert(next_entry(enc, s).0 is None);
}

/// The byte-order mark of `enc`.
pub open spec fn mark_of(enc: TextEncoding) -> Seq<u8> {
    match enc {
        TextEncoding::Utf8 => seq![0xEFu8, 0xBBu8, 0xBFu8],
        TextEncoding::Utf16Be => seq![0xFEu8, 0xFFu8],
        TextEncoding::Utf16Le => seq![0xFFu8, 0xFEu8],
    }
}

/// Every entry that a stream of bytes holds, read in the encoding its first
/// bytes announce.
pub open spec fn records(data: Seq<u8>) -> Seq<Result<Caption, Error>> {
    entries(detected(data).0, data.skip(detected(data).1 as int))
}

pub open spec fn entry_view(r: Option<Result<SubRip, Error>>) -> Option<Result<Caption, Error>> {
    match r {
        None => None,
        Some(Ok(sub)) => Some(Ok(sub@)),
        Some(Err(e)) => Some(Err(e)),
    }
}

/// A parser over a buffer of SubRip bytes. Each call of [`next`] yields the
/// next record or error, until the buffer is used up.
///
/// [`next`]: SubRipParser::next
pub struct SubRipParser {
    data: Vec<u8>,
    pos: usize,
    encoding: Option<TextEncoding>,
}

impl SubRipParser {
    /// The parser's state is consistent: the cursor lies in the buffer, and
    /// stays at the start until the encoding has been chosen.
    pub closed spec fn wf(&self) -> bool {
        &&& self.pos <= self.data@.len()
        &&& self.data@.len() <= max_input_len()
        &&& self.encoding is None ==> self.pos == 0
    }

    /// The entries that the parser has yet to yield.
    pub closed spec fn pending(&self) -> Seq<Result<Caption, Error>> {
        match self.encoding {
            None => records(self.data@),
            Some(enc) => entries(enc, self.rest()),
        }
    }

    spec fn rest(&self) -> Seq<u8> {
        self.data@.skip(self.pos as int)
    }

    /// Makes a parser over a copy of `data`.
    pub fn from(data: &[u8]) -> (r: SubRipParser)
        requires
            data@.len() <= max_input_len(),
        ensures
            r.wf(),
            r.pending() == records(data@),
    {
        SubRipParser { data: slice_to_vec(data), pos: 0, encoding: None }
    }

    fn read_line(&mut self, enc: TextEncoding) -> (r: Option<String>)
        requires
            old(self).wf(),
            old(self).encoding == Some(enc),
        ensures
            final(self).wf(),
            final(self).encoding == Some(enc),
            final(self).data@ == old(self).data@,
            old(self).rest().len() == 0 ==> r is None && final(self).pos == old(self).pos,
            old(self).rest().len() > 0 ==> (r matches Some(line) && line@ == line_text(
                enc,
                old(self).rest(),
            )),
            old(self).rest().len() > 0 ==> final(self).rest() == after_line(enc, old(self).rest())
                && final(self).pos > old(self).pos,
    {
        if self.pos >= self.data.len() {
            return None;
        }
        let (line, end) = read_line_at(enc, self.data.as_slice(), self.pos);
        self.pos = end;
        Some(line)
    }

    fn skip_blank_lines(&mut self, enc: TextEncoding) -> (r: Option<String>)
        requires
            old(self).wf(),
            old(self).encoding == Some(enc),
        ensures
            final(self).wf(),
            final(self).encoding == Some(enc),
            final(self).data@ == old(self).data@,
            final(self).pos >= old(self).pos,
            match skip_blank(enc, old(self).rest()) {
                None => r is None && final(self).rest().len() == 0,
                Some((line, rest)) => r matches Some(l) && l@ == line && final(self).rest()
                    == rest,
            },
    {
        let ghost s0 = self.rest();
        loop
            invariant
                self.wf(),
                self.encoding == Some(enc),
                self.data@ == old(self).data@,
                self.pos >= old(self).pos,
                s0 == old(self).rest(),
                skip_blank(enc, s0) == skip_blank(enc, self.rest()),
            decreases self.data@.len() - self.pos,
        {
            match self.read_line(enc) {
                None => {
                    return None;
                },
                Some(line) => {
                    if !line.as_str().is_empty() {
                        return Some(line);
                    }
                },
            }
        }
    }

    fn read_text_block(&mut self, enc: TextEncoding) -> (r: Vec<String>)
        requires
            old(self).wf(),
            old(self).encoding == Some(enc),
        ensures
            final(self).wf(),
            final(self).encoding == Some(enc),
            final(self).data@ == old(self).data@,
            final(self).pos >= old(self).pos,
            r@.map_values(|line: String| line@) == text_block(enc, old(self).rest()).0,
            final(self).rest() == text_block(enc, old(self).rest()).1,
    {
        let ghost s0 = self.rest();
        let mut text: Vec<String> = Vec::new();
        loop
            invariant
                self.wf(),
                self.encoding == Some(enc),
                self.data@ == old(self).data@,
                self.pos >= old(self).pos,
                s0 == old(self).rest(),
                text_block(enc, s0).0 == text@.map_values(|line: String| line@) + text_block(
                    enc,
                    self.rest(),
                ).0,
                text_block(enc, s0).1 == text_block(enc, self.rest()).1,
            decreases self.data@.len() - self.pos,
        {
            let ghost s = self.rest();
            let ghost before = text@.map_values(|line: String| line@);
            match self.read_line(enc) {
                None => {
                    assert(before + text_block(enc, s).0 =~= before);
                    return text;
                },
                Some(line) => {
                    if line.as_str().is_empty() {
                        assert(before + text_block(enc, s).0 =~= before);
                        return text;
                    }
                    text.push(line);
                    assert(text@.map_values(|line: String| line@) =~= before.push(line_text(enc, s)));
                    assert(before + text_block(enc, s).0 =~= text@.map_values(|line: String| line@)
                        + text_block(enc, self.rest()).0);
                },
            }
        }
    }

    /// Advances by one record: returns it, or the error it gave, or `None`
    /// at the end of the stream.
    fn parse_next(&mut self, enc: TextEncoding) -> (r: Option<Result<SubRip, Error>>)
        requires
            old(self).wf(),
            old(self).encoding == Some(enc),
        ensures
            final(self).wf(),
            final(self).encoding == Some(enc),
            final(self).data@ == old(self).data@,
            entry_view(r) == next_entry(enc, old(self).rest()).0,
            final(self).rest() == next_entry(enc, old(self).rest()).1,
    {
        let ghost s0 = self.rest();
        loop
            invariant
                self.wf(),
                self.encoding == Some(enc),
                self.data@ == old(self).data@,
                s0 == old(self).rest(),
                next_entry(enc, s0) == next_entry(enc, self.rest()),
            decreases self.data@.len() - self.pos,
        {
            let ghost p = self.pos;
            let position_line = match self.skip_blank_lines(enc) {
                Some(line) => line,
                None => {
                    assert(self.rest() =~= Seq::<u8>::empty());
                    return None;
                },
            };
            let position = match parse_position(position_line) {
                Ok(n) => n,
                Err(e) => {
                    self.skip_record(enc);
                    return Some(Err(Error::new(ErrorKind::InvalidPosition, e)));
                },
            };
            let timecode_line = match self.read_line(enc) {
                Some(line) => line,
                None => {
                    return None;
                },
            };
            let blank = timecode_line.as_str().is_empty();
            let (start, end) = match parse_timecode(timecode_line) {
                Ok(pair) => pair,
                Err(e) => {
                    if !blank {
                        self.skip_record(enc);
                    }
                    return Some(Err(Error::new(ErrorKind::InvalidTimecode, e)));
                },
            };
            let text = self.read_text_block(enc);
            if text.len() > 0 {
                return Some(Ok(SubRip { position, start, end, text }));
            }
            assert(self.pos > p);
        }
    }

    /// Yields the next record, or the error that the next malformed record
    /// gave, or `None` once the stream is used up.
    ///
    /// The encoding is chosen on the first call that finds input.
    pub fn next(&mut self) -> (r: Option<Result<SubRip, Error>>)
        requires
            old(self).wf(),
        ensures
            final(self).wf(),
            r is None ==> old(self).pending().len() == 0 && final(self).pending().len() == 0,
            r is Some ==> old(self).pending().len() > 0 && entry_view(r) == Some(
                old(self).pending()[0],
            ) && final(self).pending() == old(self).pending().drop_first(),
    {
        if self.pos >= self.data.len() {
            proof {
                if self.encoding is None {
                    assert(bom_of(self.data@) is None);
                    lemma_entries_of_nothing(TextEncoding::Utf8, self.data@.skip(0));
                } else {
                    lemma_entries_of_nothing(self.encoding->0, self.rest());
                }
            }
            return None;
        }
        let enc = match self.encoding {
            Some(enc) => enc,
            None => {
                let (enc, skip) = detect_encoding(self.data.as_slice());
                self.encoding = Some(enc);
                self.pos = skip;
                enc
            },
        };
        let ghost s = self.rest();
        assert(self.pending() == entries(enc, s));
        let r = self.parse_next(enc);
        proof {
            lemma_next_entry_shrinks(enc, s);
            if r is None {
                lemma_entries_of_nothing(enc, self.rest());
            }
        }
        r
    }

    fn skip_record(&mut self, enc: TextEncoding)
        requires
            old(self).wf(),
            old(self).encoding == Some(enc),
        ensures
            final(self).wf(),
            final(self).encoding == Some(enc),
            final(self).data@ == old(self).data@,
            final(self).pos >= old(self).pos,
            final(self).rest() == resync(enc, old(self).rest()),
    {
        let ghost s0 = self.rest();
        loop
            invariant
                self.wf(),
                self.encoding == Some(enc),
                self.data@ == old(self).data@,
                self.pos >= old(self).pos,
                s0 == old(self).rest(),
                resync(enc, s0) == resync(enc, self.rest()),
            decreases self.data@.len() - self.pos,
        {
            match self.read_line(enc) {
                None => {
                    return ;
                },
                Some(line) => {
                    if line.as_str().is_empty() {
                        return ;
                    }
                },
            }
        }
    }
}

/// A stream without a byte-order mark is read as UTF-8 from its first byte,
/// and each line whose bytes are valid UTF-8 reads as exactly the characters
/// those bytes encode, less its line ending.
pub proof fn lemma_unmarked_stream_is_utf8(data: Seq<u8>)
    requires
        bom_of(data) is None,
    ensures
        records(data) == entries(TextEncoding::Utf8, data),
        forall|s: Seq<u8>|
            #![trigger line_text(TextEncoding::Utf8, s)]
            valid_utf8(s.take(line_len(TextEncoding::Utf8, s) as int)) ==> line_text(
                TextEncoding::Utf8,
                s,
            ) == trimmed(decode_utf8(s.take(line_len(TextEncoding::Utf8, s) as int))),
{
    assert(data.skip(0) =~= data);
}

/// A stream that starts with a byte-order mark is read in the encoding the
/// mark names, from the byte after it: the mark belongs to no line.
pub proof fn lemma_mark_is_stripped(enc: TextEncoding, body: Seq<u8>)
    ensures
        records(mark_of(enc) + body) == entries(enc, body),
{
    let data = mark_of(enc) + body;
    assert(bom_of(data) == Some((enc, mark_of(enc).len())));
    assert(data.skip(mark_of(enc).len() as int) =~= body);
}

/// An empty stream holds no records and no errors.
pub proof fn lemma_empty_stream()
    ensures
        records(Seq::empty()).len() == 0,
{
    let empty = Seq::<u8>::empty();
    assert(bom_of(empty) is None);
    lemma_entries_of_nothing(TextEncoding::Utf8, empty.skip(0));
}

/// A record whose position line does not parse gives exactly one
/// `InvalidPosition` error; parsing then resumes after the record's closing
/// empty line, with the entries of what follows it.
pub proof fn lemma_bad_position_resumes(enc: TextEncoding, s: Seq<u8>)
    requires
        skip_blank(enc, s) matches Some((line, _)) && position_value(line) is Err,
    ensures
        ({
            let (line, rest) = skip_blank(enc, s)->0;
            entries(enc, s) == seq![
                Err::<Caption, Error>(
                    Error { kind: ErrorKind::InvalidPosition, cause: position_value(line)->Err_0 },
                ),
            ] + entries(enc, resync(enc, rest))
        }),
{
}

/// A record whose timecode line does not parse gives exactly one
/// `InvalidTimecode` error; parsing then resumes after the record's closing
/// empty line (the timecode line itself, when it is empty), with the entries
/// of what follows it.
pub proof fn lemma_bad_timecode_resumes(enc: TextEncoding, s: Seq<u8>)
    requires
        skip_blank(enc, s) matches Some((line, r1)) && position_value(line) is Ok && r1.len()
            > 0 && timecode_pair(line_text(enc, r1)) is Err,
    ensures
        ({
            let (_, r1) = skip_blank(enc, s)->0;
            let line = line_text(enc, r1);
            let rest = if line.len() == 0 {
                after_line(enc, r1)
            } else {
                resync(enc, after_line(enc, r1))
            };
            entries(enc, s) == seq![
                Err::<Caption, Error>(
                    Error { kind: ErrorKind::InvalidTimecode, cause: timecode_pair(line)->Err_0 },
                ),
            ] + entries(enc, rest)
        }),
{
}

/// Parsing is a function of the bytes alone: two copies of the same bytes
/// give the same entries, one for one.
pub proof fn lemma_parsing_is_deterministic(a: Seq<u8>, b: Seq<u8>)
    requires
        a.len() == b.len(),
        forall|i: int| 0 <= i < a.len() ==> a[i] == b[i],
    ensures
        records(a).len() == records(b).len(),
        forall|i: int| 0 <= i < records(a).len() ==> records(a)[i] == records(b)[i],
{
    assert(a =~= b);
}

} // verus!
