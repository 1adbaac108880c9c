use crate::error::FieldError;
use crate::format::Timecode;
use crate::number::{parse_int, parse_int_exec};
use vstd::prelude::*;

verus! {

/// The position a line holds: a decimal `usize`.
pub open spec fn position_value(s: Seq<char>) -> Result<usize, FieldError> {
    match parse_int(s, false, 0, usize::MAX as int) {
        Ok(v) => Ok(v as usize),
        Err(e) => Err(e),
    }
}

/// Parses a position line.
pub fn parse_position(line: String) -> (r: Result<usize, FieldError>)
    ensures
        r == position_value(line@),
{
    match parse_int_exec(line.as_str(), false, 0, usize::MAX as i128) {
        Ok(v) => Ok(v as usize),
        Err(e) => Err(e),
    }
}

pub open spec fn is_separator(c: char) -> bool {
    c == ':' || c == ',' || c == ' '
}

/// The pieces of `s` between separators (`:`, `,` and space), in order.
/// Adjacent separators give empty pieces; there is always at least one.
pub open spec fn split_fields(s: Seq<char>) -> Seq<Seq<char>>
    decreases s.len(),
{
    if s.len() == 0 {
        seq![Seq::empty()]
    } else {
        let init = split_fields(s.drop_last());
        if is_separator(s.last()) {
            init.push(Seq::empty())
        } else {
            init.update(init.len() - 1, init.last().push(s.last()))
        }
    }
}

proof fn lemma_split_fields_nonempty(s: Seq<char>)
    ensures
        split_fields(s).len() >= 1,
    decreases s.len(),
{
    if s.len() > 0 {
        lemma_split_fields_nonempty(s.drop_last());
    }
}

fn split_fields_exec<'a>(s: &'a str) -> (r: Vec<&'a str>)
    ensures
        r@.map_values(|t: &str| t@) == split_fields(s@),
{
    let n = s.unicode_len();
    let mut pieces: Vec<&'a str> = Vec::new();
    let mut start: usize = 0;
    let mut i: usize = 0;
    assert(s@.take(0) =~= Seq::<char>::empty());
    assert(pieces@.map_values(|t: &str| t@).push(s@.subrange(0, 0)) =~= split_fields(s@.take(0)));
    while i < n
        invariant
            n == s@.len(),
            start <= i <= n,
            pieces@.map_values(|t: &str| t@).push(s@.subrange(start as int, i as int))
                == split_fields(s@.take(i as int)),
        decreases n - i,
    {
        let c = s.get_char(i);
        let ghost before = pieces@.map_values(|t: &str| t@);
        assert(s@.take(i + 1).drop_last() =~= s@.take(i as int));
        assert(s@.take(i + 1).last() == c);
        proof {
            lemma_split_fields_nonempty(s@.take(i as int));
        }
        if c == ':' || c == ',' || c == ' ' {
            let piece = s.substring_char(start, i);
            pieces.push(piece);
            assert(pieces@.map_values(|t: &str| t@) =~= before.push(s@.subrange(start as int, i as int)));
            start = i + 1;
            assert(s@.subrange(start as int, i + 1) =~= Seq::<char>::empty());
            assert(pieces@.map_values(|t: &str| t@).push(s@.subrange(start as int, i + 1))
                =~= split_fields(s@.take(i + 1)));
        } else {
            assert(s@.subrange(start as int, i as int).push(c) =~= s@.subrange(start as int, i + 1));
            assert(before.push(s@.subrange(start as int, i + 1)) =~= split_fields(s@.take(i + 1)));
        }
        i = i + 1;
    }
    let last = s.substring_char(start, n);
    let ghost before = pieces@.map_values(|t: &str| t@);
    pieces.push(last);
    assert(pieces@.map_values(|t: &str| t@) =~= before.push(s@.subrange(start as int, n as int)));
    assert(s@.take(n as int) =~= s@);
    pieces
}

/// Field `k` of `fields` read as an integer in `lo ..= hi`.
pub open spec fn field_value(fields: Seq<Seq<char>>, k: int, lo: int, hi: int) -> Result<int, FieldError> {
    if k < fields.len() {
        parse_int(fields[k], true, lo, hi)
    } else {
        Err(FieldError::MissingField)
    }
}

/// The timecode held by the four fields from `base` on: hours, minutes and
/// seconds as `i8`, milliseconds as `i16`. The first field that fails gives
/// the error.
pub open spec fn timecode_at(fields: Seq<Seq<char>>, base: int) -> Result<Timecode, FieldError> {
    match field_value(fields, base, i8::MIN as int, i8::MAX as int) {
        Err(e) => Err(e),
        Ok(h) => match field_value(fields, base + 1, i8::MIN as int, i8::MAX as int) {
            Err(e) => Err(e),
            Ok(m) => match field_value(fields, base + 2, i8::MIN as int, i8::MAX as int) {
                Err(e) => Err(e),
                Ok(sec) => match field_value(fields, base + 3, i16::MIN as int, i16::MAX as int) {
                    Err(e) => Err(e),
                    Ok(ms) => Ok(
                        Timecode {
                            hours: h as i8,
                            minutes: m as i8,
                            seconds: sec as i8,
                            milliseconds: ms as i16,
                        },
                    ),
                },
            },
        },
    }
}

/// The start and end a timecode line holds: fields 0 to 3 and 5 to 8 of
/// `HH:MM:SS,mmm --> HH:MM:SS,mmm`. Field 4, the arrow, is not read.
pub open spec fn timecode_pair(s: Seq<char>) -> Result<(Timecode, Timecode), FieldError> {
    let fields = split_fields(s);
    match timecode_at(fields, 0) {
        Err(e) => Err(e),
        Ok(start) => match timecode_at(fields, 5) {
            Err(e) => Err(e),
            Ok(end) => Ok((start, end)),
        },
    }
}

fn field_exec(fields: &Vec<&str>, k: usize, lo: i128, hi: i128) -> (r: Result<i128, FieldError>)
    requires
        -0x1_0000_0000_0000_0000 <= lo <= 0 <= hi <= 0x1_0000_0000_0000_0000,
    ensures
        match r {
            Ok(v) => field_value(fields@.map_values(|t: &str| t@), k as int, lo as int, hi as int)
                == Ok::<int, FieldError>(v as int),
            Err(e) => field_value(fields@.map_values(|t: &str| t@), k as int, lo as int, hi as int)
                == Err::<int, FieldError>(e),
        },
{
    if k < fields.len() {
        parse_int_exec(fields[k], true, lo, hi)
    } else {
        Err(FieldError::MissingField)
    }
}

fn timecode_exec(fields: &Vec<&str>, base: usize) -> (r: Result<Timecode, FieldError>)
    requires
        base <= 5,
    ensures
        r == timecode_at(fields@.map_values(|t: &str| t@), base as int),
{
    let hours = match field_exec(fields, base, i8::MIN as i128, i8::MAX as i128) {
        Ok(v) => v as i8,
        Err(e) => return Err(e),
    };
    let minutes = match field_exec(fields, base + 1, i8::MIN as i128, i8::MAX as i128) {
        Ok(v) => v as i8,
        Err(e) => return Err(e),
    };
    let seconds = match field_exec(fields, base + 2, i8::MIN as i128, i8::MAX as i128) {
        Ok(v) => v as i8,
        Err(e) => return Err(e),
    };
    let milliseconds = match field_exec(fields, base + 3, i16::MIN as i128, i16::MAX as i128) {
        Ok(v) => v as i16,
        Err(e) => return Err(e),
    };
    Ok(Timecode { hours, minutes, seconds, milliseconds })
}

/// Parses a timecode line `HH:MM:SS,mmm --> HH:MM:SS,mmm` into its start
/// and end.
pub fn parse_timecode(line: String) -> (r: Result<(Timecode, Timecode), FieldError>)
    ensures
        r == timecode_pair(line@),
{
    let fields = split_fields_exec(line.as_str());
    let start = match timecode_exec(&fields, 0) {
        Ok(t) => t,
        Err(e) => return Err(e),
    };
    let end = match timecode_exec(&fields, 5) {
        Ok(t) => t,
        Err(e) => return Err(e),
    };
    Ok((start, end))
}

} // verus!
