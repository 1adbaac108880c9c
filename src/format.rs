use crate::number::{decimal, padded, push_decimal, push_padded};
use vstd::prelude::*;

verus! {

/// A point in time within a video. Fields are stored as read; they are not
/// range-checked and may be negative.
#[derive(Clone, Copy, Debug, PartialEq, Eq, Structural)]
pub struct Timecode {
    pub hours: i8,
    pub minutes: i8,
    pub seconds: i8,
    pub milliseconds: i16,
}

/// One subtitle record.
#[derive(Debug, PartialEq)]
pub struct SubRip {
    /// The record's number, as written in the stream.
    pub position: usize,
    /// The time that the subtitle should appear.
    pub start: Timecode,
    /// The time that the subtitle should disappear.
    pub end: Timecode,
    /// The lines of text shown, in order.
    pub text: Vec<String>,
}

/// What a record holds, its text as sequences of characters.
pub struct Caption {
    pub position: usize,
    pub start: Timecode,
    pub end: Timecode,
    pub text: Seq<Seq<char>>,
}

impl View for SubRip {
    type V = Caption;

    open spec fn view(&self) -> Caption {
        Caption {
            position: self.position,
            start: self.start,
            end: self.end,
            text: self.text@.map_values(|line: String| line@),
        }
    }
}

/// A timecode as SubRip writes it: `HH:MM:SS,mmm`.
pub open spec fn timecode_text(t: Timecode) -> Seq<char> {
    padded(t.hours as int, 2) + seq![':'] + padded(t.minutes as int, 2) + seq![':'] + padded(
        t.seconds as int,
        2,
    ) + seq![','] + padded(t.milliseconds as int, 3)
}

/// The lines joined by line feeds.
pub open spec fn joined(lines: Seq<Seq<char>>) -> Seq<char>
    decreases lines.len(),
{
    if lines.len() == 0 {
        Seq::empty()
    } else if lines.len() == 1 {
        lines[0]
    } else {
        joined(lines.drop_last()) + seq!['\n'] + lines.last()
    }
}

/// A record as SubRip writes it: the position, the timecode line, then the
/// text lines, each on a line of its own.
pub open spec fn rendered(c: Caption) -> Seq<char> {
    decimal(c.position as nat) + seq!['\n'] + timecode_text(c.start) + seq![' ', '-', '-', '>', ' ']
        + timecode_text(c.end) + seq!['\n'] + joined(c.text)
}

fn push_timecode(out: &mut String, t: Timecode)
    ensures
        final(out)@ == old(out)@ + timecode_text(t),
{
    let ghost start = out@;
    proof {
        reveal_strlit(":");
        reveal_strlit(",");
    }
    push_padded(out, t.hours as i16, 2);
    out.append(":");
    push_padded(out, t.minutes as i16, 2);
    out.append(":");
    push_padded(out, t.seconds as i16, 2);
    out.append(",");
    push_padded(out, t.milliseconds, 3);
    assert(out@ =~= start + timecode_text(t));
}

impl SubRip {
    /// The record as SubRip text, without a final line feed.
    pub fn to_string(&self) -> (r: String)
        ensures
            r@ == rendered(self@),
    {
        proof {
            reveal_strlit("\n");
            reveal_strlit(" --> ");
        }
        let mut out = String::new();
        push_decimal(&mut out, self.position as u64);
        out.append("\n");
        push_timecode(&mut out, self.start);
        out.append(" --> ");
        push_timecode(&mut out, self.end);
        out.append("\n");
        let ghost head = out@;
        let ghost lines = self.text@.map_values(|line: String| line@);
        let mut i: usize = 0;
        while i < self.text.len()
            invariant
                i <= self.text@.len(),
                lines == self.text@.map_values(|line: String| line@),
                out@ == head + joined(lines.take(i as int)),
            decreases self.text@.len() - i,
        {
            proof {
                reveal_strlit("\n");
            }
            if i > 0 {
                out.append("\n");
            }
            out.append(self.text[i].as_str());
            assert(lines.take(i + 1).drop_last() =~= lines.take(i as int));
            assert(lines.take(i + 1).last() == self.text@[i as int]@);
            assert(i == 0 ==> lines.take(i + 1)[0] == self.text@[i as int]@);
            assert(out@ =~= head + joined(lines.take(i + 1)));
            i = i + 1;
        }
        assert(lines.take(i as int) =~= lines);
        assert(out@ =~= rendered(self@));
        out
    }
}

} // verus!
