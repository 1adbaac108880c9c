use subtitles::{detect_encoding, ErrorKind, FieldError, SubRip, SubRipParser, TextEncoding, Timecode};

fn tc(hours: i8, minutes: i8, seconds: i8, milliseconds: i16) -> Timecode {
    Timecode {
        hours,
        minutes,
        seconds,
        milliseconds,
    }
}

fn utf16(text: &str, big_endian: bool) -> Vec<u8> {
    let mut bytes = Vec::new();
    for unit in text.encode_utf16() {
        if big_endian {
            bytes.extend_from_slice(&unit.to_be_bytes());
        } else {
            bytes.extend_from_slice(&unit.to_le_bytes());
        }
    }
    bytes
}

fn all_entries(data: &[u8]) -> Vec<Result<SubRip, subtitles::Error>> {
    let mut parser = SubRipParser::from(data);
    let mut out = Vec::new();
    while let Some(entry) = parser.next() {
        out.push(entry);
    }
    out
}

#[test]
fn utf_8_with_bom() {
    let subtitle = b"\
\xEF\xBB\xBF\
1433
01:04:00,705 --> 01:04:02,145
This is a
Test";

    let expected = SubRip {
        position: 1433,
        start: Timecode {
            hours: 1,
            minutes: 4,
            seconds: 0,
            milliseconds: 705,
        },
        end: Timecode {
            hours: 1,
            minutes: 4,
            seconds: 2,
            milliseconds: 145,
        },
        text: vec![String::from("This is a"), String::from("Test")],
    };

    let actual = SubRipParser::from(&subtitle[..]).next().unwrap().unwrap();

    assert_eq!(expected, actual);
}

#[test]
fn utf_16be_with_bom() {
    let mut bom = vec![b'\xFE', b'\xFF'];
    let subtitle: Vec<u8> = "\
1433
01:04:00,705 --> 01:04:02,145
This is ą
Tęst"
        .encode_utf16()
        .map(|x| x.to_be_bytes().to_vec())
        .flatten()
        .collect();

    bom.extend(subtitle);

    let expected = SubRip {
        position: 1433,
        start: Timecode {
            hours: 1,
            minutes: 4,
            seconds: 0,
            milliseconds: 705,
        },
        end: Timecode {
            hours: 1,
            minutes: 4,
            seconds: 2,
            milliseconds: 145,
        },
        text: vec![String::from("This is ą"), String::from("Tęst")],
    };

    let actual = SubRipParser::from(&bom[..]).next().unwrap().unwrap();

    assert_eq!(expected, actual);
}

#[test]
fn utf_16le_with_bom() {
    let mut bom = vec![b'\xFF', b'\xFE'];
    let subtitle: Vec<u8> = "\
1433
01:04:00,705 --> 01:04:02,145
This is ą
Tęst"
        .encode_utf16()
        .map(|x| x.to_le_bytes().to_vec())
        .flatten()
        .collect();

    bom.extend(subtitle);

    let expected = SubRip {
        position: 1433,
        start: Timecode {
            hours: 1,
            minutes: 4,
            seconds: 0,
            milliseconds: 705,
        },
        end: Timecode {
            hours: 1,
            minutes: 4,
            seconds: 2,
            milliseconds: 145,
        },
        text: vec![String::from("This is ą"), String::from("Tęst")],
    };

    let actual = SubRipParser::from(&bom[..]).next().unwrap().unwrap();

    assert_eq!(expected, actual);
}

#[test]
fn parse_subtitle() {
    let sub = "\
1
01:02:03,456 --> 07:08:09,101
This is a Test";
    let mut parser = SubRipParser::from(sub.as_bytes());

    let expected = SubRip {
        position: 1,
        start: Timecode {
            hours: 1,
            minutes: 2,
            seconds: 3,
            milliseconds: 456,
        },
        end: Timecode {
            hours: 7,
            minutes: 8,
            seconds: 9,
            milliseconds: 101,
        },
        text: vec![String::from("This is a Test")],
    };

    assert_eq!(expected, parser.next().unwrap().unwrap());
}

#[test]
fn parse_subtitle_cr_lf() {
    let sub = "\
1\r\n\
01:02:03,456 --> 07:08:09,101\r\n\
This is a Test";
    let mut parser = SubRipParser::from(sub.as_bytes());

    let expected = SubRip {
        position: 1,
        start: Timecode {
            hours: 1,
            minutes: 2,
            seconds: 3,
            milliseconds: 456,
        },
        end: Timecode {
            hours: 7,
            minutes: 8,
            seconds: 9,
            milliseconds: 101,
        },
        text: vec![String::from("This is a Test")],
    };

    assert_eq!(expected, parser.next().unwrap().unwrap());
}

#[test]
fn parser_iteration() {
    let sub = "\
1433
01:04:00,705 --> 01:04:02,145
It's only after
we've lost everything

1434
01:04:02,170 --> 01:04:04,190
that we're free to do anything.";

    let mut parser = SubRipParser::from(sub.as_bytes());

    // First
    let expected = SubRip {
        position: 1433,
        start: Timecode {
            hours: 1,
            minutes: 4,
            seconds: 0,
            milliseconds: 705,
        },
        end: Timecode {
            hours: 1,
            minutes: 4,
            seconds: 2,
            milliseconds: 145,
        },
        text: vec![
            String::from("It's only after"),
            String::from("we've lost everything"),
        ],
    };
    assert_eq!(expected, parser.next().unwrap().unwrap());

    // Second
    let expected = SubRip {
        position: 1434,
        start: Timecode {
            hours: 1,
            minutes: 4,
            seconds: 2,
            milliseconds: 170,
        },
        end: Timecode {
            hours: 1,
            minutes: 4,
            seconds: 4,
            milliseconds: 190,
        },
        text: vec![String::from("that we're free to do anything.")],
    };

    assert_eq!(expected, parser.next().unwrap().unwrap());

    // End
    assert!(parser.next().is_none());
}

#[test]
fn invalid_subtitle() {
    let sub = "\
1
00:00:00,000

2
01:02:03,456 --> 07:08:09,101
This is a Test";

    let mut parser = SubRipParser::from(sub.as_bytes());

    assert!(parser.next().unwrap().is_err());

    let expected = SubRip {
        position: 2,
        start: Timecode {
            hours: 1,
            minutes: 2,
            seconds: 3,
            milliseconds: 456,
        },
        end: Timecode {
            hours: 7,
            minutes: 8,
            seconds: 9,
            milliseconds: 101,
        },
        text: vec![String::from("This is a Test")],
    };

    assert_eq!(expected, parser.next().unwrap().unwrap());
}

#[test]
fn empty_lines() {
    let sub = "\
1
00:00:00,000 --> 00:00:01,000
test



2
00:00:01,000 --> 00:00:02,000
test";

    let mut parser = SubRipParser::from(sub.as_bytes());

    // First
    let expected = SubRip {
        position: 1,
        start: Timecode {
            hours: 0,
            minutes: 0,
            seconds: 0,
            milliseconds: 0,
        },
        end: Timecode {
            hours: 0,
            minutes: 0,
            seconds: 1,
            milliseconds: 0,
        },
        text: vec![String::from("test")],
    };

    assert_eq!(expected, parser.next().unwrap().unwrap());

    // Second
    let expected = SubRip {
        position: 2,
        start: Timecode {
            hours: 0,
            minutes: 0,
            seconds: 1,
            milliseconds: 0,
        },
        end: Timecode {
            hours: 0,
            minutes: 0,
            seconds: 2,
            milliseconds: 0,
        },
        text: vec![String::from("test")],
    };

    assert_eq!(expected, parser.next().unwrap().unwrap());
}

#[test]
fn unmarked_input_is_read_as_utf8() {
    let line = "Zażółć gęślą jaźń — ☃ 𝄞";
    let data = format!("1\n00:00:01,000 --> 00:00:02,000\n{}\n", line);
    assert_eq!((TextEncoding::Utf8, 0), detect_encoding(data.as_bytes()));
    let sub = SubRipParser::from(data.as_bytes()).next().unwrap().unwrap();
    let manual = String::from_utf8(line.as_bytes().to_vec()).unwrap();
    assert_eq!(vec![manual], sub.text);
    assert_eq!(line.as_bytes(), sub.text[0].as_bytes());
}

#[test]
fn invalid_utf8_is_replaced_not_fatal() {
    let data = b"1\n00:00:01,000 --> 00:00:02,000\nab\xFFcd\n";
    let sub = SubRipParser::from(&data[..]).next().unwrap().unwrap();
    assert_eq!(vec![String::from("ab\u{FFFD}cd")], sub.text);
}

#[test]
fn marks_are_stripped_for_each_encoding() {
    let body = "1\n00:00:01,000 --> 00:00:02,000\nfirst line\n";
    let cases: Vec<(Vec<u8>, TextEncoding, usize)> = vec![
        (
            [&[0xEFu8, 0xBB, 0xBF][..], body.as_bytes()].concat(),
            TextEncoding::Utf8,
            3,
        ),
        (
            [vec![0xFEu8, 0xFF], utf16(body, true)].concat(),
            TextEncoding::Utf16Be,
            2,
        ),
        (
            [vec![0xFFu8, 0xFE], utf16(body, false)].concat(),
            TextEncoding::Utf16Le,
            2,
        ),
    ];
    for (data, enc, skip) in cases {
        assert_eq!((enc, skip), detect_encoding(&data));
        let entries = all_entries(&data);
        assert_eq!(1, entries.len());
        let sub = entries[0].as_ref().unwrap();
        assert_eq!(1, sub.position);
        assert_eq!(vec![String::from("first line")], sub.text);
        assert!(!sub.text[0].contains('\u{FEFF}'));
    }
}

#[test]
fn utf16_lines_stay_aligned() {
    // U+010A has 0x0A as one of its bytes in both byte orders.
    let body = "1\r\n00:00:01,000 --> 00:00:02,000\r\nĊ and ਅ\r\nsecond\r\n";
    for big_endian in [true, false] {
        let mark = if big_endian { vec![0xFE, 0xFF] } else { vec![0xFF, 0xFE] };
        let data = [mark, utf16(body, big_endian)].concat();
        let entries = all_entries(&data);
        assert_eq!(1, entries.len());
        let sub = entries[0].as_ref().unwrap();
        assert_eq!(
            vec![String::from("Ċ and ਅ"), String::from("second")],
            sub.text
        );
    }
}

#[test]
fn utf16_odd_trailing_byte_is_replaced() {
    let mut data = vec![0xFF, 0xFE];
    data.extend(utf16("1\n00:00:01,000 --> 00:00:02,000\nab", false));
    data.push(0x41);
    let sub = SubRipParser::from(&data[..]).next().unwrap().unwrap();
    assert_eq!(vec![String::from("ab\u{FFFD}")], sub.text);
}

#[test]
fn empty_stream_yields_nothing() {
    let mut parser = SubRipParser::from(&[][..]);
    assert!(parser.next().is_none());
    assert!(parser.next().is_none());
}

#[test]
fn blank_only_stream_yields_nothing() {
    assert!(all_entries(b"\n\r\n\n").is_empty());
}

#[test]
fn bad_position_gives_one_error_then_resumes() {
    let sub = "\
1b
00:00:00,000 --> 00:00:01,000
lost text
more lost text

2
00:00:01,000 --> 00:00:02,000
kept";
    let entries = all_entries(sub.as_bytes());
    assert_eq!(2, entries.len());
    let err = entries[0].as_ref().unwrap_err();
    assert_eq!(ErrorKind::InvalidPosition, err.kind());
    assert_eq!(FieldError::InvalidDigit, err.cause());
    let rec = entries[1].as_ref().unwrap();
    assert_eq!(2, rec.position);
    assert_eq!(vec![String::from("kept")], rec.text);
}

#[test]
fn incomplete_timecode_gives_one_error_then_resumes() {
    let sub = "\
1
00:00:00,000
stray text

2
01:02:03,456 --> 07:08:09,101
This is a Test";
    let entries = all_entries(sub.as_bytes());
    assert_eq!(2, entries.len());
    let err = entries[0].as_ref().unwrap_err();
    assert_eq!(ErrorKind::InvalidTimecode, err.kind());
    assert_eq!(FieldError::MissingField, err.cause());
    assert_eq!("invalid timecode: wrong timecode format", err.to_string());
    let rec = entries[1].as_ref().unwrap();
    assert_eq!(2, rec.position);
    assert_eq!(tc(1, 2, 3, 456), rec.start);
}

#[test]
fn empty_timecode_line_is_its_own_separator() {
    let sub = "\
1

2
00:00:01,000 --> 00:00:02,000
kept";
    let entries = all_entries(sub.as_bytes());
    assert_eq!(2, entries.len());
    let err = entries[0].as_ref().unwrap_err();
    assert_eq!(ErrorKind::InvalidTimecode, err.kind());
    assert_eq!(FieldError::Empty, err.cause());
    assert_eq!(2, entries[1].as_ref().unwrap().position);
}

#[test]
fn record_without_text_is_skipped() {
    let sub = "\
1
00:00:00,000 --> 00:00:01,000

2
00:00:01,000 --> 00:00:02,000
kept
";
    let entries = all_entries(sub.as_bytes());
    assert_eq!(1, entries.len());
    assert_eq!(2, entries[0].as_ref().unwrap().position);
}

#[test]
fn stream_ending_after_position_ends_cleanly() {
    assert!(all_entries(b"1\n").is_empty());
    assert!(all_entries(b"1").is_empty());
}

#[test]
fn positions_need_not_be_ordered_or_unique() {
    let sub = "\
5
00:00:00,000 --> 00:00:01,000
a

5
00:00:01,000 --> 00:00:02,000
b

3
00:00:02,000 --> 00:00:03,000
c";
    let positions: Vec<usize> = all_entries(sub.as_bytes())
        .into_iter()
        .map(|e| e.unwrap().position)
        .collect();
    assert_eq!(vec![5, 5, 3], positions);
}

#[test]
fn identical_bytes_give_identical_entries() {
    let sub = "\
1433
01:04:00,705 --> 01:04:02,145
It's only after
we've lost everything

x
junk

1434
01:04:02,170 --> 01:04:04,190
that we're free to do anything.";
    let first = sub.as_bytes().to_vec();
    let second = sub.as_bytes().to_vec();
    let a = all_entries(&first);
    let b = all_entries(&second);
    assert_eq!(3, a.len());
    assert_eq!(a, b);
}

#[test]
fn rendering_matches_input_grammar() {
    let sub = "1433\n01:04:00,705 --> 01:04:02,145\nIt's only after\nwe've lost everything";
    let rec = SubRipParser::from(sub.as_bytes()).next().unwrap().unwrap();
    assert_eq!(sub, rec.to_string());
}

#[test]
fn partial_or_misplaced_marks_are_content() {
    assert_eq!((TextEncoding::Utf8, 0), detect_encoding(&[0xEF, 0xBB]));
    assert_eq!((TextEncoding::Utf8, 0), detect_encoding(&[0xFE]));
    assert_eq!((TextEncoding::Utf8, 0), detect_encoding(&[]));
    assert_eq!((TextEncoding::Utf8, 0), detect_encoding(b"1\n\xEF\xBB\xBF"));
    // A lone 0xEF is no mark: the position line is read, and fails, as UTF-8.
    let entries = all_entries(b"\xEF1\n00:00:01,000 --> 00:00:02,000\nx\n");
    assert_eq!(1, entries.len());
    assert_eq!(ErrorKind::InvalidPosition, entries[0].as_ref().unwrap_err().kind());
}
