use std::io::{BufRead, Cursor};
use std::time::Duration;

use srt::{Block, BlockReader, Decoder, ParseError, SourceLine, StartEnd, Step, Time};

const BLOCK: &str = "1\n00:00:22,280 --> 00:00:34,090\nNORIKO'S DINNER TABLE\n\n";

fn source(text: &str) -> Vec<SourceLine> {
    text.lines().map(|l| SourceLine::Text(l.to_string())).collect()
}

#[test]
fn parse_time() {
    let d = match Time::from_str("01:02:03,456") {
        Ok(d) => {
            assert_eq!(
                Duration::new(3723, 456_000_000),
                Duration::new(d.as_secs(), d.subsec_nanos())
            );
            d
        }
        Err(e) => panic!("{:?}", e),
    };
    let mut t = StartEnd::from(d);
    t.1 = t.1 + Time::from_str("6:5:4,321").unwrap();
    assert_eq!(t.to_string(), "01:02:03,456 --> 07:07:07,777");

    t = StartEnd::default() - d;
    assert_eq!(t.to_string(), "00:00:00,000 --> 00:00:00,000");
}

#[test]
fn parse_block() {
    match BlockReader::new(source(BLOCK)).next() {
        Some(b) => match b {
            Ok(b) => assert_eq!(
                "00:00:22,280 --> 00:00:34,090\nNORIKO\'S DINNER TABLE\n\n",
                b.to_string()
            ),
            Err(e) => panic!("{:?}", e),
        },
        None => panic!("didn't got any block"),
    }
}

#[test]
fn block_decode_then_end() {
    let mut r = BlockReader::new(source(BLOCK));
    let b = r.next().unwrap().unwrap();
    assert_eq!(b.start_end, StartEnd(Time::from((0, 0, 22, 280)), Time::from((0, 0, 34, 90))));
    assert_eq!(b.content, "NORIKO'S DINNER TABLE\n");
    assert_eq!(r.line(), 4);
    assert!(r.next().is_none());
    assert_eq!(r.line(), 4);
}

#[test]
fn time_round_trip() {
    let cases: [(u64, u64, u64, u64); 6] = [
        (0, 0, 0, 0),
        (0, 0, 0, 1),
        (1, 2, 3, 456),
        (99, 59, 59, 999),
        (100, 0, 0, 0),
        (5124095576030431, 0, 15, 999),
    ];
    for c in cases {
        let t = Time::from(c);
        let text = t.to_string();
        assert_eq!(Time::from_str(&text), Ok(t));
    }
    assert_eq!(Time::from((5124095576030431, 0, 15, 999)).to_string(), "5124095576030431:00:15,999");
    assert_eq!(Time::from((5124095576030431, 0, 15, 999)).as_secs(), u64::MAX);
}

#[test]
fn range_round_trip() {
    let r = StartEnd(Time::from((0, 0, 34, 90)), Time::from((0, 0, 22, 280)));
    assert_eq!(r.to_string(), "00:00:34,090 --> 00:00:22,280");
    assert_eq!(StartEnd::from_str(&r.to_string()), Ok(r));
}

#[test]
fn additivity() {
    let sum = Time::from((1, 2, 3, 456)) + Time::from((6, 5, 4, 321));
    assert_eq!(sum.to_string(), "07:07:07,777");
    let carry = Time::from((0, 0, 0, 600)) + Time::from((0, 59, 59, 400));
    assert_eq!(carry.to_string(), "01:00:00,000");
}

#[test]
fn saturating_subtraction() {
    let small = Time::from((0, 0, 1, 0));
    let large = Time::from((0, 0, 1, 1));
    assert_eq!((small - large).to_string(), "00:00:00,000");
    assert_eq!((small - small).to_string(), "00:00:00,000");
    assert_eq!((large - small).to_string(), "00:00:00,001");
    let borrow = Time::from((0, 1, 0, 0)) - Time::from((0, 0, 0, 1));
    assert_eq!(borrow.to_string(), "00:00:59,999");
}

#[test]
fn hour_overflow_preserved() {
    let t = Time::from_str("99:99:99,999").unwrap();
    assert_eq!(t.as_secs(), 362439);
    assert_eq!(t.subsec_millis(), 999);
    assert_eq!(t.to_string(), "100:40:39,999");
    let doubled = t + t;
    assert_eq!(doubled.to_string(), "201:21:19,998");
}

#[test]
fn fields_out_of_range_add_up() {
    assert_eq!(Time::from_str("0:0:0,1000").unwrap().to_string(), "00:00:01,000");
    assert_eq!(Time::from_str("0:0:3600,0").unwrap().to_string(), "01:00:00,000");
    assert_eq!(Time::from_str("+1:+2:+3,+4").unwrap(), Time::from((1, 2, 3, 4)));
    assert_eq!(Time::from_str("0001:02:03,4").unwrap(), Time::from((1, 2, 3, 4)));
}

#[test]
fn malformed_times() {
    let bad = [
        "",
        "1:2:3",
        "1:2,3",
        "1,2:3:4",
        "1:2:3,4,5",
        "1:2:3:4,5",
        "a:2:3,4",
        "1:2:3,",
        ":2:3,4",
        "1:2:3,4 ",
        "-1:2:3,4",
        "1:2:3,+",
        "18446744073709551616:0:0,0",
        "5124095576030432:00:00,000",
        "5124095576030431:00:16,000",
        "\u{661}:2:3,4",
    ];
    for s in bad {
        assert_eq!(Time::from_str(s), Err(ParseError::InvalidTimeString), "{:?}", s);
    }
    assert!(Time::from_str("5124095576030431:00:15,999").is_ok());
    assert!(Time::from_str("0:0:0,18446744073709551615").is_ok());
}

#[test]
fn malformed_time_lines() {
    let bad = [
        "",
        "00:00:22,280",
        "00:00:22,280 -> 00:00:34,090",
        "00:00:22,280 -->00:00:34,090",
        "00:00:22,280 --> 00:00:34,090 --> 00:00:35,000",
        "00:00:22,280 --> x",
        "x --> 00:00:34,090",
        " --> ",
    ];
    for s in bad {
        assert_eq!(StartEnd::from_str(s), Err(ParseError::InvalidTimeLine), "{:?}", s);
    }
}

#[test]
fn checked_arithmetic() {
    let top = Time::from((5124095576030431, 0, 15, 999));
    assert_eq!(top.checked_add(Time::from_millis(1)), None);
    assert_eq!(top.checked_add(Time::default()), Some(top));
    assert_eq!(Time::checked_from((5124095576030431, 0, 16, 0)), None);
    assert_eq!(Time::checked_from((0, 0, 0, 1500)), Some(Time::from_millis(1500)));
    assert_eq!(Time::from_millis(3_723_456).as_millis(), 3_723_456);
    assert_eq!(Time::from_millis(3_723_456), Time::from((1, 2, 3, 456)));
    assert!(Time::from((0, 0, 1, 0)) > Time::from((0, 0, 0, 999)));
}

#[test]
fn malformed_index() {
    let mut r = BlockReader::new(source("one\n00:00:22,280 --> 00:00:34,090\ntext\n\n"));
    match r.next() {
        Some(Err(e)) => assert_eq!(e, ParseError::InvalidIndex),
        other => panic!("{:?}", other),
    }
    assert_eq!(r.line(), 1);
}

#[test]
fn missing_time_line() {
    let mut r = BlockReader::new(source("1"));
    match r.next() {
        Some(Err(e)) => assert_eq!(e, ParseError::InvalidTimeString),
        other => panic!("{:?}", other),
    }
    assert_eq!(r.line(), 1);
}

#[test]
fn bad_time_line_in_block() {
    let mut r = BlockReader::new(source("1\n00:00:22,280 - 00:00:34,090\ntext\n\n"));
    match r.next() {
        Some(Err(e)) => assert_eq!(e, ParseError::InvalidTimeLine),
        other => panic!("{:?}", other),
    }
    assert_eq!(r.line(), 2);
}

#[test]
fn faults_in_the_source() {
    let time_line = SourceLine::Text("00:00:22,280 --> 00:00:34,090".to_string());
    let index = SourceLine::Text("7".to_string());
    let text = SourceLine::Text("text".to_string());

    let mut r = BlockReader::new(vec![SourceLine::Fault, index.clone()]);
    match r.next() {
        Some(Err(e)) => assert_eq!(e, ParseError::InvalidContent),
        other => panic!("{:?}", other),
    }
    assert_eq!(r.line(), 1);

    let mut r = BlockReader::new(vec![index.clone(), SourceLine::Fault]);
    match r.next() {
        Some(Err(e)) => assert_eq!(e, ParseError::InvalidContent),
        other => panic!("{:?}", other),
    }
    assert_eq!(r.line(), 2);

    let mut r = BlockReader::new(vec![index, time_line, text, SourceLine::Fault]);
    match r.next() {
        Some(Err(e)) => assert_eq!(e, ParseError::InvalidContent),
        other => panic!("{:?}", other),
    }
    assert_eq!(r.line(), 4);
}

#[test]
fn multi_block_line_counting() {
    let text = "1\n00:00:01,000 --> 00:00:02,000\nfirst\n\n2\n00:00:03,000 --> 00:00:04,000\nsecond\nthird";
    let mut r = BlockReader::new(source(text));
    let a = r.next().unwrap().unwrap();
    assert_eq!(a.content, "first\n");
    assert_eq!(r.line(), 4);
    let b = r.next().unwrap().unwrap();
    assert_eq!(b.content, "second\nthird\n");
    assert_eq!(b.start_end.to_string(), "00:00:03,000 --> 00:00:04,000");
    assert_eq!(r.line(), 8);
    assert!(r.next().is_none());
    assert_eq!(r.line(), 8);
    assert_eq!(r.line_nr(), 8);
}

#[test]
fn empty_sources_and_empty_content() {
    let mut r = BlockReader::new(Vec::new());
    assert!(r.next().is_none());
    assert_eq!(r.line(), 0);

    let mut r = BlockReader::new(source("\n1\n"));
    assert!(r.next().is_none());
    assert_eq!(r.line(), 1);

    let mut r = BlockReader::new(source("+12\n00:00:01,000 --> 00:00:02,000\n\nrest"));
    let b = r.next().unwrap().unwrap();
    assert_eq!(b.content, "");
    assert_eq!(b.to_string(), "00:00:01,000 --> 00:00:02,000\n\n");
    assert_eq!(r.line(), 3);
    match r.next() {
        Some(Err(e)) => assert_eq!(e, ParseError::InvalidIndex),
        other => panic!("{:?}", other),
    }
    assert_eq!(r.line(), 4);
}

#[test]
fn index_lines() {
    assert!(srt::decoder::is_idx("0"));
    assert!(srt::decoder::is_idx("+17"));
    assert!(srt::decoder::is_idx("18446744073709551615"));
    assert!(!srt::decoder::is_idx("18446744073709551616"));
    assert!(!srt::decoder::is_idx(""));
    assert!(!srt::decoder::is_idx("+"));
    assert!(!srt::decoder::is_idx("-1"));
    assert!(!srt::decoder::is_idx("1 "));
    assert!(!srt::decoder::is_idx("\r1"));
    assert!(!srt::decoder::is_idx("1a"));
}

#[test]
fn idempotent_re_offset() {
    let range = StartEnd::from_str("00:00:22,280 --> 00:00:34,090").unwrap();
    let x = Time::from((0, 0, 30, 500));
    assert_eq!((range + x) - x, range);
    let clamped = (range - x) + x;
    assert_eq!(clamped, StartEnd(x, Time::from((0, 0, 34, 90))));
    let small = Time::from((0, 0, 22, 280));
    assert_eq!((range - small) + small, range);
    assert_eq!((range + StartEnd(x, small)) - StartEnd(x, small), range);
}

#[test]
fn block_offsets() {
    let b = BlockReader::new(source(BLOCK)).next().unwrap().unwrap();
    let later = b.clone() + Time::from((0, 1, 0, 0));
    assert_eq!(later.to_string(), "00:01:22,280 --> 00:01:34,090\nNORIKO'S DINNER TABLE\n\n");
    let earlier = b.clone() - Time::from((0, 0, 30, 0));
    assert_eq!(earlier.to_string(), "00:00:00,000 --> 00:00:04,090\nNORIKO'S DINNER TABLE\n\n");
    let both = b.clone() + StartEnd(Time::from_millis(1), Time::from_millis(2));
    assert_eq!(both.start_end.to_string(), "00:00:22,281 --> 00:00:34,092");
    let back = both - StartEnd(Time::from_millis(1), Time::from_millis(2));
    assert_eq!(back.start_end, b.start_end);
    let made = Block { start_end: StartEnd::default(), content: "a\nb\n".to_string() };
    assert_eq!(made.to_string(), "00:00:00,000 --> 00:00:00,000\na\nb\n\n");
}

#[test]
fn error_descriptions() {
    assert_eq!(ParseError::InvalidIndex.description(), "Invalid index");
    assert_eq!(ParseError::InvalidTimeString.description(), "Invalid time");
    assert_eq!(ParseError::InvalidContent.description(), "Invalid content");
    assert_eq!(ParseError::InvalidTimeLine.description(), "Invalid time line");
    assert_eq!(ParseError::InvalidTimeLine.to_string(), "Invalid time line");
    assert_eq!(ParseError::InvalidIndex.to_string(), "Invalid index");
}

#[test]
fn signed_offsets() {
    assert_eq!(srt::dur(1, 2, 3, 456), 3_723_456);
    assert_eq!(srt::dur(-1, 0, 0, 1), -3_599_999);
    assert_eq!(srt::dur_from_str("00:11:22,333"), Ok(682_333));
    assert_eq!(srt::dur_from_str("n00:00:01,500"), Ok(-1_500));
    assert_eq!(srt::dur_from_str("n0:0:0,0"), Ok(0));
    assert_eq!(srt::dur_from_str("0:0:0,9223372036854775807"), Ok(i64::MAX));
    assert_eq!(srt::dur_from_str("n0:0:0,9223372036854775807"), Ok(-i64::MAX));
    for s in ["", "n", "nn0:0:0,1", "0:0:0,9223372036854775808", "-0:0:1,0", "0:0:1", "N0:0:0,1"] {
        assert_eq!(srt::dur_from_str(s), Err(ParseError::InvalidTimeString), "{:?}", s);
    }
}

#[test]
fn lines_with_carriage_returns() {
    assert!(srt::decoder::is_idx("12\r"));
    assert!(srt::decoder::is_idx("12"));
    assert!(srt::decoder::is_idx("12\r\r"));
    assert!(!srt::decoder::is_idx("\r"));
    assert!(!srt::decoder::is_idx("12\r "));
    let want = StartEnd(Time::from((0, 0, 22, 280)), Time::from((0, 0, 34, 90)));
    assert_eq!(srt::parse_time_line("00:00:22,280 --> 00:00:34,090\r"), Ok(want));
    assert_eq!(srt::parse_time_line("00:00:22,280 --> 00:00:34,090"), Ok(want));
    assert_eq!(srt::parse_time_line("00:00:22,280\r --> 00:00:34,090\r"), Ok(want));
    assert_eq!(
        srt::parse_time_line("00:00:22,280 --> 00:00:34,090\rx"),
        Err(ParseError::InvalidTimeLine)
    );
    assert_eq!(srt::parse_time_line("00:00:22,280\r"), Err(ParseError::InvalidTimeLine));
}

#[test]
fn text_helpers() {
    let chars = srt::text::chars_of("a+42:x");
    assert_eq!(chars, vec!['a', '+', '4', '2', ':', 'x']);
    assert_eq!(srt::text::parse_numeral(&chars, 1, 4), Some(42));
    assert_eq!(srt::text::parse_numeral(&chars, 2, 4), Some(42));
    assert_eq!(srt::text::parse_numeral(&chars, 0, 4), None);
    assert_eq!(srt::text::parse_numeral(&chars, 2, 2), None);
    assert_eq!(srt::text::find_char(&chars, ':', 0), 4);
    assert_eq!(srt::text::find_char(&chars, ':', 5), 6);
    assert_eq!(srt::text::find_char(&chars, ':', 9), 6);
    assert_eq!(srt::text::sub_vec(&chars, 2, 4), vec!['4', '2']);
    assert_eq!(srt::text::trim_cr("a\r\r"), "a");
    assert_eq!(srt::text::trim_cr("a\rb"), "a\rb");
    assert_eq!(srt::text::trim_cr("\r"), "");
    assert_eq!(srt::text::trim_cr("\u{e9}t\u{e9}\r"), "\u{e9}t\u{e9}");
    assert_eq!(srt::text::trim_end(&vec!['\r', 'x', '\r']), vec!['\r', 'x']);
    let mut out = String::from("<");
    srt::text::push_decimal(&mut out, 7, 3);
    srt::text::push_decimal(&mut out, 1234, 2);
    srt::text::push_decimal(&mut out, 0, 0);
    assert_eq!(out, "<00712340");
}

#[test]
fn decoder_line_by_line() {
    let mut d = Decoder::new();
    assert_eq!(d.line(), 0);
    assert!(matches!(d.feed(&SourceLine::Text("1".to_string())), Step::More));
    assert!(matches!(
        d.feed(&SourceLine::Text("00:00:22,280 --> 00:00:34,090".to_string())),
        Step::More
    ));
    assert!(matches!(d.feed(&SourceLine::Text("a".to_string())), Step::More));
    assert!(matches!(d.feed(&SourceLine::Text("b".to_string())), Step::More));
    assert_eq!(d.line(), 4);
    match d.feed(&SourceLine::Text(String::new())) {
        Step::Done(Some(Ok(b))) => {
            assert_eq!(b.content, "a\nb\n");
            assert_eq!(b.start_end.to_string(), "00:00:22,280 --> 00:00:34,090");
        }
        other => panic!("{:?}", other),
    }
    assert_eq!(d.line(), 5);
    assert!(matches!(d.finish(), None));

    assert!(matches!(d.feed(&SourceLine::Text("2".to_string())), Step::More));
    assert!(matches!(d.finish(), Some(Err(ParseError::InvalidTimeString))));
    assert_eq!(d.line(), 6);

    assert!(matches!(d.feed(&SourceLine::Text("3".to_string())), Step::More));
    assert!(matches!(
        d.feed(&SourceLine::Text("00:00:01,000 --> 00:00:02,000".to_string())),
        Step::More
    ));
    match d.finish() {
        Some(Ok(b)) => assert_eq!(b.content, ""),
        other => panic!("{:?}", other),
    }
    assert_eq!(d.line(), 8);
    assert!(matches!(
        d.feed(&SourceLine::Fault),
        Step::Done(Some(Err(ParseError::InvalidContent)))
    ));
    assert_eq!(d.line(), 9);
    assert!(matches!(d.feed(&SourceLine::Text(String::new())), Step::Done(None)));
    assert_eq!(d.line(), 10);
    assert!(matches!(
        d.feed(&SourceLine::Text("x".to_string())),
        Step::Done(Some(Err(ParseError::InvalidIndex)))
    ));
    assert!(matches!(d.feed(&SourceLine::Text("4".to_string())), Step::More));
    assert!(matches!(
        d.feed(&SourceLine::Text("soon".to_string())),
        Step::Done(Some(Err(ParseError::InvalidTimeLine)))
    ));
    assert_eq!(d.line(), 13);
    assert!(matches!(d.feed(&SourceLine::Text("5".to_string())), Step::More));
    assert!(matches!(
        d.feed(&SourceLine::Fault),
        Step::Done(Some(Err(ParseError::InvalidContent)))
    ));
    assert_eq!(d.line(), 15);
    assert!(matches!(d.finish(), None));
}

#[test]
fn decoder_passes_over_carriage_returns() {
    let lines = vec![
        SourceLine::Text("1\r".to_string()),
        SourceLine::Text("00:00:22,280 --> 00:00:34,090\r".to_string()),
        SourceLine::Text("NORIKO'S DINNER TABLE\r".to_string()),
        SourceLine::Text("a\rb\r\r".to_string()),
        SourceLine::Text("\r".to_string()),
        SourceLine::Text("2".to_string()),
        SourceLine::Text("00:00:35,000 --> 00:00:36,000".to_string()),
        SourceLine::Text("more".to_string()),
    ];
    let mut r = BlockReader::new(lines);
    let b = r.next().unwrap().unwrap();
    assert_eq!(b.to_string(), "00:00:22,280 --> 00:00:34,090\nNORIKO'S DINNER TABLE\na\rb\n\n");
    assert_eq!(r.line(), 5);
    let b = r.next().unwrap().unwrap();
    assert_eq!(b.to_string(), "00:00:35,000 --> 00:00:36,000\nmore\n\n");
    assert_eq!(r.line(), 8);
    assert!(r.next().is_none());

    let mut r = BlockReader::new(vec![SourceLine::Text("\r\r".to_string())]);
    assert!(r.next().is_none());
    assert_eq!(r.line(), 1);
}

#[test]
fn written_blocks_decode_again() {
    let first = BlockReader::new(source(BLOCK)).next().unwrap().unwrap();
    let shifted = first + Time::from((1, 0, 0, 5));
    let text = format!("1\n{}", shifted.to_string());
    let mut r = BlockReader::new(source(&text));
    let again = r.next().unwrap().unwrap();
    assert_eq!(again.start_end, shifted.start_end);
    assert_eq!(again.content, shifted.content);
    assert_eq!(again.to_string(), "01:00:22,285 --> 01:00:34,095\nNORIKO'S DINNER TABLE\n\n");
    assert!(r.next().is_none());
}

#[test]
fn signed_shifts_of_blocks() {
    let b = BlockReader::new(source(BLOCK)).next().unwrap().unwrap();
    let later = srt::add_offset_to(b.clone(), 60_000).unwrap();
    assert_eq!(later.to_string(), "00:01:22,280 --> 00:01:34,090\nNORIKO'S DINNER TABLE\n\n");
    let back = srt::add_offset_to(later, -60_000).unwrap();
    assert_eq!(back.start_end, b.start_end);
    assert_eq!(back.content, b.content);
    let clamped = srt::add_offset_to(b.clone(), -30_000).unwrap();
    assert_eq!(clamped.start_end.to_string(), "00:00:00,000 --> 00:00:04,090");
    let zero = srt::add_offset_to(b.clone(), i64::MIN).unwrap();
    assert_eq!(zero.start_end, StartEnd::default());
    let same = srt::add_offset_to(b.clone(), 0).unwrap();
    assert_eq!(same.start_end, b.start_end);

    let top = Time::from((5124095576030431, 0, 15, 999));
    let high = Block { start_end: StartEnd(Time::default(), top), content: String::new() };
    assert!(srt::add_offset_to(high.clone(), 1).is_none());
    assert!(srt::add_offset_to(high.clone(), 0).is_some());
    let low = srt::add_offset_to(high, -1).unwrap();
    assert_eq!(low.start_end.to_string(), "00:00:00,000 --> 5124095576030431:00:15,998");

    let r = StartEnd(Time::from_millis(5), top);
    assert_eq!(r.checked_add(StartEnd(Time::from_millis(1), Time::default())),
        Some(StartEnd(Time::from_millis(6), top)));
    assert_eq!(r.checked_add(StartEnd(Time::default(), Time::from_millis(1))), None);
}

#[test]
fn unreadable_index_line() {
    let bytes: &[u8] = b"\xff\n1\n00:00:01,000 --> 00:00:02,000\nA\n";
    let lines: Vec<SourceLine> = Cursor::new(bytes)
        .lines()
        .map(|l| match l {
            Ok(text) => SourceLine::Text(text),
            Err(_) => SourceLine::Fault,
        })
        .collect();
    assert_eq!(lines.len(), 4);
    let mut r = BlockReader::new(lines);
    assert!(matches!(r.next(), Some(Err(ParseError::InvalidContent))));
    assert_eq!(r.line(), 1);
    let b = r.next().unwrap().unwrap();
    assert_eq!(b.to_string(), "00:00:01,000 --> 00:00:02,000\nA\n\n");
    assert_eq!(r.line(), 4);
    assert!(r.next().is_none());
}

#[test]
fn signed_shifts_of_ranges() {
    let r = StartEnd::from_str("00:00:22,280 --> 00:00:34,090").unwrap();
    assert_eq!(srt::shift(r, 1_500).unwrap().to_string(), "00:00:23,780 --> 00:00:35,590");
    assert_eq!(srt::shift(r, -1_500).unwrap().to_string(), "00:00:20,780 --> 00:00:32,590");
    assert_eq!(srt::shift(r, -30_000).unwrap().to_string(), "00:00:00,000 --> 00:00:04,090");
    assert_eq!(srt::shift(r, -40_000).unwrap(), StartEnd::default());
    assert_eq!(srt::shift(r, i64::MIN).unwrap(), StartEnd::default());
    assert_eq!(srt::shift(r, 0), Some(r));
    assert_eq!(srt::shift(srt::shift(r, 77).unwrap(), -77), Some(r));
    let top = Time::from((5124095576030431, 0, 15, 999));
    assert_eq!(srt::shift(StartEnd(Time::default(), top), 1), None);
    assert_eq!(srt::shift(StartEnd(top, Time::default()), 1), None);
    assert_eq!(
        srt::shift(StartEnd(top, top), -1),
        Some(StartEnd(Time::from((5124095576030431, 0, 15, 998)), Time::from((5124095576030431, 0, 15, 998))))
    );
}
