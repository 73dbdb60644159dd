//! Tests for the timecode, range and transcript parsers.

use batchcensor::range::ResolveError;
use batchcensor::transcript::TranscriptError;
use batchcensor::{Pos, Range, Replace, Transcript};

#[test]
pub fn pos_test() {
    assert_eq!(
        Pos {
            hours: 0,
            minutes: 0,
            seconds: 0,
            milliseconds: 123,
        },
        Pos::parse(".123").expect("bad position")
    );

    assert_eq!(
        Pos {
            hours: 0,
            minutes: 0,
            seconds: 42,
            milliseconds: 123,
        },
        Pos::parse("42.123").expect("bad position")
    );

    assert_eq!(
        Pos {
            hours: 0,
            minutes: 21,
            seconds: 42,
            milliseconds: 123,
        },
        Pos::parse("21:42.123").expect("bad position")
    );

    assert_eq!(
        Pos {
            hours: 12,
            minutes: 21,
            seconds: 42,
            milliseconds: 123,
        },
        Pos::parse("12:21:42.123").expect("bad position")
    );
}

#[test]
pub fn transcript_test() {
    let transcript = Transcript::parse("foo [bar]{01.123-$} [baz]{^-$}").expect("valid transcript");

    let a = Replace {
        word: String::from("bar"),
        range: Range::parse("01.123-$").expect("valid range"),
    };

    assert_eq!(a, transcript.replace[0]);

    let b = Replace {
        word: String::from("baz"),
        range: Range::parse("^-$").expect("valid range"),
    };

    assert_eq!(b, transcript.replace[1]);
}

#[test]
fn pos_parse_rejects_bad_text() {
    assert_eq!(None, Pos::parse(""));
    assert_eq!(None, Pos::parse("abc"));
    assert_eq!(None, Pos::parse("12"));
    assert_eq!(None, Pos::parse("1.x"));
    assert_eq!(None, Pos::parse("x:1.2"));
    assert_eq!(None, Pos::parse("1:2:3:4.5"));
    assert_eq!(None, Pos::parse("1."));
    assert_eq!(None, Pos::parse("99999999999.0"));
}

#[test]
fn pos_as_samples_formula() {
    let p = Pos {
        hours: 1,
        minutes: 2,
        seconds: 3,
        milliseconds: 500,
    };
    let rate = 44100u32;
    let expect = (1 * 3600 + 2 * 60 + 3) * rate + 500 * (rate / 1000);
    assert_eq!(Some(expect), p.as_samples(rate));
}

#[test]
fn pos_as_samples_overflow_is_none() {
    let p = Pos {
        hours: 1_000_000,
        minutes: 0,
        seconds: 0,
        milliseconds: 0,
    };
    assert_eq!(None, p.as_samples(44100));
}

#[test]
fn range_parse_open_both_sides() {
    let r = Range::parse("^-$").expect("valid range");
    assert_eq!(Range { start: None, end: None }, r);
    // Resolving the fully open range yields the whole buffer.
    assert_eq!(Ok((0, 12345)), r.resolve(44100, 1, 12345));
    assert_eq!(Ok((0, 7)), r.resolve(8000, 2, 7));
}

#[test]
fn range_parse_mixed_sides() {
    let r = Range::parse("1.500-2.000").expect("valid range");
    assert_eq!(
        Some(Pos {
            hours: 0,
            minutes: 0,
            seconds: 1,
            milliseconds: 500,
        }),
        r.start
    );
    assert_eq!(
        Some(Pos {
            hours: 0,
            minutes: 0,
            seconds: 2,
            milliseconds: 0,
        }),
        r.end
    );
    assert_eq!(None, Range::parse("nodash"));
    assert_eq!(None, Range::parse("x-$"));
    assert_eq!(None, Range::parse("^-x"));
}

#[test]
fn range_resolve_clamps_end() {
    let r = Range::parse("^-10.000").expect("valid range");
    // Ten seconds at 1000 Hz mono would be sample 10000; a shorter
    // buffer clamps the end.
    assert_eq!(Ok((0, 4000)), r.resolve(1000, 1, 4000));
}

#[test]
fn range_resolve_start_after_end() {
    let r = Range::parse("2.000-1.000").expect("valid range");
    assert_eq!(
        Err(ResolveError::StartAfterEnd { start: 2000, end: 1000 }),
        r.resolve(1000, 1, 4000)
    );
}

#[test]
fn range_resolve_start_out_of_bounds() {
    let r = Range::parse("5.000-$").expect("valid range");
    assert_eq!(
        Err(ResolveError::OutOfBounds { start: 5000, end: 4000, len: 4000 }),
        r.resolve(1000, 1, 4000)
    );
}

#[test]
fn range_resolve_overflow() {
    let r = Range::parse("1000000:0:0.0-$").expect("valid range");
    match r.resolve(44100, 1, 4000) {
        Err(ResolveError::Overflow { .. }) => {}
        other => panic!("expected an overflow error, got {:?}", other),
    }
}

#[test]
fn range_resolve_empty_interval() {
    let r = Range::parse("1.000-1.000").expect("valid range");
    assert_eq!(Ok((1000, 1000)), r.resolve(1000, 1, 4000));
}

#[test]
fn transcript_bare_word_is_missing() {
    let t = Transcript::parse("[slur]").expect("valid transcript");
    assert_eq!(0, t.replace.len());
    assert_eq!(vec![String::from("slur")], t.missing);
}

#[test]
fn transcript_mixed_keeps_order() {
    let t = Transcript::parse("a [x] b [y]{^-$} c [z]").expect("valid transcript");
    assert_eq!(vec![String::from("x"), String::from("z")], t.missing);
    assert_eq!(1, t.replace.len());
    assert_eq!("y", t.replace[0].word);
    assert_eq!("a [x] b [y]{^-$} c [z]", t.text);
}

#[test]
fn transcript_adjacent_markers_all_kept() {
    // The look at the character after a word-only marker must not
    // swallow the next marker's opening bracket.
    let t = Transcript::parse("[a][b]{^-$}").expect("valid transcript");
    assert_eq!(vec![String::from("a")], t.missing);
    assert_eq!(1, t.replace.len());
    assert_eq!("b", t.replace[0].word);

    let t = Transcript::parse("[a][b]").expect("valid transcript");
    assert_eq!(vec![String::from("a"), String::from("b")], t.missing);
    assert_eq!(0, t.replace.len());
}

#[test]
fn rendering_round_trips_through_parse() {
    for text in [".123", "42.123", "21:42.123", "12:21:42.123", "5:0:3.002"] {
        let p = Pos::parse(text).expect("valid position");
        assert_eq!(Some(p.clone()), Pos::parse(&p.to_text()));
    }
    assert_eq!("7.005", Pos { hours: 0, minutes: 0, seconds: 7, milliseconds: 5 }.to_text());
    assert_eq!(
        "3:9.050",
        Pos { hours: 0, minutes: 3, seconds: 9, milliseconds: 50 }.to_text()
    );
    for text in ["^-$", "1.500-2.000", "^-0.250", "01:02.003-$"] {
        let r = Range::parse(text).expect("valid range");
        assert_eq!(Some(r.clone()), Range::parse(&r.to_text()));
    }
    assert_eq!("^-$", Range { start: None, end: None }.to_text());
}

#[test]
fn transcript_errors() {
    assert_eq!(Err(TranscriptError::MissingWord), Transcript::parse("so [bad").map(|_| ()));
    assert_eq!(Err(TranscriptError::MissingRange), Transcript::parse("[w]{0.1-$").map(|_| ()));
    assert_eq!(Err(TranscriptError::BadRange), Transcript::parse("[w]{nope}").map(|_| ()));
}
