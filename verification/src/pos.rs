//! Textual timecode positions of the form `[[hours:]minutes:]seconds.milliseconds`.

use crate::relpath::append_range;
use crate::text::{find_char_between, find_char_in, parse_u32_range, parse_u32_spec};
use crate::text::{chars_of, dec_chars, is_digit_char, lemma_dec_chars_value,
    lemma_find_char_absent, lemma_find_char_pinpoint, pad_left, push_dec, string_from_chars};
use vstd::prelude::*;

verus! {

/// A position inside a recording, split into its timecode fields.
/// All fields are non-negative; a position carries no sample rate.
#[derive(Debug, Clone, Copy, PartialEq, Eq, Structural)]
pub struct Pos {
    pub hours: u32,
    pub minutes: u32,
    pub seconds: u32,
    pub milliseconds: u32,
}

/// The sample offset a position denotes at the given sample rate:
/// whole seconds scaled by the rate, plus the millisecond part scaled
/// by one thousandth of the rate (rounded down).
pub open spec fn pos_total_samples(p: Pos, rate: u32) -> int {
    (p.hours * 3600 + p.minutes * 60 + p.seconds) * rate + p.milliseconds * (rate / 1000)
}

/// Whether converting `p` at `rate` stays within `u32` at every step.
pub open spec fn pos_samples_ok(p: Pos, rate: u32) -> bool {
    &&& p.hours * 3600 <= u32::MAX
    &&& p.minutes * 60 <= u32::MAX
    &&& pos_total_samples(p, rate) <= u32::MAX
}

/// What parsing the seconds-and-milliseconds tail `s[i..j]` yields:
/// the text must hold exactly one `.`, the part before it is either
/// empty (meaning zero seconds) or a decimal number, and the part
/// after it is a decimal number.
pub open spec fn sec_ms_parse_at(s: Seq<char>, i: int, j: int) -> Option<(u32, u32)> {
    match find_char_between(s, '.', i, j) {
        None => None,
        Some(k) => match find_char_between(s, '.', k + 1, j) {
            Some(_) => None,
            None => {
                let sec = if k == i {
                    Some(0u32)
                } else {
                    parse_u32_spec(s.subrange(i, k))
                };
                let ms = parse_u32_spec(s.subrange(k + 1, j));
                match (sec, ms) {
                    (Some(a), Some(b)) => Some((a, b)),
                    _ => None,
                }
            }
        },
    }
}

/// What parsing the timecode held in `s[i..j]` yields.  The text is
/// split at its colons: no colon means a bare seconds tail, one colon
/// prefixes it with minutes, two colons with hours and minutes; more
/// colons, or any non-numeric component, yield nothing.
pub open spec fn pos_parse_at(s: Seq<char>, i: int, j: int) -> Option<Pos> {
    match find_char_between(s, ':', i, j) {
        None => match sec_ms_parse_at(s, i, j) {
            Some(t) => Some(
                Pos { hours: 0, minutes: 0, seconds: t.0, milliseconds: t.1 },
            ),
            None => None,
        },
        Some(k1) => match find_char_between(s, ':', k1 + 1, j) {
            None => match (parse_u32_spec(s.subrange(i, k1)), sec_ms_parse_at(s, k1 + 1, j)) {
                (Some(m), Some(t)) => Some(
                    Pos { hours: 0, minutes: m, seconds: t.0, milliseconds: t.1 },
                ),
                _ => None,
            },
            Some(k2) => match find_char_between(s, ':', k2 + 1, j) {
                Some(_) => None,
                None => match (
                    parse_u32_spec(s.subrange(i, k1)),
                    parse_u32_spec(s.subrange(k1 + 1, k2)),
                    sec_ms_parse_at(s, k2 + 1, j),
                ) {
                    (Some(h), Some(m), Some(t)) => Some(
                        Pos { hours: h, minutes: m, seconds: t.0, milliseconds: t.1 },
                    ),
                    _ => None,
                },
            },
        },
    }
}

/// What parsing a whole timecode yields.
pub open spec fn pos_parse_spec(s: Seq<char>) -> Option<Pos> {
    pos_parse_at(s, 0, s.len() as int)
}

/// Parse the seconds-and-milliseconds tail `v[i..j]`.
fn sec_ms_parse_exec(v: &Vec<char>, i: usize, j: usize) -> (r: Option<(u32, u32)>)
    requires
        i <= j <= v@.len(),
    ensures
        r == sec_ms_parse_at(v@, i as int, j as int),
{
    match find_char_in(v, '.', i, j) {
        None => None,
        Some(k) => match find_char_in(v, '.', k + 1, j) {
            Some(_) => None,
            None => {
                let sec = if k == i {
                    Some(0u32)
                } else {
                    parse_u32_range(v, i, k)
                };
                let ms = parse_u32_range(v, k + 1, j);
                match (sec, ms) {
                    (Some(a), Some(b)) => Some((a, b)),
                    _ => None,
                }
            }
        },
    }
}

impl Pos {
    /// Convert into a sample offset at the given sample rate, refusing
    /// any intermediate value that does not fit in a `u32`.
    pub fn as_samples(&self, sample_rate: u32) -> (r: Option<u32>)
        ensures
            match r {
                Some(v) => pos_samples_ok(*self, sample_rate) && v == pos_total_samples(
                    *self,
                    sample_rate,
                ),
                None => !pos_samples_ok(*self, sample_rate),
            },
    {
        proof {
            lemma_pos_term_bounds(*self, sample_rate);
        }
        let h = match self.hours.checked_mul(3600) {
            Some(x) => x,
            None => {
                return None;
            }
        };
        let hr = match h.checked_mul(sample_rate) {
            Some(x) => x,
            None => {
                return None;
            }
        };
        let m = match self.minutes.checked_mul(60) {
            Some(x) => x,
            None => {
                return None;
            }
        };
        let mr = match m.checked_mul(sample_rate) {
            Some(x) => x,
            None => {
                return None;
            }
        };
        let sr = match self.seconds.checked_mul(sample_rate) {
            Some(x) => x,
            None => {
                return None;
            }
        };
        let msr = match self.milliseconds.checked_mul(sample_rate / 1000) {
            Some(x) => x,
            None => {
                return None;
            }
        };
        let a = match hr.checked_add(mr) {
            Some(x) => x,
            None => {
                return None;
            }
        };
        let b = match a.checked_add(sr) {
            Some(x) => x,
            None => {
                return None;
            }
        };
        let c = match b.checked_add(msr) {
            Some(x) => x,
            None => {
                return None;
            }
        };
        Some(c)
    }

    /// Parse the timecode held in `v[i..j]`.
    pub fn parse_at(v: &Vec<char>, i: usize, j: usize) -> (r: Option<Pos>)
        requires
            i <= j <= v@.len(),
        ensures
            r == pos_parse_at(v@, i as int, j as int),
    {
        match find_char_in(v, ':', i, j) {
            None => match sec_ms_parse_exec(v, i, j) {
                Some(t) => Some(
                    Pos { hours: 0, minutes: 0, seconds: t.0, milliseconds: t.1 },
                ),
                None => None,
            },
            Some(k1) => match find_char_in(v, ':', k1 + 1, j) {
                None => match (parse_u32_range(v, i, k1), sec_ms_parse_exec(v, k1 + 1, j)) {
                    (Some(m), Some(t)) => Some(
                        Pos { hours: 0, minutes: m, seconds: t.0, milliseconds: t.1 },
                    ),
                    _ => None,
                },
                Some(k2) => match find_char_in(v, ':', k2 + 1, j) {
                    Some(_) => None,
                    None => match (
                        parse_u32_range(v, i, k1),
                        parse_u32_range(v, k1 + 1, k2),
                        sec_ms_parse_exec(v, k2 + 1, j),
                    ) {
                        (Some(h), Some(m), Some(t)) => Some(
                            Pos { hours: h, minutes: m, seconds: t.0, milliseconds: t.1 },
                        ),
                        _ => None,
                    },
                },
            },
        }
    }

    /// Render this position as `[[hours:]minutes:]seconds.milliseconds`.
    #[verifier::rlimit(50)]
    pub fn to_text(&self) -> (r: String)
        ensures
            r@ == pos_text(*self),
    {
        let mut out: Vec<char> = Vec::new();
        if self.hours > 0 {
            push_dec(self.hours as usize, &mut out);
            out.push(':');
            push_dec(self.minutes as usize, &mut out);
            out.push(':');
        } else if self.minutes > 0 {
            push_dec(self.minutes as usize, &mut out);
            out.push(':');
        }
        push_dec(self.seconds as usize, &mut out);
        out.push('.');
        let mut ms: Vec<char> = Vec::new();
        push_dec(self.milliseconds as usize, &mut ms);
        if ms.len() < 3 {
            out.push('0');
            if ms.len() < 2 {
                out.push('0');
            }
        }
        append_range(&mut out, &ms, 0, ms.len());
        proof {
            assert(ms@.subrange(0, ms@.len() as int) =~= ms@);
            if self.hours > 0 {
                assert(out@ =~= pos_text(*self));
            } else if self.minutes > 0 {
                assert(out@ =~= pos_text(*self));
            } else {
                assert(out@ =~= pos_text(*self));
            }
        }
        string_from_chars(&out)
    }

    /// Parse a timecode of the form `[[hours:]minutes:]seconds.milliseconds`.
    pub fn parse(s: &str) -> (r: Option<Pos>)
        ensures
            r == pos_parse_spec(s@),
    {
        let v = chars_of(s);
        let n = v.len();
        Pos::parse_at(&v, 0, n)
    }
}

/// The rendering of a position: the seconds, a dot, and the
/// milliseconds padded to three digits; the minutes and a colon are
/// prepended when minutes or hours are present, and the hours and a
/// colon when hours are present.  Parsing the rendering yields the
/// position back.
pub open spec fn pos_text(p: Pos) -> Seq<char> {
    let tail = dec_chars(p.seconds as int) + seq!['.'] + pad_left(
        dec_chars(p.milliseconds as int),
        3,
        '0',
    );
    if p.hours > 0 {
        dec_chars(p.hours as int) + seq![':'] + dec_chars(p.minutes as int) + seq![':'] + tail
    } else if p.minutes > 0 {
        dec_chars(p.minutes as int) + seq![':'] + tail
    } else {
        tail
    }
}

/// The canonical timecode text `h:m:s.ms` for the given fields.
pub open spec fn timecode_text(h: u32, m: u32, s: u32, ms: u32) -> Seq<char> {
    dec_chars(h as int) + seq![':'] + dec_chars(m as int) + seq![':'] + dec_chars(s as int)
        + seq!['.'] + dec_chars(ms as int)
}

/// For every timecode `h:m:s.ms`, parsing yields exactly the four
/// fields, and the sample offset of the parsed position at any rate
/// is `(h*3600 + m*60 + s)*rate + ms*(rate/1000)` with `/` rounding
/// down.  `as_samples` returns exactly this value whenever the
/// checked computation stays within `u32` (`pos_samples_ok`), which
/// besides the total also bounds the intermediate products `h*3600`
/// and `m*60`: at a rate of zero those can overflow although the
/// total is zero, and the conversion then reports the overflow.
pub proof fn lemma_timecode_samples(h: u32, m: u32, s: u32, ms: u32, rate: u32)
    ensures
        pos_parse_spec(timecode_text(h, m, s, ms)) == Some(
            Pos { hours: h, minutes: m, seconds: s, milliseconds: ms },
        ),
        pos_total_samples(Pos { hours: h, minutes: m, seconds: s, milliseconds: ms }, rate) == (h
            * 3600 + m * 60 + s) * rate + ms * (rate / 1000),
{
    lemma_dec_chars_value(h as int);
    lemma_dec_chars_value(m as int);
    lemma_dec_chars_value(s as int);
    lemma_dec_chars_value(ms as int);
    let ha = dec_chars(h as int);
    let ma = dec_chars(m as int);
    let sa = dec_chars(s as int);
    let msa = dec_chars(ms as int);
    let t = timecode_text(h, m, s, ms);
    let a = ha.len() as int;
    let b = ma.len() as int;
    let c = sa.len() as int;
    let d = msa.len() as int;
    let n = t.len() as int;
    let k1 = a;
    let k2 = a + 1 + b;
    let k3 = a + 1 + b + 1 + c;
    assert(n == a + 1 + b + 1 + c + 1 + d);
    assert(':' as u32 == 58);
    assert('.' as u32 == 46);
    // Which character stands at each position of the text.
    assert forall|i: int| 0 <= i < a implies t[i] == ha[i] by {}
    assert(t[k1] == ':');
    assert forall|i: int| k1 + 1 <= i < k2 implies t[i] == ma[i - (k1 + 1)] by {}
    assert(t[k2] == ':');
    assert forall|i: int| k2 + 1 <= i < k3 implies t[i] == sa[i - (k2 + 1)] by {}
    assert(t[k3] == '.');
    assert forall|i: int| k3 + 1 <= i < n implies t[i] == msa[i - (k3 + 1)] by {}
    // Digits are neither separators nor the dot.
    assert forall|i: int|
        0 <= i < n && i != k1 && i != k2 && i != k3 implies is_digit_char(#[trigger] t[i]) by {}
    // Pin the two colons and the final dot.
    lemma_find_char_pinpoint(t, ':', 0, n, k1);
    lemma_find_char_pinpoint(t, ':', k1 + 1, n, k2);
    lemma_find_char_absent(t, ':', k2 + 1, n);
    lemma_find_char_pinpoint(t, '.', k2 + 1, n, k3);
    lemma_find_char_absent(t, '.', k3 + 1, n);
    // The numeric components.
    assert(t.subrange(0, k1) =~= ha);
    assert(t.subrange(k1 + 1, k2) =~= ma);
    assert(t.subrange(k2 + 1, k3) =~= sa);
    assert(t.subrange(k3 + 1, n) =~= msa);
    assert(parse_u32_spec(ha) == Some(h));
    assert(parse_u32_spec(ma) == Some(m));
    assert(parse_u32_spec(sa) == Some(s));
    assert(parse_u32_spec(msa) == Some(ms));
    assert(k3 != k2 + 1);
    assert(sec_ms_parse_at(t, k2 + 1, n) == Some((s, ms)));
}

/// Each product in the sample conversion is bounded by the total, and
/// the total is the sum of the four scaled terms.
proof fn lemma_pos_term_bounds(p: Pos, rate: u32)
    ensures
        pos_total_samples(p, rate) == p.hours * 3600 * rate + p.minutes * 60 * rate + p.seconds
            * rate + p.milliseconds * (rate / 1000),
        p.hours * 3600 * rate >= 0,
        p.minutes * 60 * rate >= 0,
        p.seconds * rate >= 0,
        p.milliseconds * (rate / 1000) >= 0,
        p.hours * 3600 * rate <= pos_total_samples(p, rate),
        p.minutes * 60 * rate <= pos_total_samples(p, rate),
        p.seconds * rate <= pos_total_samples(p, rate),
        p.milliseconds * (rate / 1000) <= pos_total_samples(p, rate),
{
    let h = p.hours as int;
    let m = p.minutes as int;
    let s = p.seconds as int;
    let ms = p.milliseconds as int;
    let r = rate as int;
    let q = (rate / 1000) as int;
    assert((h * 3600 + m * 60 + s) * r == h * 3600 * r + m * 60 * r + s * r) by (nonlinear_arith);
    assert(h * 3600 * r >= 0 && m * 60 * r >= 0 && s * r >= 0 && ms * q >= 0) by (nonlinear_arith)
        requires
            h >= 0 && m >= 0 && s >= 0 && ms >= 0 && r >= 0 && q >= 0,
    ;
}

} // verus!
