//! Half-open time ranges with optionally unbounded endpoints, and
//! their resolution to sample intervals.

use crate::pos::{pos_parse_at, pos_samples_ok, pos_text, pos_total_samples, Pos};
use crate::relpath::append_range;
use crate::text::{chars_of, find_char_between, find_char_in, string_from_chars};
use vstd::prelude::*;

verus! {

/// A time range.  An absent endpoint is open: it stands for the start
/// of the file or the end of the file respectively.
#[derive(Debug, Clone, Copy, PartialEq, Eq, Structural)]
pub struct Range {
    pub start: Option<Pos>,
    pub end: Option<Pos>,
}

/// Why a range failed to resolve against a concrete file.
#[derive(Debug, Clone, Copy, PartialEq, Eq, Structural)]
pub enum ResolveError {
    /// Converting an endpoint to a sample offset left `u32`.
    Overflow { pos: Pos },
    /// Both endpoints are explicit and the start lies after the end.
    StartAfterEnd { start: usize, end: usize },
    /// A resolved endpoint lies beyond the decoded sample buffer.
    OutOfBounds { start: usize, end: usize, len: usize },
}

/// The sample offset of an explicit endpoint: the position scaled to
/// samples, times the channel count.
pub open spec fn side_samples(p: Pos, rate: u32, channels: u16) -> int {
    pos_total_samples(p, rate) * channels
}

/// Whether an explicit endpoint resolves within `u32`.
pub open spec fn side_ok(p: Pos, rate: u32, channels: u16) -> bool {
    pos_samples_ok(p, rate) && side_samples(p, rate, channels) <= u32::MAX
}

/// What resolving `r` against a buffer of `len` interleaved samples
/// yields: a half-open interval `[start, end)`, where an open start is
/// the beginning of the buffer, an open end is its end, and an
/// explicit end is clamped to the buffer.  An equal start and end is a
/// valid empty interval.  Endpoint overflow, an explicit start after
/// an explicit end, and a start beyond the buffer are the errors.
pub open spec fn resolve_spec(r: Range, rate: u32, channels: u16, len: usize) -> Result<
    (usize, usize),
    ResolveError,
> {
    if r.start matches Some(p) && !side_ok(p, rate, channels) {
        Err(ResolveError::Overflow { pos: r.start->0 })
    } else if r.end matches Some(p) && !side_ok(p, rate, channels) {
        Err(ResolveError::Overflow { pos: r.end->0 })
    } else {
        let ss = match r.start {
            None => 0,
            Some(p) => side_samples(p, rate, channels),
        };
        let e0 = match r.end {
            None => len as int,
            Some(p) => side_samples(p, rate, channels),
        };
        let es = if e0 > len { len as int } else { e0 };
        if r.start is Some && r.end is Some && ss > es {
            Err(ResolveError::StartAfterEnd { start: ss as usize, end: es as usize })
        } else if ss > len || es > len {
            Err(ResolveError::OutOfBounds { start: ss as usize, end: es as usize, len })
        } else {
            Ok((ss as usize, es as usize))
        }
    }
}

/// What parsing one side of a range yields: the marker character alone
/// means an open endpoint, anything else must be a timecode.
pub open spec fn side_parse_at(s: Seq<char>, i: int, j: int, marker: char) -> Option<Option<Pos>> {
    if j - i == 1 && s[i] == marker {
        Some(None)
    } else {
        match pos_parse_at(s, i, j) {
            Some(p) => Some(Some(p)),
            None => None,
        }
    }
}

/// What parsing the range text `s[i..j]` yields: the text is split at
/// its first `-`; the side before it is either `^` or a timecode, the
/// side after it either `$` or a timecode.
pub open spec fn range_parse_at(s: Seq<char>, i: int, j: int) -> Option<Range> {
    match find_char_between(s, '-', i, j) {
        None => None,
        Some(k) => match (side_parse_at(s, i, k, '^'), side_parse_at(s, k + 1, j, '$')) {
            (Some(a), Some(b)) => Some(Range { start: a, end: b }),
            _ => None,
        },
    }
}

/// What parsing a whole range text yields.
pub open spec fn range_parse_spec(s: Seq<char>) -> Option<Range> {
    range_parse_at(s, 0, s.len() as int)
}

/// The rendering of a range: each side's timecode, or its open
/// marker, around a dash.
pub open spec fn range_text(r: Range) -> Seq<char> {
    (match r.start {
        Some(p) => pos_text(p),
        None => seq!['^'],
    }) + seq!['-'] + (match r.end {
        Some(p) => pos_text(p),
        None => seq!['$'],
    })
}

/// Parse one side of a range held in `v[i..j]`.
fn side_parse_exec(v: &Vec<char>, i: usize, j: usize, marker: char) -> (r: Option<Option<Pos>>)
    requires
        i <= j <= v@.len(),
    ensures
        r == side_parse_at(v@, i as int, j as int, marker),
{
    if j - i == 1 && v[i] == marker {
        Some(None)
    } else {
        match Pos::parse_at(v, i, j) {
            Some(p) => Some(Some(p)),
            None => None,
        }
    }
}

impl Range {
    /// Parse the range text held in `v[i..j]`.
    pub fn parse_at(v: &Vec<char>, i: usize, j: usize) -> (r: Option<Range>)
        requires
            i <= j <= v@.len(),
        ensures
            r == range_parse_at(v@, i as int, j as int),
    {
        match find_char_in(v, '-', i, j) {
            None => None,
            Some(k) => match (side_parse_exec(v, i, k, '^'), side_parse_exec(v, k + 1, j, '$')) {
                (Some(a), Some(b)) => Some(Range { start: a, end: b }),
                _ => None,
            },
        }
    }

    /// Parse a range of the form `start-end`, each side either a
    /// timecode or its open marker (`^` for the start, `$` for the
    /// end).
    pub fn parse(s: &str) -> (r: Option<Range>)
        ensures
            r == range_parse_spec(s@),
    {
        let v = chars_of(s);
        let n = v.len();
        Range::parse_at(&v, 0, n)
    }

    /// Render this range as `start-end`, each side either a timecode
    /// or its open marker.
    pub fn to_text(&self) -> (r: String)
        ensures
            r@ == range_text(*self),
    {
        let mut out: Vec<char> = Vec::new();
        match self.start {
            Some(p) => {
                let s = p.to_text();
                let sv = chars_of(s.as_str());
                append_range(&mut out, &sv, 0, sv.len());
                proof {
                    assert(sv@.subrange(0, sv@.len() as int) =~= sv@);
                }
            }
            None => {
                out.push('^');
            }
        }
        out.push('-');
        match self.end {
            Some(p) => {
                let s = p.to_text();
                let sv = chars_of(s.as_str());
                append_range(&mut out, &sv, 0, sv.len());
                proof {
                    assert(sv@.subrange(0, sv@.len() as int) =~= sv@);
                }
            }
            None => {
                out.push('$');
            }
        }
        proof {
            assert(out@ =~= range_text(*self));
        }
        string_from_chars(&out)
    }

    /// The sample offset of the explicit endpoint `p`, when it fits.
    fn side(p: Pos, sample_rate: u32, channels: u16) -> (r: Option<u32>)
        ensures
            match r {
                Some(v) => side_ok(p, sample_rate, channels) && v == side_samples(
                    p,
                    sample_rate,
                    channels,
                ),
                None => !side_ok(p, sample_rate, channels),
            },
    {
        match p.as_samples(sample_rate) {
            Some(v) => v.checked_mul(channels as u32),
            None => None,
        }
    }

    /// Resolve this range against a buffer of `len` interleaved
    /// samples recorded at `sample_rate` with `channels` channels.
    pub fn resolve(&self, sample_rate: u32, channels: u16, len: usize) -> (r: Result<
        (usize, usize),
        ResolveError,
    >)
        ensures
            r == resolve_spec(*self, sample_rate, channels, len),
    {
        let ss: usize = match self.start {
            Some(p) => match Self::side(p, sample_rate, channels) {
                Some(v) => v as usize,
                None => {
                    return Err(ResolveError::Overflow { pos: p });
                }
            },
            None => 0,
        };
        let es: usize = match self.end {
            Some(p) => match Self::side(p, sample_rate, channels) {
                Some(v) => {
                    if (v as usize) > len {
                        len
                    } else {
                        v as usize
                    }
                }
                None => {
                    return Err(ResolveError::Overflow { pos: p });
                }
            },
            None => len,
        };
        if self.start.is_some() && self.end.is_some() && ss > es {
            return Err(ResolveError::StartAfterEnd { start: ss, end: es });
        }
        if ss > len || es > len {
            return Err(ResolveError::OutOfBounds { start: ss, end: es, len });
        }
        Ok((ss, es))
    }
}

/// The fully open range resolves against any buffer to the whole
/// buffer.
pub proof fn lemma_open_range_full(rate: u32, channels: u16, len: usize)
    ensures
        resolve_spec(Range { start: None, end: None }, rate, channels, len) == Ok::<
            _,
            ResolveError,
        >((0usize, len)),
{
}

/// A resolved interval is well-formed: the start never lies after the
/// end, and the end never lies beyond the buffer.
pub proof fn lemma_resolve_ok_bounds(r: Range, rate: u32, channels: u16, len: usize)
    ensures
        resolve_spec(r, rate, channels, len) matches Ok(iv) ==> iv.0 <= iv.1 <= len,
{
}

} // verus!
