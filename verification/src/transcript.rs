//! The transcript mini-language: free text annotated with `[word]`
//! and `[word]{range}` markers.

use crate::range::{range_parse_at, Range};
use crate::replace::{clone_replaces, Replace, ReplaceView};
use crate::text::{chars_of, find_char_between, find_char_in, lemma_find_char_between,
    string_from_chars};
use vstd::prelude::*;

verus! {

/// Why a transcript failed to parse.
#[derive(Debug, Clone, Copy, PartialEq, Eq, Structural)]
pub enum TranscriptError {
    /// A `[` with no matching `]`.
    MissingWord,
    /// A `{` with no matching `}`.
    MissingRange,
    /// A `{...}` whose contents are not a valid range.
    BadRange,
}

/// A parsed transcript: the original text, the directives whose range
/// is known, and the marked words whose timing is still missing.
#[derive(Debug)]
pub struct Transcript {
    pub text: String,
    pub replace: Vec<Replace>,
    /// Marked words without a timestamp.
    pub missing: Vec<String>,
}

/// The mathematical content of a transcript.
#[verifier::ext_equal]
pub ghost struct TranscriptView {
    pub text: Seq<char>,
    pub replace: Seq<ReplaceView>,
    pub missing: Seq<Seq<char>>,
}

impl View for Transcript {
    type V = TranscriptView;

    open spec fn view(&self) -> TranscriptView {
        TranscriptView {
            text: self.text@,
            replace: self.replace.deep_view(),
            missing: self.missing.deep_view(),
        }
    }
}

impl Clone for Transcript {
    fn clone(&self) -> (r: Self)
        ensures
            r.text == self.text,
            r.replace@ == self.replace@,
            r.missing@ == self.missing@,
            r@ == self@,
    {
        Transcript {
            text: self.text.clone(),
            replace: clone_replaces(&self.replace),
            missing: clone_strings(&self.missing),
        }
    }
}

/// Clone a word list element for element.
fn clone_strings(v: &Vec<String>) -> (r: Vec<String>)
    ensures
        r@ == v@,
{
    let mut r: Vec<String> = Vec::new();
    let mut i: usize = 0;
    #[verifier::loop_isolation(false)]
    while i < v.len()
        invariant
            i <= v@.len(),
            r@ == v@.take(i as int),
        decreases v@.len() - i,
    {
        r.push(v[i].clone());
        proof {
            assert(r@ =~= v@.take(i + 1));
        }
        i = i + 1;
    }
    proof {
        assert(v@.take(v@.len() as int) =~= v@);
    }
    r
}

/// What parsing one marker yields, with the scan positioned just
/// after the opening `[`: the word up to the matching `]`, then
/// either a `{range}` or nothing.  When the character after `]` is
/// not `{`, the marker is word-only and the scan resumes at that
/// character, so an immediately following marker is kept.  The last
/// component is the position at which the scan resumes.
pub open spec fn marker_parse_at(s: Seq<char>, i: int) -> Result<
    (Seq<char>, Option<Range>, int),
    TranscriptError,
> {
    let n = s.len() as int;
    match find_char_between(s, ']', i, n) {
        None => Err(TranscriptError::MissingWord),
        Some(c1) => {
            let word = s.subrange(i, c1);
            let j = c1 + 1;
            if j >= n {
                Ok((word, None, n))
            } else if s[j] != '{' {
                Ok((word, None, j))
            } else {
                match find_char_between(s, '}', j + 1, n) {
                    None => Err(TranscriptError::MissingRange),
                    Some(c2) => match range_parse_at(s, j + 1, c2) {
                        None => Err(TranscriptError::BadRange),
                        Some(r) => Ok((word, Some(r), c2 + 1)),
                    },
                }
            }
        }
    }
}

/// A parsed marker always advances the scan, and never past the end.
pub proof fn lemma_marker_parse_pos(s: Seq<char>, i: int)
    requires
        0 <= i <= s.len(),
    ensures
        marker_parse_at(s, i) matches Ok(t) ==> i <= t.2 <= s.len(),
{
    let n = s.len() as int;
    lemma_find_char_between(s, ']', i, n);
    match find_char_between(s, ']', i, n) {
        Some(c1) => {
            if c1 + 2 <= n {
                lemma_find_char_between(s, '}', c1 + 2, n);
            }
        }
        None => (),
    }
}

/// What scanning the transcript text from position `i` yields: each
/// `[` opens a marker, all other text is prose.  The markers come
/// back in text order, each as its word and its optional range.
pub open spec fn scan_markers(s: Seq<char>, i: int) -> Result<
    Seq<(Seq<char>, Option<Range>)>,
    TranscriptError,
>
    decreases s.len() - i,
    when 0 <= i <= s.len()
    via scan_markers_decreases
{
    let n = s.len() as int;
    match find_char_between(s, '[', i, n) {
        None => Ok(Seq::empty()),
        Some(b) => match marker_parse_at(s, b + 1) {
            Err(e) => Err(e),
            Ok(t) => match scan_markers(s, t.2) {
                Err(e) => Err(e),
                Ok(rest) => Ok(seq![(t.0, t.1)] + rest),
            },
        },
    }
}

#[via_fn]
proof fn scan_markers_decreases(s: Seq<char>, i: int) {
    let n = s.len() as int;
    lemma_find_char_between(s, '[', i, n);
    match find_char_between(s, '[', i, n) {
        Some(b) => lemma_marker_parse_pos(s, b + 1),
        None => (),
    }
}

/// The directives among the scanned markers, in text order: one for
/// each marker that carries a range.
pub open spec fn replace_entries(pairs: Seq<(Seq<char>, Option<Range>)>) -> Seq<ReplaceView>
    decreases pairs.len(),
{
    if pairs.len() == 0 {
        Seq::empty()
    } else {
        let rest = replace_entries(pairs.drop_last());
        match pairs.last().1 {
            Some(r) => rest.push(ReplaceView { word: pairs.last().0, range: r }),
            None => rest,
        }
    }
}

/// The words among the scanned markers that carry no range, in text
/// order.
pub open spec fn missing_entries(pairs: Seq<(Seq<char>, Option<Range>)>) -> Seq<Seq<char>>
    decreases pairs.len(),
{
    if pairs.len() == 0 {
        Seq::empty()
    } else {
        let rest = missing_entries(pairs.drop_last());
        match pairs.last().1 {
            Some(_) => rest,
            None => rest.push(pairs.last().0),
        }
    }
}

/// A copy of `v[a..b]` as a `String`.
fn string_range(v: &Vec<char>, a: usize, b: usize) -> (s: String)
    requires
        a <= b <= v@.len(),
    ensures
        s@ == v@.subrange(a as int, b as int),
{
    let mut w: Vec<char> = Vec::new();
    let mut i: usize = a;
    #[verifier::loop_isolation(false)]
    while i < b
        invariant
            a <= i <= b,
            w@ == v@.subrange(a as int, i as int),
        decreases b - i,
    {
        w.push(v[i]);
        proof {
            assert(w@ =~= v@.subrange(a as int, i + 1));
        }
        i = i + 1;
    }
    string_from_chars(&w)
}

impl Transcript {
    /// Parse a single marker, with `i` positioned just after the
    /// opening `[`.
    pub fn parse_replace(v: &Vec<char>, i: usize) -> (r: Result<
        (String, Option<Range>, usize),
        TranscriptError,
    >)
        requires
            i <= v@.len(),
        ensures
            match r {
                Ok(t) => marker_parse_at(v@, i as int) == Ok::<_, TranscriptError>(
                    (t.0@, t.1, t.2 as int),
                ) && i <= t.2 <= v@.len(),
                Err(e) => marker_parse_at(v@, i as int) == Err::<
                    (Seq<char>, Option<Range>, int),
                    _,
                >(e),
            },
    {
        let n = v.len();
        match find_char_in(v, ']', i, n) {
            None => Err(TranscriptError::MissingWord),
            Some(c1) => {
                let word = string_range(v, i, c1);
                let j = c1 + 1;
                if j >= n {
                    Ok((word, None, n))
                } else if v[j] != '{' {
                    Ok((word, None, j))
                } else {
                    match find_char_in(v, '}', j + 1, n) {
                        None => Err(TranscriptError::MissingRange),
                        Some(c2) => match Range::parse_at(v, j + 1, c2) {
                            None => Err(TranscriptError::BadRange),
                            Some(r) => Ok((word, Some(r), c2 + 1)),
                        },
                    }
                }
            }
        }
    }

    /// Parse a transcript: collect each marker's directive or, for a
    /// marker without a range, its bare word.
    pub fn parse(text: &str) -> (r: Result<Transcript, TranscriptError>)
        ensures
            match r {
                Ok(t) => {
                    &&& scan_markers(text@, 0) matches Ok(pairs)
                    &&& t.text@ == text@
                    &&& t@.replace == replace_entries(scan_markers(text@, 0)->Ok_0)
                    &&& t@.missing == missing_entries(scan_markers(text@, 0)->Ok_0)
                },
                Err(e) => scan_markers(text@, 0) == Err::<
                    Seq<(Seq<char>, Option<Range>)>,
                    _,
                >(e),
            },
    {
        let v = chars_of(text);
        let n = v.len();
        let mut replace: Vec<Replace> = Vec::new();
        let mut missing: Vec<String> = Vec::new();
        let mut pos: usize = 0;
        let ghost mut acc: Seq<(Seq<char>, Option<Range>)> = Seq::empty();
        #[verifier::loop_isolation(false)]
        loop
            invariant
                pos <= n,
                n == v@.len(),
                v@ == text@,
                scan_markers(text@, 0) == (match scan_markers(text@, pos as int) {
                    Ok(rest) => Ok::<_, TranscriptError>(acc + rest),
                    Err(e) => Err(e),
                }),
                replace.deep_view() == replace_entries(acc),
                missing.deep_view() == missing_entries(acc),
            decreases n - pos,
        {
            match find_char_in(&v, '[', pos, n) {
                None => {
                    proof {
                        assert(acc + Seq::<(Seq<char>, Option<Range>)>::empty() =~= acc);
                    }
                    break;
                }
                Some(b) => {
                    match Self::parse_replace(&v, b + 1) {
                        Err(e) => {
                            return Err(e);
                        }
                        Ok(t) => {
                            let (word, range, next) = t;
                            let ghost pair = (word@, range);
                            proof {
                                assert(scan_markers(text@, pos as int) == (
                                match scan_markers(text@, next as int) {
                                    Ok(rest) => Ok::<_, TranscriptError>(seq![pair] + rest),
                                    Err(e) => Err(e),
                                }));
                                assert(forall|rest: Seq<(Seq<char>, Option<Range>)>|
                                    (acc + (seq![pair] + rest)) =~= ((acc.push(pair)) + rest));
                                assert((acc.push(pair)).drop_last() =~= acc);
                            }
                            match range {
                                Some(r) => {
                                    replace.push(Replace { word, range: r });
                                    proof {
                                        assert(replace.deep_view() =~= replace_entries(
                                            acc.push(pair),
                                        ));
                                        assert(missing.deep_view() =~= missing_entries(
                                            acc.push(pair),
                                        ));
                                    }
                                }
                                None => {
                                    missing.push(word);
                                    proof {
                                        assert(replace.deep_view() =~= replace_entries(
                                            acc.push(pair),
                                        ));
                                        assert(missing.deep_view() =~= missing_entries(
                                            acc.push(pair),
                                        ));
                                    }
                                }
                            }
                            proof {
                                acc = acc.push(pair);
                            }
                            pos = next;
                        }
                    }
                }
            }
        }
        let text_copy = string_from_chars(&v);
        Ok(Transcript { text: text_copy, replace, missing })
    }
}

} // verus!
