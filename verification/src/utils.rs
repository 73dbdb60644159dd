//! Path templating: enumeration substitution and file-name prefix and
//! suffix insertion.

use crate::relpath::{append_range, copy_range, file_name_spec, with_file_name_spec, RelPath};
use crate::text::{chars_of, dec_chars, find_char_between, find_char_in, pad_left, push_dec,
    string_from_chars};
use vstd::prelude::*;

verus! {

/// The ASCII character for the base-26 digit `d`, written `A` to `Z`.
pub open spec fn letter_char(d: int) -> char {
    if d <= 12 {
        if d == 0 {
            'A'
        } else if d == 1 {
            'B'
        } else if d == 2 {
            'C'
        } else if d == 3 {
            'D'
        } else if d == 4 {
            'E'
        } else if d == 5 {
            'F'
        } else if d == 6 {
            'G'
        } else if d == 7 {
            'H'
        } else if d == 8 {
            'I'
        } else if d == 9 {
            'J'
        } else if d == 10 {
            'K'
        } else if d == 11 {
            'L'
        } else {
            'M'
        }
    } else {
        if d == 13 {
            'N'
        } else if d == 14 {
            'O'
        } else if d == 15 {
            'P'
        } else if d == 16 {
            'Q'
        } else if d == 17 {
            'R'
        } else if d == 18 {
            'S'
        } else if d == 19 {
            'T'
        } else if d == 20 {
            'U'
        } else if d == 21 {
            'V'
        } else if d == 22 {
            'W'
        } else if d == 23 {
            'X'
        } else if d == 24 {
            'Y'
        } else {
            'Z'
        }
    }
}

/// The base-26 rendering of `n` over `A` to `Z`, most significant
/// digit first, empty for zero.
pub open spec fn radix26_chars(n: int) -> Seq<char>
    decreases n,
{
    if n <= 0 {
        Seq::empty()
    } else {
        radix26_chars(n / 26).push(letter_char(n % 26))
    }
}

/// The alphabetic counter for `n`: its base-26 rendering, left-padded
/// with `A` to at least two letters.
pub open spec fn uppercase_radix_spec(n: int) -> Seq<char> {
    pad_left(radix26_chars(n), 2, 'A')
}

/// The ASCII character for the base-26 digit `d`.
fn letter_char_exec(d: usize) -> (c: char)
    requires
        d < 26,
    ensures
        c == letter_char(d as int),
{
    match d {
        0 => 'A',
        1 => 'B',
        2 => 'C',
        3 => 'D',
        4 => 'E',
        5 => 'F',
        6 => 'G',
        7 => 'H',
        8 => 'I',
        9 => 'J',
        10 => 'K',
        11 => 'L',
        12 => 'M',
        13 => 'N',
        14 => 'O',
        15 => 'P',
        16 => 'Q',
        17 => 'R',
        18 => 'S',
        19 => 'T',
        20 => 'U',
        21 => 'V',
        22 => 'W',
        23 => 'X',
        24 => 'Y',
        _ => 'Z',
    }
}

/// Append the base-26 rendering of `n` to `out`.
fn push_radix26(n: usize, out: &mut Vec<char>)
    ensures
        final(out)@ == old(out)@ + radix26_chars(n as int),
    decreases n,
{
    if n > 0 {
        push_radix26(n / 26, out);
        let c = letter_char_exec(n % 26);
        out.push(c);
        proof {
            assert(out@ =~= old(out)@ + radix26_chars(n as int));
        }
    } else {
        proof {
            assert(out@ =~= old(out)@ + radix26_chars(0));
        }
    }
}

/// Convert a number into an uppercase alphabetic counter.
pub fn as_uppercase_radix(index: usize) -> (r: String)
    ensures
        r@ == uppercase_radix_spec(index as int),
{
    let mut buf: Vec<char> = Vec::new();
    push_radix26(index, &mut buf);
    let mut padded: Vec<char> = Vec::new();
    if buf.len() < 2 {
        padded.push('A');
        if buf.len() == 0 {
            padded.push('A');
        }
    }
    append_range(&mut padded, &buf, 0, buf.len());
    proof {
        assert(buf@.subrange(0, buf@.len() as int) =~= buf@);
        assert(padded@ =~= uppercase_radix_spec(index as int));
    }
    string_from_chars(&padded)
}

/// Index just past the run of `$` characters beginning at `k`.
pub open spec fn run_end(p: Seq<char>, k: int) -> int
    decreases p.len() - k,
{
    if k < 0 || k >= p.len() {
        k
    } else if p[k] == '$' {
        run_end(p, k + 1)
    } else {
        k
    }
}

/// What enumeration substitution yields for entry number `index`: the
/// first `$@` is replaced by the alphabetic counter for `index`; a
/// first run of `$` characters of width `w` is replaced instead by
/// the one-based decimal index zero-padded to width `w`; a path
/// without `$` is unchanged.
pub open spec fn enumeration_spec(p: Seq<char>, index: int) -> Seq<char> {
    let n = p.len() as int;
    match find_char_between(p, '$', 0, n) {
        None => p,
        Some(k) => if k + 1 < n && p[k + 1] == '@' {
            p.subrange(0, k) + uppercase_radix_spec(index) + p.subrange(k + 2, n)
        } else {
            let w = run_end(p, k);
            p.subrange(0, k) + pad_left(dec_chars(index + 1), w - k, '0') + p.subrange(w, n)
        },
    }
}

/// Handle path enumeration: substitute the first `$` token of the
/// path for the entry number `index`.
pub fn path_enumeration(index: usize, path: &RelPath) -> (r: RelPath)
    requires
        index < usize::MAX,
    ensures
        r@ == enumeration_spec(path@, index as int),
{
    let v = path.to_chars();
    let n = v.len();
    let k = match find_char_in(&v, '$', 0, n) {
        None => {
            return path.clone();
        }
        Some(k) => k,
    };
    if k + 1 < n && v[k + 1] == '@' {
        let mut out = copy_range(&v, 0, k);
        let counter = as_uppercase_radix(index);
        let counter_chars = chars_of(counter.as_str());
        append_range(&mut out, &counter_chars, 0, counter_chars.len());
        append_range(&mut out, &v, k + 2, n);
        proof {
            assert(counter_chars@.subrange(0, counter_chars@.len() as int) =~= counter_chars@);
        }
        return RelPath::from_chars(out);
    }
    // Measure the run of `$` characters.
    let mut w: usize = k;
    #[verifier::loop_isolation(false)]
    while w < n && v[w] == '$'
        invariant
            k <= w <= n,
            run_end(v@, k as int) == run_end(v@, w as int),
        decreases n - w,
    {
        w = w + 1;
    }
    let mut digits: Vec<char> = Vec::new();
    push_dec(index + 1, &mut digits);
    let mut out = copy_range(&v, 0, k);
    let pad = w - k;
    let mut i: usize = digits.len();
    #[verifier::loop_isolation(false)]
    while i < pad
        invariant
            digits@.len() <= i <= pad || (i == digits@.len() && pad <= i),
            out@ == v@.subrange(0, k as int) + Seq::new((i - digits@.len()) as nat, |m: int| '0'),
        decreases pad - i,
    {
        out.push('0');
        proof {
            assert(out@ =~= v@.subrange(0, k as int) + Seq::new(
                (i + 1 - digits@.len()) as nat,
                |m: int| '0',
            ));
        }
        i = i + 1;
    }
    append_range(&mut out, &digits, 0, digits.len());
    append_range(&mut out, &v, w, n);
    proof {
        assert(digits@.subrange(0, digits@.len() as int) =~= digits@);
        assert(out@ =~= enumeration_spec(path@, index as int));
    }
    RelPath::from_chars(out)
}

/// What file-name prefix insertion yields: the prefix is prepended to
/// the file name, or becomes the file name of a path without one.
pub open spec fn file_prefix_spec(prefix: Option<Seq<char>>, p: Seq<char>) -> Seq<char> {
    match prefix {
        None => p,
        Some(pre) => match file_name_spec(p) {
            Some(name) => with_file_name_spec(p, pre + name),
            None => with_file_name_spec(p, pre),
        },
    }
}

/// What file-name suffix insertion yields: the suffix is appended to
/// the file name, or becomes the file name of a path without one.
pub open spec fn file_suffix_spec(suffix: Option<Seq<char>>, p: Seq<char>) -> Seq<char> {
    match suffix {
        None => p,
        Some(suf) => match file_name_spec(p) {
            Some(name) => with_file_name_spec(p, name + suf),
            None => with_file_name_spec(p, suf),
        },
    }
}

/// Apply a file prefix to a path.
pub fn path_file_prefix(prefix: Option<&str>, path: &RelPath) -> (r: RelPath)
    ensures
        r@ == file_prefix_spec(
            match prefix {
                Some(s) => Some(s@),
                None => None,
            },
            path@,
        ),
{
    let pre = match prefix {
        Some(pre) => pre,
        None => {
            return path.clone();
        }
    };
    let mut name = chars_of(pre);
    match path.file_name() {
        Some(existing) => {
            append_range(&mut name, &existing, 0, existing.len());
            proof {
                assert(existing@.subrange(0, existing@.len() as int) =~= existing@);
            }
        }
        None => {}
    }
    path.with_file_name(&name)
}

/// Apply a file suffix to a path.
pub fn path_file_suffix(suffix: Option<&str>, path: &RelPath) -> (r: RelPath)
    ensures
        r@ == file_suffix_spec(
            match suffix {
                Some(s) => Some(s@),
                None => None,
            },
            path@,
        ),
{
    let suf = match suffix {
        Some(suf) => suf,
        None => {
            return path.clone();
        }
    };
    let suf_chars = chars_of(suf);
    let mut name = match path.file_name() {
        Some(existing) => existing,
        None => Vec::new(),
    };
    append_range(&mut name, &suf_chars, 0, suf_chars.len());
    proof {
        assert(suf_chars@.subrange(0, suf_chars@.len() as int) =~= suf_chars@);
    }
    path.with_file_name(&name)
}

} // verus!
