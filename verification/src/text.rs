//! Character-level text utilities shared by the parsers and the path
//! templating engine: decimal digits, number parsing and rendering, and
//! conversions between `&str`, `String` and `Vec<char>`.

use vstd::prelude::*;

verus! {

/// Relies on `String::push`: appends the given character to the end of
/// the string.
pub assume_specification[ String::push ](s: &mut String, c: char)
    ensures
        final(s)@ == old(s)@.push(c),
;

/// Whether `c` is an ASCII decimal digit.
pub open spec fn is_digit_char(c: char) -> bool {
    48 <= c as u32 && c as u32 <= 57
}

/// Numeric value of an ASCII decimal digit.
pub open spec fn digit_val(c: char) -> int {
    c as u32 - 48
}

/// Whether `s` is a non-empty sequence of ASCII decimal digits.
pub open spec fn is_digit_seq(s: Seq<char>) -> bool {
    s.len() > 0 && forall|i: int| 0 <= i < s.len() ==> is_digit_char(#[trigger] s[i])
}

/// Numeric value of a digit sequence, most significant digit first.
pub open spec fn digit_seq_val(s: Seq<char>) -> int
    decreases s.len(),
{
    if s.len() == 0 {
        0
    } else {
        digit_seq_val(s.drop_last()) * 10 + digit_val(s.last())
    }
}

/// What parsing a `u32` from text yields: the numeric value when the
/// text is one or more decimal digits whose value fits, nothing
/// otherwise.
pub open spec fn parse_u32_spec(s: Seq<char>) -> Option<u32> {
    if is_digit_seq(s) && digit_seq_val(s) <= u32::MAX {
        Some(digit_seq_val(s) as u32)
    } else {
        None
    }
}

/// The value of a digit sequence is never negative.
pub proof fn lemma_digit_seq_val_nonneg(s: Seq<char>)
    requires
        forall|i: int| 0 <= i < s.len() ==> is_digit_char(#[trigger] s[i]),
    ensures
        digit_seq_val(s) >= 0,
    decreases s.len(),
{
    if s.len() > 0 {
        lemma_digit_seq_val_nonneg(s.drop_last());
    }
}

/// Extending a digit sequence by one digit multiplies its value by ten
/// and adds the digit, so the value never shrinks as the prefix grows.
pub proof fn lemma_digit_seq_val_prefix(s: Seq<char>, i: int)
    requires
        forall|j: int| 0 <= j <= i ==> is_digit_char(#[trigger] s[j]),
        0 <= i < s.len(),
    ensures
        digit_seq_val(s.take(i + 1)) == digit_seq_val(s.take(i)) * 10 + digit_val(s[i]),
        digit_seq_val(s.take(i)) <= digit_seq_val(s.take(i + 1)),
{
    let t = s.take(i + 1);
    assert(t.drop_last() =~= s.take(i));
    assert(t.last() == s[i]);
    lemma_digit_seq_val_nonneg(s.take(i));
    assert(digit_seq_val(s.take(i)) <= digit_seq_val(s.take(i)) * 10 + digit_val(s[i]))
        by (nonlinear_arith)
        requires
            digit_seq_val(s.take(i)) >= 0,
            0 <= digit_val(s[i]),
    ;
}

/// A digit sequence is worth at least as much as any of its prefixes.
pub proof fn lemma_digit_seq_val_monotone(s: Seq<char>, i: int)
    requires
        forall|j: int| 0 <= j < s.len() ==> is_digit_char(#[trigger] s[j]),
        0 <= i <= s.len(),
    ensures
        digit_seq_val(s.take(i)) <= digit_seq_val(s),
    decreases s.len() - i,
{
    if i < s.len() {
        lemma_digit_seq_val_prefix(s, i);
        lemma_digit_seq_val_monotone(s, i + 1);
    } else {
        assert(s.take(i) =~= s);
    }
}

/// Parse the digits `v[from..to]` as a `u32`.
#[verifier::loop_isolation(false)]
pub fn parse_u32_range(v: &Vec<char>, from: usize, to: usize) -> (r: Option<u32>)
    requires
        from <= to <= v@.len(),
    ensures
        r == parse_u32_spec(v@.subrange(from as int, to as int)),
{
    let ghost s = v@.subrange(from as int, to as int);
    if from == to {
        return None;
    }
    let mut val: u32 = 0;
    let mut i: usize = from;
    while i < to
        invariant
            from <= i <= to,
            forall|j: int| 0 <= j < i - from ==> is_digit_char(#[trigger] s[j]),
            val == digit_seq_val(s.take(i - from)),
        decreases to - i,
    {
        let c = v[i];
        let cv = c as u32;
        if cv < 48 || cv > 57 {
            assert(!is_digit_char(s[i - from]));
            return None;
        }
        let d = cv - 48;
        proof {
            lemma_digit_seq_val_prefix(s, i - from);
        }
        let next = match val.checked_mul(10) {
            Some(m) => m.checked_add(d),
            None => None,
        };
        match next {
            Some(n) => {
                val = n;
            }
            None => {
                // The value of the whole digit text only grows with
                // further digits, so it cannot fit either.
                proof {
                    if is_digit_seq(s) {
                        lemma_digit_seq_val_monotone(s, i - from + 1);
                    }
                }
                return None;
            }
        }
        i = i + 1;
    }
    proof {
        assert(s.take(s.len() as int) =~= s);
    }
    Some(val)
}

/// The ASCII character for the decimal digit `d`.
pub open spec fn digit_char(d: int) -> char {
    if d == 0 {
        '0'
    } else if d == 1 {
        '1'
    } else if d == 2 {
        '2'
    } else if d == 3 {
        '3'
    } else if d == 4 {
        '4'
    } else if d == 5 {
        '5'
    } else if d == 6 {
        '6'
    } else if d == 7 {
        '7'
    } else if d == 8 {
        '8'
    } else {
        '9'
    }
}

/// The decimal rendering of `n`, most significant digit first, with
/// no leading zeros.
pub open spec fn dec_chars(n: int) -> Seq<char>
    decreases n,
{
    if n < 10 {
        seq![digit_char(n)]
    } else {
        dec_chars(n / 10).push(digit_char(n % 10))
    }
}

/// `s` left-padded with `c` to width `w`.
pub open spec fn pad_left(s: Seq<char>, w: int, c: char) -> Seq<char> {
    if s.len() >= w {
        s
    } else {
        Seq::new((w - s.len()) as nat, |i: int| c) + s
    }
}

/// The decimal rendering of a number is a non-empty digit sequence
/// worth exactly that number.
pub proof fn lemma_dec_chars_value(n: int)
    requires
        n >= 0,
    ensures
        is_digit_seq(dec_chars(n)),
        digit_seq_val(dec_chars(n)) == n,
    decreases n,
{
    if n < 10 {
        assert(digit_val(digit_char(n)) == n);
        assert(dec_chars(n) =~= seq![digit_char(n)]);
        assert(dec_chars(n).drop_last() =~= Seq::<char>::empty());
        assert(dec_chars(n).last() == digit_char(n));
        assert(digit_seq_val(dec_chars(n)) == digit_seq_val(dec_chars(n).drop_last()) * 10
            + digit_val(dec_chars(n).last()));
        assert(digit_seq_val(Seq::<char>::empty()) == 0);
        assert(digit_seq_val(dec_chars(n)) == n);
        assert(is_digit_seq(dec_chars(n)));
    } else {
        lemma_dec_chars_value(n / 10);
        let d = dec_chars(n);
        assert(d.drop_last() =~= dec_chars(n / 10));
        assert(digit_val(digit_char(n % 10)) == n % 10);
        assert(n == (n / 10) * 10 + n % 10) by (nonlinear_arith);
        assert(forall|i: int|
            0 <= i < d.len() - 1 ==> d[i] == #[trigger] dec_chars(n / 10)[i]);
        assert(d.last() == digit_char(n % 10));
        assert(digit_seq_val(d) == digit_seq_val(d.drop_last()) * 10 + digit_val(d.last()));
        assert(digit_seq_val(d) == n);
        assert(is_digit_seq(d));
    }
}

/// Exact characterization of a found character: it is at `k` and
/// nowhere earlier.
pub proof fn lemma_find_char_pinpoint(s: Seq<char>, c: char, i: int, j: int, k: int)
    requires
        0 <= i <= k < j <= s.len(),
        s[k] == c,
        forall|m: int| i <= m < k ==> s[m] != c,
    ensures
        find_char_between(s, c, i, j) == Some(k),
{
    lemma_find_char_between(s, c, i, j);
}

/// A character absent from the whole window is not found.
pub proof fn lemma_find_char_absent(s: Seq<char>, c: char, i: int, j: int)
    requires
        0 <= i <= j <= s.len(),
        forall|m: int| i <= m < j ==> s[m] != c,
    ensures
        find_char_between(s, c, i, j) is None,
{
    lemma_find_char_between(s, c, i, j);
}

/// The ASCII character for the decimal digit `d`.
fn digit_char_exec(d: usize) -> (c: char)
    requires
        d < 10,
    ensures
        c == digit_char(d as int),
{
    match d {
        0 => '0',
        1 => '1',
        2 => '2',
        3 => '3',
        4 => '4',
        5 => '5',
        6 => '6',
        7 => '7',
        8 => '8',
        _ => '9',
    }
}

/// Append the decimal rendering of `n` to `out`.
pub fn push_dec(n: usize, out: &mut Vec<char>)
    ensures
        final(out)@ == old(out)@ + dec_chars(n as int),
    decreases n,
{
    if n < 10 {
        let c = digit_char_exec(n);
        out.push(c);
        proof {
            assert(out@ =~= old(out)@ + dec_chars(n as int));
        }
    } else {
        push_dec(n / 10, out);
        let c = digit_char_exec(n % 10);
        out.push(c);
        proof {
            assert(out@ =~= old(out)@ + dec_chars(n as int));
        }
    }
}

/// The first index in `[i, j)` at which `s` holds the character `c`.
pub open spec fn find_char_between(s: Seq<char>, c: char, i: int, j: int) -> Option<int>
    decreases j - i,
{
    if i < 0 || i >= j || j > s.len() {
        None
    } else if s[i] == c {
        Some(i)
    } else {
        find_char_between(s, c, i + 1, j)
    }
}

/// What `find_char_between` promises of its result.
pub proof fn lemma_find_char_between(s: Seq<char>, c: char, i: int, j: int)
    requires
        0 <= i <= j <= s.len(),
    ensures
        match find_char_between(s, c, i, j) {
            Some(k) => i <= k < j && s[k] == c && forall|m: int| i <= m < k ==> s[m] != c,
            None => forall|m: int| i <= m < j ==> s[m] != c,
        },
    decreases j - i,
{
    if i < j {
        lemma_find_char_between(s, c, i + 1, j);
    }
}

/// Search `v[from..to]` for the first occurrence of `c`.
#[verifier::loop_isolation(false)]
pub fn find_char_in(v: &Vec<char>, c: char, from: usize, to: usize) -> (r: Option<usize>)
    requires
        from <= to <= v@.len(),
    ensures
        match r {
            Some(k) => from <= k < to && v@[k as int] == c && find_char_between(
                v@,
                c,
                from as int,
                to as int,
            ) == Some(k as int),
            None => find_char_between(v@, c, from as int, to as int) is None,
        },
{
    let mut i: usize = from;
    while i < to
        invariant
            from <= i <= to,
            find_char_between(v@, c, from as int, to as int) == find_char_between(
                v@,
                c,
                i as int,
                to as int,
            ),
        decreases to - i,
    {
        if v[i] == c {
            return Some(i);
        }
        i = i + 1;
    }
    None
}

/// The characters of `s`, in order.
#[verifier::loop_isolation(false)]
pub fn chars_of(s: &str) -> (v: Vec<char>)
    ensures
        v@ == s@,
{
    let n = s.unicode_len();
    let mut v: Vec<char> = Vec::new();
    let mut i: usize = 0;
    while i < n
        invariant
            i <= n,
            n == s@.len(),
            v@ == s@.take(i as int),
        decreases n - i,
    {
        let c = s.get_char(i);
        v.push(c);
        proof {
            assert(v@ =~= s@.take(i + 1));
        }
        i = i + 1;
    }
    proof {
        assert(s@.take(n as int) =~= s@);
    }
    v
}

/// A `String` holding exactly the characters of `v`.
#[verifier::loop_isolation(false)]
pub fn string_from_chars(v: &Vec<char>) -> (s: String)
    ensures
        s@ == v@,
{
    let mut s = String::new();
    let mut i: usize = 0;
    while i < v.len()
        invariant
            i <= v@.len(),
            s@ == v@.take(i as int),
        decreases v@.len() - i,
    {
        s.push(v[i]);
        proof {
            assert(s@ =~= v@.take(i + 1));
        }
        i = i + 1;
    }
    proof {
        assert(v@.take(v@.len() as int) =~= v@);
    }
    s
}

} // verus!
