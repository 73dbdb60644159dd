//! Relative paths with `/` separators, modelled as plain character
//! sequences.  Paths are expected in normalized form: no leading,
//! trailing or doubled separators and no `.` or `..` components; the
//! surrounding application normalizes paths before handing them in.

use crate::text::{chars_of, string_from_chars};
use vstd::prelude::*;

verus! {

/// The last index not above `from` at which `s` holds `c`.
pub open spec fn rfind_char(s: Seq<char>, c: char, from: int) -> Option<int>
    decreases from + 1,
{
    if from < 0 || from >= s.len() {
        None
    } else if s[from] == c {
        Some(from)
    } else {
        rfind_char(s, c, from - 1)
    }
}

/// What `rfind_char` promises of its result.
pub proof fn lemma_rfind_char(s: Seq<char>, c: char, from: int)
    requires
        from < s.len(),
    ensures
        match rfind_char(s, c, from) {
            Some(k) => 0 <= k <= from && s[k] == c && forall|m: int| k < m <= from ==> s[m] != c,
            None => forall|m: int| 0 <= m <= from ==> s[m] != c,
        },
    decreases from + 1,
{
    if from >= 0 {
        lemma_rfind_char(s, c, from - 1);
    }
}

/// Index at which the file name of `p` begins: just after the last
/// separator, or the start of the path when there is none.
pub open spec fn name_start(p: Seq<char>) -> int {
    match rfind_char(p, '/', p.len() - 1) {
        None => 0,
        Some(k) => k + 1,
    }
}

/// The file name of `p`: everything after the last separator, or
/// nothing when that is empty.
pub open spec fn file_name_spec(p: Seq<char>) -> Option<Seq<char>> {
    if name_start(p) == p.len() {
        None
    } else {
        Some(p.subrange(name_start(p), p.len() as int))
    }
}

/// Index of the dot separating the file name's stem from its
/// extension: the last dot of the path when it lies strictly inside
/// the file name, nothing otherwise (no dot, a dot in a directory
/// component, or a name that begins with its only dot).
pub open spec fn dot_split(p: Seq<char>) -> Option<int> {
    match rfind_char(p, '.', p.len() - 1) {
        None => None,
        Some(k) => if k > name_start(p) {
            Some(k)
        } else {
            None
        },
    }
}

/// The stem of the file name of `p`: the name up to the separating
/// dot, or the whole name.
pub open spec fn file_stem_spec(p: Seq<char>) -> Option<Seq<char>> {
    if name_start(p) == p.len() {
        None
    } else {
        match dot_split(p) {
            Some(k) => Some(p.subrange(name_start(p), k)),
            None => Some(p.subrange(name_start(p), p.len() as int)),
        }
    }
}

/// The extension of the file name of `p`: what follows the separating
/// dot.
pub open spec fn extension_spec(p: Seq<char>) -> Option<Seq<char>> {
    if name_start(p) == p.len() {
        None
    } else {
        match dot_split(p) {
            Some(k) => Some(p.subrange(k + 1, p.len() as int)),
            None => None,
        }
    }
}

/// `p` with its file name replaced by `name`: an empty replacement
/// leaves the parent directory, any other replacement becomes the new
/// final component.
pub open spec fn with_file_name_spec(p: Seq<char>, name: Seq<char>) -> Seq<char> {
    let ns = name_start(p);
    if name.len() == 0 {
        if ns > 0 {
            p.subrange(0, ns - 1)
        } else {
            Seq::empty()
        }
    } else {
        p.subrange(0, ns) + name
    }
}

/// `p` with its extension set to `ext`: the path is cut after the
/// file name's stem and, when `ext` is non-empty, a dot and `ext` are
/// appended.  A path without a file name is left unchanged.
pub open spec fn with_extension_spec(p: Seq<char>, ext: Seq<char>) -> Seq<char> {
    if name_start(p) == p.len() {
        p
    } else {
        let stem_end = match dot_split(p) {
            Some(k) => k,
            None => p.len() as int,
        };
        let base = p.subrange(0, stem_end);
        if ext.len() == 0 {
            base
        } else {
            base + seq!['.'] + ext
        }
    }
}

/// Whether `s` begins with `pre`.
pub open spec fn seq_starts_with(s: Seq<char>, pre: Seq<char>) -> bool {
    pre.len() <= s.len() && s.subrange(0, pre.len() as int) == pre
}

/// Whether `s` ends with `suf`.
pub open spec fn seq_ends_with(s: Seq<char>, suf: Seq<char>) -> bool {
    suf.len() <= s.len() && s.subrange(s.len() - suf.len(), s.len() as int) == suf
}

/// Lexicographic order on character sequences, by code point.
pub open spec fn path_le(a: Seq<char>, b: Seq<char>) -> bool
    decreases a.len(),
{
    if a.len() == 0 {
        true
    } else if b.len() == 0 {
        false
    } else if (a[0] as u32) < (b[0] as u32) {
        true
    } else if (a[0] as u32) > (b[0] as u32) {
        false
    } else {
        path_le(a.drop_first(), b.drop_first())
    }
}

/// Any two character sequences are ordered one way or the other.
pub proof fn lemma_path_le_total(a: Seq<char>, b: Seq<char>)
    ensures
        path_le(a, b) || path_le(b, a),
    decreases a.len(),
{
    if a.len() > 0 && b.len() > 0 && (a[0] as u32) == (b[0] as u32) {
        lemma_path_le_total(a.drop_first(), b.drop_first());
    }
}

/// Every character sequence is ordered at or before itself.
pub proof fn lemma_path_le_refl(a: Seq<char>)
    ensures
        path_le(a, a),
    decreases a.len(),
{
    if a.len() > 0 {
        lemma_path_le_refl(a.drop_first());
    }
}

/// The lexicographic order is antisymmetric: sequences ordered both
/// ways are equal.
pub proof fn lemma_path_le_antisym(a: Seq<char>, b: Seq<char>)
    requires
        path_le(a, b),
        path_le(b, a),
    ensures
        a == b,
    decreases a.len(),
{
    if a.len() > 0 && b.len() > 0 {
        lemma_path_le_antisym(a.drop_first(), b.drop_first());
        vstd::utf8::char_u32_cast(a[0], a[0] as u32);
        vstd::utf8::char_u32_cast(b[0], a[0] as u32);
        assert(a[0] == b[0]);
        assert(a =~= seq![a[0]] + a.drop_first());
        assert(b =~= seq![b[0]] + b.drop_first());
    }
}

/// The lexicographic order is transitive.
pub proof fn lemma_path_le_trans(a: Seq<char>, b: Seq<char>, c: Seq<char>)
    requires
        path_le(a, b),
        path_le(b, c),
    ensures
        path_le(a, c),
    decreases a.len(),
{
    if a.len() > 0 && b.len() > 0 && c.len() > 0 {
        if (a[0] as u32) == (b[0] as u32) && (b[0] as u32) == (c[0] as u32) {
            lemma_path_le_trans(a.drop_first(), b.drop_first(), c.drop_first());
        }
    }
}

/// Compare two paths lexicographically.
pub fn path_le_exec(a: &RelPath, b: &RelPath) -> (r: bool)
    ensures
        r == path_le(a@, b@),
{
    let an = a.chars.len();
    let bn = b.chars.len();
    proof {
        assert(a@.skip(0) =~= a@);
        assert(b@.skip(0) =~= b@);
    }
    let mut i: usize = 0;
    #[verifier::loop_isolation(false)]
    while i < an && i < bn
        invariant
            i <= an,
            i <= bn,
            path_le(a@, b@) == path_le(a@.skip(i as int), b@.skip(i as int)),
        decreases an - i,
    {
        let ca = a.chars[i] as u32;
        let cb = b.chars[i] as u32;
        proof {
            assert(a@.skip(i as int).drop_first() =~= a@.skip(i + 1));
            assert(b@.skip(i as int).drop_first() =~= b@.skip(i + 1));
        }
        if ca < cb {
            return true;
        }
        if ca > cb {
            return false;
        }
        i = i + 1;
    }
    proof {
        if i >= an {
            assert(a@.skip(i as int).len() == 0);
        } else {
            assert(b@.skip(i as int).len() == 0);
            assert(a@.skip(i as int).len() > 0);
        }
    }
    i >= an
}

/// Whether the characters `a[i..i+b.len()]` equal `b`.
fn match_at(a: &Vec<char>, i: usize, b: &Vec<char>) -> (r: bool)
    requires
        i + b@.len() <= a@.len(),
    ensures
        r == (a@.subrange(i as int, i + b@.len()) == b@),
{
    let a_len = a.len();
    let mut j: usize = 0;
    #[verifier::loop_isolation(false)]
    while j < b.len()
        invariant
            j <= b@.len(),
            i + b@.len() <= a_len == a@.len(),
            forall|m: int| 0 <= m < j ==> a@[i + m] == b@[m],
        decreases b@.len() - j,
    {
        if a[i + j] != b[j] {
            proof {
                assert(a@.subrange(i as int, i + b@.len())[j as int] != b@[j as int]);
            }
            return false;
        }
        j = j + 1;
    }
    proof {
        assert(a@.subrange(i as int, i + b@.len()) =~= b@);
    }
    true
}

/// Whether the characters of `a` and `b` coincide.
pub fn eq_chars(a: &Vec<char>, b: &Vec<char>) -> (r: bool)
    ensures
        r == (a@ == b@),
{
    if a.len() != b.len() {
        proof {
            assert(a@.len() != b@.len());
        }
        return false;
    }
    proof {
        assert(a@.subrange(0, a@.len() as int) =~= a@);
    }
    match_at(a, 0, b)
}

/// A relative path, held as its characters.
#[derive(Debug)]
pub struct RelPath {
    chars: Vec<char>,
}

impl View for RelPath {
    type V = Seq<char>;

    closed spec fn view(&self) -> Seq<char> {
        self.chars@
    }
}

impl DeepView for RelPath {
    type V = Seq<char>;

    open spec fn deep_view(&self) -> Seq<char> {
        self@
    }
}

impl Clone for RelPath {
    fn clone(&self) -> (r: Self)
        ensures
            r@ == self@,
    {
        RelPath { chars: clone_chars(&self.chars) }
    }
}

impl PartialEq for RelPath {
    fn eq(&self, other: &Self) -> (r: bool) {
        eq_chars(&self.chars, &other.chars)
    }
}

impl Eq for RelPath {

}

impl vstd::std_specs::cmp::PartialEqSpecImpl for RelPath {
    open spec fn obeys_eq_spec() -> bool {
        true
    }

    open spec fn eq_spec(&self, other: &Self) -> bool {
        self@ == other@
    }
}

/// Clone a character list element for element.
fn clone_chars(v: &Vec<char>) -> (r: Vec<char>)
    ensures
        r@ == v@,
{
    let mut r: Vec<char> = Vec::new();
    let mut i: usize = 0;
    #[verifier::loop_isolation(false)]
    while i < v.len()
        invariant
            i <= v@.len(),
            r@ == v@.take(i as int),
        decreases v@.len() - i,
    {
        r.push(v[i]);
        proof {
            assert(r@ =~= v@.take(i + 1));
        }
        i = i + 1;
    }
    proof {
        assert(v@.take(v@.len() as int) =~= v@);
    }
    r
}

impl RelPath {
    /// The path spelled by `s`.
    pub fn from_str(s: &str) -> (r: RelPath)
        ensures
            r@ == s@,
    {
        RelPath { chars: chars_of(s) }
    }

    /// The path holding exactly the characters of `v`.
    pub fn from_chars(v: Vec<char>) -> (r: RelPath)
        ensures
            r@ == v@,
    {
        RelPath { chars: v }
    }

    /// The path's text.
    pub fn as_string(&self) -> (r: String)
        ensures
            r@ == self@,
    {
        string_from_chars(&self.chars)
    }

    /// The path's characters.
    pub fn to_chars(&self) -> (r: Vec<char>)
        ensures
            r@ == self@,
    {
        clone_chars(&self.chars)
    }

    /// Number of characters in the path.
    pub fn len(&self) -> (r: usize)
        ensures
            r == self@.len(),
    {
        self.chars.len()
    }

    /// Index at which the file name begins.
    fn name_start_exec(&self) -> (r: usize)
        ensures
            r as int == name_start(self@),
            r <= self@.len(),
    {
        let n = self.chars.len();
        proof {
            lemma_rfind_char(self@, '/', n - 1);
        }
        let mut i: usize = n;
        #[verifier::loop_isolation(false)]
        while i > 0
            invariant
                i <= n,
                rfind_char(self@, '/', n - 1) == rfind_char(self@, '/', i - 1),
            decreases i,
        {
            if self.chars[i - 1] == '/' {
                return i;
            }
            i = i - 1;
        }
        0
    }

    /// Index of the dot separating stem and extension, if any.
    fn dot_split_exec(&self) -> (r: Option<usize>)
        ensures
            match r {
                Some(k) => dot_split(self@) == Some(k as int) && name_start(self@) < k
                    < self@.len(),
                None => dot_split(self@) is None,
            },
    {
        let n = self.chars.len();
        let ns = self.name_start_exec();
        proof {
            lemma_rfind_char(self@, '.', n - 1);
        }
        let mut i: usize = n;
        #[verifier::loop_isolation(false)]
        while i > 0
            invariant
                i <= n,
                rfind_char(self@, '.', n - 1) == rfind_char(self@, '.', i - 1),
            decreases i,
        {
            if self.chars[i - 1] == '.' {
                if i - 1 > ns {
                    return Some(i - 1);
                } else {
                    return None;
                }
            }
            i = i - 1;
        }
        None
    }

    /// The file name, if the path has one.
    pub fn file_name(&self) -> (r: Option<Vec<char>>)
        ensures
            match r {
                Some(v) => file_name_spec(self@) == Some(v@),
                None => file_name_spec(self@) is None,
            },
    {
        let ns = self.name_start_exec();
        let n = self.chars.len();
        if ns == n {
            None
        } else {
            Some(copy_range(&self.chars, ns, n))
        }
    }

    /// The file name's stem, if the path has a file name.
    pub fn file_stem(&self) -> (r: Option<Vec<char>>)
        ensures
            match r {
                Some(v) => file_stem_spec(self@) == Some(v@),
                None => file_stem_spec(self@) is None,
            },
    {
        let ns = self.name_start_exec();
        let n = self.chars.len();
        if ns == n {
            None
        } else {
            match self.dot_split_exec() {
                Some(k) => Some(copy_range(&self.chars, ns, k)),
                None => Some(copy_range(&self.chars, ns, n)),
            }
        }
    }

    /// The file name's extension, if it has one.
    pub fn extension(&self) -> (r: Option<Vec<char>>)
        ensures
            match r {
                Some(v) => extension_spec(self@) == Some(v@),
                None => extension_spec(self@) is None,
            },
    {
        let ns = self.name_start_exec();
        let n = self.chars.len();
        if ns == n {
            None
        } else {
            match self.dot_split_exec() {
                Some(k) => Some(copy_range(&self.chars, k + 1, n)),
                None => None,
            }
        }
    }

    /// This path with its file name replaced by `name`.
    pub fn with_file_name(&self, name: &Vec<char>) -> (r: RelPath)
        ensures
            r@ == with_file_name_spec(self@, name@),
    {
        let ns = self.name_start_exec();
        if name.len() == 0 {
            if ns > 0 {
                RelPath { chars: copy_range(&self.chars, 0, ns - 1) }
            } else {
                RelPath { chars: Vec::new() }
            }
        } else {
            let mut out = copy_range(&self.chars, 0, ns);
            append_range(&mut out, name, 0, name.len());
            RelPath { chars: out }
        }
    }

    /// This path with its extension set to `ext`.
    pub fn with_extension(&self, ext: &Vec<char>) -> (r: RelPath)
        ensures
            r@ == with_extension_spec(self@, ext@),
    {
        let ns = self.name_start_exec();
        let n = self.chars.len();
        if ns == n {
            return self.clone();
        }
        let stem_end = match self.dot_split_exec() {
            Some(k) => k,
            None => n,
        };
        let mut out = copy_range(&self.chars, 0, stem_end);
        if ext.len() > 0 {
            out.push('.');
            append_range(&mut out, ext, 0, ext.len());
            proof {
                assert(out@ =~= self@.subrange(0, stem_end as int) + seq!['.'] + ext@);
            }
        }
        RelPath { chars: out }
    }

    /// Whether this path equals `other`.
    pub fn eq_path(&self, other: &RelPath) -> (r: bool)
        ensures
            r == (self@ == other@),
    {
        eq_chars(&self.chars, &other.chars)
    }

    /// Whether the path's extension is exactly `ext`.
    pub fn has_extension(&self, ext: &Vec<char>) -> (r: bool)
        ensures
            r == (extension_spec(self@) == Some(ext@)),
    {
        match self.extension() {
            Some(e) => {
                let same = eq_chars(&e, ext);
                proof {
                    if !same {
                        assert(extension_spec(self@) != Some(ext@));
                    }
                }
                same
            }
            None => {
                proof {
                    assert(extension_spec(self@) != Some(ext@));
                }
                false
            }
        }
    }
}

/// A copy of `v[a..b]`.
pub fn copy_range(v: &Vec<char>, a: usize, b: usize) -> (r: Vec<char>)
    requires
        a <= b <= v@.len(),
    ensures
        r@ == v@.subrange(a as int, b as int),
{
    let mut r: Vec<char> = Vec::new();
    let mut i: usize = a;
    #[verifier::loop_isolation(false)]
    while i < b
        invariant
            a <= i <= b,
            r@ == v@.subrange(a as int, i as int),
        decreases b - i,
    {
        r.push(v[i]);
        proof {
            assert(r@ =~= v@.subrange(a as int, i + 1));
        }
        i = i + 1;
    }
    r
}

/// Append `src[a..b]` to `out`.
pub fn append_range(out: &mut Vec<char>, src: &Vec<char>, a: usize, b: usize)
    requires
        a <= b <= src@.len(),
    ensures
        final(out)@ == old(out)@ + src@.subrange(a as int, b as int),
{
    let mut i: usize = a;
    #[verifier::loop_isolation(false)]
    while i < b
        invariant
            a <= i <= b,
            out@ == old(out)@ + src@.subrange(a as int, i as int),
        decreases b - i,
    {
        out.push(src[i]);
        proof {
            assert(out@ =~= old(out)@ + src@.subrange(a as int, i + 1));
        }
        i = i + 1;
    }
}

/// Whether the character sequence `v` begins with `pre`.
pub fn starts_with_chars(v: &Vec<char>, pre: &Vec<char>) -> (r: bool)
    ensures
        r == seq_starts_with(v@, pre@),
{
    if pre.len() > v.len() {
        return false;
    }
    match_at(v, 0, pre)
}

/// Whether the character sequence `v` ends with `suf`.
pub fn ends_with_chars(v: &Vec<char>, suf: &Vec<char>) -> (r: bool)
    ensures
        r == seq_ends_with(v@, suf@),
{
    if suf.len() > v.len() {
        return false;
    }
    match_at(v, v.len() - suf.len(), suf)
}

} // verus!
