//! A single censorship directive: a word label and the time range to
//! replace.

use crate::range::Range;
use vstd::prelude::*;

verus! {

/// One censorship directive.
#[derive(Debug)]
pub struct Replace {
    pub word: String,
    pub range: Range,
}

/// The mathematical content of a directive.
#[verifier::ext_equal]
pub ghost struct ReplaceView {
    pub word: Seq<char>,
    pub range: Range,
}

impl View for Replace {
    type V = ReplaceView;

    open spec fn view(&self) -> ReplaceView {
        ReplaceView { word: self.word@, range: self.range }
    }
}

impl DeepView for Replace {
    type V = ReplaceView;

    open spec fn deep_view(&self) -> ReplaceView {
        self@
    }
}

impl Clone for Replace {
    fn clone(&self) -> (r: Self)
        ensures
            r == *self,
    {
        Replace { word: self.word.clone(), range: self.range }
    }
}

impl PartialEq for Replace {
    fn eq(&self, other: &Self) -> (r: bool) {
        self.word == other.word && self.range == other.range
    }
}

impl Eq for Replace {

}

impl vstd::std_specs::cmp::PartialEqSpecImpl for Replace {
    open spec fn obeys_eq_spec() -> bool {
        true
    }

    open spec fn eq_spec(&self, other: &Self) -> bool {
        self.word@ == other.word@ && self.range == other.range
    }
}

/// Clone a directive list element for element.
pub fn clone_replaces(v: &Vec<Replace>) -> (r: Vec<Replace>)
    ensures
        r@ == v@,
{
    let mut r: Vec<Replace> = Vec::new();
    let mut i: usize = 0;
    #[verifier::loop_isolation(false)]
    while i < v.len()
        invariant
            i <= v@.len(),
            r@ == v@.take(i as int),
        decreases v@.len() - i,
    {
        r.push(v[i].clone());
        proof {
            assert(r@ =~= v@.take(i + 1));
        }
        i = i + 1;
    }
    proof {
        assert(v@.take(v@.len() as int) =~= v@);
    }
    r
}

} // verus!
