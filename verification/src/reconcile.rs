//! The reconciliation engine: match every physical WAV file under a
//! configured directory against a templated configuration entry and
//! classify it into exactly one outcome.

use crate::config::{effective_ext, files_entries, opt_str_view, FileEntry, FileEntryView,
    ReplaceDir};
use crate::relpath::{extension_spec, file_name_spec, RelPath};
use crate::replace::{clone_replaces, Replace, ReplaceView};
use crate::utils::{enumeration_spec, file_prefix_spec, file_suffix_spec, path_enumeration,
    path_file_prefix, path_file_suffix};
use crate::relpath::with_extension_spec;
use crate::text::chars_of;
use vstd::prelude::*;

verus! {

/// How one physical file is handled.
#[derive(Debug)]
pub enum Outcome {
    /// The file is matched and clean: copied verbatim.
    CopyClean,
    /// The file is matched and carries directives: its ranges are
    /// replaced.
    Process(Vec<Replace>),
    /// The file's transcript flags words without a resolved range:
    /// the whole file is silenced.
    SilencedMissing,
    /// No configuration entry accounts for the file: it is silenced
    /// as the fail-safe default.
    Unaccounted,
}

/// The mathematical content of an outcome.
#[verifier::ext_equal]
pub ghost enum OutcomeView {
    CopyClean,
    Process(Seq<ReplaceView>),
    SilencedMissing,
    Unaccounted,
}

impl View for Outcome {
    type V = OutcomeView;

    open spec fn view(&self) -> OutcomeView {
        match self {
            Outcome::CopyClean => OutcomeView::CopyClean,
            Outcome::Process(rs) => OutcomeView::Process(rs.deep_view()),
            Outcome::SilencedMissing => OutcomeView::SilencedMissing,
            Outcome::Unaccounted => OutcomeView::Unaccounted,
        }
    }
}

/// Why reconciliation failed.
#[derive(Debug)]
pub enum ReconcileError {
    /// A configuration entry's templated path matches no file on
    /// disk.
    UnexpectedFile { path: RelPath },
    /// A path has no file name to derive a destination from.
    NoFileName { path: RelPath },
}

/// How one matched configuration entry is classified: flagged words
/// without a range silence the whole file; otherwise the explicit
/// directives and the transcript's directives are joined, and an
/// empty union means a clean copy.
pub open spec fn classify_entry(e: FileEntryView) -> OutcomeView {
    match e.transcript {
        Some(t) => if t.missing.len() > 0 {
            OutcomeView::SilencedMissing
        } else {
            if e.replace.len() + t.replace.len() == 0 {
                OutcomeView::CopyClean
            } else {
                OutcomeView::Process(e.replace + t.replace)
            }
        },
        None => if e.replace.len() == 0 {
            OutcomeView::CopyClean
        } else {
            OutcomeView::Process(e.replace)
        },
    }
}

/// The on-disk path expected for the configuration entry at position
/// `i`: enumeration substitution, then prefix and suffix insertion,
/// then the effective extension override.
pub open spec fn templated_path(
    p: Seq<char>,
    i: int,
    prefix: Option<Seq<char>>,
    suffix: Option<Seq<char>>,
    eff_ext: Option<Seq<char>>,
) -> Seq<char> {
    let p1 = enumeration_spec(p, i);
    let p2 = file_prefix_spec(prefix, p1);
    let p3 = file_suffix_spec(suffix, p2);
    match eff_ext {
        Some(x) => with_extension_spec(p3, x),
        None => p3,
    }
}

/// First listing index holding path `p` that has no outcome yet.
pub open spec fn index_of_unassigned(
    listing: Seq<Seq<char>>,
    asn: Seq<Option<OutcomeView>>,
    p: Seq<char>,
) -> Option<int>
    decreases listing.len(),
{
    if listing.len() == 0 {
        None
    } else if listing[0] == p && asn.len() > 0 && asn[0] is None {
        Some(0)
    } else {
        match index_of_unassigned(listing.drop_first(), asn.drop_first(), p) {
            Some(j) => Some(j + 1),
            None => None,
        }
    }
}

/// What `index_of_unassigned` promises of its result.
proof fn lemma_index_of_unassigned(
    listing: Seq<Seq<char>>,
    asn: Seq<Option<OutcomeView>>,
    p: Seq<char>,
)
    requires
        asn.len() == listing.len(),
    ensures
        match index_of_unassigned(listing, asn, p) {
            Some(j) => 0 <= j < listing.len() && listing[j] == p && asn[j] is None && forall|
                k: int,
            | 0 <= k < j ==> !(listing[k] == p && asn[k] is None),
            None => forall|k: int|
                0 <= k < listing.len() ==> !(listing[k] == p && asn[k] is None),
        },
    decreases listing.len(),
{
    if listing.len() > 0 {
        lemma_index_of_unassigned(listing.drop_first(), asn.drop_first(), p);
        assert forall|k: int| 1 <= k < listing.len() implies #[trigger] listing[k]
            == listing.drop_first()[k - 1] && asn[k] == asn.drop_first()[k - 1] by {}
    }
}

/// What classifying the configuration entries from position `i` on
/// does to the assignment: each entry's templated path must name an
/// unassigned listed file, which receives the entry's outcome; a
/// templated path with no such file is the error.
pub open spec fn recon_step(
    listing: Seq<Seq<char>>,
    asn: Seq<Option<OutcomeView>>,
    es: Seq<FileEntryView>,
    i: int,
    prefix: Option<Seq<char>>,
    suffix: Option<Seq<char>>,
    eff_ext: Option<Seq<char>>,
) -> Result<Seq<Option<OutcomeView>>, Seq<char>>
    decreases es.len() - i,
{
    if i < 0 || i >= es.len() {
        Ok(asn)
    } else {
        let tp = templated_path(es[i].path, i, prefix, suffix, eff_ext);
        match index_of_unassigned(listing, asn, tp) {
            None => Err(tp),
            Some(j) => recon_step(
                listing,
                asn.update(j, Some(classify_entry(es[i]))),
                es,
                i + 1,
                prefix,
                suffix,
                eff_ext,
            ),
        }
    }
}

/// What reconciling a directory yields: one outcome per listed file,
/// in listing order; every file no entry claimed defaults to
/// unaccounted.
pub open spec fn reconcile_spec(
    listing: Seq<Seq<char>>,
    es: Seq<FileEntryView>,
    prefix: Option<Seq<char>>,
    suffix: Option<Seq<char>>,
    eff_ext: Option<Seq<char>>,
) -> Result<Seq<OutcomeView>, Seq<char>> {
    match recon_step(
        listing,
        Seq::new(listing.len(), |j: int| None),
        es,
        0,
        prefix,
        suffix,
        eff_ext,
    ) {
        Err(p) => Err(p),
        Ok(asn) => Ok(
            Seq::new(
                listing.len(),
                |j: int|
                    match asn[j] {
                        Some(o) => o,
                        None => OutcomeView::Unaccounted,
                    },
            ),
        ),
    }
}

/// Reconciliation totality: for any directory listing and any
/// configuration, a successful reconciliation yields exactly one
/// outcome per listed file, and each outcome lies in exactly one of
/// the four classes, so the classes partition the listing with no
/// overlaps and no omissions.
pub proof fn lemma_reconcile_totality(
    listing: Seq<Seq<char>>,
    es: Seq<FileEntryView>,
    prefix: Option<Seq<char>>,
    suffix: Option<Seq<char>>,
    eff_ext: Option<Seq<char>>,
)
    ensures
        reconcile_spec(listing, es, prefix, suffix, eff_ext) matches Ok(os) ==> {
            &&& os.len() == listing.len()
            &&& forall|j: int|
                0 <= j < os.len() ==> {
                    let o = #[trigger] os[j];
                    (if o is CopyClean {
                        1int
                    } else {
                        0int
                    }) + (if o is Process {
                        1int
                    } else {
                        0int
                    }) + (if o is SilencedMissing {
                        1int
                    } else {
                        0int
                    }) + (if o is Unaccounted {
                        1int
                    } else {
                        0int
                    }) == 1
                }
        },
{
}

/// The assignment a partial outcome list denotes: a slot still at
/// the unaccounted default is open, any other outcome is settled.
pub open spec fn asn_of(out: Seq<(RelPath, Outcome)>) -> Seq<Option<OutcomeView>> {
    Seq::new(
        out.len(),
        |j: int|
            if out[j].1 is Unaccounted {
                None
            } else {
                Some(out[j].1@)
            },
    )
}

/// An entry's classification is never the unaccounted default.
proof fn lemma_classify_not_unaccounted(e: FileEntryView)
    ensures
        !(classify_entry(e) is Unaccounted),
{
}

/// Join the explicit directives with the transcript's.
fn union_replaces(explicit: &Vec<Replace>, transcript: &Vec<Replace>) -> (r: Vec<Replace>)
    ensures
        r.deep_view() == explicit.deep_view() + transcript.deep_view(),
{
    let mut r = clone_replaces(explicit);
    let mut i: usize = 0;
    #[verifier::loop_isolation(false)]
    while i < transcript.len()
        invariant
            i <= transcript@.len(),
            r.deep_view() =~= explicit.deep_view() + transcript.deep_view().take(i as int),
        decreases transcript@.len() - i,
    {
        let ghost pre = r.deep_view();
        let x = transcript[i].clone();
        let ghost xv = x@;
        r.push(x);
        proof {
            assert(r.deep_view() =~= pre.push(xv));
            assert(r.deep_view() =~= explicit.deep_view() + transcript.deep_view().take(i + 1));
        }
        i = i + 1;
    }
    proof {
        assert(transcript.deep_view().take(transcript.deep_view().len() as int)
            =~= transcript.deep_view());
    }
    r
}

/// Classify one matched configuration entry.
fn classify_exec(e: &FileEntry) -> (r: Outcome)
    ensures
        r@ == classify_entry(e@),
{
    match &e.transcript {
        Some(t) => {
            if t.missing.len() > 0 {
                Outcome::SilencedMissing
            } else {
                let un = union_replaces(&e.replace, &t.replace);
                if un.len() == 0 {
                    proof {
                        assert(un.deep_view().len() == un@.len());
                        assert(e@.replace.len() + t@.replace.len() == 0);
                    }
                    Outcome::CopyClean
                } else {
                    proof {
                        assert(un.deep_view().len() == un@.len());
                    }
                    Outcome::Process(un)
                }
            }
        }
        None => {
            if e.replace.len() == 0 {
                proof {
                    assert(e.replace.deep_view().len() == e.replace@.len());
                }
                Outcome::CopyClean
            } else {
                proof {
                    assert(e.replace.deep_view().len() == e.replace@.len());
                }
                Outcome::Process(clone_replaces(&e.replace))
            }
        }
    }
}

/// Compute the templated on-disk path for the entry at position `i`.
fn templated_path_exec(
    p: &RelPath,
    i: usize,
    prefix: Option<&str>,
    suffix: Option<&str>,
    eff_ext: Option<&str>,
) -> (r: RelPath)
    requires
        i < usize::MAX,
    ensures
        r@ == templated_path(
            p@,
            i as int,
            match prefix {
                Some(s) => Some(s@),
                None => None,
            },
            match suffix {
                Some(s) => Some(s@),
                None => None,
            },
            match eff_ext {
                Some(s) => Some(s@),
                None => None,
            },
        ),
{
    let p1 = path_enumeration(i, p);
    let p2 = path_file_prefix(prefix, &p1);
    let p3 = path_file_suffix(suffix, &p2);
    match eff_ext {
        Some(x) => {
            let ext_chars = chars_of(x);
            p3.with_extension(&ext_chars)
        }
        None => p3,
    }
}

impl ReplaceDir {
    /// Let this directory's configuration claim files from `prior`:
    /// each configured entry's templated path must name a listed file
    /// whose outcome is still the unaccounted default, and that slot
    /// receives the entry's outcome.  Slots already settled are never
    /// touched, so over several directories sharing one listing each
    /// file is claimed at most once.
    pub fn reconcile_pass(
        &self,
        doc_ext: Option<&str>,
        wavs: &Vec<RelPath>,
        prior: Vec<(RelPath, Outcome)>,
    ) -> (r: Result<Vec<(RelPath, Outcome)>, ReconcileError>)
        requires
            forall|j1: int, j2: int|
                0 <= j1 < j2 < wavs@.len() ==> (#[trigger] wavs@[j1])@ != (#[trigger] wavs@[j2])@,
            prior@.len() == wavs@.len(),
            forall|k: int| 0 <= k < prior@.len() ==> (#[trigger] prior@[k]).0@ == wavs@[k]@,
        ensures
            match r {
                Ok(out) => {
                    &&& out@.len() == wavs@.len()
                    &&& forall|k: int|
                        0 <= k < out@.len() ==> (#[trigger] out@[k]).0@ == wavs@[k]@
                    &&& recon_step(
                        wavs.deep_view(),
                        asn_of(prior@),
                        files_entries(self.files),
                        0,
                        opt_str_view(self.prefix),
                        opt_str_view(self.suffix),
                        effective_ext(
                            opt_str_view(self.file_extension),
                            match doc_ext {
                                Some(s) => Some(s@),
                                None => None,
                            },
                        ),
                    ) == Ok::<_, Seq<char>>(asn_of(out@))
                    &&& forall|k: int|
                        0 <= k < out@.len() && !((#[trigger] prior@[k]).1 is Unaccounted)
                            ==> out@[k].1@ == prior@[k].1@
                },
                Err(e) => {
                    &&& e matches ReconcileError::UnexpectedFile { path }
                    &&& recon_step(
                        wavs.deep_view(),
                        asn_of(prior@),
                        files_entries(self.files),
                        0,
                        opt_str_view(self.prefix),
                        opt_str_view(self.suffix),
                        effective_ext(
                            opt_str_view(self.file_extension),
                            match doc_ext {
                                Some(s) => Some(s@),
                                None => None,
                            },
                        ),
                    ) == Err::<Seq<Option<OutcomeView>>, _>(path@)
                },
            },
    {
        let ghost listing = wavs.deep_view();
        let ghost es = files_entries(self.files);
        let ghost pre = opt_str_view(self.prefix);
        let ghost suf = opt_str_view(self.suffix);
        let ghost eff = effective_ext(
            opt_str_view(self.file_extension),
            match doc_ext {
                Some(s) => Some(s@),
                None => None,
            },
        );
        let own_ext: Option<&str> = match &self.file_extension {
            Some(s) => Some(s.as_str()),
            None => None,
        };
        let eff_ext: Option<&str> = match own_ext {
            Some(s) => Some(s),
            None => doc_ext,
        };
        let prefix: Option<&str> = match &self.prefix {
            Some(s) => Some(s.as_str()),
            None => None,
        };
        let suffix: Option<&str> = match &self.suffix {
            Some(s) => Some(s.as_str()),
            None => None,
        };
        let entries = self.files.iter();
        let n_wavs = wavs.len();
        let mut out = prior;
        let ghost asn0 = asn_of(out@);
        let ghost mut asn: Seq<Option<OutcomeView>> = asn0;
        let n = entries.len();
        let mut i: usize = 0;
        #[verifier::loop_isolation(false)]
        while i < n
            invariant
                i <= n,
                n == es.len(),
                entries.deep_view() == es,
                out@.len() == listing.len(),
                asn =~= asn_of(out@),
                recon_step(listing, asn0, es, 0, pre, suf, eff) == recon_step(
                    listing,
                    asn,
                    es,
                    i as int,
                    pre,
                    suf,
                    eff,
                ),
                forall|k: int|
                    0 <= k < listing.len() ==> (#[trigger] out@[k]).0@ == listing[k],
                forall|k: int|
                    0 <= k < listing.len() && !((#[trigger] prior@[k]).1 is Unaccounted)
                        ==> out@[k].1@ == prior@[k].1@,
            decreases n - i,
        {
            let e = &entries[i];
            let tp = templated_path_exec(&e.path, i, prefix, suffix, eff_ext);
            proof {
                assert(e@ == es[i as int]);
                assert(tp@ == templated_path(es[i as int].path, i as int, pre, suf, eff));
                lemma_index_of_unassigned(listing, asn, tp@);
            }
            // Find the listed file this entry templates to.
            let mut j: usize = 0;
            let mut found: Option<usize> = None;
            #[verifier::loop_isolation(false)]
            while j < n_wavs
                invariant
                    j <= n_wavs,
                    n_wavs == listing.len(),
                    found is None,
                    forall|k: int|
                        0 <= k < j ==> !(listing[k] == tp@ && asn[k] is None),
                decreases n_wavs - j,
            {
                let unassigned = match &out[j].1 {
                    Outcome::Unaccounted => true,
                    _ => false,
                };
                if unassigned && wavs[j].eq_path(&tp) {
                    found = Some(j);
                    break;
                }
                j = j + 1;
            }
            match found {
                None => {
                    proof {
                        assert(index_of_unassigned(listing, asn, tp@) is None);
                    }
                    return Err(ReconcileError::UnexpectedFile { path: tp });
                }
                Some(j) => {
                    proof {
                        assert(listing[j as int] == tp@ && asn[j as int] is None);
                        assert(index_of_unassigned(listing, asn, tp@) == Some(j as int));
                    }
                    let o = classify_exec(e);
                    proof {
                        lemma_classify_not_unaccounted(es[i as int]);
                    }
                    out.set(j, (wavs[j].clone(), o));
                    proof {
                        asn = asn.update(j as int, Some(classify_entry(es[i as int])));
                        assert(asn =~= asn_of(out@));
                    }
                }
            }
            i = i + 1;
        }
        proof {
            assert(recon_step(listing, asn, es, n as int, pre, suf, eff) == Ok::<_, Seq<char>>(
                asn,
            ));
        }
        Ok(out)
    }

    /// Reconcile this directory's configuration against the WAV files
    /// listed under it.  Every listed file receives exactly one
    /// outcome, in listing order: the outcome of the entry that
    /// templated to it, or the unaccounted default.
    pub fn reconcile(&self, doc_ext: Option<&str>, wavs: &Vec<RelPath>) -> (r: Result<
        Vec<(RelPath, Outcome)>,
        ReconcileError,
    >)
        requires
            forall|j1: int, j2: int|
                0 <= j1 < j2 < wavs@.len() ==> (#[trigger] wavs@[j1])@ != (#[trigger] wavs@[j2])@,
        ensures
            match r {
                Ok(out) => {
                    &&& reconcile_spec(
                        wavs.deep_view(),
                        files_entries(self.files),
                        opt_str_view(self.prefix),
                        opt_str_view(self.suffix),
                        effective_ext(
                            opt_str_view(self.file_extension),
                            match doc_ext {
                                Some(s) => Some(s@),
                                None => None,
                            },
                        ),
                    ) matches Ok(os)
                    &&& out@.len() == wavs@.len()
                    &&& forall|j: int|
                        0 <= j < out@.len() ==> (#[trigger] out@[j]).0@ == wavs@[j]@
                            && out@[j].1@ == reconcile_spec(
                            wavs.deep_view(),
                            files_entries(self.files),
                            opt_str_view(self.prefix),
                            opt_str_view(self.suffix),
                            effective_ext(
                                opt_str_view(self.file_extension),
                                match doc_ext {
                                    Some(s) => Some(s@),
                                    None => None,
                                },
                            ),
                        )->Ok_0[j]
                },
                Err(e) => {
                    &&& e matches ReconcileError::UnexpectedFile { path }
                    &&& reconcile_spec(
                        wavs.deep_view(),
                        files_entries(self.files),
                        opt_str_view(self.prefix),
                        opt_str_view(self.suffix),
                        effective_ext(
                            opt_str_view(self.file_extension),
                            match doc_ext {
                                Some(s) => Some(s@),
                                None => None,
                            },
                        ),
                    ) == Err::<Seq<OutcomeView>, _>(path@)
                },
            },
    {
        let ghost listing = wavs.deep_view();
        let ghost es = files_entries(self.files);
        let ghost pre = opt_str_view(self.prefix);
        let ghost suf = opt_str_view(self.suffix);
        let ghost eff = effective_ext(
            opt_str_view(self.file_extension),
            match doc_ext {
                Some(s) => Some(s@),
                None => None,
            },
        );
        let n_wavs = wavs.len();
        // One slot per listed file, defaulting to unaccounted.
        let mut blank: Vec<(RelPath, Outcome)> = Vec::new();
        let mut j: usize = 0;
        #[verifier::loop_isolation(false)]
        while j < n_wavs
            invariant
                j <= n_wavs,
                blank@.len() == j,
                forall|k: int|
                    0 <= k < j ==> (#[trigger] blank@[k]).0@ == listing[k] && blank@[k].1
                        is Unaccounted,
            decreases n_wavs - j,
        {
            blank.push((wavs[j].clone(), Outcome::Unaccounted));
            j = j + 1;
        }
        proof {
            assert(asn_of(blank@) =~= Seq::new(listing.len(), |k: int| None::<OutcomeView>));
        }
        match self.reconcile_pass(doc_ext, wavs, blank) {
            Err(e) => Err(e),
            Ok(out) => {
                proof {
                    let asn = asn_of(out@);
                    let os = reconcile_spec(listing, es, pre, suf, eff)->Ok_0;
                    assert forall|k: int| 0 <= k < out@.len() implies (#[trigger] out@[k]).1@
                        == os[k] by {
                        assert(os[k] == (match asn[k] {
                            Some(o) => o,
                            None => OutcomeView::Unaccounted,
                        }));
                    }
                }
                Ok(out)
            }
        }
    }
}

/// Whether a path names a WAV file.
pub open spec fn is_wav(p: Seq<char>) -> bool {
    extension_spec(p) == Some(seq!['w', 'a', 'v'])
}

/// The WAV paths of a listing, in order.
pub open spec fn wav_paths(l: Seq<Seq<char>>) -> Seq<Seq<char>>
    decreases l.len(),
{
    if l.len() == 0 {
        Seq::empty()
    } else {
        let rest = wav_paths(l.drop_last());
        if is_wav(l.last()) {
            rest.push(l.last())
        } else {
            rest
        }
    }
}

/// The non-WAV paths of a listing, in order.
pub open spec fn other_paths(l: Seq<Seq<char>>) -> Seq<Seq<char>>
    decreases l.len(),
{
    if l.len() == 0 {
        Seq::empty()
    } else {
        let rest = other_paths(l.drop_last());
        if is_wav(l.last()) {
            rest
        } else {
            rest.push(l.last())
        }
    }
}

/// Split a directory listing into its WAV files and the rest, each
/// in listing order.
pub fn split_listing(files: Vec<RelPath>) -> (r: (Vec<RelPath>, Vec<RelPath>))
    ensures
        r.0.deep_view() == wav_paths(files.deep_view()),
        r.1.deep_view() == other_paths(files.deep_view()),
{
    let ghost l = files.deep_view();
    let mut wavs: Vec<RelPath> = Vec::new();
    let mut others: Vec<RelPath> = Vec::new();
    let wav_ext: Vec<char> = vec!['w', 'a', 'v'];
    proof {
        assert(wav_ext@ =~= seq!['w', 'a', 'v']);
    }
    let n = files.len();
    let mut i: usize = 0;
    #[verifier::loop_isolation(false)]
    while i < n
        invariant
            i <= n,
            wav_ext@ == seq!['w', 'a', 'v'],
            wavs.deep_view() == wav_paths(l.take(i as int)),
            others.deep_view() == other_paths(l.take(i as int)),
        decreases n - i,
    {
        let p = &files[i];
        proof {
            assert(l.take(i + 1).drop_last() =~= l.take(i as int));
            assert(l.take(i + 1).last() == l[i as int]);
        }
        if p.has_extension(&wav_ext) {
            let ghost pre = wavs.deep_view();
            wavs.push(p.clone());
            proof {
                assert(wavs.deep_view() =~= pre.push(l[i as int]));
            }
        } else {
            let ghost pre = others.deep_view();
            others.push(p.clone());
            proof {
                assert(others.deep_view() =~= pre.push(l[i as int]));
            }
        }
        i = i + 1;
    }
    proof {
        assert(l.take(l.len() as int) =~= l);
    }
    (wavs, others)
}

/// A single task that can be executed: the source path relative to
/// the directory root, and the destination path relative to the
/// output root.
#[derive(Debug)]
pub enum Task {
    /// Copy a single file.
    Copy(RelPath, RelPath),
    /// Regular processing with replacements.
    Process(RelPath, RelPath, Vec<Replace>),
    /// Silent processing.
    Silence(RelPath, RelPath),
}

/// The mathematical content of a task.
#[verifier::ext_equal]
pub ghost enum TaskView {
    Copy(Seq<char>, Seq<char>),
    Process(Seq<char>, Seq<char>, Seq<ReplaceView>),
    Silence(Seq<char>, Seq<char>),
}

impl View for Task {
    type V = TaskView;

    open spec fn view(&self) -> TaskView {
        match self {
            Task::Copy(s, d) => TaskView::Copy(s@, d@),
            Task::Process(s, d, rs) => TaskView::Process(s@, d@, rs.deep_view()),
            Task::Silence(s, d) => TaskView::Silence(s@, d@),
        }
    }
}

impl DeepView for Task {
    type V = TaskView;

    open spec fn deep_view(&self) -> TaskView {
        self@
    }
}

/// The task for one reconciled file: its destination is its file
/// name, placed under the output root; a path without a file name is
/// the error.
pub open spec fn task_of(p: Seq<char>, o: OutcomeView) -> Result<TaskView, Seq<char>> {
    match file_name_spec(p) {
        None => Err(p),
        Some(name) => Ok(
            match o {
                OutcomeView::CopyClean => TaskView::Copy(p, name),
                OutcomeView::Process(rs) => TaskView::Process(p, name, rs),
                OutcomeView::SilencedMissing => TaskView::Silence(p, name),
                OutcomeView::Unaccounted => TaskView::Silence(p, name),
            },
        ),
    }
}

/// The tasks for the reconciled files, in order; the first path
/// without a file name aborts.
pub open spec fn tasks_of(os: Seq<(Seq<char>, OutcomeView)>) -> Result<Seq<TaskView>, Seq<char>>
    decreases os.len(),
{
    if os.len() == 0 {
        Ok(Seq::empty())
    } else {
        match tasks_of(os.drop_last()) {
            Err(p) => Err(p),
            Ok(ts) => match task_of(os.last().0, os.last().1) {
                Err(p) => Err(p),
                Ok(t) => Ok(ts.push(t)),
            },
        }
    }
}

/// The view of a reconciled outcome list.
pub open spec fn outcomes_view(out: Seq<(RelPath, Outcome)>) -> Seq<(Seq<char>, OutcomeView)> {
    Seq::new(out.len(), |j: int| (out[j].0@, out[j].1@))
}

/// Build one task per reconciled file.
pub fn tasks_for(outcomes: &Vec<(RelPath, Outcome)>) -> (r: Result<Vec<Task>, ReconcileError>)
    ensures
        match r {
            Ok(ts) => tasks_of(outcomes_view(outcomes@)) == Ok::<_, Seq<char>>(ts.deep_view()),
            Err(e) => {
                &&& e matches ReconcileError::NoFileName { path }
                &&& tasks_of(outcomes_view(outcomes@)) == Err::<Seq<TaskView>, _>(path@)
            },
        },
{
    let ghost ov = outcomes_view(outcomes@);
    let mut ts: Vec<Task> = Vec::new();
    proof {
        assert(ov.take(0) =~= Seq::<(Seq<char>, OutcomeView)>::empty());
        assert(ts.deep_view() =~= Seq::<TaskView>::empty());
    }
    let n = outcomes.len();
    let mut i: usize = 0;
    #[verifier::loop_isolation(false)]
    while i < n
        invariant
            i <= n,
            n == ov.len(),
            ov == outcomes_view(outcomes@),
            tasks_of(ov.take(i as int)) == Ok::<_, Seq<char>>(ts.deep_view()),
        decreases n - i,
    {
        let p = &outcomes[i].0;
        let name = match p.file_name() {
            Some(name) => name,
            None => {
                proof {
                    lemma_tasks_of_err_extends(ov, i as int);
                }
                return Err(ReconcileError::NoFileName { path: p.clone() });
            }
        };
        let dest = RelPath::from_chars(name);
        let t = match &outcomes[i].1 {
            Outcome::CopyClean => Task::Copy(p.clone(), dest),
            Outcome::Process(rs) => Task::Process(p.clone(), dest, clone_replaces(rs)),
            Outcome::SilencedMissing => Task::Silence(p.clone(), dest),
            Outcome::Unaccounted => Task::Silence(p.clone(), dest),
        };
        let ghost tv = t@;
        let ghost pre = ts.deep_view();
        ts.push(t);
        proof {
            assert(ts.deep_view() =~= pre.push(tv));
            assert(ov.take(i + 1).drop_last() =~= ov.take(i as int));
            assert(ov.take(i + 1).last() == ov[i as int]);
            assert(task_of(ov[i as int].0, ov[i as int].1) == Ok::<_, Seq<char>>(tv));
        }
        i = i + 1;
    }
    proof {
        assert(ov.take(ov.len() as int) =~= ov);
    }
    Ok(ts)
}

/// A failing prefix decides the whole task list.
proof fn lemma_tasks_of_err_extends(ov: Seq<(Seq<char>, OutcomeView)>, i: int)
    requires
        0 <= i < ov.len(),
        tasks_of(ov.take(i)) is Ok,
        task_of(ov[i].0, ov[i].1) matches Err(p),
    ensures
        tasks_of(ov) == Err::<Seq<TaskView>, Seq<char>>(task_of(ov[i].0, ov[i].1)->Err_0),
    decreases ov.len(),
{
    if ov.len() - 1 > i {
        assert(ov.drop_last().take(i) =~= ov.take(i));
        lemma_tasks_of_err_extends(ov.drop_last(), i);
    } else {
        assert(ov.take(i) =~= ov.drop_last());
    }
}

/// Whether a directory's reconciliation modified anything: true
/// exactly when some file is not a verbatim copy.
pub fn dir_modified(outcomes: &Vec<(RelPath, Outcome)>) -> (r: bool)
    ensures
        r == exists|j: int|
            0 <= j < outcomes@.len() && !((#[trigger] outcomes@[j]).1 is CopyClean),
{
    let n = outcomes.len();
    let mut i: usize = 0;
    #[verifier::loop_isolation(false)]
    while i < n
        invariant
            i <= n,
            forall|j: int| 0 <= j < i ==> (#[trigger] outcomes@[j]).1 is CopyClean,
        decreases n - i,
    {
        let clean = match &outcomes[i].1 {
            Outcome::CopyClean => true,
            _ => false,
        };
        if !clean {
            return true;
        }
        i = i + 1;
    }
    false
}

/// Whether a silence task should write its destination: an existing
/// destination is left untouched, so running the task twice writes
/// only once.
pub fn silence_should_write(dest_exists: bool) -> (r: bool)
    ensures
        r == !dest_exists,
{
    !dest_exists
}

/// Build the verbatim copy task for each non-WAV file: such a file
/// keeps its relative path under the output root.
pub fn copy_tasks(others: &Vec<RelPath>) -> (r: Vec<Task>)
    ensures
        r.deep_view() == Seq::new(
            others@.len(),
            |j: int| TaskView::Copy(others@[j]@, others@[j]@),
        ),
{
    let mut ts: Vec<Task> = Vec::new();
    let n = others.len();
    let mut i: usize = 0;
    #[verifier::loop_isolation(false)]
    while i < n
        invariant
            i <= n,
            ts.deep_view() =~= Seq::new(i as nat, |j: int| TaskView::Copy(others@[j]@, others@[j]@)),
        decreases n - i,
    {
        let t = Task::Copy(others[i].clone(), others[i].clone());
        let ghost tv = t@;
        let ghost pre = ts.deep_view();
        ts.push(t);
        proof {
            assert(ts.deep_view() =~= pre.push(tv));
            assert(ts.deep_view() =~= Seq::new(
                (i + 1) as nat,
                |j: int| TaskView::Copy(others@[j]@, others@[j]@),
            ));
        }
        i = i + 1;
    }
    ts
}

} // verus!
