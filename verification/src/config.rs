//! Models for a single configuration file: per-file censorship
//! entries, per-directory templating rules, and whole documents.

use crate::relpath::{copy_range, ends_with_chars, extension_spec, file_name_spec,
    file_stem_spec, lemma_path_le_antisym, lemma_path_le_refl, lemma_path_le_total,
    lemma_path_le_trans, path_le, path_le_exec, seq_ends_with, seq_starts_with,
    starts_with_chars, with_file_name_spec, RelPath};
use crate::replace::{clone_replaces, Replace, ReplaceView};
use crate::text::chars_of;
use crate::transcript::{Transcript, TranscriptView};
use vstd::multiset::Multiset;
use vstd::prelude::*;

verus! {

/// Why inserting a file into a configuration failed.
#[derive(Debug, Clone, Copy, PartialEq, Eq, Structural)]
pub enum ConfigError {
    /// The file's extension does not match the configured one.
    ExtensionMismatch,
    /// The file has no file name to strip a prefix or suffix from.
    NoFileName,
    /// The file name does not begin with the configured prefix.
    PrefixMismatch,
    /// The file name does not end with the configured suffix.
    SuffixMismatch,
}

/// One file entry of a configuration: the configured path, an
/// optional transcript, and explicit replacements.  An empty replace
/// list and no transcript mean the file is clean.
#[derive(Debug)]
pub struct ReplaceFile {
    pub path: RelPath,
    /// Transcript of the recording.
    pub transcript: Option<Transcript>,
    /// Replacements. If empty, file is clean.
    pub replace: Vec<Replace>,
}

/// The shape-independent content of one file entry.
#[verifier::ext_equal]
pub ghost struct FileEntryView {
    pub path: Seq<char>,
    pub replace: Seq<ReplaceView>,
    pub transcript: Option<TranscriptView>,
}

/// One file entry as iteration yields it.
#[derive(Debug)]
pub struct FileEntry {
    pub path: RelPath,
    pub replace: Vec<Replace>,
    pub transcript: Option<Transcript>,
}

impl View for FileEntry {
    type V = FileEntryView;

    open spec fn view(&self) -> FileEntryView {
        FileEntryView {
            path: self.path@,
            replace: self.replace.deep_view(),
            transcript: match self.transcript {
                Some(t) => Some(t@),
                None => None,
            },
        }
    }
}

impl DeepView for FileEntry {
    type V = FileEntryView;

    open spec fn deep_view(&self) -> FileEntryView {
        self@
    }
}

/// The content of a `ReplaceFile` entry.
pub open spec fn entry_of_file(rf: ReplaceFile) -> FileEntryView {
    FileEntryView {
        path: rf.path@,
        replace: rf.replace.deep_view(),
        transcript: match rf.transcript {
            Some(t) => Some(t@),
            None => None,
        },
    }
}

/// The content of one path-to-transcript binding.
pub open spec fn entry_of_pair(p: (RelPath, Transcript)) -> FileEntryView {
    FileEntryView { path: p.0@, replace: Seq::empty(), transcript: Some(p.1@) }
}

/// The entries of an explicit entry list, in order.
pub open spec fn list_entries(l: Seq<ReplaceFile>) -> Seq<FileEntryView>
    decreases l.len(),
{
    if l.len() == 0 {
        Seq::empty()
    } else {
        list_entries(l.drop_last()).push(entry_of_file(l.last()))
    }
}

/// The entries of an ordered path-to-transcript mapping, in order.
pub open spec fn map_entries(m: Seq<(RelPath, Transcript)>) -> Seq<FileEntryView>
    decreases m.len(),
{
    if m.len() == 0 {
        Seq::empty()
    } else {
        map_entries(m.drop_last()).push(entry_of_pair(m.last()))
    }
}

/// The entries of a list of mappings, mapping by mapping.
pub open spec fn maps_entries(l: Seq<Vec<(RelPath, Transcript)>>) -> Seq<FileEntryView>
    decreases l.len(),
{
    if l.len() == 0 {
        Seq::empty()
    } else {
        maps_entries(l.drop_last()) + map_entries(l.last()@)
    }
}

/// A directory's file list, accepted in three interchangeable
/// shapes: an ordered entry list, an ordered path-to-transcript
/// mapping, or a list of such mappings.  All three expose one logical
/// sequence of entries.  A mapping is expected with distinct paths,
/// as an ordered map holds them; insertion preserves that
/// (`lemma_mapping_insert_distinct`).
#[derive(Debug)]
pub enum Files {
    List(Vec<ReplaceFile>),
    Mapping(Vec<(RelPath, Transcript)>),
    ListOfMappings(Vec<Vec<(RelPath, Transcript)>>),
}

/// The one logical entry sequence a file list denotes.
pub open spec fn files_entries(f: Files) -> Seq<FileEntryView> {
    match f {
        Files::List(l) => list_entries(l@),
        Files::Mapping(m) => map_entries(m@),
        Files::ListOfMappings(l) => maps_entries(l@),
    }
}

/// A list of mappings denotes no entries exactly when every mapping
/// is empty.
proof fn lemma_maps_entries_empty(l: Seq<Vec<(RelPath, Transcript)>>)
    ensures
        (maps_entries(l).len() == 0) <==> (forall|i: int|
            0 <= i < l.len() ==> (#[trigger] l[i])@.len() == 0),
    decreases l.len(),
{
    if l.len() > 0 {
        let dl = l.drop_last();
        lemma_maps_entries_empty(dl);
        lemma_map_entries_len(l.last()@);
        if maps_entries(l).len() == 0 {
            assert forall|i: int| 0 <= i < l.len() implies (#[trigger] l[i])@.len() == 0 by {
                if i < l.len() - 1 {
                    assert(l[i] == dl[i]);
                } else {
                    assert(l[i] == l.last());
                }
            }
        }
        if forall|i: int| 0 <= i < l.len() ==> (#[trigger] l[i])@.len() == 0 {
            assert forall|i: int| 0 <= i < dl.len() implies (#[trigger] dl[i])@.len() == 0 by {
                assert(dl[i] == l[i]);
            }
            assert(l.last() == l[l.len() - 1]);
            assert(maps_entries(l).len() == 0);
        }
    }
}

/// A mapping denotes exactly one entry per binding.
proof fn lemma_map_entries_len(m: Seq<(RelPath, Transcript)>)
    ensures
        map_entries(m).len() == m.len(),
    decreases m.len(),
{
    if m.len() > 0 {
        lemma_map_entries_len(m.drop_last());
    }
}

impl Files {
    /// Check if empty.
    pub fn is_empty(&self) -> (r: bool)
        ensures
            r == (files_entries(*self).len() == 0),
    {
        match self {
            Files::List(l) => {
                proof {
                    lemma_list_entries_len(l@);
                }
                l.len() == 0
            }
            Files::Mapping(m) => {
                proof {
                    lemma_map_entries_len(m@);
                }
                m.len() == 0
            }
            Files::ListOfMappings(l) => {
                proof {
                    lemma_maps_entries_empty(l@);
                }
                let mut i: usize = 0;
                let mut all_empty = true;
                #[verifier::loop_isolation(false)]
                while i < l.len()
                    invariant
                        i <= l@.len(),
                        all_empty == (forall|j: int|
                            0 <= j < i ==> (#[trigger] l@[j])@.len() == 0),
                    decreases l@.len() - i,
                {
                    if l[i].len() != 0 {
                        all_empty = false;
                    }
                    i = i + 1;
                }
                all_empty
            }
        }
    }

    /// Iterate over all files: the entries of the list, in order.
    pub fn iter(&self) -> (r: Vec<FileEntry>)
        ensures
            r.deep_view() == files_entries(*self),
    {
        match self {
            Files::List(l) => {
                let mut out: Vec<FileEntry> = Vec::new();
                let mut i: usize = 0;
                #[verifier::loop_isolation(false)]
                while i < l.len()
                    invariant
                        i <= l@.len(),
                        out.deep_view() == list_entries(l@.take(i as int)),
                    decreases l@.len() - i,
                {
                    let rf = &l[i];
                    out.push(clone_entry_of_file(rf));
                    proof {
                        assert(l@.take(i + 1).drop_last() =~= l@.take(i as int));
                        assert(l@.take(i + 1).last() == l@[i as int]);
                        assert(out.deep_view() =~= list_entries(l@.take(i + 1)));
                    }
                    i = i + 1;
                }
                proof {
                    assert(l@.take(l@.len() as int) =~= l@);
                }
                out
            }
            Files::Mapping(m) => {
                let mut out: Vec<FileEntry> = Vec::new();
                let mut i: usize = 0;
                #[verifier::loop_isolation(false)]
                while i < m.len()
                    invariant
                        i <= m@.len(),
                        out.deep_view() == map_entries(m@.take(i as int)),
                    decreases m@.len() - i,
                {
                    out.push(clone_entry_of_pair(&m[i]));
                    proof {
                        assert(m@.take(i + 1).drop_last() =~= m@.take(i as int));
                        assert(m@.take(i + 1).last() == m@[i as int]);
                        assert(out.deep_view() =~= map_entries(m@.take(i + 1)));
                    }
                    i = i + 1;
                }
                proof {
                    assert(m@.take(m@.len() as int) =~= m@);
                }
                out
            }
            Files::ListOfMappings(l) => {
                let mut out: Vec<FileEntry> = Vec::new();
                let mut i: usize = 0;
                #[verifier::loop_isolation(false)]
                while i < l.len()
                    invariant
                        i <= l@.len(),
                        out.deep_view() == maps_entries(l@.take(i as int)),
                    decreases l@.len() - i,
                {
                    let m = &l[i];
                    let mut j: usize = 0;
                    #[verifier::loop_isolation(false)]
                    while j < m.len()
                        invariant
                            j <= m@.len(),
                            out.deep_view() == maps_entries(l@.take(i as int)) + map_entries(
                                m@.take(j as int),
                            ),
                        decreases m@.len() - j,
                    {
                        let ghost pre = out.deep_view();
                        let e = clone_entry_of_pair(&m[j]);
                        let ghost ev = e@;
                        out.push(e);
                        proof {
                            assert(out.deep_view() =~= pre.push(ev));
                            assert(m@.take(j + 1).drop_last() =~= m@.take(j as int));
                            assert(m@.take(j + 1).last() == m@[j as int]);
                            assert(map_entries(m@.take(j + 1)) == map_entries(
                                m@.take(j as int),
                            ).push(entry_of_pair(m@[j as int])));
                            assert(out.deep_view() =~= maps_entries(l@.take(i as int))
                                + map_entries(m@.take(j + 1)));
                        }
                        j = j + 1;
                    }
                    proof {
                        assert(l@.take(i + 1).drop_last() =~= l@.take(i as int));
                        assert(l@.take(i + 1).last() == l@[i as int]);
                        assert(m@.take(m@.len() as int) =~= m@);
                        assert(out.deep_view() =~= maps_entries(l@.take(i + 1)));
                    }
                    i = i + 1;
                }
                proof {
                    assert(l@.take(l@.len() as int) =~= l@);
                }
                out
            }
        }
    }
}

/// An entry list denotes exactly one entry per element.
proof fn lemma_list_entries_len(l: Seq<ReplaceFile>)
    ensures
        list_entries(l).len() == l.len(),
    decreases l.len(),
{
    if l.len() > 0 {
        lemma_list_entries_len(l.drop_last());
    }
}

/// Copy one explicit entry into iteration form.
fn clone_entry_of_file(rf: &ReplaceFile) -> (r: FileEntry)
    ensures
        r@ == entry_of_file(*rf),
{
    let r = FileEntry {
        path: rf.path.clone(),
        replace: clone_replaces(&rf.replace),
        transcript: match &rf.transcript {
            Some(t) => Some(t.clone()),
            None => None,
        },
    };
    proof {
        assert(r@ =~= entry_of_file(*rf));
    }
    r
}

/// Copy one path-to-transcript binding into iteration form.
fn clone_entry_of_pair(p: &(RelPath, Transcript)) -> (r: FileEntry)
    ensures
        r@ == entry_of_pair(*p),
{
    let r = FileEntry { path: p.0.clone(), replace: Vec::new(), transcript: Some(p.1.clone()) };
    proof {
        assert(r@ =~= entry_of_pair(*p));
    }
    r
}

/// First index among `es` whose entry is for path `p`.
pub open spec fn first_entry_with_path(es: Seq<FileEntryView>, p: Seq<char>) -> Option<int>
    decreases es.len(),
{
    if es.len() == 0 {
        None
    } else if es[0].path == p {
        Some(0)
    } else {
        match first_entry_with_path(es.drop_first(), p) {
            Some(j) => Some(j + 1),
            None => None,
        }
    }
}

/// What `first_entry_with_path` promises of its result.
pub proof fn lemma_first_entry_with_path(es: Seq<FileEntryView>, p: Seq<char>)
    ensures
        match first_entry_with_path(es, p) {
            Some(j) => 0 <= j < es.len() && es[j].path == p && forall|k: int|
                0 <= k < j ==> es[k].path != p,
            None => forall|k: int| 0 <= k < es.len() ==> es[k].path != p,
        },
    decreases es.len(),
{
    if es.len() > 0 {
        lemma_first_entry_with_path(es.drop_first(), p);
        assert forall|k: int| 1 <= k < es.len() implies #[trigger] es[k] == es.drop_first()[k
            - 1] by {}
    }
}

/// What inserting a transcript for a path yields, over the entry
/// sequence: a mapping replaces the first entry for the same path in
/// place, every other shape appends; an appended or replacing entry
/// carries the transcript and no explicit replacements.
pub open spec fn insert_entries_spec(f: Files, p: Seq<char>, t: TranscriptView) -> Seq<
    FileEntryView,
> {
    let es = files_entries(f);
    let e = FileEntryView { path: p, replace: Seq::empty(), transcript: Some(t) };
    match f {
        Files::Mapping(_) => match first_entry_with_path(es, p) {
            Some(j) => es.update(j, e),
            None => es.push(e),
        },
        _ => es.push(e),
    }
}

/// Whether no two entries are for the same path.
pub open spec fn distinct_entry_paths(es: Seq<FileEntryView>) -> bool {
    forall|i: int, j: int|
        0 <= i < j < es.len() ==> (#[trigger] es[i]).path != (#[trigger] es[j]).path
}

/// Inserting into the mapping shape keeps entry paths distinct, as an
/// ordered map's keys are: an existing path is replaced in place, a
/// new path is appended once.
pub proof fn lemma_mapping_insert_distinct(f: Files, p: Seq<char>, t: TranscriptView)
    requires
        f is Mapping,
        distinct_entry_paths(files_entries(f)),
    ensures
        distinct_entry_paths(insert_entries_spec(f, p, t)),
{
    let es = files_entries(f);
    lemma_first_entry_with_path(es, p);
    let out = insert_entries_spec(f, p, t);
    match first_entry_with_path(es, p) {
        Some(j) => {
            assert forall|a: int, b: int| 0 <= a < b < out.len() implies (
            #[trigger] out[a]).path != (#[trigger] out[b]).path by {
                assert(out[a] == if a == j {
                    out[j]
                } else {
                    es[a]
                });
                assert(out[b] == if b == j {
                    out[j]
                } else {
                    es[b]
                });
                assert(out[j].path == es[j].path);
            }
        }
        None => {
            assert forall|a: int, b: int| 0 <= a < b < out.len() implies (
            #[trigger] out[a]).path != (#[trigger] out[b]).path by {
                if b < es.len() {
                    assert(out[a] == es[a] && out[b] == es[b]);
                } else {
                    assert(out[b].path == p);
                }
            }
        }
    }
}

/// Each entry of a mapping comes from the binding at the same index.
proof fn lemma_map_entries_index(m: Seq<(RelPath, Transcript)>, k: int)
    requires
        0 <= k < m.len(),
    ensures
        map_entries(m).len() == m.len(),
        map_entries(m)[k] == entry_of_pair(m[k]),
    decreases m.len(),
{
    lemma_map_entries_len(m);
    if k < m.len() - 1 {
        lemma_map_entries_index(m.drop_last(), k);
    }
}

impl Files {
    /// Insert the given transcript for the specified path.
    pub(crate) fn insert(&mut self, path: RelPath, transcript: Transcript)
        ensures
            files_entries(*final(self)) == insert_entries_spec(
                *old(self),
                path@,
                transcript@,
            ),
            (*final(self) is List) == (*old(self) is List),
            (*final(self) is Mapping) == (*old(self) is Mapping),
            (*final(self) is ListOfMappings) == (*old(self) is ListOfMappings),
    {
        let ghost e = FileEntryView {
            path: path@,
            replace: Seq::<ReplaceView>::empty(),
            transcript: Some(transcript@),
        };
        match self {
            Files::List(l) => {
                let ghost l0 = l@;
                l.push(ReplaceFile { path, transcript: Some(transcript), replace: Vec::new() });
                proof {
                    assert(l@.drop_last() =~= l0);
                    assert(entry_of_file(l@.last()) =~= e);
                    assert(list_entries(l@) =~= list_entries(l0).push(e));
                }
            }
            Files::Mapping(m) => {
                let ghost m0 = m@;
                proof {
                    lemma_first_entry_with_path(map_entries(m0), path@);
                }
                let n = m.len();
                let mut i: usize = 0;
                #[verifier::loop_isolation(false)]
                while i < n
                    invariant
                        i <= n,
                        n == m@.len(),
                        m@ == m0,
                        forall|k: int|
                            0 <= k < i ==> (#[trigger] m0[k]).0@ != path@,
                    decreases n - i,
                {
                    proof {
                        lemma_map_entries_index(m0, i as int);
                    }
                    if m[i].0.eq_path(&path) {
                        m.set(i, (path, transcript));
                        proof {
                            assert forall|k: int| 0 <= k < i implies (#[trigger] map_entries(
                                m0,
                            )[k]).path != path@ by {
                                lemma_map_entries_index(m0, k);
                            }
                            assert(map_entries(m0)[i as int].path == path@);
                            assert(first_entry_with_path(map_entries(m0), path@) == Some(
                                i as int,
                            ));
                            assert forall|k: int| 0 <= k < m@.len() implies map_entries(
                                m@,
                            )[k] == map_entries(m0).update(i as int, e)[k] by {
                                lemma_map_entries_index(m@, k);
                                lemma_map_entries_index(m0, k);
                            }
                            lemma_map_entries_len(m@);
                            lemma_map_entries_len(m0);
                            assert(map_entries(m@) =~= map_entries(m0).update(i as int, e));
                        }
                        return;
                    }
                    proof {
                        assert(map_entries(m0)[i as int] == entry_of_pair(m0[i as int]));
                    }
                    i = i + 1;
                }
                let ghost mpre = m@;
                m.push((path, transcript));
                proof {
                    lemma_map_entries_len(m0);
                    assert forall|k: int| 0 <= k < map_entries(m0).len() implies (
                    #[trigger] map_entries(m0)[k]).path != path@ by {
                        lemma_map_entries_index(m0, k);
                    }
                    assert(first_entry_with_path(map_entries(m0), path@) is None);
                    assert(m@.drop_last() =~= m0);
                    assert(entry_of_pair(m@.last()) =~= e);
                    assert(map_entries(m@) =~= map_entries(m0).push(e));
                }
            }
            Files::ListOfMappings(l) => {
                let ghost l0 = l@;
                let mut single: Vec<(RelPath, Transcript)> = Vec::new();
                single.push((path, transcript));
                l.push(single);
                proof {
                    assert(l@.drop_last() =~= l0);
                    assert(map_entries(l@.last()@.drop_last()) =~= Seq::<FileEntryView>::empty());
                    assert(map_entries(l@.last()@) =~= seq![e]);
                    assert(maps_entries(l@) =~= maps_entries(l0).push(e));
                }
            }
        }
    }
}

impl Default for Files {
    /// An empty file list in the legacy list-of-mappings shape.
    fn default() -> (r: Self)
        ensures
            files_entries(r).len() == 0,
            r is ListOfMappings,
    {
        Files::ListOfMappings(Vec::new())
    }
}

/// The view of an optional text field.
pub open spec fn opt_str_view(o: Option<String>) -> Option<Seq<char>> {
    match o {
        Some(s) => Some(s@),
        None => None,
    }
}

/// Whether a directory's templating rules accept the given path: its
/// file stem must carry the configured prefix and suffix, and its
/// extension must match the configured one.
pub open spec fn dir_contains_spec(
    prefix: Option<Seq<char>>,
    suffix: Option<Seq<char>>,
    ext: Option<Seq<char>>,
    p: Seq<char>,
) -> bool {
    match file_stem_spec(p) {
        None => false,
        Some(stem) => {
            &&& match prefix {
                Some(pre) => seq_starts_with(stem, pre),
                None => true,
            }
            &&& match suffix {
                Some(suf) => seq_ends_with(stem, suf),
                None => true,
            }
            &&& match ext {
                Some(e) => extension_spec(p) == Some(e),
                None => true,
            }
        }
    }
}

/// The extension a directory asks for: its own, or the document-wide
/// default.
pub open spec fn effective_ext(own: Option<Seq<char>>, doc: Option<Seq<char>>) -> Option<
    Seq<char>,
> {
    match own {
        Some(e) => Some(e),
        None => doc,
    }
}

/// Strip the expected extension from a configured file: the file must
/// carry exactly the effective extension, which is then removed.
pub open spec fn strip_ext_step(file: Seq<char>, eff: Option<Seq<char>>) -> Result<
    Seq<char>,
    ConfigError,
> {
    match eff {
        None => Ok(file),
        Some(e) => if extension_spec(file) != Some(e) {
            Err(ConfigError::ExtensionMismatch)
        } else {
            match file_stem_spec(file) {
                Some(stem) => Ok(with_file_name_spec(file, stem)),
                None => Ok(file),
            }
        },
    }
}

/// Strip the configured prefix from the file name.
pub open spec fn strip_prefix_step(file: Seq<char>, prefix: Option<Seq<char>>) -> Result<
    Seq<char>,
    ConfigError,
> {
    match prefix {
        None => Ok(file),
        Some(pre) => match file_name_spec(file) {
            None => Err(ConfigError::NoFileName),
            Some(name) => if !seq_starts_with(name, pre) {
                Err(ConfigError::PrefixMismatch)
            } else {
                Ok(with_file_name_spec(file, name.skip(pre.len() as int)))
            },
        },
    }
}

/// Strip the configured suffix from the file name.
pub open spec fn strip_suffix_step(file: Seq<char>, suffix: Option<Seq<char>>) -> Result<
    Seq<char>,
    ConfigError,
> {
    match suffix {
        None => Ok(file),
        Some(suf) => match file_name_spec(file) {
            None => Err(ConfigError::NoFileName),
            Some(name) => if !seq_ends_with(name, suf) {
                Err(ConfigError::SuffixMismatch)
            } else {
                Ok(with_file_name_spec(file, name.take(name.len() - suf.len())))
            },
        },
    }
}

/// What ingesting a discovered physical file into a configuration
/// entry yields: the effective extension, the prefix and the suffix
/// are stripped in that order, each failing if the name does not
/// carry it.
pub open spec fn strip_file_spec(
    file: Seq<char>,
    eff: Option<Seq<char>>,
    prefix: Option<Seq<char>>,
    suffix: Option<Seq<char>>,
) -> Result<Seq<char>, ConfigError> {
    match strip_ext_step(file, eff) {
        Err(e) => Err(e),
        Ok(f1) => match strip_prefix_step(f1, prefix) {
            Err(e) => Err(e),
            Ok(f2) => strip_suffix_step(f2, suffix),
        },
    }
}

/// One physical directory's templating rules plus its files.
#[derive(Debug)]
pub struct ReplaceDir {
    pub path: RelPath,
    pub prefix: Option<String>,
    pub suffix: Option<String>,
    pub file_extension: Option<String>,
    pub files: Files,
}

/// How inserting a file changed one directory: the templating fields
/// are untouched; on success the stripped path was inserted into the
/// file list, on failure the list is unchanged and the error is the
/// stripping error.
pub open spec fn dir_insert_effect(
    old_d: ReplaceDir,
    new_d: ReplaceDir,
    doc_ext: Option<Seq<char>>,
    file: Seq<char>,
    t: TranscriptView,
    r: Result<(), ConfigError>,
) -> bool {
    let eff = effective_ext(opt_str_view(old_d.file_extension), doc_ext);
    let pre = opt_str_view(old_d.prefix);
    let suf = opt_str_view(old_d.suffix);
    &&& new_d.path@ == old_d.path@
    &&& opt_str_view(new_d.prefix) == pre
    &&& opt_str_view(new_d.suffix) == suf
    &&& opt_str_view(new_d.file_extension) == opt_str_view(old_d.file_extension)
    &&& (new_d.files is List) == (old_d.files is List)
    &&& (new_d.files is Mapping) == (old_d.files is Mapping)
    &&& (new_d.files is ListOfMappings) == (old_d.files is ListOfMappings)
    &&& match r {
        Ok(_) => {
            &&& strip_file_spec(file, eff, pre, suf) matches Ok(q)
            &&& files_entries(new_d.files) == insert_entries_spec(
                old_d.files,
                strip_file_spec(file, eff, pre, suf)->Ok_0,
                t,
            )
        },
        Err(e) => {
            &&& strip_file_spec(file, eff, pre, suf) == Err::<Seq<char>, _>(e)
            &&& new_d == old_d
        },
    }
}

impl ReplaceDir {
    /// Construct a new replacement for the given directory.
    pub fn new(path: RelPath) -> (r: Self)
        ensures
            r.path@ == path@,
            r.prefix is None,
            r.suffix is None,
            r.file_extension is None,
            files_entries(r.files).len() == 0,
    {
        ReplaceDir {
            path,
            prefix: None,
            suffix: None,
            file_extension: None,
            files: Files::List(Vec::new()),
        }
    }

    /// Test if the dir contains the given path.
    pub fn contains(&self, path: &RelPath) -> (r: bool)
        ensures
            r == dir_contains_spec(
                opt_str_view(self.prefix),
                opt_str_view(self.suffix),
                opt_str_view(self.file_extension),
                path@,
            ),
    {
        let stem = match path.file_stem() {
            Some(stem) => stem,
            None => {
                return false;
            }
        };
        match &self.prefix {
            Some(pre) => {
                let pre_chars = chars_of(pre.as_str());
                if !starts_with_chars(&stem, &pre_chars) {
                    return false;
                }
            }
            None => {}
        }
        match &self.suffix {
            Some(suf) => {
                let suf_chars = chars_of(suf.as_str());
                if !ends_with_chars(&stem, &suf_chars) {
                    return false;
                }
            }
            None => {}
        }
        match &self.file_extension {
            Some(e) => {
                let e_chars = chars_of(e.as_str());
                if !path.has_extension(&e_chars) {
                    return false;
                }
            }
            None => {}
        }
        true
    }

    /// Insert the given file into the configuration.
    pub fn insert_file(
        &mut self,
        file_extension: Option<&str>,
        file: RelPath,
        transcript: Transcript,
    ) -> (r: Result<(), ConfigError>)
        ensures
            dir_insert_effect(
                *old(self),
                *final(self),
                match file_extension {
                    Some(s) => Some(s@),
                    None => None,
                },
                file@,
                transcript@,
                r,
            ),
    {
        let mut file = file;
        // Extension step.
        let have_eff: bool = match (&self.file_extension, &file_extension) {
            (Some(_), _) => true,
            (None, Some(_)) => true,
            (None, None) => false,
        };
        if have_eff {
            let eff_chars: Vec<char> = match &self.file_extension {
                Some(e) => chars_of(e.as_str()),
                None => match &file_extension {
                    Some(e) => chars_of(e),
                    None => Vec::new(),
                },
            };
            if !file.has_extension(&eff_chars) {
                return Err(ConfigError::ExtensionMismatch);
            }
            match file.file_stem() {
                Some(stem) => {
                    file = file.with_file_name(&stem);
                }
                None => {}
            }
        }
        // Prefix step.
        match &self.prefix {
            Some(pre) => {
                let pre_chars = chars_of(pre.as_str());
                match file.file_name() {
                    None => {
                        return Err(ConfigError::NoFileName);
                    }
                    Some(name) => {
                        if !starts_with_chars(&name, &pre_chars) {
                            return Err(ConfigError::PrefixMismatch);
                        }
                        let rest = copy_range(&name, pre_chars.len(), name.len());
                        file = file.with_file_name(&rest);
                    }
                }
            }
            None => {}
        }
        // Suffix step.
        match &self.suffix {
            Some(suf) => {
                let suf_chars = chars_of(suf.as_str());
                match file.file_name() {
                    None => {
                        return Err(ConfigError::NoFileName);
                    }
                    Some(name) => {
                        if !ends_with_chars(&name, &suf_chars) {
                            return Err(ConfigError::SuffixMismatch);
                        }
                        let rest = copy_range(&name, 0, name.len() - suf_chars.len());
                        file = file.with_file_name(&rest);
                    }
                }
            }
            None => {}
        }
        self.files.insert(file, transcript);
        Ok(())
    }
}

/// First directory that matches the given directory path and accepts
/// the file.
pub open spec fn find_dir_spec(ds: Seq<ReplaceDir>, dp: Seq<char>, file: Seq<char>) -> Option<
    int,
>
    decreases ds.len(),
{
    if ds.len() == 0 {
        None
    } else if ds[0].path@ == dp && dir_contains_spec(
        opt_str_view(ds[0].prefix),
        opt_str_view(ds[0].suffix),
        opt_str_view(ds[0].file_extension),
        file,
    ) {
        Some(0)
    } else {
        match find_dir_spec(ds.drop_first(), dp, file) {
            Some(j) => Some(j + 1),
            None => None,
        }
    }
}

/// What `find_dir_spec` promises of its result.
proof fn lemma_find_dir_spec(ds: Seq<ReplaceDir>, dp: Seq<char>, file: Seq<char>)
    ensures
        match find_dir_spec(ds, dp, file) {
            Some(j) => 0 <= j < ds.len() && ds[j].path@ == dp && dir_contains_spec(
                opt_str_view(ds[j].prefix),
                opt_str_view(ds[j].suffix),
                opt_str_view(ds[j].file_extension),
                file,
            ) && forall|k: int|
                0 <= k < j ==> !((#[trigger] ds[k]).path@ == dp && dir_contains_spec(
                    opt_str_view(ds[k].prefix),
                    opt_str_view(ds[k].suffix),
                    opt_str_view(ds[k].file_extension),
                    file,
                )),
            None => forall|k: int|
                0 <= k < ds.len() ==> !((#[trigger] ds[k]).path@ == dp && dir_contains_spec(
                    opt_str_view(ds[k].prefix),
                    opt_str_view(ds[k].suffix),
                    opt_str_view(ds[k].file_extension),
                    file,
                )),
        },
    decreases ds.len(),
{
    if ds.len() > 0 {
        lemma_find_dir_spec(ds.drop_first(), dp, file);
        assert forall|k: int| 1 <= k < ds.len() implies #[trigger] ds[k] == ds.drop_first()[k
            - 1] by {}
    }
}

/// Order on optional text: an absent value comes first, present
/// values compare by code point.
pub open spec fn opt_path_le(a: Option<Seq<char>>, b: Option<Seq<char>>) -> bool {
    match (a, b) {
        (None, _) => true,
        (Some(_), None) => false,
        (Some(x), Some(y)) => path_le(x, y),
    }
}

/// The configured order on directories: by path, then prefix, then
/// suffix, then file extension.  The file lists play no part, so the
/// order is not total over whole directories; a sort by it must say
/// what happens to directories equal in all four fields.
pub open spec fn dir_le(a: ReplaceDir, b: ReplaceDir) -> bool {
    if a.path@ != b.path@ {
        path_le(a.path@, b.path@)
    } else if opt_str_view(a.prefix) != opt_str_view(b.prefix) {
        opt_path_le(opt_str_view(a.prefix), opt_str_view(b.prefix))
    } else if opt_str_view(a.suffix) != opt_str_view(b.suffix) {
        opt_path_le(opt_str_view(a.suffix), opt_str_view(b.suffix))
    } else {
        opt_path_le(opt_str_view(a.file_extension), opt_str_view(b.file_extension))
    }
}

/// Totality, antisymmetry and transitivity of the code-point order,
/// in one implication form.
proof fn lemma_path_props(x: Seq<char>, y: Seq<char>, z: Seq<char>)
    ensures
        path_le(x, x),
        path_le(x, y) || path_le(y, x),
        path_le(x, y) && path_le(y, x) ==> x == y,
        path_le(x, y) && path_le(y, z) ==> path_le(x, z),
{
    lemma_path_le_refl(x);
    lemma_path_le_total(x, y);
    if path_le(x, y) && path_le(y, x) {
        lemma_path_le_antisym(x, y);
    }
    if path_le(x, y) && path_le(y, z) {
        lemma_path_le_trans(x, y, z);
    }
}

/// The same properties for optional text.
proof fn lemma_opt_path_props(x: Option<Seq<char>>, y: Option<Seq<char>>, z: Option<Seq<char>>)
    ensures
        opt_path_le(x, x),
        opt_path_le(x, y) || opt_path_le(y, x),
        opt_path_le(x, y) && opt_path_le(y, x) ==> x == y,
        opt_path_le(x, y) && opt_path_le(y, z) ==> opt_path_le(x, z),
{
    match (x, y, z) {
        (Some(a), Some(b), Some(c)) => lemma_path_props(a, b, c),
        (Some(a), Some(b), _) => lemma_path_props(a, b, b),
        (Some(a), _, _) => lemma_path_props(a, a, a),
        _ => (),
    }
}

/// The directory order is reflexive and total.
proof fn lemma_dir_le_total(a: ReplaceDir, b: ReplaceDir)
    ensures
        dir_le(a, a),
        dir_le(a, b) || dir_le(b, a),
{
    lemma_path_props(a.path@, b.path@, b.path@);
    lemma_opt_path_props(
        opt_str_view(a.prefix),
        opt_str_view(b.prefix),
        opt_str_view(b.prefix),
    );
    lemma_opt_path_props(
        opt_str_view(a.suffix),
        opt_str_view(b.suffix),
        opt_str_view(b.suffix),
    );
    lemma_opt_path_props(
        opt_str_view(a.file_extension),
        opt_str_view(b.file_extension),
        opt_str_view(b.file_extension),
    );
}

/// The directory order is transitive.
proof fn lemma_dir_le_trans(a: ReplaceDir, b: ReplaceDir, c: ReplaceDir)
    requires
        dir_le(a, b),
        dir_le(b, c),
    ensures
        dir_le(a, c),
{
    lemma_path_props(a.path@, b.path@, c.path@);
    lemma_path_props(b.path@, a.path@, c.path@);
    lemma_path_props(a.path@, c.path@, b.path@);
    lemma_opt_path_props(
        opt_str_view(a.prefix),
        opt_str_view(b.prefix),
        opt_str_view(c.prefix),
    );
    lemma_opt_path_props(
        opt_str_view(b.prefix),
        opt_str_view(a.prefix),
        opt_str_view(c.prefix),
    );
    lemma_opt_path_props(
        opt_str_view(a.prefix),
        opt_str_view(c.prefix),
        opt_str_view(b.prefix),
    );
    lemma_opt_path_props(
        opt_str_view(a.suffix),
        opt_str_view(b.suffix),
        opt_str_view(c.suffix),
    );
    lemma_opt_path_props(
        opt_str_view(b.suffix),
        opt_str_view(a.suffix),
        opt_str_view(c.suffix),
    );
    lemma_opt_path_props(
        opt_str_view(a.suffix),
        opt_str_view(c.suffix),
        opt_str_view(b.suffix),
    );
    lemma_opt_path_props(
        opt_str_view(a.file_extension),
        opt_str_view(b.file_extension),
        opt_str_view(c.file_extension),
    );
}

/// Directories ordered both ways agree with every third directory:
/// their four ordering fields coincide.
proof fn lemma_dir_le_equiv(a: ReplaceDir, b: ReplaceDir, c: ReplaceDir)
    requires
        dir_le(a, b),
        dir_le(b, a),
    ensures
        dir_le(a, c) == dir_le(b, c),
        dir_le(c, a) == dir_le(c, b),
{
    lemma_path_props(a.path@, b.path@, b.path@);
    lemma_opt_path_props(
        opt_str_view(a.prefix),
        opt_str_view(b.prefix),
        opt_str_view(b.prefix),
    );
    lemma_opt_path_props(
        opt_str_view(a.suffix),
        opt_str_view(b.suffix),
        opt_str_view(b.suffix),
    );
    lemma_opt_path_props(
        opt_str_view(a.file_extension),
        opt_str_view(b.file_extension),
        opt_str_view(b.file_extension),
    );
}

/// Whether a directory sequence is sorted by the configured order.
pub open spec fn sorted_dirs(ds: Seq<ReplaceDir>) -> bool {
    forall|i: int, j: int|
        0 <= i < j < ds.len() ==> dir_le(#[trigger] ds[i], #[trigger] ds[j])
}

/// First index among `ds` that is least in the configured order: the
/// head when it is at or before the least of the rest, the rest's
/// first least otherwise.
pub open spec fn min_dir_index(ds: Seq<ReplaceDir>) -> int
    decreases ds.len(),
{
    if ds.len() <= 1 {
        0
    } else {
        let r = 1 + min_dir_index(ds.drop_first());
        if dir_le(ds[0], ds[r]) {
            0
        } else {
            r
        }
    }
}

/// What `min_dir_index` promises: a least directory, at its first
/// occurrence.
proof fn lemma_min_dir_index(ds: Seq<ReplaceDir>)
    requires
        ds.len() > 0,
    ensures
        0 <= min_dir_index(ds) < ds.len(),
        forall|q: int|
            0 <= q < ds.len() ==> dir_le(ds[min_dir_index(ds)], #[trigger] ds[q]),
        forall|q: int|
            0 <= q < min_dir_index(ds) ==> !dir_le(#[trigger] ds[q], ds[min_dir_index(ds)]),
    decreases ds.len(),
{
    if ds.len() == 1 {
        lemma_dir_le_total(ds[0], ds[0]);
    } else {
        let sub = ds.drop_first();
        lemma_min_dir_index(sub);
        let r = 1 + min_dir_index(sub);
        assert forall|k: int| 1 <= k < ds.len() implies #[trigger] ds[k] == sub[k - 1] by {}
        lemma_dir_le_total(ds[0], ds[r]);
        if dir_le(ds[0], ds[r]) {
            assert forall|q: int| 0 <= q < ds.len() implies dir_le(
                ds[0],
                #[trigger] ds[q],
            ) by {
                if q >= 1 {
                    lemma_dir_le_trans(ds[0], ds[r], ds[q]);
                }
            }
        }
    }
}

/// The directories in stable configured order: at each step the first
/// least directory comes out, so directories equal in all four
/// ordering fields keep their relative order.
pub open spec fn sort_dirs_spec(ds: Seq<ReplaceDir>) -> Seq<ReplaceDir>
    decreases ds.len(),
    via sort_dirs_spec_decreases
{
    if ds.len() == 0 {
        Seq::empty()
    } else {
        let m = min_dir_index(ds);
        seq![ds[m]] + sort_dirs_spec(ds.remove(m))
    }
}

#[via_fn]
proof fn sort_dirs_spec_decreases(ds: Seq<ReplaceDir>) {
    if ds.len() > 0 {
        lemma_min_dir_index(ds);
    }
}

/// Compare two optional texts, deciding the order or reporting that
/// both views are equal.
fn opt_le_exec(a: &Option<String>, b: &Option<String>) -> (r: (bool, bool))
    ensures
        r.0 == opt_path_le(opt_str_view(*a), opt_str_view(*b)),
        r.1 == (opt_str_view(*a) == opt_str_view(*b)),
{
    match (a, b) {
        (None, None) => (true, true),
        (None, Some(_)) => (true, false),
        (Some(_), None) => (false, false),
        (Some(x), Some(y)) => {
            let xy = str_le_exec(x, y);
            let yx = str_le_exec(y, x);
            proof {
                lemma_path_props(x@, y@, y@);
            }
            (xy, xy && yx)
        }
    }
}

/// Compare two directories in the configured order.
fn dir_le_exec(a: &ReplaceDir, b: &ReplaceDir) -> (r: bool)
    ensures
        r == dir_le(*a, *b),
{
    if !a.path.eq_path(&b.path) {
        return path_le_exec(&a.path, &b.path);
    }
    let (le, same) = opt_le_exec(&a.prefix, &b.prefix);
    if !same {
        return le;
    }
    let (le, same) = opt_le_exec(&a.suffix, &b.suffix);
    if !same {
        return le;
    }
    let (le, _) = opt_le_exec(&a.file_extension, &b.file_extension);
    le
}

/// Compare two texts by code point.
fn str_le_exec(a: &String, b: &String) -> (r: bool)
    ensures
        r == path_le(a@, b@),
{
    let pa = RelPath::from_str(a.as_str());
    let pb = RelPath::from_str(b.as_str());
    path_le_exec(&pa, &pb)
}

/// One configuration document: an optional document-wide extension
/// default and the configured directories.
#[derive(Debug)]
pub struct Config {
    pub file_extension: Option<String>,
    pub dirs: Vec<ReplaceDir>,
}

impl Config {
    /// Insert the given file: it lands in the first directory whose
    /// path matches `file_dir` and whose rules accept it, or in a
    /// fresh directory for `file_dir` appended to the document.  The
    /// fresh directory is kept even when the insertion then fails.
    pub fn insert_file(
        &mut self,
        file_dir: &RelPath,
        file: RelPath,
        transcript: Transcript,
    ) -> (r: Result<(), ConfigError>)
        ensures
            final(self).file_extension == old(self).file_extension,
            match find_dir_spec(old(self).dirs@, file_dir@, file@) {
                Some(i) => {
                    &&& final(self).dirs@.len() == old(self).dirs@.len()
                    &&& forall|j: int|
                        0 <= j < old(self).dirs@.len() && j != i ==> final(self).dirs@[j]
                            == old(self).dirs@[j]
                    &&& dir_insert_effect(
                        old(self).dirs@[i],
                        final(self).dirs@[i],
                        opt_str_view(old(self).file_extension),
                        file@,
                        transcript@,
                        r,
                    )
                },
                None => {
                    &&& final(self).dirs@.len() == old(self).dirs@.len() + 1
                    &&& forall|j: int|
                        0 <= j < old(self).dirs@.len() ==> final(self).dirs@[j] == old(
                            self,
                        ).dirs@[j]
                    &&& final(self).dirs@.last().path@ == file_dir@
                    &&& final(self).dirs@.last().prefix is None
                    &&& final(self).dirs@.last().suffix is None
                    &&& final(self).dirs@.last().file_extension is None
                    &&& match r {
                        Ok(_) => {
                            &&& strip_file_spec(
                                file@,
                                opt_str_view(old(self).file_extension),
                                None,
                                None,
                            ) matches Ok(q)
                            &&& files_entries(final(self).dirs@.last().files)
                                == Seq::empty().push(
                                FileEntryView {
                                    path: strip_file_spec(
                                        file@,
                                        opt_str_view(old(self).file_extension),
                                        None,
                                        None,
                                    )->Ok_0,
                                    replace: Seq::empty(),
                                    transcript: Some(transcript@),
                                },
                            )
                        },
                        Err(e) => {
                            &&& strip_file_spec(
                                file@,
                                opt_str_view(old(self).file_extension),
                                None,
                                None,
                            ) == Err::<Seq<char>, _>(e)
                            &&& files_entries(final(self).dirs@.last().files).len() == 0
                        },
                    }
                },
            },
    {
        proof {
            lemma_find_dir_spec(self.dirs@, file_dir@, file@);
        }
        let n = self.dirs.len();
        let mut found: Option<usize> = None;
        let mut i: usize = 0;
        #[verifier::loop_isolation(false)]
        while i < n
            invariant
                i <= n,
                n == self.dirs@.len(),
                *self == *old(self),
                found is None,
                forall|k: int|
                    0 <= k < i ==> !((#[trigger] self.dirs@[k]).path@ == file_dir@
                        && dir_contains_spec(
                        opt_str_view(self.dirs@[k].prefix),
                        opt_str_view(self.dirs@[k].suffix),
                        opt_str_view(self.dirs@[k].file_extension),
                        file@,
                    )),
            decreases n - i,
        {
            let same = self.dirs[i].path.eq_path(file_dir);
            if same && self.dirs[i].contains(&file) {
                proof {
                    assert(find_dir_spec(self.dirs@, file_dir@, file@) == Some(i as int));
                }
                let doc_ext: Option<&str> = match &self.file_extension {
                    Some(s) => Some(s.as_str()),
                    None => None,
                };
                let r = self.dirs[i].insert_file(doc_ext, file, transcript);
                return r;
            }
            i = i + 1;
        }
        let mut dir = ReplaceDir::new(file_dir.clone());
        dir.files = Files::ListOfMappings(Vec::new());
        let doc_ext: Option<&str> = match &self.file_extension {
            Some(s) => Some(s.as_str()),
            None => None,
        };
        let r = dir.insert_file(doc_ext, file, transcript);
        self.dirs.push(dir);
        r
    }

    /// Optimize configuration: order the directories by path, then
    /// prefix, then suffix, then file extension, keeping exactly the
    /// same directories.  The sort is stable: directories equal in
    /// all four fields keep their relative order, as `sort_dirs_spec`
    /// pins down.  The file lists play no part in the order.
    pub fn optimize(&mut self) -> (r: Result<(), ConfigError>)
        ensures
            r is Ok,
            final(self).file_extension == old(self).file_extension,
            final(self).dirs@ == sort_dirs_spec(old(self).dirs@),
            final(self).dirs@.to_multiset() == old(self).dirs@.to_multiset(),
            sorted_dirs(final(self).dirs@),
    {
        broadcast use vstd::seq_lib::group_to_multiset_ensures;

        let ghost orig = self.dirs@;
        let mut rest: Vec<ReplaceDir> = Vec::new();
        core::mem::swap(&mut rest, &mut self.dirs);
        let mut out: Vec<ReplaceDir> = Vec::new();
        proof {
            assert(out@ + sort_dirs_spec(rest@) =~= sort_dirs_spec(orig));
        }
        #[verifier::loop_isolation(false)]
        while rest.len() > 0
            invariant
                out@.to_multiset().add(rest@.to_multiset()) =~= orig.to_multiset(),
                out@ + sort_dirs_spec(rest@) == sort_dirs_spec(orig),
                sorted_dirs(out@),
                forall|a: int, b: int|
                    0 <= a < out@.len() && 0 <= b < rest@.len() ==> dir_le(
                        #[trigger] out@[a],
                        #[trigger] rest@[b],
                    ),
            decreases rest.len(),
        {
            // Find the first least remaining directory.
            proof {
                lemma_dir_le_total(rest@[0], rest@[0]);
            }
            let mut m: usize = 0;
            let mut k: usize = 1;
            #[verifier::loop_isolation(false)]
            while k < rest.len()
                invariant
                    m < k <= rest@.len() || (k <= rest@.len() && m == 0),
                    m < rest@.len(),
                    forall|q: int|
                        0 <= q < k ==> dir_le(rest@[m as int], #[trigger] rest@[q]),
                    forall|q: int|
                        0 <= q < m ==> !dir_le(#[trigger] rest@[q], rest@[m as int]),
                decreases rest@.len() - k,
            {
                let le = dir_le_exec(&rest[m], &rest[k]);
                proof {
                    lemma_dir_le_total(rest@[m as int], rest@[k as int]);
                }
                if !le {
                    proof {
                        assert forall|q: int| 0 <= q < k implies dir_le(
                            rest@[k as int],
                            #[trigger] rest@[q],
                        ) by {
                            lemma_dir_le_trans(
                                rest@[k as int],
                                rest@[m as int],
                                rest@[q],
                            );
                        }
                        // The switch happens only on a strictly lesser
                        // directory, so the new choice is still the
                        // first among its equals.
                        assert forall|q: int| 0 <= q < k implies !dir_le(
                            #[trigger] rest@[q],
                            rest@[k as int],
                        ) by {
                            if dir_le(rest@[q], rest@[k as int]) {
                                lemma_dir_le_trans(
                                    rest@[q],
                                    rest@[k as int],
                                    rest@[m as int],
                                );
                                lemma_dir_le_equiv(
                                    rest@[q],
                                    rest@[m as int],
                                    rest@[k as int],
                                );
                                assert(dir_le(rest@[m as int], rest@[k as int]));
                            }
                        }
                        lemma_dir_le_total(rest@[k as int], rest@[k as int]);
                    }
                    m = k;
                } else {
                    proof {
                        lemma_dir_le_total(rest@[k as int], rest@[k as int]);
                    }
                }
                k = k + 1;
            }
            proof {
                lemma_min_dir_index(rest@);
                let mi = min_dir_index(rest@);
                if mi < m {
                    assert(!dir_le(rest@[mi], rest@[m as int]));
                    assert(dir_le(rest@[mi], rest@[m as int]));
                } else if m < mi {
                    assert(!dir_le(rest@[m as int], rest@[mi]));
                    assert(dir_le(rest@[m as int], rest@[mi]));
                }
                assert(mi == m as int);
            }
            let ghost rest_pre = rest@;
            let ghost out_pre = out@;
            let chosen = rest.remove(m);
            out.push(chosen);
            proof {
                assert(out@.drop_last() =~= out@.subrange(0, out@.len() - 1));
                assert(sort_dirs_spec(rest_pre) == seq![rest_pre[m as int]] + sort_dirs_spec(
                    rest_pre.remove(m as int),
                ));
                assert(out@ + sort_dirs_spec(rest@) =~= out_pre + sort_dirs_spec(rest_pre));
            }
        }
        self.dirs = out;
        proof {
            assert(rest@.to_multiset() =~= Multiset::empty());
            assert(self.dirs@.to_multiset() =~= orig.to_multiset());
            assert(sort_dirs_spec(rest@) =~= Seq::<ReplaceDir>::empty());
            assert(self.dirs@ =~= self.dirs@ + sort_dirs_spec(rest@));
        }
        Ok(())
    }
}

} // verus!
