//! The workspace model the verbs read: root, symbol index and diagnostics.
use crate::domain::documents::OpenDocuments;
use crate::lsp::types::{Diagnostic, DiagnosticSeverity};
use crate::resolver::index::SymbolIndex;
use crate::text::equals;
use vstd::prelude::*;

verus! {

/// The files' diagnostics as (uri, diagnostics) pairs, in the order the files were first
/// reported.
pub open spec fn files_text(files: Seq<(String, Vec<Diagnostic>)>) -> Seq<(Seq<char>, Seq<Diagnostic>)> {
    files.map_values(|f: (String, Vec<Diagnostic>)| (f.0@, f.1@))
}

/// No URI occurs twice and no file is listed with zero diagnostics.
pub open spec fn files_well_formed(files: Seq<(Seq<char>, Seq<Diagnostic>)>) -> bool {
    &&& forall|i: int, j: int|
        0 <= i < j < files.len() ==> #[trigger] files[i].0 != #[trigger] files[j].0
    &&& forall|i: int| 0 <= i < files.len() ==> #[trigger] files[i].1.len() > 0
}

/// Position of the file `uri` in the list, if it is there.
pub open spec fn file_position(files: Seq<(Seq<char>, Seq<Diagnostic>)>, uri: Seq<char>) -> Option<int> {
    if exists|i: int| 0 <= i < files.len() && #[trigger] files[i].0 == uri {
        Some(choose|i: int| 0 <= i < files.len() && #[trigger] files[i].0 == uri)
    } else {
        None
    }
}

/// The list after replacing the diagnostics of `uri`: an empty list removes the file, a known
/// file keeps its place, a new file goes last.
pub open spec fn files_after_update(
    files: Seq<(Seq<char>, Seq<Diagnostic>)>,
    uri: Seq<char>,
    diagnostics: Seq<Diagnostic>,
) -> Seq<(Seq<char>, Seq<Diagnostic>)> {
    match file_position(files, uri) {
        Some(i) => if diagnostics.len() == 0 {
            files.remove(i)
        } else {
            files.update(i, (uri, diagnostics))
        },
        None => if diagnostics.len() == 0 {
            files
        } else {
            files.push((uri, diagnostics))
        },
    }
}

/// Number of diagnostics of the given severity.
pub open spec fn severity_count(ds: Seq<Diagnostic>, severity: DiagnosticSeverity) -> nat
    decreases ds.len(),
{
    if ds.len() == 0 {
        0
    } else {
        severity_count(ds.drop_last(), severity) + if ds.last().severity == Some(severity) {
            1nat
        } else {
            0nat
        }
    }
}

/// Number of diagnostics of the given severity over all files.
pub open spec fn files_severity_count(
    files: Seq<(Seq<char>, Seq<Diagnostic>)>,
    severity: DiagnosticSeverity,
) -> nat
    decreases files.len(),
{
    if files.len() == 0 {
        0
    } else {
        files_severity_count(files.drop_last(), severity) + severity_count(files.last().1, severity)
    }
}

/// Number of diagnostics over all files.
pub open spec fn files_total(files: Seq<(Seq<char>, Seq<Diagnostic>)>) -> nat
    decreases files.len(),
{
    if files.len() == 0 {
        0
    } else {
        files_total(files.drop_last()) + files.last().1.len()
    }
}

/// Diagnostics per file, each file listed once and only while it has diagnostics.
pub struct DiagnosticStore {
    files: Vec<(String, Vec<Diagnostic>)>,
}

impl DiagnosticStore {
    #[verifier::type_invariant]
    spec fn well_formed(self) -> bool {
        files_well_formed(files_text(self.files@))
    }

    /// The files and their diagnostics, in the order the files were first reported.
    pub closed spec fn files(&self) -> Seq<(Seq<char>, Seq<Diagnostic>)> {
        files_text(self.files@)
    }

    /// An empty store.
    pub fn new() -> (r: Self)
        ensures
            r.files() == Seq::<(Seq<char>, Seq<Diagnostic>)>::empty(),
    {
        let r = DiagnosticStore { files: Vec::new() };
        assert(r.files() =~= Seq::<(Seq<char>, Seq<Diagnostic>)>::empty());
        r
    }

    /// Number of files with diagnostics.
    pub fn len(&self) -> (r: usize)
        ensures
            r == self.files().len(),
            files_well_formed(self.files()),
    {
        proof {
            use_type_invariant(self);
        }
        self.files.len()
    }

    /// Whether no file has diagnostics.
    pub fn is_empty(&self) -> (r: bool)
        ensures
            r == (self.files().len() == 0),
    {
        self.files.len() == 0
    }

    /// The uri and diagnostics of the `i`-th file.
    pub fn entry(&self, i: usize) -> (r: (&String, &Vec<Diagnostic>))
        requires
            i < self.files().len(),
        ensures
            (r.0@, r.1@) == self.files()[i as int],
    {
        let e = &self.files[i];
        (&e.0, &e.1)
    }

    fn find(&self, uri: &str) -> (r: Option<usize>)
        ensures
            match r {
                Some(i) => file_position(self.files(), uri@) == Some(i as int),
                None => file_position(self.files(), uri@) is None,
            },
    {
        proof {
            use_type_invariant(self);
        }
        let ghost fs = self.files();
        let mut i: usize = 0;
        while i < self.files.len()
            invariant
                i <= self.files@.len(),
                fs == files_text(self.files@),
                files_well_formed(fs),
                forall|j: int| 0 <= j < i ==> #[trigger] fs[j].0 != uri@,
            decreases self.files@.len() - i,
        {
            assert(fs[i as int] == (self.files@[i as int].0@, self.files@[i as int].1@));
            if equals(self.files[i].0.as_str(), uri) {
                assert(fs[i as int].0 == uri@);
                return Some(i);
            }
            i = i + 1;
        }
        None
    }

    /// The diagnostics of `uri`, if it has any.
    pub fn get(&self, uri: &str) -> (r: Option<&Vec<Diagnostic>>)
        ensures
            match r {
                Some(d) => file_position(self.files(), uri@) matches Some(i) && self.files()[i].1
                    == d@,
                None => file_position(self.files(), uri@) is None,
            },
    {
        match self.find(uri) {
            Some(i) => Some(&self.files[i].1),
            None => None,
        }
    }

    /// Replaces the diagnostics of `uri`; an empty list removes the file.
    pub fn update(&mut self, uri: &str, diagnostics: Vec<Diagnostic>)
        ensures
            final(self).files() == files_after_update(old(self).files(), uri@, diagnostics@),
    {
        proof {
            use_type_invariant(&*self);
        }
        let ghost fs = self.files();
        let ghost ds = diagnostics@;
        let pos = self.find(uri);
        let mut files: Vec<(String, Vec<Diagnostic>)> = Vec::new();
        std::mem::swap(&mut files, &mut self.files);
        assert(files_text(self.files@) =~= Seq::<(Seq<char>, Seq<Diagnostic>)>::empty());
        match pos {
            Some(i) => {
                if diagnostics.len() == 0 {
                    files.remove(i);
                    assert(files_text(files@) =~= fs.remove(i as int));
                } else {
                    files.set(i, (uri.to_owned(), diagnostics));
                    assert(files_text(files@) =~= fs.update(i as int, (uri@, ds)));
                }
            },
            None => {
                if diagnostics.len() != 0 {
                    files.push((uri.to_owned(), diagnostics));
                    assert(files_text(files@) =~= fs.push((uri@, ds)));
                } else {
                    assert(files_text(files@) =~= fs);
                }
            },
        }
        let ghost nf = files_text(files@);
        assert(files_well_formed(nf)) by {
            assert forall|a: int, b: int| 0 <= a < b < nf.len() implies #[trigger] nf[a].0
                != #[trigger] nf[b].0 by {
                match pos {
                    Some(i) => {
                        if diagnostics@.len() == 0 {
                            let a0 = if a < i { a } else { a + 1 };
                            let b0 = if b < i { b } else { b + 1 };
                            assert(nf[a] == fs[a0]);
                            assert(nf[b] == fs[b0]);
                        } else {
                            if a != i as int && b != i as int {
                                assert(nf[a] == fs[a]);
                                assert(nf[b] == fs[b]);
                            } else if a == i as int {
                                assert(nf[b] == fs[b]);
                                assert(fs[i as int].0 == uri@);
                            } else {
                                assert(nf[a] == fs[a]);
                                assert(fs[i as int].0 == uri@);
                            }
                        }
                    },
                    None => {
                        if b == fs.len() {
                            assert(nf[a] == fs[a]);
                        }
                    },
                }
            }
            assert forall|a: int| 0 <= a < nf.len() implies #[trigger] nf[a].1.len() > 0 by {
                match pos {
                    Some(i) => {
                        if diagnostics@.len() == 0 {
                            let a0 = if a < i { a } else { a + 1 };
                            assert(nf[a] == fs[a0]);
                        } else if a != i as int {
                            assert(nf[a] == fs[a]);
                        }
                    },
                    None => {
                        if a < fs.len() {
                            assert(nf[a] == fs[a]);
                        }
                    },
                }
            }
        }
        self.files = files;
    }
}

/// The workspace model: its root URI, the symbol index, the diagnostics per file, the
/// documents open in the language server and the number of Rust files.
pub struct RustModel {
    pub root_uri: String,
    pub symbol_index: SymbolIndex,
    pub diagnostics: DiagnosticStore,
    pub open_documents: OpenDocuments,
    pub rs_file_count: usize,
}

impl RustModel {
    /// A model of the workspace at `root_uri` with no symbols and no diagnostics.
    pub fn new(root_uri: String) -> (r: Self)
        ensures
            r.root_uri@ == root_uri@,
            r.symbol_index@ == Seq::<crate::resolver::index::SymbolEntry>::empty(),
            r.diagnostics.files() == Seq::<(Seq<char>, Seq<Diagnostic>)>::empty(),
            forall|u: Seq<char>| #[trigger] r.open_documents.version(u) is None,
            r.rs_file_count == 0,
    {
        RustModel {
            root_uri,
            symbol_index: SymbolIndex::new(),
            diagnostics: DiagnosticStore::new(),
            open_documents: OpenDocuments::new(),
            rs_file_count: 0,
        }
    }

    /// Replaces the diagnostics of `uri`; an empty list removes the file.
    pub fn update_diagnostics(&mut self, uri: &str, diagnostics: Vec<Diagnostic>)
        ensures
            final(self).diagnostics.files() == files_after_update(
                old(self).diagnostics.files(),
                uri@,
                diagnostics@,
            ),
            final(self).root_uri == old(self).root_uri,
            final(self).symbol_index == old(self).symbol_index,
            final(self).open_documents == old(self).open_documents,
            final(self).rs_file_count == old(self).rs_file_count,
    {
        self.diagnostics.update(uri, diagnostics);
    }

    /// Numbers of error and of warning diagnostics over all files.
    pub fn total_diagnostics(&self) -> (r: (usize, usize))
        requires
            files_total(self.diagnostics.files()) <= usize::MAX,
        ensures
            r.0 == files_severity_count(self.diagnostics.files(), DiagnosticSeverity::Error),
            r.1 == files_severity_count(self.diagnostics.files(), DiagnosticSeverity::Warning),
    {
        let ghost fs = self.diagnostics.files();
        let mut errors: usize = 0;
        let mut warnings: usize = 0;
        let n = self.diagnostics.len();
        let mut i: usize = 0;
        while i < n
            invariant
                n == fs.len(),
                fs == self.diagnostics.files(),
                i <= n,
                files_total(fs) <= usize::MAX,
                errors == files_severity_count(fs.take(i as int), DiagnosticSeverity::Error),
                warnings == files_severity_count(fs.take(i as int), DiagnosticSeverity::Warning),
                errors + warnings <= files_total(fs.take(i as int)),
            decreases n - i,
        {
            let (_, diags) = self.diagnostics.entry(i);
            proof {
                assert(fs.take(i + 1).drop_last() =~= fs.take(i as int));
                lemma_files_total_prefix(fs, i + 1);
            }
            let mut k: usize = 0;
            while k < diags.len()
                invariant
                    k <= diags@.len(),
                    diags@ == fs[i as int].1,
                    errors == files_severity_count(fs.take(i as int), DiagnosticSeverity::Error)
                        + severity_count(diags@.take(k as int), DiagnosticSeverity::Error),
                    warnings == files_severity_count(fs.take(i as int), DiagnosticSeverity::Warning)
                        + severity_count(diags@.take(k as int), DiagnosticSeverity::Warning),
                    errors + warnings <= files_total(fs.take(i as int)) + k,
                    files_total(fs.take(i as int)) + diags@.len() <= usize::MAX,
                decreases diags@.len() - k,
            {
                assert(diags@.take(k + 1).drop_last() =~= diags@.take(k as int));
                match diags[k].severity {
                    Some(DiagnosticSeverity::Error) => errors = errors + 1,
                    Some(DiagnosticSeverity::Warning) => warnings = warnings + 1,
                    _ => {},
                }
                k = k + 1;
            }
            assert(diags@.take(diags@.len() as int) =~= diags@);
            i = i + 1;
        }
        assert(fs.take(n as int) =~= fs);
        (errors, warnings)
    }

    /// Whether the number of diagnostics over all files fits a `usize`.
    pub fn diagnostic_total_fits(&self) -> (r: bool)
        ensures
            r == (files_total(self.diagnostics.files()) <= usize::MAX),
    {
        let ghost fs = self.diagnostics.files();
        let mut total: usize = 0;
        let n = self.diagnostics.len();
        let mut i: usize = 0;
        while i < n
            invariant
                n == fs.len(),
                fs == self.diagnostics.files(),
                i <= n,
                total == files_total(fs.take(i as int)),
            decreases n - i,
        {
            let (_, diags) = self.diagnostics.entry(i);
            proof {
                assert(fs.take(i + 1).drop_last() =~= fs.take(i as int));
            }
            if diags.len() > usize::MAX - total {
                proof {
                    lemma_files_total_prefix(fs, i + 1);
                }
                return false;
            }
            total = total + diags.len();
            i = i + 1;
        }
        assert(fs.take(n as int) =~= fs);
        true
    }

    /// Number of diagnostics over all files.
    pub fn diagnostic_count(&self) -> (r: usize)
        requires
            files_total(self.diagnostics.files()) <= usize::MAX,
        ensures
            r == files_total(self.diagnostics.files()),
    {
        let ghost fs = self.diagnostics.files();
        let mut total: usize = 0;
        let n = self.diagnostics.len();
        let mut i: usize = 0;
        while i < n
            invariant
                n == fs.len(),
                fs == self.diagnostics.files(),
                i <= n,
                files_total(fs) <= usize::MAX,
                total == files_total(fs.take(i as int)),
            decreases n - i,
        {
            let (_, diags) = self.diagnostics.entry(i);
            proof {
                assert(fs.take(i + 1).drop_last() =~= fs.take(i as int));
                lemma_files_total_prefix(fs, i + 1);
            }
            total = total + diags.len();
            i = i + 1;
        }
        assert(fs.take(n as int) =~= fs);
        total
    }
}

proof fn lemma_files_total_prefix(files: Seq<(Seq<char>, Seq<Diagnostic>)>, k: int)
    requires
        0 <= k <= files.len(),
    ensures
        files_total(files.take(k)) <= files_total(files),
    decreases files.len(),
{
    if k < files.len() {
        assert(files.drop_last().take(k) =~= files.take(k));
        lemma_files_total_prefix(files.drop_last(), k);
    } else {
        assert(files.take(k) =~= files);
    }
}

/// The diagnostics listed for `uri`, if it is listed.
pub open spec fn diagnostics_of(files: Seq<(Seq<char>, Seq<Diagnostic>)>, uri: Seq<char>) -> Option<
    Seq<Diagnostic>,
> {
    match file_position(files, uri) {
        Some(i) => Some(files[i].1),
        None => None,
    }
}

proof fn lemma_position_at(files: Seq<(Seq<char>, Seq<Diagnostic>)>, uri: Seq<char>, k: int)
    requires
        0 <= k < files.len(),
        files[k].0 == uri,
        forall|j: int| 0 <= j < files.len() && j != k ==> #[trigger] files[j].0 != uri,
    ensures
        file_position(files, uri) == Some(k),
{
    assert(files[k].0 == uri);
}

/// Reading the diagnostics of a file gives what the last update of that file wrote (nothing
/// when it wrote an empty list), and an update leaves every other file as it was.
pub proof fn law_read_after_update(
    files: Seq<(Seq<char>, Seq<Diagnostic>)>,
    uri: Seq<char>,
    diagnostics: Seq<Diagnostic>,
    other: Seq<char>,
)
    requires
        files_well_formed(files),
    ensures
        diagnostics_of(files_after_update(files, uri, diagnostics), uri) == if diagnostics.len()
            == 0 {
            None
        } else {
            Some(diagnostics)
        },
        other != uri ==> diagnostics_of(files_after_update(files, uri, diagnostics), other)
            == diagnostics_of(files, other),
{
    let after = files_after_update(files, uri, diagnostics);
    match file_position(files, uri) {
        Some(i) => {
            assert(files[i].0 == uri);
            if diagnostics.len() == 0 {
                assert(after == files.remove(i));
                assert forall|j: int| 0 <= j < after.len() implies #[trigger] after[j].0 != uri by {
                    let j0 = if j < i { j } else { j + 1 };
                    assert(after[j] == files[j0]);
                }
                if other != uri {
                    match file_position(files, other) {
                        Some(k) => {
                            assert(files[k].0 == other);
                            let k1 = if k < i { k } else { k - 1 };
                            assert(after[k1] == files[k]);
                            assert forall|j: int| 0 <= j < after.len() && j != k1 implies #[trigger] after[j].0
                                != other by {
                                let j0 = if j < i { j } else { j + 1 };
                                assert(after[j] == files[j0]);
                            }
                            lemma_position_at(after, other, k1);
                        },
                        None => {
                            assert forall|j: int| 0 <= j < after.len() implies #[trigger] after[j].0
                                != other by {
                                let j0 = if j < i { j } else { j + 1 };
                                assert(after[j] == files[j0]);
                            }
                        },
                    }
                }
            } else {
                assert(after == files.update(i, (uri, diagnostics)));
                lemma_position_at(after, uri, i);
                if other != uri {
                    match file_position(files, other) {
                        Some(k) => {
                            assert(files[k].0 == other);
                            lemma_position_at(after, other, k);
                        },
                        None => {
                            assert forall|j: int| 0 <= j < after.len() implies #[trigger] after[j].0
                                != other by {
                                if j != i {
                                    assert(after[j] == files[j]);
                                }
                            }
                        },
                    }
                }
            }
        },
        None => {
            if diagnostics.len() == 0 {
                assert(after == files);
            } else {
                assert(after == files.push((uri, diagnostics)));
                assert forall|j: int| 0 <= j < after.len() && j != files.len() implies #[trigger] after[j].0
                    != uri by {
                    assert(after[j] == files[j]);
                }
                lemma_position_at(after, uri, files.len() as int);
                if other != uri {
                    match file_position(files, other) {
                        Some(k) => {
                            assert(files[k].0 == other);
                            lemma_position_at(after, other, k);
                        },
                        None => {
                            assert forall|j: int| 0 <= j < after.len() implies #[trigger] after[j].0
                                != other by {
                                if j < files.len() {
                                    assert(after[j] == files[j]);
                                }
                            }
                        },
                    }
                }
            }
        },
    }
}

} // verus!
