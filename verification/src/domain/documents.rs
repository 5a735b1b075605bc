//! The documents the language server has been told about, with their version counters.
use crate::text::equals;
use vstd::prelude::*;

verus! {

/// How a document's current text is sent to the language server.
#[derive(Debug, PartialEq, Eq, Structural)]
pub enum DocumentSync {
    /// The document is not open yet: open it (`textDocument/didOpen`) at this version.
    Open { version: i32 },
    /// The document is open: send its new text (`textDocument/didChange`) at this version.
    Change { version: i32 },
}

/// The version the latest entry for `uri` records, if any entry does.
pub open spec fn version_in(entries: Seq<(String, i32)>, uri: Seq<char>) -> Option<i32>
    decreases entries.len(),
{
    if entries.len() == 0 {
        None
    } else if entries.last().0@ == uri {
        Some(entries.last().1)
    } else {
        version_in(entries.drop_last(), uri)
    }
}

/// The version a document is opened at.
pub open spec fn first_version() -> i32 {
    1
}

/// The version after `v`; it stays at `i32::MAX` once there.
pub open spec fn next_version(v: i32) -> i32 {
    if v < i32::MAX {
        (v + 1) as i32
    } else {
        v
    }
}

/// What syncing `uri` sends, given the version it is open at (if it is open).
pub open spec fn sync_for(open_at: Option<i32>) -> DocumentSync {
    match open_at {
        None => DocumentSync::Open { version: first_version() },
        Some(v) => DocumentSync::Change { version: next_version(v) },
    }
}

/// The version of a document once `sync` was sent for it.
pub open spec fn version_of_sync(sync: DocumentSync) -> i32 {
    match sync {
        DocumentSync::Open { version } => version,
        DocumentSync::Change { version } => version,
    }
}

proof fn lemma_absent(entries: Seq<(String, i32)>, uri: Seq<char>)
    requires
        forall|j: int| 0 <= j < entries.len() ==> (#[trigger] entries[j]).0@ != uri,
    ensures
        version_in(entries, uri) is None,
    decreases entries.len(),
{
    if entries.len() > 0 {
        lemma_absent(entries.drop_last(), uri);
    }
}

proof fn lemma_last_match(entries: Seq<(String, i32)>, uri: Seq<char>, k: int)
    requires
        0 <= k < entries.len(),
        entries[k].0@ == uri,
        forall|j: int| k < j < entries.len() ==> (#[trigger] entries[j]).0@ != uri,
    ensures
        version_in(entries, uri) == Some(entries[k].1),
    decreases entries.len(),
{
    if k < entries.len() - 1 {
        lemma_last_match(entries.drop_last(), uri, k);
    }
}

proof fn lemma_update_last_match(entries: Seq<(String, i32)>, uri: Seq<char>, k: int, e: (String, i32), w: Seq<char>)
    requires
        0 <= k < entries.len(),
        entries[k].0@ == uri,
        e.0@ == uri,
        forall|j: int| k < j < entries.len() ==> (#[trigger] entries[j]).0@ != uri,
    ensures
        version_in(entries.update(k, e), w) == if w == uri {
            Some(e.1)
        } else {
            version_in(entries, w)
        },
    decreases entries.len(),
{
    let n = entries.update(k, e);
    if k == entries.len() - 1 {
        assert(n.drop_last() =~= entries.drop_last());
    } else {
        assert(n.drop_last() =~= entries.drop_last().update(k, e));
        lemma_update_last_match(entries.drop_last(), uri, k, e, w);
    }
}

/// The open documents and the version each was last sent at.
pub struct OpenDocuments {
    entries: Vec<(String, i32)>,
}

impl OpenDocuments {
    /// The version `uri` was last sent at, if it is open.
    pub closed spec fn version(&self, uri: Seq<char>) -> Option<i32> {
        version_in(self.entries@, uri)
    }

    /// No document is open.
    pub fn new() -> (r: Self)
        ensures
            forall|u: Seq<char>| #[trigger] r.version(u) is None,
    {
        OpenDocuments { entries: Vec::new() }
    }

    /// Whether no document is open.
    pub fn is_empty(&self) -> (b: bool)
        ensures
            b == forall|u: Seq<char>| #[trigger] self.version(u) is None,
    {
        if self.entries.len() == 0 {
            true
        } else {
            let ghost u = self.entries@.last().0@;
            assert(self.version(u) is Some);
            false
        }
    }

    fn last_entry_for(&self, uri: &str) -> (r: Option<usize>)
        ensures
            match r {
                Some(k) => k < self.entries@.len() && self.entries@[k as int].0@ == uri@ && forall|j: int|
                    k < j < self.entries@.len() ==> (#[trigger] self.entries@[j]).0@ != uri@,
                None => forall|j: int|
                    0 <= j < self.entries@.len() ==> (#[trigger] self.entries@[j]).0@ != uri@,
            },
    {
        let mut i: usize = self.entries.len();
        while i > 0
            invariant
                i <= self.entries@.len(),
                forall|j: int| i <= j < self.entries@.len() ==> (#[trigger] self.entries@[j]).0@ != uri@,
            decreases i,
        {
            if equals(self.entries[i - 1].0.as_str(), uri) {
                return Some(i - 1);
            }
            i = i - 1;
        }
        None
    }

    /// Records that the current text of `uri` is sent to the language server, and says how:
    /// a document not open yet is opened at the first version; an open one is changed at the
    /// version after the one it was last sent at. Every other document stays as it was.
    pub fn note_sync(&mut self, uri: &str) -> (r: DocumentSync)
        ensures
            r == sync_for(old(self).version(uri@)),
            final(self).version(uri@) == Some(version_of_sync(r)),
            forall|w: Seq<char>| w != uri@ ==> #[trigger] final(self).version(w) == old(self).version(w),
    {
        let ghost old_entries = self.entries@;
        match self.last_entry_for(uri) {
            Some(k) => {
                let v = self.entries[k].1;
                let next = if v < i32::MAX {
                    v + 1
                } else {
                    v
                };
                proof {
                    lemma_last_match(old_entries, uri@, k as int);
                }
                let e = (self.entries[k].0.clone(), next);
                self.entries.set(k, e);
                proof {
                    assert forall|w: Seq<char>| #[trigger] version_in(self.entries@, w) == if w == uri@ {
                        Some(next)
                    } else {
                        version_in(old_entries, w)
                    } by {
                        lemma_update_last_match(old_entries, uri@, k as int, e, w);
                    }
                }
                DocumentSync::Change { version: next }
            },
            None => {
                proof {
                    lemma_absent(old_entries, uri@);
                }
                self.entries.push((uri.to_owned(), 1));
                proof {
                    assert(self.entries@.drop_last() =~= old_entries);
                }
                DocumentSync::Open { version: 1 }
            },
        }
    }
}

} // verus!
