//! An in-memory revision store: the capability a project needs from a
//! revision-control backend, reduced to one tracked file per repository.
//! A store keeps the working copy of that file and an append-only history
//! of revisions; each revision snapshots the working copy under a fresh
//! identifier, and content can be fetched back at any recorded identifier.

use vstd::prelude::*;

verus! {

/// One recorded snapshot: an identifier, the commit message that went with
/// it, and the exact bytes of the tracked file at that revision.
pub struct Revision {
    pub id: u64,
    pub message: String,
    pub content: Vec<u8>,
}

/// Mathematical image of a `Revision`.
pub ghost struct RevisionV {
    pub id: nat,
    pub message: Seq<char>,
    pub content: Seq<u8>,
}

impl View for Revision {
    type V = RevisionV;

    open spec fn view(&self) -> RevisionV {
        RevisionV { id: self.id as nat, message: self.message@, content: self.content@ }
    }
}

/// Failure of a revision-store operation, tagged so a caller can tell that
/// the failure originated below the project layer.
#[derive(Clone, Copy, Debug, PartialEq, Eq)]
pub enum RevisionStoreError {
    /// The repository holds no revision at all.
    NoRevisions,
    /// No revision carries the requested identifier.
    RevisionNotFound { id: u64 },
}

/// Mathematical image of a `RevisionStore`: where it is bound, its recorded
/// history oldest-first, and the working copy of the tracked file.
pub ghost struct RevisionStoreV {
    pub path: Seq<char>,
    pub revisions: Seq<RevisionV>,
    pub working: Seq<u8>,
}

/// A repository bound to a path, tracking a single file. Revisions are
/// appended, never rewritten; identifiers are handed out consecutively
/// from zero, so a revision's identifier equals its position in history.
pub struct RevisionStore {
    path: String,
    revisions: Vec<Revision>,
    working: Vec<u8>,
}

impl View for RevisionStore {
    type V = RevisionStoreV;

    closed spec fn view(&self) -> RevisionStoreV {
        RevisionStoreV {
            path: self.path@,
            revisions: Seq::new(self.revisions@.len(), |i: int| self.revisions@[i]@),
            working: self.working@,
        }
    }
}

impl RevisionStore {
    /// Every revision's identifier equals its position in history.
    pub open spec fn wf(&self) -> bool {
        forall|i: int| 0 <= i < self@.revisions.len() ==> (#[trigger] self@.revisions[i].id) == i
    }

    /// Opens the repository at `path`, initializing it when absent; either
    /// way the store starts from the history recorded so far, which for a
    /// fresh in-memory store is empty.
    pub fn open_or_init(path: String) -> (s: RevisionStore)
        ensures
            s.wf(),
            s@.path == path@,
            s@.revisions == Seq::<RevisionV>::empty(),
            s@.working == Seq::<u8>::empty(),
    {
        let s = RevisionStore { path, revisions: Vec::new(), working: Vec::new() };
        proof {
            assert(s@.revisions =~= Seq::<RevisionV>::empty());
        }
        s
    }

    /// Overwrites the working copy of the tracked file; records nothing.
    pub fn write_file(&mut self, content: Vec<u8>)
        ensures
            final(self)@.path == old(self)@.path,
            final(self)@.revisions == old(self)@.revisions,
            final(self)@.working == content@,
            final(self).wf() == old(self).wf(),
    {
        self.working = content;
        proof {
            assert(final(self)@.revisions =~= old(self)@.revisions);
        }
    }

    /// Records a new revision holding the current working copy, under the
    /// next consecutive identifier, and returns that identifier.
    pub fn commit_file(&mut self, message: &str) -> (id: u64)
        requires
            old(self).wf(),
        ensures
            final(self).wf(),
            final(self)@.path == old(self)@.path,
            final(self)@.working == old(self)@.working,
            final(self)@.revisions == old(self)@.revisions.push(
                (RevisionV {
                    id: old(self)@.revisions.len(),
                    message: message@,
                    content: old(self)@.working,
                }),
            ),
            id as nat == old(self)@.revisions.len(),
    {
        let id: u64 = self.revisions.len() as u64;
        let content = copy_bytes(&self.working);
        let message_owned = message.to_owned();
        self.revisions.push(Revision { id, message: message_owned, content });
        proof {
            assert(final(self)@.revisions =~= old(self)@.revisions.push(
                (RevisionV {
                    id: old(self)@.revisions.len(),
                    message: message@,
                    content: old(self)@.working,
                }),
            ));
        }
        id
    }

    /// The identifier of the most recent revision; fails on an empty history.
    pub fn last_commit_id(&self) -> (r: Result<u64, RevisionStoreError>)
        requires
            self.wf(),
        ensures
            match r {
                Ok(id) => self@.revisions.len() > 0 && id as nat == self@.revisions.len() - 1,
                Err(e) => self@.revisions.len() == 0 && e == RevisionStoreError::NoRevisions,
            },
    {
        if self.revisions.len() == 0 {
            Err(RevisionStoreError::NoRevisions)
        } else {
            Ok(self.revisions.len() as u64 - 1)
        }
    }

    /// The tracked file's bytes as of revision `id`; fails when no revision
    /// carries that identifier.
    pub fn file_content_at(&self, id: u64) -> (r: Result<Vec<u8>, RevisionStoreError>)
        requires
            self.wf(),
        ensures
            match r {
                Ok(content) => id < self@.revisions.len()
                    && content@ == self@.revisions[id as int].content,
                Err(e) => id >= self@.revisions.len()
                    && e == (RevisionStoreError::RevisionNotFound { id }),
            },
    {
        if id < self.revisions.len() as u64 {
            let content = copy_bytes(&self.revisions[id as usize].content);
            Ok(content)
        } else {
            Err(RevisionStoreError::RevisionNotFound { id })
        }
    }

    /// The recorded history, newest first. Reflects the history at call
    /// time; calling again restarts from the then-current history.
    pub fn revisions_newest_first(&self) -> (r: Vec<Revision>)
        ensures
            r@.len() == self@.revisions.len(),
            forall|i: int|
                0 <= i < r@.len() ==> (#[trigger] r@[i])@ == self@.revisions[
                    self@.revisions.len() - 1 - i
                ],
    {
        let mut out: Vec<Revision> = Vec::new();
        let mut k: usize = self.revisions.len();
        while k > 0
            invariant
                k <= self.revisions.len(),
                out@.len() == self.revisions.len() - k,
                forall|i: int|
                    0 <= i < out@.len() ==> (#[trigger] out@[i])@ == self@.revisions[
                        self@.revisions.len() - 1 - i
                    ],
            decreases k,
        {
            k = k - 1;
            let rev = &self.revisions[k];
            let copy = Revision {
                id: rev.id,
                message: rev.message.clone(),
                content: copy_bytes(&rev.content),
            };
            out.push(copy);
        }
        out
    }
}

/// A fresh byte vector holding exactly the bytes of `src`.
pub fn copy_bytes(src: &Vec<u8>) -> (r: Vec<u8>)
    ensures
        r@ == src@,
{
    let mut r: Vec<u8> = Vec::new();
    let mut i: usize = 0;
    while i < src.len()
        invariant
            i <= src@.len(),
            r@ == src@.subrange(0, i as int),
        decreases src@.len() - i,
    {
        r.push(src[i]);
        proof {
            assert(r@ =~= src@.subrange(0, i + 1));
        }
        i = i + 1;
    }
    proof {
        assert(r@ =~= src@);
    }
    r
}

} // verus!
