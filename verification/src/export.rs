//! The export pipeline's decisions.
//!
//! The host walks the committed manifest entry by entry: it asks for the next
//! entry, reports whether the target path already exists, copies the content,
//! and reports how the copy went. Every decision — refusing to overwrite,
//! attaching the entry's name to a failure, advancing, and progress
//! reporting — is made here. The events of one export never go backwards,
//! and the last one completes the phase.

use vstd::prelude::*;
use vstd::utf8::encode_utf8;
use crate::error::SendmeError;
use crate::manifest::{ContentId, ContentManifest, ManifestEntry};
use crate::progress::{phase_monotone, ProgressInfo, ProgressOperation, ProgressStream};

verus! {

/// One entry to materialize: its relative path and what content to copy
/// there.
pub struct ExportStep {
    pub name: String,
    pub content: ContentId,
}

/// Drives one export of a committed manifest into a directory.
pub struct Exporter {
    manifest: ContentManifest,
    next: usize,
    pending: bool,
    history: Ghost<Seq<ProgressInfo>>,
}

impl Exporter {
    /// The manifest being exported.
    pub closed spec fn manifest_view(&self) -> Seq<crate::manifest::EntryView> {
        self.manifest@
    }

    /// How many entries are fully written.
    pub closed spec fn position(&self) -> int {
        self.next as int
    }

    /// An entry has been handed out and neither confirmed nor failed yet.
    pub closed spec fn entry_pending(&self) -> bool {
        self.pending
    }

    /// Every progress event this export has emitted, oldest first.
    pub closed spec fn emitted(&self) -> Seq<ProgressInfo> {
        self.history@
    }

    /// The exporter's invariant: the manifest is committed, the position is
    /// within bounds, and the events so far all belong to the export phase,
    /// stay within the file count, and never go backwards.
    pub closed spec fn wf(&self) -> bool {
        &&& self.manifest.wf()
        &&& self.next <= self.manifest@.len()
        &&& self.manifest@.len() <= u64::MAX
        &&& forall|i: int|
            0 <= i < self.history@.len() ==> {
                &&& (#[trigger] self.history@[i]).operation is Export
                &&& self.history@[i].total == self.manifest@.len()
                &&& self.history@[i].current <= self.next as int
            }
        &&& forall|i: int, j: int|
            0 <= i <= j < self.history@.len() ==> #[trigger] self.history@[i].current
                <= #[trigger] self.history@[j].current
    }

    /// How many entries are fully written so far.
    pub fn done_count(&self) -> (r: usize)
        ensures
            r == self.position(),
    {
        self.next
    }

    /// Whether an entry is handed out and not yet resolved.
    pub fn is_pending(&self) -> (r: bool)
        ensures
            r == self.entry_pending(),
    {
        self.pending
    }

    /// Start an export at the first entry, with nothing emitted yet.
    pub fn new(manifest: ContentManifest) -> (r: Exporter)
        requires
            manifest.wf(),
            manifest@.len() <= u64::MAX,
        ensures
            r.wf(),
            r.manifest_view() == manifest@,
            r.position() == 0,
            !r.entry_pending(),
            r.emitted() == Seq::<ProgressInfo>::empty(),
    {
        Exporter { manifest, next: 0, pending: false, history: Ghost(Seq::empty()) }
    }

    /// The next entry to write, if any: emits this entry's progress event
    /// and hands out its name and content identity. `None` once every entry
    /// is written.
    pub fn next_entry(&mut self, tracker: &mut ProgressStream) -> (r: Option<ExportStep>)
        requires
            old(self).wf(),
            !old(self).entry_pending(),
        ensures
            final(self).wf(),
            final(self).manifest_view() == old(self).manifest_view(),
            final(self).position() == old(self).position(),
            final(tracker).is_active() == old(tracker).is_active(),
            old(self).position() == old(self).manifest_view().len() ==> {
                &&& r is None
                &&& !final(self).entry_pending()
                &&& final(self).emitted() == old(self).emitted()
                &&& final(tracker)@ == old(tracker)@
            },
            old(self).position() < old(self).manifest_view().len() ==> {
                &&& r matches Some(step) && encode_utf8(step.name@) == old(
                    self,
                ).manifest_view()[old(self).position()].name && step.content@ == old(
                    self,
                ).manifest_view()[old(self).position()].id
                &&& final(self).entry_pending()
                &&& final(self).emitted() == old(self).emitted().push(
                    final(self).emitted().last(),
                )
                &&& final(self).emitted().last().operation is Export
                &&& final(self).emitted().last().current == old(self).position()
                &&& final(self).emitted().last().total == old(self).manifest_view().len()
                &&& final(tracker)@ == if old(tracker).is_active() {
                    old(tracker)@.push(final(self).emitted().last())
                } else {
                    old(tracker)@
                }
            },
    {
        if self.next >= self.manifest.len() {
            return None;
        }
        let len64 = self.manifest.len() as u64;
        let pos64 = self.next as u64;
        let entry = self.manifest.entry(self.next);
        let info = ProgressInfo {
            operation: ProgressOperation::Export,
            current: pos64,
            total: len64,
            message: "exporting entry".to_owned(),
        };
        let step = ExportStep { name: entry.name.clone(), content: entry.content.duplicate() };
        proof {
            self.history@ = self.history@.push(info);
        }
        tracker.emit(info);
        self.pending = true;
        Some(step)
    }

    /// The no-overwrite rule: told whether the pending entry's target path
    /// already exists, either clear the write or refuse it. On an existing
    /// target the export fails with that path and nothing may be written
    /// there.
    pub fn confirm_target(&mut self, target_exists: bool) -> (r: Result<(), SendmeError>)
        requires
            old(self).wf(),
            old(self).entry_pending(),
            old(self).position() < old(self).manifest_view().len(),
        ensures
            final(self).wf(),
            final(self).manifest_view() == old(self).manifest_view(),
            final(self).position() == old(self).position(),
            final(self).emitted() == old(self).emitted(),
            target_exists ==> {
                &&& r matches Err(e) && e matches SendmeError::TargetAlreadyExists { path }
                    && encode_utf8(path@) == old(self).manifest_view()[old(self).position()].name
                &&& !final(self).entry_pending()
            },
            !target_exists ==> r is Ok && final(self).entry_pending(),
    {
        if target_exists {
            let entry = self.manifest.entry(self.next);
            self.pending = false;
            Err(SendmeError::TargetAlreadyExists { path: entry.name.clone() })
        } else {
            Ok(())
        }
    }

    /// How the host's copy of the pending entry went: a success advances to
    /// the next entry; a failure aborts the export with the entry's name and
    /// the cause attached.
    pub fn entry_written(&mut self, outcome: Result<(), String>) -> (r: Result<(), SendmeError>)
        requires
            old(self).wf(),
            old(self).entry_pending(),
            old(self).position() < old(self).manifest_view().len(),
        ensures
            final(self).wf(),
            final(self).manifest_view() == old(self).manifest_view(),
            final(self).emitted() == old(self).emitted(),
            !final(self).entry_pending(),
            outcome matches Ok(_) ==> {
                &&& r is Ok
                &&& final(self).position() == old(self).position() + 1
            },
            outcome matches Err(cause) ==> {
                &&& r matches Err(e) && e matches SendmeError::ExportItemFailed {
                    name,
                    cause: c,
                } && encode_utf8(name@) == old(self).manifest_view()[old(self).position()].name
                    && c == cause
                &&& final(self).position() == old(self).position()
            },
    {
        self.pending = false;
        match outcome {
            Ok(_) => {
                let n = self.manifest.len();
                proof {
                    assert(self.next < n);
                }
                self.next = self.next + 1;
                Ok(())
            },
            Err(cause) => {
                let entry = self.manifest.entry(self.next);
                Err(SendmeError::ExportItemFailed { name: entry.name.clone(), cause })
            },
        }
    }

    /// Close a complete export: every entry is written, the completion event
    /// goes out, and the whole event stream of this export is monotone and
    /// ends with `current == total`.
    pub fn finish(&mut self, tracker: &mut ProgressStream)
        requires
            old(self).wf(),
            !old(self).entry_pending(),
            old(self).position() == old(self).manifest_view().len(),
        ensures
            final(self).wf(),
            final(self).manifest_view() == old(self).manifest_view(),
            final(self).position() == old(self).position(),
            final(tracker).is_active() == old(tracker).is_active(),
            final(self).emitted() == old(self).emitted().push(final(self).emitted().last()),
            final(self).emitted().last().operation is Export,
            final(self).emitted().last().current == old(self).manifest_view().len(),
            final(self).emitted().last().total == old(self).manifest_view().len(),
            phase_monotone(final(self).emitted()),
            final(tracker)@ == if old(tracker).is_active() {
                old(tracker)@.push(final(self).emitted().last())
            } else {
                old(tracker)@
            },
    {
        let len64 = self.manifest.len() as u64;
        let info = ProgressInfo {
            operation: ProgressOperation::Export,
            current: len64,
            total: len64,
            message: "export complete".to_owned(),
        };
        proof {
            self.history@ = self.history@.push(info);
        }
        tracker.emit(info);
    }
}

} // verus!
