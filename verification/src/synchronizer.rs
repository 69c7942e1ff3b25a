//! The synchronizer's decisions: how one filesystem event changes the
//! index, and when the consuming loop stops. The loop itself — waiting
//! on the event queue, reading files, persisting snapshots — is I/O and
//! lives with the caller, which reads the affected file *before* calling
//! in (so the read happens outside any lock) and persists a snapshot
//! whenever a call reports a change.

use crate::document::Document;
use crate::index::remove_by_path_model;
use crate::index::upsert_model;
use crate::index::Index;
use crate::index::IndexModel;
use crate::document::DocView;
use crate::watcher::EventView;
use crate::watcher::IndexEvent;
use vstd::prelude::*;

verus! {

/// What a successful file read handed the synchronizer.
pub struct FileData {
    /// The file's full text.
    pub content: String,
    /// Its last-write time, in seconds since the UNIX epoch, when known.
    pub modified: Option<u64>,
}

/// Relies on `uuid::Uuid::new_v4`, via `Uuid::as_u128`: a fresh random
/// version-4 UUID as its 128-bit value. Nothing can be promised of a
/// random value; the caller checks it against the index itself.
#[verifier::external_body]
fn mint_id() -> u128 {
    uuid::Uuid::new_v4().as_u128()
}

/// The document the synchronizer builds for path `p` after a read.
pub open spec fn read_doc(id: u128, p: Seq<char>, fd: FileData) -> DocView {
    DocView { id: id, path: p, content: fd.content@, modified: fd.modified }
}

/// How a `Created` or `Modified` event for path `p` relates the old and
/// new index: a failed read drops the event; a successful read upserts
/// the new content under the id already bound to the path, or under some
/// fresh id when the path is new. (A fresh id is drawn at random; in the
/// unlikely case that it collides with a live document, the event is
/// dropped rather than corrupt another document.)
pub open spec fn change_applied(
    m0: IndexModel,
    m1: IndexModel,
    p: Seq<char>,
    read: Option<FileData>,
    changed: bool,
) -> bool {
    match read {
        Option::None => m1 == m0 && !changed,
        Option::Some(fd) => {
            if m0.path_to_id.contains_key(p) {
                changed && m1 == upsert_model(m0, read_doc(m0.path_to_id[p], p, fd))
            } else {
                &&& (!changed ==> m1 == m0)
                &&& (changed ==> exists|nid: u128|
                    !m0.documents.contains_key(nid) && m1 == upsert_model(
                        m0,
                        read_doc(nid, p, fd),
                    ))
            }
        },
    }
}

/// Indexes the content read for a path with no live document, under a
/// candidate id. This is where the fate of a minted id is decided, for
/// every value of it: a free id indexes the document and reports a
/// change, exactly; an id that already names a live document changes
/// nothing (upserting under it would corrupt that other document), and
/// the caller treats the event as dropped.
pub fn apply_new_document(index: &mut Index, p: &String, fd: FileData, minted: u128) -> (changed:
    bool)
    requires
        old(index).wf(),
        !old(index)@.path_to_id.contains_key(p@),
    ensures
        final(index).wf(),
        changed <==> !old(index)@.documents.contains_key(minted),
        changed ==> final(index)@ == upsert_model(old(index)@, read_doc(minted, p@, fd)),
        !changed ==> final(index)@ == old(index)@,
{
    match index.get_document(minted) {
        Some(_) => false,
        None => {
            let doc = Document {
                id: minted,
                path: p.clone(),
                content: fd.content,
                modified: fd.modified,
            };
            index.upsert_document(doc);
            true
        },
    }
}

/// Applies one event to the index and says whether it changed anything
/// (so that the caller knows to persist a snapshot).
///
/// For `Created` and `Modified`, `read` carries the file's content as
/// read by the caller outside any lock, or `None` when the read failed
/// (a benign race: the event is dropped). The id already bound to the
/// path is reused, so a `Created` followed by a `Modified` of the same
/// path keeps one id; a new path goes through `apply_new_document` with
/// a freshly minted id. `Deleted` removes whatever document lives at
/// the path and ignores `read`.
pub fn apply_event(index: &mut Index, event: &IndexEvent, read: Option<FileData>) -> (changed:
    bool)
    requires
        old(index).wf(),
    ensures
        final(index).wf(),
        match event@ {
            EventView::Created(p) => change_applied(old(index)@, final(index)@, p, read, changed),
            EventView::Modified(p) => change_applied(old(index)@, final(index)@, p, read, changed),
            EventView::Deleted(p) => final(index)@ == remove_by_path_model(old(index)@, p) && (
            changed <==> old(index)@.path_to_id.contains_key(p)),
        },
{
    match event {
        IndexEvent::Deleted(p) => {
            let had = match index.path_id(p) {
                Some(_) => true,
                None => false,
            };
            index.remove_document_by_path(p);
            had
        },
        IndexEvent::Created(p) | IndexEvent::Modified(p) => {
            match read {
                None => false,
                Some(fd) => {
                    match index.path_id(p) {
                        Some(bound) => {
                            let doc = Document {
                                id: bound,
                                path: p.clone(),
                                content: fd.content,
                                modified: fd.modified,
                            };
                            index.upsert_document(doc);
                            true
                        },
                        None => {
                            let fresh = mint_id();
                            apply_new_document(index, p, fd, fresh)
                        },
                    }
                },
            }
        },
    }
}

/// The synchronizer's run state: consuming events, or draining after
/// the event source closed or a shutdown signal was observed.
#[derive(Clone, Copy, Debug, PartialEq, Eq, Structural)]
pub enum SyncState {
    Running,
    Draining,
}

/// One step of the synchronizer's control state, taken between events —
/// before blocking for the next one, so that a silent event stream
/// cannot delay shutdown. Once draining, it never runs again.
pub fn next_state(state: SyncState, shutdown: bool, queue_closed: bool) -> (r: SyncState)
    ensures
        r is Draining <==> (state is Draining || shutdown || queue_closed),
{
    match state {
        SyncState::Draining => SyncState::Draining,
        SyncState::Running => {
            if shutdown || queue_closed {
                SyncState::Draining
            } else {
                SyncState::Running
            }
        },
    }
}

} // verus!
