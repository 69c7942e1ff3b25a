//! Domain-level filesystem events, and the translation that turns one
//! raw watcher notification into them. The raw watch itself is I/O and
//! lives with the caller; it hands the notification's kind and paths in
//! and takes domain events back.

use crate::ingestion::is_text_path;
use vstd::prelude::*;

verus! {

/// A domain-level filesystem change notification for one path.
#[derive(Debug)]
pub enum IndexEvent {
    Created(String),
    Modified(String),
    Deleted(String),
}

/// The mathematical content of an event.
#[verifier::ext_equal]
pub enum EventView {
    Created(Seq<char>),
    Modified(Seq<char>),
    Deleted(Seq<char>),
}

impl View for IndexEvent {
    type V = EventView;

    open spec fn view(&self) -> EventView {
        match self {
            IndexEvent::Created(p) => EventView::Created(p@),
            IndexEvent::Modified(p) => EventView::Modified(p@),
            IndexEvent::Deleted(p) => EventView::Deleted(p@),
        }
    }
}

/// What a raw notification was about, as far as the translation cares:
/// something was created, changed, removed, or none of these.
#[derive(Clone, Copy, Debug)]
pub enum RawEventKind {
    Create,
    Modify,
    Remove,
    Other,
}

/// The domain event for one path under a given kind of notification.
pub open spec fn event_for(kind: RawEventKind, p: Seq<char>) -> EventView {
    match kind {
        RawEventKind::Create => EventView::Created(p),
        RawEventKind::Modify => EventView::Modified(p),
        RawEventKind::Remove => EventView::Deleted(p),
        RawEventKind::Other => EventView::Created(p),
    }
}

/// The domain events of one raw notification: nothing for an unrelated
/// kind; otherwise one event per affected path that names a text note,
/// in order.
pub open spec fn translated(kind: RawEventKind, paths: Seq<String>) -> Seq<EventView>
    decreases paths.len(),
{
    if kind is Other || paths.len() == 0 {
        Seq::empty()
    } else {
        translated(kind, paths.drop_last()) + (if is_text_path(paths.last()@) {
            seq![event_for(kind, paths.last()@)]
        } else {
            Seq::empty()
        })
    }
}

/// The views of a sequence of events.
pub open spec fn event_views(es: Seq<IndexEvent>) -> Seq<EventView> {
    Seq::new(es.len(), |i: int| es[i]@)
}

/// Translates one raw notification into domain events: unrelated kinds
/// produce nothing, and only paths naming text notes pass the filter.
/// One notification may affect several paths; each is handled on its own.
pub fn translate_event(kind: RawEventKind, paths: &Vec<String>) -> (events: Vec<IndexEvent>)
    ensures
        event_views(events@) == translated(kind, paths@),
{
    let mut events: Vec<IndexEvent> = Vec::new();
    if let RawEventKind::Other = kind {
        proof {
            assert(event_views(events@) =~= translated(kind, paths@));
        }
        return events;
    }
    let mut j: usize = 0;
    proof {
        assert(event_views(events@) =~= translated(kind, paths@.take(0)));
    }
    while j < paths.len()
        invariant
            j <= paths@.len(),
            !(kind is Other),
            event_views(events@) == translated(kind, paths@.take(j as int)),
        decreases paths@.len() - j,
    {
        let ghost prev = events@;
        if has_text_extension_str(&paths[j]) {
            let p = paths[j].clone();
            let ev = match kind {
                RawEventKind::Create => IndexEvent::Created(p),
                RawEventKind::Modify => IndexEvent::Modified(p),
                RawEventKind::Remove => IndexEvent::Deleted(p),
                RawEventKind::Other => IndexEvent::Created(p),
            };
            proof {
                assert(ev@ == event_for(kind, paths@[j as int]@));
            }
            events.push(ev);
            proof {
                assert(event_views(events@) =~= event_views(prev).push(
                    event_for(kind, paths@[j as int]@),
                ));
            }
        }
        proof {
            assert(paths@.take(j as int + 1).drop_last() =~= paths@.take(j as int));
            assert(paths@.take(j as int + 1).last() == paths@[j as int]);
            assert(event_views(events@) =~= translated(kind, paths@.take(j as int + 1)));
        }
        j = j + 1;
    }
    proof {
        assert(paths@.take(paths@.len() as int) =~= paths@);
    }
    events
}

/// Whether `path` names a text note, for a borrowed `String`.
fn has_text_extension_str(path: &String) -> (r: bool)
    ensures
        r == is_text_path(path@),
{
    crate::ingestion::has_text_extension(path.as_str())
}

} // verus!
