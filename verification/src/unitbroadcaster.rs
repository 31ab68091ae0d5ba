//! The event bus: unit lifecycle events and their in-process multicast.
//! Every broadcast event is appended to a shared log; each subscriber holds a
//! cursor into it and drains the events it has not yet seen.

use vstd::prelude::*;

use crate::unit::{from_path_spec, UnitKind, UnitName, UnitNameView};

verus! {

/// The abstract value of a unit status.
pub enum UnitStatusView {
    LoadStarted(Seq<char>),
    UpdateStarted(Seq<char>),
    UnloadStarted(Seq<char>),
    LoadFailed(Seq<char>),
}

/// The lifecycle status of one unit: observed on disk for the first time,
/// modified, removed, or rejected with a reason.
pub enum UnitStatus {
    LoadStarted(String),
    UpdateStarted(String),
    UnloadStarted(String),
    LoadFailed(String),
}

impl View for UnitStatus {
    type V = UnitStatusView;

    open spec fn view(&self) -> UnitStatusView {
        match self {
            UnitStatus::LoadStarted(p) => UnitStatusView::LoadStarted(p@),
            UnitStatus::UpdateStarted(p) => UnitStatusView::UpdateStarted(p@),
            UnitStatus::UnloadStarted(p) => UnitStatusView::UnloadStarted(p@),
            UnitStatus::LoadFailed(r) => UnitStatusView::LoadFailed(r@),
        }
    }
}

impl UnitStatus {
    /// An identical copy of the status.
    pub fn dup(&self) -> (r: UnitStatus)
        ensures
            r@ == self@,
    {
        match self {
            UnitStatus::LoadStarted(p) => UnitStatus::LoadStarted(p.clone()),
            UnitStatus::UpdateStarted(p) => UnitStatus::UpdateStarted(p.clone()),
            UnitStatus::UnloadStarted(p) => UnitStatus::UnloadStarted(p.clone()),
            UnitStatus::LoadFailed(r) => UnitStatus::LoadFailed(r.clone()),
        }
    }
}

/// The abstract value of a status event.
pub struct UnitStatusEventView {
    pub name: UnitNameView,
    pub status: UnitStatusView,
}

/// A status change of one named unit.
pub struct UnitStatusEvent {
    name: UnitName,
    status: UnitStatus,
}

impl View for UnitStatusEvent {
    type V = UnitStatusEventView;

    closed spec fn view(&self) -> UnitStatusEventView {
        UnitStatusEventView { name: self.name@, status: self.status@ }
    }
}

impl UnitStatusEvent {
    pub fn name(&self) -> (r: &UnitName)
        ensures
            r@ == self@.name,
    {
        &self.name
    }

    pub fn status(&self) -> (r: &UnitStatus)
        ensures
            r@ == self@.status,
    {
        &self.status
    }

    pub fn dup(&self) -> (r: UnitStatusEvent)
        ensures
            r@ == self@,
    {
        UnitStatusEvent { name: self.name.dup(), status: self.status.dup() }
    }

    /// The event for a file newly seen at `path`; a path that does not name
    /// a unit file gives nothing.
    pub fn new_added(path: &str) -> (r: Option<UnitStatusEvent>)
        ensures
            match from_path_spec(path@) {
                Ok(nv) => r matches Some(e) && e@ == (UnitStatusEventView {
                    name: nv,
                    status: UnitStatusView::LoadStarted(path@),
                }),
                Err(_) => r is None,
            },
    {
        match UnitName::from_path(path) {
            Ok(name) => Some(
                UnitStatusEvent { name, status: UnitStatus::LoadStarted(String::from_str(path)) },
            ),
            Err(_) => None,
        }
    }

    /// The event for a file modified at `path`.
    pub fn new_updated(path: &str) -> (r: Option<UnitStatusEvent>)
        ensures
            match from_path_spec(path@) {
                Ok(nv) => r matches Some(e) && e@ == (UnitStatusEventView {
                    name: nv,
                    status: UnitStatusView::UpdateStarted(path@),
                }),
                Err(_) => r is None,
            },
    {
        match UnitName::from_path(path) {
            Ok(name) => Some(
                UnitStatusEvent { name, status: UnitStatus::UpdateStarted(String::from_str(path)) },
            ),
            Err(_) => None,
        }
    }

    /// The event for a file removed at `path`.
    pub fn new_removed(path: &str) -> (r: Option<UnitStatusEvent>)
        ensures
            match from_path_spec(path@) {
                Ok(nv) => r matches Some(e) && e@ == (UnitStatusEventView {
                    name: nv,
                    status: UnitStatusView::UnloadStarted(path@),
                }),
                Err(_) => r is None,
            },
    {
        match UnitName::from_path(path) {
            Ok(name) => Some(
                UnitStatusEvent { name, status: UnitStatus::UnloadStarted(String::from_str(path)) },
            ),
            Err(_) => None,
        }
    }

    /// The event reporting that a unit was rejected, with the reason.
    pub fn new_load_failed(name: &UnitName, reason: String) -> (r: UnitStatusEvent)
        ensures
            r@ == (UnitStatusEventView {
                name: name@,
                status: UnitStatusView::LoadFailed(reason@),
            }),
    {
        UnitStatusEvent { name: name.dup(), status: UnitStatus::LoadFailed(reason) }
    }
}

/// The abstract value of a category event.
pub struct UnitCategoryEventView {
    pub kind: UnitKind,
    pub message: Seq<char>,
}

/// A per-kind summary event, broadcast when a kind's store changes.
pub struct UnitCategoryEvent {
    kind: UnitKind,
    message: String,
}

impl View for UnitCategoryEvent {
    type V = UnitCategoryEventView;

    closed spec fn view(&self) -> UnitCategoryEventView {
        UnitCategoryEventView { kind: self.kind, message: self.message@ }
    }
}

impl UnitCategoryEvent {
    pub fn new(kind: UnitKind, message: String) -> (r: UnitCategoryEvent)
        ensures
            r@ == (UnitCategoryEventView { kind, message: message@ }),
    {
        UnitCategoryEvent { kind, message }
    }

    pub fn kind(&self) -> (r: UnitKind)
        ensures
            r == self@.kind,
    {
        self.kind
    }

    pub fn message(&self) -> (r: &String)
        ensures
            r@ == self@.message,
    {
        &self.message
    }

    pub fn dup(&self) -> (r: UnitCategoryEvent)
        ensures
            r@ == self@,
    {
        UnitCategoryEvent { kind: self.kind, message: self.message.clone() }
    }
}

/// The abstract value of a bus event.
pub enum UnitEventView {
    Status(UnitStatusEventView),
    Category(UnitCategoryEventView),
    RescanRequest,
    RescanStart,
    RescanFinish,
}

/// An event on the bus.
pub enum UnitEvent {
    /// A unit status changed.
    Status(UnitStatusEvent),
    /// A kind's store changed.
    Category(UnitCategoryEvent),
    /// Someone asked for a full rescan.
    RescanRequest,
    /// A rescan began.
    RescanStart,
    /// A rescan ended.
    RescanFinish,
}

impl View for UnitEvent {
    type V = UnitEventView;

    open spec fn view(&self) -> UnitEventView {
        match self {
            UnitEvent::Status(e) => UnitEventView::Status(e@),
            UnitEvent::Category(e) => UnitEventView::Category(e@),
            UnitEvent::RescanRequest => UnitEventView::RescanRequest,
            UnitEvent::RescanStart => UnitEventView::RescanStart,
            UnitEvent::RescanFinish => UnitEventView::RescanFinish,
        }
    }
}

impl UnitEvent {
    pub fn dup(&self) -> (r: UnitEvent)
        ensures
            r@ == self@,
    {
        match self {
            UnitEvent::Status(e) => UnitEvent::Status(e.dup()),
            UnitEvent::Category(e) => UnitEvent::Category(e.dup()),
            UnitEvent::RescanRequest => UnitEvent::RescanRequest,
            UnitEvent::RescanStart => UnitEvent::RescanStart,
            UnitEvent::RescanFinish => UnitEvent::RescanFinish,
        }
    }
}

/// The views of a sequence of events.
pub open spec fn event_views(s: Seq<UnitEvent>) -> Seq<UnitEventView> {
    s.map_values(|e: UnitEvent| e@)
}

/// The bus itself: the log of everything broadcast, and one cursor per
/// subscriber. A subscriber sees every event broadcast after it subscribed,
/// in order.
pub struct UnitBroadcaster {
    sent: Vec<UnitEvent>,
    cursors: Vec<usize>,
}

impl UnitBroadcaster {
    /// Everything broadcast so far, oldest first.
    pub closed spec fn log(self) -> Seq<UnitEventView> {
        event_views(self.sent@)
    }

    /// How many subscribers there are.
    pub closed spec fn subscriber_count(self) -> nat {
        self.cursors@.len()
    }

    /// The position in the log up to which a subscriber has drained.
    pub closed spec fn cursor_of(self, sub: int) -> int {
        self.cursors@[sub] as int
    }

    /// No cursor points past the end of the log.
    pub closed spec fn wf(self) -> bool {
        forall|i: int| 0 <= i < self.cursors@.len() ==> self.cursors@[i] <= self.sent@.len()
    }

    pub fn new() -> (r: UnitBroadcaster)
        ensures
            r.wf(),
            r.log().len() == 0,
            r.subscriber_count() == 0,
    {
        UnitBroadcaster { sent: Vec::new(), cursors: Vec::new() }
    }

    /// Appends an event to the log, for every subscriber to see.
    pub fn broadcast(&mut self, event: UnitEvent)
        requires
            old(self).wf(),
        ensures
            final(self).wf(),
            final(self).log() == old(self).log().push(event@),
            final(self).subscriber_count() == old(self).subscriber_count(),
            forall|i: int|
                0 <= i < old(self).subscriber_count() ==> final(self).cursor_of(i) == old(
                    self,
                ).cursor_of(i),
    {
        let ghost prev = self.log();
        self.sent.push(event);
        proof {
            assert(self.log() =~= prev.push(self.sent@[self.sent@.len() - 1]@));
        }
    }

    /// Registers a new subscriber; it will see events broadcast from now on.
    pub fn subscribe(&mut self) -> (r: usize)
        requires
            old(self).wf(),
        ensures
            final(self).wf(),
            final(self).log() == old(self).log(),
            r == old(self).subscriber_count(),
            final(self).subscriber_count() == old(self).subscriber_count() + 1,
            final(self).cursor_of(r as int) == old(self).log().len(),
            forall|i: int|
                0 <= i < old(self).subscriber_count() ==> final(self).cursor_of(i) == old(
                    self,
                ).cursor_of(i),
    {
        let r = self.cursors.len();
        let n = self.sent.len();
        self.cursors.push(n);
        r
    }

    /// Hands a subscriber every event it has not seen yet, oldest first.
    pub fn drain(&mut self, sub: usize) -> (r: Vec<UnitEvent>)
        requires
            old(self).wf(),
            sub < old(self).subscriber_count(),
        ensures
            final(self).wf(),
            final(self).log() == old(self).log(),
            final(self).subscriber_count() == old(self).subscriber_count(),
            event_views(r@) == old(self).log().skip(old(self).cursor_of(sub as int)),
            final(self).cursor_of(sub as int) == old(self).log().len(),
            forall|i: int|
                0 <= i < old(self).subscriber_count() && i != sub ==> final(self).cursor_of(i)
                    == old(self).cursor_of(i),
    {
        let mut out: Vec<UnitEvent> = Vec::new();
        let mut i: usize = self.cursors[sub];
        let ghost start = i as int;
        while i < self.sent.len()
            invariant
                start <= i <= self.sent@.len(),
                out@.len() == i - start,
                forall|k: int|
                    0 <= k < out@.len() ==> #[trigger] event_views(out@)[k] == self.log()[start
                        + k],
            decreases self.sent@.len() - i,
        {
            let e = self.sent[i].dup();
            let ghost ev = e@;
            let ghost prev_out = event_views(out@);
            out.push(e);
            proof {
                assert(self.log()[i as int] == self.sent@[i as int]@);
                assert(event_views(out@) =~= prev_out.push(ev));
                assert(forall|k: int|
                    0 <= k < prev_out.len() ==> #[trigger] event_views(out@)[k] == prev_out[k]);
                assert(event_views(out@)[out@.len() - 1] == ev);
            }
            i = i + 1;
        }
        let n = self.sent.len();
        self.cursors.set(sub, n);
        proof {
            assert forall|k: int| 0 <= k < out@.len() implies event_views(out@)[k] == self.log(
            ).skip(start)[k] by {
                assert(event_views(out@)[k] == self.log()[start + k]);
            }
            assert(event_views(out@) =~= self.log().skip(start));
        }
        out
    }
}

} // verus!
