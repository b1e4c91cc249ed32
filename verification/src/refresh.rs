//! After a scan of Terminal's tabs: every session's position, and what
//! changed.

use vstd::prelude::*;

use crate::session;
use crate::session::{LocationView, Session};
use crate::sessions;
use crate::sessions::Core;
use crate::tabs;
use crate::tabs::{MenuTab, Snapshot};
use crate::text;

verus! {

/// What a scan changed.
pub struct Refreshed {
    /// Something that is shown changed; an idle NativeTerm doesn't repaint.
    pub changed: bool,
    /// The sessions found in another place: id, window number, tab index.
    pub moved: Vec<(String, usize, usize)>,
    /// The tabs that NativeTerm's menu opens on.
    pub menu: Vec<MenuTab>,
}

/// Where a session is after a scan. A session that isn't open has no tab;
/// an incomplete scan keeps what was known.
pub open spec fn place_after(s: Session, seen: tabs::SnapshotModel, order: Seq<int>) -> Option<LocationView> {
    if !s.state.open() {
        None
    } else {
        let found = tabs::location_of(seen, order, s.label@);
        if found is Some || seen.complete {
            found
        } else {
            session::place(s.location)
        }
    }
}

/// The window number and the tab index of a place.
pub open spec fn position(l: Option<LocationView>) -> Option<(int, int)> {
    match l {
        Some(l) => Some((l.window_number, l.tab_index)),
        None => None,
    }
}

/// The session was found, and not where it was.
pub open spec fn has_moved(s: Session, seen: tabs::SnapshotModel, order: Seq<int>) -> bool {
    &&& s.state.open()
    &&& tabs::location_of(seen, order, s.label@) is Some
    &&& position(tabs::location_of(seen, order, s.label@)) != position(session::place(s.location))
}

/// The sessions that moved, with their new positions, in order.
pub open spec fn moves(all: Seq<Session>, seen: tabs::SnapshotModel, order: Seq<int>) -> Seq<(Seq<char>, int, int)>
    decreases all.len(),
{
    if all.len() == 0 {
        Seq::empty()
    } else {
        let before = moves(all.drop_last(), seen, order);
        let s = all.last();
        if has_moved(s, seen, order) {
            let l = tabs::location_of(seen, order, s.label@)->0;
            before.push((s.id@, l.window_number, l.tab_index))
        } else {
            before
        }
    }
}

/// The moves of a list.
pub open spec fn moved_list(v: Seq<(String, usize, usize)>) -> Seq<(Seq<char>, int, int)> {
    v.map_values(|m: (String, usize, usize)| (m.0@, m.1 as int, m.2 as int))
}

/// The sessions differ in nothing but the place, which is the one after
/// the scan.
pub open spec fn are_placed(before: Seq<Session>, after: Seq<Session>, seen: tabs::SnapshotModel, order: Seq<int>) -> bool {
    &&& after.len() == before.len()
    &&& forall|i: int|
        0 <= i < after.len() ==> #[trigger] after[i] == (Session { location: after[i].location, ..before[i] })
            && session::place(after[i].location) == place_after(before[i], seen, order)
}

/// A session is shown in another place than before.
pub open spec fn place_changed(before: Seq<Session>, after: Seq<Session>) -> bool {
    exists|i: int|
        0 <= i < before.len() && session::place((#[trigger] before[i]).location) != session::place(after[i].location)
}

impl Core {
    /// Whether there is anything to look for: an open session, or the tab
    /// list being shown.
    pub fn wants_scan(&self) -> (r: bool)
        ensures
            r == (sessions::open_labels(self.sessions@).len() > 0 || self.all_tabs),
    {
        let open = sessions::labels(&self.sessions);
        proof {
            assert(text::texts(open@).len() == open@.len());
        }
        open.len() > 0 || self.all_tabs
    }

    /// The stable number of a Terminal window (1-based), as in the session
    /// list.
    pub fn window_number(&self, handle: isize) -> (r: Option<usize>)
        ensures
            match r {
                Some(n) => n > 0 && n == tabs::number_in(tabs::handles(self.window_order@), handle as int),
                None => tabs::number_in(tabs::handles(self.window_order@), handle as int) == 0,
            },
    {
        tabs::number_of(&self.window_order, handle)
    }

    /// Store each session's position as `snapshot` shows it.
    pub fn refresh(&mut self, snapshot: Snapshot) -> (r: Refreshed)
        ensures
            final(self).snapshot@ == snapshot@,
            tabs::handles(final(self).window_order@) == tabs::next_order(
                tabs::handles(old(self).window_order@),
                snapshot@,
            ),
            are_placed(
                old(self).sessions@,
                final(self).sessions@,
                snapshot@,
                tabs::handles(final(self).window_order@),
            ),
            r.changed == (old(self).snapshot@ != snapshot@ || place_changed(
                old(self).sessions@,
                final(self).sessions@,
            )),
            moved_list(r.moved@) == moves(
                old(self).sessions@,
                snapshot@,
                tabs::handles(final(self).window_order@),
            ),
            tabs::menus(r.menu@) == tabs::menu_of(snapshot@.windows),
            *final(self) == (Core {
                sessions: final(self).sessions,
                snapshot: final(self).snapshot,
                window_order: final(self).window_order,
                ..*old(self)
            }),
    {
        let mut changed = !self.snapshot.same(&snapshot);
        let ghost news = changed;
        self.window_order = tabs::order_after(&self.window_order, &snapshot);
        let ghost order = tabs::handles(self.window_order@);
        let ghost before = self.sessions@;
        let mut moved: Vec<(String, usize, usize)> = Vec::new();
        let mut i: usize = 0;
        proof {
            assert(before.take(0) =~= Seq::empty());
            assert(moved_list(moved@) =~= Seq::empty());
        }
        while i < self.sessions.len()
            invariant
                i <= self.sessions@.len() == before.len(),
                before == old(self).sessions@,
                order == tabs::handles(self.window_order@),
                news == (old(self).snapshot@ != snapshot@),
                *self == (Core { sessions: self.sessions, window_order: self.window_order, ..*old(self) }),
                forall|j: int|
                    0 <= j < i ==> #[trigger] self.sessions@[j] == (Session {
                        location: self.sessions@[j].location,
                        ..before[j]
                    }) && session::place(self.sessions@[j].location) == place_after(before[j], snapshot@, order),
                forall|j: int| i <= j < before.len() ==> #[trigger] self.sessions@[j] == before[j],
                changed == (news || exists|j: int|
                    0 <= j < i && session::place((#[trigger] before[j]).location) != session::place(
                        self.sessions@[j].location,
                    )),
                moved_list(moved@) == moves(before.take(i as int), snapshot@, order),
            decreases before.len() - i,
        {
            let ghost was = self.sessions@;
            let ghost listed = moved_list(moved@);
            let ghost changed_before = changed;
            proof {
                assert(was[i as int] == before[i as int]);
                assert(before.take(i + 1).drop_last() =~= before.take(i as int));
                assert(before.take(i + 1).last() == before[i as int]);
            }
            if !self.sessions[i].state.is_open() {
                if self.sessions[i].location.is_some() {
                    self.sessions[i].location = None;
                    changed = true;
                }
            } else {
                let found = tabs::locate(&snapshot, &self.window_order, &self.sessions[i].label);
                let differs = match (&found, &self.sessions[i].location) {
                    (Some(a), Some(b)) => !a.same(b),
                    (None, None) => false,
                    _ => true,
                };
                if (found.is_some() || snapshot.complete) && differs {
                    if let Some(l) = &found {
                        let same_position = match &self.sessions[i].location {
                            Some(k) => k.window_number == l.window_number && k.tab_index == l.tab_index,
                            None => false,
                        };
                        if !same_position {
                            moved.push((self.sessions[i].id.clone(), l.window_number, l.tab_index));
                            proof {
                                assert(moved_list(moved@) =~= listed.push(
                                    (before[i as int].id@, l.window_number as int, l.tab_index as int),
                                ));
                            }
                        }
                    }
                    self.sessions[i].location = found;
                    changed = true;
                }
            }
            proof {
                assert(self.sessions@ =~= was.update(i as int, self.sessions@[i as int]));
                let differs = session::place(before[i as int].location) != session::place(
                    self.sessions@[i as int].location,
                );
                assert(changed == (changed_before || differs));
                assert(forall|j: int| 0 <= j < i ==> self.sessions@[j] == was[j]);
            }
            i += 1;
        }
        proof {
            assert(before.take(i as int) =~= before);
        }
        let menu = tabs::menu_tabs(&snapshot);
        self.snapshot = snapshot;
        Refreshed { changed, moved, menu }
    }
}

/// An incomplete scan that doesn't show a session's tab leaves it where it
/// was known to be.
pub proof fn law_incomplete_scan_keeps(s: Session, seen: tabs::SnapshotModel, order: Seq<int>)
    requires
        s.state.open(),
        !seen.complete,
        tabs::claimed(seen.windows, s.label@) is None,
    ensures
        place_after(s, seen, order) == session::place(s.location),
{
}

/// A session's place is its own: it depends on no other session, and a
/// session that is closed has none.
pub proof fn law_closed_has_no_place(s: Session, seen: tabs::SnapshotModel, order: Seq<int>)
    requires
        !s.state.open(),
    ensures
        place_after(s, seen, order) is None,
        !has_moved(s, seen, order),
{
}

/// A second scan that shows the same finds nothing changed and nothing
/// moved.
pub proof fn law_same_scan_changes_nothing(
    before: Seq<Session>,
    after: Seq<Session>,
    again: Seq<Session>,
    seen: tabs::SnapshotModel,
    order: Seq<int>,
)
    requires
        are_placed(before, after, seen, order),
        are_placed(after, again, seen, order),
    ensures
        !place_changed(after, again),
        moves(after, seen, order) == Seq::<(Seq<char>, int, int)>::empty(),
{
    assert forall|i: int| 0 <= i < after.len() implies session::place((#[trigger] after[i]).location)
        == session::place(again[i].location) && !has_moved(after[i], seen, order) by {
        assert(again[i] == (Session { location: again[i].location, ..after[i] }));
    }
    lemma_no_moves(after, seen, order);
}

proof fn lemma_no_moves(all: Seq<Session>, seen: tabs::SnapshotModel, order: Seq<int>)
    requires
        forall|i: int| 0 <= i < all.len() ==> !has_moved(#[trigger] all[i], seen, order),
    ensures
        moves(all, seen, order) == Seq::<(Seq<char>, int, int)>::empty(),
    decreases all.len(),
{
    if all.len() > 0 {
        assert forall|i: int| 0 <= i < all.drop_last().len() implies !has_moved(
            #[trigger] all.drop_last()[i],
            seen,
            order,
        ) by {
            assert(all.drop_last()[i] == all[i]);
        }
        lemma_no_moves(all.drop_last(), seen, order);
        assert(all[all.len() - 1] == all.last());
    }
}

/// After a look at the tabs an open session is where its label was found; a
/// complete look that found it nowhere leaves it without a place.
pub proof fn law_found_or_not(s: Session, seen: tabs::SnapshotModel, order: Seq<int>)
    requires
        s.state.open(),
    ensures
        tabs::location_of(seen, order, s.label@) matches Some(l) ==> place_after(s, seen, order) == Some(l),
        tabs::location_of(seen, order, s.label@) is None && seen.complete ==> place_after(s, seen, order) is None,
{
}

/// A session has moved where it was found at another window's number or
/// another tab's place than it was last known at; that is told with both.
pub proof fn law_what_has_moved(all: Seq<Session>, s: Session, seen: tabs::SnapshotModel, order: Seq<int>)
    ensures
        moves(Seq::empty(), seen, order) == Seq::<(Seq<char>, int, int)>::empty(),
        tabs::location_of(seen, order, s.label@) is None ==> moves(all.push(s), seen, order) == moves(all, seen, order),
        tabs::location_of(seen, order, s.label@) matches Some(l) ==> {
            let same = match s.location {
                Some(w) => w.window_number as int == l.window_number && w.tab_index as int == l.tab_index,
                None => false,
            };
            &&& s.state.open() && !same ==> moves(all.push(s), seen, order) == moves(all, seen, order).push(
                (s.id@, l.window_number, l.tab_index),
            )
            &&& !s.state.open() || same ==> moves(all.push(s), seen, order) == moves(all, seen, order)
        },
{
    assert(all.push(s).drop_last() =~= all);
}

} // verus!
