//! The session commands every UI surface offers — the session card, the
//! tab menu, the floating button — decided in one place: when each one
//! applies, what it does, and which sessions a batch close takes. Surfaces
//! only draw them and say which one was chosen.

use vstd::prelude::*;

use crate::message;
use crate::message::Message;
use crate::session::{SessionView, State};
use crate::sessions;
use crate::text;

verus! {

/// What can be done to one session.
#[derive(Clone, Copy, Debug, PartialEq, Eq, Structural)]
pub enum SessionCommand {
    /// Connect a waiting session, or reconnect an ended one.
    Connect,
    Disconnect,
    /// The same host again, without port forwards.
    Clone,
    Close,
    /// Lock or unlock (kept out of batch closes and group sends).
    ToggleLock,
    ClearScreen,
    /// Select its tab and bring its window to the front.
    Focus,
    /// Type commands into it (the surface opens its dialog).
    Send,
    /// A serial line's Break, or Telnet's (non-SSH sessions run by ntplink).
    SendBreak,
}

/// ntplink's name for Break.
pub const BREAK: &'static str = "brk";

/// The session's connection takes a Break now.
pub open spec fn takes_break(s: SessionView) -> bool {
    text::texts(s.specials@).contains(BREAK@)
}

impl SessionCommand {
    /// When a command applies.
    pub open spec fn applicable(self, s: SessionView) -> bool {
        match self {
            SessionCommand::Connect => s.state.open() && s.linked && s.state.connectable(),
            SessionCommand::Disconnect => s.state.open() && s.linked && (s.state is Connecting || s.state is Connected),
            SessionCommand::Clone => true,
            SessionCommand::Close => s.state.open() && !s.locked,
            SessionCommand::ToggleLock => s.state.open(),
            SessionCommand::ClearScreen => s.state.open() && s.linked,
            SessionCommand::Focus => s.location is Some,
            SessionCommand::Send => s.linked && s.state is Connected,
            SessionCommand::SendBreak => s.linked && s.state is Connected && takes_break(s),
        }
    }

    /// Whether it applies to `s` now (the surface greys it out otherwise).
    pub fn applies(self, s: &SessionView) -> (r: bool)
        ensures
            r == self.applicable(*s),
    {
        let open = s.state.is_open();
        let connected = matches!(s.state, State::Connected);
        let connecting = matches!(s.state, State::Connecting);
        match self {
            SessionCommand::Connect => open && s.linked && s.state.can_connect(),
            SessionCommand::Disconnect => open && s.linked && (connecting || connected),
            SessionCommand::Clone => true,
            SessionCommand::Close => open && !s.locked,
            SessionCommand::ToggleLock => open,
            SessionCommand::ClearScreen => open && s.linked,
            SessionCommand::Focus => s.location.is_some(),
            SessionCommand::Send => s.linked && connected,
            SessionCommand::SendBreak => s.linked && connected && s.can_break(),
        }
    }

    /// Surfaces leave it out entirely where it can never apply.
    pub fn offered(self, s: &SessionView) -> (r: bool)
        ensures
            r == (self is SendBreak ==> takes_break(*s)),
    {
        match self {
            SessionCommand::SendBreak => s.can_break(),
            _ => true,
        }
    }
}

impl SessionView {
    /// Its connection takes a Break now.
    pub fn can_break(&self) -> (r: bool)
        ensures
            r == takes_break(*self),
    {
        text::contains_text(&self.specials, BREAK)
    }
}

/// What applies is offered.
pub proof fn law_applies_where_offered(c: SessionCommand, s: SessionView)
    ensures
        c.applicable(s) ==> (c is SendBreak ==> takes_break(s)),
{
}

/// Connecting and disconnecting never apply together, and a locked session
/// is never closed.
pub proof fn law_commands_exclude(s: SessionView)
    ensures
        !(SessionCommand::Connect.applicable(s) && SessionCommand::Disconnect.applicable(s)),
        s.locked ==> !SessionCommand::Close.applicable(s),
{
}

/// The sessions a batch close takes. Locked sessions never, and only
/// NativeTerm's own: the user's tabs between or beside them aren't
/// sessions and are never touched.
#[derive(Clone, Debug, PartialEq, Eq)]
pub enum CloseSet {
    /// The other sessions in this session's window.
    Others(String),
    /// Sessions to the right of this one in its window.
    RightOf(String),
    /// Every session whose connection ended or failed, in all windows.
    Ended,
    /// Restored sessions still waiting to connect.
    Waiting,
}

/// The window and the tab of a session.
pub open spec fn place_of(s: SessionView) -> Option<(int, int)> {
    match s.location {
        Some(l) => Some((l.window as int, l.tab_index as int)),
        None => None,
    }
}

/// The place of the first session with this id.
pub open spec fn place_by_id(all: Seq<SessionView>, id: Seq<char>) -> Option<(int, int)>
    decreases all.len(),
{
    if all.len() == 0 {
        None
    } else if all.first().id@ == id {
        place_of(all.first())
    } else {
        place_by_id(all.skip(1), id)
    }
}

/// Whether the batch close takes `s`.
pub open spec fn is_taken(all: Seq<SessionView>, set: CloseSet, s: SessionView) -> bool {
    &&& s.state.open()
    &&& !s.locked
    &&& match set {
        CloseSet::Others(id) => s.id@ != id@ && (match (place_by_id(all, id@), place_of(s)) {
            (Some(at), Some(here)) => here.0 == at.0,
            _ => false,
        }),
        CloseSet::RightOf(id) => match (place_by_id(all, id@), place_of(s)) {
            (Some(at), Some(here)) => here.0 == at.0 && here.1 > at.1,
            _ => false,
        },
        CloseSet::Ended => s.state is LoginFailed || s.state is Unreachable || s.state is Disconnected || s.state is Ended,
        CloseSet::Waiting => s.state is Waiting && s.linked,
    }
}

/// The ids that the batch close takes, in order.
pub open spec fn taken_ids(all: Seq<SessionView>, set: CloseSet) -> Seq<Seq<char>> {
    all.filter(|s: SessionView| is_taken(all, set, s)).map_values(|s: SessionView| s.id@)
}

fn find_place(all: &[SessionView], id: &str) -> (r: Option<(isize, usize)>)
    ensures
        place_by_id(all@, id@) == match r {
            Some((w, t)) => Some((w as int, t as int)),
            None => None::<(int, int)>,
        },
{
    let mut i: usize = 0;
    proof {
        assert(all@.skip(0) =~= all@);
    }
    while i < all.len()
        invariant
            i <= all@.len(),
            place_by_id(all@, id@) == place_by_id(all@.skip(i as int), id@),
        decreases all@.len() - i,
    {
        proof {
            assert(all@.skip(i as int).skip(1) =~= all@.skip(i + 1));
        }
        if text::same(&all[i].id, id) {
            return match &all[i].location {
                Some(l) => Some((l.window, l.tab_index)),
                None => None,
            };
        }
        i += 1;
    }
    None
}

fn takes(all: &[SessionView], set: &CloseSet, s: &SessionView) -> (r: bool)
    ensures
        r == is_taken(all@, *set, *s),
{
    if !s.state.is_open() || s.locked {
        return false;
    }
    match set {
        CloseSet::Others(id) => !text::same(&s.id, id) && (match (find_place(all, id), &s.location) {
            (Some((w, _)), Some(l)) => l.window == w,
            _ => false,
        }),
        CloseSet::RightOf(id) => match (find_place(all, id), &s.location) {
            (Some((w, t)), Some(l)) => l.window == w && l.tab_index > t,
            _ => false,
        },
        CloseSet::Ended => matches!(
            s.state,
            State::LoginFailed(_) | State::Unreachable(_) | State::Disconnected(_) | State::Ended(_)
        ),
        CloseSet::Waiting => matches!(s.state, State::Waiting) && s.linked,
    }
}

pub fn close_set(sessions: &[SessionView], set: &CloseSet) -> (r: Vec<String>)
    ensures
        text::texts(r@) == taken_ids(sessions@, *set),
{
    let ghost all = sessions@;
    let ghost taken = |s: SessionView| is_taken(all, *set, s);
    let ghost id = |s: SessionView| s.id@;
    let mut r: Vec<String> = Vec::new();
    let mut i: usize = 0;
    proof {
        reveal(Seq::filter);
        assert(all.take(0) =~= Seq::empty());
        assert(text::texts(r@) =~= all.take(0).filter(taken).map_values(id));
    }
    while i < sessions.len()
        invariant
            i <= sessions@.len(),
            all == sessions@,
            taken == (|s: SessionView| is_taken(all, *set, s)),
            id == (|s: SessionView| s.id@),
            text::texts(r@) == all.take(i as int).filter(taken).map_values(id),
        decreases sessions@.len() - i,
    {
        let ghost was = text::texts(r@);
        proof {
            reveal(Seq::filter);
            assert(all.take(i + 1).drop_last() =~= all.take(i as int));
            assert(all.take(i + 1).last() == all[i as int]);
        }
        if takes(sessions, set, &sessions[i]) {
            r.push(sessions[i].id.clone());
            proof {
                assert(text::texts(r@) =~= was.push(all[i as int].id@));
                assert(text::texts(r@) =~= all.take(i + 1).filter(taken).map_values(id));
            }
        }
        i += 1;
    }
    proof {
        assert(all.take(i as int) =~= all);
    }
    r
}

proof fn lemma_filter_from(all: Seq<SessionView>, keep: spec_fn(SessionView) -> bool, i: int)
    requires
        0 <= i < all.filter(keep).len(),
    ensures
        keep(all.filter(keep)[i]),
        exists|k: int| 0 <= k < all.len() && #[trigger] all[k] == all.filter(keep)[i],
    decreases all.len(),
{
    reveal(Seq::filter);
    if all.len() > 0 {
        let front = all.drop_last();
        if i < front.filter(keep).len() {
            lemma_filter_from(front, keep, i);
            let k = choose|k: int| 0 <= k < front.len() && #[trigger] front[k] == front.filter(keep)[i];
            assert(all[k] == all.filter(keep)[i]);
        } else {
            assert(all[all.len() - 1] == all.last());
        }
    }
}

/// A batch close takes only open sessions that aren't locked.
pub proof fn law_batch_close_spares(all: Seq<SessionView>, set: CloseSet, i: int)
    requires
        0 <= i < taken_ids(all, set).len(),
    ensures
        exists|k: int|
            0 <= k < all.len() && (#[trigger] all[k]).id@ == taken_ids(all, set)[i] && all[k].state.open()
                && !all[k].locked,
{
    let taken = |s: SessionView| is_taken(all, set, s);
    lemma_filter_from(all, taken, i);
    let k = choose|k: int| 0 <= k < all.len() && #[trigger] all[k] == all.filter(taken)[i];
    assert(taken(all[k]));
}

/// "Close others" spares the session it was asked on.
pub proof fn law_others_spares_itself(all: Seq<SessionView>, id: String)
    ensures
        !taken_ids(all, CloseSet::Others(id)).contains(id@),
{
    let set = CloseSet::Others(id);
    let taken = |s: SessionView| is_taken(all, set, s);
    assert forall|i: int| 0 <= i < taken_ids(all, set).len() implies taken_ids(all, set)[i] != id@ by {
        lemma_filter_from(all, taken, i);
        assert(is_taken(all, set, all.filter(taken)[i]));
    }
}

/// How a batch close went.
#[derive(Clone, Debug, PartialEq, Eq)]
pub enum Closing {
    /// This many closed.
    Done(usize),
    /// Nothing closed yet: one of these tabs holds other panes as well,
    /// so the user confirms first (then `Core::close_ids`).
    Confirm(Vec<String>),
}

/// What a command leads to.
#[derive(Debug, PartialEq, Eq)]
pub enum Run {
    /// It doesn't apply, there is no such session, or the surface does it.
    Nothing,
    Connect,
    Disconnect,
    Clone,
    Close,
    /// Lock the session, or unlock it.
    Lock(bool),
    ClearScreen,
    Focus,
    /// Send the special command of this name.
    SendSpecial(&'static str),
}

/// What a command leads to on a session that it applies to.
pub open spec fn effect(command: SessionCommand, locked: bool) -> Run {
    match command {
        SessionCommand::Connect => Run::Connect,
        SessionCommand::Disconnect => Run::Disconnect,
        SessionCommand::Clone => Run::Clone,
        SessionCommand::Close => Run::Close,
        SessionCommand::ToggleLock => Run::Lock(!locked),
        SessionCommand::ClearScreen => Run::ClearScreen,
        SessionCommand::Focus => Run::Focus,
        SessionCommand::SendBreak => Run::SendSpecial(BREAK),
        SessionCommand::Send => Run::Nothing,
    }
}

/// The first view with this id.
pub open spec fn view_with_id(all: Seq<SessionView>, id: Seq<char>) -> Option<int>
    decreases all.len(),
{
    if all.len() == 0 {
        None
    } else if all.first().id@ == id {
        Some(0)
    } else {
        match view_with_id(all.skip(1), id) {
            Some(i) => Some(i + 1),
            None => None,
        }
    }
}

fn find_view(all: &[SessionView], id: &str) -> (r: Option<usize>)
    ensures
        match r {
            Some(i) => view_with_id(all@, id@) == Some(i as int) && i < all@.len(),
            None => view_with_id(all@, id@) is None,
        },
{
    let mut i: usize = 0;
    proof {
        assert(all@.skip(0) =~= all@);
    }
    while i < all.len()
        invariant
            i <= all@.len(),
            view_with_id(all@, id@) == match view_with_id(all@.skip(i as int), id@) {
                Some(k) => Some(k + i),
                None => None::<int>,
            },
        decreases all@.len() - i,
    {
        proof {
            assert(all@.skip(i as int).skip(1) =~= all@.skip(i + 1));
        }
        if text::same(&all[i].id, id) {
            return Some(i);
        }
        i += 1;
    }
    None
}

/// What `command` on session `id` leads to, if it applies. `Send` is the
/// surface's own (a dialog or a line), so nothing happens here.
pub fn run(sessions: &[SessionView], id: &str, command: SessionCommand) -> (r: Run)
    ensures
        r == match view_with_id(sessions@, id@) {
            Some(i) => if command.applicable(sessions@[i]) {
                effect(command, sessions@[i].locked)
            } else {
                Run::Nothing
            },
            None => Run::Nothing,
        },
{
    match find_view(sessions, id) {
        Some(i) => {
            let s = &sessions[i];
            if !command.applies(s) {
                return Run::Nothing;
            }
            match command {
                SessionCommand::Connect => Run::Connect,
                SessionCommand::Disconnect => Run::Disconnect,
                SessionCommand::Clone => Run::Clone,
                SessionCommand::Close => Run::Close,
                SessionCommand::ToggleLock => Run::Lock(!s.locked),
                SessionCommand::ClearScreen => Run::ClearScreen,
                SessionCommand::Focus => Run::Focus,
                SessionCommand::SendBreak => Run::SendSpecial(BREAK),
                SessionCommand::Send => Run::Nothing,
            }
        },
        None => Run::Nothing,
    }
}

/// One of the sessions with these ids shares its tab with other panes.
pub open spec fn any_mixed(all: Seq<SessionView>, ids: Seq<Seq<char>>) -> bool {
    exists|i: int|
        0 <= i < all.len() && ids.contains((#[trigger] all[i]).id@) && (all[i].location matches Some(l) && l.mixed)
}

/// The ids that aren't those of locked sessions.
pub open spec fn unlocked(all: Seq<SessionView>, ids: Seq<Seq<char>>) -> Seq<Seq<char>> {
    ids.filter(|id: Seq<char>| !is_locked(all, id))
}

/// A locked session has this id.
pub open spec fn is_locked(all: Seq<SessionView>, id: Seq<char>) -> bool {
    exists|i: int| 0 <= i < all.len() && (#[trigger] all[i]).locked && all[i].id@ == id
}

/// Close a set of sessions, unless it takes a tab that holds other panes
/// too: then nothing is closed and the ids are to be confirmed. With it,
/// the ids to close now.
pub fn close_sessions(sessions: &[SessionView], set: &CloseSet) -> (r: (Closing, Vec<String>))
    ensures
        ({
            let ids = taken_ids(sessions@, *set);
            if any_mixed(sessions@, ids) {
                r.0 matches Closing::Confirm(c) && text::texts(c@) == ids && r.1@.len() == 0
            } else {
                r.0 == Closing::Done(ids.len() as usize) && text::texts(r.1@) == ids
            }
        }),
{
    let ids = close_set(sessions, set);
    let ghost all = text::texts(ids@);
    let mut mixed = false;
    let mut i: usize = 0;
    while i < sessions.len()
        invariant
            i <= sessions@.len(),
            all == text::texts(ids@),
            mixed == exists|j: int|
                0 <= j < i && all.contains((#[trigger] sessions@[j]).id@) && (sessions@[j].location matches Some(l)
                    && l.mixed),
        decreases sessions@.len() - i,
    {
        let split = match &sessions[i].location {
            Some(l) => l.mixed,
            None => false,
        };
        if split && text::contains_text(&ids, &sessions[i].id) {
            mixed = true;
        }
        i += 1;
    }
    proof {
        assert(all.len() == ids@.len());
    }
    if mixed {
        (Closing::Confirm(ids), Vec::new())
    } else {
        (Closing::Done(ids.len()), ids)
    }
}

fn find_locked(all: &[SessionView], id: &str) -> (r: bool)
    ensures
        r == is_locked(all@, id@),
{
    let mut i: usize = 0;
    while i < all.len()
        invariant
            i <= all@.len(),
            forall|j: int| 0 <= j < i ==> !((#[trigger] all@[j]).locked && all@[j].id@ == id@),
        decreases all@.len() - i,
    {
        if all[i].locked && text::same(&all[i].id, id) {
            proof {
                assert(all@[i as int].locked);
            }
            return true;
        }
        i += 1;
    }
    false
}

/// The ids to close (after a confirmation); locked sessions stay. Closing
/// several tabs at once leaves nothing on screen to say so, so a message
/// does.
pub fn close_ids(sessions: &[SessionView], ids: &[String]) -> (r: (Vec<String>, Option<Message>))
    ensures
        text::texts(r.0@) == unlocked(sessions@, text::texts(ids@)),
        match r.1 {
            Some(m) => r.0@.len() > 1 && m@ == message::said("toast-closed"@).number("count"@, r.0@.len() as int),
            None => r.0@.len() <= 1,
        },
{
    let ghost all = text::texts(ids@);
    let ghost keep = |id: Seq<char>| !is_locked(sessions@, id);
    let mut r: Vec<String> = Vec::new();
    let mut i: usize = 0;
    proof {
        reveal(Seq::filter);
        assert(all.take(0) =~= Seq::empty());
        assert(text::texts(r@) =~= Seq::empty());
    }
    while i < ids.len()
        invariant
            i <= ids@.len(),
            all == text::texts(ids@),
            all.len() == ids@.len(),
            keep == (|id: Seq<char>| !is_locked(sessions@, id)),
            text::texts(r@) == all.take(i as int).filter(keep),
        decreases ids@.len() - i,
    {
        let ghost was = text::texts(r@);
        proof {
            reveal(Seq::filter);
            assert(all.take(i + 1).drop_last() =~= all.take(i as int));
            assert(all.take(i + 1).last() == ids@[i as int]@);
        }
        if !find_locked(sessions, &ids[i]) {
            r.push(ids[i].clone());
            proof {
                assert(text::texts(r@) =~= was.push(ids@[i as int]@));
            }
        }
        i += 1;
    }
    proof {
        assert(all.take(i as int) =~= all);
    }
    let said = if r.len() > 1 {
        Some(Message::new("toast-closed").number("count", r.len() as i128))
    } else {
        None
    };
    (r, said)
}

proof fn lemma_filter_keeps(all: Seq<SessionView>, keep: spec_fn(SessionView) -> bool, k: int)
    requires
        0 <= k < all.len(),
        keep(all[k]),
    ensures
        all.filter(keep).contains(all[k]),
    decreases all.len(),
{
    reveal(Seq::filter);
    let front = all.drop_last();
    if k < front.len() {
        lemma_filter_keeps(front, keep, k);
        let i = choose|i: int| 0 <= i < front.filter(keep).len() && front.filter(keep)[i] == front[k];
        assert(all.filter(keep)[i] == all[k]);
    } else {
        let last = all.filter(keep).len() - 1;
        assert(all.filter(keep)[last] == all[k]);
    }
}

/// No two sessions have the same id.
pub open spec fn apart(all: Seq<SessionView>) -> bool {
    forall|i: int, j: int| 0 <= i < j < all.len() ==> (#[trigger] all[i]).id@ != (#[trigger] all[j]).id@
}

proof fn lemma_taken(all: Seq<SessionView>, set: CloseSet, m: int)
    requires
        apart(all),
        0 <= m < all.len(),
    ensures
        taken_ids(all, set).contains(all[m].id@) <==> is_taken(all, set, all[m]),
{
    let taken = |s: SessionView| is_taken(all, set, s);
    let kept = all.filter(taken);
    let ids = taken_ids(all, set);
    if is_taken(all, set, all[m]) {
        lemma_filter_keeps(all, taken, m);
        let i = choose|i: int| 0 <= i < kept.len() && kept[i] == all[m];
        assert(ids[i] == all[m].id@);
    }
    if ids.contains(all[m].id@) {
        let i = choose|i: int| 0 <= i < ids.len() && ids[i] == all[m].id@;
        lemma_filter_from(all, taken, i);
        let k = choose|k: int| 0 <= k < all.len() && #[trigger] all[k] == kept[i];
        assert(all[k].id@ == all[m].id@);
        assert(k == m);
    }
}

proof fn lemma_place(all: Seq<SessionView>, k: int)
    requires
        apart(all),
        0 <= k < all.len(),
    ensures
        place_by_id(all, all[k].id@) == place_of(all[k]),
    decreases all.len(),
{
    if k > 0 {
        assert(all[0].id@ != all[k].id@);
        let rest = all.skip(1);
        assert forall|i: int, j: int| 0 <= i < j < rest.len() implies (#[trigger] rest[i]).id@ != (#[trigger] rest[j]).id@ by {
            assert(rest[i] == all[i + 1] && rest[j] == all[j + 1]);
        }
        lemma_place(rest, k - 1);
        assert(rest[k - 1] == all[k]);
    }
}

/// A batch close takes nothing that is locked or whose tab is gone already,
/// whatever is asked for.
pub proof fn law_locked_and_gone_stay(all: Seq<SessionView>, set: CloseSet, m: int)
    requires
        apart(all),
        0 <= m < all.len(),
        all[m].locked || all[m].state is Failed || all[m].state is Gone || all[m].state is Closed,
    ensures
        !taken_ids(all, set).contains(all[m].id@),
{
    lemma_taken(all, set, m);
}

/// "Close to the right": of two sessions that have a place, the second is
/// taken exactly when both are in one window and its tab stands further
/// right, by one or by more.
pub proof fn law_right_of_takes_what_stands_right(all: Seq<SessionView>, k: int, m: int)
    requires
        apart(all),
        0 <= k < all.len(),
        0 <= m < all.len(),
        all[m].state !is Failed && all[m].state !is Gone && all[m].state !is Closed && !all[m].locked,
    ensures
        taken_ids(all, CloseSet::RightOf(all[k].id)).contains(all[m].id@) <==> (all[k].location matches Some(a)
            && all[m].location matches Some(b) && a.window == b.window && b.tab_index >= a.tab_index + 1),
{
    lemma_taken(all, CloseSet::RightOf(all[k].id), m);
    lemma_place(all, k);
}

/// "Close others" takes every other session in the window, and none from
/// another one.
pub proof fn law_others_takes_the_window(all: Seq<SessionView>, k: int, m: int)
    requires
        apart(all),
        0 <= k < all.len(),
        0 <= m < all.len(),
        all[m].state !is Failed && all[m].state !is Gone && all[m].state !is Closed && !all[m].locked,
    ensures
        taken_ids(all, CloseSet::Others(all[k].id)).contains(all[m].id@) <==> (all[k].location matches Some(a)
            && all[m].location matches Some(b) && a.window == b.window && m != k),
{
    lemma_taken(all, CloseSet::Others(all[k].id), m);
    lemma_place(all, k);
}

/// "Close ended" takes what ended or failed in any window, never what is
/// connected, connecting, opening or waiting; "close waiting" takes what
/// waits with its shim there, and nothing else.
pub proof fn law_ended_and_waiting(all: Seq<SessionView>, m: int)
    requires
        apart(all),
        0 <= m < all.len(),
        !all[m].locked,
    ensures
        taken_ids(all, CloseSet::Ended).contains(all[m].id@) <==> (match all[m].state {
            State::LoginFailed(_) | State::Unreachable(_) | State::Disconnected(_) | State::Ended(_) => true,
            State::Opening | State::Detached | State::Waiting | State::Connecting | State::Connected => false,
            State::Failed(_) | State::Gone | State::Closed => false,
        }),
        taken_ids(all, CloseSet::Waiting).contains(all[m].id@) <==> all[m].state == State::Waiting && all[m].linked,
{
    lemma_taken(all, CloseSet::Ended, m);
    lemma_taken(all, CloseSet::Waiting, m);
}

/// What is taken comes in the order of the sessions, each once.
pub proof fn law_taken_in_order(all: Seq<SessionView>, set: CloseSet)
    ensures
        taken_ids(all, set).len() <= all.len(),
        exists|at: Seq<int>|
            #![trigger at.len()]
            {
                &&& at.len() == taken_ids(all, set).len()
                &&& forall|i: int| 0 <= i < at.len() ==> 0 <= #[trigger] at[i] < all.len() && all[at[i]].id@ == taken_ids(all, set)[i]
                &&& forall|i: int, j: int| 0 <= i < j < at.len() ==> at[i] < at[j]
            },
{
    let taken = |s: SessionView| is_taken(all, set, s);
    let at = lemma_filter_places(all, taken);
    let ids = taken_ids(all, set);
    assert forall|i: int| 0 <= i < at.len() implies 0 <= #[trigger] at[i] < all.len() && all[at[i]].id@ == ids[i] by {
        assert(all[at[i]] == all.filter(taken)[i]);
    }
    assert(at.len() == ids.len());
}

proof fn lemma_filter_places(all: Seq<SessionView>, keep: spec_fn(SessionView) -> bool) -> (at: Seq<int>)
    ensures
        at.len() == all.filter(keep).len(),
        at.len() <= all.len(),
        forall|i: int| 0 <= i < at.len() ==> 0 <= #[trigger] at[i] < all.len() && all[at[i]] == all.filter(keep)[i],
        forall|i: int, j: int| 0 <= i < j < at.len() ==> at[i] < at[j],
    decreases all.len(),
{
    reveal(Seq::filter);
    if all.len() == 0 {
        Seq::empty()
    } else {
        let before = lemma_filter_places(all.drop_last(), keep);
        if keep(all.last()) {
            before.push(all.len() - 1)
        } else {
            before
        }
    }
}

/// When each command applies: connecting to what is not connected and can
/// be, disconnecting what is or is about to be, closing what is not locked,
/// sending only to what is connected.
pub proof fn law_when_commands_apply(s: SessionView)
    ensures
        SessionCommand::Connect.applicable(s) <==> s.linked && (match s.state {
            State::Waiting | State::LoginFailed(_) | State::Unreachable(_) | State::Disconnected(_) | State::Ended(_) => true,
            _ => false,
        }),
        SessionCommand::Disconnect.applicable(s) <==> s.linked && (s.state == State::Connecting || s.state
            == State::Connected),
        SessionCommand::Clone.applicable(s),
        s.state == State::Closed || s.state == State::Gone || s.state is Failed
            ==> !SessionCommand::Close.applicable(s) && !SessionCommand::ToggleLock.applicable(s)
            && !SessionCommand::ClearScreen.applicable(s),
        s.state != State::Closed && s.state != State::Gone && s.state !is Failed
            ==> SessionCommand::Close.applicable(s) == !s.locked && SessionCommand::ToggleLock.applicable(s)
            && SessionCommand::ClearScreen.applicable(s) == s.linked,
        SessionCommand::Focus.applicable(s) <==> s.location is Some,
        SessionCommand::Send.applicable(s) <==> s.linked && s.state == State::Connected,
        SessionCommand::SendBreak.applicable(s) <==> s.linked && s.state == State::Connected && exists|i: int|
            0 <= i < s.specials@.len() && (#[trigger] s.specials@[i])@ == "brk"@,
{
    let specials = text::texts(s.specials@);
    if takes_break(s) {
        let i = choose|i: int| 0 <= i < specials.len() && specials[i] == BREAK@;
        assert(s.specials@[i]@ == "brk"@);
    }
    if exists|i: int| 0 <= i < s.specials@.len() && (#[trigger] s.specials@[i])@ == "brk"@ {
        let i = choose|i: int| 0 <= i < s.specials@.len() && (#[trigger] s.specials@[i])@ == "brk"@;
        assert(specials[i] == BREAK@);
    }
}

/// Each command does its own thing: no two lead to the same, locking turns
/// the lock round, and Break goes out under its name.
pub proof fn law_commands_do_what_they_say(a: SessionCommand, b: SessionCommand, locked: bool)
    ensures
        effect(a, locked) == effect(b, locked) ==> a == b,
        effect(SessionCommand::ToggleLock, locked) == Run::Lock(!locked),
        effect(SessionCommand::Close, locked) is Close,
        effect(SessionCommand::Connect, locked) is Connect,
        effect(SessionCommand::Disconnect, locked) is Disconnect,
        effect(SessionCommand::Clone, locked) is Clone,
        effect(SessionCommand::ClearScreen, locked) is ClearScreen,
        effect(SessionCommand::Focus, locked) is Focus,
        effect(SessionCommand::SendBreak, locked) matches Run::SendSpecial(name) && name@ == "brk"@,
        effect(SessionCommand::Send, locked) is Nothing,
{
}

/// A command is for the first session with its id, and for nothing where
/// there is none.
pub proof fn law_command_finds_its_session(all: Seq<SessionView>, id: Seq<char>)
    ensures
        match view_with_id(all, id) {
            Some(i) => 0 <= i < all.len() && all[i].id@ == id && forall|j: int| 0 <= j < i ==> (#[trigger] all[j]).id@ != id,
            None => forall|j: int| 0 <= j < all.len() ==> (#[trigger] all[j]).id@ != id,
        },
    decreases all.len(),
{
    if all.len() > 0 && all.first().id@ != id {
        let rest = all.skip(1);
        law_command_finds_its_session(rest, id);
        assert forall|j: int| 0 < j < all.len() implies #[trigger] all[j] == rest[j - 1] by {}
    }
}

/// After a confirmation, a session is closed exactly when it was asked for
/// and is not locked; the order stays.
pub proof fn law_confirmed_close_spares_locked(all: Seq<SessionView>, ids: Seq<Seq<char>>, id: Seq<char>)
    ensures
        unlocked(all, ids).contains(id) <==> ids.contains(id) && forall|i: int|
            0 <= i < all.len() && (#[trigger] all[i]).id@ == id ==> !all[i].locked,
    decreases ids.len(),
{
    reveal(Seq::filter);
    let keep = |x: Seq<char>| !is_locked(all, x);
    if is_locked(all, id) {
        let i = choose|i: int| 0 <= i < all.len() && (#[trigger] all[i]).locked && all[i].id@ == id;
        assert(all[i].locked);
    }
    if ids.len() > 0 {
        let front = ids.drop_last();
        law_confirmed_close_spares_locked(all, front, id);
        let a = front.filter(keep);
        let b = ids.filter(keep);
        assert(ids[ids.len() - 1] == ids.last());
        if front.contains(id) {
            let i = choose|i: int| 0 <= i < front.len() && front[i] == id;
            assert(ids[i] == id);
        }
        if ids.contains(id) && !front.contains(id) {
            let i = choose|i: int| 0 <= i < ids.len() && ids[i] == id;
            if i < front.len() {
                assert(front[i] == id);
            }
        }
        if a.contains(id) {
            let i = choose|i: int| 0 <= i < a.len() && a[i] == id;
            assert(b[i] == id);
        }
        if keep(ids.last()) {
            assert(b[b.len() - 1] == ids.last());
        }
        if b.contains(id) && !a.contains(id) {
            let i = choose|i: int| 0 <= i < b.len() && b[i] == id;
            if i < a.len() {
                assert(a[i] == id);
            }
        }
    }
}

/// A batch close is confirmed first exactly when one of its sessions shares
/// its tab with other panes.
pub proof fn law_shared_tabs_are_confirmed(all: Seq<SessionView>, set: CloseSet)
    requires
        apart(all),
    ensures
        any_mixed(all, taken_ids(all, set)) <==> exists|m: int|
            0 <= m < all.len() && is_taken(all, set, #[trigger] all[m]) && (all[m].location matches Some(l) && l.mixed),
{
    let ids = taken_ids(all, set);
    if any_mixed(all, ids) {
        let i = choose|i: int|
            0 <= i < all.len() && ids.contains((#[trigger] all[i]).id@) && (all[i].location matches Some(l) && l.mixed);
        lemma_taken(all, set, i);
        assert(is_taken(all, set, all[i]));
    }
    if exists|m: int| 0 <= m < all.len() && is_taken(all, set, #[trigger] all[m]) && (all[m].location matches Some(l) && l.mixed) {
        let m = choose|m: int|
            0 <= m < all.len() && is_taken(all, set, #[trigger] all[m]) && (all[m].location matches Some(l) && l.mixed);
        lemma_taken(all, set, m);
    }
}

/// A session's place is found by its id, that of the first with it; a session
/// is locked where one of that id is.
pub proof fn law_places_by_id(all: Seq<SessionView>, s: SessionView, id: Seq<char>)
    ensures
        place_by_id(Seq::empty(), id) is None,
        s.id@ == id ==> (s.location matches Some(l) ==> place_by_id(seq![s] + all, id) == Some(
            (l.window as int, l.tab_index as int),
        )),
        s.id@ == id && s.location is None ==> place_by_id(seq![s] + all, id) is None,
        s.id@ != id ==> place_by_id(seq![s] + all, id) == place_by_id(all, id),
        !is_locked(Seq::empty(), id),
        is_locked(all.push(s), id) <==> is_locked(all, id) || (s.locked && s.id@ == id),
{
    assert((seq![s] + all).skip(1) =~= all);
    assert((seq![s] + all).first() == s);
    if is_locked(all, id) {
        let i = choose|i: int| 0 <= i < all.len() && (#[trigger] all[i]).locked && all[i].id@ == id;
        assert(all.push(s)[i].locked);
    }
    if s.locked && s.id@ == id {
        assert(all.push(s)[all.len() as int].locked);
    }
    if is_locked(all.push(s), id) && !(s.locked && s.id@ == id) {
        let i = choose|i: int| 0 <= i < all.push(s).len() && (#[trigger] all.push(s)[i]).locked && all.push(s)[i].id@ == id;
        assert(all[i].locked);
    }
}

} // verus!
