//! NativeTerm's core, without UI: the sessions that are open, and what
//! every command and every report does to them. The program around it
//! serves the pipe, drives Terminal and keeps `state.db`; it hands over
//! what came in and does what is answered.

use vstd::prelude::*;

use crate::session;
use crate::session::{Session, State};
use crate::tabs;
use crate::tabs::Snapshot;
use crate::text;

verus! {

/// `state.db` setting: close NativeTerm's tabs when NativeTerm exits.
pub const CLOSE_ON_EXIT_SETTING: &'static str = "close_tabs_on_exit";

/// `state.db` setting: reconnect dropped sessions by themselves.
pub const AUTO_RECONNECT_SETTING: &'static str = "auto_reconnect";

/// A host to open: its alias and the label it is shown with.
#[derive(Clone, Debug)]
pub struct HostRequest {
    pub alias: String,
    pub label: String,
    /// A clone: open without port forwards.
    pub no_forwards: bool,
    /// Typed after every login (`NativeTermOnLogin`).
    pub on_login: Option<String>,
}

impl HostRequest {
    pub fn new(alias: String, label: String) -> (r: HostRequest)
        ensures
            r == (HostRequest { alias, label, no_forwards: false, on_login: None }),
    {
        HostRequest { alias, label, no_forwards: false, on_login: None }
    }
}

/// A tab to open.
#[derive(Clone, Debug, PartialEq, Eq)]
pub struct TabSpec {
    pub terminal_session: String,
    pub label: String,
    pub session: String,
    pub alias: String,
    /// Connect only when told to.
    pub wait: bool,
    pub no_forwards: bool,
}

/// A session in `state.db`.
#[derive(Clone, Debug, PartialEq, Eq)]
pub struct Record {
    pub id: String,
    pub terminal_session: String,
    pub current_terminal_session: Option<String>,
    pub label: String,
    pub alias: String,
    pub opened_at: i64,
    pub window_number: Option<i64>,
    pub tab_index: Option<i64>,
    pub no_forwards: bool,
    pub locked: bool,
    /// The shim's process and when it started.
    pub shim: Option<(u32, u64)>,
}

/// What NativeTerm tells a shim.
#[derive(Clone, Debug, PartialEq, Eq)]
pub enum AppMessage {
    Welcome { protocol: u32 },
    /// Wait: the pane is being replaced.
    Hold,
    /// Be an ordinary shell.
    LocalShell,
    Connect,
    Disconnect,
    Close,
    ClearScreen,
    SendText { text: String, enter: bool },
    SendSpecial { name: String },
}

/// What `state.db` is told after a session changed: one that ended or came
/// back is recorded.
#[derive(Clone, Debug, PartialEq, Eq)]
pub enum Recording {
    Nothing,
    Closed,
    /// It came back in the tab with this GUID.
    Reopened(Option<String>),
}

/// What is recorded of a change.
pub open spec fn recorded(before: State, after: Session) -> Recording {
    if before.open() && !after.state.open() {
        Recording::Closed
    } else if !before.open() && after.state.open() {
        Recording::Reopened(after.current_terminal_session)
    } else {
        Recording::Nothing
    }
}

pub(crate) fn recording(was_open: bool, after: &Session) -> (r: Recording)
    ensures
        forall|before: State| before.open() == was_open ==> r == #[trigger] recorded(before, *after),
{
    let open = after.state.is_open();
    if was_open && !open {
        Recording::Closed
    } else if !was_open && open {
        Recording::Reopened(text::optional_copy(&after.current_terminal_session))
    } else {
        Recording::Nothing
    }
}

/// The sessions and what is known of Terminal's windows.
pub struct Core {
    pub sessions: Vec<Session>,
    /// Closed with their window in an earlier run; only matched against
    /// restored placeholders, not shown.
    pub restorable: Vec<Session>,
    pub snapshot: Snapshot,
    /// Terminal windows in the order NativeTerm first saw them, for
    /// stable window numbers (Z order changes with every activation).
    pub window_order: Vec<isize>,
    /// Each saved host's current name, by alias.
    pub host_labels: Vec<(String, String)>,
    /// Reconnect dropped sessions by themselves (a setting).
    pub auto_reconnect: bool,
    /// The tab list is shown: scan every tab even without sessions.
    pub all_tabs: bool,
    /// The Terminal window that was last in front.
    pub last_terminal: isize,
}

/// The first session with this id.
pub open spec fn with_id(sessions: Seq<Session>, id: Seq<char>) -> Option<int>
    decreases sessions.len(),
{
    if sessions.len() == 0 {
        None
    } else if sessions.first().id@ == id {
        Some(0)
    } else {
        match with_id(sessions.skip(1), id) {
            Some(i) => Some(i + 1),
            None => None,
        }
    }
}

pub proof fn lemma_with_id(sessions: Seq<Session>, id: Seq<char>)
    ensures
        match with_id(sessions, id) {
            Some(i) => 0 <= i < sessions.len() && sessions[i].id@ == id,
            None => true,
        },
    decreases sessions.len(),
{
    if sessions.len() > 0 && sessions.first().id@ != id {
        lemma_with_id(sessions.skip(1), id);
    }
}

/// The place of the first session with this id.
pub fn find_id(sessions: &[Session], id: &str) -> (r: Option<usize>)
    ensures
        match r {
            Some(i) => with_id(sessions@, id@) == Some(i as int) && i < sessions@.len(),
            None => with_id(sessions@, id@) is None,
        },
{
    let mut i: usize = 0;
    proof {
        assert(sessions@.skip(0) =~= sessions@);
    }
    while i < sessions.len()
        invariant
            i <= sessions@.len(),
            with_id(sessions@, id@) == match with_id(sessions@.skip(i as int), id@) {
                Some(k) => Some(k + i),
                None => None::<int>,
            },
        decreases sessions@.len() - i,
    {
        proof {
            assert(sessions@.skip(i as int).skip(1) =~= sessions@.skip(i + 1));
        }
        if text::same(&sessions[i].id, id) {
            return Some(i);
        }
        i += 1;
    }
    None
}

/// The labels of the open sessions, in order.
pub open spec fn open_labels(sessions: Seq<Session>) -> Seq<Seq<char>>
    decreases sessions.len(),
{
    if sessions.len() == 0 {
        Seq::empty()
    } else {
        let before = open_labels(sessions.drop_last());
        if sessions.last().state.open() {
            before.push(sessions.last().label@)
        } else {
            before
        }
    }
}

/// The labels of the open sessions.
pub fn labels(sessions: &[Session]) -> (r: Vec<String>)
    ensures
        text::texts(r@) == open_labels(sessions@),
{
    let mut r: Vec<String> = Vec::new();
    let mut i: usize = 0;
    proof {
        assert(sessions@.take(0) =~= Seq::empty());
        assert(text::texts(r@) =~= Seq::empty());
    }
    while i < sessions.len()
        invariant
            i <= sessions@.len(),
            text::texts(r@) == open_labels(sessions@.take(i as int)),
        decreases sessions@.len() - i,
    {
        let ghost before = text::texts(r@);
        proof {
            assert(sessions@.take(i + 1).drop_last() =~= sessions@.take(i as int));
            assert(sessions@.take(i + 1).last() == sessions@[i as int]);
        }
        if sessions[i].state.is_open() {
            r.push(sessions[i].label.clone());
            proof {
                assert(text::texts(r@) =~= before.push(sessions@[i as int].label@));
            }
        }
        i += 1;
    }
    proof {
        assert(sessions@.take(i as int) =~= sessions@);
    }
    r
}

/// What is typed after a login: nothing where the text is blank.
pub open spec fn login_command(command: Option<String>) -> Option<String> {
    match command {
        Some(c) => if text::trimmed(c@).len() == 0 {
            None
        } else {
            command
        },
        None => None,
    }
}

pub(crate) fn not_blank(command: &Option<String>) -> (r: Option<String>)
    ensures
        r == login_command(*command),
{
    match command {
        Some(c) => if text::is_blank(c) {
            None
        } else {
            Some(c.clone())
        },
        None => None,
    }
}

/// `s` is the new session of a host opened under `label`.
pub open spec fn is_opened(s: Session, host: HostRequest, label: Seq<char>, ids: (String, String)) -> bool {
    &&& session::is_new(
        Session { no_forwards: false, on_login: None, ..s },
        ids.1@,
        ids.0@,
        label,
        host.alias@,
    )
    &&& s.state is Opening
    &&& s.no_forwards == host.no_forwards
    &&& s.on_login == login_command(host.on_login)
}

/// `spec` opens that session's tab.
pub open spec fn opens(spec: TabSpec, s: Session, wait: bool) -> bool {
    &&& spec.terminal_session@ == s.terminal_session@
    &&& spec.label@ == s.label@
    &&& spec.session@ == s.id@
    &&& spec.alias@ == s.alias@
    &&& spec.wait == wait
    &&& spec.no_forwards == s.no_forwards
}

/// The sessions were opened one after the other, each under the first free
/// label.
pub open spec fn are_opened(
    before: Seq<Session>,
    after: Seq<Session>,
    hosts: Seq<HostRequest>,
    ids: Seq<(String, String)>,
) -> bool {
    &&& after.len() == before.len() + hosts.len()
    &&& before.is_prefix_of(after)
    &&& forall|k: int|
        0 <= k < hosts.len() ==> is_opened(
            #[trigger] after[before.len() + k],
            hosts[k],
            session::free_label(hosts[k].label@, open_labels(after.take(before.len() + k))),
            ids[k],
        )
}

/// Whether the shim recorded for a session still runs (unknown: assumed,
/// the tab is looked for as before). `started`: when the process with the
/// shim's number started, if there is one.
pub open spec fn is_alive(shim: Option<(u32, u64)>, started: Option<u64>) -> bool {
    shim matches Some(s) ==> started == Some(s.1)
}

pub fn shim_alive(shim: Option<(u32, u64)>, started: Option<u64>) -> (r: bool)
    ensures
        r == is_alive(shim, started),
{
    match shim {
        Some((_, at)) => match started {
            Some(s) => s == at,
            None => false,
        },
        None => true,
    }
}

/// The records whose shim still runs, in order.
pub open spec fn living(records: Seq<Record>, started: Seq<Option<u64>>) -> Seq<Record>
    decreases records.len(),
{
    if records.len() == 0 {
        Seq::empty()
    } else {
        let before = living(records.drop_last(), started);
        if is_alive(records.last().shim, started[records.len() - 1]) {
            before.push(records.last())
        } else {
            before
        }
    }
}

/// The ids of the others.
pub open spec fn lost_ids(records: Seq<Record>, started: Seq<Option<u64>>) -> Seq<Seq<char>>
    decreases records.len(),
{
    if records.len() == 0 {
        Seq::empty()
    } else {
        let before = lost_ids(records.drop_last(), started);
        if is_alive(records.last().shim, started[records.len() - 1]) {
            before
        } else {
            before.push(records.last().id@)
        }
    }
}

/// `s` is the session of a record.
pub open spec fn is_of(s: Session, r: Record) -> bool {
    &&& session::is_new(
        Session {
            current_terminal_session: None,
            no_forwards: false,
            locked: false,
            last_position: None,
            ..s
        },
        r.id@,
        r.terminal_session@,
        r.label@,
        r.alias@,
    )
    &&& s.current_terminal_session == r.current_terminal_session
    &&& s.no_forwards == r.no_forwards
    &&& s.locked == r.locked
    &&& s.last_position == match (r.window_number, r.tab_index) {
        (Some(w), Some(t)) => Some((w as usize, t as usize)),
        _ => None,
    }
}

fn of_record(r: &Record, state: State) -> (s: Session)
    ensures
        is_of(s, *r),
        s.state == state,
{
    let mut s = Session::new(r.id.clone(), r.terminal_session.clone(), r.label.clone(), r.alias.clone(), state);
    s.current_terminal_session = text::optional_copy(&r.current_terminal_session);
    s.no_forwards = r.no_forwards;
    s.locked = r.locked;
    s.last_position = match (r.window_number, r.tab_index) {
        (Some(w), Some(t)) => Some((w as usize, t as usize)),
        _ => None,
    };
    s
}

/// How many sessions have a tab that wasn't found.
pub open spec fn unlocated_count(sessions: Seq<Session>) -> int
    decreases sessions.len(),
{
    if sessions.len() == 0 {
        0
    } else {
        let s = sessions.last();
        unlocated_count(sessions.drop_last()) + if s.state.open() && s.link is Some && s.location is None {
            1int
        } else {
            0int
        }
    }
}

impl Core {
    /// Pick up the sessions that `state.db` knows. A session whose shim is
    /// gone (shut down, signed out, the tab closed while NativeTerm wasn't
    /// running) is gone with its tab: its id is in the second part, to be
    /// kept restorable, in case Terminal restores the pane.
    pub fn start(open: &[Record], started: &[Option<u64>], restorable: &[Record], auto_reconnect: Option<String>) -> (r: (
        Core,
        Vec<String>,
    ))
        requires
            open@.len() == started@.len(),
        ensures
            r.0.sessions@.len() == living(open@, started@).len(),
            forall|i: int|
                0 <= i < r.0.sessions@.len() ==> is_of(#[trigger] r.0.sessions@[i], living(open@, started@)[i])
                    && r.0.sessions@[i].state is Detached,
            text::texts(r.1@) == lost_ids(open@, started@),
            r.0.restorable@.len() == restorable@.len(),
            forall|i: int|
                0 <= i < restorable@.len() ==> is_of(#[trigger] r.0.restorable@[i], restorable@[i])
                    && r.0.restorable@[i].state is Closed,
            r.0.snapshot@ == (tabs::SnapshotModel { windows: Seq::empty(), complete: false }),
            r.0.window_order@.len() == 0,
            r.0.host_labels@.len() == 0,
            r.0.auto_reconnect == (auto_reconnect matches Some(v) && v@ == "1"@),
            !r.0.all_tabs,
            r.0.last_terminal == 0,
    {
        let mut sessions: Vec<Session> = Vec::new();
        let mut lost: Vec<String> = Vec::new();
        let mut i: usize = 0;
        proof {
            assert(open@.take(0) =~= Seq::empty());
            assert(text::texts(lost@) =~= Seq::empty());
        }
        while i < open.len()
            invariant
                i <= open@.len() == started@.len(),
                sessions@.len() == living(open@.take(i as int), started@).len(),
                forall|j: int|
                    0 <= j < sessions@.len() ==> is_of(#[trigger] sessions@[j], living(open@.take(i as int), started@)[j])
                        && sessions@[j].state is Detached,
                text::texts(lost@) == lost_ids(open@.take(i as int), started@),
            decreases open@.len() - i,
        {
            let record = &open[i];
            let ghost was = text::texts(lost@);
            proof {
                assert(open@.take(i + 1).drop_last() =~= open@.take(i as int));
                assert(open@.take(i + 1).last() == *record);
            }
            if shim_alive(record.shim, started[i]) {
                sessions.push(of_record(record, State::Detached));
            } else {
                lost.push(record.id.clone());
                proof {
                    assert(text::texts(lost@) =~= was.push(record.id@));
                }
            }
            i += 1;
        }
        proof {
            assert(open@.take(i as int) =~= open@);
        }
        let mut closed: Vec<Session> = Vec::new();
        let mut k: usize = 0;
        while k < restorable.len()
            invariant
                k <= restorable@.len(),
                closed@.len() == k,
                forall|j: int|
                    0 <= j < k ==> is_of(#[trigger] closed@[j], restorable@[j]) && closed@[j].state is Closed,
            decreases restorable@.len() - k,
        {
            closed.push(of_record(&restorable[k], State::Closed));
            k += 1;
        }
        let auto = match auto_reconnect {
            Some(v) => text::same(&v, "1"),
            None => false,
        };
        let mut snapshot = Snapshot::nothing();
        snapshot.complete = false;
        let core = Core {
            sessions,
            restorable: closed,
            snapshot,
            window_order: Vec::new(),
            host_labels: Vec::new(),
            auto_reconnect: auto,
            all_tabs: false,
            last_terminal: 0,
        };
        (core, lost)
    }

    /// Open tabs for `hosts`: a session for each, under a label that no
    /// open session has, and the tab to open. More than a few connect
    /// through the queue. `ids` are new ones, for the tab and the session.
    pub fn open(&mut self, hosts: &[HostRequest], ids: &[(String, String)]) -> (r: Vec<TabSpec>)
        requires
            hosts@.len() == ids@.len(),
        ensures
            are_opened(old(self).sessions@, final(self).sessions@, hosts@, ids@),
            r@.len() == hosts@.len(),
            forall|k: int|
                0 <= k < hosts@.len() ==> opens(
                    #[trigger] r@[k],
                    final(self).sessions@[old(self).sessions@.len() + k],
                    hosts@.len() > session::PACED_OVER,
                ),
            *final(self) == (Core { sessions: final(self).sessions, ..*old(self) }),
    {
        let ghost before = self.sessions@;
        let paced = hosts.len() > session::PACED_OVER;
        let mut specs: Vec<TabSpec> = Vec::new();
        let mut taken = labels(&self.sessions);
        let mut k: usize = 0;
        while k < hosts.len()
            invariant
                k <= hosts@.len() == ids@.len(),
                before == old(self).sessions@,
                paced == (hosts@.len() > session::PACED_OVER),
                *self == (Core { sessions: self.sessions, ..*old(self) }),
                are_opened(before, self.sessions@, hosts@.take(k as int), ids@),
                text::texts(taken@) == open_labels(self.sessions@),
                specs@.len() == k,
                forall|j: int|
                    0 <= j < k ==> opens(#[trigger] specs@[j], self.sessions@[before.len() + j], paced),
            decreases hosts@.len() - k,
        {
            let host = &hosts[k];
            let ghost now = self.sessions@;
            let ghost was = text::texts(taken@);
            let label = session::unique_label(&host.label, &taken);
            let mut s = Session::new(
                ids[k].1.clone(),
                ids[k].0.clone(),
                label.clone(),
                host.alias.clone(),
                State::Opening,
            );
            s.no_forwards = host.no_forwards;
            s.on_login = not_blank(&host.on_login);
            let ghost new = s;
            specs.push(
                TabSpec {
                    terminal_session: ids[k].0.clone(),
                    label: label.clone(),
                    session: ids[k].1.clone(),
                    alias: host.alias.clone(),
                    wait: paced,
                    no_forwards: host.no_forwards,
                },
            );
            taken.push(label);
            self.sessions.push(s);
            proof {
                let after = self.sessions@;
                assert(text::texts(taken@) =~= was.push(new.label@));
                assert(after.drop_last() =~= now);
                assert(after.last() == new);
                assert(before.is_prefix_of(after)) by {
                    assert(after.take(before.len() as int) =~= now.take(before.len() as int));
                }
                assert forall|j: int| 0 <= j < k + 1 implies is_opened(
                    #[trigger] after[before.len() + j],
                    hosts@.take(k + 1)[j],
                    session::free_label(hosts@.take(k + 1)[j].label@, open_labels(after.take(before.len() + j))),
                    ids@[j],
                ) by {
                    if j < k {
                        assert(now[before.len() + j] == after[before.len() + j]);
                        assert(hosts@.take(k as int)[j] == hosts@.take(k + 1)[j]);
                        assert(after.take(before.len() + j) =~= now.take(before.len() + j));
                    } else {
                        assert(after.take(before.len() + k) =~= now);
                    }
                }
                assert forall|j: int| 0 <= j < k + 1 implies opens(
                    #[trigger] specs@[j],
                    after[before.len() + j],
                    paced,
                ) by {
                    if j < k {
                        assert(now[before.len() + j] == after[before.len() + j]);
                    }
                }
            }
            k += 1;
        }
        proof {
            assert(hosts@.take(k as int) =~= hosts@);
        }
        specs
    }

    /// Sessions whose tab NativeTerm hasn't found (a split tab that isn't
    /// selected shows no pane titles, for example).
    pub fn unlocated(&self) -> (r: usize)
        ensures
            r == unlocated_count(self.sessions@),
    {
        let mut n: usize = 0;
        let mut i: usize = 0;
        proof {
            assert(self.sessions@.take(0) =~= Seq::empty());
        }
        while i < self.sessions.len()
            invariant
                i <= self.sessions@.len(),
                n <= i,
                n == unlocated_count(self.sessions@.take(i as int)),
            decreases self.sessions@.len() - i,
        {
            let s = &self.sessions[i];
            proof {
                assert(self.sessions@.take(i + 1).drop_last() =~= self.sessions@.take(i as int));
                assert(self.sessions@.take(i + 1).last() == *s);
            }
            if s.state.is_open() && s.link.is_some() && s.location.is_none() {
                n += 1;
            }
            i += 1;
        }
        proof {
            assert(self.sessions@.take(i as int) =~= self.sessions@);
        }
        n
    }
}

/// Opening tabs never gives two open sessions the same label.
pub proof fn law_open_keeps_labels_apart(
    before: Seq<Session>,
    after: Seq<Session>,
    hosts: Seq<HostRequest>,
    ids: Seq<(String, String)>,
)
    requires
        are_opened(before, after, hosts, ids),
        open_labels(before).no_duplicates(),
    ensures
        open_labels(after).no_duplicates(),
    decreases hosts.len(),
{
    if hosts.len() == 0 {
        assert(after =~= before);
    } else {
        let front = after.drop_last();
        let n = hosts.len() - 1;
        assert(before.is_prefix_of(front)) by {
            assert(front.take(before.len() as int) =~= after.take(before.len() as int));
        }
        assert forall|k: int| 0 <= k < n implies is_opened(
            #[trigger] front[before.len() + k],
            hosts.drop_last()[k],
            session::free_label(hosts.drop_last()[k].label@, open_labels(front.take(before.len() + k))),
            ids[k],
        ) by {
            assert(after[before.len() + k] == front[before.len() + k]);
            assert(front.take(before.len() + k) =~= after.take(before.len() + k));
        }
        law_open_keeps_labels_apart(before, front, hosts.drop_last(), ids);
        assert(after.take(before.len() + n) =~= front);
        assert(after[before.len() + n] == after.last());
        session::law_unique_label_is_free(hosts[n].label@, open_labels(front));
    }
}

/// A session is found by its id: the first with it, or none at all.
pub proof fn law_first_with_id(all: Seq<Session>, id: Seq<char>)
    ensures
        match with_id(all, id) {
            Some(i) => 0 <= i < all.len() && all[i].id@ == id && forall|j: int| 0 <= j < i ==> (#[trigger] all[j]).id@ != id,
            None => forall|j: int| 0 <= j < all.len() ==> (#[trigger] all[j]).id@ != id,
        },
        forall|i: int|
            0 <= i < all.len() && (#[trigger] all[i]).id@ == id && (forall|j: int| 0 <= j < i ==> (#[trigger] all[j]).id@ != id)
                ==> with_id(all, id) == Some(i),
    decreases all.len(),
{
    if all.len() > 0 {
        let rest = all.skip(1);
        law_first_with_id(rest, id);
        assert forall|j: int| 0 < j < all.len() implies #[trigger] all[j] == rest[j - 1] by {}
        assert(all[0] == all.first());
        assert forall|i: int|
            0 <= i < all.len() && (#[trigger] all[i]).id@ == id && (forall|j: int| 0 <= j < i ==> (#[trigger] all[j]).id@ != id) implies with_id(
            all,
            id,
        ) == Some(i) by {
            if i > 0 {
                assert(all[0].id@ != id);
                assert(rest[i - 1] == all[i]);
                assert forall|j: int| 0 <= j < i - 1 implies (#[trigger] rest[j]).id@ != id by {
                    assert(all[j + 1] == rest[j]);
                }
            }
        }
    }
}

/// What is recorded: that a session closed, when it was open and is not any
/// more; that it came back, when it was not and is; else nothing.
pub proof fn law_what_is_recorded(before: State, s: Session)
    ensures
        before.open() && !s.state.open() <==> recorded(before, s) is Closed,
        !before.open() && s.state.open() <==> recorded(before, s) is Reopened,
        recorded(before, s) matches Recording::Reopened(guid) ==> guid == s.current_terminal_session,
        before.open() == s.state.open() <==> recorded(before, s) is Nothing,
{
}

/// The labels in use are those of the open sessions, in order.
pub proof fn law_labels_in_use(all: Seq<Session>, s: Session)
    ensures
        open_labels(Seq::empty()) == Seq::<Seq<char>>::empty(),
        s.state.open() ==> open_labels(all.push(s)) == open_labels(all).push(s.label@),
        !s.state.open() ==> open_labels(all.push(s)) == open_labels(all),
{
    assert(all.push(s).drop_last() =~= all);
}

/// A command at login that is nothing but white space is none; any other is
/// kept as it is.
pub proof fn law_login_commands(c: String)
    ensures
        login_command(None) is None,
        text::trimmed(c@).len() == 0 ==> login_command(Some(c)) is None,
        text::trimmed(c@).len() > 0 ==> login_command(Some(c)) == Some(c),
{
}

/// A session that is opened for a host has the host's alias, the ids it was
/// given, the host's choices, and waits for its tab; the tab is asked for
/// with the same names.
pub proof fn law_opened_for_a_host(s: Session, host: HostRequest, label: Seq<char>, ids: (String, String), tab: TabSpec, wait: bool)
    requires
        is_opened(s, host, label, ids),
        opens(tab, s, wait),
    ensures
        s.state == State::Opening,
        s.alias@ == host.alias@ && tab.alias@ == host.alias@,
        s.label@ == label && tab.label@ == label,
        s.terminal_session@ == ids.0@ && tab.terminal_session@ == ids.0@,
        s.id@ == ids.1@ && tab.session@ == ids.1@,
        s.no_forwards == host.no_forwards && tab.no_forwards == host.no_forwards,
        s.on_login == login_command(host.on_login),
        tab.wait == wait,
        s.link is None && s.location is None && !s.locked && !s.authenticated && s.attempt == 0 && s.auto_retries == 0,
{
}

/// A recorded shim still runs where its process started when it was
/// recorded to; one that wasn't recorded may.
pub proof fn law_living_shims(pid: u32, started: u64, now: Option<u64>)
    ensures
        is_alive(None, now),
        is_alive(Some((pid, started)), now) <==> now == Some(started),
{
}

/// Each record is either still there or lost.
pub proof fn law_records_live_or_are_lost(records: Seq<Record>, r: Record, started: Seq<Option<u64>>)
    requires
        records.len() < started.len(),
    ensures
        living(Seq::empty(), started) == Seq::<Record>::empty(),
        lost_ids(Seq::empty(), started) == Seq::<Seq<char>>::empty(),
        ({
            let there = match r.shim {
                Some((_, begun)) => started[records.len() as int] == Some(begun),
                None => true,
            };
            &&& there ==> living(records.push(r), started) == living(records, started).push(r) && lost_ids(
                records.push(r),
                started,
            ) == lost_ids(records, started)
            &&& !there ==> living(records.push(r), started) == living(records, started) && lost_ids(records.push(r), started)
                == lost_ids(records, started).push(r.id@)
        }),
{
    assert(records.push(r).drop_last() =~= records);
}

/// A session that was recorded comes back as it was.
pub proof fn law_back_from_its_record(s: Session, r: Record)
    requires
        is_of(s, r),
    ensures
        s.id@ == r.id@ && s.terminal_session@ == r.terminal_session@ && s.label@ == r.label@ && s.alias@ == r.alias@,
        s.current_terminal_session == r.current_terminal_session,
        s.no_forwards == r.no_forwards,
        s.locked == r.locked,
        r.window_number is None || r.tab_index is None ==> s.last_position is None,
        r.window_number matches Some(w) ==> (r.tab_index matches Some(t) ==> s.last_position == Some(
            (w as usize, t as usize),
        )),
        s.link is None && s.location is None && !s.authenticated && s.attempt == 0 && s.auto_retries == 0,
{
}

/// A session counts as not found yet while it is open, its shim is there
/// and its tab isn't known.
pub proof fn law_sessions_not_found_yet(all: Seq<Session>, s: Session)
    ensures
        unlocated_count(Seq::empty()) == 0,
        unlocated_count(all.push(s)) == unlocated_count(all) + (if s.state.open() && s.link is Some && s.location is None {
            1int
        } else {
            0
        }),
{
    assert(all.push(s).drop_last() =~= all);
}

} // verus!
