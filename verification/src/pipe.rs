//! What a connection to NativeTerm's pipe does: a shim's hello and its
//! reports, the helper that reports a login, and restored panes.

use vstd::prelude::*;

use crate::message;
use crate::message::Message;
use crate::session;
use crate::session::{Hello, Role, Session, ShimMessage, State};
use crate::sessions;
use crate::sessions::{AppMessage, Core, Record, Recording};
use crate::text;

verus! {

/// The notice for a shim that speaks another version of the protocol.
pub fn protocol_notice(protocol: u32, expected: u32) -> (r: Option<Message>)
    ensures
        match r {
            Some(m) => protocol != expected && m@ == message::said("notice-old-shim"@).number(
                "protocol"@,
                protocol as int,
            ).number("expected"@, expected as int),
            None => protocol == expected,
        },
{
    if protocol != expected {
        Some(
            Message::new("notice-old-shim").number("protocol", protocol as i128).number("expected", expected as i128),
        )
    } else {
        None
    }
}

/// The first session for which `wanted` holds.
pub open spec fn first_where(all: Seq<Session>, wanted: spec_fn(Session) -> bool) -> Option<int>
    decreases all.len(),
{
    if all.len() == 0 {
        None
    } else if wanted(all.first()) {
        Some(0)
    } else {
        match first_where(all.skip(1), wanted) {
            Some(i) => Some(i + 1),
            None => None,
        }
    }
}

proof fn lemma_first_where(all: Seq<Session>, wanted: spec_fn(Session) -> bool)
    ensures
        first_where(all, wanted) matches Some(i) ==> 0 <= i < all.len() && wanted(all[i]),
    decreases all.len(),
{
    if all.len() > 0 && !wanted(all.first()) {
        lemma_first_where(all.skip(1), wanted);
    }
}

/// A session whose tab has this GUID.
pub open spec fn with_guid(guid: Seq<char>) -> spec_fn(Session) -> bool {
    |s: Session| s.has_guid(guid)
}

fn find_guid(all: &[Session], guid: &str) -> (r: Option<usize>)
    ensures
        match r {
            Some(i) => first_where(all@, with_guid(guid@)) == Some(i as int) && i < all@.len(),
            None => first_where(all@, with_guid(guid@)) is None,
        },
{
    let mut i: usize = 0;
    proof {
        assert(all@.skip(0) =~= all@);
    }
    while i < all.len()
        invariant
            i <= all@.len(),
            first_where(all@, with_guid(guid@)) == match first_where(all@.skip(i as int), with_guid(guid@)) {
                Some(k) => Some(k + i),
                None => None::<int>,
            },
        decreases all@.len() - i,
    {
        proof {
            assert(all@.skip(i as int).skip(1) =~= all@.skip(i + 1));
        }
        if all[i].matches_terminal_session(guid) {
            return Some(i);
        }
        i += 1;
    }
    None
}

/// A session that a restored pane with this GUID stands for: it has no
/// shim, and it was waiting for one or was closed with its window.
pub open spec fn to_restore(guid: Seq<char>) -> spec_fn(Session) -> bool {
    |s: Session|
        s.link is None && s.has_guid(guid) && (s.state is Detached || (s.restorable && !s.state.open()))
}

fn find_to_restore(all: &[Session], guid: &str) -> (r: Option<usize>)
    ensures
        match r {
            Some(i) => first_where(all@, to_restore(guid@)) == Some(i as int) && i < all@.len(),
            None => first_where(all@, to_restore(guid@)) is None,
        },
{
    let mut i: usize = 0;
    proof {
        assert(all@.skip(0) =~= all@);
    }
    while i < all.len()
        invariant
            i <= all@.len(),
            first_where(all@, to_restore(guid@)) == match first_where(all@.skip(i as int), to_restore(guid@)) {
                Some(k) => Some(k + i),
                None => None::<int>,
            },
        decreases all@.len() - i,
    {
        proof {
            assert(all@.skip(i as int).skip(1) =~= all@.skip(i + 1));
        }
        let s = &all[i];
        let detached = matches!(s.state, State::Detached);
        if s.link.is_none() && s.matches_terminal_session(guid) && (detached || (s.restorable && !s.state.is_open())) {
            return Some(i);
        }
        i += 1;
    }
    None
}

/// A session that a shim's hello names: by its id, or by its tab.
pub open spec fn is_meant(hello: Hello) -> spec_fn(Session) -> bool {
    |s: Session|
        (hello.session matches Some(id) && id@ == s.id@) || (hello.wt_session matches Some(g) && s.has_guid(g@))
}

fn find_meant(all: &[Session], hello: &Hello) -> (r: Option<usize>)
    ensures
        match r {
            Some(i) => first_where(all@, is_meant(*hello)) == Some(i as int) && i < all@.len(),
            None => first_where(all@, is_meant(*hello)) is None,
        },
{
    let mut i: usize = 0;
    proof {
        assert(all@.skip(0) =~= all@);
    }
    while i < all.len()
        invariant
            i <= all@.len(),
            first_where(all@, is_meant(*hello)) == match first_where(all@.skip(i as int), is_meant(*hello)) {
                Some(k) => Some(k + i),
                None => None::<int>,
            },
        decreases all@.len() - i,
    {
        proof {
            assert(all@.skip(i as int).skip(1) =~= all@.skip(i + 1));
        }
        let by_id = match &hello.session {
            Some(id) => text::same(id, &all[i].id),
            None => false,
        };
        let by_guid = match &hello.wt_session {
            Some(g) => all[i].matches_terminal_session(g),
            None => false,
        };
        if by_id || by_guid {
            return Some(i);
        }
        i += 1;
    }
    None
}

/// A shim that said hello is linked to the session.
pub open spec fn linked(s: Session, hello: Hello, conn: u64) -> Session {
    Session {
        current_terminal_session: if hello.wt_session matches Some(g) && !text::same_but_case(
            g@,
            s.terminal_session@,
        ) {
            hello.wt_session
        } else {
            None
        },
        shim_pid: Some(hello.pid),
        link: Some(conn),
        state: if !s.state.open() || s.state is Opening || s.state is Detached {
            State::Connecting
        } else {
            s.state
        },
        ..s
    }
}

/// The session adopted for a shim that NativeTerm doesn't know.
pub open spec fn is_adopted(s: Session, hello: Hello, fresh: Seq<char>, taken: Seq<Seq<char>>) -> bool {
    &&& session::is_new(
        s,
        match hello.session {
            Some(id) => id@,
            None => fresh,
        },
        match hello.wt_session {
            Some(g) => g@,
            None => Seq::empty(),
        },
        session::free_label(hello.alias->0@, taken),
        hello.alias->0@,
    )
    &&& s.state is Connecting
}

/// The record of a session that was adopted: nothing else is known of it
/// (the shim keeps its own command line anyway).
pub open spec fn is_record_of(r: Record, s: Session, opened_at: i64) -> bool {
    &&& r.id@ == s.id@
    &&& r.terminal_session@ == s.terminal_session@
    &&& r.current_terminal_session is None
    &&& r.label@ == s.label@
    &&& r.alias@ == s.alias@
    &&& r.opened_at == opened_at
    &&& r.window_number is None
    &&& r.tab_index is None
    &&& r.no_forwards == s.no_forwards
    &&& !r.locked
    &&& r.shim is None
}

/// What a shim's hello led to.
pub struct Welcomed {
    /// The session it belongs to.
    pub id: String,
    /// The session was unknown; this goes into `state.db` first.
    pub adopted: Option<Record>,
    pub recording: Recording,
    /// The GUID of its tab, where it isn't the one NativeTerm gave it.
    pub current: Option<String>,
}

/// What a report led to.
pub struct Reported {
    pub recording: Recording,
    /// The window that the session's tab is in, as far as is known.
    pub window: Option<isize>,
    /// The connection dropped in this attempt: it may be made again.
    pub retry: Option<u32>,
    /// To be typed, now that the session is logged in.
    pub login: Option<String>,
}

/// A restored pane waiting to be replaced by a proper tab: the session,
/// the pane's connection, and its window.
#[derive(Clone, Debug, PartialEq, Eq)]
pub struct Placeholder {
    pub session: String,
    pub conn: u64,
    pub window: Option<isize>,
}

/// What the hello of a shim led to whose session `s` was adopted for it.
pub open spec fn adopts(r: Welcomed, s: Session, hello: Hello, conn: u64, now: i64) -> bool {
    let t = linked(s, hello, conn);
    &&& r.id@ == s.id@
    &&& r.adopted matches Some(record) && is_record_of(record, s, now)
    &&& r.recording == sessions::recorded(s.state, t)
    &&& r.current == t.current_terminal_session
}

/// What a restored pane with this GUID does to the sessions, and the session
/// it stands for: one that is listed still, or one that was closed with its
/// window.
pub open spec fn restored(was: Core, now: Core, guid: Seq<char>, r: Option<String>) -> bool {
    match first_where(was.sessions@, to_restore(guid)) {
        Some(i) => {
            let s = was.sessions@[i];
            &&& r == Some(s.id)
            &&& now.sessions@ == was.sessions@.update(
                i,
                Session {
                    restorable: false,
                    label: now.sessions@[i].label,
                    state: State::Detached,
                    ..s
                },
            )
            &&& now.sessions@[i].label@ == if s.restorable {
                session::free_label(s.label@, sessions::open_labels(was.sessions@))
            } else {
                s.label@
            }
            &&& now == (Core { sessions: now.sessions, ..was })
        },
        None => match first_where(was.restorable@, with_guid(guid)) {
            Some(i) => {
                let s = was.restorable@[i];
                let n = was.sessions@.len() as int;
                &&& r == Some(s.id)
                &&& now.restorable@ == was.restorable@.remove(i)
                &&& now.sessions@ == was.sessions@.push(
                    Session { label: now.sessions@[n].label, state: State::Detached, ..s },
                )
                &&& now.sessions@[n].label@ == session::free_label(
                    s.label@,
                    sessions::open_labels(was.sessions@),
                )
                &&& now == (Core {
                    sessions: now.sessions,
                    restorable: now.restorable,
                    ..was
                })
            },
            None => r is None && now == was,
        },
    }
}

/// Who says hello.
#[derive(Clone, Debug, PartialEq, Eq)]
pub enum Greeting {
    /// The helper that reports a login: one message, then it is gone. With
    /// the GUID of its tab.
    Signal(Option<String>),
    /// A pane without a host, with its GUID.
    Pane(Option<String>),
    /// A shim that runs a host's session.
    Shim,
}

/// Who says hello: by its role, and by whether it names a host.
pub fn greeting(hello: &Hello) -> (r: Greeting)
    ensures
        r == (if hello.role is AuthSignal {
            Greeting::Signal(hello.wt_session)
        } else if hello.alias is None {
            Greeting::Pane(hello.wt_session)
        } else {
            Greeting::Shim
        }),
{
    match hello.role {
        Role::AuthSignal => Greeting::Signal(hello.wt_session.clone()),
        Role::Shim => match &hello.alias {
            None => Greeting::Pane(hello.wt_session.clone()),
            Some(_) => Greeting::Shim,
        },
    }
}

/// What the helper that reports a login does: only the report of a login
/// counts, and only from a tab that says which one it is.
pub fn signalled(greeting: &Greeting, message: &ShimMessage) -> (r: Option<String>)
    ensures
        r == (match (*greeting, *message) {
            (Greeting::Signal(Some(guid)), ShimMessage::Authenticated) => Some(guid),
            _ => None,
        }),
{
    match (greeting, message) {
        (Greeting::Signal(Some(guid)), ShimMessage::Authenticated) => Some(guid.clone()),
        _ => None,
    }
}

/// The window that is watched after a report: that of a session that is
/// closing, where it is known. If it goes soon, the session was closed with
/// it.
pub fn watched(message: &ShimMessage, window: Option<isize>) -> (r: Option<isize>)
    ensures
        r == (if message is Closing {
            window
        } else {
            None
        }),
{
    match message {
        ShimMessage::Closing => window,
        _ => None,
    }
}

/// Whether a watched window is gone: none of those there are is it.
pub fn window_gone(windows: &[isize], window: isize) -> (r: bool)
    ensures
        r == !windows@.contains(window),
{
    let mut i: usize = 0;
    while i < windows.len()
        invariant
            i <= windows@.len(),
            forall|j: int| 0 <= j < i ==> windows@[j] != window,
        decreases windows@.len() - i,
    {
        if windows[i] == window {
            return false;
        }
        i += 1;
    }
    true
}

impl Core {
    /// The helper of the tab with this GUID reported a login.
    pub fn auth_signal(&mut self, guid: &str) -> (r: Option<(String, Recording)>)
        ensures
            match first_where(old(self).sessions@, with_guid(guid@)) {
                Some(i) => {
                    let s = old(self).sessions@[i];
                    let t = Session { authenticated: true, state: State::Connected, ..s };
                    &&& r matches Some(out)
                    &&& out.0 == s.id
                    &&& out.1 == sessions::recorded(s.state, t)
                    &&& final(self).sessions@ == old(self).sessions@.update(i, t)
                    &&& *final(self) == (Core { sessions: final(self).sessions, ..*old(self) })
                },
                None => r is None && *final(self) == *old(self),
            },
    {
        match find_guid(&self.sessions, guid) {
            Some(i) => {
                let ghost was = self.sessions@;
                let was_open = self.sessions[i].state.is_open();
                self.sessions[i].authenticated = true;
                self.sessions[i].state = State::Connected;
                let recording = sessions::recording(was_open, &self.sessions[i]);
                proof {
                    let s = was[i as int];
                    let t = Session { authenticated: true, state: State::Connected, ..s };
                    assert(self.sessions@ =~= was.update(i as int, t));
                    assert(recording == sessions::recorded(s.state, t));
                }
                Some((self.sessions[i].id.clone(), recording))
            },
            None => None,
        }
    }

    /// A pane without a host came back with this GUID: a restored pane of a
    /// session NativeTerm knows gets replaced; anything else (duplicated
    /// panes, unknown GUIDs) is a local shell.
    pub fn restore(&mut self, guid: &str) -> (r: Option<String>)
        ensures
            restored(*old(self), *final(self), guid@, r),
    {
        let taken = sessions::labels(&self.sessions);
        proof {
            lemma_first_where(self.sessions@, to_restore(guid@));
            lemma_first_where(self.restorable@, with_guid(guid@));
        }
        if let Some(i) = find_to_restore(&self.sessions, guid) {
            let ghost was = self.sessions@;
            if self.sessions[i].restorable {
                // closed with its window earlier in this run
                self.sessions[i].restorable = false;
                let label = session::unique_label(&self.sessions[i].label, &taken);
                self.sessions[i].label = label;
                self.sessions[i].state = State::Detached;
            }
            proof {
                let s = was[i as int];
                assert(self.sessions@ =~= was.update(
                    i as int,
                    Session { restorable: false, label: self.sessions@[i as int].label, state: State::Detached, ..s },
                ));
            }
            return Some(self.sessions[i].id.clone());
        }
        match find_guid(&self.restorable, guid) {
            Some(i) => {
                // closed with its window: bring it back into the list
                let ghost was = self.sessions@;
                let mut s = self.restorable.remove(i);
                let label = session::unique_label(&s.label, &taken);
                s.label = label;
                s.state = State::Detached;
                let id = s.id.clone();
                self.sessions.push(s);
                Some(id)
            },
            None => None,
        }
    }

    /// A pane without a host said hello: what it is told, and the placeholder
    /// it becomes. The restored pane of a session holds until it is
    /// replaced; any other is a local shell.
    pub fn pane(&mut self, guid: Option<String>, conn: u64, window: Option<isize>) -> (r: (
        AppMessage,
        Option<Placeholder>,
    ))
        ensures
            match guid {
                Some(g) => exists|id: Option<String>| #[trigger]
                    restored(*old(self), *final(self), g@, id) && (match id {
                        Some(session) => r.0 is Hold && r.1 == Some(Placeholder { session, conn, window }),
                        None => r.0 is LocalShell && r.1 is None,
                    }),
                None => r.0 is LocalShell && r.1 is None && *final(self) == *old(self),
            },
    {
        match guid {
            Some(g) => {
                let id = self.restore(&g);
                proof {
                    assert(restored(*old(self), *self, g@, id));
                }
                match id {
                    Some(session) => (AppMessage::Hold, Some(Placeholder { session, conn, window })),
                    None => (AppMessage::LocalShell, None),
                }
            },
            None => (AppMessage::LocalShell, None),
        }
    }

    /// A shim said hello for a host. A tab from an earlier run that
    /// `state.db` doesn't know is adopted, under the id `fresh` where it
    /// names none.
    pub fn hello(&mut self, hello: &Hello, conn: u64, fresh: String, now: i64) -> (r: Welcomed)
        requires
            hello.alias is Some,
        ensures
            match first_where(old(self).sessions@, is_meant(*hello)) {
                Some(i) => {
                    let s = old(self).sessions@[i];
                    let t = linked(s, *hello, conn);
                    &&& r.adopted is None
                    &&& r.id@ == s.id@
                    &&& r.recording == sessions::recorded(s.state, t)
                    &&& r.current == t.current_terminal_session
                    &&& final(self).sessions@ == old(self).sessions@.update(i, t)
                },
                None => {
                    let n = old(self).sessions@.len() as int;
                    &&& final(self).sessions@.len() == n + 1
                    &&& final(self).sessions@.take(n) == old(self).sessions@
                    &&& exists|s: Session|
                        #![trigger is_adopted(s, *hello, fresh@, sessions::open_labels(old(self).sessions@))]
                        is_adopted(s, *hello, fresh@, sessions::open_labels(old(self).sessions@))
                            && adopts(r, s, *hello, conn, now) && final(self).sessions@[n] == linked(s, *hello, conn)
                },
            },
            *final(self) == (Core { sessions: final(self).sessions, ..*old(self) }),
    {
        let ghost start = self.sessions@;
        proof {
            lemma_first_where(self.sessions@, is_meant(*hello));
        }
        let known = find_meant(&self.sessions, hello);
        let mut adopted: Option<Record> = None;
        let i: usize = match known {
            Some(i) => i,
            None => {
                let taken = sessions::labels(&self.sessions);
                let id = match &hello.session {
                    Some(id) => id.clone(),
                    None => fresh,
                };
                let alias = match &hello.alias {
                    Some(a) => a.clone(),
                    None => String::new(),
                };
                let label = session::unique_label(&alias, &taken);
                let guid = match &hello.wt_session {
                    Some(g) => g.clone(),
                    None => String::new(),
                };
                adopted = Some(
                    Record {
                        id: id.clone(),
                        terminal_session: guid.clone(),
                        current_terminal_session: None,
                        label: label.clone(),
                        alias: alias.clone(),
                        opened_at: now,
                        window_number: None,
                        tab_index: None,
                        no_forwards: false,
                        locked: false,
                        shim: None,
                    },
                );
                let i: usize = self.sessions.len();
                self.sessions.push(Session::new(id, guid, label, alias, State::Connecting));
                i
            },
        };
        let ghost s = self.sessions@[i as int];
        let ghost before = self.sessions@;
        let was_open = self.sessions[i].state.is_open();
        let differs = match &hello.wt_session {
            Some(g) => {
                let g = text::chars_of(g);
                let own = text::chars_of(&self.sessions[i].terminal_session);
                !text::same_ignoring_case(&g, &own)
            },
            None => false,
        };
        let current = if differs {
            text::optional_copy(&hello.wt_session)
        } else {
            None
        };
        self.sessions[i].current_terminal_session = text::optional_copy(&current);
        self.sessions[i].shim_pid = Some(hello.pid);
        self.sessions[i].link = Some(conn);
        if !was_open || matches!(self.sessions[i].state, State::Opening | State::Detached) {
            self.sessions[i].state = State::Connecting;
        }
        let recording = sessions::recording(was_open, &self.sessions[i]);
        let id = self.sessions[i].id.clone();
        proof {
            let t = linked(s, *hello, conn);
            assert(self.sessions@[i as int] == t);
            assert(self.sessions@ =~= before.update(i as int, t));
            assert(recording == sessions::recorded(s.state, t));
            if known is None {
                assert(self.sessions@.take(start.len() as int) =~= start);
                assert(is_adopted(s, *hello, fresh@, sessions::open_labels(start)));
            }
        }
        Welcomed { id, adopted, recording, current }
    }

    /// A shim's report that came at `now` (milliseconds).
    pub fn report(&mut self, id: &str, message: &ShimMessage, now: u64) -> (r: Option<Reported>)
        ensures
            match sessions::with_id(old(self).sessions@, id@) {
                Some(i) => {
                    let s = old(self).sessions@[i];
                    let t = session::applied(s, *message, now);
                    &&& r matches Some(out)
                    &&& final(self).sessions@ == old(self).sessions@.update(i, t)
                    &&& out.recording == sessions::recorded(s.state, t)
                    &&& out.window == match t.location {
                        Some(l) => Some(l.window),
                        None => None,
                    }
                    &&& out.retry == if t.state is Disconnected && message is Exited {
                        Some(t.attempt)
                    } else {
                        None
                    }
                    &&& out.login == if t.state is Connected && s.state !is Connected {
                        t.on_login
                    } else {
                        None
                    }
                    &&& *final(self) == (Core { sessions: final(self).sessions, ..*old(self) })
                },
                None => r is None && *final(self) == *old(self),
            },
    {
        match sessions::find_id(&self.sessions, id) {
            Some(i) => {
                let ghost was = self.sessions@;
                let was_open = self.sessions[i].state.is_open();
                let was_connected = matches!(self.sessions[i].state, State::Connected);
                session::apply(&mut self.sessions[i], message, now);
                let s = &self.sessions[i];
                let connected = matches!(s.state, State::Connected);
                let dropped = matches!(s.state, State::Disconnected(_)) && matches!(message, ShimMessage::Exited { .. });
                let recording = sessions::recording(was_open, s);
                let out = Reported {
                    recording,
                    window: match &s.location {
                        Some(l) => Some(l.window),
                        None => None,
                    },
                    retry: if dropped {
                        Some(s.attempt)
                    } else {
                        None
                    },
                    login: if connected && !was_connected {
                        text::optional_copy(&s.on_login)
                    } else {
                        None
                    },
                };
                proof {
                    let t = session::applied(was[i as int], *message, now);
                    assert(self.sessions@ =~= was.update(i as int, t));
                    assert(recording == sessions::recorded(was[i as int].state, t));
                }
                Some(out)
            },
            None => None,
        }
    }

    /// A shim's connection ended. If it is still the session's, the session
    /// is gone, unless it said that it was closing.
    pub fn gone(&mut self, id: &str, conn: u64) -> (r: Recording)
        ensures
            match sessions::with_id(old(self).sessions@, id@) {
                Some(i) => {
                    let s = old(self).sessions@[i];
                    let t = if s.link == Some(conn) {
                        Session {
                            link: None,
                            state: if s.state is Closed {
                                s.state
                            } else {
                                State::Gone
                            },
                            ..s
                        }
                    } else {
                        s
                    };
                    &&& final(self).sessions@ == old(self).sessions@.update(i, t)
                    &&& r == sessions::recorded(s.state, t)
                },
                None => final(self).sessions@ == old(self).sessions@ && r is Nothing,
            },
            *final(self) == (Core { sessions: final(self).sessions, ..*old(self) }),
    {
        match sessions::find_id(&self.sessions, id) {
            Some(i) => {
                let ghost was = self.sessions@;
                let was_open = self.sessions[i].state.is_open();
                let ours = match self.sessions[i].link {
                    Some(l) => l == conn,
                    None => false,
                };
                if ours {
                    self.sessions[i].link = None;
                    if !matches!(self.sessions[i].state, State::Closed) {
                        self.sessions[i].state = State::Gone;
                    }
                }
                let recording = sessions::recording(was_open, &self.sessions[i]);
                proof {
                    let t = self.sessions@[i as int];
                    assert(self.sessions@ =~= was.update(i as int, t));
                    assert(recording == sessions::recorded(was[i as int].state, t));
                }
                recording
            },
            None => Recording::Nothing,
        }
    }

    /// The window of a session that reported closing is gone too: a
    /// restored pane may bring the session back.
    pub fn closed_with_window(&mut self, id: &str) -> (r: bool)
        ensures
            match sessions::with_id(old(self).sessions@, id@) {
                Some(i) => r && final(self).sessions@ == old(self).sessions@.update(
                    i,
                    Session { restorable: true, ..old(self).sessions@[i] },
                ),
                None => !r && final(self).sessions@ == old(self).sessions@,
            },
            *final(self) == (Core { sessions: final(self).sessions, ..*old(self) }),
    {
        match sessions::find_id(&self.sessions, id) {
            Some(i) => {
                let ghost was = self.sessions@;
                self.sessions[i].restorable = true;
                proof {
                    assert(self.sessions@ =~= was.update(i as int, Session { restorable: true, ..was[i as int] }));
                }
                true
            },
            None => false,
        }
    }
}

/// The windows of a batch of placeholders, each once, in the order they
/// came.
pub open spec fn windows_of(batch: Seq<Placeholder>) -> Seq<Option<isize>>
    decreases batch.len(),
{
    if batch.len() == 0 {
        Seq::empty()
    } else {
        let before = windows_of(batch.drop_last());
        if before.contains(batch.last().window) {
            before
        } else {
            before.push(batch.last().window)
        }
    }
}

fn same_window(a: Option<isize>, b: Option<isize>) -> (r: bool)
    ensures
        r == (a == b),
{
    match (a, b) {
        (Some(x), Some(y)) => x == y,
        (None, None) => true,
        _ => false,
    }
}

/// The windows whose placeholders are replaced together.
pub fn batch_windows(batch: &[Placeholder]) -> (r: Vec<Option<isize>>)
    ensures
        r@ == windows_of(batch@),
{
    let mut r: Vec<Option<isize>> = Vec::new();
    let mut i: usize = 0;
    proof {
        assert(batch@.take(0) =~= Seq::empty());
        assert(r@ =~= Seq::empty());
    }
    while i < batch.len()
        invariant
            i <= batch@.len(),
            r@ == windows_of(batch@.take(i as int)),
        decreases batch@.len() - i,
    {
        proof {
            assert(batch@.take(i + 1).drop_last() =~= batch@.take(i as int));
            assert(batch@.take(i + 1).last() == batch@[i as int]);
        }
        let mut k: usize = 0;
        let mut known = false;
        while k < r.len()
            invariant
                i < batch@.len(),
                k <= r@.len(),
                known == exists|j: int| 0 <= j < k && r@[j] == batch@[i as int].window,
            decreases r@.len() - k,
        {
            if same_window(r[k], batch[i].window) {
                known = true;
            }
            k += 1;
        }
        if !known {
            r.push(batch[i].window);
        }
        i += 1;
    }
    proof {
        assert(batch@.take(i as int) =~= batch@);
    }
    r
}

proof fn lemma_windows_of(batch: Seq<Placeholder>)
    ensures
        windows_of(batch).no_duplicates(),
        forall|i: int| 0 <= i < batch.len() ==> windows_of(batch).contains((#[trigger] batch[i]).window),
    decreases batch.len(),
{
    if batch.len() > 0 {
        let front = batch.drop_last();
        let before = windows_of(front);
        let after = windows_of(batch);
        lemma_windows_of(front);
        assert forall|i: int| 0 <= i < batch.len() implies after.contains((#[trigger] batch[i]).window) by {
            if i < front.len() {
                assert(front[i] == batch[i]);
                let at = choose|at: int| 0 <= at < before.len() && before[at] == batch[i].window;
                assert(after[at] == batch[i].window);
            } else if !before.contains(batch.last().window) {
                assert(after[after.len() - 1] == batch.last().window);
            }
        }
    }
}

/// Every placeholder's window has its turn, and has it once.
pub proof fn law_every_placeholder_is_replaced_once(batch: Seq<Placeholder>)
    ensures
        windows_of(batch).no_duplicates(),
        forall|i: int| 0 <= i < batch.len() ==> windows_of(batch).contains((#[trigger] batch[i]).window),
{
    lemma_windows_of(batch);
}

/// What a placeholder is told once its replacement was opened: it closes,
/// or becomes an ordinary shell where the new tab failed.
pub fn after_replacing(failed: &[String], session: &str) -> (r: AppMessage)
    ensures
        r == if text::texts(failed@).contains(session@) {
            AppMessage::LocalShell
        } else {
            AppMessage::Close
        },
{
    if text::contains_text(failed, session) {
        AppMessage::LocalShell
    } else {
        AppMessage::Close
    }
}

/// A session is looked for in order: the first that is wanted, or none.
pub proof fn law_the_first_that_is_wanted(all: Seq<Session>, wanted: spec_fn(Session) -> bool)
    ensures
        match first_where(all, wanted) {
            Some(i) => 0 <= i < all.len() && wanted(all[i]) && forall|j: int| 0 <= j < i ==> !wanted(#[trigger] all[j]),
            None => forall|j: int| 0 <= j < all.len() ==> !wanted(#[trigger] all[j]),
        },
    decreases all.len(),
{
    if all.len() > 0 {
        let rest = all.skip(1);
        law_the_first_that_is_wanted(rest, wanted);
        assert(all[0] == all.first());
        assert forall|j: int| 0 < j < all.len() implies #[trigger] all[j] == rest[j - 1] by {}
    }
}

/// Whose pane a restored one is: that of a session with its GUID whose shim
/// is not there, and which is detached, or closed and may be restored.
pub proof fn law_who_is_restored(s: Session, guid: Seq<char>)
    ensures
        with_guid(guid)(s) <==> s.has_guid(guid),
        to_restore(guid)(s) ==> s.link is None && s.has_guid(guid),
        s.state == State::Detached && s.link is None && s.has_guid(guid) ==> to_restore(guid)(s),
        s.state == State::Closed || s.state == State::Gone || s.state is Failed ==> (to_restore(guid)(s) <==> s.restorable
            && s.link is None && s.has_guid(guid)),
        s.state != State::Detached && s.state != State::Closed && s.state != State::Gone && s.state !is Failed ==> !to_restore(
            guid,
        )(s),
{
}

/// Who a shim speaks for: the session it names, or the one with its tab's
/// GUID.
pub proof fn law_who_is_meant(s: Session, hello: Hello)
    ensures
        hello.session is None && hello.wt_session is None ==> !is_meant(hello)(s),
        hello.session matches Some(id) ==> (id@ == s.id@ ==> is_meant(hello)(s)),
        hello.wt_session matches Some(g) ==> (s.has_guid(g@) ==> is_meant(hello)(s)),
        is_meant(hello)(s) ==> (hello.session matches Some(id) && id@ == s.id@) || (hello.wt_session matches Some(g)
            && s.has_guid(g@)),
{
}

/// A shim's hello links its session: by its connection and process; a tab
/// with another GUID is remembered; what was opening, detached or over is
/// connecting, and any other state stays. Nothing else changes.
pub proof fn law_hello_links(s: Session, hello: Hello, conn: u64)
    ensures
        linked(s, hello, conn).link == Some(conn),
        linked(s, hello, conn).shim_pid == Some(hello.pid),
        hello.wt_session is None ==> linked(s, hello, conn).current_terminal_session is None,
        hello.wt_session matches Some(g) ==> linked(s, hello, conn).current_terminal_session == (if text::same_but_case(
            g@,
            s.terminal_session@,
        ) {
            None
        } else {
            Some(g)
        }),
        s.state == State::Opening || s.state == State::Detached || s.state == State::Closed || s.state == State::Gone || s.state is Failed
            ==> linked(s, hello, conn).state == State::Connecting,
        s.state == State::Waiting || s.state == State::Connecting || s.state == State::Connected || s.state is LoginFailed
            || s.state is Unreachable || s.state is Disconnected || s.state is Ended ==> linked(s, hello, conn).state == s.state,
        linked(s, hello, conn) == (Session {
            current_terminal_session: linked(s, hello, conn).current_terminal_session,
            shim_pid: linked(s, hello, conn).shim_pid,
            link: linked(s, hello, conn).link,
            state: linked(s, hello, conn).state,
            ..s
        }),
{
}

/// A shim of which nothing is known is adopted: under its own names, with a
/// label that nobody has, connecting; and it is recorded so.
pub proof fn law_adopted_sessions(s: Session, hello: Hello, fresh: Seq<char>, taken: Seq<Seq<char>>, r: Record, now: i64)
    requires
        hello.alias is Some,
        is_adopted(s, hello, fresh, taken),
        is_record_of(r, s, now),
    ensures
        s.state == State::Connecting,
        s.alias@ == hello.alias->0@,
        s.label@ == session::free_label(hello.alias->0@, taken),
        !taken.contains(s.label@),
        hello.session matches Some(id) ==> s.id@ == id@,
        hello.session is None ==> s.id@ == fresh,
        hello.wt_session matches Some(g) ==> s.terminal_session@ == g@,
        r.id@ == s.id@ && r.alias@ == s.alias@ && r.label@ == s.label@ && r.terminal_session@ == s.terminal_session@,
        r.opened_at == now && !r.locked && r.shim is None && r.current_terminal_session is None && r.no_forwards == s.no_forwards,
        r.window_number is None && r.tab_index is None,
{
    session::law_unique_label_is_free(hello.alias->0@, taken);
}

/// A restored pane brings back its session, detached, under a label that no
/// other session has where it was closed; any other pane changes nothing.
pub proof fn law_restored_panes(was: Core, now: Core, guid: Seq<char>, r: Option<String>)
    requires
        restored(was, now, guid, r),
    ensures
        r is None ==> now == was && (forall|i: int| 0 <= i < was.restorable@.len() ==> !(#[trigger] was.restorable@[i]).has_guid(guid)),
        r matches Some(id) ==> exists|i: int|
            0 <= i < now.sessions@.len() && (#[trigger] now.sessions@[i]).id == id && now.sessions@[i].state == State::Detached,
        r matches Some(id) ==> now.sessions@.len() >= was.sessions@.len() && now.restorable@.len() + now.sessions@.len()
            == was.restorable@.len() + was.sessions@.len(),
{
    law_the_first_that_is_wanted(was.sessions@, to_restore(guid));
    law_the_first_that_is_wanted(was.restorable@, with_guid(guid));
    match first_where(was.sessions@, to_restore(guid)) {
        Some(i) => {
            assert(now.sessions@[i].id == was.sessions@[i].id);
        },
        None => match first_where(was.restorable@, with_guid(guid)) {
            Some(i) => {
                let n = was.sessions@.len() as int;
                assert(now.sessions@[n].id == was.restorable@[i].id);
            },
            None => {
                assert forall|i: int| 0 <= i < was.restorable@.len() implies !(#[trigger] was.restorable@[i]).has_guid(guid) by {
                    assert(!with_guid(guid)(was.restorable@[i]));
                }
            },
        },
    }
}

/// The windows of a batch of placeholders come in their order, each once.
pub proof fn law_windows_of_placeholders(batch: Seq<Placeholder>, p: Placeholder)
    ensures
        windows_of(Seq::empty()) == Seq::<Option<isize>>::empty(),
        windows_of(batch).contains(p.window) ==> windows_of(batch.push(p)) == windows_of(batch),
        !windows_of(batch).contains(p.window) ==> windows_of(batch.push(p)) == windows_of(batch).push(p.window),
{
    assert(batch.push(p).drop_last() =~= batch);
}

/// A session that was not known is written down first, under its own id, and
/// what is recorded and its GUID are those it has once it is linked.
pub proof fn law_what_adopting_tells(r: Welcomed, s: Session, hello: Hello, conn: u64, now: i64)
    requires
        adopts(r, s, hello, conn, now),
    ensures
        r.id@ == s.id@,
        r.adopted matches Some(record) && record.id@ == s.id@ && record.label@ == s.label@ && record.alias@ == s.alias@
            && record.opened_at == now,
        r.current == linked(s, hello, conn).current_terminal_session,
        r.recording == sessions::recorded(s.state, linked(s, hello, conn)),
{
}

} // verus!
