//! An open session: its state, what its shim reports, and the waits before
//! it is connected again.

use vstd::prelude::*;

use crate::message::Message;
use crate::text;

verus! {

/// Opening more hosts than this at once connects them through the queue.
pub const PACED_OVER: usize = 3;

/// Automatic reconnects before giving up (the setting is off by default).
pub const AUTO_RECONNECT_TRIES: u32 = 10;

/// Connected at least this long (in milliseconds): the retry count starts
/// over.
pub const STABLE_CONNECTION: u64 = 60_000;

/// Sessions from `state.db` whose shim doesn't turn up by then (in
/// milliseconds) are gone (their window was closed while NativeTerm wasn't
/// running).
pub const DETACHED_GRACE: u64 = 12_000;

/// How long (in seconds) Terminal's session restore may bring back a
/// session that was closed with its window.
pub const RESTORABLE_FOR: i64 = 604_800;

#[derive(Clone, Debug, PartialEq, Eq)]
pub enum State {
    /// `wt` was asked; the shim hasn't said hello yet.
    Opening,
    /// Known from `state.db`; its shim hasn't said hello yet.
    Detached,
    /// A restored session in a new tab, not connected yet.
    Waiting,
    Connecting,
    Connected,
    LoginFailed(i32),
    /// The host couldn't be reached at all.
    Unreachable(i32),
    Disconnected(i32),
    Ended(i32),
    /// The tab never appeared, or wasn't sent.
    Failed(String),
    /// The shim went away without saying why (tab or window closed, crash).
    Gone,
    Closed,
}

impl State {
    /// The session has a tab, as far as is known.
    pub open spec fn open(self) -> bool {
        !(self is Failed || self is Gone || self is Closed)
    }

    /// Ssh isn't running in the tab.
    pub open spec fn connectable(self) -> bool {
        self is Waiting || self is LoginFailed || self is Unreachable || self is Disconnected || self is Ended
    }

    pub fn is_open(&self) -> (r: bool)
        ensures
            r == self.open(),
    {
        !matches!(self, State::Failed(_) | State::Gone | State::Closed)
    }

    /// Ssh isn't running: connecting is possible.
    pub fn can_connect(&self) -> (r: bool)
        ensures
            r == self.connectable(),
    {
        matches!(
            self,
            State::Waiting | State::LoginFailed(_) | State::Unreachable(_) | State::Disconnected(_) | State::Ended(_)
        )
    }

    /// The same state.
    pub fn copy(&self) -> (r: State)
        ensures
            r == *self,
    {
        match self {
            State::Opening => State::Opening,
            State::Detached => State::Detached,
            State::Waiting => State::Waiting,
            State::Connecting => State::Connecting,
            State::Connected => State::Connected,
            State::LoginFailed(c) => State::LoginFailed(*c),
            State::Unreachable(c) => State::Unreachable(*c),
            State::Disconnected(c) => State::Disconnected(*c),
            State::Ended(c) => State::Ended(*c),
            State::Failed(why) => State::Failed(why.clone()),
            State::Gone => State::Gone,
            State::Closed => State::Closed,
        }
    }

    /// The message that says the state.
    pub open spec fn said(self) -> crate::message::MessageView {
        match self {
            State::Opening => crate::message::said("state-opening"@),
            State::Detached => crate::message::said("state-detached"@),
            State::Waiting => crate::message::said("state-waiting"@),
            State::Connecting => crate::message::said("state-connecting"@),
            State::Connected => crate::message::said("state-connected"@),
            State::LoginFailed(c) => crate::message::said("state-login-failed"@).number("code"@, c as int),
            State::Unreachable(c) => crate::message::said("state-unreachable"@).number("code"@, c as int),
            State::Disconnected(c) => crate::message::said("state-disconnected"@).number("code"@, c as int),
            State::Ended(c) => crate::message::said("state-ended"@).number("code"@, c as int),
            State::Failed(why) => crate::message::said("state-failed"@).text("reason"@, why@),
            State::Gone => crate::message::said("state-gone"@),
            State::Closed => crate::message::said("state-closed"@),
        }
    }

    /// The state in words.
    pub fn describe(&self) -> (r: Message)
        ensures
            r@ == self.said(),
    {
        match self {
            State::Opening => Message::new("state-opening"),
            State::Detached => Message::new("state-detached"),
            State::Waiting => Message::new("state-waiting"),
            State::Connecting => Message::new("state-connecting"),
            State::Connected => Message::new("state-connected"),
            State::LoginFailed(c) => Message::new("state-login-failed").number("code", *c as i128),
            State::Unreachable(c) => Message::new("state-unreachable").number("code", *c as i128),
            State::Disconnected(c) => Message::new("state-disconnected").number("code", *c as i128),
            State::Ended(c) => Message::new("state-ended").number("code", *c as i128),
            State::Failed(why) => Message::new("state-failed").text("reason", why),
            State::Gone => Message::new("state-gone"),
            State::Closed => Message::new("state-closed"),
        }
    }
}

/// Only a session that is open can be connected, and one that is logged in
/// or logging in can't.
pub proof fn law_connectable_is_open(s: State)
    ensures
        s.connectable() ==> s.open(),
        s.connectable() ==> s !is Connected && s !is Connecting && s !is Opening && s !is Detached,
{
}

/// Where a session's tab is, as of the last refresh.
#[derive(Clone, Debug, PartialEq, Eq)]
pub struct Location {
    /// Stable number of the window (order of first appearance).
    pub window_number: usize,
    pub window: isize,
    pub tab_index: usize,
    pub title: String,
    pub selected: bool,
    pub mixed: bool,
}

/// What a location says.
pub struct LocationView {
    pub window_number: int,
    pub window: int,
    pub tab_index: int,
    pub title: Seq<char>,
    pub selected: bool,
    pub mixed: bool,
}

impl View for Location {
    type V = LocationView;

    open spec fn view(&self) -> LocationView {
        LocationView {
            window_number: self.window_number as int,
            window: self.window as int,
            tab_index: self.tab_index as int,
            title: self.title@,
            selected: self.selected,
            mixed: self.mixed,
        }
    }
}

impl Location {
    /// The same place.
    pub fn copy(&self) -> (r: Location)
        ensures
            r == *self,
    {
        Location {
            window_number: self.window_number,
            window: self.window,
            tab_index: self.tab_index,
            title: self.title.clone(),
            selected: self.selected,
            mixed: self.mixed,
        }
    }

    /// Whether both say the same.
    pub fn same(&self, other: &Location) -> (r: bool)
        ensures
            r == (self@ == other@),
    {
        self.window_number == other.window_number && self.window == other.window && self.tab_index == other.tab_index
            && self.selected == other.selected && self.mixed == other.mixed && text::same(&self.title, &other.title)
    }
}

/// What an optional location says.
pub open spec fn place(l: Option<Location>) -> Option<LocationView> {
    match l {
        Some(l) => Some(l@),
        None => None,
    }
}

/// A copy of an optional location.
pub fn copy_place(l: &Option<Location>) -> (r: Option<Location>)
    ensures
        r == *l,
{
    match l {
        Some(l) => Some(l.copy()),
        None => None,
    }
}

/// What the window shows of a session.
#[derive(Clone, Debug)]
pub struct SessionView {
    pub id: String,
    pub label: String,
    pub alias: String,
    pub state: State,
    pub shim_pid: Option<u32>,
    /// Connection attempts of the shim (1 = first connect).
    pub attempt: u32,
    pub linked: bool,
    pub location: Option<Location>,
    /// Automatic reconnects since the last successful login, when one is
    /// scheduled or running.
    pub auto_retry: Option<u32>,
    /// Kept out of batch closes and group sends; closed only when unlocked.
    pub locked: bool,
    /// The host's name in the tree when it was renamed after the tab
    /// opened (the tab keeps its title; clones and new tabs use this).
    pub renamed_to: Option<String>,
    /// Where the tab was when NativeTerm last saw it (window, tab), for
    /// sessions it hasn't found again.
    pub last_position: Option<(usize, usize)>,
    /// A serial session that has received nothing since then (seconds
    /// since the Unix epoch).
    pub quiet_since: Option<u64>,
    /// The special commands that the connection takes, by name.
    pub specials: Vec<String>,
}

/// A session that NativeTerm opened, adopted or found in `state.db`.
pub struct Session {
    pub id: String,
    /// The GUID of the tab NativeTerm opened; the shim's current one may
    /// differ after "Restart connection".
    pub terminal_session: String,
    pub current_terminal_session: Option<String>,
    pub label: String,
    pub alias: String,
    pub state: State,
    pub authenticated: bool,
    pub attempt: u32,
    pub shim_pid: Option<u32>,
    /// The shim's connection, by number.
    pub link: Option<u64>,
    pub location: Option<Location>,
    /// Closed together with its window: a restored pane may bring it back.
    pub restorable: bool,
    /// Opened without port forwards (a clone); kept when the tab is
    /// replaced after a restore.
    pub no_forwards: bool,
    /// Automatic reconnects since the connection was last stable.
    pub auto_retries: u32,
    /// Typed after every login.
    pub on_login: Option<String>,
    /// When the current connection logged in (milliseconds).
    pub connected_at: Option<u64>,
    pub locked: bool,
    /// Window number and tab index from `state.db`.
    pub last_position: Option<(usize, usize)>,
    pub quiet_since: Option<u64>,
    /// The connection queue told the shim to connect.
    pub told_to_connect: bool,
    pub specials: Vec<String>,
}

/// A session as it begins.
pub open spec fn is_new(s: Session, id: Seq<char>, terminal_session: Seq<char>, label: Seq<char>, alias: Seq<char>) -> bool {
    &&& s.id@ == id
    &&& s.terminal_session@ == terminal_session
    &&& s.label@ == label
    &&& s.alias@ == alias
    &&& s.current_terminal_session is None
    &&& !s.authenticated
    &&& s.attempt == 0
    &&& s.shim_pid is None
    &&& s.link is None
    &&& s.location is None
    &&& !s.restorable
    &&& !s.no_forwards
    &&& s.auto_retries == 0
    &&& s.on_login is None
    &&& s.connected_at is None
    &&& !s.locked
    &&& s.last_position is None
    &&& s.quiet_since is None
    &&& !s.told_to_connect
    &&& s.specials@.len() == 0
}

/// `s` without the braces at its ends.
pub open spec fn without_braces(s: Seq<char>) -> Seq<char>
    decreases s.len(),
{
    if s.len() > 0 && (s.first() == '{' || s.first() == '}') {
        without_braces(s.skip(1))
    } else if s.len() > 0 && (s.last() == '{' || s.last() == '}') {
        without_braces(s.drop_last())
    } else {
        s
    }
}

fn trim_braces(s: &[char]) -> (r: Vec<char>)
    ensures
        r@ == without_braces(s@),
{
    let mut from: usize = 0;
    let mut to: usize = s.len();
    proof {
        assert(s@.subrange(0, s@.len() as int) =~= s@);
    }
    while from < to && (s[from] == '{' || s[from] == '}')
        invariant
            from <= to == s@.len(),
            without_braces(s@) == without_braces(s@.subrange(from as int, to as int)),
        decreases to - from,
    {
        proof {
            let rest = s@.subrange(from as int, to as int);
            assert(rest.first() == s@[from as int]);
            assert(rest.skip(1) =~= s@.subrange(from + 1, to as int));
        }
        from += 1;
    }
    while from < to && (s[to - 1] == '{' || s[to - 1] == '}')
        invariant
            from <= to <= s@.len(),
            from < to ==> !(s@[from as int] == '{' || s@[from as int] == '}'),
            without_braces(s@) == without_braces(s@.subrange(from as int, to as int)),
        decreases to - from,
    {
        proof {
            let rest = s@.subrange(from as int, to as int);
            assert(rest.first() == s@[from as int]);
            assert(rest.last() == s@[to - 1]);
            assert(rest.drop_last() =~= s@.subrange(from as int, to - 1));
        }
        to -= 1;
    }
    proof {
        let rest = s@.subrange(from as int, to as int);
        if from < to {
            assert(rest.first() == s@[from as int]);
            assert(rest.last() == s@[to - 1]);
        }
        assert(without_braces(rest) == rest);
    }
    text::part(s, from, to)
}

impl Session {
    pub fn new(id: String, terminal_session: String, label: String, alias: String, state: State) -> (r: Session)
        ensures
            is_new(r, id@, terminal_session@, label@, alias@),
            r.state == state,
    {
        Session {
            id,
            terminal_session,
            current_terminal_session: None,
            label,
            alias,
            state,
            authenticated: false,
            attempt: 0,
            shim_pid: None,
            link: None,
            location: None,
            restorable: false,
            no_forwards: false,
            auto_retries: 0,
            on_login: None,
            connected_at: None,
            locked: false,
            last_position: None,
            quiet_since: None,
            told_to_connect: false,
            specials: Vec::new(),
        }
    }

    /// What the window shows of it: a retry count only while reconnecting,
    /// silence only while the session is open.
    pub fn view(&self) -> (r: SessionView)
        ensures
            r.id == self.id,
            r.label == self.label,
            r.alias == self.alias,
            r.state == self.state,
            r.shim_pid == self.shim_pid,
            r.attempt == self.attempt,
            r.linked == (self.link is Some),
            r.location == self.location,
            r.auto_retry == if self.auto_retries > 0 && (self.state is Disconnected || self.state is Connecting) {
                Some(self.auto_retries)
            } else {
                None
            },
            r.locked == self.locked,
            r.renamed_to is None,
            r.last_position == self.last_position,
            r.quiet_since == if self.state.open() {
                self.quiet_since
            } else {
                None
            },
            text::texts(r.specials@) == text::texts(self.specials@),
    {
        let retrying = matches!(self.state, State::Disconnected(_) | State::Connecting);
        SessionView {
            id: self.id.clone(),
            label: self.label.clone(),
            alias: self.alias.clone(),
            state: self.state.copy(),
            shim_pid: self.shim_pid,
            attempt: self.attempt,
            linked: self.link.is_some(),
            location: copy_place(&self.location),
            auto_retry: if self.auto_retries > 0 && retrying {
                Some(self.auto_retries)
            } else {
                None
            },
            locked: self.locked,
            renamed_to: None,
            last_position: self.last_position,
            quiet_since: if self.state.is_open() {
                self.quiet_since
            } else {
                None
            },
            specials: text::copy_texts(&self.specials),
        }
    }

    /// The GUID, in any case and with or without braces, is the one of the
    /// session's tab: the first one or the current one.
    pub open spec fn has_guid(self, guid: Seq<char>) -> bool {
        let bare = without_braces(guid);
        text::same_but_case(self.terminal_session@, bare) || (self.current_terminal_session matches Some(g)
            && text::same_but_case(g@, bare))
    }

    pub fn matches_terminal_session(&self, guid: &str) -> (r: bool)
        ensures
            r == self.has_guid(guid@),
    {
        let chars = text::chars_of(guid);
        let bare = trim_braces(&chars);
        let own = text::chars_of(&self.terminal_session);
        if text::same_ignoring_case(&own, &bare) {
            return true;
        }
        match &self.current_terminal_session {
            Some(g) => {
                let g = text::chars_of(g);
                text::same_ignoring_case(&g, &bare)
            },
            None => false,
        }
    }
}

/// How a run of ssh ended.
#[derive(Clone, Copy, Debug, PartialEq, Eq)]
pub enum SessionEnd {
    LoginFailed,
    Disconnected,
    Closed(i32),
}

/// What a connection to the pipe is for.
#[derive(Clone, Copy, Debug, PartialEq, Eq)]
pub enum Role {
    Shim,
    /// The helper that reports a login.
    AuthSignal,
}

/// A connection's first message.
#[derive(Clone, Debug, PartialEq, Eq)]
pub struct Hello {
    pub protocol: u32,
    pub role: Role,
    pub pid: u32,
    /// The GUID that Terminal gave the pane.
    pub wt_session: Option<String>,
    pub session: Option<String>,
    /// The host; a restored pane names none.
    pub alias: Option<String>,
    pub terminal_window: Option<isize>,
}

/// What a shim reports.
#[derive(Clone, Debug, PartialEq, Eq)]
pub enum ShimMessage {
    Hello(Hello),
    Waiting,
    Connecting { attempt: u32 },
    Authenticated,
    /// Ssh ended with `code`, which means `end`.
    Exited { code: i32, end: SessionEnd },
    Closing,
    /// Nothing was received since then.
    Quiet { since: u64 },
    Heard,
}

impl Session {
    /// The report that ssh ended with `code`. What that means, `classify`
    /// says of the code and of whether this session had logged in.
    pub fn exited<F: Fn(i32, bool) -> SessionEnd>(&self, code: i32, classify: F) -> (r: ShimMessage)
        requires
            call_requires(classify, (code, self.authenticated)),
        ensures
            r matches ShimMessage::Exited { code: c, end } && c == code && call_ensures(
                classify,
                (code, self.authenticated),
                end,
            ),
    {
        let end = classify(code, self.authenticated);
        ShimMessage::Exited { code, end }
    }
}

/// The session after a report that came at `now`.
pub open spec fn applied(s: Session, message: ShimMessage, now: u64) -> Session {
    let heard = if message is Quiet || message is Hello {
        s
    } else {
        Session { quiet_since: None, ..s }
    };
    match message {
        ShimMessage::Waiting => Session { state: State::Waiting, ..heard },
        ShimMessage::Connecting { attempt } => Session {
            authenticated: false,
            attempt,
            state: State::Connecting,
            ..heard
        },
        ShimMessage::Authenticated => Session {
            authenticated: true,
            state: State::Connected,
            connected_at: Some(now),
            ..heard
        },
        ShimMessage::Exited { code, end } => Session {
            state: match end {
                SessionEnd::LoginFailed => State::LoginFailed(code),
                SessionEnd::Disconnected => State::Disconnected(code),
                SessionEnd::Closed(c) => State::Ended(c),
            },
            ..heard
        },
        ShimMessage::Closing => Session { state: State::Closed, ..heard },
        ShimMessage::Quiet { since } => Session { quiet_since: Some(since), ..heard },
        ShimMessage::Heard => heard,
        ShimMessage::Hello(_) => heard,
    }
}

/// What a shim's report changes.
pub fn apply(s: &mut Session, message: &ShimMessage, now: u64)
    ensures
        *final(s) == applied(*old(s), *message, now),
{
    if !matches!(message, ShimMessage::Quiet { .. } | ShimMessage::Hello(_)) {
        s.quiet_since = None;
    }
    match message {
        ShimMessage::Waiting => {
            s.state = State::Waiting;
        },
        ShimMessage::Connecting { attempt } => {
            s.authenticated = false;
            s.attempt = *attempt;
            s.state = State::Connecting;
        },
        ShimMessage::Authenticated => {
            s.authenticated = true;
            s.state = State::Connected;
            s.connected_at = Some(now);
        },
        ShimMessage::Exited { code, end } => {
            s.state = match end {
                SessionEnd::LoginFailed => State::LoginFailed(*code),
                SessionEnd::Disconnected => State::Disconnected(*code),
                SessionEnd::Closed(c) => State::Ended(*c),
            };
        },
        ShimMessage::Closing => {
            s.state = State::Closed;
        },
        ShimMessage::Quiet { since } => {
            s.quiet_since = Some(*since);
        },
        ShimMessage::Heard | ShimMessage::Hello(_) => {},
    }
}

/// No report changes who a session is: its names, its tab and its lock
/// stay.
pub proof fn law_reports_keep_the_session(s: Session, message: ShimMessage, now: u64)
    ensures
        ({
            let t = applied(s, message, now);
            &&& t.id == s.id
            &&& t.label == s.label
            &&& t.alias == s.alias
            &&& t.terminal_session == s.terminal_session
            &&& t.link == s.link
            &&& t.location == s.location
            &&& t.locked == s.locked
            &&& t.on_login == s.on_login
            &&& t.auto_retries == s.auto_retries
        }),
{
}

/// A session is logged in only once its shim has said so.
pub proof fn law_connected_means_authenticated(s: Session, message: ShimMessage, now: u64)
    requires
        s.state is Connected ==> s.authenticated,
    ensures
        applied(s, message, now).state is Connected ==> applied(s, message, now).authenticated,
{
}

/// The wait (in seconds) before automatic reconnect number `n`.
pub open spec fn delay_of(n: u32) -> u64 {
    if n <= 1 {
        3
    } else if n == 2 {
        10
    } else if n == 3 {
        30
    } else {
        60
    }
}

/// Waits (in seconds) before automatic reconnect number n (1-based): quick
/// at first, then once a minute.
pub fn reconnect_delay(n: u32) -> (r: u64)
    ensures
        r == delay_of(n),
{
    let steps: [u64; 5] = [3, 10, 30, 60, 60];
    let at: usize = if n <= 1 {
        0
    } else if n - 1 < 4 {
        (n - 1) as usize
    } else {
        4
    };
    steps[at]
}

/// The waits grow, and level off at a minute.
pub proof fn law_delays_grow_and_level_off(a: u32, b: u32)
    requires
        a <= b,
    ensures
        3 <= delay_of(a) <= delay_of(b) <= 60,
        b >= 4 ==> delay_of(b) == 60,
{
}

/// The retry count after a drop: a connection that stayed up for a while
/// starts over; one that drops right after login keeps counting, so a
/// host that accepts and then closes isn't retried forever.
pub fn next_retry(previous: u32, connected_for: Option<u64>) -> (r: u32)
    requires
        previous < u32::MAX,
    ensures
        r == if connected_for matches Some(d) && d >= STABLE_CONNECTION {
            1
        } else {
            previous + 1
        },
{
    let stable = match connected_for {
        Some(d) => d >= STABLE_CONNECTION,
        None => false,
    };
    if stable {
        1
    } else {
        previous + 1
    }
}

/// `label`, then `label (2)`, `label (3)`, ….
pub open spec fn numbered(label: Seq<char>, k: nat) -> Seq<char> {
    if k == 0 {
        label
    } else {
        (label + " ("@ + text::decimal(k + 1)).push(')')
    }
}

/// The first of the numbered labels that isn't taken.
pub open spec fn first_free(label: Seq<char>, taken: Seq<Seq<char>>, k: nat) -> bool {
    !taken.contains(numbered(label, k)) && forall|j: nat| j < k ==> taken.contains(#[trigger] numbered(label, j))
}

/// `label`, or the first numbered one that isn't taken.
pub open spec fn free_label(label: Seq<char>, taken: Seq<Seq<char>>) -> Seq<char> {
    numbered(label, choose|k: nat| first_free(label, taken, k))
}

proof fn lemma_free_label(label: Seq<char>, taken: Seq<Seq<char>>, k: nat)
    requires
        first_free(label, taken, k),
    ensures
        free_label(label, taken) == numbered(label, k),
{
    let other = choose|k: nat| first_free(label, taken, k);
    if other < k {
        assert(taken.contains(numbered(label, other)));
    } else if k < other {
        assert(taken.contains(numbered(label, k)));
    }
}

proof fn lemma_numbered_differ(label: Seq<char>, a: nat, b: nat)
    requires
        numbered(label, a) == numbered(label, b),
    ensures
        a == b,
{
    reveal_strlit(" (");
    let front = label + " ("@;
    if a > 0 && b > 0 {
        assert(numbered(label, a).skip(front.len() as int).drop_last() =~= text::decimal(a + 1));
        assert(numbered(label, b).skip(front.len() as int).drop_last() =~= text::decimal(b + 1));
        text::lemma_decimal_injective(a + 1, b + 1);
    } else if a > 0 {
        assert(numbered(label, a).len() > label.len());
    } else if b > 0 {
        assert(numbered(label, b).len() > label.len());
    }
}

proof fn lemma_label_tries(label: Seq<char>, taken: Seq<Seq<char>>, k: nat)
    requires
        forall|j: nat| j < k ==> taken.contains(#[trigger] numbered(label, j)),
    ensures
        k <= taken.len(),
{
    let at = Seq::new(k, |j: int| choose|i: int| 0 <= i < taken.len() && taken[i] == numbered(label, j as nat));
    assert forall|j: int| 0 <= j < at.len() implies 0 <= #[trigger] at[j] < taken.len() && taken[at[j]] == numbered(
        label,
        j as nat,
    ) by {
        assert(taken.contains(numbered(label, j as nat)));
    }
    assert forall|i: int, j: int| 0 <= i < at.len() && 0 <= j < at.len() && i != j implies at[i] != at[j] by {
        if at[i] == at[j] {
            assert(taken[at[i]] == numbered(label, i as nat));
            assert(taken[at[j]] == numbered(label, j as nat));
            lemma_numbered_differ(label, i as nat, j as nat);
        }
    }
    text::lemma_pigeonhole(at, taken.len() as int);
}

proof fn lemma_some_free(label: Seq<char>, taken: Seq<Seq<char>>, k: nat) -> (r: nat)
    requires
        forall|j: nat| j < k ==> taken.contains(#[trigger] numbered(label, j)),
    ensures
        first_free(label, taken, r),
    decreases taken.len() + 1 - k,
{
    lemma_label_tries(label, taken, k);
    if taken.contains(numbered(label, k)) {
        assert forall|j: nat| j < k + 1 implies taken.contains(#[trigger] numbered(label, j)) by {
            if j < k {
                assert(taken.contains(numbered(label, j)));
            }
        }
        lemma_label_tries(label, taken, k + 1);
        lemma_some_free(label, taken, k + 1)
    } else {
        k
    }
}

fn numbered_label(label: &[char], k: u128) -> (r: String)
    requires
        k < u128::MAX,
    ensures
        r@ == numbered(label@, k as nat),
{
    if k == 0 {
        return text::string_of(label);
    }
    let mut r = text::part(label, 0, label.len());
    proof {
        assert(r@ =~= label@);
    }
    let open = text::chars_of(" (");
    text::append(&mut r, &open);
    let n = text::decimal_chars(k + 1);
    text::append(&mut r, &n);
    r.push(')');
    text::string_of(&r)
}

/// `label`, or `label (2)`, `label (3)`, … if taken.
pub fn unique_label(label: &str, taken: &[String]) -> (r: String)
    ensures
        r@ == free_label(label@, text::texts(taken@)),
        !text::texts(taken@).contains(r@),
{
    let chars = text::chars_of(label);
    let ghost all = text::texts(taken@);
    let count: usize = taken.len();
    let mut k: u128 = 0;
    let mut r = text::owned(label);
    while text::contains_text(taken, &r)
        invariant
            all == text::texts(taken@),
            all.len() == count,
            chars@ == label@,
            k <= count,
            r@ == numbered(label@, k as nat),
            forall|j: nat| j < k ==> all.contains(#[trigger] numbered(label@, j)),
        decreases count + 1 - k,
    {
        proof {
            assert forall|j: nat| j < k + 1 implies all.contains(#[trigger] numbered(label@, j)) by {
                if j < k {
                    assert(all.contains(numbered(label@, j)));
                }
            }
            lemma_label_tries(label@, all, (k + 1) as nat);
        }
        k += 1;
        r = numbered_label(&chars, k);
    }
    proof {
        assert(first_free(label@, all, k as nat));
        lemma_free_label(label@, all, k as nat);
    }
    r
}

/// A label made unique isn't taken, whatever is; a free one stays as it is.
pub proof fn law_unique_label_is_free(label: Seq<char>, taken: Seq<Seq<char>>)
    ensures
        !taken.contains(free_label(label, taken)),
        !taken.contains(label) ==> free_label(label, taken) == label,
{
    let k = lemma_some_free(label, taken, 0);
    lemma_free_label(label, taken, k);
    if !taken.contains(label) {
        assert(first_free(label, taken, 0));
        lemma_free_label(label, taken, 0);
    }
}

/// A session is open until its tab failed to open, is gone or is closed, and
/// can be connected while it waits or after its connection ended.
pub proof fn law_states(s: State)
    ensures
        s.open() <==> (match s {
            State::Failed(_) | State::Gone | State::Closed => false,
            State::Opening | State::Detached | State::Waiting | State::Connecting | State::Connected => true,
            State::LoginFailed(_) | State::Unreachable(_) | State::Disconnected(_) | State::Ended(_) => true,
        }),
        s.connectable() <==> (match s {
            State::Waiting | State::LoginFailed(_) | State::Unreachable(_) | State::Disconnected(_) | State::Ended(_) => true,
            State::Opening | State::Detached | State::Connecting | State::Connected => false,
            State::Failed(_) | State::Gone | State::Closed => false,
        }),
{
}

/// What each report makes of a session.
pub proof fn law_what_reports_do(s: Session, now: u64)
    ensures
        applied(s, ShimMessage::Waiting, now).state == State::Waiting,
        applied(s, ShimMessage::Closing, now).state == State::Closed,
        forall|n: u32|
            (#[trigger] applied(s, ShimMessage::Connecting { attempt: n }, now)).state == State::Connecting && applied(
                s,
                ShimMessage::Connecting { attempt: n },
                now,
            ).attempt == n && !applied(s, ShimMessage::Connecting { attempt: n }, now).authenticated,
        applied(s, ShimMessage::Authenticated, now).state == State::Connected,
        applied(s, ShimMessage::Authenticated, now).authenticated,
        applied(s, ShimMessage::Authenticated, now).connected_at == Some(now),
        forall|c: i32|
            (#[trigger] applied(s, ShimMessage::Exited { code: c, end: SessionEnd::LoginFailed }, now)).state
                == State::LoginFailed(c),
        forall|c: i32|
            (#[trigger] applied(s, ShimMessage::Exited { code: c, end: SessionEnd::Disconnected }, now)).state
                == State::Disconnected(c),
        forall|c: i32, d: i32|
            (#[trigger] applied(s, ShimMessage::Exited { code: c, end: SessionEnd::Closed(d) }, now)).state == State::Ended(d),
        forall|t: u64| (#[trigger] applied(s, ShimMessage::Quiet { since: t }, now)).quiet_since == Some(t),
        forall|t: u64| (#[trigger] applied(s, ShimMessage::Quiet { since: t }, now)).state == s.state,
        applied(s, ShimMessage::Heard, now).state == s.state,
        forall|h: Hello| #[trigger] applied(s, ShimMessage::Hello(h), now) == s,
{
}

/// Whatever is heard ends the quiet, but for a report of quiet and a hello;
/// only a login sets when it was, only the start of one its number, and
/// only these two whether there was one.
pub proof fn law_reports_change_no_more(s: Session, message: ShimMessage, now: u64)
    ensures
        message !is Quiet && message !is Hello ==> applied(s, message, now).quiet_since is None,
        message !is Authenticated ==> applied(s, message, now).connected_at == s.connected_at,
        message !is Connecting ==> applied(s, message, now).attempt == s.attempt,
        message !is Connecting && message !is Authenticated ==> applied(s, message, now).authenticated == s.authenticated,
        applied(s, message, now).shim_pid == s.shim_pid,
        applied(s, message, now).current_terminal_session == s.current_terminal_session,
        applied(s, message, now).restorable == s.restorable,
        applied(s, message, now).no_forwards == s.no_forwards,
        applied(s, message, now).last_position == s.last_position,
        applied(s, message, now).told_to_connect == s.told_to_connect,
        applied(s, message, now).specials == s.specials,
{
}

/// The waits before reconnecting: three seconds, ten, thirty, then a minute.
pub proof fn law_delays(n: u32)
    ensures
        delay_of(1) == 3,
        delay_of(2) == 10,
        delay_of(3) == 30,
        n > 3 ==> delay_of(n) == 60,
        n == 0 ==> delay_of(n) == 3,
{
}

/// Braces around a GUID are nothing.
pub proof fn law_braces(s: Seq<char>)
    ensures
        without_braces(seq!['{'] + s) == without_braces(s),
        s.len() == 0 || (s[0] != '{' && s[0] != '}' && s[s.len() - 1] != '{' && s[s.len() - 1] != '}') ==> without_braces(s) == s
            && without_braces(seq!['{'] + s + seq!['}']) == s,
{
    let a = seq!['{'] + s;
    assert(a.skip(1) =~= s);
    assert(a.first() == '{');
    let b = seq!['{'] + s + seq!['}'];
    assert(b.first() == '{');
    assert(b.skip(1) =~= s.push('}'));
    let c = s.push('}');
    assert(without_braces(b) == without_braces(c));
    if s.len() == 0 {
        assert(c.first() == '}');
        assert(c.skip(1) =~= s);
        assert(without_braces(s) == s);
        assert(without_braces(c) == without_braces(c.skip(1)));
    } else {
        assert(c.first() == s[0]);
        assert(c.last() == '}');
        assert(c.drop_last() =~= s);
        assert(s.first() == s[0]);
        assert(s.last() == s[s.len() - 1]);
        if s[0] != '{' && s[0] != '}' && s[s.len() - 1] != '{' && s[s.len() - 1] != '}' {
            assert(without_braces(s) == s);
            assert(without_braces(c) == without_braces(c.drop_last()));
        }
    }
}

/// A session has the GUID it was opened with and the one it came back with,
/// in any case and with or without braces, and no other.
pub proof fn law_guids(s: Session, guid: Seq<char>)
    requires
        guid.len() > 0,
        guid[0] != '{' && guid[0] != '}' && guid[guid.len() - 1] != '{' && guid[guid.len() - 1] != '}',
    ensures
        s.has_guid(guid) <==> text::same_but_case(s.terminal_session@, guid) || (s.current_terminal_session matches Some(g)
            && text::same_but_case(g@, guid)),
        s.has_guid(seq!['{'] + guid + seq!['}']) == s.has_guid(guid),
{
    law_braces(guid);
}

/// A label's copies are numbered from two on, and a label gets the smallest
/// number that is free.
pub proof fn law_smallest_free_number(label: Seq<char>, taken: Seq<Seq<char>>, k: nat)
    requires
        k > 0,
        taken.contains(label),
        !taken.contains(label + " ("@ + text::decimal(k + 1) + seq![')']),
        forall|j: nat| 0 < j < k ==> taken.contains(label + " ("@ + #[trigger] text::decimal(j + 1) + seq![')']),
    ensures
        free_label(label, taken) == label + " ("@ + text::decimal(k + 1) + seq![')'],
{
    assert forall|j: nat| j > 0 implies #[trigger] numbered(label, j) == label + " ("@ + text::decimal(j + 1) + seq![')'] by {
        assert(numbered(label, j) =~= label + " ("@ + text::decimal(j + 1) + seq![')']);
    }
    assert forall|j: nat| j < k implies taken.contains(#[trigger] numbered(label, j)) by {
        if j > 0 {
            assert(taken.contains(label + " ("@ + text::decimal(j + 1) + seq![')']));
        }
    }
    assert(first_free(label, taken, k));
    let c = choose|c: nat| first_free(label, taken, c);
    assert(first_free(label, taken, c));
    if c < k {
        assert(taken.contains(numbered(label, c)));
    }
    if k < c {
        assert(taken.contains(numbered(label, k)));
    }
}

/// A new session has its names and nothing else yet.
pub proof fn law_a_new_session(s: Session, id: Seq<char>, guid: Seq<char>, label: Seq<char>, alias: Seq<char>)
    requires
        is_new(s, id, guid, label, alias),
    ensures
        s.id@ == id && s.terminal_session@ == guid && s.label@ == label && s.alias@ == alias,
        s.link is None && s.location is None && s.shim_pid is None && s.last_position is None && s.quiet_since is None,
        s.current_terminal_session is None && s.on_login is None && s.connected_at is None,
        !s.authenticated && !s.restorable && !s.no_forwards && !s.locked && !s.told_to_connect,
        s.attempt == 0 && s.auto_retries == 0 && s.specials@.len() == 0,
{
}

/// What is said of each state: a failure says with which code, or why.
pub proof fn law_words_of_states(code: i32, why: String)
    ensures
        State::Opening.said() == crate::message::said("state-opening"@),
        State::Detached.said() == crate::message::said("state-detached"@),
        State::Waiting.said() == crate::message::said("state-waiting"@),
        State::Connecting.said() == crate::message::said("state-connecting"@),
        State::Connected.said() == crate::message::said("state-connected"@),
        State::LoginFailed(code).said() == crate::message::said("state-login-failed"@).number("code"@, code as int),
        State::Unreachable(code).said() == crate::message::said("state-unreachable"@).number("code"@, code as int),
        State::Disconnected(code).said() == crate::message::said("state-disconnected"@).number("code"@, code as int),
        State::Ended(code).said() == crate::message::said("state-ended"@).number("code"@, code as int),
        State::Failed(why).said() == crate::message::said("state-failed"@).text("reason"@, why@),
        State::Gone.said() == crate::message::said("state-gone"@),
        State::Closed.said() == crate::message::said("state-closed"@),
{
}

/// A connection counts as stable after a minute, a session that lost its tab
/// is given 12 seconds, and one can be brought back for a week.
pub proof fn law_session_times()
    ensures
        STABLE_CONNECTION == 60 * 1000,
        DETACHED_GRACE == 12 * 1000,
        RESTORABLE_FOR == 7 * 24 * 60 * 60,
{
}

} // verus!
