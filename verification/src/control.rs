//! Commands to sessions: naming their tabs, sending text, connecting
//! again, closing, locking.

use vstd::prelude::*;

use crate::commands;
use crate::message;
use crate::message::{Message, Notice};
use crate::session;
use crate::session::{Session, SessionView, State};
use crate::sessions;
use crate::sessions::{Core, HostRequest, Recording, TabSpec};
use crate::tabs;
use crate::text;

verus! {

/// Where a label's number begins: the space before ` (2)` at its end.
pub open spec fn number_start(label: Seq<char>) -> Option<int> {
    match text::last_at(label, '(') {
        Some(i) => if i >= 1 && label[i - 1] == ' ' && label.last() == ')' && i + 1 < label.len() && text::all_digits(
            label.subrange(i + 1, label.len() - 1),
        ) {
            Some(i - 1)
        } else {
            None
        },
        None => None,
    }
}

/// A label without its ` (2)`.
pub open spec fn base_of(label: Seq<char>) -> Seq<char> {
    match number_start(label) {
        Some(i) => label.take(i),
        None => label,
    }
}

/// A label without its ` (2)`.
pub fn base_label(label: &str) -> (r: String)
    ensures
        r@ == base_of(label@),
{
    let chars = text::chars_of(label);
    let n: usize = chars.len();
    if let Some(i) = text::rfind_char(&chars, '(') {
        if i >= 1 && chars[i - 1] == ' ' && chars[n - 1] == ')' && i + 1 < n {
            let digits = text::part(&chars, i + 1, n - 1);
            if text::is_all_digits(&digits) {
                let base = text::part(&chars, 0, i - 1);
                proof {
                    assert(base@ =~= chars@.take(i - 1));
                }
                return text::string_of(&base);
            }
        }
    }
    text::owned(label)
}

/// A numbered label's base is the label it was made from.
pub proof fn law_base_of_numbered(label: Seq<char>, k: nat)
    requires
        k > 0,
    ensures
        base_of(session::numbered(label, k)) == label,
{
    reveal_strlit(" (");
    let digits = text::decimal(k + 1);
    let l = session::numbered(label, k);
    let i = label.len() as int + 1;
    text::lemma_decimal(k + 1);
    assert(l[i] == '(');
    assert forall|j: int| i < j < l.len() implies l[j] != '(' by {
        if j < l.len() - 1 {
            assert(l[j] == digits[j - i - 1]);
            assert(text::is_digit(digits[j - i - 1]));
        }
    }
    text::lemma_last_at_is(l, '(', i);
    assert(l.subrange(i + 1, l.len() - 1) =~= digits);
    assert(l.take(i - 1) =~= label);
}

/// The name that a host has now, by its alias.
pub open spec fn name_of(labels: Seq<(String, String)>, alias: Seq<char>) -> Option<String>
    decreases labels.len(),
{
    if labels.len() == 0 {
        None
    } else if labels.first().0@ == alias {
        Some(labels.first().1)
    } else {
        name_of(labels.skip(1), alias)
    }
}

fn find_name(labels: &[(String, String)], alias: &str) -> (r: Option<String>)
    ensures
        r == name_of(labels@, alias@),
{
    let mut i: usize = 0;
    proof {
        assert(labels@.skip(0) =~= labels@);
    }
    while i < labels.len()
        invariant
            i <= labels@.len(),
            name_of(labels@, alias@) == name_of(labels@.skip(i as int), alias@),
        decreases labels@.len() - i,
    {
        proof {
            assert(labels@.skip(i as int).skip(1) =~= labels@.skip(i + 1));
        }
        if text::same(&labels[i].0, alias) {
            return Some(labels[i].1.clone());
        }
        i += 1;
    }
    None
}

/// The name a new tab for a session gets: the host's current name in the
/// tree, else the session's own without its `(2)` suffix.
pub open spec fn new_label(labels: Seq<(String, String)>, alias: Seq<char>, label: Seq<char>) -> Seq<char> {
    match name_of(labels, alias) {
        Some(name) => name@,
        None => base_of(label),
    }
}

/// `v` is what is shown of `s`: its own view, and the host's name where it
/// was renamed after the tab opened.
pub open spec fn shows(v: SessionView, s: Session, labels: Seq<(String, String)>) -> bool {
    &&& v.id == s.id
    &&& v.label == s.label
    &&& v.alias == s.alias
    &&& v.state == s.state
    &&& v.shim_pid == s.shim_pid
    &&& v.attempt == s.attempt
    &&& v.linked == (s.link is Some)
    &&& v.location == s.location
    &&& v.auto_retry == if s.auto_retries > 0 && (s.state is Disconnected || s.state is Connecting) {
        Some(s.auto_retries)
    } else {
        None
    }
    &&& v.locked == s.locked
    &&& v.renamed_to == match name_of(labels, s.alias@) {
        Some(name) => if name@ != base_of(s.label@) {
            Some(name)
        } else {
            None
        },
        None => None,
    }
    &&& v.last_position == s.last_position
    &&& v.quiet_since == if s.state.open() {
        s.quiet_since
    } else {
        None
    }
    &&& text::texts(v.specials@) == text::texts(s.specials@)
}

/// Where text for sessions goes: a session that was asked for, and its
/// link if it is logged in.
pub struct SendTo {
    pub label: String,
    pub alias: String,
    pub link: Option<u64>,
}

/// The sessions asked for that exist, each with its link if it is logged
/// in.
pub open spec fn send_targets(all: Seq<Session>, ids: Seq<Seq<char>>) -> Seq<SendTo>
    decreases ids.len(),
{
    if ids.len() == 0 {
        Seq::empty()
    } else {
        let before = send_targets(all, ids.drop_last());
        match sessions::with_id(all, ids.last()) {
            Some(i) => before.push(
                SendTo {
                    label: all[i].label,
                    alias: all[i].alias,
                    link: if all[i].state is Connected {
                        all[i].link
                    } else {
                        None
                    },
                },
            ),
            None => before,
        }
    }
}

/// What happened to a command that was sent.
#[derive(Clone, Debug, PartialEq, Eq)]
pub struct SendReport {
    /// Labels of the sessions that got it.
    pub sent: Vec<String>,
    /// Not logged in (or no shim): not sent.
    pub skipped: Vec<String>,
    /// The shim couldn't be reached.
    pub failed: Vec<String>,
}

impl Default for SendReport {
    fn default() -> (r: SendReport)
        ensures
            r.sent@.len() == 0,
            r.skipped@.len() == 0,
            r.failed@.len() == 0,
    {
        SendReport { sent: Vec::new(), skipped: Vec::new(), failed: Vec::new() }
    }
}

/// How a send to one session came out.
pub enum Sent {
    Done,
    Skipped,
    Failed,
}

/// How the send to a target came out, given whether its shim took it.
pub open spec fn outcome(target: SendTo, ok: bool) -> Sent {
    if target.link is None {
        Sent::Skipped
    } else if ok {
        Sent::Done
    } else {
        Sent::Failed
    }
}

/// The labels of the targets that came out so, in order.
pub open spec fn labels_of(targets: Seq<SendTo>, ok: Seq<bool>, how: Sent) -> Seq<Seq<char>>
    decreases targets.len(),
{
    if targets.len() == 0 {
        Seq::empty()
    } else {
        let before = labels_of(targets.drop_last(), ok, how);
        if outcome(targets.last(), ok[targets.len() - 1]) == how {
            before.push(targets.last().label@)
        } else {
            before
        }
    }
}

/// `label (alias)` of the targets that got it, for the audit log.
pub open spec fn audited(targets: Seq<SendTo>, ok: Seq<bool>) -> Seq<Seq<char>>
    decreases targets.len(),
{
    if targets.len() == 0 {
        Seq::empty()
    } else {
        let before = audited(targets.drop_last(), ok);
        let t = targets.last();
        if outcome(t, ok[targets.len() - 1]) is Done {
            before.push((t.label@ + " ("@ + t.alias@).push(')'))
        } else {
            before
        }
    }
}

/// What was sent and to whom, given what each target's shim answered.
pub fn send_report(targets: &[SendTo], ok: &[bool]) -> (r: (SendReport, Vec<String>))
    requires
        targets@.len() == ok@.len(),
    ensures
        text::texts(r.0.sent@) == labels_of(targets@, ok@, Sent::Done),
        text::texts(r.0.skipped@) == labels_of(targets@, ok@, Sent::Skipped),
        text::texts(r.0.failed@) == labels_of(targets@, ok@, Sent::Failed),
        text::texts(r.1@) == audited(targets@, ok@),
{
    let mut sent: Vec<String> = Vec::new();
    let mut skipped: Vec<String> = Vec::new();
    let mut failed: Vec<String> = Vec::new();
    let mut audit: Vec<String> = Vec::new();
    let mut i: usize = 0;
    proof {
        assert(targets@.take(0) =~= Seq::empty());
        assert(text::texts(sent@) =~= Seq::empty());
        assert(text::texts(skipped@) =~= Seq::empty());
        assert(text::texts(failed@) =~= Seq::empty());
        assert(text::texts(audit@) =~= Seq::empty());
    }
    while i < targets.len()
        invariant
            i <= targets@.len() == ok@.len(),
            text::texts(sent@) == labels_of(targets@.take(i as int), ok@, Sent::Done),
            text::texts(skipped@) == labels_of(targets@.take(i as int), ok@, Sent::Skipped),
            text::texts(failed@) == labels_of(targets@.take(i as int), ok@, Sent::Failed),
            text::texts(audit@) == audited(targets@.take(i as int), ok@),
        decreases targets@.len() - i,
    {
        let t = &targets[i];
        let ghost (a, b, c, d) = (text::texts(sent@), text::texts(skipped@), text::texts(failed@), text::texts(audit@));
        proof {
            assert(targets@.take(i + 1).drop_last() =~= targets@.take(i as int));
            assert(targets@.take(i + 1).last() == *t);
        }
        if t.link.is_none() {
            skipped.push(t.label.clone());
            proof {
                assert(text::texts(skipped@) =~= b.push(t.label@));
            }
        } else if ok[i] {
            let mut line = text::chars_of(&t.label);
            let open = text::chars_of(" (");
            text::append(&mut line, &open);
            let alias = text::chars_of(&t.alias);
            text::append(&mut line, &alias);
            line.push(')');
            let line = text::string_of(&line);
            sent.push(t.label.clone());
            audit.push(line);
            proof {
                assert(text::texts(sent@) =~= a.push(t.label@));
                assert(text::texts(audit@) =~= d.push(line@));
            }
        } else {
            failed.push(t.label.clone());
            proof {
                assert(text::texts(failed@) =~= c.push(t.label@));
            }
        }
        i += 1;
    }
    proof {
        assert(targets@.take(i as int) =~= targets@);
    }
    (SendReport { sent, skipped, failed }, audit)
}

/// The audit log's file of a month: `commands-YYYY-MM.log`, by the first
/// seven characters of the date.
pub fn audit_file(date: &str) -> (r: String)
    requires
        date@.len() >= 7,
    ensures
        r@ == "commands-"@ + date@.take(7) + ".log"@,
{
    let mut r = text::chars_of("commands-");
    let date = text::chars_of(date);
    let month = text::part(&date, 0, 7);
    text::append(&mut r, &month);
    let end = text::chars_of(".log");
    text::append(&mut r, &end);
    proof {
        assert(month@ =~= date@.take(7));
    }
    text::string_of(&r)
}

/// A text on one line: line ends are shown as a sign.
pub open spec fn on_one_line(s: Seq<char>) -> Seq<char>
    decreases s.len(),
{
    if s.len() == 0 {
        s
    } else {
        let before = on_one_line(s.drop_last());
        if s.last() == '\r' {
            before
        } else if s.last() == '\n' {
            before + " \u{23CE} "@
        } else {
            before.push(s.last())
        }
    }
}

/// The texts with `, ` between them.
pub open spec fn comma_list(parts: Seq<Seq<char>>) -> Seq<char>
    decreases parts.len(),
{
    if parts.len() == 0 {
        Seq::empty()
    } else if parts.len() == 1 {
        parts[0]
    } else {
        comma_list(parts.drop_last()) + ", "@ + parts.last()
    }
}

pub(crate) fn comma_chars(parts: &[String]) -> (r: Vec<char>)
    ensures
        r@ == comma_list(text::texts(parts@)),
{
    let ghost all = text::texts(parts@);
    let mut r: Vec<char> = Vec::new();
    let mut i: usize = 0;
    proof {
        assert(all.take(0) =~= Seq::empty());
        assert(r@ =~= Seq::empty());
    }
    while i < parts.len()
        invariant
            i <= parts@.len(),
            all == text::texts(parts@),
            all.len() == parts@.len(),
            r@ == comma_list(all.take(i as int)),
        decreases parts@.len() - i,
    {
        proof {
            assert(all.take(i + 1).drop_last() =~= all.take(i as int));
            assert(all.take(i + 1).last() == parts@[i as int]@);
        }
        if i > 0 {
            let comma = text::chars_of(", ");
            text::append(&mut r, &comma);
        }
        let part = text::chars_of(&parts[i]);
        text::append(&mut r, &part);
        proof {
            if i == 0 {
                assert(r@ =~= part@);
            }
        }
        i += 1;
    }
    proof {
        assert(all.take(i as int) =~= all);
    }
    r
}

/// A line of the audit log: when, to whom, and what.
pub open spec fn audit_text(date: Seq<char>, time: Seq<char>, targets: Seq<Seq<char>>, sent: Seq<char>) -> Seq<char> {
    date + " "@ + time + "Z\t"@ + comma_list(targets) + "\t"@ + on_one_line(sent)
}

/// A line of the audit log: when, to whom, and what.
pub fn audit_line(date: &str, time: &str, targets: &[String], sent: &str) -> (r: String)
    ensures
        r@ == audit_text(date@, time@, text::texts(targets@), sent@),
{
    let mut r = text::chars_of(date);
    let mut part = text::chars_of(" ");
    text::append(&mut r, &part);
    part = text::chars_of(time);
    text::append(&mut r, &part);
    part = text::chars_of("Z\t");
    text::append(&mut r, &part);
    part = comma_chars(targets);
    text::append(&mut r, &part);
    part = text::chars_of("\t");
    text::append(&mut r, &part);
    let chars = text::chars_of(sent);
    let sign = text::chars_of(" \u{23CE} ");
    let mut line: Vec<char> = Vec::new();
    let mut i: usize = 0;
    proof {
        assert(chars@.take(0) =~= Seq::empty());
        assert(line@ =~= on_one_line(chars@.take(0)));
    }
    while i < chars.len()
        invariant
            i <= chars@.len(),
            sign@ == " \u{23CE} "@,
            line@ == on_one_line(chars@.take(i as int)),
        decreases chars@.len() - i,
    {
        proof {
            assert(chars@.take(i + 1).drop_last() =~= chars@.take(i as int));
            assert(chars@.take(i + 1).last() == chars@[i as int]);
        }
        if chars[i] == '\n' {
            text::append(&mut line, &sign);
        } else if chars[i] != '\r' {
            line.push(chars[i]);
        }
        i += 1;
    }
    proof {
        assert(chars@.take(i as int) =~= chars@);
    }
    text::append(&mut r, &line);
    text::string_of(&r)
}

/// The audit log keeps every command on one line.
pub proof fn law_audit_is_one_line(sent: Seq<char>)
    ensures
        !on_one_line(sent).contains('\n'),
        !on_one_line(sent).contains('\r'),
    decreases sent.len(),
{
    if sent.len() > 0 {
        law_audit_is_one_line(sent.drop_last());
        reveal_strlit(" \u{23CE} ");
        let before = on_one_line(sent.drop_last());
        let after = on_one_line(sent);
        assert forall|i: int| 0 <= i < after.len() implies after[i] != '\n' && after[i] != '\r' by {
            if i < before.len() {
                assert(before.contains(before[i]));
                assert(after[i] == before[i]);
            }
        }
    }
}

/// The first open session whose tab this is.
pub open spec fn session_at(all: Seq<Session>, window: int, tab: int) -> Option<int>
    decreases all.len(),
{
    if all.len() == 0 {
        None
    } else if all.first().state.open() && (all.first().location matches Some(l) && l.window == window && l.tab_index == tab) {
        Some(0)
    } else {
        match session_at(all.skip(1), window, tab) {
            Some(i) => Some(i + 1),
            None => None,
        }
    }
}

/// The open sessions, without the locked ones.
pub open spec fn to_close(all: Seq<Session>) -> Seq<(Seq<char>, Option<u64>)>
    decreases all.len(),
{
    if all.len() == 0 {
        Seq::empty()
    } else {
        let before = to_close(all.drop_last());
        let s = all.last();
        if !s.locked && s.state.open() {
            before.push((s.id@, s.link))
        } else {
            before
        }
    }
}

/// The pairs of id and link, as sequences.
pub open spec fn closings(v: Seq<(String, Option<u64>)>) -> Seq<(Seq<char>, Option<u64>)> {
    v.map_values(|c: (String, Option<u64>)| (c.0@, c.1))
}

/// How a tab is closed.
#[derive(Debug, PartialEq, Eq)]
pub enum CloseStep {
    /// Tell the shim over its link.
    Tell(u64),
    /// Look for the tab with this label and use its close button.
    LookFor(String),
}

/// How it went.
pub enum CloseOutcome {
    /// The shim was told.
    Told,
    /// The tab was closed.
    TabClosed,
    /// The tab isn't what it was: it was left alone.
    TabChanged,
    /// There is no such tab.
    NoTab,
    /// Terminal couldn't do it.
    Failed(String),
}

/// What a message to a session's shim meets.
#[derive(Debug, PartialEq, Eq)]
pub enum Delivery {
    /// It goes over this link.
    Over(u64),
    NotLinked(Message),
    /// There is no such session.
    Unknown,
}

/// What follows a dropped connection.
#[derive(Debug, PartialEq, Eq)]
pub enum Dropped {
    /// Automatic reconnects are off, or there is no such session.
    Leave,
    /// Too many tries: it is left.
    GaveUp(Message),
    /// Connect again after this many milliseconds.
    Again(u64),
}

/// Where a message to a session's shim goes: over its link; where there is
/// none, that is said.
pub open spec fn goes(all: Seq<Session>, id: Seq<char>, d: Delivery) -> bool {
    match sessions::with_id(all, id) {
        Some(i) => match all[i].link {
            Some(link) => d == Delivery::Over(link),
            None => d matches Delivery::NotLinked(m) && m@ == message::said("notice-not-linked"@).text(
                "label"@,
                all[i].label@,
            ),
        },
        None => d is Unknown,
    }
}

/// A session's own delay (in milliseconds), spread over two seconds.
pub open spec fn spread_of(bytes: Seq<u8>) -> int
    decreases bytes.len(),
{
    if bytes.len() == 0 {
        0
    } else {
        (spread_of(bytes.drop_last()) * 31 + bytes.last()) % 0x1_0000_0000_0000_0000
    }
}

fn spread(id: &str) -> (r: u64)
    ensures
        r == spread_of(vstd::utf8::encode_utf8(id@)) % 2000,
{
    let bytes = id.as_bytes();
    let ghost all = bytes@;
    let mut h: u64 = 0;
    let mut i: usize = 0;
    proof {
        assert(all.take(0) =~= Seq::empty());
    }
    while i < bytes.len()
        invariant
            i <= bytes@.len(),
            all == bytes@,
            h == spread_of(all.take(i as int)),
        decreases bytes@.len() - i,
    {
        proof {
            assert(all.take(i + 1).drop_last() =~= all.take(i as int));
            assert(all.take(i + 1).last() == all[i as int]);
        }
        let wide: u128 = h as u128 * 31 + bytes[i] as u128;
        h = (wide % 0x1_0000_0000_0000_0000) as u64;
        i += 1;
    }
    proof {
        assert(all.take(i as int) =~= all);
    }
    h % 2000
}

/// The retry count of a session whose connection dropped at `now`.
pub open spec fn retries_after(s: Session, now: u64) -> int {
    if s.connected_at matches Some(t) && now - t >= session::STABLE_CONNECTION {
        1
    } else {
        s.auto_retries + 1
    }
}

/// The sessions that are still waited for.
pub open spec fn detached_ids(all: Seq<Session>) -> Seq<Seq<char>>
    decreases all.len(),
{
    if all.len() == 0 {
        Seq::empty()
    } else {
        let before = detached_ids(all.drop_last());
        if all.last().state is Detached {
            before.push(all.last().id@)
        } else {
            before
        }
    }
}

impl Core {
    /// The name a new tab for this session gets: the host's current name
    /// in the tree, else the session's own without its `(2)` suffix.
    pub fn fresh_label(&self, alias: &str, label: &str) -> (r: String)
        ensures
            r@ == new_label(self.host_labels@, alias@, label@),
    {
        match find_name(&self.host_labels, alias) {
            Some(name) => name,
            None => base_label(label),
        }
    }

    fn shown(&self, s: &Session) -> (v: SessionView)
        ensures
            shows(v, *s, self.host_labels@),
    {
        let mut v = s.view();
        v.renamed_to = match find_name(&self.host_labels, &s.alias) {
            Some(name) => {
                let base = base_label(&s.label);
                if text::same(&name, &base) {
                    None
                } else {
                    Some(name)
                }
            },
            None => None,
        };
        v
    }

    /// What the window shows of the sessions.
    pub fn sessions(&self) -> (r: Vec<SessionView>)
        ensures
            r@.len() == self.sessions@.len(),
            forall|i: int|
                0 <= i < r@.len() ==> shows(#[trigger] r@[i], self.sessions@[i], self.host_labels@),
    {
        let mut r: Vec<SessionView> = Vec::new();
        let mut i: usize = 0;
        while i < self.sessions.len()
            invariant
                i <= self.sessions@.len(),
                r@.len() == i,
                forall|j: int| 0 <= j < i ==> shows(#[trigger] r@[j], self.sessions@[j], self.host_labels@),
            decreases self.sessions@.len() - i,
        {
            let v = self.shown(&self.sessions[i]);
            r.push(v);
            i += 1;
        }
        r
    }

    /// The saved hosts' current names (alias, name), after every reload.
    pub fn set_host_labels(&mut self, labels: Vec<(String, String)>)
        ensures
            *final(self) == (Core { host_labels: labels, ..*old(self) }),
    {
        self.host_labels = labels;
    }

    /// Whether every tab is wanted (the tab list is shown); `true` when a
    /// scan is due, because this was turned on.
    pub fn want_all_tabs(&mut self, on: bool) -> (r: bool)
        ensures
            r == (on && !old(self).all_tabs),
            *final(self) == (Core { all_tabs: on, ..*old(self) }),
    {
        let was = self.all_tabs;
        self.all_tabs = on;
        on && !was
    }

    /// The sessions that text is for. Only sessions that are logged in get
    /// it: text typed at a password or host-key prompt would be taken as
    /// the answer.
    pub fn send_plan(&self, ids: &[String]) -> (r: Vec<SendTo>)
        ensures
            r@ == send_targets(self.sessions@, text::texts(ids@)),
    {
        let ghost all = text::texts(ids@);
        let mut r: Vec<SendTo> = Vec::new();
        let mut i: usize = 0;
        proof {
            assert(all.take(0) =~= Seq::empty());
            assert(r@ =~= Seq::empty());
        }
        while i < ids.len()
            invariant
                i <= ids@.len(),
                all == text::texts(ids@),
                all.len() == ids@.len(),
                r@ == send_targets(self.sessions@, all.take(i as int)),
            decreases ids@.len() - i,
        {
            proof {
                assert(all.take(i + 1).drop_last() =~= all.take(i as int));
                assert(all.take(i + 1).last() == ids@[i as int]@);
            }
            if let Some(k) = sessions::find_id(&self.sessions, &ids[i]) {
                let s = &self.sessions[k];
                let connected = matches!(s.state, State::Connected);
                r.push(
                    SendTo {
                        label: s.label.clone(),
                        alias: s.alias.clone(),
                        link: if connected {
                            s.link
                        } else {
                            None
                        },
                    },
                );
            }
            i += 1;
        }
        proof {
            assert(all.take(i as int) =~= all);
        }
        r
    }

    /// NativeTerm's session in the selected tab of the Terminal window that
    /// was last in front (what "the active session" means while NativeTerm
    /// itself has the focus), by its place.
    pub fn active_session(&self) -> (r: Option<usize>)
        ensures
            ({
                let found = match tabs::active_tab(self.snapshot@, self.last_terminal as int) {
                    Some((w, t)) => session_at(self.sessions@, w, t),
                    None => None,
                };
                match r {
                    Some(i) => found == Some(i as int) && i < self.sessions@.len(),
                    None => found is None,
                }
            }),
    {
        let (window, tab) = match tabs::find_active(&self.snapshot, self.last_terminal) {
            Some(at) => at,
            None => {
                return None;
            },
        };
        let ghost all = self.sessions@;
        let mut i: usize = 0;
        proof {
            assert(all.skip(0) =~= all);
        }
        while i < self.sessions.len()
            invariant
                i <= self.sessions@.len(),
                all == self.sessions@,
                tabs::active_tab(self.snapshot@, self.last_terminal as int) == Some((window as int, tab as int)),
                session_at(all, window as int, tab as int) == match session_at(
                    all.skip(i as int),
                    window as int,
                    tab as int,
                ) {
                    Some(k) => Some(k + i),
                    None => None::<int>,
                },
            decreases self.sessions@.len() - i,
        {
            proof {
                assert(all.skip(i as int).skip(1) =~= all.skip(i + 1));
            }
            let s = &self.sessions[i];
            let here = match &s.location {
                Some(l) => l.window == window && l.tab_index == tab,
                None => false,
            };
            if s.state.is_open() && here {
                return Some(i);
            }
            i += 1;
        }
        None
    }

    /// Close every open session's tab except locked ones (NativeTerm is
    /// exiting): the ids and links of those to tell. All of them count as
    /// closed right away, so the next start doesn't look for them.
    pub fn close_all(&mut self) -> (r: Vec<(String, Option<u64>)>)
        ensures
            closings(r@) == to_close(old(self).sessions@),
            final(self).sessions@.len() == old(self).sessions@.len(),
            forall|i: int|
                0 <= i < old(self).sessions@.len() ==> #[trigger] final(self).sessions@[i] == ({
                    let s = old(self).sessions@[i];
                    if !s.locked && s.state.open() {
                        Session { state: State::Closed, ..s }
                    } else {
                        s
                    }
                }),
            *final(self) == (Core { sessions: final(self).sessions, ..*old(self) }),
    {
        let ghost before = self.sessions@;
        let mut r: Vec<(String, Option<u64>)> = Vec::new();
        let mut i: usize = 0;
        proof {
            assert(before.take(0) =~= Seq::empty());
            assert(closings(r@) =~= Seq::empty());
        }
        while i < self.sessions.len()
            invariant
                i <= self.sessions@.len() == before.len(),
                before == old(self).sessions@,
                *self == (Core { sessions: self.sessions, ..*old(self) }),
                closings(r@) == to_close(before.take(i as int)),
                forall|j: int|
                    0 <= j < i ==> #[trigger] self.sessions@[j] == ({
                        let s = before[j];
                        if !s.locked && s.state.open() {
                            Session { state: State::Closed, ..s }
                        } else {
                            s
                        }
                    }),
                forall|j: int| i <= j < before.len() ==> #[trigger] self.sessions@[j] == before[j],
            decreases before.len() - i,
        {
            let ghost was = closings(r@);
            proof {
                assert(self.sessions@[i as int] == before[i as int]);
                assert(before.take(i + 1).drop_last() =~= before.take(i as int));
                assert(before.take(i + 1).last() == before[i as int]);
            }
            if !self.sessions[i].locked && self.sessions[i].state.is_open() {
                r.push((self.sessions[i].id.clone(), self.sessions[i].link));
                proof {
                    assert(closings(r@) =~= was.push((before[i as int].id@, before[i as int].link)));
                }
                self.sessions[i].state = State::Closed;
            }
            i += 1;
        }
        proof {
            assert(before.take(i as int) =~= before);
        }
        r
    }

    /// Lock or unlock a session (remembered across restarts); whether there
    /// is such a session.
    pub fn set_locked(&mut self, id: &str, locked: bool) -> (r: bool)
        ensures
            match sessions::with_id(old(self).sessions@, id@) {
                Some(i) => r && final(self).sessions@ == old(self).sessions@.update(
                    i,
                    Session { locked, ..old(self).sessions@[i] },
                ),
                None => !r && final(self).sessions@ == old(self).sessions@,
            },
            *final(self) == (Core { sessions: final(self).sessions, ..*old(self) }),
    {
        match sessions::find_id(&self.sessions, id) {
            Some(i) => {
                let ghost was = self.sessions@;
                self.sessions[i].locked = locked;
                proof {
                    assert(self.sessions@ =~= was.update(i as int, Session { locked, ..was[i as int] }));
                }
                true
            },
            None => false,
        }
    }

    /// Set (or clear) what is typed after each login of a session.
    pub fn set_login_command(&mut self, id: &str, command: Option<String>)
        ensures
            final(self).sessions@ == match sessions::with_id(old(self).sessions@, id@) {
                Some(i) => old(self).sessions@.update(
                    i,
                    Session { on_login: sessions::login_command(command), ..old(self).sessions@[i] },
                ),
                None => old(self).sessions@,
            },
            *final(self) == (Core { sessions: final(self).sessions, ..*old(self) }),
    {
        if let Some(i) = sessions::find_id(&self.sessions, id) {
            let ghost was = self.sessions@;
            self.sessions[i].on_login = sessions::not_blank(&command);
            proof {
                assert(self.sessions@ =~= was.update(
                    i as int,
                    Session { on_login: sessions::login_command(command), ..was[i as int] },
                ));
            }
        }
    }

    /// Open the same host again (without port forwards): what to open.
    pub fn clone_session(&self, id: &str) -> (r: Option<HostRequest>)
        ensures
            match sessions::with_id(self.sessions@, id@) {
                Some(i) => {
                    let s = self.sessions@[i];
                    &&& r matches Some(host)
                    &&& host.alias == s.alias
                    &&& host.label@ == new_label(self.host_labels@, s.alias@, s.label@)
                    &&& host.no_forwards
                    &&& host.on_login == s.on_login
                },
                None => r is None,
            },
    {
        match sessions::find_id(&self.sessions, id) {
            Some(i) => {
                let s = &self.sessions[i];
                let label = self.fresh_label(&s.alias, &s.label);
                Some(
                    HostRequest {
                        alias: s.alias.clone(),
                        label,
                        no_forwards: true,
                        on_login: text::optional_copy(&s.on_login),
                    },
                )
            },
            None => None,
        }
    }

    /// How to close a session's tab: the shim ends ssh and exits with 0.
    /// Without a shim link, the tab's close button is used.
    pub fn close(&self, id: &str) -> (r: Option<CloseStep>)
        ensures
            match sessions::with_id(self.sessions@, id@) {
                Some(i) => r == Some(
                    match self.sessions@[i].link {
                        Some(link) => CloseStep::Tell(link),
                        None => CloseStep::LookFor(self.sessions@[i].label),
                    },
                ),
                None => r is None,
            },
    {
        match sessions::find_id(&self.sessions, id) {
            Some(i) => match self.sessions[i].link {
                Some(link) => Some(CloseStep::Tell(link)),
                None => Some(CloseStep::LookFor(self.sessions[i].label.clone())),
            },
            None => None,
        }
    }

    /// Telling the shim to close failed: the tab's close button is used
    /// then, too.
    pub fn close_unheard(&self, id: &str) -> (r: Option<CloseStep>)
        ensures
            match sessions::with_id(self.sessions@, id@) {
                Some(i) => r == Some(CloseStep::LookFor(self.sessions@[i].label)),
                None => r is None,
            },
    {
        match sessions::find_id(&self.sessions, id) {
            Some(i) => Some(CloseStep::LookFor(self.sessions[i].label.clone())),
            None => None,
        }
    }

    /// A tab was closed, or wasn't.
    pub fn closed(&mut self, id: &str, outcome: &CloseOutcome) -> (r: (Recording, Option<Notice>))
        ensures
            match sessions::with_id(old(self).sessions@, id@) {
                Some(i) => {
                    let s = old(self).sessions@[i];
                    let t = if outcome is TabChanged || outcome is Failed {
                        s
                    } else {
                        Session { state: State::Closed, ..s }
                    };
                    &&& final(self).sessions@ == old(self).sessions@.update(i, t)
                    &&& r.0 == sessions::recorded(s.state, t)
                    &&& message::noticed(r.1) == match *outcome {
                        CloseOutcome::TabChanged => Some(
                            message::NoticeView::Said(
                                message::said("notice-tab-changed"@).text("label"@, s.label@),
                            ),
                        ),
                        CloseOutcome::Failed(e) => Some(message::told(s.label@, e@)),
                        _ => None,
                    }
                },
                None => final(self).sessions@ == old(self).sessions@ && r.0 is Nothing && r.1 is None,
            },
            *final(self) == (Core { sessions: final(self).sessions, ..*old(self) }),
    {
        match sessions::find_id(&self.sessions, id) {
            Some(i) => {
                let ghost was = self.sessions@;
                let was_open = self.sessions[i].state.is_open();
                let notice = match outcome {
                    CloseOutcome::TabChanged => Some(
                        Notice::Said(Message::new("notice-tab-changed").text("label", &self.sessions[i].label)),
                    ),
                    CloseOutcome::Failed(e) => Some(message::tell(&self.sessions[i].label, e)),
                    _ => {
                        self.sessions[i].state = State::Closed;
                        None
                    },
                };
                let recording = sessions::recording(was_open, &self.sessions[i]);
                proof {
                    assert(self.sessions@ =~= was.update(i as int, self.sessions@[i as int]));
                    assert(recording == sessions::recorded(was[i as int].state, self.sessions@[i as int]));
                }
                (recording, notice)
            },
            None => (Recording::Nothing, None),
        }
    }

    /// Forget sessions that are no longer open.
    pub fn clear_finished(&mut self)
        ensures
            final(self).sessions@ == old(self).sessions@.filter(|s: Session| s.state.open()),
            *final(self) == (Core { sessions: final(self).sessions, ..*old(self) }),
    {
        let ghost was = self.sessions@;
        let ghost keep = |s: Session| s.state.open();
        let mut i: usize = 0;
        let ghost mut seen: int = 0;
        proof {
            reveal(Seq::filter);
            assert(was.take(0) =~= Seq::empty());
            assert(was.skip(0) =~= was);
            assert(self.sessions@.take(0) =~= Seq::empty());
        }
        while i < self.sessions.len()
            invariant
                i <= self.sessions@.len(),
                0 <= seen <= was.len(),
                keep == (|s: Session| s.state.open()),
                *self == (Core { sessions: self.sessions, ..*old(self) }),
                self.sessions@.len() - i == was.len() - seen,
                self.sessions@.take(i as int) == was.take(seen).filter(keep),
                self.sessions@.skip(i as int) == was.skip(seen),
            decreases self.sessions@.len() - i,
        {
            let ghost now = self.sessions@;
            proof {
                reveal(Seq::filter);
                assert(now.skip(i as int)[0] == now[i as int]);
                assert(was.skip(seen)[0] == was[seen]);
                assert(was.take(seen + 1).drop_last() =~= was.take(seen));
                assert(was.take(seen + 1).last() == was[seen]);
                assert(was.skip(seen + 1) =~= was.skip(seen).skip(1));
            }
            if self.sessions[i].state.is_open() {
                proof {
                    assert(now.take(i + 1) =~= now.take(i as int).push(now[i as int]));
                    assert(now.skip(i + 1) =~= now.skip(i as int).skip(1));
                }
                i += 1;
            } else {
                let _ = self.sessions.remove(i);
                proof {
                    assert(self.sessions@.take(i as int) =~= now.take(i as int));
                    assert(self.sessions@.skip(i as int) =~= now.skip(i as int).skip(1));
                }
            }
            proof {
                seen = seen + 1;
            }
        }
        proof {
            assert(self.sessions@.take(i as int) =~= self.sessions@);
            assert(was.take(seen) =~= was);
        }
    }

    /// Where a message to a session's shim goes.
    pub fn send(&self, id: &str) -> (r: Delivery)
        ensures
            goes(self.sessions@, id@, r),
    {
        match sessions::find_id(&self.sessions, id) {
            Some(i) => match self.sessions[i].link {
                Some(link) => Delivery::Over(link),
                None => Delivery::NotLinked(Message::new("notice-not-linked").text("label", &self.sessions[i].label)),
            },
            None => Delivery::Unknown,
        }
    }

    /// A tab wasn't sent or didn't appear: if the session is still being
    /// opened, it failed.
    pub fn tab_failed(&mut self, id: &str, why: &str) -> (r: Recording)
        ensures
            match sessions::with_id(old(self).sessions@, id@) {
                Some(i) => {
                    let s = old(self).sessions@[i];
                    let t = final(self).sessions@[i];
                    &&& final(self).sessions@ == old(self).sessions@.update(i, Session { state: t.state, ..s })
                    &&& if s.state is Opening {
                        t.state matches State::Failed(w) && w@ == why@
                    } else {
                        t.state == s.state
                    }
                    &&& r == sessions::recorded(s.state, t)
                },
                None => final(self).sessions@ == old(self).sessions@ && r is Nothing,
            },
            *final(self) == (Core { sessions: final(self).sessions, ..*old(self) }),
    {
        match sessions::find_id(&self.sessions, id) {
            Some(i) => {
                let ghost was = self.sessions@;
                let was_open = self.sessions[i].state.is_open();
                if matches!(self.sessions[i].state, State::Opening) {
                    self.sessions[i].state = State::Failed(text::owned(why));
                }
                let recording = sessions::recording(was_open, &self.sessions[i]);
                proof {
                    let t = self.sessions@[i as int];
                    assert(self.sessions@ =~= was.update(i as int, Session { state: t.state, ..was[i as int] }));
                    assert(recording == sessions::recorded(was[i as int].state, t));
                }
                recording
            },
            None => Recording::Nothing,
        }
    }

    /// The proper tab for a restored pane's session: a new GUID, not
    /// connected, and the host's new name if it was renamed since.
    pub fn replace(&mut self, id: &str, guid: String) -> (r: Option<(TabSpec, Recording)>)
        ensures
            match sessions::with_id(old(self).sessions@, id@) {
                Some(i) => {
                    let s = old(self).sessions@[i];
                    let t = final(self).sessions@[i];
                    let fresh = new_label(old(self).host_labels@, s.alias@, s.label@);
                    &&& final(self).sessions@ == old(self).sessions@.update(
                        i,
                        Session {
                            label: t.label,
                            terminal_session: guid,
                            current_terminal_session: None,
                            state: State::Opening,
                            ..s
                        },
                    )
                    &&& t.label@ == if fresh != base_of(s.label@) {
                        session::free_label(fresh, sessions::open_labels(old(self).sessions@))
                    } else {
                        s.label@
                    }
                    &&& r matches Some(out)
                    &&& sessions::opens(out.0, t, true)
                    &&& out.1 == sessions::recorded(s.state, t)
                },
                None => r is None && final(self).sessions@ == old(self).sessions@,
            },
            *final(self) == (Core { sessions: final(self).sessions, ..*old(self) }),
    {
        let taken = sessions::labels(&self.sessions);
        match sessions::find_id(&self.sessions, id) {
            Some(i) => {
                let ghost was = self.sessions@;
                let was_open = self.sessions[i].state.is_open();
                let fresh = self.fresh_label(&self.sessions[i].alias, &self.sessions[i].label);
                let base = base_label(&self.sessions[i].label);
                if !text::same(&fresh, &base) {
                    self.sessions[i].label = session::unique_label(&fresh, &taken);
                }
                self.sessions[i].terminal_session = guid;
                self.sessions[i].current_terminal_session = None;
                self.sessions[i].state = State::Opening;
                let s = &self.sessions[i];
                let recording = sessions::recording(was_open, s);
                let spec = TabSpec {
                    terminal_session: s.terminal_session.clone(),
                    label: s.label.clone(),
                    session: s.id.clone(),
                    alias: s.alias.clone(),
                    wait: true,
                    no_forwards: s.no_forwards,
                };
                proof {
                    let t = self.sessions@[i as int];
                    assert(self.sessions@ =~= was.update(i as int, t));
                    assert(recording == sessions::recorded(was[i as int].state, t));
                }
                Some((spec, recording))
            },
            None => None,
        }
    }

    /// A session's connection dropped (never a failed login): it is
    /// connected again after a while, if the setting is on; many sessions
    /// drop together (sleep, network change), so they are spread.
    pub fn dropped(&mut self, id: &str, now: u64) -> (r: Dropped)
        requires
            sessions::with_id(old(self).sessions@, id@) matches Some(i) ==> old(self).sessions@[i].auto_retries
                < u32::MAX,
        ensures
            match sessions::with_id(old(self).sessions@, id@) {
                Some(i) => if old(self).auto_reconnect {
                    let s = old(self).sessions@[i];
                    let n = retries_after(s, now);
                    &&& final(self).sessions@ == old(self).sessions@.update(
                        i,
                        Session { auto_retries: n as u32, ..s },
                    )
                    &&& if n > session::AUTO_RECONNECT_TRIES {
                        r matches Dropped::GaveUp(m) && m@ == message::said("notice-gave-up"@).text(
                            "label"@,
                            s.label@,
                        ).number("tries"@, session::AUTO_RECONNECT_TRIES as int)
                    } else {
                        r matches Dropped::Again(ms) && ms == session::delay_of(n as u32) * 1000 + spread_of(
                            vstd::utf8::encode_utf8(id@),
                        ) % 2000
                    }
                } else {
                    r is Leave && final(self).sessions@ == old(self).sessions@
                },
                None => r is Leave && final(self).sessions@ == old(self).sessions@,
            },
            *final(self) == (Core { sessions: final(self).sessions, ..*old(self) }),
    {
        if !self.auto_reconnect {
            return Dropped::Leave;
        }
        match sessions::find_id(&self.sessions, id) {
            Some(i) => {
                let ghost was = self.sessions@;
                let up: Option<u64> = match self.sessions[i].connected_at {
                    Some(t) => Some(
                        if now >= t {
                            now - t
                        } else {
                            0
                        },
                    ),
                    None => None,
                };
                let n: u32 = session::next_retry(self.sessions[i].auto_retries, up);
                self.sessions[i].auto_retries = n;
                proof {
                    assert(n == retries_after(was[i as int], now));
                    assert(self.sessions@ =~= was.update(i as int, Session { auto_retries: n, ..was[i as int] }));
                }
                if n > session::AUTO_RECONNECT_TRIES {
                    let label = self.sessions[i].label.clone();
                    Dropped::GaveUp(
                        Message::new("notice-gave-up").text("label", &label).number(
                            "tries",
                            session::AUTO_RECONNECT_TRIES as i128,
                        ),
                    )
                } else {
                    let own: u64 = spread(id);
                    Dropped::Again(session::reconnect_delay(n) * 1000 + own)
                }
            },
            None => Dropped::Leave,
        }
    }

    /// Whether a dropped session is still to be connected again: nothing
    /// happened to it meanwhile, and the setting is still on.
    pub fn still_dropped(&self, id: &str, attempt: u32) -> (r: bool)
        ensures
            r == (self.auto_reconnect && (sessions::with_id(self.sessions@, id@) matches Some(i)
                && self.sessions@[i].state is Disconnected && self.sessions@[i].attempt == attempt
                && self.sessions@[i].link is Some)),
    {
        match sessions::find_id(&self.sessions, id) {
            Some(i) => {
                let s = &self.sessions[i];
                let down = matches!(s.state, State::Disconnected(_));
                self.auto_reconnect && down && s.attempt == attempt && s.link.is_some()
            },
            None => false,
        }
    }

    /// The shims of these sessions didn't turn up in time: they are gone.
    /// Their ids (each is recorded as closed), and the notice.
    pub fn lose_detached(&mut self) -> (r: (Vec<String>, Option<Message>))
        ensures
            text::texts(r.0@) == detached_ids(old(self).sessions@),
            match r.1 {
                Some(m) => r.0@.len() > 0 && m@ == message::said("notice-lost-sessions"@).number(
                    "count"@,
                    r.0@.len() as int,
                ),
                None => r.0@.len() == 0,
            },
            final(self).sessions@.len() == old(self).sessions@.len(),
            forall|i: int|
                0 <= i < old(self).sessions@.len() ==> #[trigger] final(self).sessions@[i] == ({
                    let s = old(self).sessions@[i];
                    if s.state is Detached {
                        Session { state: State::Gone, ..s }
                    } else {
                        s
                    }
                }),
            *final(self) == (Core { sessions: final(self).sessions, ..*old(self) }),
    {
        let ghost before = self.sessions@;
        let mut lost: Vec<String> = Vec::new();
        let mut i: usize = 0;
        proof {
            assert(before.take(0) =~= Seq::empty());
            assert(text::texts(lost@) =~= Seq::empty());
        }
        while i < self.sessions.len()
            invariant
                i <= self.sessions@.len() == before.len(),
                before == old(self).sessions@,
                *self == (Core { sessions: self.sessions, ..*old(self) }),
                text::texts(lost@) == detached_ids(before.take(i as int)),
                forall|j: int|
                    0 <= j < i ==> #[trigger] self.sessions@[j] == ({
                        let s = before[j];
                        if s.state is Detached {
                            Session { state: State::Gone, ..s }
                        } else {
                            s
                        }
                    }),
                forall|j: int| i <= j < before.len() ==> #[trigger] self.sessions@[j] == before[j],
            decreases before.len() - i,
        {
            let ghost was = text::texts(lost@);
            proof {
                assert(self.sessions@[i as int] == before[i as int]);
                assert(before.take(i + 1).drop_last() =~= before.take(i as int));
                assert(before.take(i + 1).last() == before[i as int]);
            }
            if matches!(self.sessions[i].state, State::Detached) {
                lost.push(self.sessions[i].id.clone());
                proof {
                    assert(text::texts(lost@) =~= was.push(before[i as int].id@));
                }
                self.sessions[i].state = State::Gone;
            }
            i += 1;
        }
        proof {
            assert(before.take(i as int) =~= before);
        }
        let notice = if lost.len() > 0 {
            Some(Message::new("notice-lost-sessions").number("count", lost.len() as i128))
        } else {
            None
        };
        (lost, notice)
    }
}

/// Whether NativeTerm closes its tabs when it exits (on unless turned off).
pub fn close_on_exit(setting: &Option<String>) -> (r: bool)
    ensures
        r == !(setting matches Some(v) && v@ == "0"@),
{
    match setting {
        Some(v) => !text::same(v, "0"),
        None => true,
    }
}

/// A locked session's tab survives the exit.
pub proof fn law_locked_is_not_closed(all: Seq<Session>)
    ensures
        forall|i: int|
            0 <= i < to_close(all).len() ==> exists|k: int|
                0 <= k < all.len() && (#[trigger] all[k]).id@ == (#[trigger] to_close(all)[i]).0 && !all[k].locked
                    && all[k].state.open(),
    decreases all.len(),
{
    if all.len() > 0 {
        let front = all.drop_last();
        law_locked_is_not_closed(front);
        assert forall|i: int| 0 <= i < to_close(all).len() implies exists|k: int|
            0 <= k < all.len() && (#[trigger] all[k]).id@ == (#[trigger] to_close(all)[i]).0 && !all[k].locked
                && all[k].state.open() by {
            if i < to_close(front).len() {
                assert(to_close(all)[i] == to_close(front)[i]);
                let k = choose|k: int|
                    0 <= k < front.len() && (#[trigger] front[k]).id@ == to_close(front)[i].0 && !front[k].locked
                        && front[k].state.open();
                assert(all[k] == front[k]);
            } else {
                assert(all[all.len() - 1] == all.last());
            }
        }
    }
}

/// Text goes only to sessions that are logged in.
pub proof fn law_text_only_when_logged_in(all: Seq<Session>, ids: Seq<Seq<char>>)
    ensures
        forall|i: int|
            0 <= i < send_targets(all, ids).len() && (#[trigger] send_targets(all, ids)[i]).link is Some ==> exists|k: int|
                0 <= k < all.len() && (#[trigger] all[k]).state is Connected && all[k].link == send_targets(
                    all,
                    ids,
                )[i].link,
    decreases ids.len(),
{
    if ids.len() > 0 {
        let front = ids.drop_last();
        law_text_only_when_logged_in(all, front);
        sessions::lemma_with_id(all, ids.last());
        let before = send_targets(all, front);
        let after = send_targets(all, ids);
        assert forall|i: int| 0 <= i < after.len() && (#[trigger] after[i]).link is Some implies exists|k: int|
            0 <= k < all.len() && (#[trigger] all[k]).state is Connected && all[k].link == after[i].link by {
            if i < before.len() {
                assert(after[i] == before[i]);
            } else {
                let k = sessions::with_id(all, ids.last())->0;
                assert(all[k].state is Connected);
            }
        }
    }
}

impl Core {
    /// Whether dropped sessions reconnect by themselves.
    pub fn auto_reconnect(&self) -> (r: bool)
        ensures
            r == self.auto_reconnect,
    {
        self.auto_reconnect
    }

    /// Turns automatic reconnects on or off; what the setting keeps.
    pub fn set_auto_reconnect(&mut self, on: bool) -> (r: &'static str)
        ensures
            *final(self) == (Core { auto_reconnect: on, ..*old(self) }),
            r@ == (if on {
                "1"@
            } else {
                "0"@
            }),
    {
        self.auto_reconnect = on;
        if on {
            "1"
        } else {
            "0"
        }
    }
}

/// The language that a setting chooses (`None`: the system's).
pub open spec fn language_in(setting: Option<Seq<char>>) -> Option<Seq<char>> {
    match setting {
        Some(l) => if l.len() > 0 {
            Some(l)
        } else {
            None
        },
        None => None,
    }
}

/// The chosen language by its setting (`None`: the system's).
pub fn language_setting(setting: Option<String>) -> (r: Option<String>)
    ensures
        text::optional(r) == language_in(text::optional(setting)),
{
    match setting {
        Some(l) => {
            let empty = l.as_str().is_empty();
            if empty {
                None
            } else {
                Some(l)
            }
        },
        None => None,
    }
}

/// The notices that wait to be shown.
pub struct Notices {
    pub waiting: Vec<Notice>,
}

impl Notices {
    /// A notice to show.
    pub fn add_notice(&mut self, notice: Notice)
        ensures
            final(self).waiting@ == old(self).waiting@.push(notice),
    {
        self.waiting.push(notice);
    }

    /// The notices that wait; none wait then.
    pub fn take_notices(&mut self) -> (r: Vec<Notice>)
        ensures
            r == old(self).waiting,
            final(self).waiting@.len() == 0,
    {
        let mut r: Vec<Notice> = Vec::new();
        std::mem::swap(&mut r, &mut self.waiting);
        r
    }
}

/// The number in a label's brackets is no part of its name; brackets with
/// anything else in them are.
pub proof fn law_name_without_its_number(name: Seq<char>, digits: Seq<char>)
    requires
        digits.len() > 0,
        forall|i: int| 0 <= i < digits.len() ==> '0' <= #[trigger] digits[i] <= '9',
    ensures
        base_of(name + seq![' ', '('] + digits + seq![')']) == name,
        !(name.len() > 0 && name[name.len() - 1] == ')') ==> base_of(name) == name,
        (forall|i: int| 0 <= i < name.len() ==> name[i] != '(') ==> base_of(name) == name,
{
    let l = name + seq![' ', '('] + digits + seq![')'];
    let at = name.len() as int + 1;
    assert(l[at] == '(');
    assert forall|j: int| at < j < l.len() implies l[j] != '(' by {
        if j < l.len() - 1 {
            assert(l[j] == digits[j - at - 1]);
        }
    }
    text::lemma_last_at_is(l, '(', at);
    assert(l.subrange(at + 1, l.len() - 1) =~= digits);
    assert forall|i: int| 0 <= i < digits.len() implies text::is_digit(#[trigger] digits[i]) by {}
    assert(l.last() == ')');
    assert(l[at - 1] == ' ');
    assert(l.take(at - 1) =~= name);
    text::lemma_last_at(name, '(');
    if name.len() > 0 {
        assert(name.last() == name[name.len() - 1]);
    }
}

/// A host's name is the first that is given for its alias.
pub proof fn law_names_of_hosts(labels: Seq<(String, String)>, alias: Seq<char>, label: Seq<char>)
    ensures
        name_of(labels, alias) is None <==> forall|i: int| 0 <= i < labels.len() ==> (#[trigger] labels[i]).0@ != alias,
        name_of(labels, alias) matches Some(n) ==> exists|i: int|
            0 <= i < labels.len() && (#[trigger] labels[i]).0@ == alias && labels[i].1 == n && forall|j: int|
                0 <= j < i ==> (#[trigger] labels[j]).0@ != alias,
        name_of(labels, alias) matches Some(n) ==> new_label(labels, alias, label) == n@,
        name_of(labels, alias) is None ==> new_label(labels, alias, label) == base_of(label),
    decreases labels.len(),
{
    if labels.len() > 0 {
        let rest = labels.skip(1);
        law_names_of_hosts(rest, alias, label);
        assert(labels[0] == labels.first());
        assert forall|i: int| 0 < i < labels.len() implies #[trigger] labels[i] == rest[i - 1] by {}
        if labels.first().0@ != alias {
            if name_of(rest, alias) is Some {
                let n = name_of(rest, alias)->0;
                let i = choose|i: int|
                    0 <= i < rest.len() && (#[trigger] rest[i]).0@ == alias && rest[i].1 == n && forall|j: int|
                        0 <= j < i ==> (#[trigger] rest[j]).0@ != alias;
                assert(labels[i + 1] == rest[i]);
            } else {
                assert forall|i: int| 0 <= i < labels.len() implies (#[trigger] labels[i]).0@ != alias by {
                    if i > 0 {
                        assert(rest[i - 1].0@ != alias);
                    }
                }
            }
            if forall|i: int| 0 <= i < labels.len() ==> (#[trigger] labels[i]).0@ != alias {
                assert forall|i: int| 0 <= i < rest.len() implies (#[trigger] rest[i]).0@ != alias by {
                    assert(labels[i + 1] == rest[i]);
                }
            }
        }
    }
}

/// What a session shows of itself: what it is, whether its shim is there,
/// the retry it is at, a name that was given since, and quiet while open.
pub proof fn law_what_a_session_shows(v: SessionView, s: Session, labels: Seq<(String, String)>)
    requires
        shows(v, s, labels),
    ensures
        v.id@ == s.id@ && v.label@ == s.label@ && v.alias@ == s.alias@ && v.state == s.state,
        v.linked <==> s.link is Some,
        v.location == s.location && v.locked == s.locked && v.attempt == s.attempt && v.shim_pid == s.shim_pid,
        v.last_position == s.last_position,
        s.auto_retries == 0 ==> v.auto_retry is None,
        s.state != State::Connecting && s.state !is Disconnected ==> v.auto_retry is None,
        s.auto_retries > 0 && (s.state == State::Connecting || s.state is Disconnected) ==> v.auto_retry == Some(s.auto_retries),
        s.state == State::Closed || s.state == State::Gone || s.state is Failed ==> v.quiet_since is None,
        s.state == State::Connected || s.state == State::Connecting ==> v.quiet_since == s.quiet_since,
        v.renamed_to matches Some(n) ==> name_of(labels, s.alias@) == Some(n) && n@ != base_of(s.label@),
        v.renamed_to is None ==> (name_of(labels, s.alias@) matches Some(n) ==> n@ == base_of(s.label@)),
        s.state.open() ==> v.quiet_since == s.quiet_since,
        !s.state.open() ==> v.quiet_since is None,
        v.specials@.len() == s.specials@.len(),
        forall|i: int| 0 <= i < s.specials@.len() ==> (#[trigger] v.specials@[i])@ == s.specials@[i]@,
{
    assert(text::texts(v.specials@).len() == text::texts(s.specials@).len());
    assert forall|i: int| 0 <= i < s.specials@.len() implies (#[trigger] v.specials@[i])@ == s.specials@[i]@ by {
        assert(text::texts(v.specials@)[i] == text::texts(s.specials@)[i]);
    }
}

/// Text goes to each session asked for that there is, in order: over its
/// link where it is logged in, else not.
pub proof fn law_who_gets_text(all: Seq<Session>, ids: Seq<Seq<char>>, id: Seq<char>)
    ensures
        send_targets(all, Seq::empty()) == Seq::<SendTo>::empty(),
        sessions::with_id(all, id) is None ==> send_targets(all, ids.push(id)) == send_targets(all, ids),
        sessions::with_id(all, id) matches Some(i) ==> {
            let t = send_targets(all, ids.push(id));
            &&& t.len() == send_targets(all, ids).len() + 1
            &&& t.drop_last() == send_targets(all, ids)
            &&& t.last().label == all[i].label
            &&& t.last().alias == all[i].alias
            &&& all[i].state == State::Connected ==> t.last().link == all[i].link
            &&& all[i].state != State::Connected ==> t.last().link is None
        },
{
    assert(ids.push(id).drop_last() =~= ids);
    if sessions::with_id(all, id) is Some {
        assert(send_targets(all, ids.push(id)).drop_last() =~= send_targets(all, ids));
    }
}

/// Each target is reported once: sent where it could be told, failed where
/// telling it failed, skipped where it is not connected. What was sent is
/// kept for the record, by label and alias.
pub proof fn law_send_reports(targets: Seq<SendTo>, t: SendTo, ok: Seq<bool>)
    requires
        targets.len() < ok.len(),
    ensures
        ({
            let told = ok[targets.len() as int];
            let all = targets.push(t);
            &&& t.link is None ==> labels_of(all, ok, Sent::Skipped) == labels_of(targets, ok, Sent::Skipped).push(t.label@)
                && labels_of(all, ok, Sent::Done) == labels_of(targets, ok, Sent::Done) && labels_of(all, ok, Sent::Failed)
                == labels_of(targets, ok, Sent::Failed) && audited(all, ok) == audited(targets, ok)
            &&& t.link is Some && told ==> labels_of(all, ok, Sent::Done) == labels_of(targets, ok, Sent::Done).push(t.label@)
                && labels_of(all, ok, Sent::Skipped) == labels_of(targets, ok, Sent::Skipped) && labels_of(all, ok, Sent::Failed)
                == labels_of(targets, ok, Sent::Failed) && audited(all, ok) == audited(targets, ok).push(
                t.label@ + " ("@ + t.alias@ + seq![')'],
            )
            &&& t.link is Some && !told ==> labels_of(all, ok, Sent::Failed) == labels_of(targets, ok, Sent::Failed).push(t.label@)
                && labels_of(all, ok, Sent::Skipped) == labels_of(targets, ok, Sent::Skipped) && labels_of(all, ok, Sent::Done)
                == labels_of(targets, ok, Sent::Done) && audited(all, ok) == audited(targets, ok)
        }),
        labels_of(Seq::empty(), ok, Sent::Done) == Seq::<Seq<char>>::empty(),
        labels_of(Seq::empty(), ok, Sent::Skipped) == Seq::<Seq<char>>::empty(),
        labels_of(Seq::empty(), ok, Sent::Failed) == Seq::<Seq<char>>::empty(),
        audited(Seq::empty(), ok) == Seq::<Seq<char>>::empty(),
{
    assert(targets.push(t).drop_last() =~= targets);
    assert((t.label@ + " ("@ + t.alias@).push(')') =~= t.label@ + " ("@ + t.alias@ + seq![')']);
}

/// What is recorded of a command is its text, with line ends shown: a line
/// feed as a sign, a carriage return not at all, anything else as it is.
pub proof fn law_recorded_text(s: Seq<char>, c: char, date: Seq<char>, time: Seq<char>, targets: Seq<Seq<char>>)
    ensures
        on_one_line(Seq::empty()) == Seq::<char>::empty(),
        c != '\n' && c != '\r' ==> on_one_line(s.push(c)) == on_one_line(s).push(c),
        on_one_line(s.push('\r')) == on_one_line(s),
        on_one_line(s.push('\n')) == on_one_line(s) + " \u{23CE} "@,
        comma_list(targets) == text::joined_by(targets, ", "@),
        audit_text(date, time, targets, s) == date + " "@ + time + "Z\t"@ + text::joined_by(targets, ", "@) + "\t"@ + on_one_line(s),
    decreases targets.len(),
{
    assert(s.push(c).drop_last() =~= s);
    assert(s.push('\r').drop_last() =~= s);
    assert(s.push('\n').drop_last() =~= s);
    if targets.len() > 1 {
        law_recorded_text(s, c, date, time, targets.drop_last());
    }
}

/// The session in a tab is the first open one that is known to be there.
pub proof fn law_session_in_a_tab(all: Seq<Session>, window: int, tab: int)
    ensures
        match session_at(all, window, tab) {
            Some(i) => 0 <= i < all.len() && is_there(all[i], window, tab) && forall|j: int|
                0 <= j < i ==> !is_there(#[trigger] all[j], window, tab),
            None => forall|j: int| 0 <= j < all.len() ==> !is_there(#[trigger] all[j], window, tab),
        },
    decreases all.len(),
{
    if all.len() > 0 {
        let rest = all.skip(1);
        law_session_in_a_tab(rest, window, tab);
        assert(all[0] == all.first());
        assert forall|j: int| 0 < j < all.len() implies #[trigger] all[j] == rest[j - 1] by {}
    }
}

/// The session is open and known to be in this tab of this window.
pub open spec fn is_there(s: Session, window: int, tab: int) -> bool {
    &&& s.state != State::Closed && s.state != State::Gone && s.state !is Failed
    &&& s.location matches Some(l) && l.window as int == window && l.tab_index as int == tab
}

/// Closing everything tells every open session that is not locked, in order,
/// and no other.
pub proof fn law_closing_everything(all: Seq<Session>, s: Session)
    ensures
        to_close(Seq::empty()) == Seq::<(Seq<char>, Option<u64>)>::empty(),
        !s.locked && s.state != State::Closed && s.state != State::Gone && s.state !is Failed ==> to_close(all.push(s)) == to_close(
            all,
        ).push((s.id@, s.link)),
        s.locked || s.state == State::Closed || s.state == State::Gone || s.state is Failed ==> to_close(all.push(s)) == to_close(
            all,
        ),
{
    assert(all.push(s).drop_last() =~= all);
}

/// A connection that held for a minute starts the count of retries over;
/// any other goes on with it.
pub proof fn law_retries(s: Session, now: u64)
    ensures
        s.connected_at is None ==> retries_after(s, now) == s.auto_retries + 1,
        s.connected_at matches Some(t) ==> (now - t >= 60_000 ==> retries_after(s, now) == 1) && (now - t < 60_000
            ==> retries_after(s, now) == s.auto_retries + 1),
        session::AUTO_RECONNECT_TRIES == 10,
{
}

/// Sessions whose shim did not come back are those that are detached, in
/// order.
pub proof fn law_detached_sessions(all: Seq<Session>, s: Session)
    ensures
        detached_ids(Seq::empty()) == Seq::<Seq<char>>::empty(),
        s.state == State::Detached ==> detached_ids(all.push(s)) == detached_ids(all).push(s.id@),
        s.state != State::Detached ==> detached_ids(all.push(s)) == detached_ids(all),
{
    assert(all.push(s).drop_last() =~= all);
}

/// A word to a session goes over its own link; without one that is said,
/// and there is nobody where there is no such session.
pub proof fn law_words_to_a_session(all: Seq<Session>, i: int, d: Delivery)
    requires
        0 <= i < all.len(),
        forall|j: int| 0 <= j < i ==> (#[trigger] all[j]).id@ != all[i].id@,
        goes(all, all[i].id@, d),
    ensures
        all[i].link matches Some(link) ==> d == Delivery::Over(link),
        all[i].link is None ==> (d matches Delivery::NotLinked(m) && m@ == message::said("notice-not-linked"@).text(
            "label"@,
            all[i].label@,
        )),
{
    sessions::law_first_with_id(all, all[i].id@);
}

/// A setting without a language is none.
pub proof fn law_language_setting(l: Seq<char>)
    ensures
        language_in(None) is None,
        l.len() == 0 ==> language_in(Some(l)) is None,
        l.len() > 0 ==> language_in(Some(l)) == Some(l),
{
}

/// What became of sending to a session: one without a link is skipped, one
/// that was reached is done.
pub proof fn law_what_became_of_sending(target: SendTo, ok: bool)
    ensures
        target.link is None ==> outcome(target, ok) is Skipped,
        target.link is Some ==> outcome(target, true) is Done && outcome(target, false) is Failed,
{
}

/// Bytes are spread to a number of 64 bits, each counting 31 times the next.
pub proof fn law_spreading_bytes(bytes: Seq<u8>, b: u8)
    ensures
        spread_of(Seq::empty()) == 0,
        spread_of(bytes.push(b)) == (spread_of(bytes) * 31 + b) % 0x1_0000_0000_0000_0000,
{
    assert(bytes.push(b).drop_last() =~= bytes);
}

} // verus!
