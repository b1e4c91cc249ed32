//! What is sent to tabs: the messages to their shims, and which tab is
//! brought to the front.

use vstd::prelude::*;

use crate::actions;
use crate::actions::CloseSet;
use crate::commands;
use crate::control;
use crate::control::{Delivery, SendTo};
use crate::message;
use crate::message::Message;
use crate::session::{Session, SessionView};
use crate::sessions;
use crate::sessions::{AppMessage, Core};
use crate::tabs;
use crate::text;

verus! {

/// Bringing a session's tab to the front.
#[derive(Debug, PartialEq, Eq)]
pub enum Focus {
    /// By the place of the window in the scan, and of the tab in it.
    Select(usize, usize),
    NotFound(Message),
    /// There is no such session.
    Unknown,
}

/// The lines that are sent, each with whether Enter follows; `None` where
/// the message is another one.
pub open spec fn sent_line(m: AppMessage) -> Option<(Seq<char>, bool)> {
    match m {
        AppMessage::SendText { text, enter } => Some((text@, enter)),
        _ => None,
    }
}

/// The lines that messages send.
pub open spec fn sent_lines(v: Seq<AppMessage>) -> Seq<Option<(Seq<char>, bool)>> {
    v.map_values(|m: AppMessage| sent_line(m))
}

/// The messages that type a text, line by line.
pub fn text_messages(sent: &str, enter: bool) -> (r: Vec<AppMessage>)
    ensures
        sent_lines(r@) == commands::typed_lines(sent@, enter).map_values(|l: (Seq<char>, bool)| Some(l)),
{
    let lines = commands::lines(sent, enter);
    let ghost all = commands::typed_lines(sent@, enter);
    let mut r: Vec<AppMessage> = Vec::new();
    let mut i: usize = 0;
    proof {
        assert(commands::line_pairs(lines@).len() == lines@.len());
        assert(sent_lines(r@) =~= all.take(0).map_values(|l: (Seq<char>, bool)| Some(l)));
    }
    while i < lines.len()
        invariant
            i <= lines@.len(),
            all == commands::line_pairs(lines@),
            all.len() == lines@.len(),
            sent_lines(r@) == all.take(i as int).map_values(|l: (Seq<char>, bool)| Some(l)),
        decreases lines@.len() - i,
    {
        let ghost before = r@;
        let m = AppMessage::SendText { text: text::owned(&lines[i].0), enter: lines[i].1 };
        r.push(m);
        proof {
            assert(all[i as int] == (lines@[i as int].0@, lines@[i as int].1));
            assert(sent_lines(r@) =~= sent_lines(before).push(sent_line(m)));
            assert(all.take(i + 1).map_values(|l: (Seq<char>, bool)| Some(l)) =~= all.take(i as int).map_values(
                |l: (Seq<char>, bool)| Some(l),
            ).push(Some(all[i as int])));
        }
        i += 1;
    }
    proof {
        assert(all.take(i as int) =~= all);
    }
    r
}

/// A session whose connection ended and that may be closed with others.
pub open spec fn has_ended(s: Session) -> bool {
    &&& s.state is LoginFailed || s.state is Unreachable || s.state is Disconnected || s.state is Ended
    &&& !s.locked
}

/// The sessions that ended, by id.
pub open spec fn ended_ids(sessions: Seq<Session>) -> Seq<Seq<char>> {
    sessions.filter(|s: Session| has_ended(s)).map_values(|s: Session| s.id@)
}

proof fn lemma_ended(
    shown: Seq<SessionView>,
    sessions: Seq<Session>,
    labels: Seq<(String, String)>,
    whole: Seq<SessionView>,
)
    requires
        shown.len() == sessions.len(),
        forall|i: int| 0 <= i < shown.len() ==> control::shows(#[trigger] shown[i], sessions[i], labels),
    ensures
        shown.filter(|s: SessionView| actions::is_taken(whole, CloseSet::Ended, s)).map_values(|s: SessionView| s.id@)
            == ended_ids(sessions),
    decreases shown.len(),
{
    reveal(Seq::filter);
    let taken = |s: SessionView| actions::is_taken(whole, CloseSet::Ended, s);
    let over = |s: Session| has_ended(s);
    if shown.len() > 0 {
        lemma_ended(shown.drop_last(), sessions.drop_last(), labels, whole);
        let (v, s) = (shown.last(), sessions.last());
        assert(control::shows(shown[shown.len() - 1], s, labels));
        assert(taken(v) == over(s));
        let before = shown.drop_last().filter(taken);
        let ended = sessions.drop_last().filter(over);
        assert(before.push(v).map_values(|s: SessionView| s.id@) =~= before.map_values(|s: SessionView| s.id@).push(v.id@));
        assert(ended.push(s).map_values(|s: Session| s.id@) =~= ended.map_values(|s: Session| s.id@).push(s.id@));
    } else {
        assert(shown.filter(taken).map_values(|s: SessionView| s.id@) =~= ended_ids(sessions));
    }
}

impl Core {
    /// Connects a session.
    pub fn connect(&self, id: &str) -> (r: (Delivery, AppMessage))
        ensures
            control::goes(self.sessions@, id@, r.0),
            r.1 is Connect,
    {
        (self.send(id), AppMessage::Connect)
    }

    /// Ends a session's connection; its tab stays.
    pub fn disconnect(&self, id: &str) -> (r: (Delivery, AppMessage))
        ensures
            control::goes(self.sessions@, id@, r.0),
            r.1 is Disconnect,
    {
        (self.send(id), AppMessage::Disconnect)
    }

    /// Clears a session's screen.
    pub fn clear_screen(&self, id: &str) -> (r: (Delivery, AppMessage))
        ensures
            control::goes(self.sessions@, id@, r.0),
            r.1 is ClearScreen,
    {
        (self.send(id), AppMessage::ClearScreen)
    }

    /// Sends what the connection takes besides text, by its name.
    pub fn send_special(&self, id: &str, special: &str) -> (r: (Delivery, AppMessage))
        ensures
            control::goes(self.sessions@, id@, r.0),
            r.1 matches AppMessage::SendSpecial { name } && name@ == special@,
    {
        (self.send(id), AppMessage::SendSpecial { name: text::owned(special) })
    }

    /// Text for several sessions: to whom it goes, and the messages for each
    /// of them, in order. `send_report` says what came of it.
    pub fn send_text(&self, ids: &[String], sent: &str, enter: bool) -> (r: (Vec<SendTo>, Vec<AppMessage>))
        ensures
            r.0@ == control::send_targets(self.sessions@, text::texts(ids@)),
            sent_lines(r.1@) == commands::typed_lines(sent@, enter).map_values(|l: (Seq<char>, bool)| Some(l)),
    {
        (self.send_plan(ids), text_messages(sent, enter))
    }

    /// The sessions that ended, to be closed; locked ones stay.
    pub fn close_ended(&self) -> (r: Vec<String>)
        ensures
            text::texts(r@) == ended_ids(self.sessions@),
    {
        let all = self.sessions();
        proof {
            lemma_ended(all@, self.sessions@, self.host_labels@, all@);
        }
        actions::close_set(&all, &CloseSet::Ended)
    }

    /// Brings a session's tab to the front, by the last scan.
    pub fn focus(&self, id: &str) -> (r: Focus)
        ensures
            match sessions::with_id(self.sessions@, id@) {
                Some(i) => match tabs::claimed(self.snapshot@.windows, self.sessions@[i].label@) {
                    Some(place) => r matches Focus::Select(w, t) && (w as int, t as int) == place,
                    None => r matches Focus::NotFound(m) && m@ == message::said("notice-tab-not-found"@).text(
                        "label"@,
                        self.sessions@[i].label@,
                    ),
                },
                None => r is Unknown,
            },
    {
        match sessions::find_id(&self.sessions, id) {
            Some(i) => {
                let label = &self.sessions[i].label;
                match tabs::find_claimed(&self.snapshot.windows, label) {
                    Some((w, t)) => Focus::Select(w, t),
                    None => Focus::NotFound(Message::new("notice-tab-not-found").text("label", label)),
                }
            },
            None => Focus::Unknown,
        }
    }

    /// Brings a tab of the tab list to the front, by the last scan: the one
    /// at its place if it still has the title, or the first that has it.
    pub fn select_tab(&self, window: isize, index: usize, name: &str) -> (r: Result<(usize, usize), Message>)
        ensures
            match tabs::tab_chosen(self.snapshot@, window as int, index as int, name@) {
                Some(place) => r matches Ok((w, t)) && (w as int, t as int) == place,
                None => r matches Err(m) && m@ == message::said("notice-tab-gone"@).text("title"@, name@),
            },
    {
        match tabs::choose_tab(&self.snapshot, window, index, name) {
            Some(place) => Ok(place),
            None => Err(Message::new("notice-tab-gone").text("title", name)),
        }
    }
}

/// What the setting keeps of the chosen language (`None`: the system's).
pub open spec fn kept_language(choice: Option<Seq<char>>) -> Seq<char> {
    match choice {
        Some(l) => l,
        None => Seq::empty(),
    }
}

/// What the setting keeps of the chosen language.
pub fn set_language_setting(choice: Option<String>) -> (r: String)
    ensures
        r@ == kept_language(text::optional(choice)),
{
    match choice {
        Some(l) => l,
        None => {
            let none = String::new();
            proof {
                assert(none@ =~= Seq::empty());
            }
            none
        },
    }
}

/// A choice of a language survives the setting.
pub proof fn law_a_language_survives_the_setting(choice: Option<Seq<char>>)
    requires
        choice matches Some(l) ==> l.len() > 0,
    ensures
        control::language_in(Some(kept_language(choice))) == choice,
{
}

/// "Reconnect all": the sessions whose connection ended or failed and that
/// are not locked, in order, and no others.
pub proof fn law_ended_sessions(all: Seq<Session>, s: Session)
    ensures
        ended_ids(Seq::empty()) == Seq::<Seq<char>>::empty(),
        has_ended(s) <==> !s.locked && (match s.state {
            crate::session::State::LoginFailed(_) | crate::session::State::Unreachable(_) => true,
            crate::session::State::Disconnected(_) | crate::session::State::Ended(_) => true,
            _ => false,
        }),
        has_ended(s) ==> ended_ids(all.push(s)) == ended_ids(all).push(s.id@),
        !has_ended(s) ==> ended_ids(all.push(s)) == ended_ids(all),
{
    reveal(Seq::filter);
    assert(all.push(s).drop_last() =~= all);
    let keep = |x: Session| has_ended(x);
    assert(Seq::<Session>::empty().filter(keep) =~= Seq::empty());
    assert(ended_ids(Seq::empty()) =~= Seq::<Seq<char>>::empty());
    if has_ended(s) {
        assert(all.push(s).filter(keep) =~= all.filter(keep).push(s));
        assert(ended_ids(all.push(s)) =~= ended_ids(all).push(s.id@));
    }
}

/// Only a text is a line that was sent, and it is sent as it is.
pub proof fn law_lines_sent(text: String, enter: bool)
    ensures
        sent_line(AppMessage::SendText { text, enter }) == Some((text@, enter)),
        sent_line(AppMessage::Close) is None && sent_line(AppMessage::Connect) is None && sent_line(AppMessage::Disconnect) is None,
{
}

} // verus!
