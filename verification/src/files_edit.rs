//! Editing a server's file in place: its local copy is watched and uploaded
//! again when it changed and has stopped changing; and ssh's questions,
//! asked in the window.

use vstd::prelude::*;

use crate::text;

verus! {

/// A file being edited: when its local copy was last seen changed, a change
/// that waits to be uploaded, and the server's time that it is based on.
/// Times are opaque numbers; only whether they differ counts.
#[derive(Clone, Copy, Debug, PartialEq, Eq, Structural)]
pub struct Watch {
    pub seen: Option<u64>,
    pub pending: Option<u64>,
    pub based_on: Option<u32>,
}

/// What a look at the local copy comes to.
#[derive(Clone, Copy, Debug, PartialEq, Eq, Structural)]
pub enum Look {
    /// The connection is gone.
    Disconnected,
    /// Nothing to do yet.
    Wait,
    /// It is to be uploaded, once the server's file was looked at.
    Check,
}

/// What a look at the local copy comes to: a change waits until it stays the
/// same for one more look; "Overwrite" (`forced`) does not wait for a
/// change.
pub open spec fn looked(w: Watch, closed: bool, now: Option<u64>, forced: bool) -> (Watch, Look) {
    if closed {
        (w, Look::Disconnected)
    } else if now != w.seen {
        (Watch { seen: now, pending: now, ..w }, Look::Wait)
    } else if w.pending is None && !forced {
        (w, Look::Wait)
    } else {
        (w, Look::Check)
    }
}

impl Watch {
    /// A file whose local copy has just been made.
    pub fn start(modified: Option<u64>, server: Option<u32>) -> (r: Watch)
        ensures
            r == (Watch { seen: modified, pending: None, based_on: server }),
    {
        Watch { seen: modified, pending: None, based_on: server }
    }

    /// A look at the local copy, changed at `now`.
    pub fn look(&mut self, closed: bool, now: Option<u64>, forced: bool) -> (r: Look)
        ensures
            (*final(self), r) == looked(*old(self), closed, now, forced),
    {
        if closed {
            return Look::Disconnected;
        }
        let changed = match (now, self.seen) {
            (Some(a), Some(b)) => a != b,
            (None, None) => false,
            _ => true,
        };
        if changed {
            self.seen = now;
            self.pending = now;
            return Look::Wait;
        }
        if self.pending.is_none() && !forced {
            return Look::Wait;
        }
        Look::Check
    }

    /// Whether the upload has to wait: the server's file, changed at
    /// `server`, is not the one the copy was made of.
    pub fn conflicts(&self, server: Option<u32>, forced: bool) -> (r: bool)
        ensures
            r == (!forced && server != self.based_on),
    {
        let differs = match (server, self.based_on) {
            (Some(a), Some(b)) => a != b,
            (None, None) => false,
            _ => true,
        };
        !forced && differs
    }

    /// The copy was uploaded; `server` is the server's time now, where it
    /// could be asked for.
    pub fn uploaded(&mut self, server: Option<Option<u32>>)
        ensures
            *final(self) == (Watch {
                pending: None,
                based_on: match server {
                    Some(t) => t,
                    None => old(self).based_on,
                },
                ..*old(self)
            }),
    {
        self.pending = None;
        if let Some(t) = server {
            self.based_on = t;
        }
    }
}

/// A save is uploaded after two looks that see the same, and the server's
/// file is overwritten unasked only where it is the one the copy was made
/// of.
pub proof fn law_a_save_is_uploaded_once_it_rests(w: Watch, now: Option<u64>)
    requires
        now is Some,
        w.seen != now,
    ensures
        looked(w, false, now, false).1 == Look::Wait,
        looked(looked(w, false, now, false).0, false, now, false).1 == Look::Check,
        looked(w, true, now, false).0 == w,
{
}

/// Nothing is uploaded while the copy does not change.
pub proof fn law_nothing_without_a_change(w: Watch)
    requires
        w.pending is None,
    ensures
        looked(w, false, w.seen, false) == (w, Look::Wait),
{
}

/// Text typed for this question isn't shown: all but yes/no questions.
pub fn is_secret(prompt: &str) -> (r: bool)
    ensures
        r == !text::holds_part(prompt@, "(yes/no"@),
{
    !text::contains_part(prompt, "(yes/no")
}

/// How a question of ssh is answered.
#[derive(Clone, Copy, Debug, PartialEq, Eq, Structural)]
pub enum Answer {
    /// It is not our ssh that asks: nothing is said.
    Refuse,
    /// The saved password.
    Saved,
    /// An earlier question was cancelled, so this one is too.
    Cancelled,
    /// The person is asked.
    Ask,
}

/// How a question of ssh is answered: only the helper started by our ssh is;
/// the account's own password prompt from what is saved, everything else by
/// asking, unless a question of this connection was cancelled.
pub fn answer(ours: bool, saved: bool, cancelled: bool) -> (r: Answer)
    ensures
        r == answer_for(ours, saved, cancelled),
{
    if !ours {
        Answer::Refuse
    } else if saved {
        Answer::Saved
    } else if cancelled {
        Answer::Cancelled
    } else {
        Answer::Ask
    }
}

/// The questions of one connection: cancelling one cancels the rest (ssh
/// would ask for the password again otherwise).
#[derive(Clone, Copy, Debug, PartialEq, Eq, Structural)]
pub struct Questions {
    pub cancelled: bool,
}

impl Questions {
    /// None was asked yet.
    pub fn new() -> (r: Questions)
        ensures
            r == (Questions { cancelled: false }),
    {
        Questions { cancelled: false }
    }

    /// How the next question is answered.
    pub fn next(&self, ours: bool, saved: bool) -> (r: Answer)
        ensures
            r == answer_for(ours, saved, self.cancelled),
    {
        answer(ours, saved, self.cancelled)
    }

    /// The person was asked; whether something was typed (not cancelled).
    pub fn asked(&mut self, typed: bool)
        ensures
            final(self).cancelled == !typed,
    {
        self.cancelled = !typed;
    }
}

/// How a question is answered.
pub open spec fn answer_for(ours: bool, saved: bool, cancelled: bool) -> Answer {
    if !ours {
        Answer::Refuse
    } else if saved {
        Answer::Saved
    } else if cancelled {
        Answer::Cancelled
    } else {
        Answer::Ask
    }
}

/// Only our ssh is answered, and nobody is asked again once a question was
/// cancelled.
pub proof fn law_questions(ours: bool, saved: bool, cancelled: bool)
    ensures
        !ours ==> answer_for(ours, saved, cancelled) == Answer::Refuse,
        cancelled ==> answer_for(ours, saved, cancelled) != Answer::Ask,
{
}

/// Whether the helper was started by our ssh.
pub fn is_ours(parent: Option<u32>, ssh: u32) -> (r: bool)
    ensures
        r == (parent matches Some(p) && p != 0 && p == ssh),
{
    match parent {
        Some(p) => p != 0 && p == ssh,
        None => false,
    }
}

/// Whether a saved password is marked as refused: it was given, and the
/// server would not have it.
pub fn was_refused(given: bool, error: &str) -> (r: bool)
    ensures
        r == (given && text::holds_part(error@, "Permission denied"@)),
{
    given && text::contains_part(error, "Permission denied")
}

/// What is looked at of an edited file: nothing without a connection; a
/// change is remembered and waits; at rest, what waits or is forced is
/// checked, and nothing else.
pub proof fn law_looks(w: Watch, now: Option<u64>, forced: bool)
    ensures
        looked(w, true, now, forced) == (w, Look::Disconnected),
        now != w.seen ==> looked(w, false, now, forced).1 == Look::Wait && looked(w, false, now, forced).0.seen == now && looked(
            w,
            false,
            now,
            forced,
        ).0.pending == now && looked(w, false, now, forced).0.based_on == w.based_on,
        now == w.seen && (forced || w.pending is Some) ==> looked(w, false, now, forced) == (w, Look::Check),
        now == w.seen && !forced && w.pending is None ==> looked(w, false, now, forced) == (w, Look::Wait),
{
}

/// A question of ours is answered with what was saved, else asked about
/// once, until it was cancelled; any other is refused.
pub proof fn law_answers(saved: bool, cancelled: bool)
    ensures
        answer_for(false, saved, cancelled) == Answer::Refuse,
        answer_for(true, true, cancelled) == Answer::Saved,
        answer_for(true, false, true) == Answer::Cancelled,
        answer_for(true, false, false) == Answer::Ask,
{
}

} // verus!
