//! Opening tabs: what is recorded of each, and what is said of those that
//! did not come up.

use vstd::prelude::*;

use crate::message;
use crate::message::{Message, MessageView};
use crate::sessions::{Record, TabSpec};
use crate::text;

verus! {

/// The registry's entry for a tab that is opened.
pub fn record_for(spec: &TabSpec, now: i64) -> (r: Record)
    ensures
        r.id@ == spec.session@,
        r.terminal_session@ == spec.terminal_session@,
        r.current_terminal_session is None,
        r.label@ == spec.label@,
        r.alias@ == spec.alias@,
        r.opened_at == now,
        r.window_number is None,
        r.tab_index is None,
        r.no_forwards == spec.no_forwards,
        !r.locked,
        r.shim is None,
{
    Record {
        id: text::owned(&spec.session),
        terminal_session: text::owned(&spec.terminal_session),
        current_terminal_session: None,
        label: text::owned(&spec.label),
        alias: text::owned(&spec.alias),
        opened_at: now,
        window_number: None,
        tab_index: None,
        no_forwards: spec.no_forwards,
        locked: false,
        shim: None,
    }
}

/// A session whose tab did not come up, and why.
pub struct NotOpened {
    pub session: String,
    pub why: &'static str,
}

/// A session whose tab did not come up, and why.
pub open spec fn not_opened_view(n: NotOpened) -> (Seq<char>, Seq<char>) {
    (n.session@, n.why@)
}

/// Sessions whose tabs did not come up, and why.
pub open spec fn failures(list: Seq<NotOpened>) -> Seq<(Seq<char>, Seq<char>)> {
    list.map_values(|n: NotOpened| not_opened_view(n))
}

/// The same reason for every session.
pub open spec fn all_for(sessions: Seq<Seq<char>>, why: Seq<char>) -> Seq<(Seq<char>, Seq<char>)> {
    sessions.map_values(|s: Seq<char>| (s, why))
}

/// The sessions of tabs.
pub open spec fn sessions_of(specs: Seq<TabSpec>) -> Seq<Seq<char>> {
    specs.map_values(|s: TabSpec| s.session@)
}

/// The labels of tabs.
pub open spec fn labels_of(specs: Seq<TabSpec>) -> Seq<Seq<char>> {
    specs.map_values(|s: TabSpec| s.label@)
}

/// The tabs whose label is missing, in order.
pub open spec fn missing_among(specs: Seq<TabSpec>, missing: Seq<Seq<char>>) -> Seq<TabSpec> {
    specs.filter(|s: TabSpec| missing.contains(s.label@))
}

/// What the terminal reports of tabs that were handed to it: the first
/// `launched` were sent, the sessions in `pending` were not.
pub struct Report {
    pub launched: usize,
    pub pending: Vec<String>,
}

/// The labels to wait for: those of the tabs that were sent.
pub fn expected(specs: &[TabSpec], launched: usize) -> (r: Vec<String>)
    requires
        launched <= specs@.len(),
    ensures
        text::texts(r@) == labels_of(specs@.take(launched as int)),
{
    let mut r: Vec<String> = Vec::new();
    let mut i: usize = 0;
    proof {
        assert(text::texts(r@) =~= labels_of(specs@.take(0)));
    }
    while i < launched
        invariant
            i <= launched <= specs@.len(),
            text::texts(r@) == labels_of(specs@.take(i as int)),
        decreases launched - i,
    {
        let ghost before = r@;
        let label = text::owned(&specs[i].label);
        r.push(label);
        proof {
            assert(text::texts(r@) =~= text::texts(before).push(label@));
            assert(labels_of(specs@.take(i + 1)) =~= labels_of(specs@.take(i as int)).push(specs@[i as int].label@));
        }
        i += 1;
    }
    r
}

fn all_failed(sessions: &[String], why: &'static str) -> (r: Vec<NotOpened>)
    ensures
        failures(r@) == all_for(text::texts(sessions@), why@),
{
    let mut r: Vec<NotOpened> = Vec::new();
    let mut i: usize = 0;
    let ghost all = text::texts(sessions@);
    proof {
        assert(failures(r@) =~= all_for(all.take(0), why@));
    }
    while i < sessions.len()
        invariant
            i <= sessions@.len(),
            all == text::texts(sessions@),
            failures(r@) == all_for(all.take(i as int), why@),
        decreases sessions@.len() - i,
    {
        let ghost before = r@;
        let n = NotOpened { session: text::owned(&sessions[i]), why };
        r.push(n);
        proof {
            assert(failures(r@) =~= failures(before).push(not_opened_view(n)));
            assert(all_for(all.take(i + 1), why@) =~= all_for(all.take(i as int), why@).push((all[i as int], why@)));
        }
        i += 1;
    }
    proof {
        assert(all.take(i as int) =~= all);
    }
    r
}

/// The terminal could not be started: no tab comes up, which is said.
pub fn launch_failed(specs: &[TabSpec], error: &str) -> (r: (Vec<NotOpened>, Message))
    ensures
        failures(r.0@) == all_for(sessions_of(specs@), "wt failed"@),
        r.1@ == message::said("notice-terminal-failed"@).text("error"@, error@),
{
    let mut sessions: Vec<String> = Vec::new();
    let mut i: usize = 0;
    proof {
        assert(text::texts(sessions@) =~= sessions_of(specs@.take(0)));
    }
    while i < specs.len()
        invariant
            i <= specs@.len(),
            text::texts(sessions@) == sessions_of(specs@.take(i as int)),
        decreases specs@.len() - i,
    {
        let ghost before = sessions@;
        let s = text::owned(&specs[i].session);
        sessions.push(s);
        proof {
            assert(text::texts(sessions@) =~= text::texts(before).push(s@));
            assert(sessions_of(specs@.take(i + 1)) =~= sessions_of(specs@.take(i as int)).push(
                specs@[i as int].session@,
            ));
        }
        i += 1;
    }
    proof {
        assert(specs@.take(i as int) =~= specs@);
    }
    (all_failed(&sessions, "wt failed"), Message::new("notice-terminal-failed").text("error", error))
}

/// What is said of tabs that were handed to the terminal: how many were not
/// sent, and which did not appear.
pub open spec fn opening_says(pending: nat, missing: Seq<Seq<char>>) -> Seq<MessageView> {
    let a = if pending > 0 {
        seq![message::said("notice-tabs-pending"@).number("count"@, pending as int)]
    } else {
        Seq::empty()
    };
    if missing.len() > 0 {
        a.push(
            message::said("notice-tabs-missing"@).number("count"@, missing.len() as int).text(
                "labels"@,
                text::joined_by(missing, ", "@),
            ),
        )
    } else {
        a
    }
}

/// The sessions whose tabs did not come up: those that were not sent, then
/// those sent whose label is `missing` after a while; and what is said.
pub fn not_opened(specs: &[TabSpec], report: &Report, missing: &[String]) -> (r: (Vec<NotOpened>, Vec<Message>))
    requires
        report.launched <= specs@.len(),
    ensures
        failures(r.0@) == all_for(text::texts(report.pending@), "not sent"@) + all_for(
            sessions_of(missing_among(specs@.take(report.launched as int), text::texts(missing@))),
            "tab didn't appear"@,
        ),
        message::messages(r.1@) == opening_says(report.pending@.len(), text::texts(missing@)),
{
    let mut failed = all_failed(&report.pending, "not sent");
    let ghost unsent = failures(failed@);
    let ghost gone = text::texts(missing@);
    let ghost why = "tab didn't appear"@;
    let launched: usize = report.launched;
    let mut i: usize = 0;
    proof {
        reveal(Seq::filter);
        assert(specs@.take(0) =~= Seq::empty());
        assert(all_for(sessions_of(missing_among(specs@.take(0), gone)), why) =~= Seq::empty());
        assert(failures(failed@) =~= unsent + all_for(sessions_of(missing_among(specs@.take(0), gone)), why));
    }
    while i < launched
        invariant
            i <= launched <= specs@.len(),
            gone == text::texts(missing@),
            why == "tab didn't appear"@,
            failures(failed@) == unsent + all_for(sessions_of(missing_among(specs@.take(i as int), gone)), why),
        decreases launched - i,
    {
        let ghost so_far = missing_among(specs@.take(i as int), gone);
        proof {
            reveal(Seq::filter);
            assert(specs@.take(i + 1).drop_last() =~= specs@.take(i as int));
            assert(specs@.take(i + 1).last() == specs@[i as int]);
        }
        if text::contains_text(missing, &specs[i].label) {
            let ghost before = failed@;
            let n = NotOpened { session: text::owned(&specs[i].session), why: "tab didn't appear" };
            failed.push(n);
            proof {
                assert(failures(failed@) =~= failures(before).push(not_opened_view(n)));
                assert(missing_among(specs@.take(i + 1), gone) =~= so_far.push(specs@[i as int]));
                assert(sessions_of(so_far.push(specs@[i as int])) =~= sessions_of(so_far).push(n.session@));
                assert(all_for(sessions_of(so_far).push(n.session@), why) =~= all_for(sessions_of(so_far), why).push(
                    (n.session@, why),
                ));
                assert(failures(failed@) =~= unsent + all_for(sessions_of(so_far), why).push((n.session@, why)));
            }
        } else {
            proof {
                assert(missing_among(specs@.take(i + 1), gone) =~= so_far);
            }
        }
        i += 1;
    }
    let mut said: Vec<Message> = Vec::new();
    if report.pending.len() > 0 {
        said.push(Message::new("notice-tabs-pending").number("count", report.pending.len() as i128));
    }
    if missing.len() > 0 {
        let labels = text::join_by(missing, ", ");
        said.push(Message::new("notice-tabs-missing").number("count", missing.len() as i128).text("labels", &labels));
    }
    proof {
        assert(message::messages(said@) =~= opening_says(report.pending@.len(), gone));
    }
    (failed, said)
}

/// Where every tab was sent and appeared, no session failed and nothing is
/// said.
pub proof fn law_nothing_is_said_of_tabs_that_came_up(specs: Seq<TabSpec>)
    ensures
        all_for(Seq::<Seq<char>>::empty(), "not sent"@) + all_for(
            sessions_of(missing_among(specs, Seq::empty())),
            "tab didn't appear"@,
        ) == Seq::<(Seq<char>, Seq<char>)>::empty(),
        opening_says(0, Seq::empty()) == Seq::<MessageView>::empty(),
{
    lemma_none_missing(specs);
    assert(all_for(Seq::empty(), "not sent"@) =~= Seq::empty());
    assert(all_for(sessions_of(Seq::empty()), "tab didn't appear"@) =~= Seq::empty());
}

proof fn lemma_none_missing(specs: Seq<TabSpec>)
    ensures
        missing_among(specs, Seq::empty()) == Seq::<TabSpec>::empty(),
    decreases specs.len(),
{
    reveal(Seq::filter);
    if specs.len() > 0 {
        lemma_none_missing(specs.drop_last());
    }
}

/// Tabs that did not come up are those whose label is missing, in order,
/// and no others.
pub proof fn law_tabs_missing(specs: Seq<TabSpec>, t: TabSpec, missing: Seq<Seq<char>>, why: Seq<char>)
    ensures
        missing_among(Seq::empty(), missing) == Seq::<TabSpec>::empty(),
        missing.contains(t.label@) ==> missing_among(specs.push(t), missing) == missing_among(specs, missing).push(t),
        !missing.contains(t.label@) ==> missing_among(specs.push(t), missing) == missing_among(specs, missing),
        sessions_of(specs.push(t)) == sessions_of(specs).push(t.session@),
        labels_of(specs.push(t)) == labels_of(specs).push(t.label@),
        all_for(sessions_of(specs.push(t)), why) == all_for(sessions_of(specs), why).push((t.session@, why)),
{
    reveal(Seq::filter);
    assert(specs.push(t).drop_last() =~= specs);
    let keep = |s: TabSpec| missing.contains(s.label@);
    assert(Seq::<TabSpec>::empty().filter(keep) =~= Seq::empty());
    assert(sessions_of(specs.push(t)) =~= sessions_of(specs).push(t.session@));
    assert(labels_of(specs.push(t)) =~= labels_of(specs).push(t.label@));
    assert(all_for(sessions_of(specs.push(t)), why) =~= all_for(sessions_of(specs), why).push((t.session@, why)));
}

/// What is said of an opening: how many tabs are still to come, and which
/// did not come up; nothing of either where there are none.
pub proof fn law_opening_says(pending: nat, missing: Seq<Seq<char>>)
    ensures
        opening_says(pending, missing).len() == (if pending > 0 {
            1int
        } else {
            0
        }) + (if missing.len() > 0 {
            1int
        } else {
            0
        }),
        pending > 0 ==> opening_says(pending, missing)[0] == message::said("notice-tabs-pending"@).number(
            "count"@,
            pending as int,
        ),
        missing.len() > 0 ==> opening_says(pending, missing).last() == message::said("notice-tabs-missing"@).number(
            "count"@,
            missing.len() as int,
        ).text("labels"@, text::joined_by(missing, ", "@)),
{
}

} // verus!
