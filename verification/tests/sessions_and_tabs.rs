use std::time::Duration;

use native_term_app::actions::{
    close_ids, close_sessions, close_set, run, CloseSet, Closing, Run, SessionCommand,
};
use native_term_app::connect_queue::{Queue, Ready, Turn};
use native_term_app::control::{
    audit_file, audit_line, base_label, close_on_exit, language_setting, send_report, CloseOutcome, CloseStep,
    Delivery, Dropped, Notices, SendTo,
};
use native_term_app::message::{Message, Notice};
use native_term_app::orders::{set_language_setting, text_messages, Focus};
use native_term_app::opening::{expected, launch_failed, not_opened, record_for, Report};
use native_term_app::pipe::{
    after_replacing, batch_windows, greeting, protocol_notice, signalled, watched, window_gone, Greeting, Placeholder,
};
use native_term_app::session::{
    apply, next_retry, reconnect_delay, Hello, Role, Session, SessionEnd, ShimMessage,
};
use native_term_app::sessions::{labels, shim_alive, AppMessage, Record, Recording};
use native_term_app::tabs::{
    choose_tab, find_active, locate, locate_plan, menu_tabs, number_of, order_after, Claim, Rect, Snapshot, TabView,
    WindowView,
};
use native_term_app::{unique_label, Core, HostRequest, Location, SessionView, State};

fn shown(id: &str, window: isize, tab_index: usize, state: State) -> SessionView {
    SessionView {
        id: id.into(),
        label: id.into(),
        alias: "h".into(),
        state,
        shim_pid: None,
        attempt: 1,
        linked: true,
        location: Some(Location {
            window_number: window as usize,
            window,
            tab_index,
            title: id.into(),
            selected: false,
            mixed: false,
        }),
        auto_retry: None,
        locked: false,
        renamed_to: None,
        last_position: None,
        quiet_since: None,
        specials: Vec::new(),
    }
}

#[test]
fn close_sets_stay_within_nativeterm_tabs() {
    let all = vec![
        shown("a", 1, 0, State::Connected),
        // the user's own tabs sit at 1 and 3, they aren't sessions
        shown("b", 1, 2, State::Disconnected(255)),
        shown("c", 1, 4, State::Connected),
        shown("d", 2, 0, State::LoginFailed(255)),
        shown("w", 2, 1, State::Waiting),
    ];
    let others = CloseSet::Others("b".into());
    let right = CloseSet::RightOf("b".into());
    assert_eq!(close_set(&all, &others), ["a", "c"]);
    assert_eq!(close_set(&all, &right), ["c"]);
    assert_eq!(close_set(&all, &CloseSet::Ended), ["b", "d"], "all windows");
    assert_eq!(close_set(&all, &CloseSet::Waiting), ["w"]);
    assert!(close_set(&all, &CloseSet::RightOf("c".into())).is_empty());

    let mut all = all;
    all[2].locked = true;
    all[3].locked = true;
    assert_eq!(close_set(&all, &others), ["a"], "locked sessions stay");
    assert!(close_set(&all, &right).is_empty());
    assert_eq!(close_set(&all, &CloseSet::Ended), ["b"]);
}

/// Break only where the connection takes one (ntplink told the shim), and
/// only while connected.
#[test]
fn break_is_offered_where_the_connection_takes_it() {
    let mut s = shown("a", 1, 0, State::Connected);
    assert!(!SessionCommand::SendBreak.offered(&s) && !SessionCommand::SendBreak.applies(&s), "ssh: never");
    s.specials = vec!["brk".into()];
    assert!(SessionCommand::SendBreak.offered(&s) && SessionCommand::SendBreak.applies(&s));
    s.state = State::Connecting;
    assert!(SessionCommand::SendBreak.offered(&s) && !SessionCommand::SendBreak.applies(&s));
}

#[test]
fn when_commands_apply() {
    let mut s = shown("a", 1, 0, State::Connected);
    assert!(SessionCommand::Disconnect.applies(&s) && SessionCommand::Send.applies(&s));
    assert!(!SessionCommand::Connect.applies(&s));
    s.state = State::Disconnected(255);
    assert!(SessionCommand::Connect.applies(&s) && !SessionCommand::Send.applies(&s));
    s.linked = false;
    assert!(!SessionCommand::Connect.applies(&s), "no shim to tell");
    assert!(SessionCommand::Close.applies(&s), "closing works without a shim (the tab's button)");
    s.locked = true;
    assert!(!SessionCommand::Close.applies(&s) && SessionCommand::ToggleLock.applies(&s));
    s.state = State::Closed;
    assert!(!SessionCommand::ToggleLock.applies(&s) && !SessionCommand::Close.applies(&s));
    s.location = None;
    assert!(!SessionCommand::Focus.applies(&s) && SessionCommand::Clone.applies(&s));
}

#[test]
fn commands_run_where_they_apply() {
    let mut all = vec![shown("a", 1, 0, State::Connected)];
    assert_eq!(run(&all, "a", SessionCommand::Disconnect), Run::Disconnect);
    assert_eq!(run(&all, "a", SessionCommand::Connect), Run::Nothing);
    assert_eq!(run(&all, "x", SessionCommand::Clone), Run::Nothing);
    assert_eq!(run(&all, "a", SessionCommand::ToggleLock), Run::Lock(true));
    all[0].specials = vec!["brk".into()];
    assert_eq!(run(&all, "a", SessionCommand::SendBreak), Run::SendSpecial("brk"));
}

#[test]
fn a_shared_tab_is_asked_about() {
    let mut all = vec![shown("a", 1, 0, State::Ended(0)), shown("b", 1, 1, State::Ended(0))];
    let (closing, ids) = close_sessions(&all, &CloseSet::Ended);
    assert_eq!(closing, Closing::Done(2));
    assert_eq!(ids, ["a", "b"]);
    all[1].location.as_mut().unwrap().mixed = true;
    let (closing, ids) = close_sessions(&all, &CloseSet::Ended);
    assert_eq!(closing, Closing::Confirm(vec!["a".into(), "b".into()]));
    assert!(ids.is_empty());
    let (ids, _) = close_ids(&all, &["b".to_string()]);
    assert_eq!(ids, ["b"]);
}

#[test]
fn unique_labels() {
    let taken: Vec<String> = ["web01", "web01 (2)"].iter().map(|s| s.to_string()).collect();
    assert_eq!(unique_label("db01", &taken), "db01");
    assert_eq!(unique_label("web01", &taken), "web01 (3)");
}

#[test]
fn a_number_in_a_label_is_not_its_name() {
    assert_eq!(base_label("web01 (3)"), "web01");
    assert_eq!(base_label("web01"), "web01");
    assert_eq!(base_label("web (a)"), "web (a)");
}

fn session() -> Session {
    Session::new(
        "s".into(),
        "6E7A0000-0000-4000-8000-000000000001".into(),
        "web01".into(),
        "web01".into(),
        State::Opening,
    )
}

fn exited(code: i32, end: SessionEnd) -> ShimMessage {
    ShimMessage::Exited { code, end }
}

/// How ssh's exit codes read: 255 and a killed process are ssh's own.
fn classify(code: i32, authenticated: bool) -> SessionEnd {
    if code != 255 && code >= 0 {
        SessionEnd::Closed(code)
    } else if authenticated {
        SessionEnd::Disconnected
    } else {
        SessionEnd::LoginFailed
    }
}

fn end(s: &mut Session, code: i32) {
    let message = s.exited(code, classify);
    apply(s, &message, 0);
}

#[test]
fn lifecycle() {
    let mut s = session();
    apply(&mut s, &ShimMessage::Waiting, 0);
    assert!(s.state.can_connect());
    apply(&mut s, &ShimMessage::Connecting { attempt: 1 }, 0);
    assert_eq!(s.state, State::Connecting);
    end(&mut s, 255);
    assert_eq!(s.state, State::LoginFailed(255));
    apply(&mut s, &ShimMessage::Connecting { attempt: 2 }, 0);
    apply(&mut s, &ShimMessage::Authenticated, 0);
    assert_eq!(s.state, State::Connected);
    assert!(!s.state.can_connect());
    end(&mut s, -1);
    assert_eq!(s.state, State::Disconnected(-1));
    apply(&mut s, &ShimMessage::Connecting { attempt: 3 }, 0);
    assert_eq!(s.attempt, 3);
    apply(&mut s, &ShimMessage::Authenticated, 0);
    end(&mut s, 0);
    assert_eq!(s.state, State::Ended(0));
    apply(&mut s, &ShimMessage::Closing, 0);
    assert!(!s.state.is_open());
}

#[test]
fn reconnect_delays_grow_and_level_off() {
    assert_eq!(Duration::from_secs(reconnect_delay(1)), Duration::from_secs(3));
    assert_eq!(Duration::from_secs(reconnect_delay(2)), Duration::from_secs(10));
    assert_eq!(Duration::from_secs(reconnect_delay(4)), Duration::from_secs(60));
    assert_eq!(Duration::from_secs(reconnect_delay(9)), Duration::from_secs(60));
    assert_eq!(Duration::from_secs(reconnect_delay(0)), Duration::from_secs(3));
}

#[test]
fn only_a_stable_connection_resets_the_retry_count() {
    assert_eq!(next_retry(0, None), 1);
    assert_eq!(next_retry(3, Some(2_000)), 4, "dropped right after login");
    assert_eq!(next_retry(3, Some(600_000)), 1);
    let mut s = session();
    s.auto_retries = 3;
    apply(&mut s, &ShimMessage::Connecting { attempt: 4 }, 0);
    assert_eq!(s.view().auto_retry, Some(3));
    apply(&mut s, &ShimMessage::Authenticated, 0);
    assert!(s.connected_at.is_some());
    assert_eq!(s.view().auto_retry, None, "shown only while reconnecting");
}

#[test]
fn terminal_session_matching() {
    let mut s = session();
    assert!(s.matches_terminal_session("{6e7a0000-0000-4000-8000-000000000001}"));
    assert!(!s.matches_terminal_session("6e7a0000-0000-4000-8000-000000000002"));
    s.current_terminal_session = Some("6e7a0000-0000-4000-8000-000000000002".into());
    assert!(s.matches_terminal_session("6E7A0000-0000-4000-8000-000000000002"), "after Restart connection");
}

#[test]
fn states_in_words() {
    assert_eq!(State::Connected.describe(), Message::new("state-connected"));
    assert_eq!(State::LoginFailed(255).describe(), Message::new("state-login-failed").number("code", 255));
    assert_eq!(State::Failed("no tab".into()).describe(), Message::new("state-failed").text("reason", "no tab"));
}

fn record(id: &str, label: &str) -> Record {
    Record {
        id: id.into(),
        terminal_session: format!("guid-{id}"),
        current_terminal_session: None,
        label: label.into(),
        alias: "web01".into(),
        opened_at: 100,
        window_number: None,
        tab_index: None,
        no_forwards: false,
        locked: false,
        shim: None,
    }
}

fn empty() -> Core {
    Core::start(&[], &[], &[], None).0
}

fn open(core: &mut Core, label: &str) -> String {
    let id = format!("id-{}", core.sessions.len());
    let guid = format!("guid-{}", core.sessions.len());
    core.open(&[HostRequest::new("web01".into(), label.into())], &[(guid, id.clone())]);
    id
}

fn hello(session: Option<&str>, guid: Option<&str>) -> Hello {
    Hello {
        protocol: 1,
        role: Role::Shim,
        pid: 7,
        wt_session: guid.map(str::to_string),
        session: session.map(str::to_string),
        alias: Some("web01".into()),
        terminal_window: None,
    }
}

#[test]
fn a_start_knows_what_was_open() {
    let mut gone = record("b", "db01");
    gone.shim = Some((5, 100));
    let (core, lost) = Core::start(&[record("a", "web01"), gone], &[None, Some(101)], &[record("r", "old")], None);
    assert_eq!(core.sessions.len(), 1, "b's shim is another process now");
    assert_eq!(core.sessions[0].state, State::Detached);
    assert_eq!(lost, ["b"]);
    assert_eq!(core.restorable.len(), 1);
    assert!(shim_alive(None, None));
    assert!(shim_alive(Some((5, 100)), Some(100)));
    assert!(!shim_alive(Some((5, 100)), None));
}

#[test]
fn tabs_of_one_host_get_labels_of_their_own() {
    let mut core = empty();
    open(&mut core, "web01");
    open(&mut core, "web01");
    open(&mut core, "web01");
    assert_eq!(labels(&core.sessions), ["web01", "web01 (2)", "web01 (3)"]);
    assert_eq!(core.unlocated(), 0, "no shim yet: still opening");
    core.hello(&hello(Some("id-1"), Some("guid-1")), 1, "fresh".into(), 0);
    assert_eq!(core.unlocated(), 1);
}

#[test]
fn a_shim_says_hello_and_reports() {
    let mut core = empty();
    let id = open(&mut core, "web01");
    let welcomed = core.hello(&hello(Some(&id), Some("guid-0")), 1, "fresh".into(), 0);
    assert_eq!(welcomed.id, id);
    assert!(welcomed.adopted.is_none());
    core.report(&id, &ShimMessage::Connecting { attempt: 1 }, 0);
    core.report(&id, &ShimMessage::Authenticated, 0);
    assert_eq!(core.sessions[0].state, State::Connected);
    let reported = core.report(&id, &ShimMessage::Closing, 0).unwrap();
    assert_eq!(reported.recording, Recording::Closed);
    assert!(core.report("x", &ShimMessage::Waiting, 0).is_none());
    // a shim nobody knows is taken in
    let welcomed = core.hello(&hello(Some("other"), Some("g")), 2, "fresh".into(), 5);
    assert!(welcomed.adopted.is_some());
    assert_eq!(core.sessions.len(), 2);
}

#[test]
fn sent_text_goes_to_logged_in_sessions_only() {
    let mut core = empty();
    let a = open(&mut core, "web01");
    let b = open(&mut core, "web01");
    core.hello(&hello(Some(&a), Some("guid-0")), 1, "f".into(), 0);
    core.report(&a, &ShimMessage::Authenticated, 0);
    let plan = core.send_plan(&[a.clone(), b.clone()]);
    assert_eq!(plan.iter().map(|t| t.link).collect::<Vec<_>>(), [Some(1), None]);
    let (report, audit) = send_report(&plan, &[true, false]);
    assert_eq!(report.sent, ["web01"]);
    assert_eq!(report.skipped, ["web01 (2)"]);
    assert_eq!(audit.len(), 1);
    let failed = [SendTo { label: "l".into(), alias: "a".into(), link: Some(1) }];
    assert_eq!(send_report(&failed, &[false]).0.failed, ["l"]);
}

#[test]
fn sends_are_recorded_by_month_in_one_line() {
    assert_eq!(audit_file("2026-09-21"), "commands-2026-09.log");
    let line = audit_line("2026-09-21", "10:00:00", &["web01".to_string()], "a\nb");
    assert_eq!(line.trim_end().lines().count(), 1, "{line}");
    assert!(line.starts_with("2026-09-21 10:00:00"), "{line}");
}

#[test]
fn closing_and_forgetting() {
    let mut core = empty();
    let id = open(&mut core, "web01");
    assert!(matches!(core.close(&id), Some(CloseStep::LookFor(l)) if l == "web01"));
    assert!(matches!(core.close_unheard(&id), Some(CloseStep::LookFor(l)) if l == "web01"));
    assert!(core.close_unheard("nobody").is_none());
    core.hello(&hello(Some(&id), Some("guid-0")), 9, "f".into(), 0);
    assert!(matches!(core.close(&id), Some(CloseStep::Tell(9))));
    assert!(core.close("x").is_none());
    let (recording, notice) = core.closed(&id, &CloseOutcome::TabChanged);
    assert_eq!(recording, Recording::Nothing);
    assert_eq!(notice, Some(Notice::Said(Message::new("notice-tab-changed").text("label", "web01"))));
    let (recording, notice) = core.closed(&id, &CloseOutcome::Told);
    assert_eq!(recording, Recording::Closed);
    assert!(notice.is_none());
    core.clear_finished();
    assert!(core.sessions.is_empty());
}

#[test]
fn locked_sessions_stay_open_on_exit() {
    let mut core = empty();
    let a = open(&mut core, "web01");
    open(&mut core, "web01");
    assert!(core.set_locked(&a, true));
    assert!(!core.set_locked("x", true));
    let closed = core.close_all();
    assert_eq!(closed.len(), 1);
    assert!(core.sessions[0].state.is_open() && !core.sessions[1].state.is_open());
    assert!(close_on_exit(&None) && !close_on_exit(&Some("0".into())));
}

#[test]
fn a_clone_opens_without_forwards_under_the_host_s_name() {
    let mut core = empty();
    let id = open(&mut core, "web01");
    core.set_login_command(&id, Some("uptime".into()));
    let request = core.clone_session(&id).unwrap();
    assert!(request.no_forwards);
    assert_eq!(request.on_login.as_deref(), Some("uptime"));
    core.set_host_labels(vec![("web01".into(), "Web".into())]);
    assert_eq!(core.fresh_label("web01", "web01 (2)"), "Web");
    assert_eq!(core.fresh_label("db", "db (2)"), "db");
    assert_eq!(core.sessions()[0].renamed_to.as_deref(), Some("Web"));
    core.set_login_command(&id, Some("  ".into()));
    assert!(core.sessions[0].on_login.is_none());
}

#[test]
fn messages_go_over_the_link() {
    let mut core = empty();
    let id = open(&mut core, "web01");
    assert!(matches!(core.send(&id), Delivery::NotLinked(m) if m == Message::new("notice-not-linked").text("label", "web01")));
    core.hello(&hello(Some(&id), Some("guid-0")), 4, "f".into(), 0);
    assert!(matches!(core.send(&id), Delivery::Over(4)));
    assert!(matches!(core.send("x"), Delivery::Unknown));
}

#[test]
fn dropped_sessions_are_tried_again_if_wanted() {
    let mut core = empty();
    let id = open(&mut core, "web01");
    core.hello(&hello(Some(&id), Some("guid-0")), 4, "f".into(), 0);
    core.report(&id, &ShimMessage::Authenticated, 0);
    core.report(&id, &exited(-1, SessionEnd::Disconnected), 10);
    assert_eq!(core.set_auto_reconnect(false), "0");
    assert!(matches!(core.dropped(&id, 20), Dropped::Leave));
    assert_eq!(core.set_auto_reconnect(true), "1");
    assert!(core.auto_reconnect());
    assert!(matches!(core.dropped(&id, 20), Dropped::Again(4_598)));
    assert!(core.still_dropped(&id, core.sessions[0].attempt));
}

#[test]
fn a_tab_that_did_not_come_up_says_why() {
    let mut core = empty();
    let id = open(&mut core, "web01");
    core.tab_failed(&id, "no wt");
    assert_eq!(core.sessions[0].state, State::Failed("no wt".into()));
    let id = open(&mut core, "db");
    let (spec, _) = core.replace(&id, "guid-new".into()).unwrap();
    assert_eq!(spec.terminal_session, "guid-new");
    assert!(core.replace("x", "g".into()).is_none());
}

#[test]
fn detached_sessions_are_given_up_in_the_end() {
    let (mut core, _) = Core::start(&[record("a", "web01")], &[None], &[], None);
    let (lost, notice) = core.lose_detached();
    assert_eq!(lost, ["a"]);
    assert_eq!(notice, Some(Message::new("notice-lost-sessions").number("count", 1)));
    assert_eq!(core.lose_detached().0.len(), 0);
}

#[test]
fn a_restored_pane_finds_its_session() {
    let (mut core, _) = Core::start(&[], &[], &[record("r", "old")], None);
    assert_eq!(core.restore("GUID-R").as_deref(), Some("r"));
    assert!(core.restore("guid-x").is_none());
    assert_eq!(protocol_notice(1, 1), None);
    assert!(protocol_notice(0, 1).is_some());
    let held = |s: &str, w: Option<isize>| Placeholder { session: s.into(), conn: 1, window: w };
    let windows = batch_windows(&[held("a", Some(5)), held("b", Some(5)), held("c", None)]);
    assert_eq!(windows, [Some(5), None]);
    assert_eq!(after_replacing(&["a".to_string()], "a"), AppMessage::LocalShell);
    assert_eq!(after_replacing(&["b".to_string()], "a"), AppMessage::Close);
}

fn greets(role: Role, guid: Option<&str>, alias: Option<&str>) -> Hello {
    Hello {
        protocol: 1,
        role,
        pid: 7,
        wt_session: guid.map(String::from),
        session: None,
        alias: alias.map(String::from),
        terminal_window: None,
    }
}

#[test]
fn a_connection_is_known_by_its_first_message() {
    let signal = greeting(&greets(Role::AuthSignal, Some("g"), Some("web01")));
    assert_eq!(signal, Greeting::Signal(Some("g".into())));
    assert_eq!(greeting(&greets(Role::Shim, Some("g"), None)), Greeting::Pane(Some("g".into())));
    assert_eq!(greeting(&greets(Role::Shim, Some("g"), Some("web01"))), Greeting::Shim);
    assert_eq!(signalled(&signal, &ShimMessage::Authenticated).as_deref(), Some("g"));
    assert_eq!(signalled(&signal, &ShimMessage::Heard), None);
    assert_eq!(signalled(&Greeting::Signal(None), &ShimMessage::Authenticated), None);
    assert_eq!(signalled(&Greeting::Shim, &ShimMessage::Authenticated), None);
}

#[test]
fn a_pane_without_a_host_holds_or_is_a_shell() {
    let (mut core, _) = Core::start(&[], &[], &[record("r", "old")], None);
    let (message, held) = core.pane(Some("GUID-R".into()), 4, Some(9));
    assert_eq!(message, AppMessage::Hold);
    assert_eq!(held, Some(Placeholder { session: "r".into(), conn: 4, window: Some(9) }));
    assert_eq!(core.pane(Some("guid-x".into()), 5, None), (AppMessage::LocalShell, None));
    assert_eq!(core.pane(None, 6, None), (AppMessage::LocalShell, None));
}

#[test]
fn a_closing_session_s_window_is_watched() {
    assert_eq!(watched(&ShimMessage::Closing, Some(3)), Some(3));
    assert_eq!(watched(&ShimMessage::Closing, None), None);
    assert_eq!(watched(&ShimMessage::Heard, Some(3)), None);
    assert!(window_gone(&[1, 2], 3));
    assert!(!window_gone(&[1, 3], 3));
}

fn tab(index: usize, name: &str, selected: bool, claim: Option<&str>) -> TabView {
    let rect = Rect { left: 0, top: 0, right: 100, bottom: 40 };
    let claim = claim.map(|l| Claim { label: l.into(), mixed: false });
    TabView { index, name: name.into(), selected, rect: Some(rect), claim }
}

fn window(handle: isize, foreground: bool, tabs: Vec<TabView>) -> WindowView {
    WindowView { handle, pid: 1, foreground, unresponsive: false, tabs }
}

fn scan(windows: Vec<WindowView>) -> Snapshot {
    Snapshot { windows, complete: true }
}

#[test]
fn windows_keep_their_numbers() {
    let both = scan(vec![window(7, true, vec![]), window(3, false, vec![])]);
    let order = order_after(&[3], &both);
    assert_eq!((number_of(&order, 3), number_of(&order, 7)), (Some(1), Some(2)));
    // z order changed: the same numbers
    let other = scan(vec![window(3, true, vec![]), window(7, false, vec![])]);
    assert_eq!(order_after(&order, &other), order);
    assert_eq!(number_of(&order, 9), None);
}

#[test]
fn a_session_is_found_by_its_claim() {
    let snapshot = scan(vec![window(7, true, vec![tab(0, "pwsh", true, None), tab(1, "top", false, Some("web01"))])]);
    let place = locate(&snapshot, &[7], "web01").unwrap();
    assert_eq!((place.window_number, place.tab_index, place.title.as_str()), (1, 1, "top"));
    assert!(locate(&snapshot, &[7], "db").is_none());
    assert_eq!(menu_tabs(&snapshot).len(), 1);
    assert_eq!(choose_tab(&snapshot, 7, 0, "top"), Some((0, 1)), "the title moved");
    assert_eq!(choose_tab(&snapshot, 7, 0, "pwsh"), Some((0, 0)));
    assert_eq!(choose_tab(&snapshot, 7, 0, "gone"), None);
    assert_eq!(find_active(&snapshot, 0), Some((7, 0)));
    let (first, second) = locate_plan(&snapshot);
    assert_eq!(first, [(0, 0)]);
    assert!(second.is_empty(), "the other tab is known");
}

#[test]
fn a_refresh_moves_sessions_and_says_so() {
    let mut core = empty();
    let id = open(&mut core, "web01");
    assert!(core.wants_scan());
    let seen = || scan(vec![window(7, true, vec![tab(0, "web01", true, Some("web01"))])]);
    let r = core.refresh(seen());
    assert!(r.changed);
    assert_eq!(r.moved, [(id, 1, 0)]);
    assert_eq!(core.unlocated(), 0);
    assert_eq!(core.window_number(7), Some(1));
    let again = core.refresh(seen());
    assert!(!again.changed && again.moved.is_empty());
    // an incomplete scan loses nothing
    let mut partial = scan(vec![]);
    partial.complete = false;
    core.refresh(partial);
    assert!(core.sessions[0].location.is_some());
    assert_eq!(core.active_session().is_some(), false);
    core.refresh(seen());
    assert_eq!(core.active_session(), Some(0));
    assert!(core.want_all_tabs(true) && !core.want_all_tabs(true));
}

#[test]
fn the_queue_connects_what_is_ready_in_order() {
    let mut core = empty();
    let a = open(&mut core, "a");
    let b = open(&mut core, "b");
    let mut queue = Queue::new();
    queue.connect_all(vec![a.clone(), b.clone(), a.clone()], 0);
    assert_eq!(queue.pending.len(), 2, "each once");
    assert!(matches!(queue.next(&core, 0), Turn::Wait), "no shim yet");
    core.hello(&hello(Some(&b), Some("guid-1")), 2, "f".into(), 0);
    core.report(&b, &ShimMessage::Waiting, 0);
    assert!(matches!(core.ready(&b), Ready::Yes));
    assert!(matches!(queue.next(&core, 0), Turn::Connect(id, 0) if id == b));
    core.told_to_connect(&b);
    assert!(core.slot_free(0));
    queue.put_back(b.clone(), 0, 0);
    assert_eq!(queue.pending.len(), 2);
}

#[test]
fn notices_wait_until_taken() {
    let mut n = Notices { waiting: Vec::new() };
    n.add_notice(Notice::Plain("x".into()));
    assert_eq!(n.take_notices(), [Notice::Plain("x".into())]);
    assert!(n.take_notices().is_empty());
    assert_eq!(language_setting(Some(String::new())), None);
    assert_eq!(language_setting(Some("zh-CN".into())).as_deref(), Some("zh-CN"));
}

#[test]
fn tabs_that_did_not_come_up_are_said() {
    let mut core = empty();
    let request = |alias: &str| HostRequest::new(alias.into(), alias.into());
    let ids = |n: usize| (format!("guid-{n}"), format!("id-{n}"));
    let specs = core.open(&[request("a"), request("b"), request("c")], &[ids(0), ids(1), ids(2)]);
    let r = record_for(&specs[1], 50);
    assert_eq!((r.id.as_str(), r.label.as_str(), r.opened_at, r.locked), ("id-1", "b", 50, false));
    assert_eq!(expected(&specs, 2), ["a", "b"]);
    let report = Report { launched: 2, pending: vec!["id-2".into()] };
    let (failed, said) = not_opened(&specs, &report, &["b".to_string()]);
    let failed: Vec<(&str, &str)> = failed.iter().map(|f| (f.session.as_str(), f.why)).collect();
    assert_eq!(failed, [("id-2", "not sent"), ("id-1", "tab didn't appear")]);
    assert_eq!(said[0], Message::new("notice-tabs-pending").number("count", 1));
    assert_eq!(said[1], Message::new("notice-tabs-missing").number("count", 1).text("labels", "b"));
    let (failed, said) = not_opened(&specs, &Report { launched: 3, pending: vec![] }, &[]);
    assert!(failed.is_empty() && said.is_empty());
    let (failed, said) = launch_failed(&specs, "no wt");
    assert_eq!((failed.len(), failed[0].why), (3, "wt failed"));
    assert_eq!(said, Message::new("notice-terminal-failed").text("error", "no wt"));
}

#[test]
fn orders_to_tabs() {
    let mut core = empty();
    let a = open(&mut core, "web01");
    let b = open(&mut core, "db01");
    core.hello(&hello(Some(&a), Some("guid-0")), 4, "f".into(), 0);
    assert_eq!(core.connect(&a), (Delivery::Over(4), AppMessage::Connect));
    assert_eq!(core.disconnect(&a), (Delivery::Over(4), AppMessage::Disconnect));
    assert_eq!(core.clear_screen("x"), (Delivery::Unknown, AppMessage::ClearScreen));
    assert_eq!(core.send_special(&a, "brk").1, AppMessage::SendSpecial { name: "brk".into() });
    core.report(&a, &ShimMessage::Authenticated, 0);
    let (to, messages) = core.send_text(&[a.clone(), b.clone()], "cd /srv\nls", false);
    assert_eq!(to.iter().map(|t| t.link).collect::<Vec<_>>(), [Some(4), None]);
    let line = |text: &str, enter: bool| AppMessage::SendText { text: text.into(), enter };
    assert_eq!(messages, [line("cd /srv", true), line("ls", false)]);
    assert!(text_messages("", false).is_empty());
    assert!(core.close_ended().is_empty());
    core.report(&a, &exited(0, SessionEnd::Closed(0)), 1);
    assert_eq!(core.close_ended(), [a.clone()]);
    core.set_locked(&a, true);
    assert!(core.close_ended().is_empty(), "locked sessions stay");
}

#[test]
fn tabs_are_brought_to_the_front() {
    let mut core = empty();
    let a = open(&mut core, "web01");
    let not_found = Message::new("notice-tab-not-found").text("label", "web01");
    assert_eq!(core.focus(&a), Focus::NotFound(not_found));
    core.refresh(scan(vec![window(7, true, vec![tab(0, "pwsh", true, None), tab(1, "top", false, Some("web01"))])]));
    assert_eq!(core.focus(&a), Focus::Select(0, 1));
    assert_eq!(core.focus("x"), Focus::Unknown);
    assert_eq!(core.select_tab(7, 1, "pwsh"), Ok((0, 0)), "it moved");
    assert_eq!(core.select_tab(7, 0, "gone"), Err(Message::new("notice-tab-gone").text("title", "gone")));
}

#[test]
fn a_language_survives_the_setting() {
    for choice in [None, Some("zh-CN".to_string())] {
        assert_eq!(language_setting(Some(set_language_setting(choice.clone()))), choice);
    }
}
