use native_term_app::app::{
    agent_notice, any_reachable, apply_theme, asks_about_agent, by_mouse, can_send, connect_label, data_said, drop_setting,
    drop_step, folders_said, forgotten, host_gone, lock_label, marked, menu_step, move_failed, other_title, own_tags, place_words,
    remembered_drop, run_shortcut, show_dialog, state_color, state_words, submitted, typed_draft, waiting, DeleteEdit, Dialog, DialogStep, DropStep,
    Folder, Host, HostEdit, MenuRequest, MenuStep, Shortcut, ShortcutStep, Shown, Theme, Tone, Tree, TreeAction, TreeStep,
};
use native_term_app::dialogs::DropChoice;
use native_term_app::message::{Message, Notice};
use native_term_app::start::{
    choose_install, data_notices, install_notices, mismatch_notice, options, position_parts, start, Checks, Choice, Data,
    Found, Kept, Mismatch, Served, Start, Terminal,
};
use native_term_app::wizard::{data_movable, is_shown, WizardAction, WizardStep};
use native_term_app::{HostRequest, Location, SessionView, State};

fn host(alias: &str, folder: usize) -> Host {
    Host {
        alias: alias.into(),
        label: alias.to_uppercase(),
        hostname: format!("{alias}.lan"),
        folder,
        plink: false,
        line: None,
        on_login: None,
        tmux: false,
    }
}

fn tree() -> Tree {
    let folder = |file: &str, no_group_send: bool| Folder {
        file: file.into(),
        name: file.into(),
        label: "Lab".into(),
        no_group_send,
        tab_color: Some("red".into()),
        color_scheme: None,
        credential: Some("ops".into()),
        persistent: None,
    };
    let mut serial = host("console", 1);
    serial.plink = true;
    serial.line = Some("COM3".into());
    let mut kept = host("db01", 1);
    kept.tmux = true;
    Tree { folders: vec![folder("a.conf", false), folder("b.conf", true)], hosts: vec![host("web01", 0), serial, kept] }
}

fn session(alias: &str, state: State) -> SessionView {
    SessionView {
        id: format!("id-{alias}"),
        label: alias.into(),
        alias: alias.into(),
        state,
        shim_pid: None,
        attempt: 1,
        linked: true,
        location: None,
        auto_retry: None,
        locked: false,
        renamed_to: None,
        last_position: None,
        quiet_since: None,
        specials: Vec::new(),
    }
}

fn request(alias: &str) -> HostRequest {
    HostRequest::new(alias.into(), alias.into())
}

#[test]
fn hosts_by_kind() {
    let t = tree();
    assert_eq!((t.find("web01"), t.find("x")), (Some(0), None));
    assert!(t.by_ssh("web01") && !t.by_ssh("console"));
    assert_eq!(t.ssh_only(&["web01".to_string(), "console".to_string()]), ["web01"]);
    assert_eq!(t.tmux_hosts(), ["db01"]);
    assert_eq!(t.no_group_send(), ["console", "db01"]);
    assert_eq!(t.publish_hosts().len(), 3);
    assert_eq!(t.folder_look("a.conf").0.as_deref(), Some("red"));
    assert_eq!(t.folder_credential("a.conf").as_deref(), Some("ops"));
    assert_eq!(t.folder_credential("x.conf"), None);
    assert_eq!(t.folder_label("a.conf"), Notice::Plain("Lab".into()));
    assert_eq!(t.folder_persistent("a.conf"), None);
    assert!(t.can_upload("web01") && !t.can_upload("console"));
    assert!(matches!(t.files_of("web01", false), Ok((0, _))));
    assert!(t.files_of("console", false).is_err() && t.files_of("x", true).is_err());
}

#[test]
fn what_becomes_of_hosts_and_folders() {
    let t = tree();
    let run = |action: TreeAction| t.handle(action, &[], true, false, true).0;
    let pair = |a: &str, l: &str| (a.to_string(), l.to_string());
    let keys = TreeAction::InstallKey(vec![pair("console", "Console"), pair("web01", "Web")]);
    assert!(matches!(run(keys), TreeStep::InstallKey(k) if k == [pair("web01", "Web")]));
    assert!(matches!(run(TreeAction::InstallKey(vec![pair("console", "Console")])), TreeStep::Nothing));
    assert!(matches!(run(TreeAction::Move("web01".into())), TreeStep::Move(0)));
    let gone = Message::new("error-host-gone").text("alias", "x");
    assert!(matches!(run(TreeAction::Move("x".into())), TreeStep::NotMoved(a, why) if a == "x" && why == gone));
    assert!(matches!(t.delete_edit("db01"), DeleteEdit::Delete(2)));
    assert!(matches!(t.delete_edit("x"), DeleteEdit::Done));
    assert_eq!((t.folder_name("b.conf").as_str(), t.folder_name("x.conf").as_str()), ("b.conf", ""));
    assert_eq!(own_tags(&[]), None);
    let said = Message::new("folder-options-own-tag").text("hosts", "web01, db01");
    assert_eq!(own_tags(&["web01".to_string(), "db01".to_string()]), Some(said));
}

#[test]
fn a_serial_line_has_one_session() {
    let t = tree();
    let open = [session("console", State::Connected)];
    let (left, said) = t.without_taken_ports(&open, vec![request("console"), request("web01")]);
    assert_eq!(left.iter().map(|r| r.alias.as_str()).collect::<Vec<_>>(), ["web01"]);
    assert_eq!(said.len(), 1);
    let (left, said) = t.without_taken_ports(&[], vec![request("console"), request("console")]);
    assert_eq!((left.len(), said.len()), (1, 1), "each line once");
    let closed = [session("console", State::Closed)];
    assert_eq!(t.without_taken_ports(&closed, vec![request("console")]).0.len(), 1);
}

#[test]
fn what_the_tree_asks_for() {
    let t = tree();
    let run = |action: TreeAction, dialog: bool| t.handle(action, &[], true, dialog, true).0;
    assert!(matches!(run(TreeAction::Reload, false), TreeStep::Reload));
    assert!(matches!(run(TreeAction::Edit("web01".into()), false), TreeStep::EditHost(0, _)));
    assert!(matches!(run(TreeAction::Edit("console".into()), false), TreeStep::EditPlink(1)));
    assert!(matches!(run(TreeAction::Edit("x".into()), false), TreeStep::Nothing));
    assert!(matches!(run(TreeAction::Delete("db01".into()), false), TreeStep::Delete(2)));
    assert!(matches!(run(TreeAction::Open(vec![request("web01")]), false), TreeStep::Open(r, _) if r.len() == 1));
    assert!(matches!(t.handle(TreeAction::Open(vec![request("web01")]), &[], false, false, true).0, TreeStep::Nothing));
    assert!(matches!(run(TreeAction::NewFolder, false), TreeStep::NewFolder));
    assert_eq!(t.host_edit(&Some("web01".into()), false), Ok(HostEdit::Update(0)));
    assert_eq!(t.host_edit(&None, true), Ok(HostEdit::Create));
    assert_eq!(t.host_edit(&Some("x".into()), false), Err(host_gone("x")));
}

#[test]
fn drops_are_uploaded_sent_or_asked_about() {
    assert_eq!(drop_step(None, true, true, false), DropStep::Ask);
    assert_eq!(drop_step(Some(DropChoice::Upload), true, true, false), DropStep::Upload);
    assert_eq!(drop_step(Some(DropChoice::Text), true, true, false), DropStep::Text);
    assert_eq!(drop_step(Some(DropChoice::Upload), true, false, false), DropStep::Ask, "no way to upload");
    assert_eq!(drop_step(Some(DropChoice::Upload), false, true, false), DropStep::Ask, "typed or pasted");
    assert_eq!(drop_step(None, true, true, true), DropStep::Text, "a dialog is up");
    assert!(by_mouse(Some(100)) && !by_mouse(Some(60_000)) && !by_mouse(None));
    for c in [DropChoice::Upload, DropChoice::Text] {
        assert_eq!(remembered_drop(&Some(drop_setting(c).into())), Some(c));
    }
    assert_eq!(remembered_drop(&None), None);
}

#[test]
fn shortcuts_show_the_window_where_needed() {
    assert_eq!(run_shortcut(Shortcut::SearchHosts, true, true, false, false), ShortcutStep::Search { show: true });
    assert_eq!(run_shortcut(Shortcut::AllTabs, false, true, false, false), ShortcutStep::Tabs { show: false });
    assert_eq!(run_shortcut(Shortcut::SendToActive, false, true, false, false), ShortcutStep::NoActive);
    assert_eq!(run_shortcut(Shortcut::SendToActive, false, true, true, true), ShortcutStep::DialogOpen);
    assert_eq!(run_shortcut(Shortcut::SendToSeveral, false, true, false, false), ShortcutStep::Send { active: false });
    assert_eq!(run_shortcut(Shortcut::FilesForActive, false, true, false, true), ShortcutStep::Files);
}

#[test]
fn sessions_in_words() {
    let mut s = session("web01", State::Connected);
    assert_eq!(state_color(&s.state), Tone::Good);
    assert_eq!(state_words(&s)[0], State::Connected.describe());
    assert!(can_send(&s, false));
    assert!(any_reachable(&[s.clone()], &[]));
    assert_eq!(connect_label(&s).args.len(), 0);
    s.location = Some(Location { window_number: 1, window: 7, tab_index: 2, title: "top".into(), selected: true, mixed: false });
    assert!(!place_words(&s).is_empty());
    assert!(other_title(&s).is_some());
    let unlocked = lock_label(&s);
    s.locked = true;
    assert_ne!(lock_label(&s), unlocked);
    let all = [session("a", State::Waiting), session("b", State::Connected), session("c", State::Waiting)];
    assert_eq!(waiting(&all), ["id-a", "id-c"]);
    assert_eq!(marked("x"), "\u{1b}_nt\u{1b}\\x");
}

#[test]
fn themes_and_words() {
    for t in [Theme::System, Theme::Light, Theme::Dark] {
        assert_eq!(apply_theme(Some(t.setting())), t);
        assert!(!t.label().key.is_empty());
    }
    assert_eq!(apply_theme(None), Theme::System);
    assert_eq!(apply_theme(Some("pink")), Theme::System);
    assert!(!asks_about_agent(2) && asks_about_agent(3));
    let names: Vec<String> = ["a", "b", "c"].iter().map(|n| n.to_string()).collect();
    assert!(agent_notice(&names[..2], 3).is_none());
    let said = Message::new("notice-agent-forwarding").number("count", 3).number("total", 4).text("names", "a, b, c");
    assert_eq!(agent_notice(&names, 4), Some(said));
    assert!(folders_said(true, &Ok(1), "a", "b").0 && !folders_said(true, &Err("x".into()), "a", "b").0);
    assert!(data_said(&Ok(1), "a", "b").0 && !data_said(&Err("x".into()), "a", "b").0);
    assert_ne!(forgotten("web01", &[]), forgotten("web01", &["h".to_string()]));
    assert_eq!(move_failed("a", "e").args.len(), 2);
    assert_eq!(menu_step(MenuRequest::Send, true, true, true), MenuStep::DialogOpen);
    assert_eq!(menu_step(MenuRequest::Rename, false, true, false), MenuStep::NotSaved);
}

#[test]
fn dialogs_close_or_stay() {
    assert_eq!(show_dialog(Dialog::Host, Shown::Open, true), DialogStep::Stays);
    assert_eq!(show_dialog(Dialog::Host, Shown::Cancel, true), DialogStep::Closes { reload: true });
    assert_eq!(show_dialog(Dialog::Send, Shown::Submit, false), DialogStep::Closes { reload: false });
    assert_eq!(show_dialog(Dialog::Import, Shown::Submit, true), DialogStep::Closes { reload: true });
    assert_eq!(show_dialog(Dialog::Host, Shown::Submit, true), DialogStep::Submits);
    let mut error = None;
    assert_eq!(submitted(Err("disk full".into()), &mut error), DialogStep::Stays);
    assert_eq!(error.as_deref(), Some("disk full"));
    assert!(matches!(submitted(Ok(()), &mut error), DialogStep::Closes { .. }));
}

fn terminal(dir: &str) -> Terminal {
    Terminal { dir: dir.into(), same: false }
}

#[test]
fn a_chosen_folder_is_used_even_when_it_is_not_an_installed_package() {
    let (choice, notice) = choose_install(&None, &Some((r"D:\portable".into(), true)), &[terminal(r"C:\wt")]);
    assert_eq!(choice, Ok(Choice::ByHand));
    assert!(notice.is_none(), "nothing to say: the choice was there");
    let (choice, notice) = choose_install(&None, &Some((r"D:\portable".into(), true)), &[]);
    assert_eq!((choice, notice), (Ok(Choice::ByHand), None), "nothing else on this machine");
}

#[test]
fn a_chosen_folder_that_is_gone_is_said_once() {
    let gone = Some((r"D:\moved-away".to_string(), false));
    // whatever is installed here is used instead, with a word
    let (choice, notice) = choose_install(&None, &gone, &[terminal(r"C:\wt")]);
    assert_eq!(choice, Ok(Choice::Found(0)));
    assert!(notice.is_some());
    // no Terminal on this machine: that is the fatal error, not a notice
    let (choice, notice) = choose_install(&None, &gone, &[]);
    assert_eq!(choice, Err(Notice::Said(Message::new("fatal-no-terminal"))));
    assert!(notice.is_none());
}

#[test]
fn a_terminal_that_is_named_or_the_first_of_several() {
    let named = |wrong: Option<&str>| Some((r"D:\wt".to_string(), wrong.map(str::to_string)));
    assert_eq!(choose_install(&named(None), &None, &[]).0, Ok(Choice::Named));
    assert!(choose_install(&named(Some("no exe")), &None, &[]).0.is_err());
    let (choice, notice) = choose_install(&None, &None, &[terminal("a"), terminal("b")]);
    assert_eq!(choice, Ok(Choice::Found(0)));
    assert_eq!(notice, Some(Message::new("notice-terminal-several").number("count", 2).text("dir", "a")));
}

#[test]
fn the_start_checks_say_what_is_wrong() {
    let wt = r"C:\package\wt.exe";
    let mut c = Checks {
        too_old: Some("1.20.11781.0".into()),
        oldest: (1, 22),
        alias_off: true,
        launcher: Some(wt.into()),
        dir: r"C:\package".into(),
    };
    let notices = install_notices(&c);
    assert_eq!(notices.len(), 2, "too old, and the alias is off: {notices:?}");
    assert_eq!(notices[0], Message::new("notice-terminal-old").text("version", "1.20.11781.0").text("oldest", "1.22"));
    assert_eq!(notices[1], Message::new("notice-wt-alias-off").text("path", wt));
    c.launcher = None;
    assert_eq!(install_notices(&c)[1], Message::new("notice-wt-missing").text("dir", r"C:\package"));

    // a current version with its alias in place has nothing to report
    c.too_old = None;
    c.alias_off = false;
    assert!(install_notices(&c).is_empty());
}

#[test]
fn the_command_line() {
    let args = |list: &[&str]| list.iter().map(|a| a.to_string()).collect::<Vec<String>>();
    let o = options(&args(&["--ssh-dir", "S", "--data-dir", "D", "--from-shim"]), Some("T".into()), None).unwrap();
    assert_eq!((o.ssh_dir.as_str(), o.data_dir.as_deref(), o.from_shim), ("S", Some("D"), true));
    assert_eq!(o.terminal_dir.as_deref(), Some("T"));
    assert!(options(&args(&["--nonsense"]), None, Some("S".into())).is_err());
    assert!(options(&args(&["--ssh-dir"]), None, None).is_err(), "its value is missing");
    assert!(options(&[], None, None).is_err(), "no ssh folder");
    assert!(options(&[], None, Some("S".into())).is_ok());
}

#[test]
fn what_starting_found() {
    let f = Found {
        data: Data::NoDatabase("p".into(), "e".into()),
        kept: Kept::NotWritten("p".into(), "e".into()),
        busy: Some("WORK-PC".into()),
        no_shim: Some("shim".into()),
    };
    let keys: Vec<&str> = data_notices(&f).iter().map(|m| m.key).collect();
    assert_eq!(keys, ["notice-db-unavailable", "notice-settings-not-written", "notice-data-dir-busy", "notice-shim-missing"]);
    assert!(mismatch_notice(None).is_none() && mismatch_notice(Some(Mismatch::WeAreElevated)).is_some());
    assert!(matches!(start(&Served::InUse, true), Start::AlreadyRunning { quiet: true }));
    assert!(matches!(start(&Served::No("x".into()), false), Start::Run(Some(_))));
    assert_eq!(position_parts(" 10 , 20 "), Some(("10".into(), "20".into())));
    assert_eq!(position_parts("10"), None);
}

#[test]
fn the_wizard_s_buttons() {
    let t = tree();
    let keys = vec![("web01".to_string(), "WEB01".to_string()), ("db01".to_string(), "DB01".to_string())];
    assert_eq!(t.wizard(WizardAction::InstallKeys, "S", true), WizardStep::InstallKeys(keys));
    let none = Tree { folders: vec![], hosts: vec![] };
    assert_eq!(none.wizard(WizardAction::InstallKeys, "S", true), WizardStep::Nothing);
    assert!(matches!(t.wizard(WizardAction::CreateKey, "S", true), WizardStep::CreateKey(p) if p.ends_with("id_ed25519")));
    assert_eq!(t.wizard(WizardAction::CreateKey, "S", false), WizardStep::Nothing);
    assert_eq!(t.wizard(WizardAction::Done, "S", false), WizardStep::Close { remember: false });
    assert_eq!(t.wizard(WizardAction::MoveData("D".into()), "S", true), WizardStep::MoveData("D".into()));
    assert!(is_shown(true, false) && !is_shown(true, true));
    assert!(data_movable("program folder") && !data_movable("--data-dir"));
}

#[test]
fn a_typed_host_can_be_saved() {
    let t = tree();
    assert!(t.typed("web01").is_none(), "saved already");
    let target = t.typed("ssh://root@10.0.0.5:2222").unwrap();
    let d = typed_draft(&target);
    assert_eq!((d.label.as_str(), d.hostname.as_str(), d.port), ("10.0.0.5", "10.0.0.5", Some(2222)));
    assert_eq!((d.user.as_deref(), d.identity_files.len(), d.note), (Some("root"), 0, None));
}
