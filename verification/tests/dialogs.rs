use native_term_app::cleanup::{fragment_clicked, fragment_text, saved_entries, Cleanup, CleanupAction, CleanupDialog, Removal};
use native_term_app::commands_import::Imported;
use native_term_app::credential_sets::{names as set_names, usage, Adding, CredentialSetsDialog};
use native_term_app::dialogs::{
    color_scheme_choice, color_text, follow_set, is_custom, persistent_choices, persistent_text, read_port, tab_color_choice, total_size, Chosen,
    ConfirmCloseMixed, ConfirmDelete, ConfirmForget, DropChoice, DropDialog, FolderDialog, HostDialog, HostDraft,
    Outcome, PasswordField, PasswordState, Target,
};
use native_term_app::i18n::{readable, used};
use native_term_app::import::{securecrt_config_path, summary, Notes, Origin, Plan, PlanFolder, Scan, Skip};
use native_term_app::import_dialog::{ImportDialog, ImportOutcome, Scanned, Step};
use native_term_app::message::{Message, Notice};
use native_term_app::options_dialog::{
    category_name, category_note, explicit_list, lines_hint, option_name, switch, Category, OptionsDialog,
    OptionsTarget, ProxyChoice, ProxyKind, ProxySecret, Setting, WrittenProxy,
};
use native_term_app::plink_dialog::{
    backspace_text, checked, choice_of, fields, flow_text, number_typed, option_text, page_titles, parity_text,
    port_hint, ports_text, pressed, protocol_text, shown_log_file, Flow, Pages, Parity, PlinkDialog, PlinkSession,
    Protocol, PuttyOption, PuttyValue,
};

#[test]
fn list_fields() {
    let effective = vec!["aes256-ctr,aes128-ctr".to_string()];
    assert_eq!(explicit_list("", &effective), ["aes256-ctr", "aes128-ctr"]);
    assert_eq!(explicit_list("+3des-cbc", &effective), ["aes256-ctr", "aes128-ctr"]);
    assert_eq!(explicit_list(" chacha20-poly1305@openssh.com , aes256-ctr", &effective).len(), 2);
}

#[test]
fn algorithms_are_switched() {
    let effective = vec!["aes256-ctr,aes128-ctr".to_string()];
    assert_eq!(switch("", &effective, "3des-cbc", true), "aes256-ctr,aes128-ctr,3des-cbc");
    assert_eq!(switch("", &effective, "aes256-ctr", false), "aes128-ctr");
    assert_eq!(switch("aes256-ctr", &effective, "aes128-ctr", true), "aes256-ctr,aes128-ctr");
}

const KEYWORDS: [&str; 37] = [
    "ConnectTimeout", "ServerAliveInterval", "ServerAliveCountMax", "TCPKeepAlive", "Compression",
    "AddressFamily", "RequestTTY", "RemoteCommand", "LogLevel", "PreferredAuthentications",
    "PubkeyAuthentication", "PasswordAuthentication", "KbdInteractiveAuthentication", "IdentitiesOnly",
    "ForwardAgent", "PubkeyAcceptedAlgorithms", "KexAlgorithms", "Ciphers", "MACs", "HostKeyAlgorithms",
    "StrictHostKeyChecking", "UpdateHostKeys", "CheckHostIP", "LocalForward", "RemoteForward",
    "DynamicForward", "ExitOnForwardFailure", "GatewayPorts", "ForwardX11", "ForwardX11Trusted", "SetEnv",
    "SendEnv", "User", "Port", "ProxyJump", "ProxyCommand", "IdentityFile",
];

#[test]
fn every_option_has_a_name() {
    for keyword in KEYWORDS {
        assert_ne!(option_name(keyword), Notice::Plain(keyword.into()), "{keyword}");
    }
}

#[test]
fn options_are_named() {
    assert_ne!(option_name("Compression"), Notice::Plain("Compression".into()));
    assert_eq!(option_name("Nonsense"), Notice::Plain("Nonsense".into()));
    assert_ne!(category_name(Category::Connection), category_name(Category::Algorithms));
    assert_eq!(category_note(Category::Environment), None);
    assert_eq!(category_note(Category::Connection), Some(Message::new("proxy-note")));
    assert!(!lines_hint("LocalForward").is_empty());
}

fn setting(keyword: &str, lines: &[&str]) -> Setting {
    Setting { keyword: keyword.into(), lines: lines.iter().map(|l| l.to_string()).collect() }
}

fn keywords() -> Vec<String> {
    ["LocalForward", "Ciphers", "ProxyCommand"].iter().map(|k| k.to_string()).collect()
}

fn lines_of<'a>(values: &'a [Setting], keyword: &str) -> &'a [String] {
    &values.iter().find(|v| v.keyword == keyword).unwrap().lines
}

#[test]
fn proxy_as_type_and_address() {
    let host = || OptionsTarget::Host("web".into());
    let written = setting("ProxyCommand", &["shim --proxy http://squid:3128 %h %p"]);
    let values = [setting("LocalForward", &[]), setting("Ciphers", &[]), written];
    let parsed = WrittenProxy { kind: ProxyKind::Http, address: "squid:3128".into(), user: None };
    let mut dialog = OptionsDialog::new(host(), "Web", &keywords(), &values, Some(parsed), Vec::new());
    assert_eq!(dialog.proxy, ProxyChoice::Kind(ProxyKind::Http));
    assert_eq!(dialog.proxy_address, "squid:3128");
    // another type: the command that is made of it is written
    dialog.proxy = ProxyChoice::Kind(ProxyKind::Socks5);
    dialog.proxy_address = "gw".into();
    let command = "shim --proxy socks5://gw:1080 %h %p".to_string();
    assert_eq!(lines_of(&dialog.values(Some(command.clone())), "ProxyCommand"), [command]);
    assert!(dialog.proxy_error(Some("no host".into())).is_some());
    dialog.proxy = ProxyChoice::Default;
    assert!(lines_of(&dialog.values(None), "ProxyCommand").is_empty());
    let parsed = WrittenProxy { kind: ProxyKind::Http, address: "squid:3128".into(), user: Some("alice".into()) };
    let dialog = OptionsDialog::new(host(), "Web", &keywords(), &values, Some(parsed), Vec::new());
    assert_eq!(dialog.proxy_user, "alice");
    // someone else's command is kept as it is
    let values = [setting("ProxyCommand", &["connect -S gw:1080 %h %p"])];
    let dialog = OptionsDialog::new(host(), "Web", &keywords(), &values, None, Vec::new());
    assert_eq!(dialog.proxy, ProxyChoice::Other);
    assert_eq!(lines_of(&dialog.values(None), "ProxyCommand"), ["connect -S gw:1080 %h %p"]);
}

#[test]
fn values_round_trip() {
    let values =
        [setting("LocalForward", &["1 a:1", "2 b:2"]), setting("Ciphers", &["aes256-ctr"]), setting("ProxyCommand", &[])];
    let dialog = OptionsDialog::new(OptionsTarget::Host("web".into()), "Web", &keywords(), &values, None, Vec::new());
    let after = dialog.values(None);
    for v in &values {
        assert_eq!(lines_of(&after, &v.keyword), v.lines);
    }
    assert_eq!(after.len(), values.len());
}

#[test]
fn a_proxy_password_follows_its_entry() {
    let mut s = ProxySecret { entry: None, saved: false, refused: false, typed: "x".into(), message: None };
    assert!(s.outdated(&Some("e".into())));
    s.follow(Some("e".into()), Some("refused".into()), "refused");
    assert!(s.saved && s.refused && !s.outdated(&Some("e".into())));
    s.changed(false, None);
    assert!(!s.saved);
    s.changed(true, Some("no".into()));
    assert!(s.message.is_some());
}

fn option(key: &str, default: PuttyValue) -> PuttyOption {
    PuttyOption { key: key.into(), default }
}

fn pages() -> Pages {
    Pages {
        line: vec![option("LocalEcho", PuttyValue::Number(2))],
        connection: vec![option("TCPNoDelay", PuttyValue::Number(1)), option("PingIntervalSecs", PuttyValue::Number(0))],
        telnet: vec![option("PassiveTelnet", PuttyValue::Number(0))],
        supdup: vec![option("SUPDUPMoreProcessing", PuttyValue::Number(0))],
        log_type: option("LogType", PuttyValue::Number(0)),
        log_file: option("LogFileName", PuttyValue::Text(String::new())),
    }
}

fn plink() -> PlinkDialog {
    PlinkDialog::new_session("lab.conf".into(), "Lab", &[])
}

#[test]
fn fields_become_a_session() {
    let mut d = plink();
    d.label = "核心交换机".into();
    d.host = "10.0.0.1".into();
    d.charset = "GBK".into();
    let s = d.session("core-sw", &pages()).unwrap();
    assert_eq!(
        (s.protocol, s.host.as_deref(), s.port, s.charset.as_deref()),
        (Protocol::Telnet, Some("10.0.0.1"), None, Some("GBK"))
    );
    assert_eq!(d.name_base(), "核心交换机");

    d.protocol = Protocol::Serial;
    d.line = "com7".into();
    d.speed = "115200".into();
    let s = d.session("console", &pages()).unwrap();
    assert_eq!(s.host, None, "a serial session has no host");
    let serial = s.serial.unwrap();
    assert_eq!((serial.line.as_str(), serial.speed, serial.data_bits), ("COM7", 115200, 8));
    assert_eq!((serial.parity, serial.stop_bits.as_str(), serial.flow), (Parity::Off, "1", Flow::XonXoff));

    d.speed = "fast".into();
    let wrong = Message::new("plink-bad-speed").text("speed", "fast");
    assert_eq!(d.session("console", &pages()), Err(wrong));
    d.protocol = Protocol::Raw;
    assert!(d.session("r", &pages()).is_err(), "raw needs a port");
    d.port = "4001".into();
    assert!(d.session("r", &pages()).is_ok());
}

#[test]
fn a_session_is_checked_field_by_field_and_as_a_whole() {
    let mut d = plink();
    d.host = "10.0.0.1".into();
    d.protocol = Protocol::Raw;
    assert_eq!(d.session("r", &pages()), Err(Message::new("plink-no-port")));
    d.port = "99999".into();
    let wrong = Message::new("host-bad-port").text("port", "99999");
    assert_eq!(d.session("r", &pages()), Err(wrong.clone()));
    assert_eq!(checked(d.session("r", &pages()), Ok(())), Err(Notice::Said(wrong)));
    d.port = "4001".into();
    let s = d.session("r", &pages()).unwrap();
    assert_eq!(s.port, Some(4001));
    assert_eq!(checked(Ok(s.clone()), Ok(())), Ok(s.clone()));
    assert_eq!(checked(Ok(s), Err("no".into())), Err(Notice::Plain("no".into())));
}

#[test]
fn a_protocol_has_its_fields() {
    let shown = |p: Protocol| {
        let f = fields(p);
        (f.serial, f.host, f.user)
    };
    assert_eq!(shown(Protocol::Serial), (true, false, false));
    assert_eq!(shown(Protocol::Telnet), (false, true, true));
    assert_eq!(shown(Protocol::Rlogin), (false, true, true));
    assert_eq!((shown(Protocol::Raw), shown(Protocol::Supdup)), ((false, true, false), (false, true, false)));
    assert_eq!(port_hint(Some(23)), Notice::Plain("23".into()));
    assert_eq!(port_hint(None), Notice::Said(Message::new("plink-port-needed")));
    assert_eq!(ports_text(&[]), Message::new("plink-no-ports"));
    assert_eq!(ports_text(&["COM3".to_string()]), Message::new("plink-ports"));
    assert_eq!(page_titles(Protocol::Serial), [Notice::Said(Message::new("putty-page-line"))]);
    assert_eq!(page_titles(Protocol::Raw).len(), 2);
    assert_eq!(page_titles(Protocol::Telnet)[2], Notice::Plain("Telnet".into()));
    assert_eq!(page_titles(Protocol::Supdup)[2], Notice::Plain("SUPDUP".into()));
    assert_eq!(pressed(false, false, true), Outcome::Open);
    assert_eq!(pressed(true, false, true), Outcome::Submit(()));
    assert_eq!((pressed(true, true, true), pressed(true, false, false)), (Outcome::Cancel, Outcome::Cancel));
}

#[test]
fn putty_options_follow_the_protocol() {
    let (mut d, p) = (plink(), pages());
    d.host = "h".into();
    d.set_option(&p.telnet[0], PuttyValue::Number(1));
    d.set_option(&p.connection[1], PuttyValue::Number(30));
    let s = d.session("sw", &p).unwrap();
    assert_eq!(s.putty.len(), 2, "{:?}", s.putty);
    d.protocol = Protocol::Raw;
    d.port = "4001".into();
    let s = d.session("sw", &p).unwrap();
    let keys: Vec<&str> = s.putty.iter().map(|(k, _)| k.as_str()).collect();
    assert_eq!(keys, ["PingIntervalSecs"], "the Telnet page doesn't apply to raw");
}

#[test]
fn a_log_needs_a_type_and_a_file() {
    let (mut d, p) = (plink(), pages());
    d.host = "h".into();
    assert!(d.session("sw", &p).unwrap().putty.is_empty(), "no log by default");
    d.set_option(&p.log_type, PuttyValue::Number(1));
    assert!(d.session("sw", &p).unwrap().putty.is_empty(), "no file: not logged");
    let file = shown_log_file(1, "", r"D:\NT\logs\&H-&Y&M&D.log");
    d.set_option(&p.log_file, PuttyValue::Text(file));
    let s = d.session("sw", &p).unwrap();
    assert_eq!(s.log_file(&p).as_deref(), Some(r"D:\NT\logs\&H-&Y&M&D.log"));
    d.protocol = Protocol::Serial;
    d.line = "COM3".into();
    assert!(d.session("console", &p).unwrap().log_file(&p).is_some(), "every protocol");
    d.set_option(&p.log_type, PuttyValue::Number(0));
    assert!(d.session("console", &p).unwrap().putty.is_empty(), "off: the file goes too");
}

#[test]
fn editing_keeps_what_the_dialog_does_not_show() {
    let mut before = plink().session("sw", &pages()).unwrap();
    before.host = Some("h".into());
    before.favorite = true;
    before.putty = vec![("PassiveTelnet".to_string(), PuttyValue::Number(1))];
    before.id = Some("id-1".into());
    let d = PlinkDialog::edit(before, "sw", &[]);
    let s: PlinkSession = d.session("sw", &pages()).unwrap();
    assert!(s.favorite);
    assert_eq!(s.id.as_deref(), Some("id-1"));
    assert_eq!(s.putty.len(), 1);
    assert_eq!(s.charset, None, "UTF-8 is the default");
}

#[test]
fn plink_texts() {
    assert_eq!(protocol_text(Protocol::Telnet), Notice::Plain("Telnet".into()));
    assert_ne!(parity_text(Parity::Odd), parity_text(Parity::Even));
    assert_ne!(flow_text(Flow::RtsCts), flow_text(Flow::DsrDtr));
    assert_eq!(option_text("LocalEcho"), Notice::Said(Message::new("putty-localecho")));
    assert_eq!(option_text("Else"), Notice::Plain("Else".into()));
    assert_eq!(backspace_text(Some("^?")), Message::new("backspace-delete"));
    assert_eq!(backspace_text(None), Message::new("backspace-control-h"));
    assert_eq!((choice_of(&PuttyValue::Number(1), 2, 0), choice_of(&PuttyValue::Number(9), 2, 0)), (1, 0));
    let o = option("PingIntervalSecs", PuttyValue::Number(7));
    assert_eq!(number_typed("12", &o), Some(PuttyValue::Number(12)));
    assert_eq!(number_typed(" ", &o), Some(PuttyValue::Number(7)));
    assert_eq!(number_typed("x", &o), None);
}

fn draft() -> HostDraft {
    HostDraft {
        label: "Web".into(),
        hostname: "10.0.0.5".into(),
        user: Some("root".into()),
        port: Some(2222),
        proxy_jump: None,
        identity_files: vec!["~/.ssh/a".into(), "~/.ssh/b".into()],
        note: None,
        on_login: Some("uptime".into()),
        persistent: None,
        tab_color: Some("red".into()),
        color_scheme: None,
        credential: Some("ops".into()),
    }
}

#[test]
fn saving_unchanged_keeps_the_host() {
    assert_eq!(HostDialog::edit("web01", &draft()).draft(true), Ok(draft()));
    let d = HostDialog::new_host_from("a.conf".into(), "Lab", &draft());
    assert_eq!((d.alias.is_none(), d.file.as_deref()), (true, Some("a.conf")));
}

#[test]
fn a_host_needs_a_name_and_a_port_in_range() {
    let mut d = HostDialog::new_host("a.conf".into(), "Lab");
    assert!(!d.ready());
    d.hostname = " h ".into();
    d.port = "0x".into();
    assert!(d.ready());
    assert_eq!(d.submit(true), Outcome::Open);
    assert_eq!(d.error, Some(Message::new("host-bad-port").text("port", "0x")));
    d.port = " 22 ".into();
    assert!(matches!(d.submit(true), Outcome::Submit(x) if x.hostname == "h" && x.port == Some(22)));
    d.new_set = Some("a/b".into());
    assert_eq!(d.draft(false), Err(Message::new("cred-sets-bad-name")));
    assert_eq!(read_port(""), Ok(None));
    assert!(read_port("65536").is_err());
}

#[test]
fn the_set_a_host_uses() {
    let d = HostDialog::new_host("a.conf".into(), "Lab").with_credentials(Some("team".into()), true, vec!["ops".into()]);
    assert_eq!(d.chosen_set(true).as_deref(), Some("team"), "the folder's");
    let mut d = d;
    d.credential = Some("None".into());
    assert_eq!(d.chosen_set(true), None);
    d.new_set = Some(" mine ".into());
    assert_eq!(d.asked_set().as_deref(), Some("mine"));
    assert_eq!(d.chosen_set(false), None);
    let d = d.with_folder_look(Some("red".into()), None).with_folder_default(Some("tmux".into()));
    assert_eq!((d.folder_color.as_deref(), d.folder_persistent.as_deref()), (Some("red"), Some("tmux")));
}

#[test]
fn a_password_is_taken_out_of_its_field() {
    let t = Target { name: "t".into(), user: "root".into(), host: "h".into(), set: None };
    let mut f = PasswordField::new(t, Some("refused".into()), "refused");
    assert_eq!(f.state, PasswordState::Refused);
    assert_eq!(f.status(), (Message::new("password-refused"), true));
    assert!(!f.can_save() && f.can_remove());
    f.typed = "secret".into();
    assert!(f.can_save());
    assert_eq!(f.take(), ("root".to_string(), "secret".to_string()));
    assert!(f.typed.is_empty());
    f.stored(None);
    assert_eq!(f.state, PasswordState::Saved);
    assert_eq!(f.title(), f.title());
    f.removed(Some("no".into()));
    assert_eq!((f.state, f.message), (PasswordState::Saved, Some(Notice::Plain("no".into()))));
}

#[test]
fn looks_of_a_tab() {
    assert_eq!(tab_color_choice(&None), Chosen::Folder);
    assert_eq!(tab_color_choice(&Some("none".into())), Chosen::Nothing);
    assert_eq!(tab_color_choice(&Some("#112233".into())), Chosen::Custom);
    assert_eq!(color_scheme_choice(&Some("Dark".into())), Chosen::Named("Dark".into()));
    assert!(is_custom(&Some("#1".into())) && !is_custom(&Some("red".into())));
    let presets = ["red".to_string(), "purple".to_string()];
    assert_eq!(color_text("RED", &presets), Notice::Said(Message::new("color-red")));
    assert_eq!(color_text("purple", &presets), Notice::Said(Message::new("color-purple")));
    assert_eq!(color_text("#C0392B", &presets), Notice::Plain("#C0392B".into()));
    assert_eq!(persistent_text(&Some("TMUX".into()), false), Notice::Plain("tmux".into()));
}

#[test]
fn choices_of_a_host() {
    let said = |key: &'static str| Notice::Said(Message::new(key));
    let all = persistent_choices("off", "tmux -log");
    let values: Vec<Option<&str>> = all.iter().map(|o| o.value.as_deref()).collect();
    assert_eq!(values, [None, Some("tmux"), Some("tmux -log"), Some("screen"), Some("off")]);
    assert_eq!(all[0].text, Notice::Said(Message::new("persistent-folder").text("value", "off")));
    assert_eq!((&all[1].text, &all[2].text), (&Notice::Plain("tmux".into()), &said("persistent-tmux-log")));
    assert_eq!(all[4].text, said("persistent-off"));

    let mut d = HostDialog::new_host("a.conf".into(), "Lab").with_credentials(None, true, vec!["ops".into()]);
    let sets = d.credential_choices("team");
    let folder = Notice::Said(Message::new("credential-folder").text("value", "team"));
    assert_eq!((sets.len(), &sets[0].text, &sets[1].text), (3, &folder, &said("credential-none")));
    assert_eq!((sets[2].value.as_deref(), &sets[2].text), (Some("ops"), &Notice::Plain("ops".into())));
    assert_eq!(d.credential_choice("team"), folder);
    d.pick_new_set();
    assert_eq!(d.credential_choice("team"), said("credential-new"));
    d.pick_credential(Some("None".into()));
    assert_eq!((d.credential_choice("team"), d.new_set.is_none()), (said("credential-none"), true));
    d.pick_credential(Some("ops".into()));
    assert_eq!(d.credential_choice("team"), Notice::Plain("ops".into()));
}

#[test]
fn small_dialogs() {
    let mut f = FolderDialog::new_folder();
    assert!(matches!(f.submit(), Outcome::Open), "no name");
    f.name = " Lab ".into();
    assert_eq!(f.submit(), Outcome::Submit("Lab".into()));
    assert_eq!(FolderDialog::rename("a.conf".into(), "Lab").name, "Lab");
    let c = ConfirmCloseMixed::new(vec!["a".into(), "b".into()], vec![("Web".into(), true), ("Db".into(), false)]);
    assert_eq!(c.question(), Message::new("close-mixed-what").number("count", 2).number("mixed", 1));
    let d = ConfirmDelete::new("web01", "Web");
    assert_eq!((d.alias.as_str(), d.error.is_none()), ("web01", true));
    assert_ne!(d.question(), ConfirmForget::new("web01", vec!["h".into()]).question());
    let drop = DropDialog {
        alias: "web01".into(), session: "s".into(), label: "Web".into(), paths: vec!["a".into()],
        text: "a".into(), remember: true, can_upload: true,
    };
    assert_eq!(drop.submit(DropChoice::Text), Outcome::Submit((DropChoice::Text, true)));
    assert_eq!(total_size(&[1, 2, 3]), 6);
}

#[test]
fn what_is_left_behind_is_listed_and_removed() {
    let mut c = Cleanup {
        traces: vec![], data_dir: "D".into(), credentials: vec!["a".into(), "b".into()],
        registry: Some("v".into()), done: vec![], confirming: None,
    };
    assert_eq!(saved_entries(&["b".to_string(), "a".to_string(), "b".to_string()]), ["a", "b"]);
    assert_eq!(c.as_text().len(), 6);
    assert!(!c.clicked(Removal::Credentials), "asked first");
    assert!(c.clicked(Removal::Credentials));
    c.credentials_gone(1, vec!["b".into()], &["b".to_string()]);
    assert_eq!(c.credentials, ["b"]);
    c.registry_gone(None);
    assert_eq!(c.registry, None);
    let d = CleanupDialog::new(c);
    assert!(d.message.is_none());
    assert_eq!(fragment_clicked(true), Some(CleanupAction::RemoveFragment));
    assert_eq!(fragment_clicked(false), None);
    assert_ne!(fragment_text(true), fragment_text(false));
}

#[test]
fn sets_of_credentials() {
    assert_eq!(set_names(&["nt:ops".to_string(), "other".to_string()], "nt:"), ["ops"]);
    let u = usage(&[Some("ops".into()), None, Some("ops".into()), Some("gone".into())]);
    assert_eq!((u.of("ops"), u.of("x")), (2, 0));
    let mut d = CredentialSetsDialog {
        rows: vec![], used: u, missing: vec![], new_name: " new ".into(), new_password: "p".into(), removing: None, message: None,
    };
    d.refresh(&[("ops".to_string(), true)]);
    assert_eq!(d.missing, ["gone"], "used and not there");
    assert!(d.rows[0].refused);
    assert!(!d.remove_clicked("ops") && d.remove_clicked("ops"), "twice");
    assert!(matches!(d.adding(true), Adding::Store(n, p) if n == "new" && p == "p"));
    assert!(matches!(d.adding(true), Adding::NotReady));
    d.added("new", Some("no".into()));
    assert_eq!((d.new_name.as_str(), d.message.clone()), (" new ", Some((Notice::Plain("no".into()), true))));
    d.added("new", None);
    let done = Notice::Said(Message::new("cred-sets-added").text("name", "new"));
    assert_eq!((d.new_name.as_str(), d.message.clone()), ("", Some((done, false))));
    d.tell("cred-sets-saved", "ops", None);
    assert!(d.message.is_some());
}

#[test]
fn languages_need_a_font() {
    assert!(!readable(&["zh".to_string()], false) && readable(&["zh".to_string()], true));
    assert!(readable(&["de".to_string()], false) && readable(&[], false));
    assert_eq!(used(Some("zh".into()), false, "en").as_deref(), Some("en"));
    assert_eq!(used(None, true, "en"), None);
}

fn plan() -> Plan {
    let notes = Notes {
        duplicates: vec![], named_firewalls: vec![], unresolved_jumps: vec![], logon_actions: vec![], saved_passwords: 2,
        encodings: vec![], bad_forwards: vec![], forwards: 0, identity_files: 0, ppk_keys: vec![], joined_descriptions: 0,
    };
    let skipped = vec![
        ("a".to_string(), Skip::NoHostname), ("b".to_string(), Skip::Protocol("RDP".into())), ("c".to_string(), Skip::NoHostname),
    ];
    Plan { folders: vec![PlanFolder { label: "Lab".into(), existing: false, sessions: 3 }], hosts: 3, skipped, notes }
}

fn scan() -> Scan {
    Scan {
        origin: Origin::SecureCrt, sessions: 6, folders: 1, unreadable: vec![], not_utf8: vec![], host_keys: 0, not_understood: 0,
    }
}

#[test]
fn skipped_sessions_are_listed_by_reason() {
    let reasons: Vec<String> = ["no host", "RDP", "no host"].iter().map(|r| r.to_string()).collect();
    let lines = summary(&scan(), &plan(), &reasons);
    let shown: Vec<&str> = lines.iter().flat_map(|l| l.details.iter().map(|d| d.text.as_str())).collect();
    for name in ["a", "b", "c"] {
        assert_eq!(shown.iter().filter(|t| **t == name).count(), 1, "{shown:?}");
    }
    assert_eq!(Skip::NoHostname.reason().1, Message::new("skip-no-hostname"));
    assert_eq!(securecrt_config_path(Some("X".into()), None, true).as_deref(), Some("X"));
    assert_eq!(securecrt_config_path(None, Some("R".into()), false), None);
}

#[test]
fn an_import_goes_step_by_step() {
    let mut d = ImportDialog::new(Some("C:\\crt".into()));
    assert!(d.can_preview() && d.editable());
    assert_eq!(d.preview(), "C:\\crt");
    assert!(matches!(d.step, Step::Scanning) && d.run_button().is_none());
    d.scan_lost();
    assert!(matches!(d.step, Step::Choose));
    d.preview();
    let reasons = vec!["x".to_string(); 3];
    let none: Vec<Imported> = Vec::new();
    d.scanned(Ok(Scanned { scan: scan(), plan: plan(), has_keys: false, reasons, button_lines: vec![], commands: none }));
    assert_eq!(d.run_button(), Some((Message::new("import-run").number("count", 3), true)));
    let (p, _) = d.start().unwrap();
    assert_eq!(p.hosts, 3);
    assert!(matches!(d.close(), Outcome::Open), "running");
    let outcome = ImportOutcome { hosts: 3, written: 1, keys_added: 0, keys_failed: None, failed: vec![] };
    d.finished(Ok(outcome), None);
    assert!(matches!(d.close(), Outcome::Submit(())), "the tree is read again");
    let mut d = ImportDialog::putty("P".into());
    d.finished(Err("disk".into()), None);
    assert!(matches!(d.close(), Outcome::Cancel));
    assert_eq!(d.titles().0, Message::new("import-title-putty"));
}

#[test]
fn the_password_field_follows_the_set() {
    let account = Target { name: "t".into(), user: "root".into(), host: "h".into(), set: None };
    let t = follow_set(&account, &None, Some("ops".into()), "nt:ops").unwrap();
    assert_eq!((t.name.as_str(), t.user.as_str(), t.set.as_deref()), ("nt:ops", "root", Some("ops")));
    let shown = Some(PasswordField::new(t, None, "refused"));
    assert_eq!(follow_set(&account, &shown, Some("ops".into()), "nt:ops"), None, "shown already");
    assert_eq!(follow_set(&account, &shown, None, ""), Some(account.clone()));
}
