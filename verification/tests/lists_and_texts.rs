use native_term_app::commands::{lines, merge, Command, Library};
use native_term_app::commands_import::{add, scan, Button, Converted, Why};
use native_term_app::data_lock::{ours, parse as parse_holder, BOM};
use native_term_app::dates::{days_between, utc};
use native_term_app::diag;
use native_term_app::fab::{matches as host_matches, no_group_send, on_enter, panel_step, HostEntry, PanelStep};
use native_term_app::fuzzy::{score, score_word};
use native_term_app::import::Line;
use native_term_app::key_dialog::{batches, public_keys, KeyDialog};
use native_term_app::message::{Message, Notice};
use native_term_app::notes::{merge as merge_notes, writes_file, Notes};
use native_term_app::quick::{from_destination, parse, QuickTarget};
use native_term_app::registry::{oldest_restorable, upgrade, Note, Step};

fn list(items: &[&str]) -> Vec<String> {
    items.iter().map(|s| s.to_string()).collect()
}

fn command(name: &str, text: &str, group: &str) -> Command {
    Command { name: name.into(), text: text.into(), enter: true, group: Some(group.into()) }
}

#[test]
fn merging_imported_commands() {
    let mut library = Library::new("commands.toml".into(), Vec::new());
    library.put(command("uptime", "uptime", "mine"));
    library.put(command("disk", "df -h", "mine"));
    let merged = merge(
        &mut library,
        vec![
            command("uptime", "uptime", "Cisco"),
            command("disk", "df -hT", "Linux"),
            command("ip br", "sh ip int br", "Cisco"),
            command("disk", "df -hT", "Linux"),
        ],
    );
    assert_eq!(merged.added, 2);
    assert_eq!(merged.present, 2, "the same uptime, and the second disk once renamed");
    assert_eq!(merged.renamed, [("disk".to_string(), "disk (Linux)".to_string())]);
    let names: Vec<&str> = library.commands.iter().map(|c| c.name.as_str()).collect();
    assert_eq!(names, ["uptime", "disk", "disk (Linux)", "ip br"]);
}

#[test]
fn merging_keeps_names_apart() {
    let mut library = Library::new("c".into(), Vec::new());
    library.put(command("a", "0", "mine"));
    library.put(command("a (x)", "0", "mine"));
    let merged = merge(&mut library, vec![command("a", "1", "x"), command("b", "2", "x"), command("a", "0", "y")]);
    assert_eq!((merged.added, merged.present, merged.renamed.len()), (2, 1, 1));
    assert_eq!(library.commands.len(), 4);
    for (i, c) in library.commands.iter().enumerate() {
        assert!(library.commands[..i].iter().all(|d| d.name != c.name), "{}", c.name);
    }
}

#[test]
fn merging_again_adds_nothing() {
    let mut library = Library::new("c".into(), Vec::new());
    let incoming = || vec![command("a", "1", "x"), command("a", "2", "y")];
    assert_eq!(merge(&mut library, incoming()).added, 2);
    let again = merge(&mut library, incoming());
    assert_eq!((again.added, again.present), (0, 2));
    assert_eq!(library.commands.len(), 2);
}

#[test]
fn a_command_put_twice_is_replaced_and_can_be_removed() {
    let mut library = Library::new(Library::path_in("/data"), Vec::new());
    assert_eq!(library.path, "/data/commands.toml");
    library.put(command("df", "df -h", "g"));
    library.put(command("root", "sudo -i", "g"));
    library.put(command("df", "df -hT", "g"));
    assert_eq!(library.commands.len(), 2);
    assert!(library.commands.iter().any(|c| c.name == "df" && c.text == "df -hT"));
    library.remove("df");
    assert_eq!(library.commands.len(), 1);
    library.remove("df");
    assert_eq!(library.commands[0].name, "root");
}

#[test]
fn splitting() {
    assert_eq!(lines("uptime", true), [("uptime".to_string(), true)]);
    assert_eq!(lines("cd /srv\r\nls\n", true), [("cd /srv".to_string(), true), ("ls".to_string(), true)]);
    assert_eq!(lines("a\n\nb", false), [("a".into(), true), ("".into(), true), ("b".into(), false)]);
    assert_eq!(lines("", true), [(String::new(), true)]);
    assert!(lines("", false).is_empty());
}

#[test]
fn button_bars_into_the_library() {
    let button = |bar: &str, label: &str, converted: Converted| Button {
        bar: bar.into(),
        label: label.into(),
        converted,
    };
    let buttons = [
        button("Cisco", "ip br", Converted::Command { text: "show ip interface brief".into(), enter: true }),
        button("Cisco", "enable", Converted::Skipped(Why::Substitution('p'))),
        button("Linux", "disk", Converted::Command { text: "df -h".into(), enter: true }),
        button("Linux", "clone", Converted::Skipped(Why::Function("MENU_TAB_CLONE".into()))),
    ];
    let mut said: Vec<Line> = Vec::new();
    let imported = scan(&buttons, "ButtonBarV5.ini", &mut said);
    let names: Vec<&str> = imported.iter().map(|i| i.command.name.as_str()).collect();
    assert_eq!(names, ["ip br", "disk"]);
    assert_eq!(said.len(), 2, "found, and left out");
    assert_eq!(said[1].details.len(), 2, "enable (a pause) and clone (a menu function)");
    assert!(!said[1].details.iter().any(|d| d.text.contains("PASSWORD")), "the reason, not the text");

    let mut library = Library::new(
        "commands.toml".into(),
        vec![Command { name: "disk".into(), text: "df -hT".into(), enter: true, group: None }],
    );
    let (save, _) = add(&mut library, imported);
    assert!(save);
    let names: Vec<(&str, Option<&str>)> =
        library.commands.iter().map(|c| (c.name.as_str(), c.group.as_deref())).collect();
    assert_eq!(names, [("disk", None), ("ip br", Some("Cisco")), ("disk (Linux)", Some("Linux"))]);
    // again: nothing new
    let imported = scan(&buttons, "ButtonBarV5.ini", &mut said);
    let (save, _) = add(&mut library, imported);
    assert!(!save);
    assert_eq!(library.commands.len(), 3);
}

#[test]
fn a_file_written_by_an_editor_still_reads() {
    let text = format!("{BOM}machine = \"WORK-PC\"\r\nuser = \"someone\"\r\n");
    assert_eq!(parse_holder(&text).machine, "WORK-PC");
}

#[test]
fn a_holder_is_named_by_whatever_it_said() {
    let holder = parse_holder("machine = \"WORK-PC\"\nuser = \"simon\"\npid = 42\nsince = \"2026-09-21 10:00:00\"\n");
    assert_eq!(holder.pid, "42");
    assert_eq!(holder.describe(), Notice::Plain("WORK-PC (simon), 2026-09-21 10:00:00".into()));
    assert_eq!(parse_holder("").describe(), Notice::Said(Message::new("data-lock-unknown")));
    assert_eq!(parse_holder("machine = \"WORK-PC\"").describe(), Notice::Plain("WORK-PC".into()));
}

#[test]
fn what_the_lock_says_reads_back() {
    let text = ours("WORK-PC", "simon", 42, "2026-09-21", "10:00:00");
    let holder = parse_holder(&text);
    assert_eq!((holder.machine.as_str(), holder.user.as_str()), ("WORK-PC", "simon"));
    assert_eq!((holder.pid.as_str(), holder.since.as_str()), ("42", "2026-09-21 10:00:00"));
    // a quote is written as it is escaped
    assert!(ours("A\"B", "u", 1, "d", "t").contains("\"A\\\"B\""));
}

#[test]
fn a_log_line_stays_one_line() {
    assert_eq!(diag::file_for("2026-09-21"), "nativeterm-2026-09-21.log");
    let text = diag::line("2026-09-21", "10:00:00", "two\r\nlines");
    assert_eq!(text.lines().count(), 1, "{text}");
    assert!(text.starts_with("2026-09-21 10:00:00"), "{text}");
    assert!(text.trim_end().ends_with("two lines"), "{text}");
    assert!(diag::has_room(0) && !diag::has_room(u64::MAX));
}

#[test]
fn old_files_go_and_recent_ones_stay() {
    let names: Vec<String> = ["2026-09-01", "2026-09-20", "2026-09-21"]
        .iter()
        .map(|d| diag::file_for(d))
        .chain(list(&["commands-2026-01.log", "nativeterm-notes.log"]))
        .collect();
    let stale = diag::stale(&names, "2026-09-21");
    assert_eq!(stale, ["nativeterm-2026-09-01.log"]);
    let left: Vec<&String> = names.iter().filter(|n| !stale.contains(n)).collect();
    assert!(!left.contains(&&"nativeterm-2026-09-01.log".to_string()), "{left:?}");
    assert_eq!(left.len(), 4, "{left:?}");
}

#[test]
fn dates_are_counted_across_months_and_years() {
    assert_eq!(days_between("2026-09-01", "2026-09-21"), Some(20));
    assert_eq!(days_between("2025-12-31", "2026-01-01"), Some(1));
    assert_eq!(days_between("2024-02-28", "2024-03-01"), Some(2), "a leap year");
    assert_eq!(days_between("2026-09-21", "2026-09-01"), Some(-20));
    assert_eq!(days_between("nativeterm", "2026-09-21"), None);
    assert_eq!(days_between("2026-13-01", "2026-09-21"), None);
    assert_eq!(days_between("2026-02-31", "2026-03-01"), None, "no such day");
    assert_eq!(days_between("2025-02-29", "2025-03-01"), None, "no leap year");
    assert_eq!(days_between("2000-02-29", "2000-03-01"), Some(1));
}

#[test]
fn utc_dates() {
    assert_eq!(utc(0), ("1970-01-01".to_string(), "00:00:00".to_string()));
    assert_eq!(utc(1_789_000_000), ("2026-09-10".to_string(), "00:26:40".to_string()));
    assert_eq!(utc(951_782_400).0, "2000-02-29");
}

#[test]
fn the_last_second_of_a_day() {
    assert_eq!(utc(86_399), ("1970-01-01".to_string(), "23:59:59".to_string()));
    assert_eq!(days_between(&utc(0).0, &utc(86_400).0), Some(1));
}

fn host(alias: &str, label: &str, folder: &str) -> HostEntry {
    HostEntry {
        alias: alias.into(),
        label: label.into(),
        hostname: format!("{alias}.example"),
        folder: folder.into(),
        on_login: None,
        no_group_send: false,
    }
}

#[test]
fn hosts_left_out_of_a_group_send_come_from_the_host_list() {
    let mut quiet = host("db01", "数据库", "生产");
    quiet.no_group_send = true;
    let left_out = no_group_send(&[host("web01", "web01", "生产"), quiet]);
    assert!(left_out.contains(&"db01".to_string()) && !left_out.contains(&"web01".to_string()));
    assert!(no_group_send(&[]).is_empty());
}

#[test]
fn host_search() {
    let hosts = [host("web01", "web01", "生产"), host("db01", "数据库", "生产"), host("lab", "lab", "")];
    assert!(host_matches(&hosts, "").is_empty());
    assert_eq!(host_matches(&hosts, "db")[0].alias, "db01");
    assert_eq!(host_matches(&hosts, "生产").len(), 2, "by folder");
    assert!(host_matches(&hosts, "zzz").is_empty());
}

#[test]
fn enter_opens_what_was_typed_or_the_first_host() {
    let hosts = [host("web01", "web", "")];
    let typed = parse("root@10.0.0.5");
    assert_eq!(on_enter(&hosts, &None).unwrap().alias, "web01");
    let request = on_enter(&[], &typed).unwrap();
    assert_eq!(request.alias, "root@10.0.0.5");
    assert!(on_enter(&[], &None).is_none());
    assert_eq!(panel_step(true, false, false), PanelStep::Stay(true));
    assert_eq!(panel_step(true, true, true), PanelStep::Collapse);
}

#[test]
fn subsequence_and_ranking() {
    assert!(score_word("osd", "ceph-osd1").is_some());
    assert!(score_word("cph1", "ceph-osd1").is_some());
    assert!(score_word("xyz", "ceph-osd1").is_none());
    assert!(score_word("OSD", "ceph-osd1").is_some(), "case-insensitive");
    assert!(score_word("生产", "osd 1 (生产)").is_some());
    // substring beats scattered; word start beats middle
    assert!(score_word("web", "web01").unwrap() > score_word("web", "w-e-b").unwrap());
    assert!(score_word("osd", "osd1").unwrap() > score_word("osd", "ceph-osd1").unwrap());
    assert!(score_word("osd", "ceph-osd1").unwrap() > score_word("osd", "cephosd1").unwrap());
}

#[test]
fn all_words_must_match() {
    let fields = ["osd 1", "ceph.osd-1", "10.32.16.70", "ops"];
    assert!(score("osd 16.70", &fields).is_some());
    assert!(score("osd root", &fields).is_none());
    assert!(score("", &fields) == Some(0));
    // a label hit counts more than the same hit in another field
    assert!(score("osd", &["osd", "x"]).unwrap() > score("osd", &["x", "osd"]).unwrap());
}

#[test]
fn scores_add_up_in_any_order() {
    let fields = ["osd 1", "ceph.osd-1", "10.32.16.70", "ops"];
    let all = score("osd 16.70", &fields);
    assert_eq!(all, score("16.70 osd", &fields));
    assert_eq!(all.unwrap(), score("osd", &fields).unwrap() + score("16.70", &fields).unwrap());
    let here = score_word("osd", "osd 1").unwrap();
    assert_eq!(score("osd", &["osd 1"]), Some(2 * here as i128));
    assert_eq!(score("osd", &["x", "osd 1"]), Some(here as i128));
}

#[test]
fn a_word_as_it_is_beats_one_that_is_scattered() {
    let long = format!("{}osd", "-".repeat(90));
    assert_eq!(score_word("osd", &long), Some(1000 + 50 - 90 - 93 / 8));
    assert!(score_word("osd", &long).unwrap() > score_word("osd", "o s d").unwrap());
    assert_eq!(score_word("osd", "o s d"), Some(20 + 20 + 20));
}

#[test]
fn usual_keys_first() {
    let files = list(&["work.pub", "id_rsa.pub", "id_ed25519.pub"]);
    let entries = list(&["work.pub", "id_rsa.pub", "id_ed25519.pub", "id_ed25519", "config"]);
    assert_eq!(public_keys(&files, &entries), ["id_ed25519.pub", "id_rsa.pub", "work.pub"]);
}

#[test]
fn batches_fit_the_command_line() {
    let aliases = list(&["web01", "web02", "db-primary", "x"]);
    assert_eq!(batches(&aliases, 1000), vec![aliases.clone()]);
    let groups = batches(&aliases, 13);
    assert_eq!(groups, [vec!["web01", "web02"], vec!["db-primary", "x"]]);
    // an alias longer than the limit still gets its own group
    assert_eq!(batches(&["a-very-long-alias".to_string()], 4), [vec!["a-very-long-alias"]]);
    assert!(batches(&[], 10).is_empty());
}

#[test]
fn one_password_goes_in_one_tab() {
    let hosts = vec![("web".to_string(), "Web".to_string()), ("db".to_string(), "DB".to_string())];
    let mut d = KeyDialog::new(hosts, list(&["id_ed25519.pub"]));
    assert_eq!(d.batch(), d.one_password);
    d.one_password = true;
    assert_eq!(d.tabs("id_ed25519.pub").len(), 1);
    d.one_password = false;
    assert_eq!(d.tabs("id_ed25519.pub").len(), 2);
}

fn note(text: &str, tags: &[&str], updated: i64) -> Note {
    Note { text: text.to_string(), tags: list(tags), updated_at: updated }
}

fn notes(entries: Vec<(&str, Note)>) -> Notes {
    let mut n = Notes::new();
    for (id, note) in entries {
        n.set(id.to_string(), note);
    }
    n
}

#[test]
fn the_newer_note_of_the_two_wins() {
    let file = notes(vec![
        ("same", note("both", &[], 10)),
        ("theirs", note("from the other computer", &["new"], 30)),
        ("only-file", note("only there", &[], 5)),
    ]);
    let db = notes(vec![
        ("same", note("both", &[], 10)),
        ("theirs", note("older", &[], 20)),
        ("only-db", note("only here", &[], 7)),
    ]);
    let (done, all, into_db) = merge_notes(&file, &db);
    assert_eq!(done.taken, 2, "the other computer's newer note and the one only it had");
    assert_eq!(done.given, 1, "the one only this computer has");
    assert_eq!(all.entries.len(), 4);
    assert_eq!(all.get("theirs").unwrap().text, "from the other computer");
    assert_eq!(all.get("only-db").unwrap().text, "only here");
    let taken: Vec<&str> = into_db.iter().map(|(id, _)| id.as_str()).collect();
    assert_eq!(taken, ["only-file", "theirs"]);
}

#[test]
fn a_cleared_note_travels_like_any_other() {
    let file = notes(vec![("7f3c", note("", &[], 50))]);
    let db = notes(vec![("7f3c", note("something", &["old"], 40))]);
    let (done, all, into_db) = merge_notes(&file, &db);
    assert_eq!(done.taken, 1);
    assert!(all.get("7f3c").unwrap().is_empty(), "cleared on the other computer, cleared here");
    assert_eq!(into_db.len(), 1);
}

#[test]
fn merging_settled_notes_moves_nothing() {
    let all = notes(vec![("a", note("x", &["t"], 1)), ("b", note("", &[], 2))]);
    let (done, again, into_db) = merge_notes(&all, &all);
    assert!(done.is_empty() && into_db.is_empty());
    assert_eq!(again.entries.len(), 2);
    assert!(!writes_file(&done, &again, true));
    assert!(writes_file(&done, &again, false));
    assert!(again.get("c").is_none());
    let other = notes(vec![("a", note("y", &["t"], 1)), ("b", note("", &[], 2))]);
    assert!(!merge_notes(&all, &other).0.is_empty(), "as new, and another");
    let fewer = notes(vec![("a", note("x", &["t"], 1))]);
    assert!(!merge_notes(&fewer, &all).0.is_empty() && !merge_notes(&all, &fewer).0.is_empty());
}

#[test]
fn tags_are_read_from_whatever_someone_typed() {
    assert_eq!(Note::tags_from("prod, ceph"), ["prod", "ceph"]);
    assert_eq!(Note::tags_from("生产，测试"), ["生产", "测试"], "a Chinese comma too");
    assert_eq!(Note::tags_from(" a ;b, a "), ["a", "b"], "no repeats, no empties");
    assert!(Note::tags_from("  ").is_empty());
}

#[test]
fn tags_are_shown_in_a_line() {
    assert_eq!(note("", &["a", "b"], 0).tag_line(), "a, b");
}

#[test]
fn schemas_are_upgraded_step_by_step() {
    assert_eq!(upgrade(3), Some(vec![]));
    assert_eq!(upgrade(99), None, "a newer schema is refused");
    assert!(upgrade(0).unwrap().contains(&Step::Create));
    assert_eq!(oldest_restorable(1000, 100), 900);
}

fn target(user: Option<&str>, host: &str, port: Option<u16>) -> Option<QuickTarget> {
    Some(QuickTarget { user: user.map(str::to_string), host: host.to_string(), port })
}

#[test]
fn quick_targets() {
    assert_eq!(parse("root@10.0.0.5"), target(Some("root"), "10.0.0.5", None));
    assert_eq!(parse(" web01.example.com:2222 "), target(None, "web01.example.com", Some(2222)));
    assert_eq!(parse("ssh admin@db:2200"), target(Some("admin"), "db", Some(2200)));
    assert_eq!(parse("10.32.16.66"), target(None, "10.32.16.66", None));
    assert_eq!(parse("ops@fe80::1"), target(Some("ops"), "fe80::1", None));
    assert_eq!(parse("[2001:db8::5]"), target(None, "2001:db8::5", None));
    assert_eq!(parse("DOMAIN\\user@host"), target(Some("DOMAIN\\user"), "host", None));
}

#[test]
fn not_targets() {
    for text in [
        "web",
        "生产",
        "a b",
        "root@",
        "@host",
        "-oProxyCommand=x@h",
        "host:0",
        "host:99999",
        "host:x",
        "a@-h",
        "",
        "x@h;y",
    ] {
        assert_eq!(parse(text), None, "{text:?}");
    }
}

#[test]
fn destinations() {
    let with_port = parse("root@10.0.0.5:2222").unwrap();
    assert_eq!(with_port.destination(), "ssh://root@10.0.0.5:2222");
    assert_eq!(with_port.label(), "root@10.0.0.5:2222");
    assert_eq!(parse("root@10.0.0.5").unwrap().destination(), "root@10.0.0.5");
    assert_eq!(from_destination("ssh://root@10.0.0.5:2222"), Some(with_port));
    assert_eq!(from_destination("web01"), None, "a saved alias");
}

#[test]
fn a_destination_reads_back() {
    for text in ["root@10.0.0.5:2222", "root@10.0.0.5", "ops@fe80::1", "web01.example.com:22"] {
        let t = parse(text).unwrap();
        assert_eq!(from_destination(&t.destination()), Some(t.clone()), "{text}");
        assert!(!t.destination().starts_with('-'));
    }
}
