use native_term_app::files_edit::{answer, is_ours, is_secret, was_refused, Answer, Look, Questions, Watch};
use native_term_app::files_jobs::{
    all_meant, at_once, bounded, clear_finished, counts, job_step, job_title, Job, JobAction, JobEnd, JobState,
    JobStep, Kind,
};
use native_term_app::files_list::{
    columns, drive_rows, is_remote_name, local_name, menu, renames, sort_rows, status, Action, Row, Selection,
};
use native_term_app::files_sync::{act_text, doable, weight, Act, Acts, Asked, Found, Meta, Mode, Scan, SyncDialog};
use native_term_app::files_tab::{Effect, KeyAction, Keys, RemoteState, Tab, LOG_LINES};
use native_term_app::files_text::{
    chain, clock_text, copied_paths, describe, hex, join, last, local_key_for, mode_text, parent, remote_key_for, size_text,
    start_folder, temp_path, terminal_folder, terminal_folder_command, unhex,
};
use native_term_app::files_tree::Tree;
use native_term_app::files_window::{
    sync_title, Confirm, Dragged, FilesWindow, LocalClick, NewFolder, Pending, RemoteClick, Spec, Waiting, What,
};
use native_term_app::message::{Message, Notice};

#[test]
fn texts() {
    assert_eq!(size_text(512), "512 B");
    assert_eq!(size_text(1536), "1.5 KB");
    assert_eq!(size_text(5 * 1024 * 1024 * 1024), "5.0 GB");
    assert_eq!(clock_text(7), "0:07");
    assert_eq!(clock_text(750), "12:30");
    assert_eq!(clock_text(3723), "1:02:03");
    let gbk = [b'/', 0xd6, 0xd0, 0xce, 0xc4];
    assert_eq!(hex(&gbk), "2fd6d0cec4");
    assert_eq!(unhex(&hex(&gbk)).as_deref(), Some(&gbk[..]));
    assert_eq!(unhex("2fz0"), None);
    assert_eq!(unhex("2f0"), None);
    assert_eq!(unhex(""), Some(Vec::new()));
    assert_eq!(mode_text(0o040755), "drwxr-xr-x");
    assert_eq!(mode_text(0o100600), "-rw-------");
    assert_eq!(mode_text(0o120777), "lrwxrwxrwx");
    assert_eq!(last(b"/home/a/b.txt"), b"b.txt");
    assert_eq!(last(b"/home/a/"), b"a");
}

fn row(name: &str, dir: bool) -> Row {
    Row {
        key: name.as_bytes().to_vec(),
        name: name.into(),
        dir,
        link: false,
        size: if dir { None } else { Some(5) },
        modified: None,
        permissions: None,
    }
}

#[test]
fn local_folders_first() {
    let rows = sort_rows(vec![row("b.txt", false), row("Z 文件夹", true), row("A.txt", false)]);
    let names: Vec<&str> = rows.iter().map(|r| r.name.as_str()).collect();
    assert_eq!(names, ["Z 文件夹", "A.txt", "b.txt"]);
    assert_eq!(rows[2].size, Some(5));
    let drives = drive_rows(vec![(b"C:\\".to_vec(), "C:\\".into()), (b"D:\\".to_vec(), "D:\\".into())]);
    assert!(drives.iter().any(|r| r.dir), "the drives");
    assert_eq!(drives.iter().map(|r| r.name.as_str()).collect::<Vec<_>>(), ["C:\\", "D:\\"]);
}

/// An edited file is uploaded when saved and at rest; a change on the server
/// meanwhile holds the upload until "Overwrite".
#[test]
fn edits_go_back_to_the_server() {
    let mut w = Watch::start(Some(100), Some(7));
    assert_eq!(w.look(false, Some(100), false), Look::Wait, "nothing saved");
    assert_eq!(w.look(false, Some(200), false), Look::Wait, "saved just now");
    assert_eq!(w.look(false, Some(200), false), Look::Check, "at rest");
    assert!(!w.conflicts(Some(7), false));
    w.uploaded(Some(Some(8)));
    assert_eq!(w.look(false, Some(200), false), Look::Wait);
    // someone changes it on the server; our next save waits
    w.look(false, Some(300), false);
    assert_eq!(w.look(false, Some(300), false), Look::Check);
    assert!(w.conflicts(Some(9), false), "conflict seen");
    assert!(!w.conflicts(Some(9), true), "overwritten when asked");
    assert_eq!(w.look(true, Some(300), true), Look::Disconnected);
}

#[test]
fn a_cancelled_question_stays_cancelled() {
    let mut q = Questions::new();
    assert_eq!(q.next(true, false), Answer::Ask);
    assert_eq!(q.next(false, false), Answer::Refuse);
    assert_eq!(q.next(true, true), Answer::Saved);
    q.asked(false);
    assert_eq!(q.next(true, false), Answer::Cancelled);
    assert_eq!(answer(true, true, true), Answer::Saved);
    assert!(is_ours(Some(4), 4) && !is_ours(None, 4));
    assert!(is_secret("root@web01's password: ") && !is_secret("continue connecting (yes/no)?"));
    assert!(was_refused(true, "Permission denied (publickey,password).") && !was_refused(false, "Permission denied"));
}

#[test]
fn names_of_files() {
    assert_eq!(local_name(" a.txt "), Some("a.txt".to_string()));
    assert_eq!(local_name("a/b"), None);
    assert_eq!(local_name("  "), None);
    assert!(is_remote_name(b"a.txt") && !is_remote_name(b"a/b") && !is_remote_name(b""));
    assert!(renames("b.txt", "a.txt", false));
    assert!(!renames("a.txt", "a.txt", false) && !renames("b.txt", "a.txt", true));
    assert_eq!(join(b"/home/a", b"b"), b"/home/a/b");
    assert_eq!(join(b"/", b"b"), b"/b");
    assert_eq!(parent(b"/home/a"), b"/home");
    assert_eq!(parent(b"/home"), b"/");
    assert_eq!(chain(b"/home/a"), vec![b"/".to_vec(), b"/home".to_vec(), b"/home/a".to_vec()]);
    assert_eq!(remote_key_for("web01"), "files.remote:web01");
    assert_eq!(local_key_for("web01"), "files.local:web01");
}

#[test]
fn an_upload_goes_to_a_temporary_file_first() {
    assert_eq!(temp_path(b"/srv/conf.txt", 0x1f), b"/srv/.conf.txt.nt-1f");
    assert_eq!(temp_path(b"/a", 0), b"/.a.nt-0");
}

#[test]
fn the_first_folder() {
    let home = || b"/root".to_vec();
    assert_eq!(start_folder(Some(b"/srv".to_vec()), Some(b"/tmp".to_vec()), true, home()), b"/srv");
    assert_eq!(start_folder(None, Some(b"/tmp".to_vec()), true, home()), b"/tmp");
    assert_eq!(start_folder(None, Some(b"/tmp".to_vec()), false, home()), b"/root", "gone since");
    assert_eq!(start_folder(None, None, false, home()), b"/root");
    assert_eq!(terminal_folder(b"/srv/www\n"), Some(b"/srv/www".to_vec()));
    assert_eq!(terminal_folder(b"no server running"), None);
    assert!(terminal_folder_command("main").contains("main"));
}

#[test]
fn items_are_described() {
    assert_eq!(describe(&["a.txt".to_string()]), Notice::Plain("a.txt".into()));
    assert!(matches!(describe(&["a".to_string(), "b".to_string()]), Notice::Said(_)));
}

#[test]
fn clicks_select() {
    let rows: Vec<Row> = ["a", "b", "c", "d"].iter().map(|n| row(n, false)).collect();
    let mut s = Selection::none();
    s.click(&rows, 1, false, false);
    assert_eq!(s.rows(&rows), [1]);
    assert_eq!(s.single(&rows), Some(1));
    s.click(&rows, 3, true, false);
    assert_eq!(s.rows(&rows), [1, 2, 3], "up to there");
    s.click(&rows, 2, false, true);
    assert_eq!(s.rows(&rows), [1, 3], "taken out");
    assert_eq!(s.single(&rows), None);
    let st = status(&rows, &s, false);
    assert_eq!((st.folders, st.files, st.selected, st.bytes), (0, 4, 2, 10));
    s.retain(&rows[..2]);
    assert_eq!(s.rows(&rows), [1]);
    s.only(b"c", 2);
    assert!(s.contains(b"c") && !s.contains(b"b"));
    s.take(&rows, 2);
    assert_eq!(s.rows(&rows), [2]);
}

#[test]
fn shift_behind_the_end_of_a_shorter_list_takes_one_row() {
    let rows: Vec<Row> = ["a", "b", "c", "d"].iter().map(|n| row(n, false)).collect();
    let mut s = Selection::none();
    s.click(&rows, 3, false, false);
    s.retain(&rows[..2]);
    s.click(&rows[..2], 1, true, false);
    assert_eq!(s.rows(&rows), [1]);
}

#[test]
fn a_folder_on_the_server_weighs_nothing() {
    let mut dir = row("d", true);
    dir.size = Some(4096);
    let rows = [dir, row("f", false)];
    let mut s = Selection::none();
    s.click(&rows, 0, false, false);
    s.click(&rows, 1, false, true);
    assert_eq!(status(&rows, &s, true).bytes, 5);
    assert_eq!(status(&rows, &s, false).bytes, 4101);
}

#[test]
fn special_bits_take_the_place_of_execution() {
    assert_eq!(mode_text(0o041777), "drwxrwxrwt");
    assert_eq!(mode_text(0o041776), "drwxrwxrwT");
    assert_eq!(mode_text(0o104755), "-rwsr-xr-x");
    assert_eq!(mode_text(0o104644), "-rwSr--r--");
    assert_eq!(mode_text(0o102755), "-rwxr-sr-x");
    assert_eq!(mode_text(0o102644), "-rw-r-Sr--");
}

#[test]
fn copied_paths_stand_one_to_a_line() {
    assert_eq!(copied_paths(&["/a".to_string(), "/b".to_string()]), "/a\n/b");
    assert_eq!(copied_paths(&[]), "");
}

#[test]
fn rows_are_dropped_on_the_other_side_of_their_session() {
    let (w, id) = window();
    assert_eq!(w.takes_drop(&Dragged { tab: id, from_remote: true }, false), Some(id));
    assert_eq!(w.takes_drop(&Dragged { tab: id, from_remote: false }, true), Some(id));
    assert_eq!(w.takes_drop(&Dragged { tab: id, from_remote: true }, true), None);
    assert_eq!(w.takes_drop(&Dragged { tab: id + 1, from_remote: true }, false), None);
}

#[test]
fn the_menu_fits_what_is_selected() {
    assert!(menu(true, false, false).contains(&Action::Edit));
    assert!(!menu(true, false, true).contains(&Action::Edit), "a folder is not edited");
    assert!(!menu(true, true, false).contains(&Action::Rename), "one at a time");
    assert!(!menu(false, false, false).contains(&Action::Edit), "here it is just opened");
    let (a, b, c) = columns(600, true);
    assert!(a > 0 && b > 0 && c > 0);
}

#[test]
fn folders_of_the_tree_are_read_once() {
    let mut t = Tree::new();
    assert!(t.open(b"/home"), "to be read");
    assert!(t.is_open(b"/home") && !t.is_open(b"/srv"));
    assert!(!t.open(b"/home"), "being read");
    t.fill(b"/home", vec![("a".into(), b"/home/a".to_vec())]);
    assert!(!t.toggle(b"/home") && !t.is_open(b"/home"));
    assert!(!t.toggle(b"/home") && t.is_open(b"/home"), "known already");
    assert_eq!(t.expand(&[b"/".to_vec(), b"/home".to_vec()]), vec![b"/".to_vec()]);
}

fn job(id: u64, state: JobState) -> Job {
    Job { id, tab: 1, host: "web01".into(), kind: Kind::Upload, title: "up".into(), state, transfer: true }
}

#[test]
fn buttons_fit_the_state_of_a_job() {
    assert_eq!(job(1, JobState::Running).buttons(), [JobAction::Pause, JobAction::Cancel]);
    assert_eq!(job(1, JobState::Done).buttons(), [JobAction::Remove]);
    assert_eq!(job_step(JobAction::Resume, &JobState::Failed("x".into())), JobStep::Run);
    assert_eq!(job_step(JobAction::Pause, &JobState::Done), JobStep::Nothing);
    let mut j = job(1, JobState::Running);
    let (said, error) = j.ended(JobEnd::Stopped, true);
    assert_eq!(j.state, JobState::Paused);
    assert_eq!((said, error), (Notice::Said(Message::new("files-job-paused").text("what", "up")), false));
    assert!(j.ended(JobEnd::Failed("gone".into()), false).1);
    assert_eq!(job_title(Kind::Delete, "a").args.len(), 1);
}

#[test]
fn jobs_are_counted() {
    let mut jobs =
        vec![job(1, JobState::Running), job(2, JobState::Paused), job(3, JobState::Done), job(4, JobState::Cancelled)];
    let c = counts(&jobs);
    assert_eq!((c.running, c.paused, c.done, c.failed), (1, 1, 1, 0));
    assert_eq!(all_meant(&jobs, true), [1]);
    assert_eq!(all_meant(&jobs, false), [2]);
    clear_finished(&mut jobs);
    assert_eq!(jobs.iter().map(|j| j.id).collect::<Vec<_>>(), [1, 2]);
    assert_eq!((at_once(None), at_once(Some("5")), at_once(Some("x")), at_once(Some("99"))), (3, 5, 3, 16));
    assert_eq!((bounded(0), bounded(7)), (1, 7));
}

fn tab() -> Tab {
    let mut t = Tab::new(1, "web01".into(), "Web".into(), None, true);
    t.connect("10:00");
    t.connected(b"/root".to_vec(), "/root", "10:00");
    t
}

#[test]
fn a_session_lists_its_first_folder() {
    let mut t = Tab::new(1, "web01".into(), "Web".into(), None, true);
    assert!(t.go(b"/tmp".to_vec()).is_empty(), "no connection yet");
    assert!(matches!(t.connect("10:00")[..], [Effect::Connect(1)]));
    assert_eq!(t.remote_state(), RemoteState::Connecting);
    let effects = t.connected(b"/root".to_vec(), "/root", "10:01");
    assert!(matches!(&effects[..], [Effect::List(1, p)] if p == b"/root"));
    assert!(t.remote.listing);
    let effects = t.listed(b"/root".to_vec(), "/root".into(), Ok(vec![row("d", true), row("f", false)]), None, "10:02");
    assert!(matches!(&effects[0], Effect::Keep(k, v) if k == "files.remote:web01" && v == "2f726f6f74"));
    assert!(effects.iter().any(|e| matches!(e, Effect::ReadRemote(1, p) if p == b"/")));
    assert_eq!((t.remote.rows.len(), t.remote.path_text.as_str()), (2, "/root"));
    // the same folder again: kept already
    let effects = t.listed(b"/root".to_vec(), "/root".into(), Ok(vec![row("f", false)]), None, "10:03");
    assert!(!effects.iter().any(|e| matches!(e, Effect::Keep(..))));
    t.failed("no route".into(), "10:04");
    assert_eq!(t.remote_state(), RemoteState::Failed);
    assert!(t.log.last().unwrap().error);
}

#[test]
fn a_lost_connection_is_said() {
    let mut t = tab();
    t.listed(b"/root".to_vec(), "/root".into(), Err("eof".into()), Some("closed".into()), "10:05");
    assert!(!t.remote.connected);
    assert_eq!(t.remote_state(), RemoteState::Failed);
    let mut t = tab();
    t.listed(b"/root".to_vec(), "/root".into(), Err("denied".into()), None, "10:05");
    assert!(t.remote.connected);
    assert_eq!(t.remote.error.as_deref(), Some("denied"));
}

#[test]
fn names_stay_in_the_folder() {
    let mut t = tab();
    t.listed(b"/root".to_vec(), "/root".into(), Ok(vec![row("f", false), row("d", true)]), None, "10:02");
    let e = t.rename_remote(b"f", "g", Some(b"g".to_vec()), "10:03");
    assert!(matches!(&e[..], [Effect::Rename(1, a, b)] if a == b"/root/f" && b == b"/root/g"));
    assert!(t.rename_remote(b"f", "a/b", Some(b"a/b".to_vec()), "10:03").is_empty());
    assert!(t.log.last().unwrap().error);
    assert!(t.rename_remote(b"f", "中", None, "10:03").is_empty(), "not in this encoding");
    assert!(matches!(&t.mkdir(true, "n", Some(b"n".to_vec()), "10:03")[..], [Effect::MakeFolder(1, p)] if p == b"/root/n"));
    assert!(t.mkdir(false, "n", None, "10:03").is_empty(), "the drives");
    assert!(matches!(&t.open_remote(1)[..], [Effect::List(1, p)] if p == b"/root/d"));
    assert!(matches!(&t.open_remote(0)[..], [Effect::Edit(1, p)] if p == b"/root/f"));
    assert_eq!(t.edits, ["f"]);
    t.stop_edit(0);
    assert!(t.edits.is_empty());
    assert!(matches!(&t.up()[..], [Effect::List(1, p)] if p == b"/"));
}

#[test]
fn keys_and_buttons_of_the_lists() {
    let mut t = tab();
    t.listed(b"/root".to_vec(), "/root".into(), Ok(vec![row("f", false), row("d", true)]), None, "10:02");
    t.remote.selection.only(b"f", 0);
    let b = t.remote_buttons();
    assert!(b.up && b.download && b.delete);
    assert_eq!(b.edit, Some(0));
    let all = Keys { f5: true, back: true, delete: true, f2: true, enter: true };
    assert_eq!(
        t.remote_keys(all),
        [KeyAction::Refresh, KeyAction::Up, KeyAction::Delete, KeyAction::Rename(0), KeyAction::Open(0)]
    );
    assert_eq!(t.local_keys(all), [KeyAction::Refresh]);
    assert_eq!(t.remote_selection()[0].path, b"/root/f");
    t.start_renaming(true, 0);
    assert!(t.remote.renaming.is_some());
    let e = t.local_listed(Some(b"C:".to_vec()), "C:".into(), &[b"C:".to_vec()], Ok(vec![row("x", false)]));
    assert!(matches!(&e[0], Effect::Keep(k, v) if k == "files.local:web01" && v == "C:"));
    assert!(matches!(&t.rename_local(b"x".to_vec(), "y", "10:03")[..], [Effect::RenameLocal(1, a, n)] if a == b"x" && n == "y"));
    t.decoded(vec!["g".into(), "e".into()], "/r".into());
    assert_eq!(t.remote.rows[0].name, "g");
    assert!(t.toggle_remote(b"/srv".to_vec()).len() == 1);
}

#[test]
fn the_log_has_an_end() {
    let mut t = Tab::new(1, "web01".into(), "Web".into(), None, false);
    for i in 0..LOG_LINES + 5 {
        t.log("10:00", Notice::Plain(format!("{i}")), false);
    }
    assert_eq!(t.log.len(), LOG_LINES);
    assert_eq!(t.log[0].text, Notice::Plain("5".into()));
}

fn spec(alias: &str) -> Spec {
    Spec { alias: alias.into(), label: alias.into(), tmux_session: None, memory: false }
}

fn window() -> (FilesWindow, u64) {
    let mut w = FilesWindow::new();
    w.open(spec("web01"), "10:00");
    let id = w.tabs[0].id;
    w.handle(id, What::Connected { start: b"/root".to_vec(), shown: "/root".into() }, "10:00");
    w.handle(
        id,
        What::Listed { path: b"/root".to_vec(), shown: "/root".into(), result: Ok(vec![row("f", false)]), closed: None },
        "10:00",
    );
    (w, id)
}

#[test]
fn one_session_per_host() {
    let (mut w, id) = window();
    w.open(spec("db01"), "10:01");
    assert_eq!((w.tabs.len(), w.active), (2, 1));
    w.open(spec("web01"), "10:02");
    assert_eq!((w.tabs.len(), w.active), (2, 0), "shown again");
    assert_eq!(w.place_of_host("db01"), Some(1));
    assert_eq!(w.place(id), Some(0));
    assert_eq!(w.ready_for("web01"), Some(id));
    assert_eq!(w.ready_for("db01"), None, "not connected");
    w.log(id, "10:03", Notice::Plain("x".into()), false);
    assert_eq!(w.tabs[0].log.last().unwrap().text, Notice::Plain("x".into()));
    w.show_tab(1, true);
    assert_eq!((w.active, w.remote_focus), (1, true));
}

#[test]
fn transfers_run_and_end() {
    let (mut w, id) = window();
    let e = w.upload_to(id, 1, None, "up".into());
    assert!(e.iter().any(|e| matches!(e, Effect::Into(_, p) if p == b"/root")), "into the folder shown");
    let job = w.jobs[0].id;
    assert!(e.iter().any(|e| matches!(e, Effect::Run(j) if *j == job)));
    assert_eq!((w.running(None), w.is_on(id), w.busy(Some(id))), (1, true, true));
    assert!(matches!(w.job_action(job, JobAction::Pause, "10:01")[..], [Effect::Pause(j)] if j == job));
    w.handle(id, What::JobDone { job, end: JobEnd::Stopped, paused: true }, "10:02");
    assert_eq!(w.jobs[0].state, JobState::Paused);
    w.job_action(job, JobAction::Resume, "10:03");
    assert_eq!(w.jobs[0].state, JobState::Running);
    w.handle(id, What::JobDone { job, end: JobEnd::Finished, paused: false }, "10:04");
    assert_eq!(w.jobs[0].state, JobState::Done);
    w.job_action(job, JobAction::Remove, "10:05");
    assert!(w.jobs.is_empty());
    assert!(w.upload_to(id, 0, None, "up".into()).is_empty(), "nothing to send");
}

#[test]
fn a_download_needs_a_folder_here() {
    let (mut w, id) = window();
    w.download_to(id, 1, None, "down".into(), "10:01");
    assert!(w.jobs.is_empty(), "the drives are no folder");
    w.handle(
        id,
        What::LocalListed { path: Some(b"C:".to_vec()), shown: "C:".into(), chain: vec![], result: Ok(vec![]) },
        "10:02",
    );
    w.download_to(id, 1, None, "down".into(), "10:03");
    assert_eq!(w.jobs.len(), 1);
}

#[test]
fn a_busy_session_is_asked_about_before_it_closes() {
    let (mut w, id) = window();
    assert!(w.close_requested(), "nothing running");
    w.upload_to(id, 1, None, "up".into());
    assert!(!w.close_requested());
    assert!(matches!(w.confirm, Some(Confirm::CloseWindow)));
    assert!(w.asking().is_some());
    w.confirmed(false, String::new());
    assert!(w.confirm.is_none() && !w.wants_close());
    w.close_clicked(id);
    assert!(matches!(w.confirm, Some(Confirm::CloseTab(t)) if t == id));
    w.confirmed(true, String::new());
    assert!(w.tabs.is_empty());
}

#[test]
fn deleting_is_asked_about() {
    let (mut w, id) = window();
    w.tabs[0].remote.selection.only(b"f", 0);
    w.ask_delete_remote(id, "f".into());
    let asking = w.asking().unwrap();
    assert!(asking.warning.is_none(), "no folder among them");
    let (e, what) = w.confirmed(true, "delete f".into());
    assert!(matches!(what, Some(Confirm::DeleteRemote { .. })));
    assert!(e.iter().any(|e| matches!(e, Effect::Delete(_))));
    assert_eq!(w.jobs[0].kind, Kind::Delete);
    w.ask_recycle(id, "x".into());
    assert!(w.confirm.is_none(), "nothing selected here");
}

#[test]
fn a_question_of_ssh_is_answered() {
    let (mut w, id) = window();
    w.handle(id, What::Ask { prompt: "password:".into(), secret: true }, "10:01");
    assert!(!w.takes_keys(false));
    w.question.as_mut().unwrap().typed = "x".into();
    assert!(matches!(&w.answered(true)[..], [Effect::Answer(Some(t))] if t == "x"));
    assert!(w.question.is_none() && w.takes_keys(false) && !w.takes_keys(true));
    w.handle(id, What::Ask { prompt: "p".into(), secret: false }, "10:02");
    let e = w.handle(id, What::Ask { prompt: "q".into(), secret: false }, "10:03");
    assert!(matches!(e[..], [Effect::Answer(None)]), "the first is not answered any more");
    assert_eq!(w.question.as_ref().unwrap().prompt, "q");
}

#[test]
fn new_folders_and_clicks() {
    let (mut w, id) = window();
    w.new_folder = Some(NewFolder { tab: id, remote: true, name: "n".into() });
    let e = w.new_folder_done(true, Some(b"n".to_vec()), "10:01");
    assert!(matches!(&e[..], [Effect::MakeFolder(_, p)] if p == b"/root/n"));
    assert!(w.new_folder.is_none());
    assert!(matches!(&w.remote_side(RemoteClick::Up, "10:02")[..], [Effect::List(_, p)] if p == b"/"));
    assert!(matches!(&w.remote_side(RemoteClick::Edit(0), "10:02")[..], [Effect::Edit(..)]));
    assert_eq!(w.edits(None), 1);
    assert!(matches!(w.local_side(LocalClick::Refresh, "10:02")[..], [Effect::ListLocal(_, None)]));
    assert!(w.dropped(true, 2, "up".into(), "10:03").iter().any(|e| matches!(e, Effect::Run(_))));
}

#[test]
fn what_waits_for_a_session_is_sent_to_it() {
    let (mut w, id) = window();
    let mut p = Pending { specs: Vec::new(), uploads: Vec::new() };
    p.open(spec("db01"));
    p.upload_into("web01", 2, "two".into());
    p.upload_into("nas", 1, "one".into());
    w.take_pending(p.specs, "10:01");
    assert_eq!(w.tabs.len(), 2);
    let (e, left) = w.take_pending_uploads(p.uploads);
    assert_eq!(left, [Waiting { alias: "nas".into(), count: 1, title: "one".into() }]);
    assert!(e.iter().any(|e| matches!(e, Effect::Run(_))));
    assert_eq!(w.jobs[0].tab, id);
}

fn found(rel: &str, act: Act) -> Found {
    let here = Some(Meta { dir: false, size: 10, modified: None });
    let acts = Acts { both: act, upload: Act::Upload, upload_delete: Act::Upload, download: Act::Skip, download_delete: Act::DeleteLocal };
    Found { rel: rel.into(), here, there: None, known: false, acts }
}

#[test]
fn only_ticked_rows_are_done() {
    let all = vec![found("a", Act::Upload), found("b", Act::Conflict), found("c", Act::Same), found("d", Act::Upload)];
    let mut d = SyncDialog::new(1, "web01".into(), "C:".into(), b"/".to_vec(), "/".into(), Scan::Running);
    assert!(d.stop());
    d.compared(Ok(all.clone()));
    assert_eq!(d.conflicts(&all), 1);
    assert_eq!(d.plan(&all).uploads, [0, 3]);
    d.tick(3, false);
    assert_eq!(d.plan(&all).uploads, [0]);
    assert_eq!(d.weights(&all, true), (10, 0));
    d.tick(3, true);
    assert!(matches!(d.start(), Some(Asked::Start(p)) if p.uploads == [0, 3]));
    assert!(doable(Act::DeleteLocal) && !doable(Act::Conflict));
    assert_eq!(weight(2048, 0), Notice::Plain("2.0 KB".into()));
    assert_eq!(act_text(Act::Same).0, None);
}

#[test]
fn deleting_is_confirmed_before_a_sync() {
    let all = vec![found("a", Act::Upload)];
    let mut d = SyncDialog::new(1, "web01".into(), "C:".into(), b"/".to_vec(), "/".into(), Scan::Done(all.clone()));
    d.pick(Mode::Download, true);
    assert_eq!(d.act(&all[0]), Act::DeleteLocal);
    assert!(d.start().is_none() && d.confirming);
    assert!(matches!(d.start(), Some(Asked::Start(p)) if p.delete_local == [0]));
    d.pick(Mode::Both, true);
    assert_eq!(d.act(&all[0]), Act::Upload, "both ways deletes nothing");
    assert_eq!(sync_title(true, 2), Message::new("files-job-sync-upload").number("count", 2));
}

#[test]
fn a_sync_needs_two_folders() {
    let (mut w, id) = window();
    w.open_sync(id);
    assert!(w.sync.is_none(), "no folder here yet");
    w.handle(
        id,
        What::LocalListed { path: Some(b"C:".to_vec()), shown: "C:".into(), chain: vec![], result: Ok(vec![]) },
        "10:02",
    );
    assert!(matches!(w.open_sync(id)[..], [Effect::Compare(t)] if t == id));
    w.handle(id, What::Compared(Err(None)), "10:03");
    assert!(matches!(w.sync.as_ref().unwrap().scan, Scan::Failed(_)));
}
