//! Files over SFTP: one window for every session, local files on the left
//! and the server's on the right, each side with a tab per session; the two
//! tab rows move together. The window decides; what touches the network or
//! the disk is given back as effects, and what comes of it is handed in as
//! events.

use vstd::prelude::*;

use crate::files_jobs;
use crate::files_jobs::Job;
use crate::files_jobs::JobAction;
use crate::files_jobs::JobEnd;
use crate::files_jobs::JobState;
use crate::files_jobs::JobStep;
use crate::files_jobs::Kind;
use crate::files_list::Row;
use crate::files_sync::Found;
use crate::files_sync::Scan;
use crate::files_sync::SyncDialog;
use crate::files_tab;
use crate::files_tab::Effect;
use crate::files_tab::EffectView;
use crate::files_tab::Picked;
use crate::files_tab::Tab;
use crate::files_tab::TabView;
use crate::message;
use crate::message::Message;
use crate::message::MessageView;
use crate::message::Notice;
use crate::message::NoticeView;
use crate::text;

verus! {

/// The encodings offered for file names (any label can be set in the
/// config).
pub const ENCODINGS: [&'static str; 14] = [
    "auto",
    "UTF-8",
    "GBK",
    "gb18030",
    "Big5",
    "Shift_JIS",
    "EUC-JP",
    "EUC-KR",
    "windows-1250",
    "windows-1251",
    "windows-1252",
    "KOI8-R",
    "ISO-8859-2",
    "windows-1256",
];

/// What opening a session's files needs.
#[derive(Clone, Debug, PartialEq, Eq)]
pub struct Spec {
    pub alias: String,
    pub label: String,
    /// The terminal tab's tmux session (a persistent session): the server's
    /// side starts in its current folder.
    pub tmux_session: Option<String>,
    /// The last folders per host are kept.
    pub memory: bool,
}

/// What happened, for a session.
#[allow(inconsistent_fields)]
pub enum What {
    Connected { start: Vec<u8>, shown: String },
    Failed(String),
    Listed { path: Vec<u8>, shown: String, result: Result<Vec<Row>, String>, closed: Option<String> },
    LocalListed { path: Option<Vec<u8>>, shown: String, chain: Vec<Vec<u8>>, result: Result<Vec<Row>, String> },
    JobDone { job: u64, end: JobEnd, paused: bool },
    Said(String, bool),
    Refresh,
    LocalRefresh,
    Ask { prompt: String, secret: bool },
    RemoteTree { path: Vec<u8>, folders: Vec<(String, Vec<u8>)> },
    LocalTree { path: Vec<u8>, folders: Vec<(String, Vec<u8>)> },
    Compared(Result<Vec<Found>, Option<String>>),
}

/// A question from ssh, asked in the window.
pub struct Question {
    pub tab: u64,
    pub prompt: String,
    /// Typed text isn't shown.
    pub secret: bool,
    pub typed: String,
}

/// A folder about to be created.
pub struct NewFolder {
    pub tab: u64,
    pub remote: bool,
    pub name: String,
}

/// What a confirmation is about.
pub enum Confirm {
    DeleteRemote { tab: u64, items: Vec<Picked>, what: String, folders: bool },
    RecycleLocal { tab: u64, paths: Vec<Vec<u8>>, what: String },
    CloseTab(u64),
    CloseWindow,
}

/// The window.
pub struct FilesWindow {
    pub tabs: Vec<Tab>,
    pub active: usize,
    pub next_id: u64,
    pub jobs: Vec<Job>,
    pub new_folder: Option<NewFolder>,
    pub confirm: Option<Confirm>,
    pub close: bool,
    pub question: Option<Question>,
    /// The side keys go to (clicked last): the server's.
    pub remote_focus: bool,
    pub sync: Option<SyncDialog>,
}

/// The sessions.
pub open spec fn tabs_of(v: Seq<Tab>) -> Seq<TabView> {
    v.map_values(|t: Tab| t@)
}

/// Where a session is.
pub open spec fn place_of(tabs: Seq<TabView>, id: u64) -> Option<int>
    decreases tabs.len(),
{
    if tabs.len() == 0 {
        None
    } else {
        match place_of(tabs.drop_last(), id) {
            Some(i) => Some(i),
            None => if tabs.last().id == id {
                Some(tabs.len() - 1)
            } else {
                None
            },
        }
    }
}

/// Where a host's session is.
pub open spec fn host_place(tabs: Seq<TabView>, alias: Seq<char>) -> Option<int>
    decreases tabs.len(),
{
    if tabs.len() == 0 {
        None
    } else {
        match host_place(tabs.drop_last(), alias) {
            Some(i) => Some(i),
            None => if tabs.last().alias == alias {
                Some(tabs.len() - 1)
            } else {
                None
            },
        }
    }
}

/// Where a job is.
pub open spec fn job_place(jobs: Seq<Job>, id: u64) -> Option<int>
    decreases jobs.len(),
{
    if jobs.len() == 0 {
        None
    } else {
        match job_place(jobs.drop_last(), id) {
            Some(i) => Some(i),
            None => if jobs.last().id == id {
                Some(jobs.len() - 1)
            } else {
                None
            },
        }
    }
}

/// The sessions, and what is to be done outside.
pub struct After {
    pub tabs: Seq<TabView>,
    pub effects: Seq<EffectView>,
}

/// One session changed.
pub open spec fn changed(tabs: Seq<TabView>, i: int, step: (TabView, Seq<EffectView>)) -> After {
    After { tabs: tabs.update(i, step.0), effects: step.1 }
}

/// Nothing changed.
pub open spec fn unchanged(tabs: Seq<TabView>) -> After {
    After { tabs, effects: Seq::empty() }
}

/// A line in a session's log.
pub open spec fn log_at(tabs: Seq<TabView>, id: u64, time: Seq<char>, text: NoticeView, error: bool) -> Seq<TabView> {
    match place_of(tabs, id) {
        Some(i) => tabs.update(i, files_tab::logged(tabs[i], time, text, error)),
        None => tabs,
    }
}

/// The server's folder listed again.
pub open spec fn refreshed(tabs: Seq<TabView>, id: u64) -> After {
    match place_of(tabs, id) {
        Some(i) => changed(tabs, i, files_tab::asked_for(tabs[i], tabs[i].remote.path)),
        None => unchanged(tabs),
    }
}

/// The local folder listed again.
pub open spec fn refreshed_local(tabs: Seq<TabView>, id: u64) -> After {
    match place_of(tabs, id) {
        Some(i) => changed(tabs, i, files_tab::gone_local(tabs[i], tabs[i].local.path)),
        None => unchanged(tabs),
    }
}

/// What an event does to its session.
pub open spec fn tab_event(t: TabView, what: What, time: Seq<char>) -> (TabView, Seq<EffectView>) {
    match what {
        What::Connected { start, shown } => files_tab::now_connected(t, start@, shown@, time),
        What::Failed(e) => (files_tab::not_connected(t, e@, time), Seq::empty()),
        What::Listed { path, shown, result, closed } => files_tab::now_listed(
            t,
            path@,
            shown@,
            files_tab::listing_of(result),
            text::optional(closed),
            time,
        ),
        What::LocalListed { path, shown, chain, result } => files_tab::now_listed_local(
            t,
            files_tab::optional_path(path),
            shown@,
            crate::files_text::paths(chain@),
            files_tab::listing_of(result),
        ),
        What::Said(text, error) => (files_tab::logged(t, time, NoticeView::Plain(text@), error), Seq::empty()),
        What::Refresh => files_tab::asked_for(t, t.remote.path),
        What::LocalRefresh => files_tab::gone_local(t, t.local.path),
        What::RemoteTree { path, folders } => (
            TabView {
                remote_tree: crate::files_tree::filled(
                    t.remote_tree,
                    path@,
                    crate::files_tree::folders(folders@),
                ),
                ..t
            },
            Seq::empty(),
        ),
        What::LocalTree { path, folders } => (
            TabView {
                local_tree: crate::files_tree::filled(t.local_tree, path@, crate::files_tree::folders(folders@)),
                ..t
            },
            Seq::empty(),
        ),
        What::JobDone { .. } => (t, Seq::empty()),
        What::Ask { .. } => (t, Seq::empty()),
        What::Compared(_) => (t, Seq::empty()),
    }
}

/// What an event does to the sessions.
pub open spec fn tabs_after(tabs: Seq<TabView>, jobs: Seq<Job>, id: u64, what: What, time: Seq<char>) -> After {
    match what {
        What::JobDone { job, end, paused } => match job_place(jobs, job) {
            Some(j) => {
                let said = files_jobs::said_after(jobs[j].title@, files_jobs::state_after(end, paused));
                let logged = log_at(tabs, jobs[j].tab, time, said.0, said.1);
                match jobs[j].kind {
                    Kind::Download => refreshed_local(logged, jobs[j].tab),
                    _ => refreshed(logged, jobs[j].tab),
                }
            },
            None => unchanged(tabs),
        },
        _ => match place_of(tabs, id) {
            Some(i) => changed(tabs, i, tab_event(tabs[i], what, time)),
            None => unchanged(tabs),
        },
    }
}

/// What an event does to the jobs.
pub open spec fn jobs_after(jobs: Seq<Job>, what: What) -> Seq<Job> {
    match what {
        What::JobDone { job, end, paused } => match job_place(jobs, job) {
            Some(j) => jobs.update(j, Job { state: files_jobs::state_after(end, paused), ..jobs[j] }),
            None => jobs,
        },
        _ => jobs,
    }
}

/// An earlier question is given no answer.
pub open spec fn unanswered(q: Option<Question>) -> Seq<EffectView> {
    if q is Some {
        seq![EffectView::Answer(None)]
    } else {
        Seq::empty()
    }
}

/// The question that is asked now, with nothing typed yet.
pub open spec fn now_asked(q: Option<Question>, id: u64, prompt: String, secret: bool) -> bool {
    q matches Some(q) && q.tab == id && q.prompt == prompt && q.secret == secret && q.typed@.len() == 0
}

/// The session that is shown once one asks.
pub open spec fn active_after(tabs: Seq<TabView>, active: usize, id: u64) -> int {
    match place_of(tabs, id) {
        Some(i) => i,
        None => active as int,
    }
}

/// What a comparison that ended does to the dialog; another session's dialog
/// is left alone.
pub open spec fn now_compared(
    before: Option<SyncDialog>,
    after: Option<SyncDialog>,
    id: u64,
    result: Result<Vec<Found>, Option<String>>,
) -> bool {
    match before {
        Some(d) if d.tab == id => {
            &&& after matches Some(e)
            &&& e == (SyncDialog { scan: e.scan, ..d })
            &&& match result {
                Ok(found) => e.scan == Scan::Done(found),
                Err(why) => e.scan matches Scan::Failed(n) && n@ == (match why {
                    Some(w) => NoticeView::Plain(w@),
                    None => NoticeView::Said(message::said("files-sync-cancelled"@)),
                }),
            }
        },
        _ => after == before,
    }
}

proof fn lemma_place(tabs: Seq<TabView>, id: u64)
    ensures
        place_of(tabs, id) matches Some(i) ==> 0 <= i < tabs.len() && tabs[i].id == id && (forall|j: int|
            0 <= j < i ==> (#[trigger] tabs[j]).id != id),
        place_of(tabs, id) is None ==> forall|j: int| 0 <= j < tabs.len() ==> (#[trigger] tabs[j]).id != id,
    decreases tabs.len(),
{
    if tabs.len() > 0 {
        let rest = tabs.drop_last();
        lemma_place(rest, id);
        assert forall|j: int| 0 <= j < rest.len() implies #[trigger] rest[j] == tabs[j] by {
        }
        if place_of(rest, id) is None {
            assert forall|j: int| 0 <= j < tabs.len() - 1 implies (#[trigger] tabs[j]).id != id by {
                assert(rest[j].id != id);
            }
        } else {
            let i = place_of(rest, id)->0;
            assert forall|j: int| 0 <= j < i implies (#[trigger] tabs[j]).id != id by {
                assert(rest[j].id != id);
            }
        }
    }
}

impl FilesWindow {
    /// What holds of the window at any time.
    pub open spec fn wf(self) -> bool {
        forall|i: int| 0 <= i < self.tabs@.len() ==> (#[trigger] self.tabs@[i]).wf()
    }

    /// The sessions.
    pub open spec fn view(&self) -> Seq<TabView> {
        tabs_of(self.tabs@)
    }

    /// The window with nothing open.
    pub fn new() -> (r: FilesWindow)
        ensures
            r.wf(),
            r@ == Seq::<TabView>::empty(),
            r.active == 0,
            r.next_id == 1,
            r.jobs@.len() == 0,
            r.new_folder is None,
            r.confirm is None,
            !r.close,
            r.question is None,
            r.remote_focus,
            r.sync is None,
    {
        let r = FilesWindow {
            tabs: Vec::new(),
            active: 0,
            next_id: 1,
            jobs: Vec::new(),
            new_folder: None,
            confirm: None,
            close: false,
            question: None,
            remote_focus: true,
            sync: None,
        };
        proof {
            assert(r@ =~= Seq::empty());
        }
        r
    }

    /// Where a session is.
    pub fn place(&self, id: u64) -> (r: Option<usize>)
        ensures
            match r {
                Some(i) => place_of(self@, id) == Some(i as int) && i < self.tabs@.len(),
                None => place_of(self@, id) is None,
            },
    {
        let ghost all = self@;
        let mut i: usize = 0;
        proof {
            assert(all.take(0) =~= Seq::empty());
        }
        while i < self.tabs.len()
            invariant
                i <= self.tabs@.len(),
                all == self@,
                place_of(all.take(i as int), id) is None,
            decreases self.tabs@.len() - i,
        {
            proof {
                assert(all.take(i + 1).drop_last() =~= all.take(i as int));
                assert(all.take(i + 1).last() == self.tabs@[i as int]@);
            }
            if self.tabs[i].id == id {
                proof {
                    lemma_place_prefix(all, i + 1, id);
                }
                return Some(i);
            }
            i += 1;
        }
        proof {
            assert(all.take(i as int) =~= all);
        }
        None
    }

    /// Where a host's session is.
    pub fn place_of_host(&self, alias: &str) -> (r: Option<usize>)
        ensures
            match r {
                Some(i) => host_place(self@, alias@) == Some(i as int) && i < self.tabs@.len(),
                None => host_place(self@, alias@) is None,
            },
    {
        let ghost all = self@;
        let mut i: usize = 0;
        proof {
            assert(all.take(0) =~= Seq::empty());
        }
        while i < self.tabs.len()
            invariant
                i <= self.tabs@.len(),
                all == self@,
                host_place(all.take(i as int), alias@) is None,
            decreases self.tabs@.len() - i,
        {
            proof {
                assert(all.take(i + 1).drop_last() =~= all.take(i as int));
                assert(all.take(i + 1).last() == self.tabs@[i as int]@);
            }
            if text::same(&self.tabs[i].alias, alias) {
                proof {
                    lemma_host_prefix(all, i + 1, alias@);
                }
                return Some(i);
            }
            i += 1;
        }
        proof {
            assert(all.take(i as int) =~= all);
        }
        None
    }

    fn place_of_job(&self, id: u64) -> (r: Option<usize>)
        ensures
            match r {
                Some(i) => job_place(self.jobs@, id) == Some(i as int) && i < self.jobs@.len(),
                None => job_place(self.jobs@, id) is None,
            },
    {
        let ghost all = self.jobs@;
        let mut i: usize = 0;
        proof {
            assert(all.take(0) =~= Seq::empty());
        }
        while i < self.jobs.len()
            invariant
                i <= self.jobs@.len(),
                all == self.jobs@,
                job_place(all.take(i as int), id) is None,
            decreases self.jobs@.len() - i,
        {
            proof {
                assert(all.take(i + 1).drop_last() =~= all.take(i as int));
                assert(all.take(i + 1).last() == all[i as int]);
            }
            if self.jobs[i].id == id {
                proof {
                    lemma_job_prefix(all, i + 1, id);
                }
                return Some(i);
            }
            i += 1;
        }
        proof {
            assert(all.take(i as int) =~= all);
        }
        None
    }

    /// A line for a session's log.
    pub fn log(&mut self, id: u64, time: &str, text: Notice, error: bool)
        requires
            old(self).wf(),
        ensures
            final(self).wf(),
            final(self)@ == log_at(old(self)@, id, time@, text@, error),
            *final(self) == (FilesWindow { tabs: final(self).tabs, ..*old(self) }),
    {
        if let Some(i) = self.place(id) {
            let ghost before = self.tabs@;
            self.tabs[i].log(time, text, error);
            proof {
                assert(tabs_of(self.tabs@) =~= tabs_of(before).update(i as int, self.tabs@[i as int]@));
            }
        }
    }

    /// The server's folder is to be listed again.
    pub fn refresh(&mut self, id: u64) -> (r: Vec<Effect>)
        requires
            old(self).wf(),
        ensures
            final(self).wf(),
            (After { tabs: final(self)@, effects: files_tab::effects(r@) }) == refreshed(old(self)@, id),
            *final(self) == (FilesWindow { tabs: final(self).tabs, ..*old(self) }),
    {
        match self.place(id) {
            Some(i) => {
                let ghost before = self.tabs@;
                let r = self.tabs[i].refresh();
                proof {
                    assert(tabs_of(self.tabs@) =~= tabs_of(before).update(i as int, self.tabs@[i as int]@));
                }
                r
            },
            None => files_tab::nothing(),
        }
    }

    /// The local folder is to be listed again.
    pub fn refresh_local(&mut self, id: u64) -> (r: Vec<Effect>)
        requires
            old(self).wf(),
        ensures
            final(self).wf(),
            (After { tabs: final(self)@, effects: files_tab::effects(r@) }) == refreshed_local(old(self)@, id),
            *final(self) == (FilesWindow { tabs: final(self).tabs, ..*old(self) }),
    {
        match self.place(id) {
            Some(i) => {
                let ghost before = self.tabs@;
                let r = self.tabs[i].refresh_local();
                proof {
                    assert(tabs_of(self.tabs@) =~= tabs_of(before).update(i as int, self.tabs@[i as int]@));
                }
                r
            },
            None => files_tab::nothing(),
        }
    }

    /// An event of a session other than those about jobs, questions and
    /// comparisons.
    fn tell_tab(&mut self, i: usize, what: What, time: &str) -> (r: Vec<Effect>)
        requires
            old(self).wf(),
            i < old(self).tabs@.len(),
        ensures
            final(self).wf(),
            (After { tabs: final(self)@, effects: files_tab::effects(r@) }) == changed(
                old(self)@,
                i as int,
                tab_event(old(self)@[i as int], what, time@),
            ),
            *final(self) == (FilesWindow { tabs: final(self).tabs, ..*old(self) }),
    {
        let ghost before = self.tabs@;
        let r = match what {
            What::Connected { start, shown } => self.tabs[i].connected(start, &shown, time),
            What::Failed(e) => {
                self.tabs[i].failed(e, time);
                files_tab::nothing()
            },
            What::Listed { path, shown, result, closed } => self.tabs[i].listed(path, shown, result, closed, time),
            What::LocalListed { path, shown, chain, result } => self.tabs[i].local_listed(path, shown, &chain, result),
            What::Said(text, error) => {
                self.tabs[i].log(time, Notice::Plain(text), error);
                files_tab::nothing()
            },
            What::Refresh => self.tabs[i].refresh(),
            What::LocalRefresh => self.tabs[i].refresh_local(),
            What::RemoteTree { path, folders } => {
                self.tabs[i].remote_folders(&path, folders);
                files_tab::nothing()
            },
            What::LocalTree { path, folders } => {
                self.tabs[i].local_folders(&path, folders);
                files_tab::nothing()
            },
            What::JobDone { .. } => files_tab::nothing(),
            What::Ask { .. } => files_tab::nothing(),
            What::Compared(_) => files_tab::nothing(),
        };
        proof {
            assert(tabs_of(self.tabs@) =~= tabs_of(before).update(i as int, self.tabs@[i as int]@));
        }
        r
    }

    /// Something happened.
    pub fn handle(&mut self, id: u64, what: What, time: &str) -> (r: Vec<Effect>)
        requires
            old(self).wf(),
        ensures
            final(self).wf(),
            final(self)@ == tabs_after(old(self)@, old(self).jobs@, id, what, time@).tabs,
            final(self).jobs@ == jobs_after(old(self).jobs@, what),
            match what {
                What::Ask { prompt, secret } => {
                    &&& files_tab::effects(r@) == unanswered(old(self).question)
                    &&& now_asked(final(self).question, id, prompt, secret)
                    &&& final(self).active == active_after(old(self)@, old(self).active, id)
                    &&& *final(self) == (FilesWindow {
                        question: final(self).question,
                        active: final(self).active,
                        ..*old(self)
                    })
                },
                What::Compared(result) => {
                    &&& r@.len() == 0
                    &&& now_compared(old(self).sync, final(self).sync, id, result)
                    &&& *final(self) == (FilesWindow { sync: final(self).sync, ..*old(self) })
                },
                _ => {
                    &&& files_tab::effects(r@) == tabs_after(old(self)@, old(self).jobs@, id, what, time@).effects
                    &&& *final(self) == (FilesWindow { tabs: final(self).tabs, jobs: final(self).jobs, ..*old(self) })
                },
            },
    {
        proof {
            lemma_place(self@, id);
            if place_of(self@, id) is Some {
                let i = place_of(self@, id)->0;
                assert(self@.update(i, self@[i]) =~= self@);
            }
        }
        match what {
            What::Ask { prompt, secret } => self.ask(id, prompt, secret),
            What::Compared(result) => {
                self.compared(id, result);
                Vec::new()
            },
            What::JobDone { job, end, paused } => match self.place_of_job(job) {
                Some(j) => {
                    let ghost before = self.jobs@;
                    let (text, error) = self.jobs[j].ended(end, paused);
                    proof {
                        assert(self.jobs@ =~= jobs_after(before, what));
                    }
                    let tab = self.jobs[j].tab;
                    let download = match self.jobs[j].kind {
                        Kind::Download => true,
                        _ => false,
                    };
                    self.log(tab, time, text, error);
                    if download {
                        self.refresh_local(tab)
                    } else {
                        self.refresh(tab)
                    }
                },
                None => files_tab::nothing(),
            },
            _ => match self.place(id) {
                Some(i) => self.tell_tab(i, what, time),
                None => files_tab::nothing(),
            },
        }
    }

    /// ssh asks something: an earlier question is given no answer, and the
    /// session is shown.
    pub fn ask(&mut self, id: u64, prompt: String, secret: bool) -> (r: Vec<Effect>)
        ensures
            files_tab::effects(r@) == unanswered(old(self).question),
            now_asked(final(self).question, id, prompt, secret),
            final(self).active == active_after(old(self)@, old(self).active, id),
            *final(self) == (FilesWindow {
                question: final(self).question,
                active: final(self).active,
                ..*old(self)
            }),
    {
        let r = if self.question.is_some() {
            files_tab::one(Effect::Answer(None))
        } else {
            files_tab::nothing()
        };
        if let Some(i) = self.place(id) {
            self.active = i;
        }
        self.question = Some(Question { tab: id, prompt, secret, typed: String::new() });
        r
    }

    /// The question was answered (`ok`: with what was typed), or cancelled.
    pub fn answered(&mut self, ok: bool) -> (r: Vec<Effect>)
        ensures
            files_tab::effects(r@) == (match old(self).question {
                Some(q) => seq![
                    EffectView::Answer(
                        if ok {
                            Some(q.typed@)
                        } else {
                            None
                        },
                    ),
                ],
                None => Seq::empty(),
            }),
            *final(self) == (FilesWindow { question: None, ..*old(self) }),
    {
        let mut q: Option<Question> = None;
        std::mem::swap(&mut q, &mut self.question);
        match q {
            Some(q) => files_tab::one(
                Effect::Answer(
                    if ok {
                        Some(q.typed)
                    } else {
                        None
                    },
                ),
            ),
            None => files_tab::nothing(),
        }
    }

    /// The comparison of a session's folders ended; another session's
    /// dialog is left alone.
    pub fn compared(&mut self, id: u64, result: Result<Vec<Found>, Option<String>>)
        ensures
            now_compared(old(self).sync, final(self).sync, id, result),
            *final(self) == (FilesWindow { sync: final(self).sync, ..*old(self) }),
    {
        let mut s: Option<SyncDialog> = None;
        std::mem::swap(&mut s, &mut self.sync);
        match s {
            Some(d) => {
                let mut d = d;
                if d.tab == id {
                    d.compared(result);
                }
                self.sync = Some(d);
            },
            None => {},
        }
    }
}

/// A session is opened: a new tab, or the host's tab shown (and moved to the
/// terminal's folder, if it says one).
pub open spec fn opened_session(tabs: Seq<TabView>, active: int, next: int, spec: Spec, time: Seq<char>) -> (
    After,
    int,
    int,
) {
    match host_place(tabs, spec.alias@) {
        Some(i) => (
            match spec.tmux_session {
                Some(s) => After {
                    tabs: tabs.update(i, TabView { tmux_session: Some(s@), ..tabs[i] }),
                    effects: if tabs[i].remote.connected {
                        seq![EffectView::Follow(tabs[i].id)]
                    } else {
                        Seq::empty()
                    },
                },
                None => unchanged(tabs),
            },
            i,
            next,
        ),
        None => {
            let t = files_tab::connecting(
                files_tab::fresh(
                    next as u64,
                    spec.alias@,
                    spec.label@,
                    text::optional(spec.tmux_session),
                    spec.memory,
                ),
                time,
            );
            (
                After { tabs: tabs.push(t.0), effects: t.1.push(EffectView::StartLocal(next as u64)) },
                tabs.len() as int,
                next + 1,
            )
        },
    }
}

/// Files can be uploaded to a host now: its side is connected and its folder
/// known.
pub open spec fn ready(tabs: Seq<TabView>, alias: Seq<char>) -> Option<u64> {
    match host_place(tabs, alias) {
        Some(i) => if tabs[i].remote.connected && tabs[i].remote.path.len() > 0 {
            Some(tabs[i].id)
        } else {
            None
        },
        None => None,
    }
}

/// The label of a session.
pub open spec fn label_of(tabs: Seq<TabView>, id: u64) -> Seq<char> {
    match place_of(tabs, id) {
        Some(i) => tabs[i].label,
        None => Seq::empty(),
    }
}

/// A job more, running.
pub open spec fn is_added(before: Seq<Job>, after: Seq<Job>, id: u64, tab: u64, host: Seq<char>, kind: Kind, title: String, transfer: bool) -> bool {
    &&& after.len() == before.len() + 1
    &&& after.drop_last() == before
    &&& after.last().host@ == host
    &&& after.last() == (Job {
        id,
        tab,
        host: after.last().host,
        kind,
        title,
        state: JobState::Running,
        transfer,
    })
}

/// A session is connected.
pub open spec fn is_connected(tabs: Seq<TabView>, id: u64) -> bool {
    place_of(tabs, id) matches Some(i) && tabs[i].remote.connected
}

/// A transfer that is to run: it needs the session connected.
pub open spec fn run_needs(jobs: Seq<Job>, job: u64) -> Option<int> {
    match job_place(jobs, job) {
        Some(j) => if jobs[j].transfer {
            Some(j)
        } else {
            None
        },
        None => None,
    }
}

/// What the log says where a transfer has no connection.
pub open spec fn not_connected_said() -> NoticeView {
    NoticeView::Said(message::said("files-job-not-connected"@))
}

impl FilesWindow {
    /// A session is asked for.
    pub fn open(&mut self, spec: Spec, time: &str) -> (r: Vec<Effect>)
        requires
            old(self).wf(),
            old(self).next_id < u64::MAX,
        ensures
            final(self).wf(),
            ({
                let o = opened_session(old(self)@, old(self).active as int, old(self).next_id as int, spec, time@);
                &&& (After { tabs: final(self)@, effects: files_tab::effects(r@) }) == o.0
                &&& final(self).active == o.1
                &&& final(self).next_id == o.2
            }),
            *final(self) == (FilesWindow {
                tabs: final(self).tabs,
                active: final(self).active,
                next_id: final(self).next_id,
                ..*old(self)
            }),
    {
        match self.place_of_host(&spec.alias) {
            Some(i) => {
                self.active = i;
                match spec.tmux_session {
                    Some(s) => {
                        let ghost before = self.tabs@;
                        self.tabs[i].tmux_session = Some(s);
                        proof {
                            assert(tabs_of(self.tabs@) =~= tabs_of(before).update(i as int, self.tabs@[i as int]@));
                        }
                        if self.tabs[i].remote.connected {
                            files_tab::one(Effect::Follow(self.tabs[i].id))
                        } else {
                            files_tab::nothing()
                        }
                    },
                    None => files_tab::nothing(),
                }
            },
            None => {
                let id = self.next_id;
                self.next_id = self.next_id + 1;
                let ghost before = self.tabs@;
                let mut t = Tab::new(id, spec.alias, spec.label, spec.tmux_session, spec.memory);
                let mut r = t.connect(time);
                let ghost sofar = r@;
                r.push(Effect::StartLocal(id));
                proof {
                    assert(files_tab::effects(r@) =~= files_tab::effects(sofar).push(EffectView::StartLocal(id)));
                }
                self.tabs.push(t);
                self.active = self.tabs.len() - 1;
                proof {
                    assert(tabs_of(self.tabs@) =~= tabs_of(before).push(t@));
                }
                r
            },
        }
    }

    /// The session that files for a host can go to now.
    pub fn ready_for(&self, alias: &str) -> (r: Option<u64>)
        ensures
            r == ready(self@, alias@),
    {
        match self.place_of_host(alias) {
            Some(i) => {
                if self.tabs[i].remote.connected && self.tabs[i].remote.path.len() > 0 {
                    Some(self.tabs[i].id)
                } else {
                    None
                }
            },
            None => None,
        }
    }

    fn add_job(&mut self, tab: u64, kind: Kind, title: String, transfer: bool) -> (r: u64)
        requires
            old(self).wf(),
            old(self).next_id < u64::MAX,
        ensures
            final(self).wf(),
            r == old(self).next_id,
            final(self).next_id == old(self).next_id + 1,
            is_added(
                old(self).jobs@,
                final(self).jobs@,
                r,
                tab,
                label_of(old(self)@, tab),
                kind,
                title,
                transfer,
            ),
            *final(self) == (FilesWindow { jobs: final(self).jobs, next_id: final(self).next_id, ..*old(self) }),
    {
        let id = self.next_id;
        self.next_id = self.next_id + 1;
        let host = match self.place(tab) {
            Some(i) => text::owned(&self.tabs[i].label),
            None => String::new(),
        };
        proof {
            assert(host@ =~= label_of(self@, tab));
        }
        let ghost before = self.jobs@;
        self.jobs.push(Job { id, tab, host, kind, title, state: JobState::Running, transfer });
        proof {
            assert(self.jobs@.drop_last() =~= before);
        }
        id
    }

    /// Starts a transfer, or goes on with a paused or failed one.
    pub fn run_job(&mut self, job: u64, time: &str) -> (r: Vec<Effect>)
        requires
            old(self).wf(),
        ensures
            final(self).wf(),
            *final(self) == (FilesWindow { tabs: final(self).tabs, jobs: final(self).jobs, ..*old(self) }),
            match run_needs(old(self).jobs@, job) {
                Some(j) => {
                    let tab = old(self).jobs@[j].tab;
                    if is_connected(old(self)@, tab) {
                        &&& final(self).jobs@ == old(self).jobs@.update(
                            j,
                            Job { state: JobState::Running, ..old(self).jobs@[j] },
                        )
                        &&& final(self)@ == old(self)@
                        &&& files_tab::effects(r@) == seq![EffectView::Run(job)]
                    } else {
                        &&& final(self).jobs@ == old(self).jobs@
                        &&& final(self)@ == log_at(old(self)@, tab, time@, not_connected_said(), true)
                        &&& r@.len() == 0
                    }
                },
                None => final(self).jobs@ == old(self).jobs@ && final(self)@ == old(self)@ && r@.len() == 0,
            },
    {
        match self.place_of_job(job) {
            Some(j) => {
                if !self.jobs[j].transfer {
                    return Vec::new();
                }
                let tab = self.jobs[j].tab;
                if self.is_on(tab) {
                    let ghost before = self.jobs@;
                    self.jobs[j].state = JobState::Running;
                    proof {
                        assert(self.jobs@ =~= before.update(
                            j as int,
                            Job { state: JobState::Running, ..before[j as int] },
                        ));
                    }
                    files_tab::one(Effect::Run(job))
                } else {
                    self.log(tab, time, Notice::Said(Message::new("files-job-not-connected")), true);
                    Vec::new()
                }
            },
            None => Vec::new(),
        }
    }

    /// Whether a session is connected.
    pub fn is_on(&self, tab: u64) -> (r: bool)
        ensures
            r == is_connected(self@, tab),
    {
        match self.place(tab) {
            Some(i) => self.tabs[i].remote.connected,
            None => false,
        }
    }

    /// Local files and folders to a server's folder (`None`: the one shown);
    /// how many there are, and what the job is called. Without a connection
    /// or files nothing happens.
    pub fn upload_to(&mut self, id: u64, count: usize, into: Option<Vec<u8>>, title: String) -> (r: Vec<Effect>)
        requires
            old(self).wf(),
            old(self).next_id < u64::MAX,
        ensures
            final(self).wf(),
            final(self)@ == old(self)@,
            *final(self) == (FilesWindow { jobs: final(self).jobs, next_id: final(self).next_id, ..*old(self) }),
            if is_connected(old(self)@, id) && count > 0 {
                &&& final(self).next_id == old(self).next_id + 1
                &&& is_added(
                    old(self).jobs@,
                    final(self).jobs@,
                    old(self).next_id,
                    id,
                    label_of(old(self)@, id),
                    Kind::Upload,
                    title,
                    true,
                )
                &&& files_tab::effects(r@) == seq![
                    EffectView::Into(
                        old(self).next_id,
                        match into {
                            Some(p) => p@,
                            None => old(self)@[place_of(old(self)@, id)->0].remote.path,
                        },
                    ),
                    EffectView::Run(old(self).next_id),
                ]
            } else {
                final(self).next_id == old(self).next_id && final(self).jobs == old(self).jobs && r@.len() == 0
            },
    {
        match self.place(id) {
            Some(i) => {
                if !self.tabs[i].remote.connected || count == 0 {
                    return Vec::new();
                }
                let folder = match into {
                    Some(p) => p,
                    None => crate::files_list::copy_key(&self.tabs[i].remote.path),
                };
                let job = self.add_job(id, Kind::Upload, title, true);
                let mut r: Vec<Effect> = Vec::new();
                r.push(Effect::Into(job, folder));
                r.push(Effect::Run(job));
                proof {
                    assert(files_tab::effects(r@) =~= seq![EffectView::Into(job, folder@), EffectView::Run(job)]);
                }
                r
            },
            None => Vec::new(),
        }
    }

    /// The server's files and folders to a local folder (`None`: the one
    /// shown). Where the drives are shown there is none, which is said.
    pub fn download_to(&mut self, id: u64, count: usize, into: Option<Vec<u8>>, title: String, time: &str) -> (r: Vec<
        Effect,
    >)
        requires
            old(self).wf(),
            old(self).next_id < u64::MAX,
        ensures
            final(self).wf(),
            *final(self) == (FilesWindow {
                tabs: final(self).tabs,
                jobs: final(self).jobs,
                next_id: final(self).next_id,
                ..*old(self)
            }),
            ({
                let folder = match into {
                    Some(p) => Some(p@),
                    None => match place_of(old(self)@, id) {
                        Some(i) => old(self)@[i].local.path,
                        None => None,
                    },
                };
                if !is_connected(old(self)@, id) || (folder is Some && count == 0) {
                    *final(self) == *old(self) && r@.len() == 0
                } else {
                    match folder {
                        None => {
                            &&& final(self)@ == log_at(
                                old(self)@,
                                id,
                                time@,
                                NoticeView::Said(message::said("files-local-no-folder"@)),
                                true,
                            )
                            &&& final(self).jobs == old(self).jobs
                            &&& final(self).next_id == old(self).next_id
                            &&& r@.len() == 0
                        },
                        Some(f) => {
                            &&& final(self)@ == old(self)@
                            &&& final(self).next_id == old(self).next_id + 1
                            &&& is_added(
                                old(self).jobs@,
                                final(self).jobs@,
                                old(self).next_id,
                                id,
                                label_of(old(self)@, id),
                                Kind::Download,
                                title,
                                true,
                            )
                            &&& files_tab::effects(r@) == seq![
                                EffectView::Into(old(self).next_id, f),
                                EffectView::Run(old(self).next_id),
                            ]
                        },
                    }
                }
            }),
    {
        match self.place(id) {
            Some(i) => {
                if !self.tabs[i].remote.connected {
                    return Vec::new();
                }
                let folder = match into {
                    Some(p) => Some(p),
                    None => match &self.tabs[i].local.path {
                        Some(p) => Some(crate::files_list::copy_key(p)),
                        None => None,
                    },
                };
                match folder {
                    Some(f) => {
                        if count == 0 {
                            return Vec::new();
                        }
                        let job = self.add_job(id, Kind::Download, title, true);
                        let mut r: Vec<Effect> = Vec::new();
                        r.push(Effect::Into(job, f));
                        r.push(Effect::Run(job));
                        proof {
                            assert(files_tab::effects(r@) =~= seq![EffectView::Into(job, f@), EffectView::Run(job)]);
                        }
                        r
                    },
                    None => {
                        self.log(id, time, Notice::Said(Message::new("files-local-no-folder")), true);
                        Vec::new()
                    },
                }
            },
            None => Vec::new(),
        }
    }

    /// Files of the server are deleted.
    pub fn delete_remote(&mut self, id: u64, title: String) -> (r: Vec<Effect>)
        requires
            old(self).wf(),
            old(self).next_id < u64::MAX,
        ensures
            final(self).wf(),
            final(self)@ == old(self)@,
            *final(self) == (FilesWindow { jobs: final(self).jobs, next_id: final(self).next_id, ..*old(self) }),
            if is_connected(old(self)@, id) {
                &&& final(self).next_id == old(self).next_id + 1
                &&& is_added(
                    old(self).jobs@,
                    final(self).jobs@,
                    old(self).next_id,
                    id,
                    label_of(old(self)@, id),
                    Kind::Delete,
                    title,
                    false,
                )
                &&& files_tab::effects(r@) == seq![EffectView::Delete(old(self).next_id)]
            } else {
                final(self).next_id == old(self).next_id && final(self).jobs == old(self).jobs && r@.len() == 0
            },
    {
        if !self.is_on(id) {
            return Vec::new();
        }
        let job = self.add_job(id, Kind::Delete, title, false);
        files_tab::one(Effect::Delete(job))
    }

    /// A button of the queue.
    pub fn job_action(&mut self, job: u64, action: JobAction, time: &str) -> (r: Vec<Effect>)
        requires
            old(self).wf(),
        ensures
            final(self).wf(),
            *final(self) == (FilesWindow { tabs: final(self).tabs, jobs: final(self).jobs, ..*old(self) }),
            match job_place(old(self).jobs@, job) {
                None => final(self).jobs@ == old(self).jobs@ && final(self)@ == old(self)@ && r@.len() == 0,
                Some(j) => {
                    let it = old(self).jobs@[j];
                    match files_jobs::step_for(action, it.state) {
                        JobStep::Nothing => final(self).jobs@ == old(self).jobs@ && final(self)@ == old(self)@
                            && r@.len() == 0,
                        JobStep::AskPause => final(self).jobs@ == old(self).jobs@ && final(self)@ == old(self)@
                            && files_tab::effects(r@) == seq![EffectView::Pause(job)],
                        JobStep::AskCancel => final(self).jobs@ == old(self).jobs@ && final(self)@ == old(self)@
                            && files_tab::effects(r@) == seq![EffectView::Cancel(job)],
                        JobStep::Run => if !it.transfer {
                            final(self).jobs@ == old(self).jobs@ && final(self)@ == old(self)@ && r@.len() == 0
                        } else if is_connected(old(self)@, it.tab) {
                            &&& final(self).jobs@ == old(self).jobs@.update(j, Job { state: JobState::Running, ..it })
                            &&& final(self)@ == old(self)@
                            &&& files_tab::effects(r@) == seq![EffectView::Run(job)]
                        } else {
                            &&& final(self).jobs@ == old(self).jobs@
                            &&& final(self)@ == log_at(old(self)@, it.tab, time@, not_connected_said(), true)
                            &&& r@.len() == 0
                        },
                        JobStep::Discard => {
                            &&& final(self).jobs@ == old(self).jobs@.update(
                                j,
                                Job { state: JobState::Cancelled, ..it },
                            )
                            &&& final(self)@ == log_at(
                                old(self)@,
                                it.tab,
                                time@,
                                NoticeView::Said(message::said("files-job-cancelled"@).text("what"@, it.title@)),
                                false,
                            )
                            &&& files_tab::effects(r@) == seq![EffectView::Discard(job, it.kind == Kind::Upload)]
                        },
                        JobStep::Remove => final(self).jobs@ == old(self).jobs@.remove(j) && final(self)@ == old(
                            self,
                        )@ && r@.len() == 0,
                    }
                },
            },
    {
        match self.place_of_job(job) {
            None => Vec::new(),
            Some(j) => match files_jobs::job_step(action, &self.jobs[j].state) {
                JobStep::Nothing => Vec::new(),
                JobStep::AskPause => files_tab::one(Effect::Pause(job)),
                JobStep::AskCancel => files_tab::one(Effect::Cancel(job)),
                JobStep::Run => self.run_job(job, time),
                JobStep::Discard => {
                    let ghost before = self.jobs@;
                    let tab = self.jobs[j].tab;
                    let upload = match self.jobs[j].kind {
                        Kind::Upload => true,
                        _ => false,
                    };
                    let said = Notice::Said(Message::new("files-job-cancelled").text("what", &self.jobs[j].title));
                    self.jobs[j].state = JobState::Cancelled;
                    proof {
                        assert(self.jobs@ =~= before.update(
                            j as int,
                            Job { state: JobState::Cancelled, ..before[j as int] },
                        ));
                    }
                    self.log(tab, time, said, false);
                    files_tab::one(Effect::Discard(job, upload))
                },
                JobStep::Remove => {
                    let _ = self.jobs.remove(j);
                    Vec::new()
                },
            },
        }
    }
}

/// How many files are being edited, of one session if one is named.
pub open spec fn edits_in(tabs: Seq<TabView>, tab: Option<u64>) -> nat
    decreases tabs.len(),
{
    if tabs.len() == 0 {
        0
    } else {
        edits_in(tabs.drop_last(), tab) + (if is_meant(tabs.last(), tab) {
            tabs.last().edits.len()
        } else {
            0
        })
    }
}

/// A session is the one named, or none is.
pub open spec fn is_meant(t: TabView, tab: Option<u64>) -> bool {
    match tab {
        Some(id) => t.id == id,
        None => true,
    }
}

proof fn lemma_edits(tabs: Seq<TabView>, tab: Option<u64>, n: int)
    requires
        0 <= n <= tabs.len(),
    ensures
        edits_in(tabs.take(n), tab) <= edits_in(tabs, tab),
    decreases tabs.len() - n,
{
    if n < tabs.len() {
        assert(tabs.take(n + 1).drop_last() =~= tabs.take(n));
        lemma_edits(tabs, tab, n + 1);
    } else {
        assert(tabs.take(n) =~= tabs);
    }
}

/// Something runs or is edited, in one session if one is named.
pub open spec fn is_busy(tabs: Seq<TabView>, jobs: Seq<Job>, tab: Option<u64>) -> bool {
    files_jobs::running_in(jobs, tab) + edits_in(tabs, tab) > 0
}

/// The jobs of a session, told to pause.
pub open spec fn pauses(jobs: Seq<Job>, tab: Option<u64>) -> Seq<EffectView>
    decreases jobs.len(),
{
    if jobs.len() == 0 {
        Seq::empty()
    } else if (match tab {
        Some(t) => jobs.last().tab == t,
        None => true,
    }) {
        pauses(jobs.drop_last(), tab).push(EffectView::Pause(jobs.last().id))
    } else {
        pauses(jobs.drop_last(), tab)
    }
}

/// Sessions that end.
pub open spec fn ends(tabs: Seq<TabView>) -> Seq<EffectView> {
    tabs.map_values(|t: TabView| EffectView::End(t.id))
}

/// What the window says before something is done that cannot be taken back:
/// a title, the text, a warning, and the button.
pub struct Asking {
    pub title: Message,
    pub text: Vec<Message>,
    pub warning: Option<Message>,
    pub button: Message,
}

/// What the window says before something is done.
pub struct AskingView {
    pub title: MessageView,
    pub text: Seq<MessageView>,
    pub warning: Option<MessageView>,
    pub button: MessageView,
}

impl View for Asking {
    type V = AskingView;

    open spec fn view(&self) -> AskingView {
        AskingView {
            title: self.title@,
            text: message::messages(self.text@),
            warning: match self.warning {
                Some(w) => Some(w@),
                None => None,
            },
            button: self.button@,
        }
    }
}

/// What is asked before closing: how much runs and how much is edited.
pub open spec fn closing(tabs: Seq<TabView>, jobs: Seq<Job>, tab: Option<u64>) -> AskingView {
    AskingView {
        title: message::said("files-close-title"@),
        text: seq![
            message::said("files-close-running"@).number("count"@, files_jobs::running_in(jobs, tab) as int),
            message::said("files-close-edits"@).number("count"@, edits_in(tabs, tab) as int),
        ],
        warning: None,
        button: message::said("files-close-now"@),
    }
}

/// What is asked.
pub open spec fn asked(tabs: Seq<TabView>, jobs: Seq<Job>, c: Confirm) -> AskingView {
    match c {
        Confirm::DeleteRemote { what, folders, .. } => AskingView {
            title: message::said("files-delete"@),
            text: seq![message::said("files-delete-confirm"@).text("what"@, what@)],
            warning: if folders {
                Some(message::said("files-delete-folders"@))
            } else {
                None
            },
            button: message::said("files-delete-now"@),
        },
        Confirm::RecycleLocal { what, .. } => AskingView {
            title: message::said("files-delete"@),
            text: seq![message::said("files-recycle-confirm"@).text("what"@, what@)],
            warning: None,
            button: message::said("files-recycle-now"@),
        },
        Confirm::CloseTab(id) => closing(tabs, jobs, Some(id)),
        Confirm::CloseWindow => closing(tabs, jobs, None),
    }
}

/// A session is closed: its jobs pause, it ends, and another is shown where
/// it was the last.
pub open spec fn closed(tabs: Seq<TabView>, jobs: Seq<Job>, active: int, id: u64) -> (After, int) {
    match place_of(tabs, id) {
        Some(i) => {
            let left = tabs.remove(i);
            (
                After { tabs: left, effects: pauses(jobs, Some(id)).push(EffectView::End(id)) },
                if active >= left.len() {
                    if left.len() == 0 {
                        0
                    } else {
                        left.len() - 1
                    }
                } else {
                    active
                },
            )
        },
        None => (After { tabs, effects: pauses(jobs, Some(id)) }, active),
    }
}

impl FilesWindow {
    /// How many jobs run, of one session if one is named.
    pub fn running(&self, tab: Option<u64>) -> (r: usize)
        ensures
            r == files_jobs::running_in(self.jobs@, tab),
    {
        files_jobs::running(&self.jobs, tab)
    }

    /// How many files are being edited, of one session if one is named.
    pub fn edits(&self, tab: Option<u64>) -> (r: usize)
        requires
            edits_in(self@, tab) <= usize::MAX,
        ensures
            r == edits_in(self@, tab),
    {
        let ghost all = self@;
        let mut n: usize = 0;
        let mut i: usize = 0;
        proof {
            assert(all.take(0) =~= Seq::empty());
        }
        while i < self.tabs.len()
            invariant
                i <= self.tabs@.len(),
                all == self@,
                edits_in(all, tab) <= usize::MAX,
                n == edits_in(all.take(i as int), tab),
            decreases self.tabs@.len() - i,
        {
            proof {
                assert(all.take(i + 1).drop_last() =~= all.take(i as int));
                assert(all.take(i + 1).last() == self.tabs@[i as int]@);
                lemma_edits(all, tab, i + 1);
            }
            let meant = match tab {
                Some(id) => self.tabs[i].id == id,
                None => true,
            };
            if meant {
                proof {
                    assert(self.tabs@[i as int]@.edits.len() == self.tabs@[i as int].edits@.len());
                }
                n = n + self.tabs[i].edits.len();
            }
            i += 1;
        }
        proof {
            assert(all.take(i as int) =~= all);
        }
        n
    }

    /// Whether something runs or is edited, in one session if one is named.
    pub fn busy(&self, tab: Option<u64>) -> (r: bool)
        ensures
            r == is_busy(self@, self.jobs@, tab),
    {
        if self.running(tab) > 0 {
            return true;
        }
        let ghost all = self@;
        let mut i: usize = 0;
        proof {
            assert(all.take(0) =~= Seq::empty());
        }
        while i < self.tabs.len()
            invariant
                i <= self.tabs@.len(),
                all == self@,
                files_jobs::running_in(self.jobs@, tab) == 0,
                edits_in(all.take(i as int), tab) == 0,
            decreases self.tabs@.len() - i,
        {
            proof {
                assert(all.take(i + 1).drop_last() =~= all.take(i as int));
                assert(all.take(i + 1).last() == self.tabs@[i as int]@);
                assert(self.tabs@[i as int]@.edits.len() == self.tabs@[i as int].edits@.len());
                lemma_edits(all, tab, i + 1);
            }
            let meant = match tab {
                Some(id) => self.tabs[i].id == id,
                None => true,
            };
            if meant && self.tabs[i].edits.len() > 0 {
                return true;
            }
            i += 1;
        }
        proof {
            assert(all.take(i as int) =~= all);
        }
        false
    }

    fn pause_jobs(&self, tab: Option<u64>) -> (r: Vec<Effect>)
        ensures
            files_tab::effects(r@) == pauses(self.jobs@, tab),
    {
        let ghost all = self.jobs@;
        let mut r: Vec<Effect> = Vec::new();
        let mut i: usize = 0;
        proof {
            assert(all.take(0) =~= Seq::empty());
            assert(files_tab::effects(r@) =~= Seq::empty());
        }
        while i < self.jobs.len()
            invariant
                i <= self.jobs@.len(),
                all == self.jobs@,
                files_tab::effects(r@) == pauses(all.take(i as int), tab),
            decreases self.jobs@.len() - i,
        {
            proof {
                assert(all.take(i + 1).drop_last() =~= all.take(i as int));
                assert(all.take(i + 1).last() == all[i as int]);
            }
            let meant = match tab {
                Some(t) => self.jobs[i].tab == t,
                None => true,
            };
            if meant {
                let ghost before = r@;
                r.push(Effect::Pause(self.jobs[i].id));
                proof {
                    assert(files_tab::effects(r@) =~= files_tab::effects(before).push(
                        EffectView::Pause(all[i as int].id),
                    ));
                }
            }
            i += 1;
        }
        proof {
            assert(all.take(i as int) =~= all);
        }
        r
    }

    /// A session is closed.
    pub fn close_tab(&mut self, id: u64) -> (r: Vec<Effect>)
        requires
            old(self).wf(),
        ensures
            final(self).wf(),
            ({
                let c = closed(old(self)@, old(self).jobs@, old(self).active as int, id);
                (After { tabs: final(self)@, effects: files_tab::effects(r@) }) == c.0 && final(self).active == c.1
            }),
            *final(self) == (FilesWindow { tabs: final(self).tabs, active: final(self).active, ..*old(self) }),
    {
        let mut r = self.pause_jobs(Some(id));
        proof {
            lemma_place(self@, id);
        }
        if let Some(i) = self.place(id) {
            let ghost before = self.tabs@;
            let _ = self.tabs.remove(i);
            proof {
                assert(tabs_of(self.tabs@) =~= tabs_of(before).remove(i as int));
                assert forall|k: int| 0 <= k < self.tabs@.len() implies (#[trigger] self.tabs@[k]).wf() by {
                    if k < i {
                        assert(self.tabs@[k] == before[k]);
                    } else {
                        assert(self.tabs@[k] == before[k + 1]);
                    }
                }
            }
            let ghost sofar = r@;
            r.push(Effect::End(id));
            proof {
                assert(files_tab::effects(r@) =~= files_tab::effects(sofar).push(EffectView::End(id)));
            }
            if self.active >= self.tabs.len() {
                self.active = if self.tabs.len() == 0 {
                    0
                } else {
                    self.tabs.len() - 1
                };
            }
        }
        r
    }

    /// A tab's close button: asked first where something runs or is edited.
    pub fn close_clicked(&mut self, id: u64) -> (r: Vec<Effect>)
        requires
            old(self).wf(),
        ensures
            final(self).wf(),
            if is_busy(old(self)@, old(self).jobs@, Some(id)) {
                &&& *final(self) == (FilesWindow { confirm: final(self).confirm, ..*old(self) })
                &&& final(self).confirm == Some(Confirm::CloseTab(id))
                &&& r@.len() == 0
            } else {
                let c = closed(old(self)@, old(self).jobs@, old(self).active as int, id);
                &&& (After { tabs: final(self)@, effects: files_tab::effects(r@) }) == c.0
                &&& final(self).active == c.1
                &&& *final(self) == (FilesWindow { tabs: final(self).tabs, active: final(self).active, ..*old(self) })
            },
    {
        if self.busy(Some(id)) {
            self.confirm = Some(Confirm::CloseTab(id));
            Vec::new()
        } else {
            self.close_tab(id)
        }
    }

    /// The window is to close: asked first where something runs or is
    /// edited; whether it may.
    pub fn close_requested(&mut self) -> (r: bool)
        ensures
            r == !is_busy(old(self)@, old(self).jobs@, None),
            *final(self) == (FilesWindow { confirm: final(self).confirm, ..*old(self) }),
            final(self).confirm == (if r {
                old(self).confirm
            } else {
                Some(Confirm::CloseWindow)
            }),
    {
        if self.busy(None) {
            self.confirm = Some(Confirm::CloseWindow);
            false
        } else {
            true
        }
    }

    /// Whether closing was confirmed.
    pub fn wants_close(&self) -> (r: bool)
        ensures
            r == self.close,
    {
        self.close
    }

    /// The window is gone: a question is given no answer, the jobs stop as
    /// by Pause (a new transfer of the same files goes on from their partial
    /// copies), the sessions end.
    pub fn closing(&self) -> (r: Vec<Effect>)
        ensures
            files_tab::effects(r@) == unanswered(self.question) + pauses(self.jobs@, None) + ends(self@),
    {
        let mut r = if self.question.is_some() {
            files_tab::one(Effect::Answer(None))
        } else {
            files_tab::nothing()
        };
        let paused = self.pause_jobs(None);
        files_tab::also(&mut r, paused);
        let mut ended: Vec<Effect> = Vec::new();
        let mut i: usize = 0;
        proof {
            assert(files_tab::effects(ended@) =~= ends(self@).take(0));
        }
        while i < self.tabs.len()
            invariant
                i <= self.tabs@.len(),
                files_tab::effects(ended@) == ends(self@).take(i as int),
            decreases self.tabs@.len() - i,
        {
            let ghost before = ended@;
            ended.push(Effect::End(self.tabs[i].id));
            proof {
                assert(files_tab::effects(ended@) =~= files_tab::effects(before).push(
                    EffectView::End(self.tabs@[i as int].id),
                ));
                assert(ends(self@).take(i + 1) =~= ends(self@).take(i as int).push(
                    EffectView::End(self.tabs@[i as int].id),
                ));
            }
            i += 1;
        }
        proof {
            assert(ends(self@).take(i as int) =~= ends(self@));
        }
        files_tab::also(&mut r, ended);
        r
    }

    /// Deleting the files selected on the server is asked about; `what`
    /// describes them. With nothing selected nothing is asked.
    pub fn ask_delete_remote(&mut self, id: u64, what: String)
        requires
            old(self).wf(),
        ensures
            *final(self) == (FilesWindow { confirm: final(self).confirm, ..*old(self) }),
            ({
                let picked = match place_of(old(self)@, id) {
                    Some(i) => files_tab::picked_from(
                        old(self)@[i].remote.path,
                        old(self)@[i].remote.rows,
                        old(self)@[i].remote.selected,
                    ),
                    None => Seq::empty(),
                };
                if picked.len() == 0 {
                    final(self).confirm == old(self).confirm
                } else {
                    &&& final(self).confirm matches Some(Confirm::DeleteRemote { tab, items, what: w, folders })
                    &&& tab == id
                    &&& files_tab::picks(items@) == picked
                    &&& w == what
                    &&& folders == files_tab::any_folder(picked)
                }
            }),
    {
        if let Some(i) = self.place(id) {
            let items = self.tabs[i].remote_selection();
            proof {
                assert(files_tab::picks(items@).len() == items@.len());
            }
            if items.len() == 0 {
                return;
            }
            let folders = files_tab::has_folder(&items);
            self.confirm = Some(Confirm::DeleteRemote { tab: id, items, what, folders });
        }
    }

    /// Putting the selected local files into the Recycle Bin is asked about.
    pub fn ask_recycle(&mut self, id: u64, what: String)
        requires
            old(self).wf(),
        ensures
            *final(self) == (FilesWindow { confirm: final(self).confirm, ..*old(self) }),
            ({
                let picked = match place_of(old(self)@, id) {
                    Some(i) => files_tab::local_picked(old(self)@[i].local.rows, old(self)@[i].local.selected),
                    None => Seq::empty(),
                };
                if picked.len() == 0 {
                    final(self).confirm == old(self).confirm
                } else {
                    &&& final(self).confirm matches Some(Confirm::RecycleLocal { tab, paths, what: w })
                    &&& tab == id
                    &&& crate::files_text::paths(paths@) == picked
                    &&& w == what
                }
            }),
    {
        if let Some(i) = self.place(id) {
            let paths = self.tabs[i].local_selection();
            proof {
                assert(crate::files_text::paths(paths@).len() == paths@.len());
            }
            if paths.len() == 0 {
                return;
            }
            self.confirm = Some(Confirm::RecycleLocal { tab: id, paths, what });
        }
    }

    /// What is asked, where something is.
    pub fn asking(&self) -> (r: Option<Asking>)
        requires
            self.wf(),
            edits_in(self@, None) <= usize::MAX,
        ensures
            match self.confirm {
                Some(c) => r matches Some(a) && a@ == asked(self@, self.jobs@, c),
                None => r is None,
            },
    {
        match &self.confirm {
            None => None,
            Some(Confirm::DeleteRemote { what, folders, .. }) => {
                let mut text: Vec<Message> = Vec::new();
                text.push(Message::new("files-delete-confirm").text("what", what));
                let a = Asking {
                    title: Message::new("files-delete"),
                    text,
                    warning: if *folders {
                        Some(Message::new("files-delete-folders"))
                    } else {
                        None
                    },
                    button: Message::new("files-delete-now"),
                };
                proof {
                    assert(a@.text =~= asked(self@, self.jobs@, self.confirm->0).text);
                }
                Some(a)
            },
            Some(Confirm::RecycleLocal { what, .. }) => {
                let mut text: Vec<Message> = Vec::new();
                text.push(Message::new("files-recycle-confirm").text("what", what));
                let a = Asking {
                    title: Message::new("files-delete"),
                    text,
                    warning: None,
                    button: Message::new("files-recycle-now"),
                };
                proof {
                    assert(a@.text =~= asked(self@, self.jobs@, self.confirm->0).text);
                }
                Some(a)
            },
            Some(Confirm::CloseTab(id)) => Some(self.closing_asked(Some(*id))),
            Some(Confirm::CloseWindow) => Some(self.closing_asked(None)),
        }
    }

    fn closing_asked(&self, tab: Option<u64>) -> (r: Asking)
        requires
            edits_in(self@, None) <= usize::MAX,
        ensures
            r@ == closing(self@, self.jobs@, tab),
    {
        proof {
            lemma_edits_part(self@, tab);
        }
        let mut text: Vec<Message> = Vec::new();
        text.push(Message::new("files-close-running").number("count", self.running(tab) as i128));
        text.push(Message::new("files-close-edits").number("count", self.edits(tab) as i128));
        let a = Asking {
            title: Message::new("files-close-title"),
            text,
            warning: None,
            button: Message::new("files-close-now"),
        };
        proof {
            assert(a@.text =~= closing(self@, self.jobs@, tab).text);
        }
        a
    }

    /// The question was answered: what it is about is done (`yes`), or not.
    /// `title` is what the job is called where files of the server are
    /// deleted. What to delete comes back with the effects.
    pub fn confirmed(&mut self, yes: bool, title: String) -> (r: (Vec<Effect>, Option<Confirm>))
        requires
            old(self).wf(),
            old(self).next_id < u64::MAX,
        ensures
            final(self).wf(),
            final(self).confirm is None,
            r.1 == old(self).confirm,
            match old(self).confirm {
                Some(Confirm::DeleteRemote { tab, .. }) if yes => {
                    &&& final(self)@ == old(self)@
                    &&& *final(self) == (FilesWindow {
                        jobs: final(self).jobs,
                        next_id: final(self).next_id,
                        confirm: None,
                        ..*old(self)
                    })
                    &&& if is_connected(old(self)@, tab) {
                        &&& final(self).next_id == old(self).next_id + 1
                        &&& is_added(
                            old(self).jobs@,
                            final(self).jobs@,
                            old(self).next_id,
                            tab,
                            label_of(old(self)@, tab),
                            Kind::Delete,
                            title,
                            false,
                        )
                        &&& files_tab::effects(r.0@) == seq![EffectView::Delete(old(self).next_id)]
                    } else {
                        final(self).next_id == old(self).next_id && final(self).jobs == old(self).jobs && r.0@.len()
                            == 0
                    }
                },
                Some(Confirm::RecycleLocal { tab, .. }) if yes => {
                    &&& *final(self) == (FilesWindow { confirm: None, ..*old(self) })
                    &&& files_tab::effects(r.0@) == seq![EffectView::Recycle(tab)]
                },
                Some(Confirm::CloseTab(id)) if yes => {
                    let c = closed(old(self)@, old(self).jobs@, old(self).active as int, id);
                    &&& (After { tabs: final(self)@, effects: files_tab::effects(r.0@) }) == c.0
                    &&& final(self).active == c.1
                    &&& *final(self) == (FilesWindow {
                        tabs: final(self).tabs,
                        active: final(self).active,
                        confirm: None,
                        ..*old(self)
                    })
                },
                Some(Confirm::CloseWindow) if yes => {
                    &&& *final(self) == (FilesWindow { close: true, confirm: None, ..*old(self) })
                    &&& r.0@.len() == 0
                },
                _ => {
                    &&& *final(self) == (FilesWindow { confirm: None, ..*old(self) })
                    &&& r.0@.len() == 0
                },
            },
    {
        let mut c: Option<Confirm> = None;
        std::mem::swap(&mut c, &mut self.confirm);
        if !yes {
            return (Vec::new(), c);
        }
        let r = match &c {
            Some(Confirm::DeleteRemote { tab, .. }) => self.delete_remote(*tab, title),
            Some(Confirm::RecycleLocal { tab, .. }) => files_tab::one(Effect::Recycle(*tab)),
            Some(Confirm::CloseTab(id)) => self.close_tab(*id),
            Some(Confirm::CloseWindow) => {
                self.close = true;
                Vec::new()
            },
            None => Vec::new(),
        };
        (r, c)
    }

    /// The new folder's dialog was answered; `encoded` is the name typed,
    /// without the white space around it, as the server writes it. No name
    /// creates nothing.
    pub fn new_folder_done(&mut self, ok: bool, encoded: Option<Vec<u8>>, time: &str) -> (r: Vec<Effect>)
        requires
            old(self).wf(),
        ensures
            final(self).wf(),
            *final(self) == (FilesWindow { tabs: final(self).tabs, new_folder: None, ..*old(self) }),
            (After { tabs: final(self)@, effects: files_tab::effects(r@) }) == (match old(self).new_folder {
                Some(n) => match place_of(old(self)@, n.tab) {
                    Some(i) => if ok && text::trimmed(n.name@).len() > 0 {
                        changed(
                            old(self)@,
                            i,
                            files_tab::made(
                                old(self)@[i],
                                n.remote,
                                n.name@,
                                files_tab::optional_path(encoded),
                                time@,
                            ),
                        )
                    } else {
                        unchanged(old(self)@)
                    },
                    None => unchanged(old(self)@),
                },
                None => unchanged(old(self)@),
            }),
    {
        let mut n: Option<NewFolder> = None;
        std::mem::swap(&mut n, &mut self.new_folder);
        if let Some(n) = n {
            if ok && !text::is_blank(&n.name) {
                if let Some(i) = self.place(n.tab) {
                    let ghost before = self.tabs@;
                    let r = self.tabs[i].mkdir(n.remote, &n.name, encoded, time);
                    proof {
                        assert(tabs_of(self.tabs@) =~= tabs_of(before).update(i as int, self.tabs@[i as int]@));
                    }
                    return r;
                }
            }
        }
        files_tab::nothing()
    }

    /// The keys go to a list only where nothing else takes them.
    pub fn takes_keys(&self, typing: bool) -> (r: bool)
        ensures
            r == (!typing && self@.len() > 0 && self.question is None && self.confirm is None),
    {
        !typing && self.tabs.len() > 0 && self.question.is_none() && self.confirm.is_none()
    }

    /// After how many milliseconds the window is drawn again by itself:
    /// progress bars and edits move.
    pub fn next_look(&self) -> (r: Option<u64>)
        ensures
            r == (if files_jobs::running_in(self.jobs@, None) > 0 {
                Some(250u64)
            } else if edits_in(self@, None) > 0 {
                Some(1000u64)
            } else {
                None
            }),
    {
        if self.running(None) > 0 {
            Some(250)
        } else if self.busy(None) {
            Some(1000)
        } else {
            None
        }
    }

    /// Files were dropped from Explorer: they go to the session shown, if
    /// they were dropped on the server's side.
    pub fn dropped(&mut self, over_remote: bool, count: usize, title: String, time: &str) -> (r: Vec<Effect>)
        requires
            old(self).wf(),
            old(self).next_id < u64::MAX,
        ensures
            final(self).wf(),
            *final(self) == (FilesWindow {
                tabs: final(self).tabs,
                jobs: final(self).jobs,
                next_id: final(self).next_id,
                ..*old(self)
            }),
            old(self).active >= old(self)@.len() || count == 0 ==> *final(self) == *old(self) && r@.len() == 0,
            old(self).active < old(self)@.len() && count > 0 ==> {
                let id = old(self)@[old(self).active as int].id;
                if !over_remote {
                    &&& final(self)@ == log_at(
                        old(self)@,
                        id,
                        time@,
                        NoticeView::Said(message::said("files-drop-remote-only"@)),
                        true,
                    )
                    &&& final(self).jobs == old(self).jobs
                    &&& final(self).next_id == old(self).next_id
                    &&& r@.len() == 0
                } else {
                    &&& final(self)@ == old(self)@
                    &&& if is_connected(old(self)@, id) {
                        &&& final(self).next_id == old(self).next_id + 1
                        &&& is_added(
                            old(self).jobs@,
                            final(self).jobs@,
                            old(self).next_id,
                            id,
                            label_of(old(self)@, id),
                            Kind::Upload,
                            title,
                            true,
                        )
                        &&& files_tab::effects(r@) == seq![
                            EffectView::Into(
                                old(self).next_id,
                                old(self)@[place_of(old(self)@, id)->0].remote.path,
                            ),
                            EffectView::Run(old(self).next_id),
                        ]
                    } else {
                        final(self).next_id == old(self).next_id && final(self).jobs == old(self).jobs && r@.len() == 0
                    }
                }
            },
    {
        if self.active >= self.tabs.len() || count == 0 {
            return Vec::new();
        }
        let id = self.tabs[self.active].id;
        if over_remote {
            self.upload_to(id, count, None, title)
        } else {
            self.log(id, time, Notice::Said(Message::new("files-drop-remote-only")), true);
            Vec::new()
        }
    }

    /// Synchronize: the local folder shown with the server's folder shown;
    /// nothing where the drives are shown.
    pub fn open_sync(&mut self, id: u64) -> (r: Vec<Effect>)
        requires
            old(self).wf(),
        ensures
            *final(self) == (FilesWindow { sync: final(self).sync, ..*old(self) }),
            match place_of(old(self)@, id) {
                Some(i) if old(self)@[i].local.path is Some => {
                    let t = old(self)@[i];
                    &&& final(self).sync matches Some(d)
                    &&& d.tab == id
                    &&& d.host@ == t.label
                    &&& d.local@ == t.local.path_text
                    &&& d.remote@ == t.remote.path
                    &&& d.remote_text@ == t.remote.path_text
                    &&& d.mode == crate::files_sync::Mode::Both
                    &&& !d.delete_extra && !d.show_all && !d.confirming && d.off@.len() == 0
                    &&& if t.remote.connected {
                        d.scan is Running && files_tab::effects(r@) == seq![EffectView::Compare(id)]
                    } else {
                        d.scan matches Scan::Failed(n) && n@ == NoticeView::Plain(Seq::empty()) && r@.len() == 0
                    }
                },
                _ => final(self).sync == old(self).sync && r@.len() == 0,
            },
    {
        match self.place(id) {
            Some(i) => {
                if self.tabs[i].local.path.is_none() {
                    return Vec::new();
                }
                let on = self.tabs[i].remote.connected;
                let nothing = String::new();
                proof {
                    assert(nothing@ =~= Seq::empty());
                }
                let scan = if on {
                    Scan::Running
                } else {
                    Scan::Failed(Notice::Plain(nothing))
                };
                let host = text::owned(&self.tabs[i].label);
                let local = text::owned(&self.tabs[i].local.path_text);
                let remote = crate::files_list::copy_key(&self.tabs[i].remote.path);
                let shown = text::owned(&self.tabs[i].remote.path_text);
                self.sync = Some(SyncDialog::new(id, host, local, remote, shown, scan));
                if on {
                    files_tab::one(Effect::Compare(id))
                } else {
                    Vec::new()
                }
            },
            None => Vec::new(),
        }
    }

    /// The dialog's folders are compared again.
    pub fn compare(&mut self, id: u64) -> (r: Vec<Effect>)
        requires
            old(self).wf(),
        ensures
            *final(self) == (FilesWindow { sync: final(self).sync, ..*old(self) }),
            match old(self).sync {
                Some(d) if d.tab == id && is_connected(old(self)@, id) => {
                    &&& final(self).sync == Some(SyncDialog { scan: Scan::Running, ..d })
                    &&& files_tab::effects(r@) == seq![EffectView::Compare(id)]
                },
                _ => final(self).sync == old(self).sync && r@.len() == 0,
            },
    {
        if !self.is_on(id) {
            return Vec::new();
        }
        let mut s: Option<SyncDialog> = None;
        std::mem::swap(&mut s, &mut self.sync);
        match s {
            Some(d) => {
                let mut d = d;
                let ours = d.tab == id;
                if ours {
                    d.scan = Scan::Running;
                }
                self.sync = Some(d);
                if ours {
                    files_tab::one(Effect::Compare(id))
                } else {
                    Vec::new()
                }
            },
            None => Vec::new(),
        }
    }
}

/// A job as the queue shows it.
pub struct JobView {
    pub id: u64,
    pub tab: u64,
    pub host: Seq<char>,
    pub kind: Kind,
    pub title: Seq<char>,
    pub state: JobState,
    pub transfer: bool,
}

/// A job as the queue shows it.
pub open spec fn job_view(j: Job) -> JobView {
    JobView {
        id: j.id,
        tab: j.tab,
        host: j.host@,
        kind: j.kind,
        title: j.title@,
        state: j.state,
        transfer: j.transfer,
    }
}

/// The jobs as the queue shows them.
pub open spec fn job_views(v: Seq<Job>) -> Seq<JobView> {
    v.map_values(|j: Job| job_view(j))
}

/// A job that was just added.
pub open spec fn new_job(id: u64, tab: u64, host: Seq<char>, kind: Kind, title: Seq<char>) -> JobView {
    JobView { id, tab, host, kind, title, state: JobState::Running, transfer: kind != Kind::Delete }
}

/// Files to upload to a host as soon as its side is connected.
#[derive(Clone, Debug, PartialEq, Eq)]
pub struct Waiting {
    pub alias: String,
    /// How many files there are.
    pub count: usize,
    /// What the job is called.
    pub title: String,
}

/// The uploads that wait on: those for a host that isn't there, or isn't
/// connected yet.
pub open spec fn still_waiting(tabs: Seq<TabView>, waiting: Seq<Waiting>) -> Seq<Waiting> {
    waiting.filter(|w: Waiting| ready(tabs, w.alias@) is None)
}

/// The uploads that start: the jobs added, and what is to be done outside.
pub open spec fn uploads_started(tabs: Seq<TabView>, next: u64, waiting: Seq<Waiting>) -> (
    Seq<JobView>,
    Seq<EffectView>,
)
    decreases waiting.len(),
{
    if waiting.len() == 0 {
        (Seq::empty(), Seq::empty())
    } else {
        let (jobs, effects) = uploads_started(tabs, next, waiting.drop_last());
        let w = waiting.last();
        match ready(tabs, w.alias@) {
            Some(id) => if is_connected(tabs, id) && w.count > 0 {
                let job = (next + jobs.len()) as u64;
                (
                    jobs.push(new_job(job, id, label_of(tabs, id), Kind::Upload, w.title@)),
                    effects + seq![
                        EffectView::Into(job, tabs[place_of(tabs, id)->0].remote.path),
                        EffectView::Run(job),
                    ],
                )
            } else {
                (jobs, effects)
            },
            None => (jobs, effects),
        }
    }
}

proof fn lemma_uploads(tabs: Seq<TabView>, next: u64, waiting: Seq<Waiting>)
    ensures
        uploads_started(tabs, next, waiting).0.len() <= waiting.len(),
    decreases waiting.len(),
{
    if waiting.len() > 0 {
        lemma_uploads(tabs, next, waiting.drop_last());
    }
}

/// Sessions opened one after the other.
pub open spec fn opened_all(tabs: Seq<TabView>, active: int, next: int, specs: Seq<Spec>, time: Seq<char>) -> (
    After,
    int,
    int,
)
    decreases specs.len(),
{
    if specs.len() == 0 {
        (unchanged(tabs), active, next)
    } else {
        let (a, act, n) = opened_all(tabs, active, next, specs.drop_last(), time);
        let o = opened_session(a.tabs, act, n, specs.last(), time);
        (After { tabs: o.0.tabs, effects: a.effects + o.0.effects }, o.1, o.2)
    }
}

proof fn lemma_opened_next(tabs: Seq<TabView>, active: int, next: int, specs: Seq<Spec>, time: Seq<char>)
    ensures
        next <= opened_all(tabs, active, next, specs, time).2 <= next + specs.len(),
    decreases specs.len(),
{
    if specs.len() > 0 {
        lemma_opened_next(tabs, active, next, specs.drop_last(), time);
    }
}

/// What Synchronize starts: the jobs added, and what is to be done outside.
pub open spec fn sync_started(
    tabs: Seq<TabView>,
    next: u64,
    id: u64,
    plan: crate::files_sync::PlanView,
    up: Seq<char>,
    down: Seq<char>,
    delete: Seq<char>,
) -> (Seq<JobView>, Seq<EffectView>) {
    let host = label_of(tabs, id);
    let a = if plan.uploads.len() > 0 {
        (seq![new_job(next, id, host, Kind::Upload, up)], seq![EffectView::Run(next)])
    } else {
        (Seq::empty(), Seq::empty())
    };
    let n = (next + a.0.len()) as u64;
    let b = if plan.downloads.len() > 0 {
        (a.0.push(new_job(n, id, host, Kind::Download, down)), a.1.push(EffectView::Run(n)))
    } else {
        a
    };
    let m = (next + b.0.len()) as u64;
    let c = if plan.delete_remote.len() > 0 {
        (b.0.push(new_job(m, id, host, Kind::Delete, delete)), b.1.push(EffectView::Delete(m)))
    } else {
        b
    };
    if plan.delete_local.len() > 0 {
        (c.0, c.1.push(EffectView::Recycle(id)))
    } else {
        c
    }
}

proof fn lemma_added(before: Seq<Job>, after: Seq<Job>, id: u64, tab: u64, host: Seq<char>, kind: Kind, title: String)
    requires
        is_added(before, after, id, tab, host, kind, title, kind != Kind::Delete),
    ensures
        job_views(after) == job_views(before).push(new_job(id, tab, host, kind, title@)),
{
    assert(after =~= after.drop_last().push(after.last()));
    assert(job_views(after) =~= job_views(before).push(new_job(id, tab, host, kind, title@)));
}

impl FilesWindow {
    /// The sessions asked for since the window last looked.
    pub fn take_pending(&mut self, specs: Vec<Spec>, time: &str) -> (r: Vec<Effect>)
        requires
            old(self).wf(),
            old(self).next_id + specs@.len() <= u64::MAX,
        ensures
            final(self).wf(),
            ({
                let o = opened_all(old(self)@, old(self).active as int, old(self).next_id as int, specs@, time@);
                &&& (After { tabs: final(self)@, effects: files_tab::effects(r@) }) == o.0
                &&& final(self).active == o.1
                &&& final(self).next_id == o.2
            }),
            *final(self) == (FilesWindow {
                tabs: final(self).tabs,
                active: final(self).active,
                next_id: final(self).next_id,
                ..*old(self)
            }),
    {
        let ghost all = specs@;
        let mut rest = specs;
        let mut r: Vec<Effect> = Vec::new();
        let ghost mut i: int = 0;
        proof {
            assert(all.take(0) =~= Seq::empty());
            assert(files_tab::effects(r@) =~= Seq::empty());
            assert(all.skip(0) =~= all);
        }
        while rest.len() > 0
            invariant
                0 <= i <= all.len(),
                rest@ == all.skip(i),
                self.wf(),
                old(self).next_id + all.len() <= u64::MAX,
                ({
                    let o = opened_all(
                        old(self)@,
                        old(self).active as int,
                        old(self).next_id as int,
                        all.take(i),
                        time@,
                    );
                    &&& (After { tabs: self@, effects: files_tab::effects(r@) }) == o.0
                    &&& self.active == o.1
                    &&& self.next_id == o.2
                }),
                *self == (FilesWindow {
                    tabs: self.tabs,
                    active: self.active,
                    next_id: self.next_id,
                    ..*old(self)
                }),
            decreases rest@.len(),
        {
            proof {
                lemma_opened_next(
                    old(self)@,
                    old(self).active as int,
                    old(self).next_id as int,
                    all.take(i),
                    time@,
                );
                assert(all.take(i + 1).drop_last() =~= all.take(i));
                assert(all.take(i + 1).last() == all[i]);
                assert(rest@[0] == all[i]);
            }
            let spec = rest.remove(0);
            proof {
                assert(rest@ =~= all.skip(i + 1));
            }
            let e = self.open(spec, time);
            files_tab::also(&mut r, e);
            proof {
                i = i + 1;
            }
        }
        proof {
            assert(all.take(i) =~= all);
        }
        r
    }

    /// Starts the uploads whose host is ready; the others, which wait on,
    /// come back.
    pub fn take_pending_uploads(&mut self, waiting: Vec<Waiting>) -> (r: (Vec<Effect>, Vec<Waiting>))
        requires
            old(self).wf(),
            old(self).next_id + waiting@.len() <= u64::MAX,
        ensures
            final(self).wf(),
            final(self)@ == old(self)@,
            r.1@ == still_waiting(old(self)@, waiting@),
            files_tab::effects(r.0@) == uploads_started(old(self)@, old(self).next_id, waiting@).1,
            job_views(final(self).jobs@) == job_views(old(self).jobs@) + uploads_started(
                old(self)@,
                old(self).next_id,
                waiting@,
            ).0,
            final(self).next_id == old(self).next_id + uploads_started(old(self)@, old(self).next_id, waiting@).0.len(),
            *final(self) == (FilesWindow { jobs: final(self).jobs, next_id: final(self).next_id, ..*old(self) }),
    {
        let ghost all = waiting@;
        let ghost tabs = self@;
        let ghost next = self.next_id;
        let ghost f = |w: Waiting| ready(tabs, w.alias@) is None;
        let mut rest = waiting;
        let mut r: Vec<Effect> = Vec::new();
        let mut kept: Vec<Waiting> = Vec::new();
        let ghost mut i: int = 0;
        proof {
            reveal(Seq::filter);
            assert(all.take(0) =~= Seq::empty());
            assert(all.take(0).filter(f) =~= Seq::empty());
            assert(files_tab::effects(r@) =~= Seq::empty());
            assert(all.skip(0) =~= all);
            assert(job_views(self.jobs@) + uploads_started(tabs, next, all.take(0)).0 =~= job_views(self.jobs@));
        }
        while rest.len() > 0
            invariant
                0 <= i <= all.len(),
                rest@ == all.skip(i),
                self.wf(),
                tabs == old(self)@,
                next == old(self).next_id,
                self@ == tabs,
                next + all.len() <= u64::MAX,
                f == (|w: Waiting| ready(tabs, w.alias@) is None),
                kept@ == all.take(i).filter(f),
                files_tab::effects(r@) == uploads_started(tabs, next, all.take(i)).1,
                job_views(self.jobs@) == job_views(old(self).jobs@) + uploads_started(tabs, next, all.take(i)).0,
                self.next_id == next + uploads_started(tabs, next, all.take(i)).0.len(),
                *self == (FilesWindow { jobs: self.jobs, next_id: self.next_id, ..*old(self) }),
            decreases rest@.len(),
        {
            proof {
                reveal(Seq::filter);
                lemma_uploads(tabs, next, all.take(i));
                assert(all.take(i + 1).drop_last() =~= all.take(i));
                assert(all.take(i + 1).last() == all[i]);
                assert(rest@[0] == all[i]);
            }
            let w = rest.remove(0);
            proof {
                assert(rest@ =~= all.skip(i + 1));
            }
            match self.ready_for(&w.alias) {
                Some(id) => {
                    let ghost before = self.jobs@;
                    let ghost job = self.next_id;
                    let ghost had = uploads_started(tabs, next, all.take(i)).0;
                    let e = self.upload_to(id, w.count, None, w.title);
                    proof {
                        if is_connected(tabs, id) && w.count > 0 {
                            lemma_added(
                                before,
                                self.jobs@,
                                job,
                                id,
                                label_of(tabs, id),
                                Kind::Upload,
                                w.title,
                            );
                            let new = new_job(job, id, label_of(tabs, id), Kind::Upload, w.title@);
                            assert(job_views(old(self).jobs@) + had.push(new) =~= (job_views(old(self).jobs@)
                                + had).push(new));
                        } else {
                            assert(files_tab::effects(e@) =~= Seq::empty());
                            assert(files_tab::effects(r@) + files_tab::effects(e@) =~= files_tab::effects(r@));
                        }
                    }
                    files_tab::also(&mut r, e);
                },
                None => {
                    kept.push(w);
                },
            }
            proof {
                i = i + 1;
            }
        }
        proof {
            assert(all.take(i) =~= all);
        }
        (r, kept)
    }

    /// Synchronize's Start: the copies as transfers (pausable like any), the
    /// deletions as deletes (local ones to the Recycle Bin); the titles of
    /// the jobs.
    pub fn start_sync(
        &mut self,
        id: u64,
        plan: &crate::files_sync::Plan,
        up: String,
        down: String,
        delete: String,
        time: &str,
    ) -> (r: Vec<Effect>)
        requires
            old(self).wf(),
            old(self).next_id + 3 <= u64::MAX,
        ensures
            final(self).wf(),
            *final(self) == (FilesWindow {
                tabs: final(self).tabs,
                jobs: final(self).jobs,
                next_id: final(self).next_id,
                ..*old(self)
            }),
            if is_connected(old(self)@, id) {
                let s = sync_started(old(self)@, old(self).next_id, id, plan@, up@, down@, delete@);
                &&& final(self)@ == old(self)@
                &&& job_views(final(self).jobs@) == job_views(old(self).jobs@) + s.0
                &&& final(self).next_id == old(self).next_id + s.0.len()
                &&& files_tab::effects(r@) == s.1
            } else {
                &&& final(self)@ == log_at(old(self)@, id, time@, not_connected_said(), true)
                &&& final(self).jobs == old(self).jobs
                &&& final(self).next_id == old(self).next_id
                &&& r@.len() == 0
            },
    {
        if !self.is_on(id) {
            self.log(id, time, Notice::Said(Message::new("files-job-not-connected")), true);
            return Vec::new();
        }
        let ghost tabs = self@;
        let ghost next = self.next_id;
        let ghost start = job_views(self.jobs@);
        let ghost host = label_of(tabs, id);
        let mut r: Vec<Effect> = Vec::new();
        let ghost mut a: Seq<JobView> = Seq::empty();
        proof {
            assert(plan@.uploads.len() == plan.uploads@.len());
            assert(plan@.downloads.len() == plan.downloads@.len());
            assert(plan@.delete_remote.len() == plan.delete_remote@.len());
            assert(plan@.delete_local.len() == plan.delete_local@.len());
            assert(start + a =~= start);
            assert(files_tab::effects(r@) =~= Seq::empty());
        }
        if plan.uploads.len() > 0 {
            let ghost before = self.jobs@;
            let job = self.add_job(id, Kind::Upload, up, true);
            r.push(Effect::Run(job));
            proof {
                lemma_added(before, self.jobs@, job, id, host, Kind::Upload, up);
                a = seq![new_job(next, id, host, Kind::Upload, up@)];
                assert(job_views(self.jobs@) =~= start + a);
                assert(files_tab::effects(r@) =~= seq![EffectView::Run(next)]);
            }
        }
        if plan.downloads.len() > 0 {
            let ghost before = self.jobs@;
            let ghost sofar = r@;
            let ghost had = a;
            let job = self.add_job(id, Kind::Download, down, true);
            r.push(Effect::Run(job));
            proof {
                lemma_added(before, self.jobs@, job, id, host, Kind::Download, down);
                a = had.push(new_job(job, id, host, Kind::Download, down@));
                assert(job_views(self.jobs@) =~= start + a);
                assert(files_tab::effects(r@) =~= files_tab::effects(sofar).push(EffectView::Run(job)));
            }
        }
        if plan.delete_remote.len() > 0 {
            let ghost before = self.jobs@;
            let ghost sofar = r@;
            let ghost had = a;
            let job = self.add_job(id, Kind::Delete, delete, false);
            r.push(Effect::Delete(job));
            proof {
                lemma_added(before, self.jobs@, job, id, host, Kind::Delete, delete);
                a = had.push(new_job(job, id, host, Kind::Delete, delete@));
                assert(job_views(self.jobs@) =~= start + a);
                assert(files_tab::effects(r@) =~= files_tab::effects(sofar).push(EffectView::Delete(job)));
            }
        }
        if plan.delete_local.len() > 0 {
            let ghost sofar = r@;
            r.push(Effect::Recycle(id));
            proof {
                assert(files_tab::effects(r@) =~= files_tab::effects(sofar).push(EffectView::Recycle(id)));
            }
        }
        r
    }
}

/// What Synchronize's jobs are called.
pub fn sync_title(upload: bool, count: usize) -> (r: Message)
    ensures
        r@ == message::said(
            if upload {
                "files-job-sync-upload"@
            } else {
                "files-job-sync-download"@
            },
        ).number("count"@, count as int),
{
    if upload {
        Message::new("files-job-sync-upload").number("count", count as i128)
    } else {
        Message::new("files-job-sync-download").number("count", count as i128)
    }
}

proof fn lemma_edits_part(tabs: Seq<TabView>, tab: Option<u64>)
    ensures
        edits_in(tabs, tab) <= edits_in(tabs, None),
    decreases tabs.len(),
{
    if tabs.len() > 0 {
        lemma_edits_part(tabs.drop_last(), tab);
    }
}

proof fn lemma_host(tabs: Seq<TabView>, alias: Seq<char>)
    ensures
        host_place(tabs, alias) matches Some(i) ==> 0 <= i < tabs.len() && tabs[i].alias == alias,
        host_place(tabs, alias) is None ==> forall|j: int| 0 <= j < tabs.len() ==> (#[trigger] tabs[j]).alias != alias,
    decreases tabs.len(),
{
    if tabs.len() > 0 {
        let rest = tabs.drop_last();
        lemma_host(rest, alias);
        if host_place(rest, alias) is None {
            assert forall|j: int| 0 <= j < tabs.len() implies (#[trigger] tabs[j]).alias != alias
                || host_place(tabs, alias) is Some by {
                if j < rest.len() {
                    assert(rest[j] == tabs[j]);
                }
            }
        }
    }
}

/// No host has two sessions, and no two sessions the same number, which is
/// below the next one.
pub open spec fn apart(tabs: Seq<TabView>, next: int) -> bool {
    &&& forall|i: int, j: int|
        #![trigger tabs[i], tabs[j]]
        0 <= i < j < tabs.len() ==> tabs[i].alias != tabs[j].alias && tabs[i].id != tabs[j].id
    &&& forall|i: int| 0 <= i < tabs.len() ==> (#[trigger] tabs[i]).id < next
}

/// A host already there is shown, not opened twice: opening a session keeps
/// the hosts and the numbers apart.
pub proof fn law_one_session_per_host(tabs: Seq<TabView>, active: int, next: int, spec: Spec, time: Seq<char>)
    requires
        apart(tabs, next),
        0 <= next < u64::MAX,
    ensures
        ({
            let o = opened_session(tabs, active, next, spec, time);
            &&& apart(o.0.tabs, o.2)
            &&& 0 <= o.1 < o.0.tabs.len()
            &&& o.0.tabs[o.1].alias == spec.alias@
        }),
{
    lemma_host(tabs, spec.alias@);
    let o = opened_session(tabs, active, next, spec, time);
    let after = o.0.tabs;
    match host_place(tabs, spec.alias@) {
        Some(i) => {
            assert forall|a: int, b: int| #![trigger after[a], after[b]] 0 <= a < b < after.len() implies after[a].alias
                != after[b].alias && after[a].id != after[b].id by {
                assert(tabs[a].alias != tabs[b].alias && tabs[a].id != tabs[b].id);
            }
            assert forall|a: int| 0 <= a < after.len() implies (#[trigger] after[a]).id < o.2 by {
                assert(tabs[a].id < next);
            }
        },
        None => {
            assert forall|a: int, b: int| #![trigger after[a], after[b]] 0 <= a < b < after.len() implies after[a].alias
                != after[b].alias && after[a].id != after[b].id by {
                assert(after[a] == tabs[a]);
                assert(tabs[a].id < next);
                if b < tabs.len() {
                    assert(after[b] == tabs[b]);
                    assert(tabs[a].alias != tabs[b].alias && tabs[a].id != tabs[b].id);
                }
            }
            assert forall|a: int| 0 <= a < after.len() implies (#[trigger] after[a]).id < o.2 by {
                if a < tabs.len() {
                    assert(tabs[a].id < next);
                }
            }
        },
    }
}

/// A session that is not closed unasked keeps the window from closing
/// unasked.
pub proof fn law_a_busy_session_keeps_the_window(w: FilesWindow, id: u64)
    requires
        is_busy(w@, w.jobs@, Some(id)),
    ensures
        is_busy(w@, w.jobs@, None),
{
    lemma_edits_part(w@, Some(id));
    lemma_running_part(w.jobs@, id);
}

proof fn lemma_running_part(jobs: Seq<Job>, id: u64)
    ensures
        files_jobs::running_in(jobs, Some(id)) <= files_jobs::running_in(jobs, None),
    decreases jobs.len(),
{
    reveal(Seq::filter);
    let f = |j: Job| files_jobs::counts_as_running(j, Some(id));
    let g = |j: Job| files_jobs::counts_as_running(j, None);
    if jobs.len() > 0 {
        lemma_running_part(jobs.drop_last(), id);
        assert(jobs.filter(f).len() == jobs.drop_last().filter(f).len() + (if f(jobs.last()) {
            1int
        } else {
            0int
        }));
        assert(jobs.filter(g).len() == jobs.drop_last().filter(g).len() + (if g(jobs.last()) {
            1int
        } else {
            0int
        }));
    }
}

proof fn lemma_place_prefix(tabs: Seq<TabView>, n: int, id: u64)
    requires
        0 <= n <= tabs.len(),
        place_of(tabs.take(n), id) is Some,
    ensures
        place_of(tabs, id) == place_of(tabs.take(n), id),
    decreases tabs.len() - n,
{
    if n < tabs.len() {
        assert(tabs.take(n + 1).drop_last() =~= tabs.take(n));
        lemma_place_prefix(tabs, n + 1, id);
    } else {
        assert(tabs.take(n) =~= tabs);
    }
}

proof fn lemma_host_prefix(tabs: Seq<TabView>, n: int, alias: Seq<char>)
    requires
        0 <= n <= tabs.len(),
        host_place(tabs.take(n), alias) is Some,
    ensures
        host_place(tabs, alias) == host_place(tabs.take(n), alias),
    decreases tabs.len() - n,
{
    if n < tabs.len() {
        assert(tabs.take(n + 1).drop_last() =~= tabs.take(n));
        lemma_host_prefix(tabs, n + 1, alias);
    } else {
        assert(tabs.take(n) =~= tabs);
    }
}

proof fn lemma_job_prefix(jobs: Seq<Job>, n: int, id: u64)
    requires
        0 <= n <= jobs.len(),
        job_place(jobs.take(n), id) is Some,
    ensures
        job_place(jobs, id) == job_place(jobs.take(n), id),
    decreases jobs.len() - n,
{
    if n < jobs.len() {
        assert(jobs.take(n + 1).drop_last() =~= jobs.take(n));
        lemma_job_prefix(jobs, n + 1, id);
    } else {
        assert(jobs.take(n) =~= jobs);
    }
}

/// An event of one session leaves the others as they are.
pub proof fn law_other_sessions_stay(tabs: Seq<TabView>, id: u64, what: What, time: Seq<char>, j: int)
    requires
        !(what is JobDone),
        0 <= j < tabs.len(),
        tabs[j].id != id,
    ensures
        tabs_after(tabs, Seq::empty(), id, what, time).tabs[j] == tabs[j],
{
    lemma_place(tabs, id);
}

/// What was asked for since the window last looked.
pub struct Pending {
    pub specs: Vec<Spec>,
    /// Files dropped into a terminal tab, to be uploaded here.
    pub uploads: Vec<Waiting>,
}

impl Pending {
    /// Opens a session in the files window.
    pub fn open(&mut self, spec: Spec)
        ensures
            final(self).specs@ == old(self).specs@.push(spec),
            final(self).uploads == old(self).uploads,
    {
        self.specs.push(spec);
    }

    /// Uploads files to a host's current folder, once its side of the window
    /// is connected; no files are nothing to wait for.
    pub fn upload_into(&mut self, alias: &str, count: usize, title: String)
        ensures
            final(self).specs == old(self).specs,
            count == 0 ==> final(self).uploads == old(self).uploads,
            count > 0 ==> {
                &&& final(self).uploads@.len() == old(self).uploads@.len() + 1
                &&& final(self).uploads@.drop_last() == old(self).uploads@
                &&& final(self).uploads@.last().alias@ == alias@
                &&& final(self).uploads@.last().count == count
                &&& final(self).uploads@.last().title == title
            },
    {
        if count == 0 {
            return;
        }
        let ghost before = self.uploads@;
        self.uploads.push(Waiting { alias: text::owned(alias), count, title });
        proof {
            assert(self.uploads@.drop_last() =~= before);
        }
    }
}

/// What was clicked or typed on the server's side.
pub enum RemoteClick {
    Up,
    Refresh,
    /// A folder was typed; the name as the server writes it.
    GoTo(String, Option<Vec<u8>>),
    /// A folder of the tree was clicked.
    Show(Vec<u8>),
    /// A chevron of the tree was clicked.
    Toggle(Vec<u8>),
    /// A row was double-clicked, or "Open" picked.
    Open(usize),
    Edit(usize),
    /// "Rename" was picked for a row.
    Rename(usize),
    /// A row was renamed: its key, the name typed, as the server writes it.
    Renamed(Vec<u8>, String, Option<Vec<u8>>),
    Reconnect,
}

/// What a click on the server's side does to the session shown.
pub open spec fn remote_click(t: TabView, click: RemoteClick, time: Seq<char>) -> (TabView, Seq<EffectView>) {
    match click {
        RemoteClick::Up => files_tab::gone_to(t, crate::files_text::parent_of(t.remote.path)),
        RemoteClick::Refresh => files_tab::asked_for(t, t.remote.path),
        RemoteClick::GoTo(typed, encoded) => match files_tab::optional_path(encoded) {
            Some(p) if p.len() > 0 => files_tab::gone_to(t, p),
            _ => (files_tab::bad_name(t, typed@, time), Seq::empty()),
        },
        RemoteClick::Show(p) => files_tab::gone_to(t, p@),
        RemoteClick::Toggle(p) => files_tab::toggled(t, p@),
        RemoteClick::Open(i) => files_tab::opened_row(t, i as int),
        RemoteClick::Edit(i) => files_tab::edited(t, i as int),
        RemoteClick::Rename(i) => (
            TabView {
                remote: files_tab::RemoteView {
                    renaming: Some((t.remote.rows[i as int].key, t.remote.rows[i as int].name)),
                    ..t.remote
                },
                ..t
            },
            Seq::empty(),
        ),
        RemoteClick::Renamed(key, typed, encoded) => files_tab::renamed(
            t,
            key@,
            typed@,
            files_tab::optional_path(encoded),
            time,
        ),
        RemoteClick::Reconnect => files_tab::connecting(t, time),
    }
}

/// A click that names a row names one that is there.
pub open spec fn fits(click: RemoteClick, rows: nat) -> bool {
    match click {
        RemoteClick::Edit(i) => i < rows,
        RemoteClick::Rename(i) => i < rows,
        _ => true,
    }
}

/// What was clicked or typed on the local side.
pub enum LocalClick {
    /// One level up; what is above the folder (the drives are above a
    /// drive).
    Up(Option<Vec<u8>>),
    Refresh,
    /// A folder was typed, and as a path.
    GoTo(String, Vec<u8>),
    Show(Vec<u8>),
    Toggle(Vec<u8>),
    Open(usize),
    Rename(usize),
    Renamed(Vec<u8>, String),
}

/// What a click on the local side does to the session shown.
pub open spec fn local_click(t: TabView, click: LocalClick, time: Seq<char>) -> (TabView, Seq<EffectView>) {
    match click {
        LocalClick::Up(parent) => files_tab::gone_local(t, files_tab::optional_path(parent)),
        LocalClick::Refresh => files_tab::gone_local(t, t.local.path),
        LocalClick::GoTo(typed, path) => files_tab::gone_local(
            t,
            if text::trimmed(typed@).len() == 0 {
                None
            } else {
                Some(path@)
            },
        ),
        LocalClick::Show(p) => files_tab::gone_local(t, Some(p@)),
        LocalClick::Toggle(p) => files_tab::toggled_local(t, p@),
        LocalClick::Open(i) => files_tab::opened_local_row(t, i as int),
        LocalClick::Rename(i) => (
            TabView {
                local: files_tab::LocalView {
                    renaming: Some((t.local.rows[i as int].key, t.local.rows[i as int].name)),
                    ..t.local
                },
                ..t
            },
            Seq::empty(),
        ),
        LocalClick::Renamed(key, typed) => files_tab::renamed_local(t, key@, typed@, time),
    }
}

impl FilesWindow {
    /// Something was clicked or typed on the server's side of the session
    /// shown.
    pub fn remote_side(&mut self, click: RemoteClick, time: &str) -> (r: Vec<Effect>)
        requires
            old(self).wf(),
            old(self).active < old(self)@.len(),
            fits(click, old(self)@[old(self).active as int].remote.rows.len()),
        ensures
            final(self).wf(),
            (After { tabs: final(self)@, effects: files_tab::effects(r@) }) == changed(
                old(self)@,
                old(self).active as int,
                remote_click(old(self)@[old(self).active as int], click, time@),
            ),
            *final(self) == (FilesWindow { tabs: final(self).tabs, ..*old(self) }),
    {
        let i = self.active;
        let ghost before = self.tabs@;
        let r = match click {
            RemoteClick::Up => self.tabs[i].up(),
            RemoteClick::Refresh => self.tabs[i].refresh(),
            RemoteClick::GoTo(typed, encoded) => self.tabs[i].go_to(&typed, encoded, time),
            RemoteClick::Show(p) => self.tabs[i].go(p),
            RemoteClick::Toggle(p) => self.tabs[i].toggle_remote(p),
            RemoteClick::Open(k) => self.tabs[i].open_remote(k),
            RemoteClick::Edit(k) => self.tabs[i].edit(k),
            RemoteClick::Rename(k) => {
                self.tabs[i].start_renaming(true, k);
                files_tab::nothing()
            },
            RemoteClick::Renamed(key, typed, encoded) => self.tabs[i].rename_remote(&key, &typed, encoded, time),
            RemoteClick::Reconnect => self.tabs[i].connect(time),
        };
        proof {
            assert(tabs_of(self.tabs@) =~= tabs_of(before).update(i as int, self.tabs@[i as int]@));
        }
        r
    }

    /// Something was clicked or typed on the local side of the session
    /// shown.
    pub fn local_side(&mut self, click: LocalClick, time: &str) -> (r: Vec<Effect>)
        requires
            old(self).wf(),
            old(self).active < old(self)@.len(),
            click matches LocalClick::Rename(i) ==> i < old(self)@[old(self).active as int].local.rows.len(),
        ensures
            final(self).wf(),
            (After { tabs: final(self)@, effects: files_tab::effects(r@) }) == changed(
                old(self)@,
                old(self).active as int,
                local_click(old(self)@[old(self).active as int], click, time@),
            ),
            *final(self) == (FilesWindow { tabs: final(self).tabs, ..*old(self) }),
    {
        let i = self.active;
        let ghost before = self.tabs@;
        let r = match click {
            LocalClick::Up(parent) => self.tabs[i].list_local(parent),
            LocalClick::Refresh => self.tabs[i].refresh_local(),
            LocalClick::GoTo(typed, path) => self.tabs[i].go_to_local(&typed, path),
            LocalClick::Show(p) => self.tabs[i].list_local(Some(p)),
            LocalClick::Toggle(p) => self.tabs[i].toggle_local(p),
            LocalClick::Open(k) => self.tabs[i].open_local(k),
            LocalClick::Rename(k) => {
                self.tabs[i].start_renaming(false, k);
                files_tab::nothing()
            },
            LocalClick::Renamed(key, typed) => self.tabs[i].rename_local(key, &typed, time),
        };
        proof {
            assert(tabs_of(self.tabs@) =~= tabs_of(before).update(i as int, self.tabs@[i as int]@));
        }
        r
    }

    /// A tab of either row was clicked: both rows move together, and keys go
    /// to the side that was clicked.
    pub fn show_tab(&mut self, i: usize, remote: bool)
        requires
            i < old(self)@.len(),
        ensures
            *final(self) == (FilesWindow { active: i, remote_focus: remote, ..*old(self) }),
    {
        self.active = i;
        self.remote_focus = remote;
    }
}

/// Whatever is done on the server's side without a connection asks nothing
/// of the server but to connect.
pub proof fn law_no_connection_no_request(t: TabView, click: RemoteClick, time: Seq<char>)
    requires
        !t.remote.connected,
        !(click is Reconnect),
    ensures
        remote_click(t, click, time).1.len() == 0,
{
}

/// Rows that are dragged: of which session, and from which side.
#[derive(Clone, Copy, Debug, PartialEq, Eq, Structural)]
pub struct Dragged {
    pub tab: u64,
    pub from_remote: bool,
}

impl FilesWindow {
    /// Whether a side (`remote`: the server's) takes rows that are dropped
    /// on its list or on a folder of its tree: those of the other side of
    /// the session that is shown. The session is given where it does.
    pub fn takes_drop(&self, dragged: &Dragged, remote: bool) -> (r: Option<u64>)
        ensures
            r == (if self.active < self@.len() && self@[self.active as int].id == dragged.tab && dragged.from_remote
                != remote {
                Some(dragged.tab)
            } else {
                None
            }),
    {
        if self.active < self.tabs.len() && self.tabs[self.active].id == dragged.tab && dragged.from_remote != remote {
            Some(dragged.tab)
        } else {
            None
        }
    }
}

/// A tab is found by its number or its host and a job by its number, the
/// first of several.
pub proof fn law_finding_tabs_and_jobs(tabs: Seq<TabView>, jobs: Seq<Job>, id: u64, alias: Seq<char>)
    ensures
        place_of(tabs, id) matches Some(i) ==> 0 <= i < tabs.len() && tabs[i].id == id && forall|j: int|
            0 <= j < i ==> (#[trigger] tabs[j]).id != id,
        place_of(tabs, id) is None ==> forall|j: int| 0 <= j < tabs.len() ==> (#[trigger] tabs[j]).id != id,
        host_place(tabs, alias) matches Some(i) ==> 0 <= i < tabs.len() && tabs[i].alias == alias && forall|j: int|
            0 <= j < i ==> (#[trigger] tabs[j]).alias != alias,
        host_place(tabs, alias) is None ==> forall|j: int| 0 <= j < tabs.len() ==> (#[trigger] tabs[j]).alias != alias,
        job_place(jobs, id) matches Some(i) ==> 0 <= i < jobs.len() && jobs[i].id == id && forall|j: int|
            0 <= j < i ==> (#[trigger] jobs[j]).id != id,
        job_place(jobs, id) is None ==> forall|j: int| 0 <= j < jobs.len() ==> (#[trigger] jobs[j]).id != id,
    decreases tabs.len() + jobs.len(),
{
    if tabs.len() > 0 {
        law_finding_tabs_and_jobs(tabs.drop_last(), Seq::empty(), id, alias);
        assert forall|j: int| 0 <= j < tabs.len() - 1 implies tabs.drop_last()[j] == #[trigger] tabs[j] by {}
    }
    if jobs.len() > 0 {
        law_finding_tabs_and_jobs(Seq::empty(), jobs.drop_last(), id, alias);
        assert forall|j: int| 0 <= j < jobs.len() - 1 implies jobs.drop_last()[j] == #[trigger] jobs[j] by {}
    }
}

/// What happens to a tab reaches that tab alone, and one that is gone
/// changes nothing.
pub proof fn law_events_reach_their_tab(
    tabs: Seq<TabView>,
    jobs: Seq<Job>,
    id: u64,
    what: What,
    time: Seq<char>,
    said: NoticeView,
    error: bool,
)
    ensures
        place_of(tabs, id) is None ==> log_at(tabs, id, time, said, error) == tabs && refreshed(tabs, id).tabs == tabs
            && refreshed(tabs, id).effects.len() == 0 && refreshed_local(tabs, id).tabs == tabs && refreshed_local(
            tabs,
            id,
        ).effects.len() == 0,
        place_of(tabs, id) matches Some(i) ==> log_at(tabs, id, time, said, error) == tabs.update(
            i,
            files_tab::logged(tabs[i], time, said, error),
        ),
        place_of(tabs, id) matches Some(i) ==> refreshed(tabs, id).tabs == tabs.update(
            i,
            files_tab::asked_for(tabs[i], tabs[i].remote.path).0,
        ) && refreshed(tabs, id).effects == files_tab::asked_for(tabs[i], tabs[i].remote.path).1,
        place_of(tabs, id) matches Some(i) ==> refreshed_local(tabs, id).tabs == tabs.update(
            i,
            files_tab::gone_local(tabs[i], tabs[i].local.path).0,
        ) && refreshed_local(tabs, id).effects == files_tab::gone_local(tabs[i], tabs[i].local.path).1,
        !(what is JobDone) && place_of(tabs, id) is None ==> tabs_after(tabs, jobs, id, what, time).tabs == tabs
            && tabs_after(tabs, jobs, id, what, time).effects.len() == 0,
        !(what is JobDone) ==> (place_of(tabs, id) matches Some(i) ==> tabs_after(tabs, jobs, id, what, time).tabs
            == tabs.update(i, tab_event(tabs[i], what, time).0) && tabs_after(tabs, jobs, id, what, time).effects
            == tab_event(tabs[i], what, time).1),
        !(what is JobDone) ==> jobs_after(jobs, what) == jobs,
{
}

/// What each event does to its tab.
pub proof fn law_what_events_do(t: TabView, what: What, time: Seq<char>)
    ensures
        ({
            let after = tab_event(t, what, time);
            match what {
                What::Connected { start, shown } => after == files_tab::now_connected(t, start@, shown@, time),
                What::Failed(e) => after.0 == files_tab::not_connected(t, e@, time) && after.1.len() == 0,
                What::Listed { path, shown, result, closed } => {
                    &&& result matches Ok(rows) ==> after == files_tab::now_listed(
                        t,
                        path@,
                        shown@,
                        Ok(crate::files_list::rows(rows@)),
                        text::optional(closed),
                        time,
                    )
                    &&& result matches Err(e) ==> after == files_tab::now_listed(
                        t,
                        path@,
                        shown@,
                        Err(e@),
                        text::optional(closed),
                        time,
                    )
                },
                What::LocalListed { path, shown, chain, result } => {
                    &&& result matches Ok(rows) ==> after == files_tab::now_listed_local(
                        t,
                        files_tab::optional_path(path),
                        shown@,
                        crate::files_text::paths(chain@),
                        Ok(crate::files_list::rows(rows@)),
                    )
                    &&& result matches Err(e) ==> after == files_tab::now_listed_local(
                        t,
                        files_tab::optional_path(path),
                        shown@,
                        crate::files_text::paths(chain@),
                        Err(e@),
                    )
                },
                What::Said(words, error) => after.0 == files_tab::logged(t, time, NoticeView::Plain(words@), error)
                    && after.1.len() == 0,
                What::Refresh => after == files_tab::asked_for(t, t.remote.path),
                What::LocalRefresh => after == files_tab::gone_local(t, t.local.path),
                What::RemoteTree { path, folders } => after.1.len() == 0 && after.0 == (TabView {
                    remote_tree: crate::files_tree::filled(t.remote_tree, path@, crate::files_tree::folders(folders@)),
                    ..t
                }),
                What::LocalTree { path, folders } => after.1.len() == 0 && after.0 == (TabView {
                    local_tree: crate::files_tree::filled(t.local_tree, path@, crate::files_tree::folders(folders@)),
                    ..t
                }),
                What::JobDone { .. } | What::Ask { .. } | What::Compared(_) => after == (t, Seq::<EffectView>::empty()),
            }
        }),
{
}

/// A job that is done is told in its tab, whose list is read again: this
/// computer's after a download, the server's after anything else.
pub proof fn law_a_job_is_done(tabs: Seq<TabView>, jobs: Seq<Job>, id: u64, job: u64, end: JobEnd, paused: bool, time: Seq<char>)
    ensures
        ({
            let what = What::JobDone { job, end, paused };
            let after = tabs_after(tabs, jobs, id, what, time);
            &&& job_place(jobs, job) is None ==> after.tabs == tabs && after.effects.len() == 0 && jobs_after(jobs, what)
                == jobs
            &&& job_place(jobs, job) matches Some(j) ==> {
                let state = files_jobs::state_after(end, paused);
                let said = files_jobs::said_after(jobs[j].title@, state);
                let told = log_at(tabs, jobs[j].tab, time, said.0, said.1);
                &&& jobs[j].kind is Download ==> after == refreshed_local(told, jobs[j].tab)
                &&& jobs[j].kind is Upload || jobs[j].kind is Delete ==> after == refreshed(told, jobs[j].tab)
                &&& jobs_after(jobs, what) == jobs.update(j, Job { state, ..jobs[j] })
            }
        }),
{
}

/// A question that is closed unanswered is told so; a tab that is asked for
/// comes to the front.
pub proof fn law_questions(q: Option<Question>, tabs: Seq<TabView>, active: usize, id: u64, prompt: String, secret: bool)
    ensures
        q is None ==> unanswered(q).len() == 0,
        q is Some ==> unanswered(q) == seq![EffectView::Answer(None)],
        now_asked(q, id, prompt, secret) ==> q is Some && q->0.tab == id && q->0.prompt == prompt && q->0.secret == secret
            && q->0.typed@.len() == 0,
        place_of(tabs, id) is None ==> active_after(tabs, active, id) == active,
        place_of(tabs, id) matches Some(i) ==> active_after(tabs, active, id) == i,
{
}

/// A comparison that is done is shown where it was asked for, and why it
/// failed, or that it was cancelled.
pub proof fn law_comparisons(
    before: Option<SyncDialog>,
    after: Option<SyncDialog>,
    id: u64,
    found: Vec<Found>,
    why: String,
)
    ensures
        !(before matches Some(d) && d.tab == id) && now_compared(before, after, id, Ok(found)) ==> after == before,
        before matches Some(d) ==> (d.tab == id && now_compared(before, after, id, Ok(found)) ==> after == Some(
            SyncDialog { scan: Scan::Done(found), ..d },
        )),
        before matches Some(d) ==> (d.tab == id && now_compared(before, after, id, Err(Some(why))) ==> (after matches Some(e)
            && e.tab == id && (e.scan matches Scan::Failed(n) && n@ == NoticeView::Plain(why@)))),
        before matches Some(d) ==> (d.tab == id && now_compared(before, after, id, Err(None)) ==> (after matches Some(e)
            && e.tab == id && (e.scan matches Scan::Failed(n) && n@ == NoticeView::Said(
            message::said("files-sync-cancelled"@),
        )))),
{
}

/// A host that has a tab comes to the front, and follows the session named;
/// one that has none gets a tab of its own, which connects and reads this
/// computer's files.
pub proof fn law_opening_a_host(tabs: Seq<TabView>, active: int, next: int, spec: Spec, time: Seq<char>)
    ensures
        ({
            let o = opened_session(tabs, active, next, spec, time);
            &&& host_place(tabs, spec.alias@) matches Some(i) ==> o.1 == i && o.2 == next && (spec.tmux_session is None
                ==> o.0.tabs == tabs && o.0.effects.len() == 0) && (spec.tmux_session matches Some(s) ==> o.0.tabs
                == tabs.update(i, TabView { tmux_session: Some(s@), ..tabs[i] }) && (tabs[i].remote.connected
                ==> o.0.effects == seq![EffectView::Follow(tabs[i].id)]) && (!tabs[i].remote.connected ==> o.0.effects.len()
                == 0))
            &&& host_place(tabs, spec.alias@) is None ==> {
                let t = files_tab::fresh(
                    next as u64,
                    spec.alias@,
                    spec.label@,
                    text::optional(spec.tmux_session),
                    spec.memory,
                );
                &&& o.1 == tabs.len() && o.2 == next + 1
                &&& o.0.tabs == tabs.push(files_tab::connecting(t, time).0)
                &&& o.0.effects == seq![EffectView::Connect(next as u64), EffectView::StartLocal(next as u64)]
            }
        }),
{
    assert(seq![EffectView::Connect(next as u64)].push(EffectView::StartLocal(next as u64)) =~= seq![
        EffectView::Connect(next as u64),
        EffectView::StartLocal(next as u64),
    ]);
}

/// Several hosts are opened one after another.
pub proof fn law_opening_hosts(tabs: Seq<TabView>, active: int, next: int, specs: Seq<Spec>, spec: Spec, time: Seq<char>)
    ensures
        ({
            let a = opened_all(tabs, active, next, specs, time);
            let o = opened_session(a.0.tabs, a.1, a.2, spec, time);
            let all = opened_all(tabs, active, next, specs.push(spec), time);
            &&& all.0.tabs == o.0.tabs && all.0.effects == a.0.effects + o.0.effects && all.1 == o.1 && all.2 == o.2
        }),
        opened_all(tabs, active, next, Seq::empty(), time).0.tabs == tabs,
        opened_all(tabs, active, next, Seq::empty(), time).0.effects.len() == 0,
        opened_all(tabs, active, next, Seq::empty(), time).1 == active,
        opened_all(tabs, active, next, Seq::empty(), time).2 == next,
{
    assert(specs.push(spec).drop_last() =~= specs);
}

/// A tab takes files once it is connected and stands in a folder.
pub proof fn law_tabs_that_are_ready(tabs: Seq<TabView>, alias: Seq<char>, id: u64)
    ensures
        host_place(tabs, alias) is None ==> ready(tabs, alias) is None,
        host_place(tabs, alias) matches Some(i) ==> (ready(tabs, alias) is Some <==> tabs[i].remote.connected
            && tabs[i].remote.path.len() > 0),
        host_place(tabs, alias) matches Some(i) ==> (ready(tabs, alias) matches Some(n) ==> n == tabs[i].id),
        place_of(tabs, id) is None ==> !is_connected(tabs, id) && label_of(tabs, id).len() == 0,
        place_of(tabs, id) matches Some(i) ==> is_connected(tabs, id) == tabs[i].remote.connected && label_of(tabs, id)
            == tabs[i].label,
{
}

/// A job that is added runs, and stands last.
pub proof fn law_jobs_added(
    before: Seq<Job>,
    after: Seq<Job>,
    id: u64,
    tab: u64,
    host: Seq<char>,
    kind: Kind,
    title: String,
    transfer: bool,
)
    requires
        is_added(before, after, id, tab, host, kind, title, transfer),
    ensures
        after == before.push(after.last()),
        after.last().id == id && after.last().tab == tab && after.last().host@ == host && after.last().kind == kind
            && after.last().title == title && after.last().state is Running && after.last().transfer == transfer,
{
    assert(after =~= after.drop_last().push(after.last()));
}

/// Only a transfer is run again; a job that deletes is none.
pub proof fn law_jobs_run_again(jobs: Seq<Job>, job: u64, id: u64, tab: u64, host: Seq<char>, title: Seq<char>)
    ensures
        job_place(jobs, job) is None ==> run_needs(jobs, job) is None,
        job_place(jobs, job) matches Some(j) ==> (jobs[j].transfer ==> run_needs(jobs, job) == Some(j)) && (
        !jobs[j].transfer ==> run_needs(jobs, job) is None),
        new_job(id, tab, host, Kind::Upload, title).transfer,
        new_job(id, tab, host, Kind::Download, title).transfer,
        !new_job(id, tab, host, Kind::Delete, title).transfer,
        forall|k: Kind| #[trigger] new_job(id, tab, host, k, title).state is Running && new_job(id, tab, host, k, title).id
            == id && new_job(id, tab, host, k, title).tab == tab && new_job(id, tab, host, k, title).host == host && new_job(
            id,
            tab,
            host,
            k,
            title,
        ).kind == k && new_job(id, tab, host, k, title).title == title,
        not_connected_said() == NoticeView::Said(message::said("files-job-not-connected"@)),
{
}

/// Files being edited are counted, in one tab or in all; a tab or the window
/// is busy while it runs jobs or edits files.
pub proof fn law_what_is_busy(tabs: Seq<TabView>, t: TabView, jobs: Seq<Job>, id: u64, tab: Option<u64>)
    ensures
        edits_in(Seq::empty(), tab) == 0,
        edits_in(tabs.push(t), None) == edits_in(tabs, None) + t.edits.len(),
        t.id == id ==> edits_in(tabs.push(t), Some(id)) == edits_in(tabs, Some(id)) + t.edits.len(),
        t.id != id ==> edits_in(tabs.push(t), Some(id)) == edits_in(tabs, Some(id)),
        is_busy(tabs, jobs, tab) <==> files_jobs::running_in(jobs, tab) > 0 || edits_in(tabs, tab) > 0,
{
    assert(tabs.push(t).drop_last() =~= tabs);
}

/// Closing pauses the jobs of what is closed, in order, and ends its tabs.
pub proof fn law_closing_pauses(tabs: Seq<TabView>, jobs: Seq<Job>, j: Job, id: u64, i: int)
    ensures
        pauses(Seq::empty(), Some(id)).len() == 0 && pauses(Seq::empty(), None).len() == 0,
        pauses(jobs.push(j), None) == pauses(jobs, None).push(EffectView::Pause(j.id)),
        j.tab == id ==> pauses(jobs.push(j), Some(id)) == pauses(jobs, Some(id)).push(EffectView::Pause(j.id)),
        j.tab != id ==> pauses(jobs.push(j), Some(id)) == pauses(jobs, Some(id)),
        ends(tabs).len() == tabs.len(),
        0 <= i < tabs.len() ==> ends(tabs)[i] == EffectView::End(tabs[i].id),
{
    assert(jobs.push(j).drop_last() =~= jobs);
}

/// A tab that is closed leaves the others as they stand, and the one in front
/// stays in front, or the last does.
pub proof fn law_closing_a_tab(tabs: Seq<TabView>, jobs: Seq<Job>, active: int, id: u64)
    requires
        active >= 0,
    ensures
        ({
            let after = closed(tabs, jobs, active, id);
            &&& place_of(tabs, id) is None ==> after.0.tabs == tabs && after.0.effects == pauses(jobs, Some(id)) && after.1
                == active
            &&& place_of(tabs, id) matches Some(i) ==> after.0.tabs == tabs.remove(i) && after.0.effects == pauses(
                jobs,
                Some(id),
            ).push(EffectView::End(id)) && (active < tabs.len() - 1 ==> after.1 == active) && (active >= tabs.len() - 1
                && tabs.len() >= 2 ==> after.1 == tabs.len() - 2) && (tabs.len() == 1 ==> after.1 == 0)
        }),
{
    law_finding_tabs_and_jobs(tabs, jobs, id, Seq::empty());
}

/// What is asked before something is deleted or closed.
pub proof fn law_what_is_asked(tabs: Seq<TabView>, jobs: Seq<Job>, c: Confirm, tab: Option<u64>)
    ensures
        ({
            let a = closing(tabs, jobs, tab);
            &&& a.title == message::said("files-close-title"@) && a.button == message::said("files-close-now"@) && a.warning
                is None && a.text.len() == 2
            &&& a.text[0] == message::said("files-close-running"@).number("count"@, files_jobs::running_in(jobs, tab) as int)
            &&& a.text[1] == message::said("files-close-edits"@).number("count"@, edits_in(tabs, tab) as int)
        }),
        ({
            let a = asked(tabs, jobs, c);
            match c {
                Confirm::DeleteRemote { tab, items, what, folders } => a.title == message::said("files-delete"@) && a.text
                    == seq![message::said("files-delete-confirm"@).text("what"@, what@)] && (a.warning is Some <==> folders)
                    && (folders ==> a.warning == Some(message::said("files-delete-folders"@))) && a.button == message::said(
                    "files-delete-now"@,
                ),
                Confirm::RecycleLocal { tab, paths, what } => a.title == message::said("files-delete"@) && a.text == seq![
                    message::said("files-recycle-confirm"@).text("what"@, what@),
                ] && a.warning is None && a.button == message::said("files-recycle-now"@),
                Confirm::CloseTab(id) => a == closing(tabs, jobs, Some(id)),
                Confirm::CloseWindow => a == closing(tabs, jobs, None),
            }
        }),
{
}

/// Files that wait for their host are sent once its tab is ready, in order,
/// under numbers that follow each other.
pub proof fn law_waiting_uploads(tabs: Seq<TabView>, next: u64, waiting: Seq<Waiting>, w: Waiting)
    ensures
        uploads_started(tabs, next, Seq::empty()).0.len() == 0 && uploads_started(tabs, next, Seq::empty()).1.len() == 0,
        ({
            let a = uploads_started(tabs, next, waiting);
            let b = uploads_started(tabs, next, waiting.push(w));
            let job = (next + a.0.len()) as u64;
            &&& ready(tabs, w.alias@) is None || w.count == 0 ==> b == a
            &&& ready(tabs, w.alias@) matches Some(id) ==> (w.count > 0 && is_connected(tabs, id) ==> b.0 == a.0.push(
                new_job(job, id, label_of(tabs, id), Kind::Upload, w.title@),
            ) && b.1 == a.1.push(EffectView::Into(job, tabs[place_of(tabs, id)->0].remote.path)).push(EffectView::Run(job)))
        }),
        still_waiting(tabs, Seq::empty()).len() == 0,
        ready(tabs, w.alias@) is None ==> still_waiting(tabs, waiting.push(w)) == still_waiting(tabs, waiting).push(w),
        ready(tabs, w.alias@) is Some ==> still_waiting(tabs, waiting.push(w)) == still_waiting(tabs, waiting),
{
    assert(waiting.push(w).drop_last() =~= waiting);
    reveal(Seq::filter);
    let a = uploads_started(tabs, next, waiting);
    let job = (next + a.0.len()) as u64;
    if let Some(id) = ready(tabs, w.alias@) {
        let path = tabs[place_of(tabs, id)->0].remote.path;
        assert(a.1 + seq![EffectView::Into(job, path), EffectView::Run(job)] =~= a.1.push(
            EffectView::Into(job, path),
        ).push(EffectView::Run(job)));
    }
}

/// A comparison that is carried out uploads, downloads and deletes on the
/// server in jobs of their own, and hands this computer's files to the bin;
/// what there is nothing of is left out.
pub proof fn law_carrying_out_a_comparison(
    tabs: Seq<TabView>,
    next: u64,
    id: u64,
    plan: crate::files_sync::PlanView,
    up: Seq<char>,
    down: Seq<char>,
    delete: Seq<char>,
)
    requires
        next < u64::MAX - 3,
    ensures
        ({
            let done = sync_started(tabs, next, id, plan, up, down, delete);
            let host = label_of(tabs, id);
            let u = if plan.uploads.len() > 0 { 1int } else { 0 };
            let d = if plan.downloads.len() > 0 { 1int } else { 0 };
            let x = if plan.delete_remote.len() > 0 { 1int } else { 0 };
            let r = if plan.delete_local.len() > 0 { 1int } else { 0 };
            &&& done.0.len() == u + d + x
            &&& done.1.len() == u + d + x + r
            &&& u == 1 ==> done.0[0] == new_job(next, id, host, Kind::Upload, up) && done.1[0] == EffectView::Run(next)
            &&& d == 1 ==> done.0[u] == new_job((next + u) as u64, id, host, Kind::Download, down) && done.1[u]
                == EffectView::Run((next + u) as u64)
            &&& x == 1 ==> done.0[u + d] == new_job((next + u + d) as u64, id, host, Kind::Delete, delete) && done.1[u + d]
                == EffectView::Delete((next + u + d) as u64)
            &&& r == 1 ==> done.1.last() == EffectView::Recycle(id)
        }),
{
}

/// What a click in the server's list does.
pub proof fn law_clicks_on_the_server(t: TabView, click: RemoteClick, time: Seq<char>)
    ensures
        ({
            let after = remote_click(t, click, time);
            match click {
                RemoteClick::Up => after == files_tab::gone_to(t, crate::files_text::parent_of(t.remote.path)),
                RemoteClick::Refresh => after == files_tab::asked_for(t, t.remote.path),
                RemoteClick::GoTo(typed, encoded) => {
                    &&& encoded matches Some(p) ==> (p@.len() > 0 ==> after == files_tab::gone_to(t, p@))
                    &&& !(encoded matches Some(p) && p@.len() > 0) ==> after.1.len() == 0 && after.0 == files_tab::logged(
                        t,
                        time,
                        NoticeView::Said(message::said("files-bad-name"@).text("name"@, typed@)),
                        true,
                    )
                },
                RemoteClick::Show(p) => after == files_tab::gone_to(t, p@),
                RemoteClick::Toggle(p) => after == files_tab::toggled(t, p@),
                RemoteClick::Open(i) => after == files_tab::opened_row(t, i as int),
                RemoteClick::Edit(i) => after == files_tab::edited(t, i as int),
                RemoteClick::Rename(i) => after.1.len() == 0 && after.0.remote.renaming == Some(
                    (t.remote.rows[i as int].key, t.remote.rows[i as int].name),
                ) && after.0.remote == (files_tab::RemoteView { renaming: after.0.remote.renaming, ..t.remote }) && after.0
                    == (TabView { remote: after.0.remote, ..t }),
                RemoteClick::Renamed(key, typed, encoded) => after == files_tab::renamed(
                    t,
                    key@,
                    typed@,
                    files_tab::optional_path(encoded),
                    time,
                ),
                RemoteClick::Reconnect => after == files_tab::connecting(t, time),
            }
        }),
{
}

/// What a click in this computer's list does.
pub proof fn law_clicks_on_this_computer(t: TabView, click: LocalClick, time: Seq<char>)
    ensures
        ({
            let after = local_click(t, click, time);
            match click {
                LocalClick::Up(parent) => after == files_tab::gone_local(t, files_tab::optional_path(parent)),
                LocalClick::Refresh => after == files_tab::gone_local(t, t.local.path),
                LocalClick::GoTo(typed, path) => {
                    &&& text::trimmed(typed@).len() == 0 ==> after == files_tab::gone_local(t, None)
                    &&& text::trimmed(typed@).len() > 0 ==> after == files_tab::gone_local(t, Some(path@))
                },
                LocalClick::Show(p) => after == files_tab::gone_local(t, Some(p@)),
                LocalClick::Toggle(p) => after == files_tab::toggled_local(t, p@),
                LocalClick::Open(i) => after == files_tab::opened_local_row(t, i as int),
                LocalClick::Rename(i) => after.1.len() == 0 && after.0.local.renaming == Some(
                    (t.local.rows[i as int].key, t.local.rows[i as int].name),
                ) && after.0.local == (files_tab::LocalView { renaming: after.0.local.renaming, ..t.local }) && after.0 == (
                TabView { local: after.0.local, ..t }),
                LocalClick::Renamed(key, typed) => after == files_tab::renamed_local(t, key@, typed@, time),
            }
        }),
{
}

} // verus!
