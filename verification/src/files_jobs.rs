//! The transfer queue of the files window: what each job is at, what its
//! buttons ask for, and how many files are copied at once.

use vstd::prelude::*;

use crate::message;
use crate::message::Message;
use crate::message::Notice;
use crate::message::NoticeView;
use crate::text;

verus! {

/// How many files a connection copies at once: the setting that keeps it.
pub const AT_ONCE_SETTING: &'static str = "files.at_once";

/// What it is without a setting, and as far as it can be set.
pub const AT_ONCE_DEFAULT: usize = 3;

pub const AT_ONCE_MAX: usize = 16;

#[derive(Clone, Copy, Debug, PartialEq, Eq, Structural)]
pub enum Kind {
    Upload,
    Download,
    Delete,
}

/// What a job is at.
#[derive(Clone, Debug, PartialEq, Eq)]
pub enum JobState {
    Running,
    /// Stopped with the partial file kept: Resume goes on from there.
    Paused,
    Done,
    Failed(String),
    Cancelled,
}

/// A job of the queue.
#[derive(Clone, Debug, PartialEq, Eq)]
pub struct Job {
    pub id: u64,
    pub tab: u64,
    pub host: String,
    pub kind: Kind,
    pub title: String,
    pub state: JobState,
    /// It copies files (it can be paused and resumed).
    pub transfer: bool,
}

/// How a job ended.
#[derive(Clone, Debug, PartialEq, Eq)]
pub enum JobEnd {
    Finished,
    /// It was told to stop.
    Stopped,
    Failed(String),
}

/// What a button in the queue asks for.
#[derive(Clone, Copy, Debug, PartialEq, Eq, Structural)]
pub enum JobAction {
    Pause,
    Resume,
    Cancel,
    Remove,
}

/// What is to be done for a button.
#[derive(Clone, Copy, Debug, PartialEq, Eq, Structural)]
pub enum JobStep {
    Nothing,
    /// Tell the running job to stop, keeping its partial file.
    AskPause,
    /// Run it (again).
    Run,
    /// Tell the running job to stop for good.
    AskCancel,
    /// Nothing runs: it is cancelled here, its partial file removed.
    Discard,
    /// Take it out of the list.
    Remove,
}

/// What a button does in each state.
pub open spec fn step_for(action: JobAction, state: JobState) -> JobStep {
    match (action, state) {
        (JobAction::Pause, JobState::Running) => JobStep::AskPause,
        (JobAction::Resume, JobState::Paused) => JobStep::Run,
        (JobAction::Resume, JobState::Failed(_)) => JobStep::Run,
        (JobAction::Cancel, JobState::Running) => JobStep::AskCancel,
        (JobAction::Cancel, JobState::Paused) => JobStep::Discard,
        (JobAction::Cancel, JobState::Failed(_)) => JobStep::Discard,
        (JobAction::Remove, JobState::Done) => JobStep::Remove,
        (JobAction::Remove, JobState::Cancelled) => JobStep::Remove,
        (JobAction::Remove, JobState::Failed(_)) => JobStep::Remove,
        _ => JobStep::Nothing,
    }
}

/// What a button does in each state.
pub fn job_step(action: JobAction, state: &JobState) -> (r: JobStep)
    ensures
        r == step_for(action, *state),
{
    match (action, state) {
        (JobAction::Pause, JobState::Running) => JobStep::AskPause,
        (JobAction::Resume, JobState::Paused) => JobStep::Run,
        (JobAction::Resume, JobState::Failed(_)) => JobStep::Run,
        (JobAction::Cancel, JobState::Running) => JobStep::AskCancel,
        (JobAction::Cancel, JobState::Paused) => JobStep::Discard,
        (JobAction::Cancel, JobState::Failed(_)) => JobStep::Discard,
        (JobAction::Remove, JobState::Done) => JobStep::Remove,
        (JobAction::Remove, JobState::Cancelled) => JobStep::Remove,
        (JobAction::Remove, JobState::Failed(_)) => JobStep::Remove,
        _ => JobStep::Nothing,
    }
}

/// A running job is never taken out of the list, and nothing that ended is
/// paused or cancelled.
pub proof fn law_buttons_fit_the_state(action: JobAction, state: JobState)
    ensures
        state is Running ==> step_for(action, state) != JobStep::Remove && step_for(action, state) != JobStep::Run,
        state is Paused ==> step_for(action, state) != JobStep::Remove,
        state is Done || state is Cancelled ==> step_for(action, state) == JobStep::Nothing || step_for(
            action,
            state,
        ) == JobStep::Remove,
{
}

/// The buttons that a job has.
pub open spec fn buttons_for(job: Job) -> Seq<JobAction> {
    match job.state {
        JobState::Running => if job.transfer {
            seq![JobAction::Pause, JobAction::Cancel]
        } else {
            seq![JobAction::Cancel]
        },
        JobState::Paused => seq![JobAction::Resume, JobAction::Cancel],
        JobState::Done => seq![JobAction::Remove],
        JobState::Failed(_) => if job.transfer {
            seq![JobAction::Resume, JobAction::Remove]
        } else {
            seq![JobAction::Remove]
        },
        JobState::Cancelled => seq![JobAction::Remove],
    }
}

/// Every button that a job has does something.
pub proof fn law_every_button_works(job: Job)
    ensures
        forall|i: int|
            0 <= i < buttons_for(job).len() ==> step_for(#[trigger] buttons_for(job)[i], job.state)
                != JobStep::Nothing,
{
}

/// The state after a job ended; `paused` is whether it was told to pause.
pub open spec fn state_after(end: JobEnd, paused: bool) -> JobState {
    match end {
        JobEnd::Finished => JobState::Done,
        JobEnd::Stopped => if paused {
            JobState::Paused
        } else {
            JobState::Cancelled
        },
        JobEnd::Failed(e) => JobState::Failed(e),
    }
}

/// What the log says of a job that ended, and whether it is an error.
pub open spec fn said_after(title: Seq<char>, state: JobState) -> (NoticeView, bool) {
    match state {
        JobState::Done => (NoticeView::Said(message::said("files-log-done"@).text("what"@, title)), false),
        JobState::Paused => (NoticeView::Said(message::said("files-job-paused"@).text("what"@, title)), false),
        JobState::Cancelled => (NoticeView::Said(message::said("files-job-cancelled"@).text("what"@, title)), false),
        JobState::Failed(e) => (message::told(title, e@), true),
        JobState::Running => (NoticeView::Plain(Seq::empty()), false),
    }
}

impl Job {
    /// The buttons that the job has.
    pub fn buttons(&self) -> (r: Vec<JobAction>)
        ensures
            r@ == buttons_for(*self),
    {
        let mut r: Vec<JobAction> = Vec::new();
        match &self.state {
            JobState::Running => {
                if self.transfer {
                    r.push(JobAction::Pause);
                }
                r.push(JobAction::Cancel);
            },
            JobState::Paused => {
                r.push(JobAction::Resume);
                r.push(JobAction::Cancel);
            },
            JobState::Done => {
                r.push(JobAction::Remove);
            },
            JobState::Failed(_) => {
                if self.transfer {
                    r.push(JobAction::Resume);
                }
                r.push(JobAction::Remove);
            },
            JobState::Cancelled => {
                r.push(JobAction::Remove);
            },
        }
        proof {
            assert(r@ =~= buttons_for(*self));
        }
        r
    }

    /// The job ended; what the log says, and whether it is an error.
    pub fn ended(&mut self, end: JobEnd, paused: bool) -> (r: (Notice, bool))
        ensures
            *final(self) == (Job { state: state_after(end, paused), ..*old(self) }),
            (r.0@, r.1) == said_after(old(self).title@, state_after(end, paused)),
    {
        self.state = match end {
            JobEnd::Finished => JobState::Done,
            JobEnd::Stopped => if paused {
                JobState::Paused
            } else {
                JobState::Cancelled
            },
            JobEnd::Failed(e) => JobState::Failed(e),
        };
        match &self.state {
            JobState::Done => (Notice::Said(Message::new("files-log-done").text("what", &self.title)), false),
            JobState::Paused => (Notice::Said(Message::new("files-job-paused").text("what", &self.title)), false),
            JobState::Cancelled => (
                Notice::Said(Message::new("files-job-cancelled").text("what", &self.title)),
                false,
            ),
            JobState::Failed(e) => (message::tell(&self.title, e), true),
            JobState::Running => {
                let none = String::new();
                proof {
                    assert(none@ =~= Seq::empty());
                }
                (Notice::Plain(none), false)
            },
        }
    }

    fn runs(&self) -> (r: bool)
        ensures
            r == (self.state is Running),
    {
        match self.state {
            JobState::Running => true,
            _ => false,
        }
    }

    fn is_paused(&self) -> (r: bool)
        ensures
            r == (self.state is Paused),
    {
        match self.state {
            JobState::Paused => true,
            _ => false,
        }
    }
}

/// A running job, of this session if one is named.
pub open spec fn counts_as_running(j: Job, tab: Option<u64>) -> bool {
    j.state is Running && (match tab {
        Some(t) => j.tab == t,
        None => true,
    })
}

/// How many jobs run, of one session if one is named.
pub open spec fn running_in(jobs: Seq<Job>, tab: Option<u64>) -> nat {
    jobs.filter(|j: Job| counts_as_running(j, tab)).len()
}

/// How many jobs run, of one session if one is named.
pub fn running(jobs: &[Job], tab: Option<u64>) -> (r: usize)
    ensures
        r == running_in(jobs@, tab),
{
    let ghost f = |j: Job| counts_as_running(j, tab);
    let mut n: usize = 0;
    let mut i: usize = 0;
    proof {
        reveal(Seq::filter);
        assert(jobs@.take(0).filter(f) =~= Seq::empty());
    }
    while i < jobs.len()
        invariant
            i <= jobs@.len(),
            n <= i,
            f == (|j: Job| counts_as_running(j, tab)),
            n == jobs@.take(i as int).filter(f).len(),
        decreases jobs@.len() - i,
    {
        proof {
            reveal(Seq::filter);
            assert(jobs@.take(i + 1).drop_last() =~= jobs@.take(i as int));
            assert(jobs@.take(i + 1).last() == jobs@[i as int]);
        }
        let here = match tab {
            Some(t) => jobs[i].tab == t,
            None => true,
        };
        if jobs[i].runs() && here {
            n += 1;
        }
        i += 1;
    }
    proof {
        assert(jobs@.take(i as int) =~= jobs@);
    }
    n
}

/// What the queue's head counts.
#[derive(Clone, Copy, Debug, PartialEq, Eq, Structural)]
pub struct Counts {
    pub running: usize,
    pub paused: usize,
    pub done: usize,
    pub failed: usize,
    /// Some running job can be paused.
    pub pausable: bool,
    /// Some job ended (paused ones did not).
    pub finished: bool,
}

/// What the queue's head counts.
pub open spec fn counted(jobs: Seq<Job>) -> Counts
    decreases jobs.len(),
{
    if jobs.len() == 0 {
        Counts { running: 0, paused: 0, done: 0, failed: 0, pausable: false, finished: false }
    } else {
        let c = counted(jobs.drop_last());
        let j = jobs.last();
        match j.state {
            JobState::Running => Counts {
                running: (c.running + 1) as usize,
                pausable: c.pausable || j.transfer,
                ..c
            },
            JobState::Paused => Counts { paused: (c.paused + 1) as usize, ..c },
            JobState::Done => Counts { done: (c.done + 1) as usize, finished: true, ..c },
            JobState::Failed(_) => Counts { failed: (c.failed + 1) as usize, finished: true, ..c },
            JobState::Cancelled => Counts { finished: true, ..c },
        }
    }
}

/// What the queue's head counts.
pub fn counts(jobs: &[Job]) -> (r: Counts)
    ensures
        r == counted(jobs@),
{
    let mut c = Counts { running: 0, paused: 0, done: 0, failed: 0, pausable: false, finished: false };
    let mut i: usize = 0;
    proof {
        assert(jobs@.take(0) =~= Seq::empty());
    }
    while i < jobs.len()
        invariant
            i <= jobs@.len(),
            c == counted(jobs@.take(i as int)),
            c.running <= i && c.paused <= i && c.done <= i && c.failed <= i,
        decreases jobs@.len() - i,
    {
        proof {
            assert(jobs@.take(i + 1).drop_last() =~= jobs@.take(i as int));
            assert(jobs@.take(i + 1).last() == jobs@[i as int]);
        }
        match &jobs[i].state {
            JobState::Running => {
                c.running += 1;
                c.pausable = c.pausable || jobs[i].transfer;
            },
            JobState::Paused => {
                c.paused += 1;
            },
            JobState::Done => {
                c.done += 1;
                c.finished = true;
            },
            JobState::Failed(_) => {
                c.failed += 1;
                c.finished = true;
            },
            JobState::Cancelled => {
                c.finished = true;
            },
        }
        i += 1;
    }
    proof {
        assert(jobs@.take(i as int) =~= jobs@);
    }
    c
}

/// The jobs that "Pause all" pauses (`pause`), or that "Resume all" resumes.
pub open spec fn is_meant(j: Job, pause: bool) -> bool {
    if pause {
        j.state is Running && j.transfer
    } else {
        j.state is Paused
    }
}

/// The ids of the jobs that "Pause all" pauses, or "Resume all" resumes.
pub open spec fn meant(jobs: Seq<Job>, pause: bool) -> Seq<u64>
    decreases jobs.len(),
{
    if jobs.len() == 0 {
        Seq::empty()
    } else if is_meant(jobs.last(), pause) {
        meant(jobs.drop_last(), pause).push(jobs.last().id)
    } else {
        meant(jobs.drop_last(), pause)
    }
}

/// The ids of the jobs that "Pause all" pauses, or "Resume all" resumes.
pub fn all_meant(jobs: &[Job], pause: bool) -> (r: Vec<u64>)
    ensures
        r@ == meant(jobs@, pause),
{
    let mut r: Vec<u64> = Vec::new();
    let mut i: usize = 0;
    proof {
        assert(jobs@.take(0) =~= Seq::empty());
        assert(r@ =~= Seq::empty());
    }
    while i < jobs.len()
        invariant
            i <= jobs@.len(),
            r@ == meant(jobs@.take(i as int), pause),
        decreases jobs@.len() - i,
    {
        proof {
            assert(jobs@.take(i + 1).drop_last() =~= jobs@.take(i as int));
            assert(jobs@.take(i + 1).last() == jobs@[i as int]);
        }
        let wanted = if pause {
            jobs[i].runs() && jobs[i].transfer
        } else {
            jobs[i].is_paused()
        };
        if wanted {
            r.push(jobs[i].id);
        }
        i += 1;
    }
    proof {
        assert(jobs@.take(i as int) =~= jobs@);
    }
    r
}

/// A job that "Clear" leaves: it runs or is paused.
pub open spec fn stays(j: Job) -> bool {
    j.state is Running || j.state is Paused
}

/// The jobs that "Clear" leaves.
pub fn clear_finished(jobs: &mut Vec<Job>)
    ensures
        final(jobs)@ == old(jobs)@.filter(|j: Job| stays(j)),
{
    let ghost all = jobs@;
    let ghost f = |j: Job| stays(j);
    let ghost mut k: int = 0;
    let mut i: usize = 0;
    proof {
        reveal(Seq::filter);
        assert(all.take(0).filter(f) =~= Seq::empty());
        assert(jobs@ =~= all.take(0).filter(f) + all.skip(0));
    }
    while i < jobs.len()
        invariant
            0 <= k <= all.len(),
            f == (|j: Job| stays(j)),
            i == all.take(k).filter(f).len(),
            jobs@ == all.take(k).filter(f) + all.skip(k),
        decreases jobs@.len() - i,
    {
        proof {
            reveal(Seq::filter);
            assert(k < all.len());
            assert(jobs@[i as int] == all[k]);
            assert(all.take(k + 1).drop_last() =~= all.take(k));
            assert(all.take(k + 1).last() == all[k]);
        }
        if jobs[i].runs() || jobs[i].is_paused() {
            proof {
                assert(all.take(k).filter(f) + all.skip(k) =~= all.take(k).filter(f).push(all[k]) + all.skip(k + 1));
            }
            i += 1;
        } else {
            let _ = jobs.remove(i);
            proof {
                assert(jobs@ =~= all.take(k).filter(f) + all.skip(k + 1));
            }
        }
        proof {
            k = k + 1;
        }
    }
    proof {
        assert(all.skip(k).len() == 0);
        assert(all.take(k) =~= all);
        assert(jobs@ =~= all.filter(f));
    }
}

/// How many files are copied at once, by the setting: the default without
/// one or where it is no number, and within bounds.
pub open spec fn at_once_for(setting: Option<Seq<char>>) -> int {
    let asked = match setting {
        Some(s) => match text::number_of(s) {
            Some(n) => if n <= usize::MAX {
                n
            } else {
                AT_ONCE_DEFAULT as int
            },
            None => AT_ONCE_DEFAULT as int,
        },
        None => AT_ONCE_DEFAULT as int,
    };
    if asked < 1 {
        1
    } else if asked > AT_ONCE_MAX {
        AT_ONCE_MAX as int
    } else {
        asked
    }
}

/// How many files are copied at once, by the setting.
pub fn at_once(setting: Option<&str>) -> (r: usize)
    ensures
        r == at_once_for(
            match setting {
                Some(s) => Some(s@),
                None => None,
            },
        ),
        1 <= r <= AT_ONCE_MAX,
{
    let asked: usize = match setting {
        Some(s) => {
            let most: u64 = usize::MAX as u64;
            match text::parse_number(&text::chars_of(s), most) {
                Some(n) => n as usize,
                None => AT_ONCE_DEFAULT,
            }
        },
        None => AT_ONCE_DEFAULT,
    };
    bounded(asked)
}

/// The nearest number of files that can be set.
pub fn bounded(asked: usize) -> (r: usize)
    ensures
        r == (if asked < 1 {
            1
        } else if asked > AT_ONCE_MAX {
            AT_ONCE_MAX
        } else {
            asked
        }),
{
    if asked < 1 {
        1
    } else if asked > AT_ONCE_MAX {
        AT_ONCE_MAX
    } else {
        asked
    }
}

/// What a job is called; `what` are the files.
pub fn job_title(kind: Kind, what: &str) -> (r: Message)
    ensures
        r@ == message::said(
            match kind {
                Kind::Upload => "files-job-upload"@,
                Kind::Download => "files-job-download"@,
                Kind::Delete => "files-job-delete"@,
            },
        ).text("what"@, what@),
{
    match kind {
        Kind::Upload => Message::new("files-job-upload").text("what", what),
        Kind::Download => Message::new("files-job-download").text("what", what),
        Kind::Delete => Message::new("files-job-delete").text("what", what),
    }
}

/// What a button does to a job: what runs can be paused or cancelled, what
/// rests or failed can go on or be dropped, and what is over can be removed.
pub proof fn law_what_buttons_do(e: String)
    ensures
        step_for(JobAction::Pause, JobState::Running) == JobStep::AskPause,
        step_for(JobAction::Cancel, JobState::Running) == JobStep::AskCancel,
        step_for(JobAction::Resume, JobState::Paused) == JobStep::Run,
        step_for(JobAction::Resume, JobState::Failed(e)) == JobStep::Run,
        step_for(JobAction::Cancel, JobState::Paused) == JobStep::Discard,
        step_for(JobAction::Cancel, JobState::Failed(e)) == JobStep::Discard,
        step_for(JobAction::Remove, JobState::Done) == JobStep::Remove,
        step_for(JobAction::Remove, JobState::Cancelled) == JobStep::Remove,
        step_for(JobAction::Remove, JobState::Failed(e)) == JobStep::Remove,
        step_for(JobAction::Pause, JobState::Paused) == JobStep::Nothing,
        step_for(JobAction::Resume, JobState::Running) == JobStep::Nothing,
        step_for(JobAction::Resume, JobState::Done) == JobStep::Nothing,
        step_for(JobAction::Pause, JobState::Done) == JobStep::Nothing,
        step_for(JobAction::Pause, JobState::Failed(e)) == JobStep::Nothing,
        step_for(JobAction::Pause, JobState::Cancelled) == JobStep::Nothing,
        step_for(JobAction::Resume, JobState::Cancelled) == JobStep::Nothing,
        step_for(JobAction::Cancel, JobState::Done) == JobStep::Nothing,
        step_for(JobAction::Cancel, JobState::Cancelled) == JobStep::Nothing,
        step_for(JobAction::Remove, JobState::Running) == JobStep::Nothing,
        step_for(JobAction::Remove, JobState::Paused) == JobStep::Nothing,
{
}

/// A job has a button exactly where it makes sense: only transfers rest and
/// go on, and one that failed goes on only where it is a transfer.
pub proof fn law_buttons(job: Job)
    ensures
        buttons_for(job).contains(JobAction::Pause) <==> job.state is Running && job.transfer,
        buttons_for(job).contains(JobAction::Resume) <==> job.state is Paused || (job.state is Failed && job.transfer),
        buttons_for(job).contains(JobAction::Cancel) <==> job.state is Running || job.state is Paused,
        buttons_for(job).contains(JobAction::Remove) <==> job.state is Done || job.state is Failed || job.state is Cancelled,
{
    let b = buttons_for(job);
    if b.len() > 0 {
        assert(b.contains(b[0]));
    }
    if b.len() > 1 {
        assert(b.contains(b[1]));
    }
}

/// How a job ends: done, failed with why, and when it was stopped it rests
/// or is cancelled as it was asked to.
pub proof fn law_how_jobs_end(e: String, title: Seq<char>)
    ensures
        state_after(JobEnd::Finished, true) is Done && state_after(JobEnd::Finished, false) is Done,
        state_after(JobEnd::Stopped, true) is Paused,
        state_after(JobEnd::Stopped, false) is Cancelled,
        state_after(JobEnd::Failed(e), true) == JobState::Failed(e) && state_after(JobEnd::Failed(e), false) == JobState::Failed(e),
        said_after(title, JobState::Failed(e)).1,
        !said_after(title, JobState::Done).1 && !said_after(title, JobState::Paused).1 && !said_after(title, JobState::Cancelled).1,
        said_after(title, JobState::Done).0 == NoticeView::Said(message::said("files-log-done"@).text("what"@, title)),
        said_after(title, JobState::Paused).0 == NoticeView::Said(message::said("files-job-paused"@).text("what"@, title)),
        said_after(title, JobState::Cancelled).0 == NoticeView::Said(message::said("files-job-cancelled"@).text("what"@, title)),
        said_after(title, JobState::Failed(e)).0 == message::told(title, e@),
{
}

/// Jobs that run are counted, of one session or of all.
pub proof fn law_jobs_that_run(jobs: Seq<Job>, j: Job, tab: u64)
    ensures
        running_in(Seq::empty(), None) == 0 && running_in(Seq::empty(), Some(tab)) == 0,
        running_in(jobs.push(j), None) == running_in(jobs, None) + (if j.state is Running {
            1int
        } else {
            0
        }),
        running_in(jobs.push(j), Some(tab)) == running_in(jobs, Some(tab)) + (if j.state is Running && j.tab == tab {
            1int
        } else {
            0
        }),
{
    reveal(Seq::filter);
    assert(jobs.push(j).drop_last() =~= jobs);
}

/// Jobs are counted by their state; one that runs and is a transfer can be
/// paused, one that is over can be cleared away.
pub proof fn law_jobs_by_state(jobs: Seq<Job>, j: Job)
    requires
        counted(jobs).running < usize::MAX,
        counted(jobs).paused < usize::MAX,
        counted(jobs).done < usize::MAX,
        counted(jobs).failed < usize::MAX,
    ensures
        counted(Seq::empty()) == (Counts { running: 0, paused: 0, done: 0, failed: 0, pausable: false, finished: false }),
        ({
            let c = counted(jobs);
            let d = counted(jobs.push(j));
            &&& d.running == c.running + (if j.state is Running {
                1int
            } else {
                0
            })
            &&& d.paused == c.paused + (if j.state is Paused {
                1int
            } else {
                0
            })
            &&& d.done == c.done + (if j.state is Done {
                1int
            } else {
                0
            })
            &&& d.failed == c.failed + (if j.state is Failed {
                1int
            } else {
                0
            })
            &&& d.pausable == (c.pausable || (j.state is Running && j.transfer))
            &&& d.finished == (c.finished || j.state is Done || j.state is Failed || j.state is Cancelled)
        }),
{
    assert(jobs.push(j).drop_last() =~= jobs);
}

/// "Pause all" is for the transfers that run, "resume all" for what rests,
/// in order; clearing away leaves what runs or rests.
pub proof fn law_all_jobs_at_once(jobs: Seq<Job>, j: Job)
    ensures
        meant(Seq::empty(), true) == Seq::<u64>::empty() && meant(Seq::empty(), false) == Seq::<u64>::empty(),
        j.state is Running && j.transfer ==> meant(jobs.push(j), true) == meant(jobs, true).push(j.id),
        !(j.state is Running && j.transfer) ==> meant(jobs.push(j), true) == meant(jobs, true),
        j.state is Paused ==> meant(jobs.push(j), false) == meant(jobs, false).push(j.id),
        j.state !is Paused ==> meant(jobs.push(j), false) == meant(jobs, false),
        stays(j) <==> j.state is Running || j.state is Paused,
{
    assert(jobs.push(j).drop_last() =~= jobs);
}

/// How many transfers run at once: as set, three where nothing usable is
/// set, at least one and at most sixteen.
pub proof fn law_transfers_at_once(n: nat)
    ensures
        at_once_for(None) == 3,
        forall|s: Seq<char>| text::number_of(s) is None ==> #[trigger] at_once_for(Some(s)) == 3,
        forall|s: Option<Seq<char>>| 1 <= #[trigger] at_once_for(s) <= 16,
        1 <= n <= 16 ==> at_once_for(Some(text::decimal(n))) == n,
        n == 0 ==> at_once_for(Some(text::decimal(n))) == 1,
        16 < n <= usize::MAX ==> at_once_for(Some(text::decimal(n))) == 16,
{
    text::law_decimals(n, 0);
}

} // verus!
