//! The files window's Synchronize dialog: what comparing a local folder
//! with a server's folder found, what each direction would do with it, and
//! which of those to do.

use vstd::prelude::*;

use crate::files_text;
use crate::icons::Icon;
use crate::message;
use crate::message::Message;
use crate::message::Notice;
use crate::message::NoticeView;
use crate::text;

verus! {

/// Which way files go.
#[derive(Clone, Copy, Debug, PartialEq, Eq, Structural)]
pub enum Mode {
    Both,
    Upload,
    Download,
}

/// What is done with a file.
#[derive(Clone, Copy, Debug, PartialEq, Eq, Structural)]
pub enum Act {
    Upload,
    Download,
    DeleteLocal,
    DeleteRemote,
    Same,
    Skip,
    Conflict,
}

/// A file's size and time on one side.
#[derive(Clone, Copy, Debug, PartialEq, Eq, Structural)]
pub struct Meta {
    pub dir: bool,
    pub size: u64,
    pub modified: Option<u64>,
}

/// What the comparison would do with a file each way, without and with
/// deleting what the other side does not have.
#[derive(Clone, Copy, Debug, PartialEq, Eq, Structural)]
pub struct Acts {
    pub both: Act,
    pub upload: Act,
    pub upload_delete: Act,
    pub download: Act,
    pub download_delete: Act,
}

/// A file that was compared.
#[derive(Clone, Debug, PartialEq, Eq)]
pub struct Found {
    pub rel: String,
    pub here: Option<Meta>,
    pub there: Option<Meta>,
    /// The server said what it is.
    pub known: bool,
    pub acts: Acts,
}

/// The comparison.
#[derive(Clone, Debug, PartialEq, Eq)]
pub enum Scan {
    Running,
    Done(Vec<Found>),
    Failed(Notice),
}

/// What to do, as the dialog's Start asks: places in what was found.
#[derive(Clone, Debug, PartialEq, Eq)]
pub struct Plan {
    pub uploads: Vec<usize>,
    pub downloads: Vec<usize>,
    pub delete_remote: Vec<usize>,
    pub delete_local: Vec<usize>,
}

/// What to do.
pub struct PlanView {
    pub uploads: Seq<int>,
    pub downloads: Seq<int>,
    pub delete_remote: Seq<int>,
    pub delete_local: Seq<int>,
}

/// Places, as integers.
pub open spec fn places(v: Seq<usize>) -> Seq<int> {
    v.map_values(|i: usize| i as int)
}

impl View for Plan {
    type V = PlanView;

    open spec fn view(&self) -> PlanView {
        PlanView {
            uploads: places(self.uploads@),
            downloads: places(self.downloads@),
            delete_remote: places(self.delete_remote@),
            delete_local: places(self.delete_local@),
        }
    }
}

impl PlanView {
    /// How many files are deleted.
    pub open spec fn deletes(self) -> nat {
        self.delete_remote.len() + self.delete_local.len()
    }

    /// There is something to do.
    pub open spec fn works(self) -> bool {
        self.uploads.len() + self.downloads.len() + self.deletes() > 0
    }
}

/// What the dialog asks the window for.
#[derive(Clone, Debug, PartialEq, Eq)]
pub enum Asked {
    Rescan,
    Start(Plan),
    Close,
}

/// The dialog.
pub struct SyncDialog {
    pub tab: u64,
    pub host: String,
    /// The local folder, as it is shown.
    pub local: String,
    pub remote: Vec<u8>,
    pub remote_text: String,
    pub scan: Scan,
    pub mode: Mode,
    pub delete_extra: bool,
    pub show_all: bool,
    /// Rows unticked (places in what was found).
    pub off: Vec<usize>,
    /// Deleting asked about once more before it starts.
    pub confirming: bool,
}

/// What is done with a file that was compared: "Delete what is not there"
/// counts one way only.
pub open spec fn act_for(f: Found, mode: Mode, delete_extra: bool) -> Act {
    match (mode, delete_extra) {
        (Mode::Both, _) => f.acts.both,
        (Mode::Upload, false) => f.acts.upload,
        (Mode::Upload, true) => f.acts.upload_delete,
        (Mode::Download, false) => f.acts.download,
        (Mode::Download, true) => f.acts.download_delete,
    }
}

/// The plan for the ticked rows.
pub open spec fn plan_of(found: Seq<Found>, off: Set<usize>, mode: Mode, delete_extra: bool) -> PlanView
    decreases found.len(),
{
    if found.len() == 0 {
        PlanView {
            uploads: Seq::empty(),
            downloads: Seq::empty(),
            delete_remote: Seq::empty(),
            delete_local: Seq::empty(),
        }
    } else {
        let p = plan_of(found.drop_last(), off, mode, delete_extra);
        let f = found.last();
        let i = found.len() - 1;
        if off.contains(i as usize) {
            p
        } else {
            match act_for(f, mode, delete_extra) {
                Act::Upload => PlanView { uploads: p.uploads.push(i), ..p },
                Act::Download => if f.known {
                    PlanView { downloads: p.downloads.push(i), ..p }
                } else {
                    p
                },
                Act::DeleteRemote => if f.known {
                    PlanView { delete_remote: p.delete_remote.push(i), ..p }
                } else {
                    p
                },
                Act::DeleteLocal => PlanView { delete_local: p.delete_local.push(i), ..p },
                _ => p,
            }
        }
    }
}

/// The rows that are shown: what something is done with (all with "show
/// all").
pub open spec fn shown(found: Seq<Found>, mode: Mode, delete_extra: bool, all: bool) -> Seq<int>
    decreases found.len(),
{
    if found.len() == 0 {
        Seq::empty()
    } else {
        let rest = shown(found.drop_last(), mode, delete_extra, all);
        let a = act_for(found.last(), mode, delete_extra);
        if all || (a != Act::Same && a != Act::Skip) {
            rest.push(found.len() - 1)
        } else {
            rest
        }
    }
}

/// How many files are in conflict.
pub open spec fn conflicts_in(found: Seq<Found>, mode: Mode, delete_extra: bool) -> nat
    decreases found.len(),
{
    if found.len() == 0 {
        0
    } else {
        conflicts_in(found.drop_last(), mode, delete_extra) + (if act_for(found.last(), mode, delete_extra)
            == Act::Conflict {
            1nat
        } else {
            0nat
        })
    }
}

/// What the ticked copies one way weigh: files' sizes, and how many folders
/// are copied whole (their size isn't known before).
pub open spec fn weighs(found: Seq<Found>, off: Set<usize>, mode: Mode, delete_extra: bool, up: bool) -> (nat, nat)
    decreases found.len(),
{
    if found.len() == 0 {
        (0, 0)
    } else {
        let (bytes, folders) = weighs(found.drop_last(), off, mode, delete_extra, up);
        let f = found.last();
        let a = act_for(f, mode, delete_extra);
        let meta = if up {
            f.here
        } else {
            f.there
        };
        if off.contains((found.len() - 1) as usize) || a != (if up {
            Act::Upload
        } else {
            Act::Download
        }) {
            (bytes, folders)
        } else {
            match meta {
                Some(m) => if m.dir {
                    (bytes, folders + 1)
                } else {
                    (bytes + m.size as nat, folders)
                },
                None => (bytes, folders),
            }
        }
    }
}

proof fn lemma_weighs(found: Seq<Found>, off: Set<usize>, mode: Mode, delete_extra: bool, up: bool, i: int)
    requires
        0 <= i <= found.len(),
    ensures
        weighs(found.take(i), off, mode, delete_extra, up).0 <= weighs(found, off, mode, delete_extra, up).0,
        weighs(found.take(i), off, mode, delete_extra, up).1 <= i,
    decreases found.len() - i,
{
    lemma_folders(found.take(i), off, mode, delete_extra, up);
    if i < found.len() {
        lemma_weighs(found, off, mode, delete_extra, up, i + 1);
        assert(found.take(i + 1).drop_last() =~= found.take(i));
    } else {
        assert(found.take(i) =~= found);
    }
}

proof fn lemma_folders(found: Seq<Found>, off: Set<usize>, mode: Mode, delete_extra: bool, up: bool)
    ensures
        weighs(found, off, mode, delete_extra, up).1 <= found.len(),
    decreases found.len(),
{
    if found.len() > 0 {
        lemma_folders(found.drop_last(), off, mode, delete_extra, up);
    }
}

/// What a row's tick can do: only what copies or deletes can be ticked.
pub open spec fn is_doable(a: Act) -> bool {
    a == Act::Upload || a == Act::Download || a == Act::DeleteLocal || a == Act::DeleteRemote
}

/// Whether a row can be ticked.
pub fn doable(a: Act) -> (r: bool)
    ensures
        r == is_doable(a),
{
    a == Act::Upload || a == Act::Download || a == Act::DeleteLocal || a == Act::DeleteRemote
}

impl SyncDialog {
    /// The rows that are not ticked.
    pub open spec fn off_set(self) -> Set<usize> {
        self.off@.to_set()
    }

    /// What was found, once it was.
    pub open spec fn found(self) -> Seq<Found> {
        match self.scan {
            Scan::Done(f) => f@,
            _ => Seq::empty(),
        }
    }

    /// The plan for the ticked rows.
    pub open spec fn planned(self) -> PlanView {
        plan_of(self.found(), self.off_set(), self.mode, self.delete_extra)
    }

    /// The dialog for two folders.
    pub fn new(tab: u64, host: String, local: String, remote: Vec<u8>, remote_text: String, scan: Scan) -> (r:
        SyncDialog)
        ensures
            r.tab == tab,
            r.host == host,
            r.local == local,
            r.remote == remote,
            r.remote_text == remote_text,
            r.scan == scan,
            r.mode == Mode::Both,
            !r.delete_extra,
            !r.show_all,
            r.off@.len() == 0,
            !r.confirming,
    {
        SyncDialog {
            tab,
            host,
            local,
            remote,
            remote_text,
            scan,
            mode: Mode::Both,
            delete_extra: false,
            show_all: false,
            off: Vec::new(),
            confirming: false,
        }
    }

    /// Whether a comparison is to be told to stop when the dialog closes.
    pub fn stop(&self) -> (r: bool)
        ensures
            r == (self.scan is Running),
    {
        match self.scan {
            Scan::Running => true,
            _ => false,
        }
    }

    /// What is done with a file that was compared.
    pub fn act(&self, f: &Found) -> (r: Act)
        ensures
            r == act_for(*f, self.mode, self.delete_extra),
    {
        match (self.mode, self.delete_extra) {
            (Mode::Both, _) => f.acts.both,
            (Mode::Upload, false) => f.acts.upload,
            (Mode::Upload, true) => f.acts.upload_delete,
            (Mode::Download, false) => f.acts.download,
            (Mode::Download, true) => f.acts.download_delete,
        }
    }

    fn is_off(&self, i: usize) -> (r: bool)
        ensures
            r == self.off_set().contains(i),
    {
        let mut k: usize = 0;
        while k < self.off.len()
            invariant
                k <= self.off@.len(),
                forall|j: int| 0 <= j < k ==> self.off@[j] != i,
            decreases self.off@.len() - k,
        {
            if self.off[k] == i {
                proof {
                    assert(self.off@.contains(i));
                }
                return true;
            }
            k += 1;
        }
        proof {
            assert(!self.off@.contains(i));
        }
        false
    }

    /// The plan for the ticked rows.
    pub fn plan(&self, found: &[Found]) -> (r: Plan)
        ensures
            r@ == plan_of(found@, self.off_set(), self.mode, self.delete_extra),
    {
        let ghost off = self.off_set();
        let mut p = Plan {
            uploads: Vec::new(),
            downloads: Vec::new(),
            delete_remote: Vec::new(),
            delete_local: Vec::new(),
        };
        let mut i: usize = 0;
        proof {
            assert(found@.take(0) =~= Seq::empty());
            assert(p@.uploads =~= Seq::empty());
            assert(p@.downloads =~= Seq::empty());
            assert(p@.delete_remote =~= Seq::empty());
            assert(p@.delete_local =~= Seq::empty());
        }
        while i < found.len()
            invariant
                i <= found@.len(),
                off == self.off_set(),
                p@ == plan_of(found@.take(i as int), off, self.mode, self.delete_extra),
            decreases found@.len() - i,
        {
            proof {
                assert(found@.take(i + 1).drop_last() =~= found@.take(i as int));
                assert(found@.take(i + 1).last() == found@[i as int]);
            }
            let ghost before = p;
            if !self.is_off(i) {
                let known = found[i].known;
                match self.act(&found[i]) {
                    Act::Upload => {
                        p.uploads.push(i);
                        proof {
                            assert(p@.uploads =~= before@.uploads.push(i as int));
                        }
                    },
                    Act::Download => {
                        if known {
                            p.downloads.push(i);
                            proof {
                                assert(p@.downloads =~= before@.downloads.push(i as int));
                            }
                        }
                    },
                    Act::DeleteRemote => {
                        if known {
                            p.delete_remote.push(i);
                            proof {
                                assert(p@.delete_remote =~= before@.delete_remote.push(i as int));
                            }
                        }
                    },
                    Act::DeleteLocal => {
                        p.delete_local.push(i);
                        proof {
                            assert(p@.delete_local =~= before@.delete_local.push(i as int));
                        }
                    },
                    _ => {},
                }
            }
            i += 1;
        }
        proof {
            assert(found@.take(i as int) =~= found@);
        }
        p
    }

    /// The rows that are shown.
    pub fn rows(&self, found: &[Found]) -> (r: Vec<usize>)
        ensures
            places(r@) == shown(found@, self.mode, self.delete_extra, self.show_all),
            forall|j: int| 0 <= j < r@.len() ==> #[trigger] r@[j] < found@.len(),
    {
        let mut r: Vec<usize> = Vec::new();
        let mut i: usize = 0;
        proof {
            assert(found@.take(0) =~= Seq::empty());
            assert(places(r@) =~= Seq::empty());
        }
        while i < found.len()
            invariant
                i <= found@.len(),
                places(r@) == shown(found@.take(i as int), self.mode, self.delete_extra, self.show_all),
                forall|j: int| 0 <= j < r@.len() ==> #[trigger] r@[j] < i,
            decreases found@.len() - i,
        {
            proof {
                assert(found@.take(i + 1).drop_last() =~= found@.take(i as int));
                assert(found@.take(i + 1).last() == found@[i as int]);
            }
            let a = self.act(&found[i]);
            if self.show_all || (a != Act::Same && a != Act::Skip) {
                let ghost before = r@;
                r.push(i);
                proof {
                    assert(places(r@) =~= places(before).push(i as int));
                }
            }
            i += 1;
        }
        proof {
            assert(found@.take(i as int) =~= found@);
        }
        r
    }

    /// How many files are in conflict.
    pub fn conflicts(&self, found: &[Found]) -> (r: usize)
        ensures
            r == conflicts_in(found@, self.mode, self.delete_extra),
    {
        let mut n: usize = 0;
        let mut i: usize = 0;
        proof {
            assert(found@.take(0) =~= Seq::empty());
        }
        while i < found.len()
            invariant
                i <= found@.len(),
                n <= i,
                n == conflicts_in(found@.take(i as int), self.mode, self.delete_extra),
            decreases found@.len() - i,
        {
            proof {
                assert(found@.take(i + 1).drop_last() =~= found@.take(i as int));
                assert(found@.take(i + 1).last() == found@[i as int]);
            }
            if self.act(&found[i]) == Act::Conflict {
                n += 1;
            }
            i += 1;
        }
        proof {
            assert(found@.take(i as int) =~= found@);
        }
        n
    }

    /// What the ticked copies one way weigh.
    pub fn weights(&self, found: &[Found], up: bool) -> (r: (u64, usize))
        requires
            weighs(found@, self.off_set(), self.mode, self.delete_extra, up).0 <= u64::MAX,
        ensures
            (r.0 as nat, r.1 as nat) == weighs(found@, self.off_set(), self.mode, self.delete_extra, up),
    {
        let ghost off = self.off_set();
        let mut bytes: u64 = 0;
        let mut folders: usize = 0;
        let mut i: usize = 0;
        proof {
            assert(found@.take(0) =~= Seq::empty());
        }
        while i < found.len()
            invariant
                i <= found@.len(),
                off == self.off_set(),
                weighs(found@, off, self.mode, self.delete_extra, up).0 <= u64::MAX,
                folders <= i,
                (bytes as nat, folders as nat) == weighs(found@.take(i as int), off, self.mode, self.delete_extra, up),
            decreases found@.len() - i,
        {
            proof {
                assert(found@.take(i + 1).drop_last() =~= found@.take(i as int));
                assert(found@.take(i + 1).last() == found@[i as int]);
                lemma_weighs(found@, off, self.mode, self.delete_extra, up, i + 1);
            }
            let wanted = if up {
                Act::Upload
            } else {
                Act::Download
            };
            if !self.is_off(i) && self.act(&found[i]) == wanted {
                let meta = if up {
                    found[i].here
                } else {
                    found[i].there
                };
                match meta {
                    Some(m) => {
                        if m.dir {
                            folders += 1;
                        } else {
                            bytes += m.size;
                        }
                    },
                    None => {},
                }
            }
            i += 1;
        }
        proof {
            assert(found@.take(i as int) =~= found@);
        }
        (bytes, folders)
    }

    /// Another direction, or deleting what is not there, was picked: another
    /// choice is to be confirmed again.
    pub fn pick(&mut self, mode: Mode, delete_extra: bool)
        ensures
            *final(self) == (SyncDialog {
                mode,
                delete_extra,
                confirming: old(self).confirming && mode == old(self).mode && delete_extra == old(self).delete_extra,
                ..*old(self)
            }),
    {
        if self.mode != mode || self.delete_extra != delete_extra {
            self.confirming = false;
        }
        self.mode = mode;
        self.delete_extra = delete_extra;
    }

    /// A row was ticked, or unticked.
    pub fn tick(&mut self, i: usize, on: bool)
        ensures
            final(self).off_set() == (if on {
                old(self).off_set().remove(i)
            } else {
                old(self).off_set().insert(i)
            }),
            *final(self) == (SyncDialog { off: final(self).off, confirming: false, ..*old(self) }),
    {
        let ghost start = self.off@;
        if on {
            let mut k: usize = 0;
            while k < self.off.len()
                invariant
                    k <= self.off@.len(),
                    forall|j: int| 0 <= j < k ==> self.off@[j] != i,
                    forall|x: usize| x != i ==> (self.off@.contains(x) <==> start.contains(x)),
                    *self == (SyncDialog { off: self.off, ..*old(self) }),
                decreases self.off@.len() - k,
            {
                if self.off[k] == i {
                    let ghost before = self.off@;
                    let _ = self.off.remove(k);
                    proof {
                        assert forall|x: usize| x != i implies (self.off@.contains(x) <==> start.contains(x)) by {
                            if self.off@.contains(x) {
                                let j = choose|j: int| 0 <= j < self.off@.len() && self.off@[j] == x;
                                if j < k {
                                    assert(before[j] == x);
                                } else {
                                    assert(before[j + 1] == x);
                                }
                            }
                            if before.contains(x) {
                                let j = choose|j: int| 0 <= j < before.len() && before[j] == x;
                                if j < k {
                                    assert(self.off@[j] == x);
                                } else {
                                    assert(j != k);
                                    assert(self.off@[j - 1] == x);
                                }
                            }
                        }
                    }
                } else {
                    k += 1;
                }
            }
            proof {
                assert(!self.off@.contains(i));
                assert(self.off_set() =~= start.to_set().remove(i));
            }
        } else {
            self.off.push(i);
            proof {
                assert forall|x: usize| self.off_set().contains(x) <==> start.to_set().insert(i).contains(x) by {
                    if self.off@.contains(x) && x != i {
                        let j = choose|j: int| 0 <= j < self.off@.len() && self.off@[j] == x;
                        assert(start[j] == x);
                    }
                    if start.contains(x) {
                        let j = choose|j: int| 0 <= j < start.len() && start[j] == x;
                        assert(self.off@[j] == x);
                    }
                    assert(self.off@[start.len() as int] == i);
                }
                assert(self.off_set() =~= start.to_set().insert(i));
            }
        }
        self.confirming = false;
    }

    /// The comparison ended; `None` where it was cancelled.
    pub fn compared(&mut self, result: Result<Vec<Found>, Option<String>>)
        ensures
            *final(self) == (SyncDialog { scan: final(self).scan, ..*old(self) }),
            match result {
                Ok(found) => final(self).scan == Scan::Done(found),
                Err(e) => final(self).scan matches Scan::Failed(n) && n@ == (match e {
                    Some(e) => NoticeView::Plain(e@),
                    None => NoticeView::Said(message::said("files-sync-cancelled"@)),
                }),
            },
    {
        self.scan = match result {
            Ok(found) => Scan::Done(found),
            Err(None) => Scan::Failed(Notice::Said(Message::new("files-sync-cancelled"))),
            Err(Some(e)) => Scan::Failed(Notice::Plain(e)),
        };
    }

    /// Start was clicked: where files are deleted it is asked about once
    /// more first.
    pub fn start(&mut self) -> (r: Option<Asked>)
        requires
            old(self).scan is Done,
        ensures
            *final(self) == (SyncDialog { confirming: final(self).confirming, ..*old(self) }),
            final(self).confirming == (old(self).confirming || old(self).planned().deletes() > 0),
            match r {
                Some(a) => a is Start && start_asks(*old(self)) == Some(a->Start_0@),
                None => start_asks(*old(self)) is None,
            },
    {
        let plan = match &self.scan {
            Scan::Done(found) => self.plan(found),
            _ => Plan {
                uploads: Vec::new(),
                downloads: Vec::new(),
                delete_remote: Vec::new(),
                delete_local: Vec::new(),
            },
        };
        proof {
            assert(plan@ == self.planned());
            assert(plan@.uploads.len() == plan.uploads@.len());
            assert(plan@.downloads.len() == plan.downloads@.len());
            assert(plan@.delete_remote.len() == plan.delete_remote@.len());
            assert(plan@.delete_local.len() == plan.delete_local@.len());
        }
        let deletes = plan.delete_remote.len() > 0 || plan.delete_local.len() > 0;
        if self.confirming {
            return Some(Asked::Start(plan));
        }
        if deletes {
            self.confirming = true;
            return None;
        }
        if plan.uploads.len() > 0 || plan.downloads.len() > 0 {
            Some(Asked::Start(plan))
        } else {
            None
        }
    }
}

/// Both ways nothing is deleted for being on one side only, whatever the
/// tick for it says.
pub proof fn law_both_ways_ignores_deleting(f: Found, a: bool, b: bool)
    ensures
        act_for(f, Mode::Both, a) == act_for(f, Mode::Both, b),
{
}

proof fn lemma_planned_row(found: Seq<Found>, off: Set<usize>, mode: Mode, delete_extra: bool, i: int)
    requires
        found.len() <= usize::MAX,
    ensures
        ({
            let p = plan_of(found, off, mode, delete_extra);
            (p.uploads.contains(i) || p.downloads.contains(i) || p.delete_remote.contains(i) || p.delete_local.contains(
                i,
            )) ==> 0 <= i < found.len() && !off.contains(i as usize) && is_doable(act_for(found[i], mode, delete_extra))
        }),
    decreases found.len(),
{
    if found.len() > 0 {
        let rest = found.drop_last();
        let q = plan_of(rest, off, mode, delete_extra);
        let p = plan_of(found, off, mode, delete_extra);
        lemma_planned_row(rest, off, mode, delete_extra, i);
        let n = found.len() - 1;
        assert forall|x: int| p.uploads.contains(x) implies q.uploads.contains(x) || x == n by {
            let j = choose|j: int| 0 <= j < p.uploads.len() && p.uploads[j] == x;
            if j < q.uploads.len() {
                assert(q.uploads[j] == x);
            }
        }
        assert forall|x: int| p.downloads.contains(x) implies q.downloads.contains(x) || x == n by {
            let j = choose|j: int| 0 <= j < p.downloads.len() && p.downloads[j] == x;
            if j < q.downloads.len() {
                assert(q.downloads[j] == x);
            }
        }
        assert forall|x: int| p.delete_remote.contains(x) implies q.delete_remote.contains(x) || x == n by {
            let j = choose|j: int| 0 <= j < p.delete_remote.len() && p.delete_remote[j] == x;
            if j < q.delete_remote.len() {
                assert(q.delete_remote[j] == x);
            }
        }
        assert forall|x: int| p.delete_local.contains(x) implies q.delete_local.contains(x) || x == n by {
            let j = choose|j: int| 0 <= j < p.delete_local.len() && p.delete_local[j] == x;
            if j < q.delete_local.len() {
                assert(q.delete_local[j] == x);
            }
        }
        if i < n && i >= 0 {
            assert(found[i] == rest[i]);
        }
    }
}

/// Only ticked rows are in the plan, and only such as can be ticked.
pub proof fn law_only_ticked_rows_are_done(found: Seq<Found>, off: Set<usize>, mode: Mode, delete_extra: bool, i: int)
    requires
        found.len() <= usize::MAX,
        0 <= i < found.len(),
        off.contains(i as usize) || !is_doable(act_for(found[i], mode, delete_extra)),
    ensures
        ({
            let p = plan_of(found, off, mode, delete_extra);
            !p.uploads.contains(i) && !p.downloads.contains(i) && !p.delete_remote.contains(i)
                && !p.delete_local.contains(i)
        }),
{
    lemma_planned_row(found, off, mode, delete_extra, i);
}

/// What Start asks for: the plan, unless there is nothing to do or it is to
/// be confirmed first.
pub open spec fn start_asks(d: SyncDialog) -> Option<PlanView> {
    if d.confirming || (d.planned().works() && d.planned().deletes() == 0) {
        Some(d.planned())
    } else {
        None
    }
}

/// Nothing is deleted without being asked about once more.
pub proof fn law_deleting_is_confirmed(d: SyncDialog)
    ensures
        start_asks(d) matches Some(p) ==> p.deletes() == 0 || d.confirming,
        start_asks(SyncDialog { confirming: true, ..d }) == Some(d.planned()),
{
}

/// What a weight says.
pub open spec fn weight_words(bytes: u64, folders: int) -> NoticeView {
    if folders == 0 {
        NoticeView::Plain(files_text::size_words(bytes))
    } else if bytes == 0 {
        NoticeView::Said(message::said("files-sync-folders"@).number("count"@, folders))
    } else {
        NoticeView::Said(
            message::said("files-sync-size-folders"@).text("size"@, files_text::size_words(bytes)).number(
                "count"@,
                folders,
            ),
        )
    }
}

/// Files' size, and the folders copied whole (not weighed before).
pub fn weight(bytes: u64, folders: usize) -> (r: Notice)
    ensures
        r@ == weight_words(bytes, folders as int),
{
    let size = files_text::size_text(bytes);
    if folders == 0 {
        Notice::Plain(size)
    } else if bytes == 0 {
        Notice::Said(Message::new("files-sync-folders").number("count", folders as i128))
    } else {
        Notice::Said(Message::new("files-sync-size-folders").text("size", &size).number("count", folders as i128))
    }
}

/// How what is done looks.
#[derive(Clone, Copy, Debug, PartialEq, Eq, Structural)]
pub enum Tone {
    Good,
    Bad,
    Plain,
}

/// What is done, in words: an icon, a message, and how it looks.
pub fn act_text(act: Act) -> (r: (Option<Icon>, Message, Tone))
    ensures
        match act {
            Act::Upload => r.0 == Some(Icon::Upload) && r.1@ == message::said("files-sync-act-upload"@) && r.2
                == Tone::Good,
            Act::Download => r.0 == Some(Icon::Download) && r.1@ == message::said("files-sync-act-download"@) && r.2
                == Tone::Good,
            Act::DeleteLocal => r.0 == Some(Icon::Delete) && r.1@ == message::said("files-sync-act-delete-local"@)
                && r.2 == Tone::Bad,
            Act::DeleteRemote => r.0 == Some(Icon::Delete) && r.1@ == message::said("files-sync-act-delete-remote"@)
                && r.2 == Tone::Bad,
            Act::Same => r.0 is None && r.1@ == message::said("files-sync-act-same"@) && r.2 == Tone::Plain,
            Act::Skip => r.0 is None && r.1@ == message::said("files-sync-act-skip"@) && r.2 == Tone::Plain,
            Act::Conflict => r.0 is None && r.1@ == message::said("files-sync-act-conflict"@) && r.2 == Tone::Bad,
        },
{
    match act {
        Act::Upload => (Some(Icon::Upload), Message::new("files-sync-act-upload"), Tone::Good),
        Act::Download => (Some(Icon::Download), Message::new("files-sync-act-download"), Tone::Good),
        Act::DeleteLocal => (Some(Icon::Delete), Message::new("files-sync-act-delete-local"), Tone::Bad),
        Act::DeleteRemote => (Some(Icon::Delete), Message::new("files-sync-act-delete-remote"), Tone::Bad),
        Act::Same => (None, Message::new("files-sync-act-same"), Tone::Plain),
        Act::Skip => (None, Message::new("files-sync-act-skip"), Tone::Plain),
        Act::Conflict => (None, Message::new("files-sync-act-conflict"), Tone::Bad),
    }
}

/// One side's size and time, or that it has none; `when` is the time in
/// words (nothing where it is not known).
pub fn meta_text(meta: Option<Meta>, when: &str) -> (r: Notice)
    ensures
        r@ == (match meta {
            None => NoticeView::Plain("\u{2014}"@),
            Some(m) => if m.dir {
                NoticeView::Said(message::said("files-sync-folder"@))
            } else {
                NoticeView::Plain(files_text::size_words(m.size) + "  "@ + when@)
            },
        }),
{
    match meta {
        None => Notice::Plain(text::owned("\u{2014}")),
        Some(m) => if m.dir {
            Notice::Said(Message::new("files-sync-folder"))
        } else {
            let size = files_text::size_text(m.size);
            Notice::Plain(text::plus(&text::plus(&size, "  "), when))
        },
    }
}

/// Each way does what the comparison says for that way: without the tick
/// for deleting what it says without deleting, with it what it says with
/// deleting, and both ways the same whether ticked or not.
pub proof fn law_each_way_follows_the_comparison(f: Found)
    ensures
        act_for(f, Mode::Upload, false) == f.acts.upload,
        act_for(f, Mode::Download, false) == f.acts.download,
        act_for(f, Mode::Upload, true) == f.acts.upload_delete,
        act_for(f, Mode::Download, true) == f.acts.download_delete,
        forall|ticked: bool| #[trigger] act_for(f, Mode::Both, ticked) == f.acts.both,
{
}

/// What a row comes to: it is in exactly the list of what is done with it,
/// where it is ticked; what comes from the server or is deleted there only
/// where the server said what it is.
pub proof fn law_where_a_row_goes(found: Seq<Found>, off: Set<usize>, mode: Mode, delete_extra: bool, i: int)
    requires
        found.len() <= usize::MAX,
    ensures
        ({
            let p = plan_of(found, off, mode, delete_extra);
            let ticked = 0 <= i < found.len() && !off.contains(i as usize);
            let act = act_for(found[i], mode, delete_extra);
            &&& p.uploads.contains(i) <==> ticked && act == Act::Upload
            &&& p.downloads.contains(i) <==> ticked && act == Act::Download && found[i].known
            &&& p.delete_remote.contains(i) <==> ticked && act == Act::DeleteRemote && found[i].known
            &&& p.delete_local.contains(i) <==> ticked && act == Act::DeleteLocal
        }),
    decreases found.len(),
{
    if found.len() > 0 {
        let rest = found.drop_last();
        let n = found.len() - 1;
        let q = plan_of(rest, off, mode, delete_extra);
        let p = plan_of(found, off, mode, delete_extra);
        law_where_a_row_goes(rest, off, mode, delete_extra, i);
        lemma_one_more(q.uploads, n, i);
        lemma_one_more(q.downloads, n, i);
        lemma_one_more(q.delete_remote, n, i);
        lemma_one_more(q.delete_local, n, i);
        if 0 <= i < n {
            assert(found[i] == rest[i]);
        }
        assert(found[n] == found.last());
        assert(p == plan_of(found, off, mode, delete_extra));
    }
}

proof fn lemma_one_more(s: Seq<int>, n: int, i: int)
    ensures
        s.push(n).contains(i) <==> s.contains(i) || i == n,
{
    if s.contains(i) {
        let k = choose|k: int| 0 <= k < s.len() && s[k] == i;
        assert(s.push(n)[k] == i);
    }
    if i == n {
        assert(s.push(n)[s.len() as int] == n);
    }
    if s.push(n).contains(i) && i != n {
        let k = choose|k: int| 0 <= k < s.push(n).len() && s.push(n)[k] == i;
        assert(s[k] == i);
    }
}

/// Where the comparison deletes nothing without the tick, an unticked
/// dialog's plan deletes nothing.
pub proof fn law_nothing_is_deleted_unticked(found: Seq<Found>, off: Set<usize>, mode: Mode)
    requires
        found.len() <= usize::MAX,
        forall|i: int|
            0 <= i < found.len() ==> !deletes((#[trigger] found[i]).acts.upload) && !deletes(found[i].acts.download)
                && !deletes(found[i].acts.both),
    ensures
        plan_of(found, off, mode, false).delete_remote.len() == 0,
        plan_of(found, off, mode, false).delete_local.len() == 0,
        plan_of(found, off, mode, false).deletes() == 0,
{
    let p = plan_of(found, off, mode, false);
    if p.delete_remote.len() > 0 {
        let i = p.delete_remote[0];
        assert(p.delete_remote.contains(i));
        law_where_a_row_goes(found, off, mode, false, i);
        law_each_way_follows_the_comparison(found[i]);
    }
    if p.delete_local.len() > 0 {
        let i = p.delete_local[0];
        assert(p.delete_local.contains(i));
        law_where_a_row_goes(found, off, mode, false, i);
        law_each_way_follows_the_comparison(found[i]);
    }
}

/// Something is deleted by it.
pub open spec fn deletes(a: Act) -> bool {
    a == Act::DeleteLocal || a == Act::DeleteRemote
}

/// Rows are done in their order, each once.
pub proof fn law_rows_are_done_in_order(found: Seq<Found>, off: Set<usize>, mode: Mode, delete_extra: bool)
    ensures
        ({
            let p = plan_of(found, off, mode, delete_extra);
            &&& rising(p.uploads, found.len() as int)
            &&& rising(p.downloads, found.len() as int)
            &&& rising(p.delete_remote, found.len() as int)
            &&& rising(p.delete_local, found.len() as int)
            &&& p.deletes() == p.delete_remote.len() + p.delete_local.len()
            &&& p.works() <==> p.uploads.len() > 0 || p.downloads.len() > 0 || p.delete_remote.len() > 0
                || p.delete_local.len() > 0
        }),
    decreases found.len(),
{
    if found.len() > 0 {
        law_rows_are_done_in_order(found.drop_last(), off, mode, delete_extra);
    }
}

/// Places below `end`, each above the one before.
pub open spec fn rising(s: Seq<int>, end: int) -> bool {
    &&& forall|i: int| 0 <= i < s.len() ==> 0 <= #[trigger] s[i] < end
    &&& forall|i: int, j: int| 0 <= i < j < s.len() ==> s[i] < s[j]
}

/// A row is shown exactly when something is done with it, or all are shown.
pub proof fn law_rows_shown(found: Seq<Found>, mode: Mode, delete_extra: bool, all: bool, i: int)
    ensures
        shown(found, mode, delete_extra, all).contains(i) <==> 0 <= i < found.len() && (all || (act_for(
            found[i],
            mode,
            delete_extra,
        ) != Act::Same && act_for(found[i], mode, delete_extra) != Act::Skip)),
        rising(shown(found, mode, delete_extra, all), found.len() as int),
    decreases found.len(),
{
    if found.len() > 0 {
        let rest = found.drop_last();
        law_rows_shown(rest, mode, delete_extra, all, i);
        lemma_one_more(shown(rest, mode, delete_extra, all), found.len() - 1, i);
        if 0 <= i < rest.len() {
            assert(rest[i] == found[i]);
        }
    }
}

/// Conflicts are counted one by one: a file in conflict counts, another
/// doesn't.
pub proof fn law_conflicts_are_counted(found: Seq<Found>, f: Found, mode: Mode, delete_extra: bool)
    ensures
        conflicts_in(Seq::empty(), mode, delete_extra) == 0,
        act_for(f, mode, delete_extra) == Act::Conflict ==> conflicts_in(found.push(f), mode, delete_extra)
            == conflicts_in(found, mode, delete_extra) + 1,
        act_for(f, mode, delete_extra) != Act::Conflict ==> conflicts_in(found.push(f), mode, delete_extra)
            == conflicts_in(found, mode, delete_extra),
{
    assert(found.push(f).drop_last() =~= found);
}

/// What the copies weigh: a ticked file that goes this way adds its size on
/// the side it comes from, a ticked folder counts as one, and nothing else
/// adds anything.
pub proof fn law_weights_add_up(found: Seq<Found>, f: Found, off: Set<usize>, mode: Mode, delete_extra: bool)
    requires
        found.len() < usize::MAX,
    ensures
        weighs(Seq::empty(), off, mode, delete_extra, true) == (0nat, 0nat),
        weighs(Seq::empty(), off, mode, delete_extra, false) == (0nat, 0nat),
        ({
            let on = !off.contains(found.len() as usize);
            let act = act_for(f, mode, delete_extra);
            let up = weighs(found, off, mode, delete_extra, true);
            let down = weighs(found, off, mode, delete_extra, false);
            let up_then = weighs(found.push(f), off, mode, delete_extra, true);
            let down_then = weighs(found.push(f), off, mode, delete_extra, false);
            &&& !on || act != Act::Upload ==> up_then == up
            &&& !on || act != Act::Download ==> down_then == down
            &&& on && act == Act::Upload ==> (match f.here {
                Some(m) => up_then.0 == up.0 + (if m.dir {
                    0
                } else {
                    m.size as int
                }) && up_then.1 == up.1 + (if m.dir {
                    1int
                } else {
                    0
                }),
                None => up_then == up,
            })
            &&& on && act == Act::Download ==> (match f.there {
                Some(m) => down_then.0 == down.0 + (if m.dir {
                    0
                } else {
                    m.size as int
                }) && down_then.1 == down.1 + (if m.dir {
                    1int
                } else {
                    0
                }),
                None => down_then == down,
            })
        }),
{
    assert(found.push(f).drop_last() =~= found);
}

/// What can be ticked: copies and deletions.
pub proof fn law_doable(a: Act)
    ensures
        is_doable(a) <==> a == Act::Upload || a == Act::Download || a == Act::DeleteLocal || a == Act::DeleteRemote,
{
}

/// Start asks for nothing where there is nothing to do, for the plan where
/// nothing is deleted, and where something is only once it was confirmed.
pub proof fn law_start(d: SyncDialog)
    requires
        !d.confirming,
    ensures
        d.planned().delete_remote.len() + d.planned().delete_local.len() > 0 ==> start_asks(d) is None,
        d.planned().delete_remote.len() + d.planned().delete_local.len() == 0 ==> (start_asks(d) is Some <==> d.planned().uploads.len()
            + d.planned().downloads.len() > 0),
        start_asks(d) matches Some(p) ==> p == plan_of(d.found(), d.off_set(), d.mode, d.delete_extra),
        d.scan matches Scan::Done(found) ==> d.found() == found@,
        forall|i: usize| d.off_set().contains(i) <==> d.off@.contains(i),
{
}

/// A weight is told by size, by folders, or by both.
pub proof fn law_weight_words(bytes: u64, folders: int)
    ensures
        weight_words(bytes, 0) == NoticeView::Plain(files_text::size_words(bytes)),
        folders > 0 ==> weight_words(0, folders) == NoticeView::Said(
            message::said("files-sync-folders"@).number("count"@, folders),
        ),
        folders > 0 && bytes > 0 ==> weight_words(bytes, folders) == NoticeView::Said(
            message::said("files-sync-size-folders"@).text("size"@, files_text::size_words(bytes)).number(
                "count"@,
                folders,
            ),
        ),
{
}

} // verus!
