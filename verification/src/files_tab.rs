//! A session of the files window: the server's folder and the local one,
//! the trees beside them, what is selected, and the session's log. What has
//! to be done outside (listing a folder, connecting) is given back as
//! effects; what comes of it is handed in again.

use vstd::prelude::*;

use crate::files_list;
use crate::files_list::Row;
use crate::files_list::RowView;
use crate::files_list::Selection;
use crate::files_text;
use crate::files_tree;
use crate::files_tree::NodeView;
use crate::files_tree::Tree;
use crate::message;
use crate::message::Message;
use crate::message::Notice;
use crate::message::NoticeView;
use crate::text;

verus! {

/// Log lines kept per session.
pub const LOG_LINES: usize = 200;

/// A line of the log.
pub struct LogLine {
    pub time: String,
    pub text: Notice,
    pub error: bool,
}

/// A line of the log.
pub struct LineView {
    pub time: Seq<char>,
    pub text: NoticeView,
    pub error: bool,
}

impl View for LogLine {
    type V = LineView;

    open spec fn view(&self) -> LineView {
        LineView { time: self.time@, text: self.text@, error: self.error }
    }
}

/// The server's side of a session.
pub struct Remote {
    pub connected: bool,
    pub failed: Option<String>,
    pub path: Vec<u8>,
    pub path_text: String,
    pub rows: Vec<Row>,
    pub listing: bool,
    pub error: Option<String>,
    pub selection: Selection,
    pub renaming: Option<(Vec<u8>, String)>,
}

/// The server's side of a session.
pub struct RemoteView {
    pub connected: bool,
    pub failed: Option<Seq<char>>,
    pub path: Seq<u8>,
    pub path_text: Seq<char>,
    pub rows: Seq<RowView>,
    pub listing: bool,
    pub error: Option<Seq<char>>,
    pub selected: Set<Seq<u8>>,
    pub anchor: Option<usize>,
    pub renaming: Option<(Seq<u8>, Seq<char>)>,
}

/// What is being renamed.
pub open spec fn renaming_of(r: Option<(Vec<u8>, String)>) -> Option<(Seq<u8>, Seq<char>)> {
    match r {
        Some((k, n)) => Some((k@, n@)),
        None => None,
    }
}

/// An optional path.
pub open spec fn optional_path(p: Option<Vec<u8>>) -> Option<Seq<u8>> {
    match p {
        Some(p) => Some(p@),
        None => None,
    }
}

impl View for Remote {
    type V = RemoteView;

    open spec fn view(&self) -> RemoteView {
        RemoteView {
            connected: self.connected,
            failed: text::optional(self.failed),
            path: self.path@,
            path_text: self.path_text@,
            rows: files_list::rows(self.rows@),
            listing: self.listing,
            error: text::optional(self.error),
            selected: self.selection@,
            anchor: self.selection.anchor,
            renaming: renaming_of(self.renaming),
        }
    }
}

/// The local side of a session: a folder, or `None` for the drives.
pub struct Local {
    pub path: Option<Vec<u8>>,
    pub path_text: String,
    pub rows: Vec<Row>,
    pub error: Option<String>,
    pub selection: Selection,
    pub renaming: Option<(Vec<u8>, String)>,
}

/// The local side of a session.
pub struct LocalView {
    pub path: Option<Seq<u8>>,
    pub path_text: Seq<char>,
    pub rows: Seq<RowView>,
    pub error: Option<Seq<char>>,
    pub selected: Set<Seq<u8>>,
    pub anchor: Option<usize>,
    pub renaming: Option<(Seq<u8>, Seq<char>)>,
}

impl View for Local {
    type V = LocalView;

    open spec fn view(&self) -> LocalView {
        LocalView {
            path: optional_path(self.path),
            path_text: self.path_text@,
            rows: files_list::rows(self.rows@),
            error: text::optional(self.error),
            selected: self.selection@,
            anchor: self.selection.anchor,
            renaming: renaming_of(self.renaming),
        }
    }
}

/// A session.
pub struct Tab {
    pub id: u64,
    /// The host.
    pub alias: String,
    pub label: String,
    /// The terminal tab's tmux session.
    pub tmux_session: Option<String>,
    /// The last folders of each host are kept.
    pub memory: bool,
    pub remote: Remote,
    pub local: Local,
    pub remote_tree: Tree,
    pub local_tree: Tree,
    /// The files being edited, by name.
    pub edits: Vec<String>,
    pub log: Vec<LogLine>,
    /// The folders last written down (written again only when another is
    /// shown).
    pub kept_remote: Option<Vec<u8>>,
    pub kept_local: Option<Vec<u8>>,
}

/// A session.
pub struct TabView {
    pub id: u64,
    pub alias: Seq<char>,
    pub label: Seq<char>,
    pub tmux_session: Option<Seq<char>>,
    pub memory: bool,
    pub remote: RemoteView,
    pub local: LocalView,
    pub remote_tree: Map<Seq<u8>, NodeView>,
    pub local_tree: Map<Seq<u8>, NodeView>,
    pub edits: Seq<Seq<char>>,
    pub log: Seq<LineView>,
    pub kept_remote: Option<Seq<u8>>,
    pub kept_local: Option<Seq<u8>>,
}

/// The lines of a log.
pub open spec fn lines(v: Seq<LogLine>) -> Seq<LineView> {
    v.map_values(|l: LogLine| l@)
}

impl View for Tab {
    type V = TabView;

    open spec fn view(&self) -> TabView {
        TabView {
            id: self.id,
            alias: self.alias@,
            label: self.label@,
            tmux_session: text::optional(self.tmux_session),
            memory: self.memory,
            remote: self.remote@,
            local: self.local@,
            remote_tree: self.remote_tree@,
            local_tree: self.local_tree@,
            edits: text::texts(self.edits@),
            log: lines(self.log@),
            kept_remote: optional_path(self.kept_remote),
            kept_local: optional_path(self.kept_local),
        }
    }
}

/// What is to be done outside, for a session.
pub enum Effect {
    /// Connect to the host.
    Connect(u64),
    /// Find the local side's first folder.
    StartLocal(u64),
    /// Ask where the terminal tab is.
    Follow(u64),
    /// List a folder of the server.
    List(u64, Vec<u8>),
    /// List a local folder, or the drives.
    ListLocal(u64, Option<Vec<u8>>),
    /// Read a folder's subfolders, for the server's tree.
    ReadRemote(u64, Vec<u8>),
    /// Read a folder's subfolders, for the local tree.
    ReadLocal(u64, Vec<u8>),
    /// Keep a setting.
    Keep(String, String),
    /// Rename a file of the server.
    Rename(u64, Vec<u8>, Vec<u8>),
    /// Give a local file another name.
    RenameLocal(u64, Vec<u8>, String),
    /// Create a folder on the server.
    MakeFolder(u64, Vec<u8>),
    /// Create a folder in the local folder shown.
    MakeLocalFolder(u64, Vec<u8>, String),
    /// Edit a file of the server.
    Edit(u64, Vec<u8>),
    /// Open a local file with its program.
    OpenLocal(u64, Vec<u8>),
    /// The files of a transfer go into this folder.
    Into(u64, Vec<u8>),
    /// Run a transfer.
    Run(u64),
    /// Tell a transfer to stop, keeping its partial file.
    Pause(u64),
    /// Tell a job to stop for good.
    Cancel(u64),
    /// Remove the partial file of a transfer, then show its side again.
    Discard(u64, bool),
    /// Delete the server's files of a job.
    Delete(u64),
    /// Local files to the Recycle Bin.
    Recycle(u64),
    /// Compare the folders shown.
    Compare(u64),
    /// Give ssh an answer, or none.
    Answer(Option<String>),
    /// End a session: its edits are not watched any more, its connection is
    /// closed.
    End(u64),
}

/// What is to be done outside.
pub enum EffectView {
    Connect(u64),
    StartLocal(u64),
    Follow(u64),
    List(u64, Seq<u8>),
    ListLocal(u64, Option<Seq<u8>>),
    ReadRemote(u64, Seq<u8>),
    ReadLocal(u64, Seq<u8>),
    Keep(Seq<char>, Seq<char>),
    Rename(u64, Seq<u8>, Seq<u8>),
    RenameLocal(u64, Seq<u8>, Seq<char>),
    MakeFolder(u64, Seq<u8>),
    MakeLocalFolder(u64, Seq<u8>, Seq<char>),
    Edit(u64, Seq<u8>),
    OpenLocal(u64, Seq<u8>),
    Into(u64, Seq<u8>),
    Run(u64),
    Pause(u64),
    Cancel(u64),
    Discard(u64, bool),
    Delete(u64),
    Recycle(u64),
    Compare(u64),
    Answer(Option<Seq<char>>),
    End(u64),
}

impl View for Effect {
    type V = EffectView;

    open spec fn view(&self) -> EffectView {
        match self {
            Effect::Connect(t) => EffectView::Connect(*t),
            Effect::StartLocal(t) => EffectView::StartLocal(*t),
            Effect::Follow(t) => EffectView::Follow(*t),
            Effect::List(t, p) => EffectView::List(*t, p@),
            Effect::ListLocal(t, p) => EffectView::ListLocal(*t, optional_path(*p)),
            Effect::ReadRemote(t, p) => EffectView::ReadRemote(*t, p@),
            Effect::ReadLocal(t, p) => EffectView::ReadLocal(*t, p@),
            Effect::Keep(k, v) => EffectView::Keep(k@, v@),
            Effect::Rename(t, a, b) => EffectView::Rename(*t, a@, b@),
            Effect::RenameLocal(t, a, b) => EffectView::RenameLocal(*t, a@, b@),
            Effect::MakeFolder(t, p) => EffectView::MakeFolder(*t, p@),
            Effect::MakeLocalFolder(t, p, n) => EffectView::MakeLocalFolder(*t, p@, n@),
            Effect::Edit(t, p) => EffectView::Edit(*t, p@),
            Effect::OpenLocal(t, p) => EffectView::OpenLocal(*t, p@),
            Effect::Into(j, p) => EffectView::Into(*j, p@),
            Effect::Run(j) => EffectView::Run(*j),
            Effect::Pause(j) => EffectView::Pause(*j),
            Effect::Cancel(j) => EffectView::Cancel(*j),
            Effect::Discard(j, u) => EffectView::Discard(*j, *u),
            Effect::Delete(j) => EffectView::Delete(*j),
            Effect::Recycle(t) => EffectView::Recycle(*t),
            Effect::Compare(t) => EffectView::Compare(*t),
            Effect::Answer(a) => EffectView::Answer(text::optional(*a)),
            Effect::End(t) => EffectView::End(*t),
        }
    }
}

/// What is to be done outside, one after the other.
pub open spec fn effects(v: Seq<Effect>) -> Seq<EffectView> {
    v.map_values(|e: Effect| e@)
}

/// One effect.
pub(crate) fn one(e: Effect) -> (r: Vec<Effect>)
    ensures
        effects(r@) == seq![e@],
{
    let mut r: Vec<Effect> = Vec::new();
    r.push(e);
    proof {
        assert(effects(r@) =~= seq![e@]);
    }
    r
}

/// No effect.
pub(crate) fn nothing() -> (r: Vec<Effect>)
    ensures
        effects(r@) == Seq::<EffectView>::empty(),
{
    let r: Vec<Effect> = Vec::new();
    proof {
        assert(effects(r@) =~= Seq::empty());
    }
    r
}

/// One list of effects behind another.
pub(crate) fn also(a: &mut Vec<Effect>, b: Vec<Effect>)
    ensures
        effects(final(a)@) == effects(old(a)@) + effects(b@),
{
    let ghost start = effects(a@);
    let ghost all = effects(b@);
    let mut rest = b;
    let ghost mut i: int = 0;
    proof {
        assert(start + all.take(0) =~= start);
        assert(all.skip(0) =~= all);
    }
    while rest.len() > 0
        invariant
            0 <= i <= all.len(),
            effects(rest@) == all.skip(i),
            effects(a@) == start + all.take(i),
        decreases rest@.len(),
    {
        let ghost held = rest@;
        let ghost had = a@;
        let e = rest.remove(0);
        proof {
            assert(effects(held)[0] == e@);
            assert(effects(held).len() == held.len());
            assert(rest@ =~= held.skip(1));
            assert(effects(rest@) =~= effects(held).skip(1));
            assert(effects(held).skip(1) =~= all.skip(i + 1));
        }
        a.push(e);
        proof {
            assert(effects(a@) =~= effects(had).push(e@));
            assert(start + all.take(i + 1) =~= (start + all.take(i)).push(all[i]));
            i = i + 1;
        }
    }
    proof {
        assert(effects(rest@).len() == rest@.len());
        assert(all.take(i) =~= all);
    }
}

/// A session after a line was logged: only the last lines stay.
pub open spec fn logged(t: TabView, time: Seq<char>, text: NoticeView, error: bool) -> TabView {
    let log = t.log.push(LineView { time, text, error });
    TabView {
        log: if log.len() > LOG_LINES {
            log.skip(1)
        } else {
            log
        },
        ..t
    }
}

/// A session after it was told to list a folder of the server; without a
/// connection nothing is asked for.
pub open spec fn asked_for(t: TabView, path: Seq<u8>) -> (TabView, Seq<EffectView>) {
    if t.remote.connected {
        (
            TabView { remote: RemoteView { listing: true, ..t.remote }, ..t },
            seq![EffectView::List(t.id, path)],
        )
    } else {
        (t, Seq::empty())
    }
}

/// A session that goes to a folder of the server: nothing is selected.
pub open spec fn gone_to(t: TabView, path: Seq<u8>) -> (TabView, Seq<EffectView>) {
    asked_for(
        TabView {
            remote: RemoteView { selected: Set::empty(), anchor: None, renaming: None, ..t.remote },
            ..t
        },
        path,
    )
}

/// A session that goes to a local folder: nothing is selected there.
pub open spec fn gone_local(t: TabView, path: Option<Seq<u8>>) -> (TabView, Seq<EffectView>) {
    (
        TabView {
            local: LocalView { selected: Set::empty(), anchor: None, renaming: None, ..t.local },
            ..t
        },
        seq![EffectView::ListLocal(t.id, path)],
    )
}

/// A session that connects (again).
pub open spec fn connecting(t: TabView, time: Seq<char>) -> (TabView, Seq<EffectView>) {
    (
        logged(
            TabView { remote: RemoteView { failed: None, connected: false, ..t.remote }, ..t },
            time,
            NoticeView::Said(message::said("files-log-connecting"@).text("host"@, t.alias)),
            false,
        ),
        seq![EffectView::Connect(t.id)],
    )
}

/// A session that is connected: it goes to its first folder.
pub open spec fn now_connected(t: TabView, start: Seq<u8>, shown: Seq<char>, time: Seq<char>) -> (
    TabView,
    Seq<EffectView>,
) {
    gone_to(
        logged(
            TabView { remote: RemoteView { connected: true, ..t.remote }, ..t },
            time,
            NoticeView::Said(message::said("files-log-connected"@).text("path"@, shown)),
            false,
        ),
        start,
    )
}

/// A session that could not connect.
pub open spec fn not_connected(t: TabView, error: Seq<char>, time: Seq<char>) -> TabView {
    let l = logged(t, time, NoticeView::Plain(error), true);
    TabView { remote: RemoteView { failed: Some(error), ..l.remote }, ..l }
}

/// The folder of the server that is kept as the host's last, where another
/// was.
pub open spec fn remembered(t: TabView, path: Seq<u8>) -> (TabView, Seq<EffectView>) {
    if t.memory && t.kept_remote != Some(path) {
        (
            TabView { kept_remote: Some(path), ..t },
            seq![EffectView::Keep("files.remote:"@ + t.alias, files_text::hex_of(path))],
        )
    } else {
        (t, Seq::empty())
    }
}

/// The local folder that is kept as the host's last, where another was.
pub open spec fn remembered_local(t: TabView, path: Seq<u8>, shown: Seq<char>) -> (TabView, Seq<EffectView>) {
    if t.memory && t.kept_local != Some(path) {
        (
            TabView { kept_local: Some(path), ..t },
            seq![EffectView::Keep("files.local:"@ + t.alias, shown)],
        )
    } else {
        (t, Seq::empty())
    }
}

/// Folders to read, for the server's tree.
pub open spec fn to_read(id: u64, paths: Seq<Seq<u8>>) -> Seq<EffectView> {
    paths.map_values(|p: Seq<u8>| EffectView::ReadRemote(id, p))
}

/// Folders to read, for the local tree.
pub open spec fn to_read_local(id: u64, paths: Seq<Seq<u8>>) -> Seq<EffectView> {
    paths.map_values(|p: Seq<u8>| EffectView::ReadLocal(id, p))
}

/// The server's tree opened down to a folder.
pub open spec fn tree_opened(t: TabView, chain: Seq<Seq<u8>>) -> (TabView, Seq<EffectView>) {
    if t.remote.connected {
        let (tree, read) = files_tree::expanded(t.remote_tree, chain);
        (TabView { remote_tree: tree, ..t }, to_read(t.id, read))
    } else {
        (t, Seq::empty())
    }
}

/// The local tree opened down to a folder.
pub open spec fn local_tree_opened(t: TabView, chain: Seq<Seq<u8>>) -> (TabView, Seq<EffectView>) {
    let (tree, read) = files_tree::expanded(t.local_tree, chain);
    (TabView { local_tree: tree, ..t }, to_read_local(t.id, read))
}

/// Two steps, one after the other.
pub open spec fn both(a: (TabView, Seq<EffectView>), b: (TabView, Seq<EffectView>)) -> (TabView, Seq<EffectView>) {
    (b.0, a.1 + b.1)
}

/// The keys of the rows of a list.
pub open spec fn keys_in(rows: Seq<RowView>) -> Set<Seq<u8>> {
    rows.map_values(|r: RowView| r.key).to_set()
}

/// What a session makes of a folder of the server that was listed: it is
/// shown, kept as the last, and opened in the tree; what is not there any
/// more is not selected any more. Where listing failed because the
/// connection went (`closed`), that is said.
pub open spec fn now_listed(
    t: TabView,
    path: Seq<u8>,
    shown: Seq<char>,
    result: Result<Seq<RowView>, Seq<char>>,
    closed: Option<Seq<char>>,
    time: Seq<char>,
) -> (TabView, Seq<EffectView>) {
    let t = TabView { remote: RemoteView { listing: false, ..t.remote }, ..t };
    match result {
        Ok(rows) => {
            let t = TabView {
                remote: RemoteView {
                    path_text: shown,
                    path,
                    rows,
                    error: None,
                    selected: t.remote.selected.intersect(keys_in(rows)),
                    ..t.remote
                },
                ..t
            };
            let a = remembered(t, path);
            both(a, tree_opened(a.0, files_text::chain_of(files_text::parts_of(path))))
        },
        Err(e) => match closed {
            Some(why) if t.remote.connected => (
                logged(
                    TabView { remote: RemoteView { failed: Some(why), connected: false, ..t.remote }, ..t },
                    time,
                    NoticeView::Plain(why),
                    true,
                ),
                Seq::empty(),
            ),
            _ => (TabView { remote: RemoteView { error: Some(e), ..t.remote }, ..t }, Seq::empty()),
        },
    }
}

/// What a session makes of a local folder that was listed; `chain` are the
/// folders from the drive down to it.
pub open spec fn now_listed_local(
    t: TabView,
    path: Option<Seq<u8>>,
    shown: Seq<char>,
    chain: Seq<Seq<u8>>,
    result: Result<Seq<RowView>, Seq<char>>,
) -> (TabView, Seq<EffectView>) {
    match result {
        Ok(rows) => {
            let t = TabView { local: LocalView { path_text: shown, path, rows, error: None, ..t.local }, ..t };
            match path {
                Some(p) => {
                    let a = remembered_local(t, p, shown);
                    both(a, local_tree_opened(a.0, chain))
                },
                None => (t, Seq::empty()),
            }
        },
        Err(e) => (TabView { local: LocalView { error: Some(e), ..t.local }, ..t }, Seq::empty()),
    }
}

/// The rows that were listed, or why they were not.
pub open spec fn listing_of(r: Result<Vec<Row>, String>) -> Result<Seq<RowView>, Seq<char>> {
    match r {
        Ok(rows) => Ok(files_list::rows(rows@)),
        Err(e) => Err(e@),
    }
}

fn same_path(a: &Option<Vec<u8>>, b: &[u8]) -> (r: bool)
    ensures
        r == (optional_path(*a) == Some(b@)),
{
    match a {
        Some(a) => files_list::same_key(a, b),
        None => false,
    }
}

proof fn lemma_keys(rows: Seq<Row>)
    ensures
        files_list::row_keys(rows).to_set() == keys_in(files_list::rows(rows)),
{
    assert(files_list::row_keys(rows) =~= files_list::rows(rows).map_values(|r: RowView| r.key));
}

/// Folders to read, one after the other.
fn reading(id: u64, paths: Vec<Vec<u8>>, local: bool) -> (r: Vec<Effect>)
    ensures
        effects(r@) == (if local {
            to_read_local(id, files_text::paths(paths@))
        } else {
            to_read(id, files_text::paths(paths@))
        }),
{
    let ghost all = files_text::paths(paths@);
    let ghost want = if local {
        to_read_local(id, all)
    } else {
        to_read(id, all)
    };
    let mut r: Vec<Effect> = Vec::new();
    let mut i: usize = 0;
    proof {
        assert(effects(r@) =~= want.take(0));
    }
    while i < paths.len()
        invariant
            i <= paths@.len(),
            all == files_text::paths(paths@),
            want == (if local {
                to_read_local(id, all)
            } else {
                to_read(id, all)
            }),
            effects(r@) == want.take(i as int),
        decreases paths@.len() - i,
    {
        let ghost before = r@;
        let path = files_list::copy_key(&paths[i]);
        let e = if local {
            Effect::ReadLocal(id, path)
        } else {
            Effect::ReadRemote(id, path)
        };
        r.push(e);
        proof {
            assert(all[i as int] == path@);
            assert(want[i as int] == e@);
            assert(effects(r@) =~= effects(before).push(e@));
            assert(want.take(i + 1) =~= want.take(i as int).push(want[i as int]));
        }
        i += 1;
    }
    proof {
        assert(want.take(i as int) =~= want);
    }
    r
}

impl Tab {
    /// What holds of every session: nothing is selected or opened twice, and
    /// the log is no longer than it may be.
    pub open spec fn wf(self) -> bool {
        &&& self.remote.selection.wf()
        &&& self.local.selection.wf()
        &&& self.remote_tree.wf()
        &&& self.local_tree.wf()
        &&& self.log@.len() <= LOG_LINES
    }

    /// A session that was just opened.
    pub fn new(id: u64, alias: String, label: String, tmux_session: Option<String>, memory: bool) -> (r: Tab)
        ensures
            r.wf(),
            r@ == fresh(id, alias@, label@, text::optional(tmux_session), memory),
    {
        let remote = Remote {
            connected: false,
            failed: None,
            path: Vec::new(),
            path_text: String::new(),
            rows: Vec::new(),
            listing: false,
            error: None,
            selection: Selection::none(),
            renaming: None,
        };
        let local = Local {
            path: None,
            path_text: String::new(),
            rows: Vec::new(),
            error: None,
            selection: Selection::none(),
            renaming: None,
        };
        let r = Tab {
            id,
            alias,
            label,
            tmux_session,
            memory,
            remote,
            local,
            remote_tree: Tree::new(),
            local_tree: Tree::new(),
            edits: Vec::new(),
            log: Vec::new(),
            kept_remote: None,
            kept_local: None,
        };
        proof {
            assert(r@.remote.rows =~= Seq::empty());
            assert(r@.remote.path =~= Seq::empty());
            assert(r@.remote.path_text =~= Seq::empty());
            assert(r@.local.path_text =~= Seq::empty());
            assert(r@.local.rows =~= Seq::empty());
            assert(r@.edits =~= Seq::empty());
            assert(r@.log =~= Seq::empty());
        }
        r
    }

    /// A line for the log.
    pub fn log(&mut self, time: &str, text: Notice, error: bool)
        requires
            old(self).wf(),
        ensures
            final(self).wf(),
            final(self)@ == logged(old(self)@, time@, text@, error),
    {
        let ghost before = self.log@;
        let line = LogLine { time: text::owned(time), text, error };
        self.log.push(line);
        proof {
            assert(lines(self.log@) =~= lines(before).push(line@));
        }
        if self.log.len() > LOG_LINES {
            let ghost long = self.log@;
            let _ = self.log.remove(0);
            proof {
                assert(self.log@ =~= long.skip(1));
                assert(lines(self.log@) =~= lines(long).skip(1));
            }
        }
    }

    /// A folder of the server is to be listed.
    pub fn list(&mut self, path: Vec<u8>) -> (r: Vec<Effect>)
        requires
            old(self).wf(),
        ensures
            final(self).wf(),
            (final(self)@, effects(r@)) == asked_for(old(self)@, path@),
    {
        if !self.remote.connected {
            return nothing();
        }
        self.remote.listing = true;
        one(Effect::List(self.id, path))
    }

    /// A folder of the server is to be shown.
    pub fn go(&mut self, path: Vec<u8>) -> (r: Vec<Effect>)
        requires
            old(self).wf(),
        ensures
            final(self).wf(),
            (final(self)@, effects(r@)) == gone_to(old(self)@, path@),
    {
        self.remote.selection = Selection::none();
        self.remote.renaming = None;
        self.list(path)
    }

    /// The server's folder is to be listed again.
    pub fn refresh(&mut self) -> (r: Vec<Effect>)
        requires
            old(self).wf(),
        ensures
            final(self).wf(),
            (final(self)@, effects(r@)) == asked_for(old(self)@, old(self)@.remote.path),
    {
        let path = files_list::copy_key(&self.remote.path);
        self.list(path)
    }

    /// A local folder (or the drives) is to be shown.
    pub fn list_local(&mut self, path: Option<Vec<u8>>) -> (r: Vec<Effect>)
        requires
            old(self).wf(),
        ensures
            final(self).wf(),
            (final(self)@, effects(r@)) == gone_local(old(self)@, optional_path(path)),
    {
        self.local.selection = Selection::none();
        self.local.renaming = None;
        one(Effect::ListLocal(self.id, path))
    }

    /// The local folder is to be listed again.
    pub fn refresh_local(&mut self) -> (r: Vec<Effect>)
        requires
            old(self).wf(),
        ensures
            final(self).wf(),
            (final(self)@, effects(r@)) == gone_local(old(self)@, old(self)@.local.path),
    {
        let path = match &self.local.path {
            Some(p) => Some(files_list::copy_key(p)),
            None => None,
        };
        self.list_local(path)
    }

    /// Connect (again).
    pub fn connect(&mut self, time: &str) -> (r: Vec<Effect>)
        requires
            old(self).wf(),
        ensures
            final(self).wf(),
            (final(self)@, effects(r@)) == connecting(old(self)@, time@),
    {
        self.remote.failed = None;
        self.remote.connected = false;
        let said = Notice::Said(Message::new("files-log-connecting").text("host", &self.alias));
        self.log(time, said, false);
        one(Effect::Connect(self.id))
    }

    /// The connection is there; `start` is the folder to begin with.
    pub fn connected(&mut self, start: Vec<u8>, shown: &str, time: &str) -> (r: Vec<Effect>)
        requires
            old(self).wf(),
        ensures
            final(self).wf(),
            (final(self)@, effects(r@)) == now_connected(old(self)@, start@, shown@, time@),
    {
        self.remote.connected = true;
        self.log(time, Notice::Said(Message::new("files-log-connected").text("path", shown)), false);
        self.go(start)
    }

    /// There is no connection.
    pub fn failed(&mut self, error: String, time: &str)
        requires
            old(self).wf(),
        ensures
            final(self).wf(),
            final(self)@ == not_connected(old(self)@, error@, time@),
    {
        let said = text::owned(&error);
        self.log(time, Notice::Plain(said), true);
        self.remote.failed = Some(error);
    }

    fn remember(&mut self, path: &[u8]) -> (r: Vec<Effect>)
        requires
            old(self).wf(),
        ensures
            final(self).wf(),
            (final(self)@, effects(r@)) == remembered(old(self)@, path@),
    {
        if !self.memory || same_path(&self.kept_remote, path) {
            return nothing();
        }
        let key = files_text::remote_key_for(&self.alias);
        let value = files_text::hex(path);
        self.kept_remote = Some(files_list::copy_key(path));
        one(Effect::Keep(key, value))
    }

    fn remember_local(&mut self, path: &[u8], shown: &str) -> (r: Vec<Effect>)
        requires
            old(self).wf(),
        ensures
            final(self).wf(),
            (final(self)@, effects(r@)) == remembered_local(old(self)@, path@, shown@),
    {
        if !self.memory || same_path(&self.kept_local, path) {
            return nothing();
        }
        let key = files_text::local_key_for(&self.alias);
        let value = text::owned(shown);
        self.kept_local = Some(files_list::copy_key(path));
        one(Effect::Keep(key, value))
    }

    fn expand(&mut self, path: &[u8]) -> (r: Vec<Effect>)
        requires
            old(self).wf(),
        ensures
            final(self).wf(),
            (final(self)@, effects(r@)) == tree_opened(
                old(self)@,
                files_text::chain_of(files_text::parts_of(path@)),
            ),
    {
        if !self.remote.connected {
            return nothing();
        }
        let chain = files_text::chain(path);
        let read = self.remote_tree.expand(&chain);
        reading(self.id, read, false)
    }

    /// A folder of the server was listed, or was not; `closed` is why the
    /// connection is gone, if it is.
    pub fn listed(
        &mut self,
        path: Vec<u8>,
        shown: String,
        result: Result<Vec<Row>, String>,
        closed: Option<String>,
        time: &str,
    ) -> (r: Vec<Effect>)
        requires
            old(self).wf(),
        ensures
            final(self).wf(),
            (final(self)@, effects(r@)) == now_listed(
                old(self)@,
                path@,
                shown@,
                listing_of(result),
                text::optional(closed),
                time@,
            ),
    {
        self.remote.listing = false;
        match result {
            Ok(rows) => {
                proof {
                    lemma_keys(rows@);
                }
                self.remote.selection.retain(&rows);
                let at = files_list::copy_key(&path);
                self.remote.path_text = shown;
                self.remote.path = path;
                self.remote.rows = rows;
                self.remote.error = None;
                let mut r = self.remember(&at);
                let read = self.expand(&at);
                also(&mut r, read);
                r
            },
            Err(e) => match closed {
                Some(why) => {
                    if self.remote.connected {
                        let said = text::owned(&why);
                        self.remote.failed = Some(why);
                        self.remote.connected = false;
                        self.log(time, Notice::Plain(said), true);
                    } else {
                        self.remote.error = Some(e);
                    }
                    nothing()
                },
                None => {
                    self.remote.error = Some(e);
                    nothing()
                },
            },
        }
    }

    /// A local folder (or the drives) was listed, or was not; `chain` are
    /// the folders from the drive down to it.
    pub fn local_listed(
        &mut self,
        path: Option<Vec<u8>>,
        shown: String,
        chain: &[Vec<u8>],
        result: Result<Vec<Row>, String>,
    ) -> (r: Vec<Effect>)
        requires
            old(self).wf(),
        ensures
            final(self).wf(),
            (final(self)@, effects(r@)) == now_listed_local(
                old(self)@,
                optional_path(path),
                shown@,
                files_text::paths(chain@),
                listing_of(result),
            ),
    {
        match result {
            Ok(rows) => {
                let at = match &path {
                    Some(p) => Some(files_list::copy_key(p)),
                    None => None,
                };
                let kept = text::owned(&shown);
                self.local.path_text = shown;
                self.local.path = path;
                self.local.rows = rows;
                self.local.error = None;
                match at {
                    Some(at) => {
                        let mut r = self.remember_local(&at, &kept);
                        let read = self.local_tree.expand(chain);
                        let read = reading(self.id, read, true);
                        also(&mut r, read);
                        r
                    },
                    None => nothing(),
                }
            },
            Err(e) => {
                self.local.error = Some(e);
                nothing()
            },
        }
    }

    /// A chevron of the server's tree: without a connection no folder is
    /// opened, but one can be closed.
    pub fn toggle_remote(&mut self, path: Vec<u8>) -> (r: Vec<Effect>)
        requires
            old(self).wf(),
        ensures
            final(self).wf(),
            (final(self)@, effects(r@)) == toggled(old(self)@, path@),
    {
        let open = self.remote_tree.is_open(&path);
        if !open && !self.remote.connected {
            return nothing();
        }
        if self.remote_tree.toggle(&path) {
            one(Effect::ReadRemote(self.id, path))
        } else {
            nothing()
        }
    }

    /// A chevron of the local tree.
    pub fn toggle_local(&mut self, path: Vec<u8>) -> (r: Vec<Effect>)
        requires
            old(self).wf(),
        ensures
            final(self).wf(),
            (final(self)@, effects(r@)) == toggled_local(old(self)@, path@),
    {
        if self.local_tree.toggle(&path) {
            one(Effect::ReadLocal(self.id, path))
        } else {
            nothing()
        }
    }

    /// A folder's subfolders were read, for the server's tree.
    pub fn remote_folders(&mut self, path: &[u8], folders: Vec<(String, Vec<u8>)>)
        requires
            old(self).wf(),
        ensures
            final(self).wf(),
            final(self)@ == (TabView {
                remote_tree: files_tree::filled(old(self)@.remote_tree, path@, files_tree::folders(folders@)),
                ..old(self)@
            }),
    {
        self.remote_tree.fill(path, folders);
    }

    /// A folder's subfolders were read, for the local tree.
    pub fn local_folders(&mut self, path: &[u8], folders: Vec<(String, Vec<u8>)>)
        requires
            old(self).wf(),
        ensures
            final(self).wf(),
            final(self)@ == (TabView {
                local_tree: files_tree::filled(old(self)@.local_tree, path@, files_tree::folders(folders@)),
                ..old(self)@
            }),
    {
        self.local_tree.fill(path, folders);
    }
}

/// A file of the server that was picked.
#[derive(Clone, Debug, PartialEq, Eq)]
pub struct Picked {
    pub path: Vec<u8>,
    /// Its place in the list.
    pub row: usize,
    /// It is taken as a folder: it is one, or a link to one.
    pub dir: bool,
    /// It is a link, and not to a folder.
    pub link: bool,
}

/// A file of the server that was picked.
pub struct PickedView {
    pub path: Seq<u8>,
    pub row: int,
    pub dir: bool,
    pub link: bool,
}

impl View for Picked {
    type V = PickedView;

    open spec fn view(&self) -> PickedView {
        PickedView { path: self.path@, row: self.row as int, dir: self.dir, link: self.link }
    }
}

/// The files picked.
pub open spec fn picks(v: Seq<Picked>) -> Seq<PickedView> {
    v.map_values(|p: Picked| p@)
}

/// The files of the server whose keys are among these, in the list's order.
/// A link to a folder is taken as that folder.
pub open spec fn picked_from(folder: Seq<u8>, rows: Seq<RowView>, keys: Set<Seq<u8>>) -> Seq<PickedView>
    decreases rows.len(),
{
    if rows.len() == 0 {
        Seq::empty()
    } else {
        let rest = picked_from(folder, rows.drop_last(), keys);
        let r = rows.last();
        if keys.contains(r.key) {
            rest.push(
                PickedView {
                    path: files_text::in_folder(folder, r.key),
                    row: rows.len() - 1,
                    dir: r.dir,
                    link: r.link && !r.dir,
                },
            )
        } else {
            rest
        }
    }
}

/// The local files whose keys are among these, in the list's order.
pub open spec fn local_picked(rows: Seq<RowView>, keys: Set<Seq<u8>>) -> Seq<Seq<u8>>
    decreases rows.len(),
{
    if rows.len() == 0 {
        Seq::empty()
    } else if keys.contains(rows.last().key) {
        local_picked(rows.drop_last(), keys).push(rows.last().key)
    } else {
        local_picked(rows.drop_last(), keys)
    }
}

/// Something to delete is a folder, or a link to one (which is taken as
/// that folder).
pub open spec fn any_folder(items: Seq<PickedView>) -> bool {
    exists|i: int| 0 <= i < items.len() && (#[trigger] items[i]).dir
}

/// Whether something to delete is a folder.
pub fn has_folder(items: &[Picked]) -> (r: bool)
    ensures
        r == any_folder(picks(items@)),
{
    let mut i: usize = 0;
    while i < items.len()
        invariant
            i <= items@.len(),
            forall|j: int| 0 <= j < i ==> !(#[trigger] picks(items@)[j]).dir,
        decreases items@.len() - i,
    {
        if items[i].dir {
            proof {
                assert(picks(items@)[i as int].dir);
            }
            return true;
        }
        i += 1;
    }
    false
}

/// What is under the server's buttons.
#[derive(Clone, Copy, Debug, PartialEq, Eq, Structural)]
pub struct RemoteButtons {
    pub up: bool,
    pub refresh: bool,
    pub download: bool,
    /// The one file that is selected, by its place in the list.
    pub edit: Option<usize>,
    pub delete: bool,
    pub new_folder: bool,
    pub sync: bool,
}

/// What is under the local side's buttons.
#[derive(Clone, Copy, Debug, PartialEq, Eq, Structural)]
pub struct LocalButtons {
    pub up: bool,
    pub upload: bool,
    pub delete: bool,
    pub new_folder: bool,
}

/// What the server's side is at.
#[derive(Clone, Copy, Debug, PartialEq, Eq, Structural)]
pub enum RemoteState {
    Failed,
    Connecting,
    Connected,
}

/// The one row that is selected, if it is one alone.
pub open spec fn single_row(rows: Seq<RowView>, selected: Set<Seq<u8>>, r: Option<usize>) -> bool {
    match r {
        Some(i) => {
            &&& i < rows.len()
            &&& selected.len() == 1
            &&& selected.contains(rows[i as int].key)
            &&& forall|j: int| 0 <= j < i ==> !selected.contains((#[trigger] rows[j]).key)
        },
        None => selected.len() != 1 || forall|j: int|
            0 <= j < rows.len() ==> !selected.contains((#[trigger] rows[j]).key),
    }
}

/// A key that the window answers to, and what it does.
#[derive(Clone, Debug, PartialEq, Eq)]
pub enum KeyAction {
    Refresh,
    Up,
    Delete,
    Rename(usize),
    Open(usize),
}

/// The keys pressed.
#[derive(Clone, Copy, Debug, PartialEq, Eq, Structural)]
pub struct Keys {
    pub f5: bool,
    pub back: bool,
    pub delete: bool,
    pub f2: bool,
    pub enter: bool,
}

/// What the keys do, one after the other, where `single` is the one row
/// selected.
pub open spec fn keys_do(keys: Keys, up: bool, delete: bool, single: Option<usize>) -> Seq<KeyAction> {
    let a = if keys.f5 {
        seq![KeyAction::Refresh]
    } else {
        Seq::empty()
    };
    let b = if keys.back && up {
        a.push(KeyAction::Up)
    } else {
        a
    };
    let c = if keys.delete && delete {
        b.push(KeyAction::Delete)
    } else {
        b
    };
    match single {
        Some(i) => {
            let d = if keys.f2 {
                c.push(KeyAction::Rename(i))
            } else {
                c
            };
            if keys.enter {
                d.push(KeyAction::Open(i))
            } else {
                d
            }
        },
        None => c,
    }
}

/// What the keys do, one after the other.
fn key_actions(keys: Keys, up: bool, delete: bool, single: Option<usize>) -> (r: Vec<KeyAction>)
    ensures
        r@ == keys_do(keys, up, delete, single),
{
    let mut r: Vec<KeyAction> = Vec::new();
    if keys.f5 {
        r.push(KeyAction::Refresh);
    }
    if keys.back && up {
        r.push(KeyAction::Up);
    }
    if keys.delete && delete {
        r.push(KeyAction::Delete);
    }
    if let Some(i) = single {
        if keys.f2 {
            r.push(KeyAction::Rename(i));
        }
        if keys.enter {
            r.push(KeyAction::Open(i));
        }
    }
    proof {
        assert(r@ =~= keys_do(keys, up, delete, single));
    }
    r
}

proof fn lemma_selected(s: Selection)
    requires
        s.wf(),
    ensures
        s@.finite(),
        s@.len() == s.keys@.len(),
{
    let k = files_list::keys_of(s.keys@);
    k.unique_seq_to_set();
    vstd::seq_lib::seq_to_set_is_finite(k);
}

/// The root of the server's files.
pub open spec fn root() -> Seq<u8> {
    seq![0x2fu8]
}

fn is_root(path: &[u8]) -> (r: bool)
    ensures
        r == (path@ == root()),
{
    if path.len() == 1 && path[0] == 0x2f {
        proof {
            assert(path@ =~= root());
        }
        true
    } else {
        proof {
            assert(root().len() == 1 && root()[0] == 0x2f);
        }
        false
    }
}

impl Tab {
    /// What the server's side is at.
    pub fn remote_state(&self) -> (r: RemoteState)
        ensures
            r == (if self@.remote.failed is Some {
                RemoteState::Failed
            } else if self@.remote.connected {
                RemoteState::Connected
            } else {
                RemoteState::Connecting
            }),
    {
        if self.remote.failed.is_some() {
            RemoteState::Failed
        } else if self.remote.connected {
            RemoteState::Connected
        } else {
            RemoteState::Connecting
        }
    }

    /// What the server's buttons offer.
    pub fn remote_buttons(&self) -> (r: RemoteButtons)
        requires
            self.wf(),
        ensures
            r.up == (self@.remote.connected && self@.remote.path != root()),
            r.refresh == self@.remote.connected,
            r.download == (self@.remote.connected && self@.remote.selected != Set::<Seq<u8>>::empty()),
            r.delete == r.download,
            r.new_folder == self@.remote.connected,
            r.sync == (self@.remote.connected && self@.local.path is Some),
            match r.edit {
                Some(i) => {
                    &&& self@.remote.connected
                    &&& i < self@.remote.rows.len()
                    &&& self@.remote.selected.len() == 1
                    &&& is_picked_file(self@.remote.rows[i as int], self@.remote.selected)
                    &&& forall|j: int|
                        0 <= j < i ==> !is_picked_file(#[trigger] self@.remote.rows[j], self@.remote.selected)
                },
                None => !self@.remote.connected || self@.remote.selected.len() != 1 || forall|j: int|
                    0 <= j < self@.remote.rows.len() ==> !is_picked_file(
                        #[trigger] self@.remote.rows[j],
                        self@.remote.selected,
                    ),
            },
    {
        let on = self.remote.connected;
        let some = self.remote.selection.keys.len() > 0;
        proof {
            lemma_selected(self.remote.selection);
            if some {
                assert(files_list::keys_of(self.remote.selection.keys@).contains(
                    files_list::keys_of(self.remote.selection.keys@)[0],
                ));
                assert(self@.remote.selected.contains(files_list::keys_of(self.remote.selection.keys@)[0]));
            } else {
                assert(self@.remote.selected =~= Set::empty());
            }
        }
        RemoteButtons {
            up: on && !is_root(&self.remote.path),
            refresh: on,
            download: on && some,
            edit: if on {
                self.picked_file()
            } else {
                None
            },
            delete: on && some,
            new_folder: on,
            sync: on && self.local.path.is_some(),
        }
    }

    /// The one file of the server that is selected, if it is one alone.
    fn picked_file(&self) -> (r: Option<usize>)
        requires
            self.wf(),
        ensures
            match r {
                Some(i) => {
                    &&& i < self@.remote.rows.len()
                    &&& self@.remote.selected.len() == 1
                    &&& is_picked_file(self@.remote.rows[i as int], self@.remote.selected)
                    &&& forall|j: int|
                        0 <= j < i ==> !is_picked_file(#[trigger] self@.remote.rows[j], self@.remote.selected)
                },
                None => self@.remote.selected.len() != 1 || forall|j: int|
                    0 <= j < self@.remote.rows.len() ==> !is_picked_file(
                        #[trigger] self@.remote.rows[j],
                        self@.remote.selected,
                    ),
            },
    {
        proof {
            lemma_selected(self.remote.selection);
        }
        if self.remote.selection.keys.len() != 1 {
            return None;
        }
        let mut i: usize = 0;
        while i < self.remote.rows.len()
            invariant
                i <= self.remote.rows@.len(),
                self@.remote.rows.len() == self.remote.rows@.len(),
                self@.remote.selected.len() == 1,
                forall|j: int| 0 <= j < i ==> !is_picked_file(#[trigger] self@.remote.rows[j], self@.remote.selected),
            decreases self.remote.rows@.len() - i,
        {
            if self.remote.selection.contains(&self.remote.rows[i].key) && !self.remote.rows[i].dir {
                return Some(i);
            }
            i += 1;
        }
        None
    }

    /// What the local side's buttons offer.
    pub fn local_buttons(&self) -> (r: LocalButtons)
        ensures
            r == (LocalButtons {
                up: self@.local.path is Some,
                upload: self@.remote.connected && self@.local.selected != Set::<Seq<u8>>::empty(),
                delete: self@.local.path is Some && self@.local.selected != Set::<Seq<u8>>::empty(),
                new_folder: self@.local.path is Some,
            }),
    {
        let some = self.local.selection.keys.len() > 0;
        proof {
            if some {
                assert(files_list::keys_of(self.local.selection.keys@).contains(
                    files_list::keys_of(self.local.selection.keys@)[0],
                ));
                assert(self@.local.selected.contains(files_list::keys_of(self.local.selection.keys@)[0]));
            } else {
                assert(self@.local.selected =~= Set::empty());
            }
        }
        let folder = self.local.path.is_some();
        LocalButtons { up: folder, upload: self.remote.connected && some, delete: some && folder, new_folder: folder }
    }

    /// The files of the server that are selected.
    pub fn remote_selection(&self) -> (r: Vec<Picked>)
        ensures
            picks(r@) == picked_from(self@.remote.path, self@.remote.rows, self@.remote.selected),
    {
        self.pick(&self.remote.selection)
    }

    /// The files of the server that are dragged.
    pub fn dragged_remote(&self, dragged: &Selection) -> (r: Vec<Picked>)
        ensures
            picks(r@) == picked_from(self@.remote.path, self@.remote.rows, dragged@),
    {
        self.pick(dragged)
    }

    fn pick(&self, keys: &Selection) -> (r: Vec<Picked>)
        ensures
            picks(r@) == picked_from(self@.remote.path, self@.remote.rows, keys@),
    {
        let ghost all = self@.remote.rows;
        let ghost folder = self@.remote.path;
        let mut r: Vec<Picked> = Vec::new();
        let mut i: usize = 0;
        proof {
            assert(all.take(0) =~= Seq::empty());
            assert(picks(r@) =~= Seq::empty());
        }
        while i < self.remote.rows.len()
            invariant
                i <= self.remote.rows@.len(),
                all == self@.remote.rows,
                folder == self@.remote.path,
                picks(r@) == picked_from(folder, all.take(i as int), keys@),
            decreases self.remote.rows@.len() - i,
        {
            let row = &self.remote.rows[i];
            proof {
                assert(all.take(i + 1).drop_last() =~= all.take(i as int));
                assert(all.take(i + 1).last() == row@);
            }
            if keys.contains(&row.key) {
                let ghost before = r@;
                let path = files_text::join(&self.remote.path, &row.key);
                let p = Picked { path, row: i, dir: row.dir, link: row.link && !row.dir };
                r.push(p);
                proof {
                    assert(picks(r@) =~= picks(before).push(p@));
                }
            }
            i += 1;
        }
        proof {
            assert(all.take(i as int) =~= all);
        }
        r
    }

    /// The local files that are selected, by their keys.
    pub fn local_selection(&self) -> (r: Vec<Vec<u8>>)
        ensures
            files_text::paths(r@) == local_picked(self@.local.rows, self@.local.selected),
    {
        self.pick_local(&self.local.selection)
    }

    /// The local files that are dragged, by their keys.
    pub fn dragged_local(&self, dragged: &Selection) -> (r: Vec<Vec<u8>>)
        ensures
            files_text::paths(r@) == local_picked(self@.local.rows, dragged@),
    {
        self.pick_local(dragged)
    }

    fn pick_local(&self, keys: &Selection) -> (r: Vec<Vec<u8>>)
        ensures
            files_text::paths(r@) == local_picked(self@.local.rows, keys@),
    {
        let ghost all = self@.local.rows;
        let mut r: Vec<Vec<u8>> = Vec::new();
        let mut i: usize = 0;
        proof {
            assert(all.take(0) =~= Seq::empty());
            assert(files_text::paths(r@) =~= Seq::empty());
        }
        while i < self.local.rows.len()
            invariant
                i <= self.local.rows@.len(),
                all == self@.local.rows,
                files_text::paths(r@) == local_picked(all.take(i as int), keys@),
            decreases self.local.rows@.len() - i,
        {
            let row = &self.local.rows[i];
            proof {
                assert(all.take(i + 1).drop_last() =~= all.take(i as int));
                assert(all.take(i + 1).last() == row@);
            }
            if keys.contains(&row.key) {
                let ghost before = r@;
                let key = files_list::copy_key(&row.key);
                r.push(key);
                proof {
                    assert(files_text::paths(r@) =~= files_text::paths(before).push(key@));
                }
            }
            i += 1;
        }
        proof {
            assert(all.take(i as int) =~= all);
        }
        r
    }

    /// A file of the server gets another name; `encoded` is the name typed,
    /// without the white space around it, as the server writes it.
    pub fn rename_remote(&mut self, old_name: &[u8], typed: &str, encoded: Option<Vec<u8>>, time: &str) -> (r: Vec<
        Effect,
    >)
        requires
            old(self).wf(),
        ensures
            final(self).wf(),
            (final(self)@, effects(r@)) == renamed(old(self)@, old_name@, typed@, optional_path(encoded), time@),
    {
        if !self.remote.connected {
            return nothing();
        }
        match encoded {
            Some(name) => {
                if files_list::is_remote_name(&name) {
                    let from = files_text::join(&self.remote.path, old_name);
                    let to = files_text::join(&self.remote.path, &name);
                    return one(Effect::Rename(self.id, from, to));
                }
            },
            None => {},
        }
        self.log(time, Notice::Said(Message::new("files-bad-name").text("name", typed)), true);
        nothing()
    }

    /// A local file gets another name.
    pub fn rename_local(&mut self, old_key: Vec<u8>, typed: &str, time: &str) -> (r: Vec<Effect>)
        requires
            old(self).wf(),
        ensures
            final(self).wf(),
            (final(self)@, effects(r@)) == renamed_local(old(self)@, old_key@, typed@, time@),
    {
        match files_list::local_name(typed) {
            Some(name) => one(Effect::RenameLocal(self.id, old_key, name)),
            None => {
                let name = text::string_of(&text::trim(&text::chars_of(typed)));
                self.log(time, Notice::Said(Message::new("files-bad-name").text("name", &name)), true);
                nothing()
            },
        }
    }

    /// A folder is created; `encoded` is the name typed, without the white
    /// space around it, as the server writes it.
    pub fn mkdir(&mut self, remote: bool, typed: &str, encoded: Option<Vec<u8>>, time: &str) -> (r: Vec<Effect>)
        requires
            old(self).wf(),
        ensures
            final(self).wf(),
            (final(self)@, effects(r@)) == made(old(self)@, remote, typed@, optional_path(encoded), time@),
    {
        if remote {
            if !self.remote.connected {
                return nothing();
            }
            match encoded {
                Some(name) => {
                    if files_list::is_remote_name(&name) {
                        let path = files_text::join(&self.remote.path, &name);
                        return one(Effect::MakeFolder(self.id, path));
                    }
                },
                None => {},
            }
            self.log(time, Notice::Said(Message::new("files-bad-name").text("name", typed)), true);
            nothing()
        } else {
            match &self.local.path {
                Some(p) => {
                    let folder = files_list::copy_key(p);
                    let name = text::string_of(&text::trim(&text::chars_of(typed)));
                    one(Effect::MakeLocalFolder(self.id, folder, name))
                },
                None => nothing(),
            }
        }
    }

    /// A folder of the server was typed; `encoded` is what was typed,
    /// without the white space around it, as the server writes it.
    pub fn go_to(&mut self, typed: &str, encoded: Option<Vec<u8>>, time: &str) -> (r: Vec<Effect>)
        requires
            old(self).wf(),
        ensures
            final(self).wf(),
            (final(self)@, effects(r@)) == (match optional_path(encoded) {
                Some(p) if p.len() > 0 => gone_to(old(self)@, p),
                _ => (
                    logged(
                        old(self)@,
                        time@,
                        NoticeView::Said(message::said("files-bad-name"@).text("name"@, typed@)),
                        true,
                    ),
                    Seq::<EffectView>::empty(),
                ),
            }),
    {
        match encoded {
            Some(p) => {
                if p.len() > 0 {
                    return self.go(p);
                }
            },
            None => {},
        }
        self.log(time, Notice::Said(Message::new("files-bad-name").text("name", typed)), true);
        nothing()
    }

    /// A local folder was typed; `path` is what was typed, without the white
    /// space around it, as a path. Nothing typed shows the drives.
    pub fn go_to_local(&mut self, typed: &str, path: Vec<u8>) -> (r: Vec<Effect>)
        requires
            old(self).wf(),
        ensures
            final(self).wf(),
            (final(self)@, effects(r@)) == gone_local(
                old(self)@,
                if text::trimmed(typed@).len() == 0 {
                    None
                } else {
                    Some(path@)
                },
            ),
    {
        if text::is_blank(typed) {
            self.list_local(None)
        } else {
            self.list_local(Some(path))
        }
    }

    /// One level up on the server.
    pub fn up(&mut self) -> (r: Vec<Effect>)
        requires
            old(self).wf(),
        ensures
            final(self).wf(),
            (final(self)@, effects(r@)) == gone_to(old(self)@, files_text::parent_of(old(self)@.remote.path)),
    {
        let parent = files_text::parent(&self.remote.path);
        self.go(parent)
    }

    /// A row of the server's list is opened: a folder is shown, a file is
    /// edited.
    pub fn open_remote(&mut self, i: usize) -> (r: Vec<Effect>)
        requires
            old(self).wf(),
        ensures
            final(self).wf(),
            (final(self)@, effects(r@)) == opened_row(old(self)@, i as int),
    {
        if i >= self.remote.rows.len() {
            return nothing();
        }
        if self.remote.rows[i].dir {
            let path = files_text::join(&self.remote.path, &self.remote.rows[i].key);
            self.go(path)
        } else {
            self.edit(i)
        }
    }

    /// A file of the server is edited: downloaded, opened with its program,
    /// and uploaded again whenever it is saved.
    pub fn edit(&mut self, i: usize) -> (r: Vec<Effect>)
        requires
            old(self).wf(),
            i < old(self)@.remote.rows.len(),
        ensures
            final(self).wf(),
            (final(self)@, effects(r@)) == edited(old(self)@, i as int),
    {
        if !self.remote.connected {
            return nothing();
        }
        let path = files_text::join(&self.remote.path, &self.remote.rows[i].key);
        let name = text::owned(&self.remote.rows[i].name);
        let ghost before = self.edits@;
        self.edits.push(name);
        proof {
            assert(text::texts(self.edits@) =~= text::texts(before).push(name@));
        }
        one(Effect::Edit(self.id, path))
    }

    /// An edited file is not watched any more.
    pub fn stop_edit(&mut self, i: usize)
        requires
            old(self).wf(),
            i < old(self)@.edits.len(),
        ensures
            final(self).wf(),
            final(self)@ == (TabView { edits: old(self)@.edits.remove(i as int), ..old(self)@ }),
    {
        let ghost before = self.edits@;
        let _ = self.edits.remove(i);
        proof {
            assert(text::texts(self.edits@) =~= text::texts(before).remove(i as int));
        }
    }

    /// A row of the local list is opened: a folder is shown, a file is
    /// opened with its program.
    pub fn open_local(&mut self, i: usize) -> (r: Vec<Effect>)
        requires
            old(self).wf(),
        ensures
            final(self).wf(),
            (final(self)@, effects(r@)) == opened_local_row(old(self)@, i as int),
    {
        if i >= self.local.rows.len() {
            return nothing();
        }
        let key = files_list::copy_key(&self.local.rows[i].key);
        if self.local.rows[i].dir {
            self.list_local(Some(key))
        } else {
            one(Effect::OpenLocal(self.id, key))
        }
    }

    /// Renaming a row starts, with the name it has.
    pub fn start_renaming(&mut self, remote: bool, i: usize)
        requires
            old(self).wf(),
            i < (if remote {
                old(self)@.remote.rows.len()
            } else {
                old(self)@.local.rows.len()
            }),
        ensures
            final(self).wf(),
            final(self)@ == (if remote {
                let row = old(self)@.remote.rows[i as int];
                TabView {
                    remote: RemoteView { renaming: Some((row.key, row.name)), ..old(self)@.remote },
                    ..old(self)@
                }
            } else {
                let row = old(self)@.local.rows[i as int];
                TabView { local: LocalView { renaming: Some((row.key, row.name)), ..old(self)@.local }, ..old(self)@ }
            }),
    {
        if remote {
            let key = files_list::copy_key(&self.remote.rows[i].key);
            let name = text::owned(&self.remote.rows[i].name);
            self.remote.renaming = Some((key, name));
        } else {
            let key = files_list::copy_key(&self.local.rows[i].key);
            let name = text::owned(&self.local.rows[i].name);
            self.local.renaming = Some((key, name));
        }
    }

    /// Another encoding of the names was picked: the rows' names and the
    /// folder, decoded with it.
    pub fn decoded(&mut self, names: Vec<String>, path_text: String)
        requires
            old(self).wf(),
            names@.len() == old(self)@.remote.rows.len(),
        ensures
            final(self).wf(),
            final(self)@ == (TabView {
                remote: RemoteView {
                    rows: with_names(old(self)@.remote.rows, text::texts(names@)),
                    path_text: path_text@,
                    ..old(self)@.remote
                },
                ..old(self)@
            }),
    {
        let ghost start = self@.remote.rows;
        let ghost all = text::texts(names@);
        let mut names = names;
        let n: usize = names.len();
        let mut i: usize = n;
        proof {
            assert(names@.take(n as int) =~= names@);
        }
        self.remote.path_text = path_text;
        while i > 0
            invariant
                i <= n,
                n == all.len(),
                n == start.len(),
                names@.len() == i,
                text::texts(names@) == all.take(i as int),
                self.wf(),
                self@ == (TabView {
                    remote: RemoteView { rows: self@.remote.rows, path_text: path_text@, ..old(self)@.remote },
                    ..old(self)@
                }),
                self@.remote.rows.len() == n,
                self.remote.rows@.len() == n,
                forall|j: int| 0 <= j < i ==> #[trigger] self@.remote.rows[j] == start[j],
                forall|j: int| i <= j < n ==> #[trigger] self@.remote.rows[j] == (RowView { name: all[j], ..start[j] }),
            decreases i,
        {
            let ghost had = names@;
            let ghost was = self@.remote.rows;
            i -= 1;
            match names.pop() {
                Some(name) => {
                    proof {
                        assert(text::texts(had)[i as int] == name@);
                        assert(all.take(i + 1)[i as int] == all[i as int]);
                        assert(names@ =~= had.take(i as int));
                        assert(text::texts(names@) =~= all.take(i as int));
                    }
                    self.remote.rows[i].name = name;
                    proof {
                        assert forall|j: int| 0 <= j < n && j != i implies #[trigger] self@.remote.rows[j] == was[j] by {
                        }
                        assert(self@.remote.rows[i as int] == (RowView { name: name@, ..was[i as int] }));
                    }
                },
                None => {},
            }
        }
        proof {
            assert(self@.remote.rows =~= with_names(start, all));
        }
    }

    /// What the keys do on the server's side.
    pub fn remote_keys(&self, keys: Keys) -> (r: Vec<KeyAction>)
        requires
            self.wf(),
        ensures
            !self@.remote.connected ==> r@.len() == 0,
            self@.remote.connected ==> exists|single: Option<usize>|
                #[trigger] single_row(self@.remote.rows, self@.remote.selected, single) && r@ == keys_do(
                    keys,
                    self@.remote.path != root(),
                    true,
                    single,
                ),
    {
        if !self.remote.connected {
            return Vec::new();
        }
        let single = self.remote.selection.single(&self.remote.rows);
        proof {
            lemma_single(self.remote.rows@, self.remote.selection, single);
            assert(single_row(self@.remote.rows, self@.remote.selected, single));
        }
        key_actions(keys, !is_root(&self.remote.path), true, single)
    }

    /// What the keys do on the local side.
    pub fn local_keys(&self, keys: Keys) -> (r: Vec<KeyAction>)
        requires
            self.wf(),
        ensures
            exists|single: Option<usize>|
                #[trigger] single_row(self@.local.rows, self@.local.selected, single) && r@ == keys_do(
                    keys,
                    self@.local.path is Some,
                    self@.local.path is Some,
                    single,
                ),
    {
        let single = self.local.selection.single(&self.local.rows);
        proof {
            lemma_single(self.local.rows@, self.local.selection, single);
            assert(single_row(self@.local.rows, self@.local.selected, single));
        }
        let folder = self.local.path.is_some();
        key_actions(keys, folder, folder, single)
    }
}

proof fn lemma_single(rows: Seq<Row>, s: Selection, r: Option<usize>)
    requires
        s.wf(),
        match r {
            Some(i) => {
                &&& i < rows.len()
                &&& s.keys@.len() == 1
                &&& s@.contains(rows[i as int].key@)
                &&& forall|j: int| 0 <= j < i ==> !s@.contains((#[trigger] rows[j]).key@)
            },
            None => s.keys@.len() != 1 || forall|j: int|
                0 <= j < rows.len() ==> !s@.contains((#[trigger] rows[j]).key@),
        },
    ensures
        single_row(files_list::rows(rows), s@, r),
{
    lemma_selected(s);
    let v = files_list::rows(rows);
    assert forall|j: int| 0 <= j < v.len() implies (#[trigger] v[j]).key == rows[j].key@ by {
    }
}

/// A file that is selected.
pub open spec fn is_picked_file(r: RowView, selected: Set<Seq<u8>>) -> bool {
    selected.contains(r.key) && !r.dir
}

/// Rows with other names.
pub open spec fn with_names(rows: Seq<RowView>, names: Seq<Seq<char>>) -> Seq<RowView> {
    Seq::new(rows.len(), |i: int| RowView { name: names[i], ..rows[i] })
}

/// What the log says of a name that cannot be used.
pub open spec fn bad_name(t: TabView, name: Seq<char>, time: Seq<char>) -> TabView {
    logged(t, time, NoticeView::Said(message::said("files-bad-name"@).text("name"@, name)), true)
}

/// Encoded bytes can be a file's name on the server.
pub open spec fn is_name(bytes: Seq<u8>) -> bool {
    bytes.len() > 0 && !bytes.contains(0x2f)
}

/// A session after a file of the server was to get another name.
pub open spec fn renamed(t: TabView, old_name: Seq<u8>, typed: Seq<char>, encoded: Option<Seq<u8>>, time: Seq<char>) -> (
    TabView,
    Seq<EffectView>,
) {
    if !t.remote.connected {
        (t, Seq::empty())
    } else {
        match encoded {
            Some(n) if is_name(n) => (
                t,
                seq![
                    EffectView::Rename(
                        t.id,
                        files_text::in_folder(t.remote.path, old_name),
                        files_text::in_folder(t.remote.path, n),
                    ),
                ],
            ),
            _ => (bad_name(t, typed, time), Seq::empty()),
        }
    }
}

/// A session after a local file was to get another name.
pub open spec fn renamed_local(t: TabView, key: Seq<u8>, typed: Seq<char>, time: Seq<char>) -> (
    TabView,
    Seq<EffectView>,
) {
    let name = text::trimmed(typed);
    if files_list::is_local_name(name) {
        (t, seq![EffectView::RenameLocal(t.id, key, name)])
    } else {
        (bad_name(t, name, time), Seq::empty())
    }
}

/// A session after a folder was to be created.
pub open spec fn made(t: TabView, remote: bool, typed: Seq<char>, encoded: Option<Seq<u8>>, time: Seq<char>) -> (
    TabView,
    Seq<EffectView>,
) {
    if remote {
        if !t.remote.connected {
            (t, Seq::empty())
        } else {
            match encoded {
                Some(n) if is_name(n) => (
                    t,
                    seq![EffectView::MakeFolder(t.id, files_text::in_folder(t.remote.path, n))],
                ),
                _ => (bad_name(t, typed, time), Seq::empty()),
            }
        }
    } else {
        match t.local.path {
            Some(p) => (t, seq![EffectView::MakeLocalFolder(t.id, p, text::trimmed(typed))]),
            None => (t, Seq::empty()),
        }
    }
}

/// A session after a file of the server was to be edited.
pub open spec fn edited(t: TabView, i: int) -> (TabView, Seq<EffectView>) {
    if t.remote.connected {
        (
            TabView { edits: t.edits.push(t.remote.rows[i].name), ..t },
            seq![EffectView::Edit(t.id, files_text::in_folder(t.remote.path, t.remote.rows[i].key))],
        )
    } else {
        (t, Seq::empty())
    }
}

/// A session after a row of the server's list was opened.
pub open spec fn opened_row(t: TabView, i: int) -> (TabView, Seq<EffectView>) {
    if i >= t.remote.rows.len() {
        (t, Seq::empty())
    } else if t.remote.rows[i].dir {
        gone_to(t, files_text::in_folder(t.remote.path, t.remote.rows[i].key))
    } else {
        edited(t, i)
    }
}

/// A session after a row of the local list was opened.
pub open spec fn opened_local_row(t: TabView, i: int) -> (TabView, Seq<EffectView>) {
    if i >= t.local.rows.len() {
        (t, Seq::empty())
    } else if t.local.rows[i].dir {
        gone_local(t, Some(t.local.rows[i].key))
    } else {
        (t, seq![EffectView::OpenLocal(t.id, t.local.rows[i].key)])
    }
}

/// Whatever is renamed or created on the server stays in the folder shown:
/// a name with a slash, and no name, are refused.
pub proof fn law_names_stay_in_the_folder(
    t: TabView,
    old_name: Seq<u8>,
    typed: Seq<char>,
    encoded: Option<Seq<u8>>,
    time: Seq<char>,
)
    ensures
        encoded matches Some(n) && (n.len() == 0 || n.contains(0x2f)) ==> renamed(
            t,
            old_name,
            typed,
            encoded,
            time,
        ).1.len() == 0 && made(t, true, typed, encoded, time).1.len() == 0,
{
}

/// A session that was just opened.
pub open spec fn fresh(id: u64, alias: Seq<char>, label: Seq<char>, tmux: Option<Seq<char>>, memory: bool) -> TabView {
    TabView {
        id,
        alias,
        label,
        tmux_session: tmux,
        memory,
        remote: RemoteView {
            connected: false,
            failed: None,
            path: Seq::empty(),
            path_text: Seq::empty(),
            rows: Seq::empty(),
            listing: false,
            error: None,
            selected: Set::empty(),
            anchor: None,
            renaming: None,
        },
        local: LocalView {
            path: None,
            path_text: Seq::empty(),
            rows: Seq::empty(),
            error: None,
            selected: Set::empty(),
            anchor: None,
            renaming: None,
        },
        remote_tree: Map::empty(),
        local_tree: Map::empty(),
        edits: Seq::empty(),
        log: Seq::empty(),
        kept_remote: None,
        kept_local: None,
    }
}

/// A chevron of the server's tree.
pub open spec fn toggled(t: TabView, path: Seq<u8>) -> (TabView, Seq<EffectView>) {
    let n = files_tree::node_at(t.remote_tree, path);
    if n.open {
        (TabView { remote_tree: files_tree::shut(t.remote_tree, path), ..t }, Seq::empty())
    } else if !t.remote.connected {
        (t, Seq::empty())
    } else {
        (
            TabView { remote_tree: files_tree::opened(t.remote_tree, path), ..t },
            if files_tree::needs_reading(n) {
                seq![EffectView::ReadRemote(t.id, path)]
            } else {
                Seq::empty()
            },
        )
    }
}

/// A chevron of the local tree.
pub open spec fn toggled_local(t: TabView, path: Seq<u8>) -> (TabView, Seq<EffectView>) {
    let n = files_tree::node_at(t.local_tree, path);
    if n.open {
        (TabView { local_tree: files_tree::shut(t.local_tree, path), ..t }, Seq::empty())
    } else {
        (
            TabView { local_tree: files_tree::opened(t.local_tree, path), ..t },
            if files_tree::needs_reading(n) {
                seq![EffectView::ReadLocal(t.id, path)]
            } else {
                Seq::empty()
            },
        )
    }
}

/// A folder that is shown again is not written down again.
pub proof fn law_a_folder_is_kept_once(t: TabView, path: Seq<u8>, shown: Seq<char>)
    ensures
        remembered(remembered(t, path).0, path).1.len() == 0,
        remembered_local(remembered_local(t, path, shown).0, path, shown).1.len() == 0,
{
}

/// Without a connection nothing is asked of the server.
pub proof fn law_nothing_is_asked_without_a_connection(t: TabView, path: Seq<u8>)
    requires
        !t.remote.connected,
    ensures
        gone_to(t, path).1.len() == 0,
        toggled(t, path).1.len() == 0,
        tree_opened(t, seq![path]).1.len() == 0,
{
}

/// A line is put last in the log, and the log keeps its last 200 lines.
pub proof fn law_the_log(t: TabView, time: Seq<char>, text: NoticeView, error: bool)
    ensures
        ({
            let after = logged(t, time, text, error);
            let line = LineView { time, text, error };
            &&& after == (TabView { log: after.log, ..t })
            &&& t.log.len() < 200 ==> after.log == t.log.push(line)
            &&& t.log.len() == 200 ==> after.log == t.log.skip(1).push(line)
            &&& after.log.last() == line
        }),
{
    if t.log.len() == 200 {
        assert(t.log.push(LineView { time, text, error }).skip(1) =~= t.log.skip(1).push(LineView { time, text, error }));
    }
}

/// Going to a folder forgets what was selected and asks for the folder, on
/// the server only while it is connected.
pub proof fn law_going_to_a_folder(t: TabView, path: Seq<u8>, local: Option<Seq<u8>>)
    ensures
        t.remote.connected ==> asked_for(t, path).1 == seq![EffectView::List(t.id, path)] && asked_for(t, path).0 == (
        TabView { remote: RemoteView { listing: true, ..t.remote }, ..t }),
        !t.remote.connected ==> asked_for(t, path) == (t, Seq::<EffectView>::empty()),
        ({
            let here = TabView {
                remote: RemoteView { selected: Set::empty(), anchor: None, renaming: None, ..t.remote },
                ..t
            };
            gone_to(t, path) == asked_for(here, path)
        }),
        gone_local(t, local).1 == seq![EffectView::ListLocal(t.id, local)],
        gone_local(t, local).0 == (TabView {
            local: LocalView { selected: Set::empty(), anchor: None, renaming: None, ..t.local },
            ..t
        }),
{
}

/// Connecting: nothing has failed and nothing is connected yet; then the tab
/// goes to where the connection starts, or says why there is none.
pub proof fn law_connecting(t: TabView, start: Seq<u8>, shown: Seq<char>, error: Seq<char>, time: Seq<char>)
    ensures
        connecting(t, time).1 == seq![EffectView::Connect(t.id)],
        connecting(t, time).0.remote == (RemoteView { failed: None, connected: false, ..t.remote }),
        connecting(t, time).0.log.last() == (LineView {
            time,
            text: NoticeView::Said(message::said("files-log-connecting"@).text("host"@, t.alias)),
            error: false,
        }),
        now_connected(t, start, shown, time).1 == seq![EffectView::List(t.id, start)],
        now_connected(t, start, shown, time).0.remote == (RemoteView {
            connected: true,
            listing: true,
            selected: Set::empty(),
            anchor: None,
            renaming: None,
            ..t.remote
        }),
        now_connected(t, start, shown, time).0.log.last() == (LineView {
            time,
            text: NoticeView::Said(message::said("files-log-connected"@).text("path"@, shown)),
            error: false,
        }),
        not_connected(t, error, time).remote == (RemoteView { failed: Some(error), ..t.remote }),
        not_connected(t, error, time).log.last() == (LineView { time, text: NoticeView::Plain(error), error: true }),
        connecting(t, time).0.local == t.local && now_connected(t, start, shown, time).0.local == t.local && not_connected(
            t,
            error,
            time,
        ).local == t.local,
{
}

/// A folder is kept for the next time where the tab has a memory and the
/// folder is another one: the server's in hexadecimal, this computer's as
/// shown.
pub proof fn law_folders_kept(t: TabView, path: Seq<u8>, shown: Seq<char>)
    ensures
        t.memory && t.kept_remote != Some(path) ==> remembered(t, path).1 == seq![
            EffectView::Keep("files.remote:"@ + t.alias, files_text::hex_of(path)),
        ] && remembered(t, path).0 == (TabView { kept_remote: Some(path), ..t }),
        !t.memory || t.kept_remote == Some(path) ==> remembered(t, path) == (t, Seq::<EffectView>::empty()),
        t.memory && t.kept_local != Some(path) ==> remembered_local(t, path, shown).1 == seq![
            EffectView::Keep("files.local:"@ + t.alias, shown),
        ] && remembered_local(t, path, shown).0 == (TabView { kept_local: Some(path), ..t }),
        !t.memory || t.kept_local == Some(path) ==> remembered_local(t, path, shown) == (t, Seq::<EffectView>::empty()),
{
}

/// The folders that lead to where a tab stands are opened in its tree, and
/// those not read yet are read.
pub proof fn law_opening_the_tree(t: TabView, chain: Seq<Seq<u8>>, i: int)
    ensures
        ({
            let e = files_tree::expanded(t.remote_tree, chain);
            let opened = tree_opened(t, chain);
            &&& !t.remote.connected ==> opened == (t, Seq::<EffectView>::empty())
            &&& t.remote.connected ==> opened.0 == (TabView { remote_tree: e.0, ..t }) && opened.1.len() == e.1.len()
            &&& t.remote.connected && 0 <= i < e.1.len() ==> opened.1[i] == EffectView::ReadRemote(t.id, e.1[i])
        }),
        ({
            let e = files_tree::expanded(t.local_tree, chain);
            let opened = local_tree_opened(t, chain);
            &&& opened.0 == (TabView { local_tree: e.0, ..t }) && opened.1.len() == e.1.len()
            &&& 0 <= i < e.1.len() ==> opened.1[i] == EffectView::ReadLocal(t.id, e.1[i])
        }),
{
}

/// A listing that came fills the list: what is still there stays selected,
/// the folder is kept and its tree opened.
pub proof fn law_a_listing_came(
    t: TabView,
    path: Seq<u8>,
    shown: Seq<char>,
    rows: Seq<RowView>,
    closed: Option<Seq<char>>,
    time: Seq<char>,
    key: Seq<u8>,
)
    ensures
        ({
            let after = now_listed(t, path, shown, Ok(rows), closed, time);
            &&& after.0.remote.path == path && after.0.remote.path_text == shown && after.0.remote.rows == rows
                && after.0.remote.error is None && !after.0.remote.listing
            &&& after.0.remote.connected == t.remote.connected && after.0.remote.failed == t.remote.failed
                && after.0.remote.anchor == t.remote.anchor && after.0.remote.renaming == t.remote.renaming
            &&& after.0.remote.selected.contains(key) <==> t.remote.selected.contains(key) && exists|i: int|
                0 <= i < rows.len() && (#[trigger] rows[i]).key == key
            &&& t.memory ==> after.0.kept_remote == Some(path)
            &&& !t.memory ==> after.0.kept_remote == t.kept_remote
            &&& after.0.local == t.local && after.0.log == t.log
            &&& t.remote.connected ==> after.0.remote_tree == files_tree::expanded(
                t.remote_tree,
                files_text::chain_of(files_text::parts_of(path)),
            ).0
        }),
{
    let keys = rows.map_values(|r: RowView| r.key);
    if keys.to_set().contains(key) {
        let i = choose|i: int| 0 <= i < keys.len() && keys[i] == key;
        assert(rows[i].key == key);
    }
    if exists|i: int| 0 <= i < rows.len() && (#[trigger] rows[i]).key == key {
        let i = choose|i: int| 0 <= i < rows.len() && (#[trigger] rows[i]).key == key;
        assert(keys[i] == key);
        assert(keys.contains(key));
    }
}

/// A listing that failed is told: as an error of the folder, or, where the
/// connection was closed under it, as the end of the connection.
pub proof fn law_a_listing_failed(t: TabView, path: Seq<u8>, shown: Seq<char>, e: Seq<char>, why: Seq<char>, time: Seq<char>)
    ensures
        ({
            let none: Result<Seq<RowView>, Seq<char>> = Err(e);
            let open = now_listed(t, path, shown, none, None, time);
            let shut = now_listed(t, path, shown, none, Some(why), time);
            &&& open.0 == (TabView { remote: RemoteView { error: Some(e), listing: false, ..t.remote }, ..t })
                && open.1.len() == 0
            &&& !t.remote.connected ==> shut == open
            &&& t.remote.connected ==> shut.0.remote == (RemoteView {
                failed: Some(why),
                connected: false,
                listing: false,
                ..t.remote
            }) && shut.0.log.last() == (LineView { time, text: NoticeView::Plain(why), error: true }) && shut.1.len() == 0
        }),
{
}

/// A listing of this computer fills its list, keeps its folder and opens its
/// tree; one that failed is told, and leaves the list.
pub proof fn law_a_local_listing(
    t: TabView,
    path: Option<Seq<u8>>,
    shown: Seq<char>,
    chain: Seq<Seq<u8>>,
    rows: Seq<RowView>,
    e: Seq<char>,
)
    ensures
        ({
            let after = now_listed_local(t, path, shown, chain, Ok(rows));
            &&& after.0.local == (LocalView { path_text: shown, path, rows, error: None, ..t.local })
            &&& after.0.remote == t.remote && after.0.log == t.log
            &&& path is None ==> after.0.kept_local == t.kept_local && after.0.local_tree == t.local_tree && after.1.len() == 0
            &&& path matches Some(p) ==> (t.memory ==> after.0.kept_local == Some(p)) && after.0.local_tree
                == files_tree::expanded(t.local_tree, chain).0
        }),
        now_listed_local(t, path, shown, chain, Err(e)).0 == (TabView {
            local: LocalView { error: Some(e), ..t.local },
            ..t
        }),
        now_listed_local(t, path, shown, chain, Err(e)).1.len() == 0,
{
}

/// What is picked of a list, in its order: every row whose key is selected,
/// by its place, and a link only where it leads to no folder.
pub proof fn law_what_is_picked(folder: Seq<u8>, rows: Seq<RowView>, r: RowView, keys: Set<Seq<u8>>)
    ensures
        picked_from(folder, Seq::empty(), keys).len() == 0,
        local_picked(Seq::empty(), keys).len() == 0,
        !keys.contains(r.key) ==> picked_from(folder, rows.push(r), keys) == picked_from(folder, rows, keys)
            && local_picked(rows.push(r), keys) == local_picked(rows, keys),
        keys.contains(r.key) ==> picked_from(folder, rows.push(r), keys) == picked_from(folder, rows, keys).push(
            PickedView {
                path: files_text::in_folder(folder, r.key),
                row: rows.len() as int,
                dir: r.dir,
                link: r.link && !r.dir,
            },
        ) && local_picked(rows.push(r), keys) == local_picked(rows, keys).push(r.key),
{
    assert(rows.push(r).drop_last() =~= rows);
}

/// Whether a folder is among what is picked, item by item.
pub proof fn law_folders_among_the_picked(items: Seq<PickedView>, p: PickedView)
    ensures
        !any_folder(Seq::empty()),
        any_folder(items.push(p)) <==> any_folder(items) || p.dir,
{
    if any_folder(items) {
        let i = choose|i: int| 0 <= i < items.len() && (#[trigger] items[i]).dir;
        assert(items.push(p)[i].dir);
    }
    if p.dir {
        assert(items.push(p)[items.len() as int].dir);
    }
    if any_folder(items.push(p)) && !p.dir {
        let i = choose|i: int| 0 <= i < items.push(p).len() && (#[trigger] items.push(p)[i]).dir;
        assert(items[i].dir);
    }
}

/// The one row selected is the first whose key is the one key selected.
pub proof fn law_the_single_row(rows: Seq<RowView>, selected: Set<Seq<u8>>, i: usize, j: int)
    ensures
        single_row(rows, selected, Some(i)) ==> i < rows.len() && selected.len() == 1 && selected.contains(
            rows[i as int].key,
        ),
        single_row(rows, selected, Some(i)) && 0 <= j < i ==> !selected.contains(rows[j].key),
        single_row(rows, selected, None) && selected.len() == 1 && 0 <= j < rows.len() ==> !selected.contains(rows[j].key),
        selected.len() != 1 ==> single_row(rows, selected, None) && !single_row(rows, selected, Some(i)),
{
}

/// What the keys of a list do, in this order: F5 lists again, Backspace goes
/// up, Delete deletes, F2 renames and Enter opens the one row selected.
pub proof fn law_keys_of_a_list(keys: Keys, up: bool, delete: bool, i: usize)
    ensures
        ({
            let one = keys_do(keys, up, delete, Some(i));
            let none = keys_do(keys, up, delete, None);
            &&& one.contains(KeyAction::Refresh) <==> keys.f5
            &&& one.contains(KeyAction::Up) <==> keys.back && up
            &&& one.contains(KeyAction::Delete) <==> keys.delete && delete
            &&& one.contains(KeyAction::Rename(i)) <==> keys.f2
            &&& one.contains(KeyAction::Open(i)) <==> keys.enter
            &&& none.contains(KeyAction::Refresh) <==> keys.f5
            &&& none.contains(KeyAction::Up) <==> keys.back && up
            &&& none.contains(KeyAction::Delete) <==> keys.delete && delete
            &&& !none.contains(KeyAction::Rename(i)) && !none.contains(KeyAction::Open(i))
            &&& keys.f5 ==> one[0] is Refresh && none[0] is Refresh
            &&& keys.enter ==> one.last() == KeyAction::Open(i)
        }),
{
    let k = keys;
    let e = Seq::<KeyAction>::empty();
    let a = if k.f5 { seq![KeyAction::Refresh] } else { e };
    lemma_pushed(e, KeyAction::Refresh);
    assert(seq![KeyAction::Refresh] =~= e.push(KeyAction::Refresh));
    lemma_pushed(a, KeyAction::Up);
    let b = if k.back && up { a.push(KeyAction::Up) } else { a };
    lemma_pushed(b, KeyAction::Delete);
    let c = if k.delete && delete { b.push(KeyAction::Delete) } else { b };
    lemma_pushed(c, KeyAction::Rename(i));
    let d = if k.f2 { c.push(KeyAction::Rename(i)) } else { c };
    lemma_pushed(d, KeyAction::Open(i));
}

proof fn lemma_pushed(s: Seq<KeyAction>, k: KeyAction)
    ensures
        forall|x: KeyAction| #[trigger] s.push(k).contains(x) <==> s.contains(x) || x == k,
{
    assert forall|x: KeyAction| #[trigger] s.push(k).contains(x) <==> s.contains(x) || x == k by {
        if s.contains(x) {
            let i = choose|i: int| 0 <= i < s.len() && s[i] == x;
            assert(s.push(k)[i] == x);
        }
        if x == k {
            assert(s.push(k)[s.len() as int] == x);
        }
        if s.push(k).contains(x) && x != k {
            let i = choose|i: int| 0 <= i < s.push(k).len() && s.push(k)[i] == x;
            assert(s[i] == x);
        }
    }
}

/// A name on the server is not empty and holds no slash.
pub proof fn law_server_names(bytes: Seq<u8>, i: int)
    ensures
        is_name(bytes) ==> bytes.len() > 0 && (0 <= i < bytes.len() ==> bytes[i] != 0x2f),
        bytes.len() > 0 && !is_name(bytes) ==> exists|k: int| 0 <= k < bytes.len() && bytes[k] == 0x2f,
{
    if is_name(bytes) && 0 <= i < bytes.len() && bytes[i] == 0x2f {
        assert(bytes.contains(0x2f));
    }
}

/// Renaming and making folders: on the server while it is connected and with
/// a name that can be one, on this computer with the name as typed but for
/// white space around it; a name that can't be one is told.
pub proof fn law_naming(t: TabView, key: Seq<u8>, typed: Seq<char>, n: Seq<u8>, time: Seq<char>)
    ensures
        ({
            let bad = |name: Seq<char>| NoticeView::Said(message::said("files-bad-name"@).text("name"@, name));
            let told = |after: (TabView, Seq<EffectView>), name: Seq<char>|
                after.1.len() == 0 && after.0.log.last() == (LineView { time, text: bad(name), error: true }) && after.0
                    == (TabView { log: after.0.log, ..t });
            let done = |after: (TabView, Seq<EffectView>), e: EffectView| after == (t, seq![e]);
            let here = t.remote.path;
            &&& !t.remote.connected ==> renamed(t, key, typed, Some(n), time) == (t, Seq::<EffectView>::empty()) && made(
                t,
                true,
                typed,
                Some(n),
                time,
            ) == (t, Seq::<EffectView>::empty())
            &&& t.remote.connected && is_name(n) ==> done(
                renamed(t, key, typed, Some(n), time),
                EffectView::Rename(t.id, files_text::in_folder(here, key), files_text::in_folder(here, n)),
            ) && done(made(t, true, typed, Some(n), time), EffectView::MakeFolder(t.id, files_text::in_folder(here, n)))
            &&& t.remote.connected && !is_name(n) ==> told(renamed(t, key, typed, Some(n), time), typed) && told(
                made(t, true, typed, Some(n), time),
                typed,
            )
            &&& t.remote.connected ==> told(renamed(t, key, typed, None, time), typed) && told(
                made(t, true, typed, None, time),
                typed,
            )
            &&& files_list::is_local_name(text::trimmed(typed)) ==> done(
                renamed_local(t, key, typed, time),
                EffectView::RenameLocal(t.id, key, text::trimmed(typed)),
            )
            &&& !files_list::is_local_name(text::trimmed(typed)) ==> told(
                renamed_local(t, key, typed, time),
                text::trimmed(typed),
            )
            &&& t.local.path matches Some(p) ==> done(
                made(t, false, typed, Some(n), time),
                EffectView::MakeLocalFolder(t.id, p, text::trimmed(typed)),
            )
            &&& t.local.path is None ==> made(t, false, typed, Some(n), time) == (t, Seq::<EffectView>::empty())
        }),
{
}

/// A row that is opened: a folder is gone to, a file on the server is edited
/// and one on this computer opened; a row that is not there does nothing.
pub proof fn law_opening_rows(t: TabView, i: int)
    requires
        i >= 0,
    ensures
        i >= t.remote.rows.len() ==> opened_row(t, i) == (t, Seq::<EffectView>::empty()),
        i < t.remote.rows.len() && t.remote.rows[i].dir ==> opened_row(t, i) == gone_to(
            t,
            files_text::in_folder(t.remote.path, t.remote.rows[i].key),
        ),
        i < t.remote.rows.len() && !t.remote.rows[i].dir && t.remote.connected ==> opened_row(t, i).1 == seq![
            EffectView::Edit(t.id, files_text::in_folder(t.remote.path, t.remote.rows[i].key)),
        ] && opened_row(t, i).0 == (TabView { edits: t.edits.push(t.remote.rows[i].name), ..t }),
        i < t.remote.rows.len() && !t.remote.rows[i].dir && !t.remote.connected ==> opened_row(t, i) == (
            t,
            Seq::<EffectView>::empty(),
        ),
        i >= t.local.rows.len() ==> opened_local_row(t, i) == (t, Seq::<EffectView>::empty()),
        i < t.local.rows.len() && t.local.rows[i].dir ==> opened_local_row(t, i) == gone_local(t, Some(t.local.rows[i].key)),
        i < t.local.rows.len() && !t.local.rows[i].dir ==> opened_local_row(t, i) == (
            t,
            seq![EffectView::OpenLocal(t.id, t.local.rows[i].key)],
        ),
{
}

/// A new tab has nothing in it.
pub proof fn law_a_fresh_tab(id: u64, alias: Seq<char>, label: Seq<char>, tmux: Option<Seq<char>>, memory: bool)
    ensures
        ({
            let t = fresh(id, alias, label, tmux, memory);
            &&& t.id == id && t.alias == alias && t.label == label && t.tmux_session == tmux && t.memory == memory
            &&& !t.remote.connected && t.remote.failed is None && t.remote.path.len() == 0 && t.remote.path_text.len() == 0
                && t.remote.rows.len() == 0 && !t.remote.listing && t.remote.error is None && t.remote.anchor is None
                && t.remote.renaming is None && t.remote.selected == Set::<Seq<u8>>::empty()
            &&& t.local.path is None && t.local.path_text.len() == 0 && t.local.rows.len() == 0 && t.local.error is None
                && t.local.anchor is None && t.local.renaming is None && t.local.selected == Set::<Seq<u8>>::empty()
            &&& t.edits.len() == 0 && t.log.len() == 0 && t.kept_remote is None && t.kept_local is None
            &&& t.remote_tree == Map::<Seq<u8>, NodeView>::empty() && t.local_tree == Map::<Seq<u8>, NodeView>::empty()
        }),
{
}

/// A folder of the tree that is open is shut; one that is shut is opened,
/// and read where it has not been; on the server only while it is connected.
pub proof fn law_toggling_the_tree(t: TabView, path: Seq<u8>)
    ensures
        ({
            let n = files_tree::node_at(t.remote_tree, path);
            let after = toggled(t, path);
            &&& n.open ==> after == (
                TabView { remote_tree: files_tree::shut(t.remote_tree, path), ..t },
                Seq::<EffectView>::empty(),
            )
            &&& !n.open && t.remote.connected ==> after.0 == (TabView {
                remote_tree: files_tree::opened(t.remote_tree, path),
                ..t
            })
            &&& !n.open && !t.remote.connected ==> after == (t, Seq::<EffectView>::empty())
            &&& !n.open && t.remote.connected && files_tree::needs_reading(n) ==> after.1 == seq![
                EffectView::ReadRemote(t.id, path),
            ]
            &&& !files_tree::needs_reading(n) ==> after.1.len() == 0
        }),
        ({
            let n = files_tree::node_at(t.local_tree, path);
            let after = toggled_local(t, path);
            &&& n.open ==> after == (
                TabView { local_tree: files_tree::shut(t.local_tree, path), ..t },
                Seq::<EffectView>::empty(),
            )
            &&& !n.open ==> after.0 == (TabView { local_tree: files_tree::opened(t.local_tree, path), ..t })
            &&& !n.open && files_tree::needs_reading(n) ==> after.1 == seq![EffectView::ReadLocal(t.id, path)]
            &&& !files_tree::needs_reading(n) ==> after.1.len() == 0
        }),
{
}

/// Names that are decoded anew stand in the rows they belong to.
pub proof fn law_names_decoded_anew(rows: Seq<RowView>, names: Seq<Seq<char>>, selected: Set<Seq<u8>>, i: int)
    requires
        0 <= i < rows.len(),
    ensures
        with_names(rows, names).len() == rows.len(),
        with_names(rows, names)[i].name == names[i],
        with_names(rows, names)[i] == (RowView { name: names[i], ..rows[i] }),
        is_picked_file(rows[i], selected) <==> selected.contains(rows[i].key) && !rows[i].dir,
        root() == seq![0x2fu8],
{
}

} // verus!
