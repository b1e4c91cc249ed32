//! What the main window decides: which hosts of the tree can be opened, what
//! files dropped into a tab are for, what a shortcut does, and what a
//! session's card says.

use vstd::prelude::*;

use crate::actions::SessionCommand;
use crate::dialogs;
use crate::dialogs::DropChoice;
use crate::dialogs::HostDraft;
use crate::fab;
use crate::fab::HostEntry;
use crate::icons::Icon;
use crate::message;
use crate::message::Message;
use crate::message::MessageView;
use crate::message::Notice;
use crate::message::NoticeView;
use crate::quick;
use crate::quick::QuickTarget;
use crate::session::SessionView;
use crate::session::State;
use crate::sessions::HostRequest;
use crate::text;

verus! {

/// `state.db` setting: the docked window stays out.
pub const PINNED_SETTING: &'static str = "dock_pinned";

/// `state.db` setting: where folder files live, when moved from `config.d`.
pub const FOLDERS_SETTING: &'static str = "folders_dir";

/// `state.db` setting: `light`, `dark`, or absent for the system's.
pub const THEME_SETTING: &'static str = "theme";

/// `state.db` setting: what is done with files dropped into a tab.
pub const DROP_SETTING: &'static str = "drop.action";

/// Opening at least this many hosts that forward the ssh-agent is pointed
/// out.
pub const AGENT_NOTICE_MIN: usize = 3;

/// A drop counts as one made with the mouse within so many milliseconds.
pub const DROP_WITHIN: u64 = 2000;

/// A host of the tree.
#[derive(Clone, Debug, PartialEq, Eq)]
pub struct Host {
    pub alias: String,
    pub label: String,
    /// What ssh connects to.
    pub hostname: String,
    /// The folder it is in, by its place.
    pub folder: usize,
    /// A session that is not SSH's.
    pub plink: bool,
    /// The serial line it uses.
    pub line: Option<String>,
    /// Typed after every login.
    pub on_login: Option<String>,
    /// Its sessions run in tmux on the server.
    pub tmux: bool,
}

/// A folder of the tree.
#[derive(Clone, Debug, PartialEq, Eq)]
pub struct Folder {
    pub file: String,
    /// Empty for the main config.
    pub name: String,
    pub label: String,
    pub no_group_send: bool,
    pub tab_color: Option<String>,
    pub color_scheme: Option<String>,
    pub credential: Option<String>,
    pub persistent: Option<String>,
}

/// The session tree, as far as the window reads it.
#[derive(Clone, Debug, PartialEq, Eq)]
pub struct Tree {
    pub folders: Vec<Folder>,
    pub hosts: Vec<Host>,
}

/// Where a host is: the first of that name.
pub open spec fn host_at(hosts: Seq<Host>, alias: Seq<char>) -> Option<int>
    decreases hosts.len(),
{
    if hosts.len() == 0 {
        None
    } else {
        match host_at(hosts.drop_last(), alias) {
            Some(i) => Some(i),
            None => if hosts.last().alias@ == alias {
                Some(hosts.len() - 1)
            } else {
                None
            },
        }
    }
}

/// Where a folder is: the first with that file.
pub open spec fn folder_at(folders: Seq<Folder>, file: Seq<char>) -> Option<int>
    decreases folders.len(),
{
    if folders.len() == 0 {
        None
    } else {
        match folder_at(folders.drop_last(), file) {
            Some(i) => Some(i),
            None => if folders.last().file@ == file {
                Some(folders.len() - 1)
            } else {
                None
            },
        }
    }
}

proof fn lemma_host_prefix(hosts: Seq<Host>, n: int, alias: Seq<char>)
    requires
        0 <= n <= hosts.len(),
        host_at(hosts.take(n), alias) is Some,
    ensures
        host_at(hosts, alias) == host_at(hosts.take(n), alias),
    decreases hosts.len() - n,
{
    if n < hosts.len() {
        assert(hosts.take(n + 1).drop_last() =~= hosts.take(n));
        lemma_host_prefix(hosts, n + 1, alias);
    } else {
        assert(hosts.take(n) =~= hosts);
    }
}

proof fn lemma_folder_prefix(folders: Seq<Folder>, n: int, file: Seq<char>)
    requires
        0 <= n <= folders.len(),
        folder_at(folders.take(n), file) is Some,
    ensures
        folder_at(folders, file) == folder_at(folders.take(n), file),
    decreases folders.len() - n,
{
    if n < folders.len() {
        assert(folders.take(n + 1).drop_last() =~= folders.take(n));
        lemma_folder_prefix(folders, n + 1, file);
    } else {
        assert(folders.take(n) =~= folders);
    }
}

/// The serial line of a host, as lines are compared.
pub open spec fn line_of(hosts: Seq<Host>, alias: Seq<char>) -> Option<Seq<char>> {
    match host_at(hosts, alias) {
        Some(i) => match hosts[i].line {
            Some(l) => Some(text::uppercase_text(l@)),
            None => None,
        },
        None => None,
    }
}

/// An SSH host: one that isn't known counts as one.
pub open spec fn is_ssh(hosts: Seq<Host>, alias: Seq<char>) -> bool {
    match host_at(hosts, alias) {
        Some(i) => !hosts[i].plink,
        None => true,
    }
}

/// Who holds a line: the session that took it last.
pub open spec fn owner(taken: Seq<(Seq<char>, Seq<char>)>, line: Seq<char>) -> Option<Seq<char>>
    decreases taken.len(),
{
    if taken.len() == 0 {
        None
    } else if taken.last().0 == line {
        Some(taken.last().1)
    } else {
        owner(taken.drop_last(), line)
    }
}

/// The lines that open sessions hold, with their labels.
pub open spec fn held(hosts: Seq<Host>, open: Seq<SessionView>) -> Seq<(Seq<char>, Seq<char>)>
    decreases open.len(),
{
    if open.len() == 0 {
        Seq::empty()
    } else {
        let rest = held(hosts, open.drop_last());
        let s = open.last();
        match line_of(hosts, s.alias@) {
            Some(l) if s.state.open() => rest.push((l, s.label@)),
            _ => rest,
        }
    }
}

/// What becomes of requests: those that are kept, what is said of the
/// others, and the lines that are held then.
pub struct Sorted {
    pub kept: Seq<HostRequest>,
    pub said: Seq<MessageView>,
    pub taken: Seq<(Seq<char>, Seq<char>)>,
}

/// A serial line can be held by one session only: requests for a line that
/// is held already are dropped, naming who holds it.
pub open spec fn sorted_out(
    hosts: Seq<Host>,
    taken: Seq<(Seq<char>, Seq<char>)>,
    requests: Seq<HostRequest>,
) -> Sorted
    decreases requests.len(),
{
    if requests.len() == 0 {
        Sorted { kept: Seq::empty(), said: Seq::empty(), taken }
    } else {
        let s = sorted_out(hosts, taken, requests.drop_last());
        let r = requests.last();
        match line_of(hosts, r.alias@) {
            Some(line) => match owner(s.taken, line) {
                Some(who) => Sorted {
                    said: s.said.push(message::said("notice-port-taken"@).text("line"@, line).text("label"@, who)),
                    ..s
                },
                None => Sorted { kept: s.kept.push(r), taken: s.taken.push((line, r.label@)), ..s },
            },
            None => Sorted { kept: s.kept.push(r), ..s },
        }
    }
}

/// The lines held, with their labels.
pub open spec fn pairs(v: Seq<(String, String)>) -> Seq<(Seq<char>, Seq<char>)> {
    v.map_values(|p: (String, String)| (p.0@, p.1@))
}

fn find_owner(taken: &[(String, String)], line: &str) -> (r: Option<usize>)
    ensures
        match r {
            Some(i) => i < taken@.len() && owner(pairs(taken@), line@) == Some(taken@[i as int].1@),
            None => owner(pairs(taken@), line@) is None,
        },
{
    let ghost all = pairs(taken@);
    let mut i: usize = taken.len();
    proof {
        assert(all.take(i as int) =~= all);
    }
    while i > 0
        invariant
            i <= taken@.len(),
            all == pairs(taken@),
            owner(all, line@) == owner(all.take(i as int), line@),
        decreases i,
    {
        i -= 1;
        proof {
            assert(all.take(i + 1).drop_last() =~= all.take(i as int));
            assert(all.take(i + 1).last() == (taken@[i as int].0@, taken@[i as int].1@));
        }
        if text::same(&taken[i].0, line) {
            return Some(i);
        }
    }
    proof {
        assert(all.take(0) =~= Seq::empty());
    }
    None
}

impl Tree {
    /// Where a host is.
    pub fn find(&self, alias: &str) -> (r: Option<usize>)
        ensures
            match r {
                Some(i) => host_at(self.hosts@, alias@) == Some(i as int) && i < self.hosts@.len(),
                None => host_at(self.hosts@, alias@) is None,
            },
    {
        let ghost all = self.hosts@;
        let mut i: usize = 0;
        proof {
            assert(all.take(0) =~= Seq::empty());
        }
        while i < self.hosts.len()
            invariant
                i <= self.hosts@.len(),
                all == self.hosts@,
                host_at(all.take(i as int), alias@) is None,
            decreases self.hosts@.len() - i,
        {
            proof {
                assert(all.take(i + 1).drop_last() =~= all.take(i as int));
                assert(all.take(i + 1).last() == all[i as int]);
            }
            if text::same(&self.hosts[i].alias, alias) {
                proof {
                    lemma_host_prefix(all, i + 1, alias@);
                }
                return Some(i);
            }
            i += 1;
        }
        proof {
            assert(all.take(i as int) =~= all);
        }
        None
    }

    fn folder(&self, file: &str) -> (r: Option<usize>)
        ensures
            match r {
                Some(i) => folder_at(self.folders@, file@) == Some(i as int) && i < self.folders@.len(),
                None => folder_at(self.folders@, file@) is None,
            },
    {
        let ghost all = self.folders@;
        let mut i: usize = 0;
        proof {
            assert(all.take(0) =~= Seq::empty());
        }
        while i < self.folders.len()
            invariant
                i <= self.folders@.len(),
                all == self.folders@,
                folder_at(all.take(i as int), file@) is None,
            decreases self.folders@.len() - i,
        {
            proof {
                assert(all.take(i + 1).drop_last() =~= all.take(i as int));
                assert(all.take(i + 1).last() == all[i as int]);
            }
            if text::same(&self.folders[i].file, file) {
                proof {
                    lemma_folder_prefix(all, i + 1, file@);
                }
                return Some(i);
            }
            i += 1;
        }
        proof {
            assert(all.take(i as int) =~= all);
        }
        None
    }

    /// What a folder is called: its label, the main config's own name, or
    /// its file where it is not in the tree.
    pub fn folder_label(&self, file: &str) -> (r: Notice)
        ensures
            r@ == (match folder_at(self.folders@, file@) {
                Some(i) => if self.folders@[i].name@.len() == 0 {
                    NoticeView::Said(message::said("tree-main-config"@))
                } else {
                    NoticeView::Plain(self.folders@[i].label@)
                },
                None => NoticeView::Plain(file@),
            }),
    {
        match self.folder(file) {
            Some(i) => {
                if self.folders[i].name.as_str().is_empty() {
                    Notice::Said(Message::new("tree-main-config"))
                } else {
                    Notice::Plain(text::owned(&self.folders[i].label))
                }
            },
            None => Notice::Plain(text::owned(file)),
        }
    }

    /// A folder's tab color and color scheme defaults.
    pub fn folder_look(&self, file: &str) -> (r: (Option<String>, Option<String>))
        ensures
            r == (match folder_at(self.folders@, file@) {
                Some(i) => (self.folders@[i].tab_color, self.folders@[i].color_scheme),
                None => (None, None),
            }),
    {
        match self.folder(file) {
            Some(i) => (
                text::optional_copy(&self.folders[i].tab_color),
                text::optional_copy(&self.folders[i].color_scheme),
            ),
            None => (None, None),
        }
    }

    /// A folder's credential set default.
    pub fn folder_credential(&self, file: &str) -> (r: Option<String>)
        ensures
            r == (match folder_at(self.folders@, file@) {
                Some(i) => self.folders@[i].credential,
                None => None,
            }),
    {
        match self.folder(file) {
            Some(i) => text::optional_copy(&self.folders[i].credential),
            None => None,
        }
    }

    /// A folder's persistence default.
    pub fn folder_persistent(&self, file: &str) -> (r: Option<String>)
        ensures
            r == (match folder_at(self.folders@, file@) {
                Some(i) => self.folders@[i].persistent,
                None => None,
            }),
    {
        match self.folder(file) {
            Some(i) => text::optional_copy(&self.folders[i].persistent),
            None => None,
        }
    }

    fn line(&self, alias: &str) -> (r: Option<String>)
        ensures
            text::optional(r) == line_of(self.hosts@, alias@),
    {
        match self.find(alias) {
            Some(i) => match &self.hosts[i].line {
                Some(l) => Some(text::to_upper(l)),
                None => None,
            },
            None => None,
        }
    }

    fn lines_held(&self, open: &[SessionView]) -> (r: Vec<(String, String)>)
        ensures
            pairs(r@) == held(self.hosts@, open@),
    {
        let mut r: Vec<(String, String)> = Vec::new();
        let mut i: usize = 0;
        proof {
            assert(open@.take(0) =~= Seq::empty());
            assert(pairs(r@) =~= Seq::empty());
        }
        while i < open.len()
            invariant
                i <= open@.len(),
                pairs(r@) == held(self.hosts@, open@.take(i as int)),
            decreases open@.len() - i,
        {
            proof {
                assert(open@.take(i + 1).drop_last() =~= open@.take(i as int));
                assert(open@.take(i + 1).last() == open@[i as int]);
            }
            if let Some(l) = self.line(&open[i].alias) {
                if open[i].state.is_open() {
                    let ghost before = r@;
                    let label = text::owned(&open[i].label);
                    r.push((l, label));
                    proof {
                        assert(pairs(r@) =~= pairs(before).push((l@, label@)));
                    }
                }
            }
            i += 1;
        }
        proof {
            assert(open@.take(i as int) =~= open@);
        }
        r
    }

    /// The requests without those for a serial line that an open session
    /// (or an earlier request) already uses, and what is said of these.
    pub fn without_taken_ports(&self, sessions: &[SessionView], requests: Vec<HostRequest>) -> (r: (
        Vec<HostRequest>,
        Vec<Message>,
    ))
        ensures
            r.0@ == sorted_out(self.hosts@, held(self.hosts@, sessions@), requests@).kept,
            message::messages(r.1@) == sorted_out(self.hosts@, held(self.hosts@, sessions@), requests@).said,
    {
        let ghost all = requests@;
        let ghost start = held(self.hosts@, sessions@);
        let mut taken = self.lines_held(sessions);
        let mut rest = requests;
        let mut kept: Vec<HostRequest> = Vec::new();
        let mut said: Vec<Message> = Vec::new();
        let ghost mut i: int = 0;
        proof {
            assert(all.take(0) =~= Seq::empty());
            assert(all.skip(0) =~= all);
            assert(message::messages(said@) =~= Seq::empty());
        }
        while rest.len() > 0
            invariant
                0 <= i <= all.len(),
                rest@ == all.skip(i),
                kept@ == sorted_out(self.hosts@, start, all.take(i)).kept,
                message::messages(said@) == sorted_out(self.hosts@, start, all.take(i)).said,
                pairs(taken@) == sorted_out(self.hosts@, start, all.take(i)).taken,
            decreases rest@.len(),
        {
            proof {
                assert(all.take(i + 1).drop_last() =~= all.take(i));
                assert(all.take(i + 1).last() == all[i]);
                assert(rest@[0] == all[i]);
            }
            let request = rest.remove(0);
            proof {
                assert(rest@ =~= all.skip(i + 1));
            }
            match self.line(&request.alias) {
                Some(line) => match find_owner(&taken, &line) {
                    Some(k) => {
                        let ghost before = said@;
                        let m = Message::new("notice-port-taken").text("line", &line).text("label", &taken[k].1);
                        said.push(m);
                        proof {
                            assert(message::messages(said@) =~= message::messages(before).push(m@));
                        }
                    },
                    None => {
                        let ghost before = taken@;
                        let label = text::owned(&request.label);
                        taken.push((line, label));
                        proof {
                            assert(pairs(taken@) =~= pairs(before).push((line@, label@)));
                        }
                        kept.push(request);
                    },
                },
                None => {
                    kept.push(request);
                },
            }
            proof {
                i = i + 1;
            }
        }
        proof {
            assert(all.take(i) =~= all);
        }
        (kept, said)
    }

    /// Whether a host is reached by SSH (one that isn't known counts as
    /// one).
    pub fn by_ssh(&self, alias: &str) -> (r: bool)
        ensures
            r == is_ssh(self.hosts@, alias@),
    {
        match self.find(alias) {
            Some(i) => !self.hosts[i].plink,
            None => true,
        }
    }

    /// The hosts of these that are reached by SSH: only they can forward the
    /// agent, and only they take keys.
    pub fn ssh_only(&self, aliases: &[String]) -> (r: Vec<String>)
        ensures
            text::texts(r@) == ssh_among(self.hosts@, text::texts(aliases@)),
    {
        let ghost all = text::texts(aliases@);
        let mut r: Vec<String> = Vec::new();
        let mut i: usize = 0;
        proof {
            reveal(Seq::filter);
            assert(all.take(0) =~= Seq::empty());
            assert(text::texts(r@) =~= ssh_among(self.hosts@, all.take(0)));
        }
        while i < aliases.len()
            invariant
                i <= aliases@.len(),
                all == text::texts(aliases@),
                text::texts(r@) == ssh_among(self.hosts@, all.take(i as int)),
            decreases aliases@.len() - i,
        {
            proof {
                reveal(Seq::filter);
                assert(all.take(i + 1).drop_last() =~= all.take(i as int));
                assert(all.take(i + 1).last() == aliases@[i as int]@);
            }
            if self.by_ssh(&aliases[i]) {
                let ghost before = r@;
                let a = text::owned(&aliases[i]);
                r.push(a);
                proof {
                    assert(text::texts(r@) =~= text::texts(before).push(a@));
                }
            }
            i += 1;
        }
        proof {
            assert(all.take(i as int) =~= all);
        }
        r
    }

    /// The hosts of these (alias and label) that are reached by SSH.
    pub fn ssh_hosts(&self, list: &[(String, String)]) -> (r: Vec<(String, String)>)
        ensures
            text::pairs(r@) == ssh_named(self.hosts@, text::pairs(list@)),
    {
        let ghost all = text::pairs(list@);
        let mut r: Vec<(String, String)> = Vec::new();
        let mut i: usize = 0;
        proof {
            reveal(Seq::filter);
            assert(all.take(0) =~= Seq::empty());
            assert(text::pairs(r@) =~= ssh_named(self.hosts@, all.take(0)));
        }
        while i < list.len()
            invariant
                i <= list@.len(),
                all == text::pairs(list@),
                text::pairs(r@) == ssh_named(self.hosts@, all.take(i as int)),
            decreases list@.len() - i,
        {
            proof {
                reveal(Seq::filter);
                assert(all.take(i + 1).drop_last() =~= all.take(i as int));
                assert(all.take(i + 1).last() == (list@[i as int].0@, list@[i as int].1@));
            }
            if self.by_ssh(&list[i].0) {
                let ghost before = r@;
                let (a, l) = (text::owned(&list[i].0), text::owned(&list[i].1));
                r.push((a, l));
                proof {
                    assert(text::pairs(r@) =~= text::pairs(before).push((a@, l@)));
                }
            }
            i += 1;
        }
        proof {
            assert(all.take(i as int) =~= all);
        }
        r
    }

    /// The hosts (aliases) whose sessions run in tmux on the server.
    pub fn tmux_hosts(&self) -> (r: Vec<String>)
        ensures
            text::texts(r@) == kept_in_tmux(self.hosts@),
    {
        let mut r: Vec<String> = Vec::new();
        let mut i: usize = 0;
        proof {
            assert(self.hosts@.take(0) =~= Seq::empty());
            assert(text::texts(r@) =~= Seq::empty());
        }
        while i < self.hosts.len()
            invariant
                i <= self.hosts@.len(),
                text::texts(r@) == kept_in_tmux(self.hosts@.take(i as int)),
            decreases self.hosts@.len() - i,
        {
            proof {
                assert(self.hosts@.take(i + 1).drop_last() =~= self.hosts@.take(i as int));
                assert(self.hosts@.take(i + 1).last() == self.hosts@[i as int]);
            }
            if !self.hosts[i].plink && self.hosts[i].tmux {
                let ghost before = r@;
                let a = text::owned(&self.hosts[i].alias);
                r.push(a);
                proof {
                    assert(text::texts(r@) =~= text::texts(before).push(a@));
                }
            }
            i += 1;
        }
        proof {
            assert(self.hosts@.take(i as int) =~= self.hosts@);
        }
        r
    }

    /// The hosts of folders marked "No group send".
    pub fn no_group_send(&self) -> (r: Vec<String>)
        ensures
            text::texts(r@) == left_out(self.folders@, self.hosts@),
    {
        let mut r: Vec<String> = Vec::new();
        let mut i: usize = 0;
        proof {
            assert(self.hosts@.take(0) =~= Seq::empty());
            assert(text::texts(r@) =~= Seq::empty());
        }
        while i < self.hosts.len()
            invariant
                i <= self.hosts@.len(),
                text::texts(r@) == left_out(self.folders@, self.hosts@.take(i as int)),
            decreases self.hosts@.len() - i,
        {
            proof {
                assert(self.hosts@.take(i + 1).drop_last() =~= self.hosts@.take(i as int));
                assert(self.hosts@.take(i + 1).last() == self.hosts@[i as int]);
            }
            let f = self.hosts[i].folder;
            if f < self.folders.len() && self.folders[f].no_group_send {
                let ghost before = r@;
                let a = text::owned(&self.hosts[i].alias);
                r.push(a);
                proof {
                    assert(text::texts(r@) =~= text::texts(before).push(a@));
                }
            }
            i += 1;
        }
        proof {
            assert(self.hosts@.take(i as int) =~= self.hosts@);
        }
        r
    }

    /// Whether a host's files can be shown: it has to be saved, and an SSH
    /// host; what is said where they cannot. `session` is the terminal
    /// tab's; for a host kept in tmux the server's side starts in its
    /// folder.
    pub fn files_of(&self, alias: &str, session: bool) -> (r: Result<(usize, bool), Message>)
        ensures
            match host_at(self.hosts@, alias@) {
                None => r matches Err(m) && m@ == message::said("notice-not-saved"@).text("alias"@, alias@),
                Some(i) => if self.hosts@[i].plink {
                    r matches Err(m) && m@ == message::said("notice-files-ssh-only"@).text(
                        "label"@,
                        self.hosts@[i].label@,
                    )
                } else {
                    r matches Ok(p) && p.0 == i && p.1 == (session && self.hosts@[i].tmux)
                },
            },
    {
        match self.find(alias) {
            None => Err(Message::new("notice-not-saved").text("alias", alias)),
            Some(i) => {
                if self.hosts[i].plink {
                    Err(Message::new("notice-files-ssh-only").text("label", &self.hosts[i].label))
                } else {
                    Ok((i, session && self.hosts[i].tmux))
                }
            },
        }
    }

    /// Whether files can be uploaded to a host: a saved SSH host.
    pub fn can_upload(&self, alias: &str) -> (r: bool)
        ensures
            r == (host_at(self.hosts@, alias@) matches Some(i) && !self.hosts@[i].plink),
    {
        match self.find(alias) {
            Some(i) => !self.hosts[i].plink,
            None => false,
        }
    }
}

/// The hosts of these that are reached by SSH.
pub open spec fn ssh_named(hosts: Seq<Host>, list: Seq<(Seq<char>, Seq<char>)>) -> Seq<(Seq<char>, Seq<char>)> {
    list.filter(|h: (Seq<char>, Seq<char>)| is_ssh(hosts, h.0))
}

/// The hosts of these that are reached by SSH.
pub open spec fn ssh_among(hosts: Seq<Host>, aliases: Seq<Seq<char>>) -> Seq<Seq<char>> {
    aliases.filter(|a: Seq<char>| is_ssh(hosts, a))
}

/// The hosts whose sessions run in tmux on the server.
pub open spec fn kept_in_tmux(hosts: Seq<Host>) -> Seq<Seq<char>>
    decreases hosts.len(),
{
    if hosts.len() == 0 {
        Seq::empty()
    } else if !hosts.last().plink && hosts.last().tmux {
        kept_in_tmux(hosts.drop_last()).push(hosts.last().alias@)
    } else {
        kept_in_tmux(hosts.drop_last())
    }
}

/// The hosts of folders marked "No group send".
pub open spec fn left_out(folders: Seq<Folder>, hosts: Seq<Host>) -> Seq<Seq<char>>
    decreases hosts.len(),
{
    if hosts.len() == 0 {
        Seq::empty()
    } else if hosts.last().folder < folders.len() && folders[hosts.last().folder as int].no_group_send {
        left_out(folders, hosts.drop_last()).push(hosts.last().alias@)
    } else {
        left_out(folders, hosts.drop_last())
    }
}

proof fn lemma_owner_stays(taken: Seq<(Seq<char>, Seq<char>)>, p: (Seq<char>, Seq<char>), line: Seq<char>)
    ensures
        owner(taken.push(p), line) == (if p.0 == line {
            Some(p.1)
        } else {
            owner(taken, line)
        }),
{
    assert(taken.push(p).drop_last() =~= taken);
}

proof fn lemma_sorted(hosts: Seq<Host>, taken: Seq<(Seq<char>, Seq<char>)>, requests: Seq<HostRequest>)
    ensures
        ({
            let s = sorted_out(hosts, taken, requests);
            &&& forall|i: int|
                0 <= i < s.kept.len() ==> (line_of(hosts, (#[trigger] s.kept[i]).alias@) matches Some(l) ==> owner(
                    s.taken,
                    l,
                ) is Some && owner(taken, l) is None)
            &&& forall|l: Seq<char>| #[trigger] owner(taken, l) is Some ==> owner(s.taken, l) is Some
            &&& forall|i: int, j: int|
                #![trigger s.kept[i], s.kept[j]]
                0 <= i < j < s.kept.len() && line_of(hosts, s.kept[i].alias@) is Some ==> line_of(
                    hosts,
                    s.kept[i].alias@,
                ) != line_of(hosts, s.kept[j].alias@)
        }),
    decreases requests.len(),
{
    if requests.len() > 0 {
        let a = sorted_out(hosts, taken, requests.drop_last());
        let b = sorted_out(hosts, taken, requests);
        lemma_sorted(hosts, taken, requests.drop_last());
        let r = requests.last();
        match line_of(hosts, r.alias@) {
            Some(line) => {
                if owner(a.taken, line) is None {
                    assert forall|l: Seq<char>| owner(a.taken, l) is Some implies #[trigger] owner(b.taken, l) is Some by {
                        lemma_owner_stays(a.taken, (line, r.label@), l);
                    }
                    lemma_owner_stays(a.taken, (line, r.label@), line);
                    assert forall|l: Seq<char>| #[trigger] owner(taken, l) is Some implies owner(b.taken, l) is Some by {
                        assert(owner(a.taken, l) is Some);
                    }
                    assert forall|i: int| 0 <= i < b.kept.len() implies (line_of(
                        hosts,
                        (#[trigger] b.kept[i]).alias@,
                    ) matches Some(l) ==> owner(b.taken, l) is Some && owner(taken, l) is None) by {
                        if i < a.kept.len() {
                            assert(b.kept[i] == a.kept[i]);
                            if line_of(hosts, b.kept[i].alias@) is Some {
                                assert(owner(a.taken, line_of(hosts, a.kept[i].alias@)->0) is Some);
                            }
                        } else {
                            assert(b.kept[i] == r);
                            if owner(taken, line) is Some {
                                assert(owner(a.taken, line) is Some);
                            }
                        }
                    }
                    assert forall|i: int, j: int|
                        #![trigger b.kept[i], b.kept[j]]
                        0 <= i < j < b.kept.len() && line_of(hosts, b.kept[i].alias@) is Some implies line_of(
                        hosts,
                        b.kept[i].alias@,
                    ) != line_of(hosts, b.kept[j].alias@) by {
                        assert(b.kept[i] == a.kept[i]);
                        if j < a.kept.len() {
                            assert(b.kept[j] == a.kept[j]);
                        } else {
                            assert(owner(a.taken, line_of(hosts, a.kept[i].alias@)->0) is Some);
                        }
                    }
                }
            },
            None => {
                assert forall|i: int| 0 <= i < b.kept.len() implies (line_of(
                    hosts,
                    (#[trigger] b.kept[i]).alias@,
                ) matches Some(l) ==> owner(b.taken, l) is Some && owner(taken, l) is None) by {
                    if i < a.kept.len() {
                        assert(b.kept[i] == a.kept[i]);
                    }
                }
                assert forall|i: int, j: int|
                    #![trigger b.kept[i], b.kept[j]]
                    0 <= i < j < b.kept.len() && line_of(hosts, b.kept[i].alias@) is Some implies line_of(
                    hosts,
                    b.kept[i].alias@,
                ) != line_of(hosts, b.kept[j].alias@) by {
                    assert(b.kept[i] == a.kept[i]);
                    if j < a.kept.len() {
                        assert(b.kept[j] == a.kept[j]);
                    }
                }
            },
        }
    }
}

/// A serial line is held by one session only: of what is opened, nothing
/// uses a line that is held, and no two use the same.
pub proof fn law_a_line_has_one_session(
    hosts: Seq<Host>,
    taken: Seq<(Seq<char>, Seq<char>)>,
    requests: Seq<HostRequest>,
    i: int,
    j: int,
)
    requires
        0 <= i < j < sorted_out(hosts, taken, requests).kept.len(),
        line_of(hosts, sorted_out(hosts, taken, requests).kept[i].alias@) is Some,
    ensures
        ({
            let kept = sorted_out(hosts, taken, requests).kept;
            &&& owner(taken, line_of(hosts, kept[i].alias@)->0) is None
            &&& line_of(hosts, kept[i].alias@) != line_of(hosts, kept[j].alias@)
        }),
{
    lemma_sorted(hosts, taken, requests);
    let kept = sorted_out(hosts, taken, requests).kept;
    assert(kept[i] == kept[i] && kept[j] == kept[j]);
}

/// Whether hosts are asked about agent forwarding: many are opened.
pub fn asks_about_agent(ssh: usize) -> (r: bool)
    ensures
        r == (ssh >= AGENT_NOTICE_MIN),
{
    ssh >= AGENT_NOTICE_MIN
}

/// What is said of hosts that forward the ssh-agent, where there are many:
/// the first five by name.
pub fn agent_notice(forwarding: &[String], total: usize) -> (r: Option<Message>)
    ensures
        forwarding@.len() < AGENT_NOTICE_MIN ==> r is None,
        forwarding@.len() >= AGENT_NOTICE_MIN ==> (r matches Some(m) && m@ == message::said(
            "notice-agent-forwarding"@,
        ).number("count"@, forwarding@.len() as int).number("total"@, total as int).text(
            "names"@,
            text::joined_by(first_five(text::texts(forwarding@)), ", "@),
        )),
{
    if forwarding.len() < AGENT_NOTICE_MIN {
        return None;
    }
    let mut names: Vec<String> = Vec::new();
    let mut i: usize = 0;
    proof {
        assert(text::texts(names@) =~= text::texts(forwarding@).take(0));
    }
    while i < forwarding.len() && i < 5
        invariant
            i <= 5,
            i <= forwarding@.len(),
            text::texts(names@) == text::texts(forwarding@).take(i as int),
        decreases forwarding@.len() - i,
    {
        let ghost before = names@;
        let n = text::owned(&forwarding[i]);
        names.push(n);
        proof {
            assert(text::texts(names@) =~= text::texts(before).push(n@));
            assert(text::texts(forwarding@).take(i + 1) =~= text::texts(forwarding@).take(i as int).push(n@));
        }
        i += 1;
    }
    proof {
        assert(text::texts(names@) =~= first_five(text::texts(forwarding@)));
    }
    let joined = text::join_by(&names, ", ");
    Some(
        Message::new("notice-agent-forwarding").number("count", forwarding.len() as i128).number(
            "total",
            total as i128,
        ).text("names", &joined),
    )
}

/// The first five of a list.
pub open spec fn first_five(names: Seq<Seq<char>>) -> Seq<Seq<char>> {
    if names.len() <= 5 {
        names
    } else {
        names.take(5)
    }
}

/// The remembered answer for dropped files, if there is one.
pub open spec fn remembered(setting: Option<Seq<char>>) -> Option<DropChoice> {
    match setting {
        Some(s) => if s == "upload"@ {
            Some(DropChoice::Upload)
        } else if s == "text"@ {
            Some(DropChoice::Text)
        } else {
            None
        },
        None => None,
    }
}

/// The remembered answer for dropped files, if there is one.
pub fn remembered_drop(setting: &Option<String>) -> (r: Option<DropChoice>)
    ensures
        r == remembered(text::optional(*setting)),
{
    match setting {
        Some(s) => if text::same(s, "upload") {
            Some(DropChoice::Upload)
        } else if text::same(s, "text") {
            Some(DropChoice::Text)
        } else {
            None
        },
        None => None,
    }
}

/// The setting for a remembered answer.
pub fn drop_setting(choice: DropChoice) -> (r: &'static str)
    ensures
        remembered(Some(r@)) == Some(choice),
{
    proof {
        reveal_strlit("upload");
        reveal_strlit("text");
        assert("upload"@.len() == 6 && "text"@.len() == 4);
    }
    match choice {
        DropChoice::Upload => "upload",
        DropChoice::Text => "text",
    }
}

/// What is done with files dropped into a tab.
#[derive(Clone, Copy, Debug, PartialEq, Eq, Structural)]
pub enum DropStep {
    Upload,
    /// Send the text that Terminal pasted.
    Text,
    Ask,
}

/// What is done with files dropped into a tab: a remembered answer counts
/// only for a drop made with the mouse, and uploading only where the host
/// takes files. With a dialog up already the text goes to the session.
pub open spec fn drop_step_for(
    remembered: Option<DropChoice>,
    by_mouse: bool,
    can_upload: bool,
    dialog: bool,
) -> DropStep {
    if by_mouse && remembered == Some(DropChoice::Upload) && can_upload {
        DropStep::Upload
    } else if by_mouse && remembered == Some(DropChoice::Text) {
        DropStep::Text
    } else if dialog {
        DropStep::Text
    } else {
        DropStep::Ask
    }
}

/// What is done with files dropped into a tab.
pub fn drop_step(remembered: Option<DropChoice>, by_mouse: bool, can_upload: bool, dialog: bool) -> (r: DropStep)
    ensures
        r == drop_step_for(remembered, by_mouse, can_upload, dialog),
{
    if by_mouse {
        match remembered {
            Some(DropChoice::Upload) => {
                if can_upload {
                    return DropStep::Upload;
                }
            },
            Some(DropChoice::Text) => {
                return DropStep::Text;
            },
            None => {},
        }
    }
    if dialog {
        DropStep::Text
    } else {
        DropStep::Ask
    }
}

/// Text that was not dropped with the mouse is never uploaded unasked,
/// however the question was answered before.
pub proof fn law_only_a_drop_uploads(remembered: Option<DropChoice>, can_upload: bool, dialog: bool)
    ensures
        drop_step_for(remembered, false, can_upload, dialog) != DropStep::Upload,
        drop_step_for(remembered, true, false, dialog) != DropStep::Upload,
        drop_step_for(remembered, false, can_upload, false) == DropStep::Ask,
{
}

/// Whether a drop was made with the mouse: the button was released over the
/// tab a moment ago (in milliseconds), having gone down in another window.
pub fn by_mouse(since_release: Option<u64>) -> (r: bool)
    ensures
        r == (since_release matches Some(t) && t < DROP_WITHIN),
{
    match since_release {
        Some(t) => t < DROP_WITHIN,
        None => false,
    }
}

/// The text of a drop with the marker that the client strips, so that the
/// names are not read as another drop.
pub fn marked(text: &str) -> (r: String)
    ensures
        r@ == "\u{1b}_nt\u{1b}\\"@ + text@,
{
    text::plus("\u{1b}_nt\u{1b}\\", text)
}

/// A shortcut's command.
#[derive(Clone, Copy, Debug, PartialEq, Eq, Structural)]
pub enum Shortcut {
    ShowNativeTerm,
    SearchHosts,
    AllTabs,
    SendToActive,
    SendToSeveral,
    FilesForActive,
}

/// What a shortcut does.
#[derive(Clone, Copy, Debug, PartialEq, Eq, Structural)]
pub enum ShortcutStep {
    Nothing,
    /// The hosts' search, with the window brought out first or not.
    Search { show: bool },
    /// Every tab, with the window brought out first or not.
    Tabs { show: bool },
    /// A dialog is open already.
    DialogOpen,
    /// No session is in front.
    NoActive,
    /// The send dialog, with the session in front chosen or none.
    Send { active: bool },
    /// The files of the session in front.
    Files,
}

/// What a shortcut does; `global`: pressed while another program was in
/// front.
pub open spec fn shortcut_for(command: Shortcut, global: bool, core: bool, dialog: bool, active: bool) -> ShortcutStep {
    match command {
        Shortcut::ShowNativeTerm => ShortcutStep::Search { show: true },
        Shortcut::SearchHosts => ShortcutStep::Search { show: global },
        Shortcut::AllTabs => ShortcutStep::Tabs { show: global },
        Shortcut::SendToActive => if !core {
            ShortcutStep::Nothing
        } else if dialog {
            ShortcutStep::DialogOpen
        } else if !active {
            ShortcutStep::NoActive
        } else {
            ShortcutStep::Send { active: true }
        },
        Shortcut::SendToSeveral => if !core {
            ShortcutStep::Nothing
        } else if dialog {
            ShortcutStep::DialogOpen
        } else {
            ShortcutStep::Send { active: false }
        },
        Shortcut::FilesForActive => if active {
            ShortcutStep::Files
        } else {
            ShortcutStep::NoActive
        },
    }
}

/// What a shortcut does.
pub fn run_shortcut(command: Shortcut, global: bool, core: bool, dialog: bool, active: bool) -> (r: ShortcutStep)
    ensures
        r == shortcut_for(command, global, core, dialog, active),
{
    match command {
        Shortcut::ShowNativeTerm => ShortcutStep::Search { show: true },
        Shortcut::SearchHosts => ShortcutStep::Search { show: global },
        Shortcut::AllTabs => ShortcutStep::Tabs { show: global },
        Shortcut::SendToActive => if !core {
            ShortcutStep::Nothing
        } else if dialog {
            ShortcutStep::DialogOpen
        } else if !active {
            ShortcutStep::NoActive
        } else {
            ShortcutStep::Send { active: true }
        },
        Shortcut::SendToSeveral => if !core {
            ShortcutStep::Nothing
        } else if dialog {
            ShortcutStep::DialogOpen
        } else {
            ShortcutStep::Send { active: false }
        },
        Shortcut::FilesForActive => if active {
            ShortcutStep::Files
        } else {
            ShortcutStep::NoActive
        },
    }
}

/// How a session's state looks.
#[derive(Clone, Copy, Debug, PartialEq, Eq, Structural)]
pub enum Tone {
    Good,
    Waiting,
    Bad,
    Weak,
}

/// How a session's state looks.
pub fn state_color(state: &State) -> (r: Tone)
    ensures
        r == (if state is Connected {
            Tone::Good
        } else if state is Opening || state is Connecting || state is Detached || state is Waiting {
            Tone::Waiting
        } else if state is LoginFailed || state is Unreachable || state is Disconnected || state is Failed {
            Tone::Bad
        } else {
            Tone::Weak
        }),
{
    match state {
        State::Connected => Tone::Good,
        State::Opening | State::Connecting | State::Detached | State::Waiting => Tone::Waiting,
        State::LoginFailed(_) | State::Unreachable(_) | State::Disconnected(_) | State::Failed(_) => Tone::Bad,
        _ => Tone::Weak,
    }
}

/// What a card says of a session's state: which attempt it is, and that it
/// reconnects by itself.
pub open spec fn state_words_of(s: SessionView) -> Seq<MessageView> {
    let a = seq![s.state.said()];
    let b = if s.attempt > 1 && s.state.open() {
        a.push(message::said("session-attempt"@).number("n"@, s.attempt as int))
    } else {
        a
    };
    match s.auto_retry {
        Some(n) => b.push(message::said("session-auto-reconnect"@).number("n"@, n as int)),
        None => b,
    }
}

/// What a card says of a session's state.
pub fn state_words(s: &SessionView) -> (r: Vec<Message>)
    ensures
        message::messages(r@) == state_words_of(*s),
{
    let mut r: Vec<Message> = Vec::new();
    r.push(s.state.describe());
    if s.attempt > 1 && s.state.is_open() {
        r.push(Message::new("session-attempt").number("n", s.attempt as i128));
    }
    if let Some(n) = s.auto_retry {
        r.push(Message::new("session-auto-reconnect").number("n", n as i128));
    }
    proof {
        assert(message::messages(r@) =~= state_words_of(*s));
    }
    r
}

/// What a card says of where a session's tab is.
pub open spec fn place_words_of(s: SessionView) -> Seq<MessageView> {
    match s.location {
        Some(l) => {
            let a = seq![
                message::said("session-location"@).number("window"@, l.window_number as int).number(
                    "tab"@,
                    l.tab_index + 1,
                ),
            ];
            let b = if l.selected {
                a.push(message::said("session-selected"@))
            } else {
                a
            };
            if l.mixed {
                b.push(message::said("session-split"@))
            } else {
                b
            }
        },
        None => if s.state.open() {
            seq![
                match s.last_position {
                    Some(p) => message::said("session-not-located-hint"@).number("window"@, p.0 as int).number(
                        "tab"@,
                        p.1 + 1,
                    ),
                    None => message::said("session-not-located"@),
                },
            ]
        } else {
            Seq::empty()
        },
    }
}

/// What a card says of where a session's tab is.
pub fn place_words(s: &SessionView) -> (r: Vec<Message>)
    ensures
        message::messages(r@) == place_words_of(*s),
{
    let mut r: Vec<Message> = Vec::new();
    match &s.location {
        Some(l) => {
            r.push(
                Message::new("session-location").number("window", l.window_number as i128).number(
                    "tab",
                    l.tab_index as i128 + 1,
                ),
            );
            if l.selected {
                r.push(Message::new("session-selected"));
            }
            if l.mixed {
                r.push(Message::new("session-split"));
            }
        },
        None => {
            if s.state.is_open() {
                match s.last_position {
                    Some((window, tab)) => {
                        r.push(
                            Message::new("session-not-located-hint").number("window", window as i128).number(
                                "tab",
                                tab as i128 + 1,
                            ),
                        );
                    },
                    None => {
                        r.push(Message::new("session-not-located"));
                    },
                }
            }
        },
    }
    proof {
        assert(message::messages(r@) =~= place_words_of(*s));
    }
    r
}

/// The title that a tab shows now, where it isn't the session's label.
pub fn other_title(s: &SessionView) -> (r: Option<Message>)
    ensures
        match s.location {
            Some(l) if l.title@ != s.label@ => r matches Some(m) && m@ == message::said(
                "session-current-title"@,
            ).text("title"@, l.title@),
            _ => r is None,
        },
{
    match &s.location {
        Some(l) => {
            if text::same(&l.title, &s.label) {
                None
            } else {
                Some(Message::new("session-current-title").text("title", &l.title))
            }
        },
        None => None,
    }
}

/// What the connect button says.
pub fn connect_label(s: &SessionView) -> (r: Message)
    ensures
        r@ == message::said(
            if s.state is Waiting {
                "button-connect"@
            } else {
                "button-reconnect"@
            },
        ),
{
    match s.state {
        State::Waiting => Message::new("button-connect"),
        _ => Message::new("button-reconnect"),
    }
}

/// What the lock button says.
pub fn lock_label(s: &SessionView) -> (r: (Icon, Message))
    ensures
        s.locked ==> r.0 == Icon::Unlock && r.1@ == message::said("session-unlock"@),
        !s.locked ==> r.0 == Icon::Lock && r.1@ == message::said("session-lock"@),
{
    if s.locked {
        (Icon::Unlock, Message::new("session-unlock"))
    } else {
        (Icon::Lock, Message::new("session-lock"))
    }
}

/// Whether a session can be sent to: logged in, or kept in tmux on the
/// server (through which it is sent, logged in or not).
pub fn can_send(s: &SessionView, tmux: bool) -> (r: bool)
    ensures
        r == (SessionCommand::Send.applicable(*s) || tmux),
{
    SessionCommand::Send.applies(s) || tmux
}

/// Whether a session can be reached by "Send to several".
pub open spec fn reachable(s: SessionView, tmux: Seq<Seq<char>>) -> bool {
    s.state is Connected || tmux.contains(s.alias@)
}

/// Whether any session can be reached by "Send to several".
pub fn any_reachable(sessions: &[SessionView], tmux: &[String]) -> (r: bool)
    ensures
        r == exists|i: int| 0 <= i < sessions@.len() && reachable(#[trigger] sessions@[i], text::texts(tmux@)),
{
    let mut i: usize = 0;
    while i < sessions.len()
        invariant
            i <= sessions@.len(),
            forall|j: int| 0 <= j < i ==> !reachable(#[trigger] sessions@[j], text::texts(tmux@)),
        decreases sessions@.len() - i,
    {
        let connected = matches!(sessions[i].state, State::Connected);
        if connected || text::contains_text(tmux, &sessions[i].alias) {
            proof {
                assert(reachable(sessions@[i as int], text::texts(tmux@)));
            }
            return true;
        }
        i += 1;
    }
    false
}

/// A session that was restored and waits to be connected.
pub open spec fn waits(s: SessionView) -> bool {
    s.state is Waiting && s.linked
}

/// The ids of the sessions that were restored and wait to be connected.
pub open spec fn waiting_ids(sessions: Seq<SessionView>) -> Seq<Seq<char>>
    decreases sessions.len(),
{
    if sessions.len() == 0 {
        Seq::empty()
    } else if waits(sessions.last()) {
        waiting_ids(sessions.drop_last()).push(sessions.last().id@)
    } else {
        waiting_ids(sessions.drop_last())
    }
}

/// The sessions that were restored and wait to be connected.
pub fn waiting(sessions: &[SessionView]) -> (r: Vec<String>)
    ensures
        text::texts(r@) == waiting_ids(sessions@),
{
    let mut r: Vec<String> = Vec::new();
    let mut i: usize = 0;
    proof {
        assert(sessions@.take(0) =~= Seq::empty());
        assert(text::texts(r@) =~= Seq::empty());
    }
    while i < sessions.len()
        invariant
            i <= sessions@.len(),
            text::texts(r@) == waiting_ids(sessions@.take(i as int)),
        decreases sessions@.len() - i,
    {
        proof {
            assert(sessions@.take(i + 1).drop_last() =~= sessions@.take(i as int));
            assert(sessions@.take(i + 1).last() == sessions@[i as int]);
        }
        let waits = matches!(sessions[i].state, State::Waiting);
        if waits && sessions[i].linked {
            let ghost before = r@;
            let id = text::owned(&sessions[i].id);
            r.push(id);
            proof {
                assert(text::texts(r@) =~= text::texts(before).push(id@));
            }
        }
        i += 1;
    }
    proof {
        assert(sessions@.take(i as int) =~= sessions@);
    }
    r
}

/// The theme.
#[derive(Clone, Copy, Debug, PartialEq, Eq, Structural)]
pub enum Theme {
    System,
    Light,
    Dark,
}

/// The theme by its setting.
pub open spec fn theme_for(setting: Option<Seq<char>>) -> Theme {
    match setting {
        Some(s) => if s == "light"@ {
            Theme::Light
        } else if s == "dark"@ {
            Theme::Dark
        } else {
            Theme::System
        },
        None => Theme::System,
    }
}

/// The theme by its setting.
pub fn apply_theme(setting: Option<&str>) -> (r: Theme)
    ensures
        r == theme_for(
            match setting {
                Some(s) => Some(s@),
                None => None,
            },
        ),
{
    match setting {
        Some(s) => if text::same(s, "light") {
            Theme::Light
        } else if text::same(s, "dark") {
            Theme::Dark
        } else {
            Theme::System
        },
        None => Theme::System,
    }
}

impl Theme {
    /// What the setting keeps for it.
    pub open spec fn kept_as(self) -> Seq<char> {
        match self {
            Theme::System => ""@,
            Theme::Light => "light"@,
            Theme::Dark => "dark"@,
        }
    }

    /// What the setting keeps for it.
    pub fn setting(self) -> (r: &'static str)
        ensures
            r@ == self.kept_as(),
    {
        match self {
            Theme::System => "",
            Theme::Light => "light",
            Theme::Dark => "dark",
        }
    }

    /// What it is called.
    pub fn label(self) -> (r: Message)
        ensures
            r@ == message::said(
                match self {
                    Theme::System => "theme-system"@,
                    Theme::Light => "theme-light"@,
                    Theme::Dark => "theme-dark"@,
                },
            ),
    {
        match self {
            Theme::System => Message::new("theme-system"),
            Theme::Light => Message::new("theme-light"),
            Theme::Dark => Message::new("theme-dark"),
        }
    }
}

/// A theme is the same after the settings kept it.
pub proof fn law_a_theme_survives_the_settings(t: Theme)
    ensures
        theme_for(Some(t.kept_as())) == t,
{
    reveal_strlit("");
    reveal_strlit("light");
    reveal_strlit("dark");
    assert(""@.len() == 0 && "light"@.len() == 5 && "dark"@.len() == 4);
}

/// What is said of host keys that were forgotten.
pub fn forgotten(alias: &str, removed: &[String]) -> (r: Message)
    ensures
        r@ == (if removed@.len() == 0 {
            message::said("forget-none"@).text("alias"@, alias@)
        } else {
            message::said("forget-done"@).text("names"@, text::joined_by(text::texts(removed@), ", "@))
        }),
{
    if removed.len() == 0 {
        Message::new("forget-none").text("alias", alias)
    } else {
        let names = text::join_by(removed, ", ");
        Message::new("forget-done").text("names", &names)
    }
}

/// What is said of a host that is gone.
pub fn host_gone(alias: &str) -> (r: Message)
    ensures
        r@ == message::said("error-host-gone"@).text("alias"@, alias@),
{
    Message::new("error-host-gone").text("alias", alias)
}

/// What is said once session folders were moved, or those of another
/// computer taken over.
pub fn folders_said(adopted: bool, result: &Result<usize, String>, path: &str, old_path: &str) -> (r: (bool, Message))
    ensures
        r.0 == result.is_ok(),
        r.1@ == (match result {
            Ok(count) => message::said(
                if adopted {
                    "folders-adopted"@
                } else {
                    "folders-moved"@
                },
            ).number("count"@, *count as int).text("path"@, path@).text("old"@, old_path@),
            Err(e) => message::said("folders-move-failed"@).text("error"@, e@),
        }),
{
    match result {
        Ok(count) => {
            let m = if adopted {
                Message::new("folders-adopted")
            } else {
                Message::new("folders-moved")
            };
            (true, m.number("count", *count as i128).text("path", path).text("old", old_path))
        },
        Err(e) => (false, Message::new("folders-move-failed").text("error", e)),
    }
}

/// What is said once the data was moved.
pub fn data_said(result: &Result<usize, String>, path: &str, old_path: &str) -> (r: (bool, Message))
    ensures
        r.0 == result.is_ok(),
        r.1@ == (match result {
            Ok(count) => message::said("data-dir-moved"@).number("count"@, *count as int).text("path"@, path@).text(
                "old"@,
                old_path@,
            ),
            Err(e) => message::said("data-dir-move-failed"@).text("error"@, e@),
        }),
{
    match result {
        Ok(count) => (
            true,
            Message::new("data-dir-moved").number("count", *count as i128).text("path", path).text("old", old_path),
        ),
        Err(e) => (false, Message::new("data-dir-move-failed").text("error", e)),
    }
}

/// What the tab menu asked for: it has no dialogs of its own.
#[derive(Clone, Copy, Debug, PartialEq, Eq, Structural)]
pub enum MenuRequest {
    Files,
    Dropped,
    Send,
    Rename,
    ConfirmClose,
}

/// What is done for the tab menu.
#[derive(Clone, Copy, Debug, PartialEq, Eq, Structural)]
pub enum MenuStep {
    Do,
    /// A dialog is open already, which is said.
    DialogOpen,
    Nothing,
    /// The host is not saved, which is said.
    NotSaved,
}

/// What is done for the tab menu: files and drops have no dialog in their
/// way; renaming needs the host saved, sending the core.
pub fn menu_step(request: MenuRequest, dialog: bool, core: bool, saved: bool) -> (r: MenuStep)
    ensures
        r == (if request == MenuRequest::Files || request == MenuRequest::Dropped {
            MenuStep::Do
        } else if dialog {
            MenuStep::DialogOpen
        } else if request == MenuRequest::Send && !core {
            MenuStep::Nothing
        } else if request == MenuRequest::Rename && !saved {
            MenuStep::NotSaved
        } else {
            MenuStep::Do
        }),
{
    match request {
        MenuRequest::Files | MenuRequest::Dropped => MenuStep::Do,
        _ => {
            if dialog {
                MenuStep::DialogOpen
            } else {
                match request {
                    MenuRequest::Send => if core {
                        MenuStep::Do
                    } else {
                        MenuStep::Nothing
                    },
                    MenuRequest::Rename => if saved {
                        MenuStep::Do
                    } else {
                        MenuStep::NotSaved
                    },
                    _ => MenuStep::Do,
                }
            }
        },
    }
}

/// What the session tree asks for. Folders are named by their file, hosts by
/// their alias.
pub enum TreeAction {
    Open(Vec<HostRequest>),
    Reload,
    NewFolder,
    RenameFolder(String),
    NewHost(String),
    NewPlink(String),
    Edit(String),
    Options(String),
    FolderOptions(String),
    Files(String),
    ServerSessions(String),
    FolderServerSessions,
    /// A folder's tab color, color scheme, group send, credential set or
    /// persistence is set.
    FolderSetting,
    CredentialSets,
    Favorite(String),
    InstallKey(Vec<(String, String)>),
    ForgetKey(String),
    Delete(String),
    Move(String),
}

/// What a folder gives its new hosts.
pub struct Defaults {
    pub label: Notice,
    pub persistent: Option<String>,
    pub tab_color: Option<String>,
    pub color_scheme: Option<String>,
    pub credential: Option<String>,
}

/// What is done for the session tree. Hosts are named by their place.
pub enum TreeStep {
    Nothing,
    Reload,
    /// Open these; the SSH hosts among them are asked about agent
    /// forwarding where there are many.
    Open(Vec<HostRequest>, Option<Vec<String>>),
    NewFolder,
    RenameFolder(Notice),
    NewHost(Defaults),
    NewPlink(Notice),
    EditPlink(usize),
    EditHost(usize, Defaults),
    Options(usize),
    /// The folder's label, and the first SSH host in it: what its hosts get
    /// now.
    FolderOptions(Notice, Option<usize>),
    NoFolderOptions,
    Files(usize),
    ServerSessions(usize),
    FolderServerSessions,
    /// Change the folder, say what went wrong, and reload.
    ChangeFolder,
    CredentialSets,
    Favorite(usize),
    InstallKey(Vec<(String, String)>),
    ForgetKey(usize),
    Delete(usize),
    Move(usize),
    /// The host to be moved is gone: that moving it failed is said, and this
    /// why.
    NotMoved(String, Message),
    /// The host is gone; the tree is reloaded.
    Gone,
}

/// What a folder is called.
pub open spec fn label_for(folders: Seq<Folder>, file: Seq<char>) -> NoticeView {
    match folder_at(folders, file) {
        Some(i) => if folders[i].name@.len() == 0 {
            NoticeView::Said(message::said("tree-main-config"@))
        } else {
            NoticeView::Plain(folders[i].label@)
        },
        None => NoticeView::Plain(file),
    }
}

/// What a folder gives its new hosts.
pub open spec fn gives(folders: Seq<Folder>, file: Seq<char>, d: Defaults) -> bool {
    &&& d.label@ == label_for(folders, file)
    &&& match folder_at(folders, file) {
        Some(i) => d.persistent == folders[i].persistent && d.tab_color == folders[i].tab_color && d.color_scheme
            == folders[i].color_scheme && d.credential == folders[i].credential,
        None => d.persistent is None && d.tab_color is None && d.color_scheme is None && d.credential is None,
    }
}

/// The first SSH host of a folder.
pub open spec fn first_ssh(hosts: Seq<Host>, folder: int) -> Option<int>
    decreases hosts.len(),
{
    if hosts.len() == 0 {
        None
    } else {
        match first_ssh(hosts.drop_last(), folder) {
            Some(i) => Some(i),
            None => if hosts.last().folder == folder && !hosts.last().plink {
                Some(hosts.len() - 1)
            } else {
                None
            },
        }
    }
}

proof fn lemma_first_ssh(hosts: Seq<Host>, n: int, folder: int)
    requires
        0 <= n <= hosts.len(),
        first_ssh(hosts.take(n), folder) is Some,
    ensures
        first_ssh(hosts, folder) == first_ssh(hosts.take(n), folder),
    decreases hosts.len() - n,
{
    if n < hosts.len() {
        assert(hosts.take(n + 1).drop_last() =~= hosts.take(n));
        lemma_first_ssh(hosts, n + 1, folder);
    } else {
        assert(hosts.take(n) =~= hosts);
    }
}

/// A place in the tree.
pub open spec fn place(i: Option<usize>) -> Option<int> {
    match i {
        Some(i) => Some(i as int),
        None => None,
    }
}

/// The aliases of requests.
pub open spec fn aliases_of(requests: Seq<HostRequest>) -> Seq<Seq<char>> {
    requests.map_values(|r: HostRequest| r.alias@)
}

/// Whether what is done for an action is what it asks for.
pub open spec fn answers(
    tree: Tree,
    action: TreeAction,
    sessions: Seq<SessionView>,
    core: bool,
    dialog: bool,
    folder_options: bool,
    step: TreeStep,
    said: Seq<MessageView>,
) -> bool {
    let hosts = tree.hosts@;
    let folders = tree.folders@;
    match action {
        TreeAction::Open(requests) => {
            let s = sorted_out(hosts, held(hosts, sessions), requests@);
            let ssh = ssh_among(hosts, aliases_of(s.kept));
            &&& said == s.said
            &&& if core && s.kept.len() > 0 {
                &&& step is Open
                &&& step->Open_0@ == s.kept
                &&& match step->Open_1 {
                    Some(ask) => ssh.len() >= AGENT_NOTICE_MIN && text::texts(ask@) == ssh,
                    None => ssh.len() < AGENT_NOTICE_MIN,
                }
            } else {
                step is Nothing
            }
        },
        TreeAction::Reload => step is Reload && said.len() == 0,
        TreeAction::NewFolder => step is NewFolder && said.len() == 0,
        TreeAction::RenameFolder(file) => said.len() == 0 && (step matches TreeStep::RenameFolder(l) && l@ == label_for(
            folders,
            file@,
        )),
        TreeAction::NewHost(file) => said.len() == 0 && (step matches TreeStep::NewHost(d) && gives(
            folders,
            file@,
            d,
        )),
        TreeAction::NewPlink(file) => said.len() == 0 && (step matches TreeStep::NewPlink(l) && l@ == label_for(
            folders,
            file@,
        )),
        TreeAction::Edit(alias) => said.len() == 0 && (match host_at(hosts, alias@) {
            Some(i) => if hosts[i].plink {
                step matches TreeStep::EditPlink(k) && k == i
            } else {
                step matches TreeStep::EditHost(k, d) && k == i && gives(folders, file_of(folders, hosts[i]), d)
            },
            None => step is Nothing,
        }),
        TreeAction::Options(alias) => said.len() == 0 && (match host_at(hosts, alias@) {
            Some(i) => step matches TreeStep::Options(k) && k == i,
            None => step is Nothing,
        }),
        TreeAction::FolderOptions(file) => if folder_options {
            said.len() == 0 && (step matches TreeStep::FolderOptions(l, first) && l@ == label_for(folders, file@)
                && place(first) == (match folder_at(folders, file@) {
                Some(f) => first_ssh(hosts, f),
                None => None,
            }))
        } else {
            step is NoFolderOptions && said == seq![message::said("folder-options-unsupported"@)]
        },
        TreeAction::Files(alias) => match host_at(hosts, alias@) {
            Some(i) => if hosts[i].plink {
                step is Nothing && said == seq![message::said("notice-files-ssh-only"@).text("label"@, hosts[i].label@)]
            } else {
                said.len() == 0 && (step matches TreeStep::Files(k) && k == i)
            },
            None => step is Nothing && said == seq![message::said("notice-not-saved"@).text("alias"@, alias@)],
        },
        TreeAction::ServerSessions(alias) => said.len() == 0 && (match host_at(hosts, alias@) {
            Some(i) => step matches TreeStep::ServerSessions(k) && k == i,
            None => step is Nothing,
        }),
        TreeAction::FolderServerSessions => step is FolderServerSessions && said.len() == 0,
        TreeAction::FolderSetting => step is ChangeFolder && said.len() == 0,
        TreeAction::CredentialSets => said.len() == 0 && (if dialog {
            step is Nothing
        } else {
            step is CredentialSets
        }),
        TreeAction::Favorite(alias) => match host_at(hosts, alias@) {
            Some(i) => said.len() == 0 && (step matches TreeStep::Favorite(k) && k == i),
            None => step is Gone && said == seq![message::said("error-host-gone"@).text("alias"@, alias@)],
        },
        TreeAction::InstallKey(list) => {
            let ssh = ssh_named(hosts, text::pairs(list@));
            said.len() == 0 && (if ssh.len() > 0 {
                step matches TreeStep::InstallKey(a) && text::pairs(a@) == ssh
            } else {
                step is Nothing
            })
        },
        TreeAction::ForgetKey(alias) => said.len() == 0 && (match host_at(hosts, alias@) {
            Some(i) => step matches TreeStep::ForgetKey(k) && k == i,
            None => step is Nothing,
        }),
        TreeAction::Delete(alias) => said.len() == 0 && (match host_at(hosts, alias@) {
            Some(i) => step matches TreeStep::Delete(k) && k == i,
            None => step is Nothing,
        }),
        TreeAction::Move(alias) => said.len() == 0 && (match host_at(hosts, alias@) {
            Some(i) => step matches TreeStep::Move(k) && k == i,
            None => step matches TreeStep::NotMoved(a, why) && a == alias && why@ == message::said(
                "error-host-gone"@,
            ).text("alias"@, alias@),
        }),
    }
}

/// The file of a host's folder.
pub open spec fn file_of(folders: Seq<Folder>, h: Host) -> Seq<char> {
    if h.folder < folders.len() {
        folders[h.folder as int].file@
    } else {
        Seq::empty()
    }
}

impl Tree {
    /// What a folder gives its new hosts.
    pub fn defaults(&self, file: &str) -> (r: Defaults)
        ensures
            gives(self.folders@, file@, r),
    {
        let label = self.folder_label(file);
        let persistent = self.folder_persistent(file);
        let credential = self.folder_credential(file);
        let (tab_color, color_scheme) = self.folder_look(file);
        Defaults { label, persistent, tab_color, color_scheme, credential }
    }

    fn first_ssh_host(&self, folder: usize) -> (r: Option<usize>)
        ensures
            place(r) == first_ssh(self.hosts@, folder as int),
    {
        let ghost all = self.hosts@;
        let mut i: usize = 0;
        proof {
            assert(all.take(0) =~= Seq::empty());
        }
        while i < self.hosts.len()
            invariant
                i <= self.hosts@.len(),
                all == self.hosts@,
                first_ssh(all.take(i as int), folder as int) is None,
            decreases self.hosts@.len() - i,
        {
            proof {
                assert(all.take(i + 1).drop_last() =~= all.take(i as int));
                assert(all.take(i + 1).last() == all[i as int]);
            }
            if self.hosts[i].folder == folder && !self.hosts[i].plink {
                proof {
                    lemma_first_ssh(all, i + 1, folder as int);
                }
                return Some(i);
            }
            i += 1;
        }
        proof {
            assert(all.take(i as int) =~= all);
        }
        None
    }

    fn request_aliases(requests: &[HostRequest]) -> (r: Vec<String>)
        ensures
            text::texts(r@) == aliases_of(requests@),
    {
        let mut r: Vec<String> = Vec::new();
        let mut i: usize = 0;
        proof {
            assert(text::texts(r@) =~= aliases_of(requests@).take(0));
        }
        while i < requests.len()
            invariant
                i <= requests@.len(),
                text::texts(r@) == aliases_of(requests@).take(i as int),
            decreases requests@.len() - i,
        {
            let ghost before = r@;
            let a = text::owned(&requests[i].alias);
            r.push(a);
            proof {
                assert(text::texts(r@) =~= text::texts(before).push(a@));
                assert(aliases_of(requests@).take(i + 1) =~= aliases_of(requests@).take(i as int).push(a@));
            }
            i += 1;
        }
        proof {
            assert(aliases_of(requests@).take(i as int) =~= aliases_of(requests@));
        }
        r
    }

    /// What is done for an action of the session tree, and what is said.
    /// `core`: tabs can be opened; `dialog`: a dialog is up;
    /// `folder_options`: the installed ssh can have options for a folder.
    pub fn handle(
        &self,
        action: TreeAction,
        sessions: &[SessionView],
        core: bool,
        dialog: bool,
        folder_options: bool,
    ) -> (r: (TreeStep, Vec<Message>))
        ensures
            answers(
                *self,
                action,
                sessions@,
                core,
                dialog,
                folder_options,
                r.0,
                message::messages(r.1@),
            ),
    {
        let quiet: Vec<Message> = Vec::new();
        proof {
            assert(message::messages(quiet@) =~= Seq::empty());
        }
        match action {
            TreeAction::Open(requests) => {
                let (kept, said) = self.without_taken_ports(sessions, requests);
                if !core || kept.len() == 0 {
                    return (TreeStep::Nothing, said);
                }
                let aliases = Self::request_aliases(&kept);
                let ssh = self.ssh_only(&aliases);
                proof {
                    assert(text::texts(ssh@).len() == ssh@.len());
                }
                let ask = if asks_about_agent(ssh.len()) {
                    Some(ssh)
                } else {
                    None
                };
                (TreeStep::Open(kept, ask), said)
            },
            TreeAction::Reload => (TreeStep::Reload, quiet),
            TreeAction::NewFolder => (TreeStep::NewFolder, quiet),
            TreeAction::RenameFolder(file) => (TreeStep::RenameFolder(self.folder_label(&file)), quiet),
            TreeAction::NewHost(file) => (TreeStep::NewHost(self.defaults(&file)), quiet),
            TreeAction::NewPlink(file) => (TreeStep::NewPlink(self.folder_label(&file)), quiet),
            TreeAction::Edit(alias) => match self.find(&alias) {
                Some(i) => {
                    if self.hosts[i].plink {
                        (TreeStep::EditPlink(i), quiet)
                    } else {
                        let f = self.hosts[i].folder;
                        let file = if f < self.folders.len() {
                            text::owned(&self.folders[f].file)
                        } else {
                            String::new()
                        };
                        proof {
                            assert(file@ =~= file_of(self.folders@, self.hosts@[i as int]));
                        }
                        (TreeStep::EditHost(i, self.defaults(&file)), quiet)
                    }
                },
                None => (TreeStep::Nothing, quiet),
            },
            TreeAction::Options(alias) => match self.find(&alias) {
                Some(i) => (TreeStep::Options(i), quiet),
                None => (TreeStep::Nothing, quiet),
            },
            TreeAction::FolderOptions(file) => {
                if !folder_options {
                    return (TreeStep::NoFolderOptions, one_message(Message::new("folder-options-unsupported")));
                }
                let first = match self.folder(&file) {
                    Some(f) => self.first_ssh_host(f),
                    None => None,
                };
                (TreeStep::FolderOptions(self.folder_label(&file), first), quiet)
            },
            TreeAction::Files(alias) => match self.files_of(&alias, false) {
                Ok((i, _)) => (TreeStep::Files(i), quiet),
                Err(m) => (TreeStep::Nothing, one_message(m)),
            },
            TreeAction::ServerSessions(alias) => match self.find(&alias) {
                Some(i) => (TreeStep::ServerSessions(i), quiet),
                None => (TreeStep::Nothing, quiet),
            },
            TreeAction::FolderServerSessions => (TreeStep::FolderServerSessions, quiet),
            TreeAction::FolderSetting => (TreeStep::ChangeFolder, quiet),
            TreeAction::CredentialSets => {
                if dialog {
                    (TreeStep::Nothing, quiet)
                } else {
                    (TreeStep::CredentialSets, quiet)
                }
            },
            TreeAction::Favorite(alias) => match self.find(&alias) {
                Some(i) => (TreeStep::Favorite(i), quiet),
                None => (TreeStep::Gone, one_message(host_gone(&alias))),
            },
            TreeAction::InstallKey(list) => {
                let ssh = self.ssh_hosts(&list);
                proof {
                    assert(text::pairs(ssh@).len() == ssh@.len());
                }
                if ssh.len() > 0 {
                    (TreeStep::InstallKey(ssh), quiet)
                } else {
                    (TreeStep::Nothing, quiet)
                }
            },
            TreeAction::ForgetKey(alias) => match self.find(&alias) {
                Some(i) => (TreeStep::ForgetKey(i), quiet),
                None => (TreeStep::Nothing, quiet),
            },
            TreeAction::Delete(alias) => match self.find(&alias) {
                Some(i) => (TreeStep::Delete(i), quiet),
                None => (TreeStep::Nothing, quiet),
            },
            TreeAction::Move(alias) => match self.find(&alias) {
                Some(i) => (TreeStep::Move(i), quiet),
                None => {
                    let why = host_gone(&alias);
                    (TreeStep::NotMoved(alias, why), quiet)
                },
            },
        }
    }

    /// What the host dialog's Submit does: a host that is gone is said.
    pub fn host_edit(&self, alias: &Option<String>, file: bool) -> (r: Result<HostEdit, Message>)
        ensures
            match *alias {
                Some(a) => match host_at(self.hosts@, a@) {
                    Some(i) => r matches Ok(HostEdit::Update(k)) && k == i,
                    None => r matches Err(m) && m@ == message::said("error-host-gone"@).text("alias"@, a@),
                },
                None => r == Ok::<HostEdit, Message>(
                    if file {
                        HostEdit::Create
                    } else {
                        HostEdit::Nothing
                    },
                ),
            },
    {
        match alias {
            Some(a) => match self.find(a) {
                Some(i) => Ok(HostEdit::Update(i)),
                None => Err(host_gone(a)),
            },
            None => if file {
                Ok(HostEdit::Create)
            } else {
                Ok(HostEdit::Nothing)
            },
        }
    }
}

/// What the delete dialog's Submit does.
#[derive(Clone, Copy, Debug, PartialEq, Eq, Structural)]
pub enum DeleteEdit {
    Delete(usize),
    /// The host is gone already: that counts as done.
    Done,
}

impl Tree {
    /// What the delete dialog's Submit does.
    pub fn delete_edit(&self, alias: &str) -> (r: DeleteEdit)
        ensures
            match host_at(self.hosts@, alias@) {
                Some(i) => r matches DeleteEdit::Delete(k) && k == i,
                None => r is Done,
            },
    {
        match self.find(alias) {
            Some(i) => DeleteEdit::Delete(i),
            None => DeleteEdit::Done,
        }
    }

    /// The name of a folder that a new session's alias is made with: none
    /// where the folder is not in the tree.
    pub fn folder_name(&self, file: &str) -> (r: String)
        ensures
            r@ == (match folder_at(self.folders@, file@) {
                Some(i) => self.folders@[i].name@,
                None => Seq::empty(),
            }),
    {
        match self.folder(file) {
            Some(i) => text::owned(&self.folders[i].name),
            None => {
                let none = String::new();
                proof {
                    assert(none@ =~= Seq::empty());
                }
                none
            },
        }
    }
}

/// What is said once a folder's options were written: which hosts have a tag
/// of their own and do not follow them.
pub fn own_tags(hosts: &[String]) -> (r: Option<Message>)
    ensures
        match r {
            Some(m) => hosts@.len() > 0 && m@ == message::said("folder-options-own-tag"@).text(
                "hosts"@,
                text::joined_by(text::texts(hosts@), ", "@),
            ),
            None => hosts@.len() == 0,
        },
{
    if hosts.len() == 0 {
        None
    } else {
        Some(Message::new("folder-options-own-tag").text("hosts", &text::join_by(hosts, ", ")))
    }
}

/// What is said where moving a host failed.
pub fn move_failed(alias: &str, error: &str) -> (r: Message)
    ensures
        r@ == message::said("notice-move-failed"@).text("alias"@, alias@).text("error"@, error@),
{
    Message::new("notice-move-failed").text("alias", alias).text("error", error)
}

fn one_message(m: Message) -> (r: Vec<Message>)
    ensures
        message::messages(r@) == seq![m@],
{
    let mut r: Vec<Message> = Vec::new();
    r.push(m);
    proof {
        assert(message::messages(r@) =~= seq![m@]);
    }
    r
}

/// What the host dialog's Submit does.
#[derive(Clone, Copy, Debug, PartialEq, Eq, Structural)]
pub enum HostEdit {
    Update(usize),
    Create,
    Nothing,
}

/// The dialog that is up.
#[derive(Clone, Copy, Debug, PartialEq, Eq, Structural)]
pub enum Dialog {
    Host,
    Plink,
    Folder,
    Delete,
    Forget,
    Key,
    CloseMixed,
    Options,
    Import,
    Send,
    Drop,
    ServerSessions,
    CredentialSets,
}

/// What showing the dialog came to.
#[derive(Clone, Copy, Debug, PartialEq, Eq, Structural)]
pub enum Shown {
    Open,
    Cancel,
    Submit,
}

/// What becomes of the dialog.
#[derive(Clone, Copy, Debug, PartialEq, Eq, Structural)]
pub enum DialogStep {
    Stays,
    Closes { reload: bool },
    /// What it is for is to be done first.
    Submits,
}

/// What becomes of the dialog. The dialogs that only drive sessions need
/// the core, and leave the tree as it is.
pub open spec fn dialog_step_for(dialog: Dialog, shown: Shown, core: bool) -> DialogStep {
    match dialog {
        Dialog::Key | Dialog::Send | Dialog::ServerSessions => if !core || shown == Shown::Cancel {
            DialogStep::Closes { reload: false }
        } else {
            DialogStep::Stays
        },
        Dialog::CredentialSets => if shown == Shown::Cancel {
            DialogStep::Closes { reload: true }
        } else {
            DialogStep::Stays
        },
        Dialog::Import => match shown {
            Shown::Open => DialogStep::Stays,
            Shown::Cancel => DialogStep::Closes { reload: false },
            Shown::Submit => DialogStep::Closes { reload: true },
        },
        _ => match shown {
            Shown::Open => DialogStep::Stays,
            Shown::Cancel => DialogStep::Closes { reload: true },
            Shown::Submit => DialogStep::Submits,
        },
    }
}

/// What becomes of the dialog.
pub fn show_dialog(dialog: Dialog, shown: Shown, core: bool) -> (r: DialogStep)
    ensures
        r == dialog_step_for(dialog, shown, core),
{
    match dialog {
        Dialog::Key | Dialog::Send | Dialog::ServerSessions => {
            let cancelled = match shown {
                Shown::Cancel => true,
                _ => false,
            };
            if !core || cancelled {
                DialogStep::Closes { reload: false }
            } else {
                DialogStep::Stays
            }
        },
        Dialog::CredentialSets => match shown {
            Shown::Cancel => DialogStep::Closes { reload: true },
            _ => DialogStep::Stays,
        },
        Dialog::Import => match shown {
            Shown::Open => DialogStep::Stays,
            Shown::Cancel => DialogStep::Closes { reload: false },
            Shown::Submit => DialogStep::Closes { reload: true },
        },
        _ => match shown {
            Shown::Open => DialogStep::Stays,
            Shown::Cancel => DialogStep::Closes { reload: true },
            Shown::Submit => DialogStep::Submits,
        },
    }
}

/// What becomes of a dialog once what it is for was done: it closes, or
/// stays and shows what went wrong.
pub fn submitted(result: Result<(), String>, error: &mut Option<String>) -> (r: DialogStep)
    ensures
        match result {
            Ok(_) => r == (DialogStep::Closes { reload: true }) && *final(error) == *old(error),
            Err(e) => r == DialogStep::Stays && *final(error) == Some(e),
        },
{
    match result {
        Ok(_) => DialogStep::Closes { reload: true },
        Err(e) => {
            *error = Some(e);
            DialogStep::Stays
        },
    }
}

/// A dialog that edits stays open until its edit worked or it is given up:
/// showing it never closes it on Submit alone.
pub proof fn law_edits_are_not_lost(dialog: Dialog, core: bool)
    requires
        dialog == Dialog::Host || dialog == Dialog::Plink || dialog == Dialog::Folder || dialog == Dialog::Options,
    ensures
        dialog_step_for(dialog, Shown::Submit, core) == DialogStep::Submits,
        dialog_step_for(dialog, Shown::Open, core) == DialogStep::Stays,
{
}

/// The saved hosts as the search shows them: the folder's label (none for
/// the main config) and whether it is marked "No group send".
pub open spec fn is_published(folders: Seq<Folder>, h: Host, e: HostEntry) -> bool {
    &&& e.alias == h.alias
    &&& e.label == h.label
    &&& e.hostname == h.hostname
    &&& e.on_login == h.on_login
    &&& e.folder@ == (if h.folder < folders.len() && folders[h.folder as int].name@.len() > 0 {
        folders[h.folder as int].label@
    } else {
        Seq::empty()
    })
    &&& e.no_group_send == (h.folder < folders.len() && folders[h.folder as int].no_group_send)
}

impl Tree {
    /// The saved hosts, for the floating button's search.
    pub fn publish_hosts(&self) -> (r: Vec<HostEntry>)
        ensures
            r@.len() == self.hosts@.len(),
            forall|i: int| 0 <= i < r@.len() ==> is_published(self.folders@, self.hosts@[i], #[trigger] r@[i]),
    {
        let mut r: Vec<HostEntry> = Vec::new();
        let mut i: usize = 0;
        while i < self.hosts.len()
            invariant
                i <= self.hosts@.len(),
                r@.len() == i,
                forall|j: int| 0 <= j < i ==> is_published(self.folders@, self.hosts@[j], #[trigger] r@[j]),
            decreases self.hosts@.len() - i,
        {
            let h = &self.hosts[i];
            let there = h.folder < self.folders.len();
            let folder = if there && !self.folders[h.folder].name.as_str().is_empty() {
                self.folders[h.folder].label.clone()
            } else {
                String::new()
            };
            proof {
                assert(folder@ =~= (if h.folder < self.folders@.len() && self.folders@[h.folder as int].name@.len()
                    > 0 {
                    self.folders@[h.folder as int].label@
                } else {
                    Seq::empty()
                }));
            }
            let no_group_send = there && self.folders[h.folder].no_group_send;
            r.push(
                HostEntry {
                    alias: h.alias.clone(),
                    label: h.label.clone(),
                    hostname: h.hostname.clone(),
                    folder,
                    on_login: text::optional_copy(&h.on_login),
                    no_group_send,
                },
            );
            i += 1;
        }
        r
    }
}

/// The floating button leaves out of a group send the same hosts that the
/// window does.
pub proof fn law_the_button_leaves_out_the_same(folders: Seq<Folder>, hosts: Seq<Host>, entries: Seq<HostEntry>)
    requires
        entries.len() == hosts.len(),
        forall|i: int| 0 <= i < entries.len() ==> is_published(folders, hosts[i], #[trigger] entries[i]),
    ensures
        fab::left_out(entries) == left_out(folders, hosts),
    decreases hosts.len(),
{
    if hosts.len() > 0 {
        let (e, h) = (entries.drop_last(), hosts.drop_last());
        assert forall|i: int| 0 <= i < e.len() implies is_published(folders, h[i], #[trigger] e[i]) by {
            assert(e[i] == entries[i] && h[i] == hosts[i]);
        }
        law_the_button_leaves_out_the_same(folders, h, e);
        assert(is_published(folders, hosts[hosts.len() - 1], entries[entries.len() - 1]));
    }
}

/// The host dialog's fields for a target that was typed: its name is the
/// host's, and nothing else is filled in.
pub open spec fn draft_for(t: quick::TargetView) -> dialogs::DraftView {
    dialogs::DraftView {
        label: t.host,
        hostname: t.host,
        user: t.user,
        port: t.port,
        proxy_jump: None,
        identity_files: Seq::empty(),
        note: None,
        on_login: None,
        persistent: None,
        tab_color: None,
        color_scheme: None,
        credential: None,
    }
}

/// The host dialog's fields for a target that was typed, to save it.
pub fn typed_draft(target: &QuickTarget) -> (r: HostDraft)
    ensures
        r@ == draft_for(target@),
{
    let r = HostDraft {
        label: target.host.clone(),
        hostname: target.host.clone(),
        user: text::optional_copy(&target.user),
        port: target.port,
        proxy_jump: None,
        identity_files: Vec::new(),
        note: None,
        on_login: None,
        persistent: None,
        tab_color: None,
        color_scheme: None,
        credential: None,
    };
    proof {
        assert(r@.identity_files =~= Seq::empty());
        assert(r@.user == target@.user);
    }
    r
}

impl Tree {
    /// What a session was typed as: nothing where its host is saved.
    pub fn typed(&self, alias: &str) -> (r: Option<QuickTarget>)
        ensures
            quick::found(r) == (if host_at(self.hosts@, alias@) is None {
                quick::target_of(quick::bare(alias@))
            } else {
                None
            }),
    {
        match self.find(alias) {
            Some(_) => None,
            None => quick::from_destination(alias),
        }
    }
}

/// A host is found by its alias and a folder by its file, the first of
/// several.
pub proof fn law_finding_hosts_and_folders(hosts: Seq<Host>, folders: Seq<Folder>, name: Seq<char>)
    ensures
        host_at(hosts, name) matches Some(i) ==> 0 <= i < hosts.len() && hosts[i].alias@ == name && forall|j: int|
            0 <= j < i ==> (#[trigger] hosts[j]).alias@ != name,
        host_at(hosts, name) is None ==> forall|j: int| 0 <= j < hosts.len() ==> (#[trigger] hosts[j]).alias@ != name,
        folder_at(folders, name) matches Some(i) ==> 0 <= i < folders.len() && folders[i].file@ == name && forall|j: int|
            0 <= j < i ==> (#[trigger] folders[j]).file@ != name,
        folder_at(folders, name) is None ==> forall|j: int|
            0 <= j < folders.len() ==> (#[trigger] folders[j]).file@ != name,
    decreases hosts.len() + folders.len(),
{
    if hosts.len() > 0 {
        law_finding_hosts_and_folders(hosts.drop_last(), Seq::empty(), name);
        assert forall|j: int| 0 <= j < hosts.len() - 1 implies hosts.drop_last()[j] == #[trigger] hosts[j] by {}
    }
    if folders.len() > 0 {
        law_finding_hosts_and_folders(Seq::empty(), folders.drop_last(), name);
        assert forall|j: int| 0 <= j < folders.len() - 1 implies folders.drop_last()[j] == #[trigger] folders[j] by {}
    }
}

/// Only a serial host has a line, written in capitals; a host that is not
/// known, or that is none of plink's, is reached by SSH.
pub proof fn law_lines_and_ssh(hosts: Seq<Host>, h: Host)
    ensures
        host_at(hosts, h.alias@) is None ==> is_ssh(hosts, h.alias@) && line_of(hosts, h.alias@) is None,
        host_at(hosts, h.alias@) is None ==> (is_ssh(hosts.push(h), h.alias@) <==> !h.plink),
        host_at(hosts, h.alias@) is None ==> (h.line matches Some(l) ==> line_of(hosts.push(h), h.alias@) == Some(
            text::uppercase_text(l@),
        )),
        host_at(hosts, h.alias@) is None && h.line is None ==> line_of(hosts.push(h), h.alias@) is None,
{
    assert(hosts.push(h).drop_last() =~= hosts);
}

/// The last to take a line has it.
pub proof fn law_owner_of_a_line(taken: Seq<(Seq<char>, Seq<char>)>, t: (Seq<char>, Seq<char>), line: Seq<char>)
    ensures
        owner(Seq::empty(), line) is None,
        t.0 == line ==> owner(taken.push(t), line) == Some(t.1),
        t.0 != line ==> owner(taken.push(t), line) == owner(taken, line),
{
    assert(taken.push(t).drop_last() =~= taken);
}

/// A session that is open holds its host's line.
pub proof fn law_lines_that_are_held(hosts: Seq<Host>, open: Seq<SessionView>, s: SessionView)
    ensures
        held(hosts, Seq::empty()).len() == 0,
        s.state.open() ==> (line_of(hosts, s.alias@) matches Some(l) ==> held(hosts, open.push(s)) == held(hosts, open).push(
            (l, s.label@),
        )),
        !s.state.open() || line_of(hosts, s.alias@) is None ==> held(hosts, open.push(s)) == held(hosts, open),
{
    assert(open.push(s).drop_last() =~= open);
}

/// A host whose line is free is opened and takes it, one whose line is taken
/// is told with who has it, and one without a line is opened.
pub proof fn law_who_is_opened(
    hosts: Seq<Host>,
    taken: Seq<(Seq<char>, Seq<char>)>,
    requests: Seq<HostRequest>,
    r: HostRequest,
)
    ensures
        ({
            let before = sorted_out(hosts, taken, requests);
            let after = sorted_out(hosts, taken, requests.push(r));
            &&& line_of(hosts, r.alias@) is None ==> after.kept == before.kept.push(r) && after.said == before.said
                && after.taken == before.taken
            &&& line_of(hosts, r.alias@) matches Some(line) ==> (owner(before.taken, line) is None ==> after.kept
                == before.kept.push(r) && after.said == before.said && after.taken == before.taken.push((line, r.label@)))
            &&& line_of(hosts, r.alias@) matches Some(line) ==> (owner(before.taken, line) matches Some(who) ==> after.kept
                == before.kept && after.taken == before.taken && after.said == before.said.push(
                message::said("notice-port-taken"@).text("line"@, line).text("label"@, who),
            ))
        }),
        sorted_out(hosts, taken, Seq::empty()).kept.len() == 0,
        sorted_out(hosts, taken, Seq::empty()).said.len() == 0,
        sorted_out(hosts, taken, Seq::empty()).taken == taken,
{
    assert(requests.push(r).drop_last() =~= requests);
}

/// Of a list of hosts those reached by SSH are kept, in order.
pub proof fn law_hosts_reached_by_ssh(
    hosts: Seq<Host>,
    list: Seq<(Seq<char>, Seq<char>)>,
    h: (Seq<char>, Seq<char>),
    aliases: Seq<Seq<char>>,
    a: Seq<char>,
)
    ensures
        ssh_named(hosts, Seq::empty()).len() == 0,
        is_ssh(hosts, h.0) ==> ssh_named(hosts, list.push(h)) == ssh_named(hosts, list).push(h),
        !is_ssh(hosts, h.0) ==> ssh_named(hosts, list.push(h)) == ssh_named(hosts, list),
        ssh_among(hosts, Seq::empty()).len() == 0,
        is_ssh(hosts, a) ==> ssh_among(hosts, aliases.push(a)) == ssh_among(hosts, aliases).push(a),
        !is_ssh(hosts, a) ==> ssh_among(hosts, aliases.push(a)) == ssh_among(hosts, aliases),
{
    reveal(Seq::filter);
    assert(list.push(h).drop_last() =~= list);
    assert(aliases.push(a).drop_last() =~= aliases);
}

/// Hosts kept in tmux are those of SSH that say so; hosts left out of sending
/// are those whose folder says so.
pub proof fn law_hosts_of_a_kind(folders: Seq<Folder>, hosts: Seq<Host>, h: Host)
    ensures
        kept_in_tmux(Seq::empty()).len() == 0,
        h.tmux && !h.plink ==> kept_in_tmux(hosts.push(h)) == kept_in_tmux(hosts).push(h.alias@),
        !h.tmux || h.plink ==> kept_in_tmux(hosts.push(h)) == kept_in_tmux(hosts),
        left_out(folders, Seq::empty()).len() == 0,
        h.folder < folders.len() && folders[h.folder as int].no_group_send ==> left_out(folders, hosts.push(h)) == left_out(
            folders,
            hosts,
        ).push(h.alias@),
        h.folder >= folders.len() || !folders[h.folder as int].no_group_send ==> left_out(folders, hosts.push(h))
            == left_out(folders, hosts),
{
    assert(hosts.push(h).drop_last() =~= hosts);
}

/// At most five names are given, the first.
pub proof fn law_first_names(names: Seq<Seq<char>>)
    ensures
        names.len() <= 5 ==> first_five(names) == names,
        names.len() > 5 ==> first_five(names).len() == 5,
        forall|i: int| 0 <= i < first_five(names).len() ==> #[trigger] first_five(names)[i] == names[i],
{
}

/// What was chosen for dropped files is remembered under its word.
pub proof fn law_remembered_drops(s: Seq<char>)
    ensures
        remembered(None) is None,
        remembered(Some("upload"@)) == Some(DropChoice::Upload),
        remembered(Some("text"@)) == Some(DropChoice::Text),
        s != "upload"@ && s != "text"@ ==> remembered(Some(s)) is None,
{
    reveal_strlit("upload");
    reveal_strlit("text");
    assert("upload"@.len() != "text"@.len());
}

/// What happens to dropped files: what is remembered where they were dropped
/// by the mouse, else a question; text where a dialog is open already.
pub proof fn law_dropped_files(can_upload: bool, dialog: bool)
    ensures
        drop_step_for(Some(DropChoice::Upload), true, true, dialog) == DropStep::Upload,
        drop_step_for(Some(DropChoice::Text), true, can_upload, dialog) == DropStep::Text,
        drop_step_for(Some(DropChoice::Upload), true, false, false) == DropStep::Ask,
        drop_step_for(None, true, can_upload, false) == DropStep::Ask,
        drop_step_for(None, true, can_upload, true) == DropStep::Text,
        drop_step_for(None, false, can_upload, true) == DropStep::Text,
        drop_step_for(Some(DropChoice::Text), false, can_upload, true) == DropStep::Text,
        drop_step_for(Some(DropChoice::Upload), true, false, true) == DropStep::Text,
{
}

/// What each shortcut does: the window is brought up for one that works
/// everywhere, sending needs the core and no open dialog, and what is for the
/// active session needs one.
pub proof fn law_shortcuts(global: bool, core: bool, dialog: bool, active: bool)
    ensures
        shortcut_for(Shortcut::ShowNativeTerm, global, core, dialog, active) == (ShortcutStep::Search { show: true }),
        shortcut_for(Shortcut::SearchHosts, global, core, dialog, active) == (ShortcutStep::Search { show: global }),
        shortcut_for(Shortcut::AllTabs, global, core, dialog, active) == (ShortcutStep::Tabs { show: global }),
        shortcut_for(Shortcut::SendToActive, global, false, dialog, active) is Nothing,
        shortcut_for(Shortcut::SendToActive, global, true, true, active) is DialogOpen,
        shortcut_for(Shortcut::SendToActive, global, true, false, false) is NoActive,
        shortcut_for(Shortcut::SendToActive, global, true, false, true) == (ShortcutStep::Send { active: true }),
        shortcut_for(Shortcut::SendToSeveral, global, false, dialog, active) is Nothing,
        shortcut_for(Shortcut::SendToSeveral, global, true, true, active) is DialogOpen,
        shortcut_for(Shortcut::SendToSeveral, global, true, false, active) == (ShortcutStep::Send { active: false }),
        shortcut_for(Shortcut::FilesForActive, global, core, dialog, true) is Files,
        shortcut_for(Shortcut::FilesForActive, global, core, dialog, false) is NoActive,
{
}

/// What is said of a session: its state, the attempt from the second on while
/// it is open, and the retry that is coming.
pub proof fn law_words_on_a_state(s: SessionView)
    ensures
        state_words_of(s).len() >= 1 && state_words_of(s)[0] == s.state.said(),
        s.attempt >= 2 && s.state.open() ==> state_words_of(s).len() >= 2 && state_words_of(s)[1] == message::said(
            "session-attempt"@,
        ).number("n"@, s.attempt as int),
        s.auto_retry matches Some(n) ==> state_words_of(s).last() == message::said("session-auto-reconnect"@).number(
            "n"@,
            n as int,
        ),
        s.auto_retry is None && (s.attempt <= 1 || !s.state.open()) ==> state_words_of(s).len() == 1,
        s.auto_retry is Some && (s.attempt <= 1 || !s.state.open()) ==> state_words_of(s).len() == 2,
        s.auto_retry is None && s.attempt >= 2 && s.state.open() ==> state_words_of(s).len() == 2,
{
}

/// Where a session stands is told from one on: its window and its tab,
/// whether the tab is selected and whether it holds other panes.
pub proof fn law_words_on_a_place(s: SessionView)
    ensures
        s.location matches Some(l) ==> place_words_of(s).len() == 1 + (if l.selected { 1int } else { 0 }) + (if l.mixed {
            1int
        } else {
            0
        }) && place_words_of(s)[0] == message::said("session-location"@).number("window"@, l.window_number as int).number(
            "tab"@,
            l.tab_index + 1,
        ) && (l.selected ==> place_words_of(s)[1] == message::said("session-selected"@)) && (l.mixed ==> place_words_of(
            s,
        ).last() == message::said("session-split"@)),
        s.location is None && !s.state.open() ==> place_words_of(s).len() == 0,
        s.location is None && s.state.open() ==> place_words_of(s).len() == 1,
        s.location is None && s.state.open() && s.last_position is None ==> place_words_of(s)[0] == message::said(
            "session-not-located"@,
        ),
        s.location is None && s.state.open() ==> (s.last_position matches Some(p) ==> place_words_of(s)[0] == message::said(
            "session-not-located-hint"@,
        ).number("window"@, p.0 as int).number("tab"@, p.1 + 1)),
{
}

/// A session's files are reached while it is connected, and in tmux always.
pub proof fn law_sessions_reached(s: SessionView, tmux: Seq<Seq<char>>)
    ensures
        s.state is Connected ==> reachable(s, tmux),
        tmux.contains(s.alias@) ==> reachable(s, tmux),
        !(s.state is Connected) && !tmux.contains(s.alias@) ==> !reachable(s, tmux),
{
}

/// The sessions that wait for their turn are those waiting whose tab is
/// linked, in order.
pub proof fn law_sessions_that_wait(sessions: Seq<SessionView>, s: SessionView)
    ensures
        waiting_ids(Seq::empty()).len() == 0,
        s.linked && s.state is Waiting ==> waiting_ids(sessions.push(s)) == waiting_ids(sessions).push(s.id@),
        !s.linked || !(s.state is Waiting) ==> waiting_ids(sessions.push(s)) == waiting_ids(sessions),
{
    assert(sessions.push(s).drop_last() =~= sessions);
}

/// A theme that is not known is the system's.
pub proof fn law_themes(s: Seq<char>)
    ensures
        theme_for(None) is System,
        theme_for(Some("light"@)) is Light,
        theme_for(Some("dark"@)) is Dark,
        s != "light"@ && s != "dark"@ ==> theme_for(Some(s)) is System,
        Theme::Light.kept_as() == "light"@ && Theme::Dark.kept_as() == "dark"@ && Theme::System.kept_as() == ""@,
{
    reveal_strlit("light");
    reveal_strlit("dark");
    assert("light"@.len() != "dark"@.len());
}

/// What a folder is called, and what its hosts have from it.
pub proof fn law_folders_give(folders: Seq<Folder>, file: Seq<char>, d: Defaults)
    requires
        gives(folders, file, d),
    ensures
        d.label@ == label_for(folders, file),
        folder_at(folders, file) is None ==> label_for(folders, file) == NoticeView::Plain(file) && d.persistent is None
            && d.tab_color is None && d.color_scheme is None && d.credential is None,
        folder_at(folders, file) matches Some(i) ==> d.persistent == folders[i].persistent && d.tab_color
            == folders[i].tab_color && d.color_scheme == folders[i].color_scheme && d.credential == folders[i].credential,
        folder_at(folders, file) matches Some(i) ==> (folders[i].name@.len() == 0 ==> label_for(folders, file)
            == NoticeView::Said(message::said("tree-main-config"@))),
        folder_at(folders, file) matches Some(i) ==> (folders[i].name@.len() > 0 ==> label_for(folders, file)
            == NoticeView::Plain(folders[i].label@)),
{
}

/// A folder's options are tried on its first host that SSH reaches.
pub proof fn law_first_ssh_host(hosts: Seq<Host>, folder: int)
    ensures
        first_ssh(hosts, folder) matches Some(i) ==> 0 <= i < hosts.len() && hosts[i].folder == folder && !hosts[i].plink
            && forall|j: int| 0 <= j < i ==> (#[trigger] hosts[j]).folder != folder || hosts[j].plink,
        first_ssh(hosts, folder) is None ==> forall|j: int|
            0 <= j < hosts.len() ==> (#[trigger] hosts[j]).folder != folder || hosts[j].plink,
    decreases hosts.len(),
{
    if hosts.len() > 0 {
        law_first_ssh_host(hosts.drop_last(), folder);
        assert forall|j: int| 0 <= j < hosts.len() - 1 implies hosts.drop_last()[j] == #[trigger] hosts[j] by {}
    }
}

/// The file a host stands in is its folder's.
pub proof fn law_file_of_a_host(folders: Seq<Folder>, h: Host)
    ensures
        h.folder < folders.len() ==> file_of(folders, h) == folders[h.folder as int].file@,
        h.folder >= folders.len() ==> file_of(folders, h).len() == 0,
{
}

/// Opening hosts asks about an agent from three on that SSH reaches, and
/// does nothing without the core or where every line is taken.
pub proof fn law_opening_from_the_tree(
    tree: Tree,
    requests: Vec<HostRequest>,
    sessions: Seq<SessionView>,
    core: bool,
    dialog: bool,
    options: bool,
    step: TreeStep,
    said: Seq<MessageView>,
)
    requires
        answers(tree, TreeAction::Open(requests), sessions, core, dialog, options, step, said),
    ensures
        ({
            let s = sorted_out(tree.hosts@, held(tree.hosts@, sessions), requests@);
            let ssh = ssh_among(tree.hosts@, aliases_of(s.kept));
            &&& said == s.said
            &&& !core || s.kept.len() == 0 ==> step is Nothing
            &&& core && s.kept.len() > 0 ==> (step matches TreeStep::Open(a, ask) && a@ == s.kept && (ask is Some <==> ssh.len()
                >= 3) && (ask matches Some(v) ==> text::texts(v@) == ssh))
        }),
{
}

/// A host chosen in the tree is looked for by its alias; what is asked of it
/// is done with the host found, and for one that is gone nothing is, or it is
/// told.
pub proof fn law_hosts_chosen_in_the_tree(
    tree: Tree,
    alias: String,
    sessions: Seq<SessionView>,
    core: bool,
    dialog: bool,
    options: bool,
    step: TreeStep,
    said: Seq<MessageView>,
)
    ensures
        ({
            let found = host_at(tree.hosts@, alias@);
            let gone = message::said("error-host-gone"@).text("alias"@, alias@);
            let a = |action: TreeAction| answers(tree, action, sessions, core, dialog, options, step, said);
            &&& a(TreeAction::Edit(alias)) && found is None ==> step is Nothing && said.len() == 0
            &&& a(TreeAction::Edit(alias)) ==> (found matches Some(i) ==> said.len() == 0 && (tree.hosts@[i].plink ==> (step
                matches TreeStep::EditPlink(k) && k == i)) && (!tree.hosts@[i].plink ==> (step matches TreeStep::EditHost(k, d)
                && k == i && gives(tree.folders@, file_of(tree.folders@, tree.hosts@[i]), d))))
            &&& a(TreeAction::Options(alias)) ==> (found matches Some(i) ==> (step matches TreeStep::Options(k) && k == i))
            &&& a(TreeAction::ServerSessions(alias)) ==> (found matches Some(i) ==> (step matches TreeStep::ServerSessions(k)
                && k == i))
            &&& a(TreeAction::ForgetKey(alias)) ==> (found matches Some(i) ==> (step matches TreeStep::ForgetKey(k) && k == i))
            &&& a(TreeAction::Delete(alias)) ==> (found matches Some(i) ==> (step matches TreeStep::Delete(k) && k == i))
            &&& a(TreeAction::Move(alias)) ==> (found matches Some(i) ==> (step matches TreeStep::Move(k) && k == i))
            &&& a(TreeAction::Favorite(alias)) ==> (found matches Some(i) ==> said.len() == 0 && (step
                matches TreeStep::Favorite(k) && k == i))
            &&& a(TreeAction::Files(alias)) ==> (found matches Some(i) ==> (tree.hosts@[i].plink ==> step is Nothing && said
                == seq![message::said("notice-files-ssh-only"@).text("label"@, tree.hosts@[i].label@)]))
            &&& a(TreeAction::Files(alias)) ==> (found matches Some(i) ==> (!tree.hosts@[i].plink ==> said.len() == 0 && (step
                matches TreeStep::Files(k) && k == i)))
            &&& found is None && (a(TreeAction::Options(alias)) || a(TreeAction::ServerSessions(alias)) || a(
                TreeAction::ForgetKey(alias),
            ) || a(TreeAction::Delete(alias))) ==> step is Nothing
            &&& found is None && a(TreeAction::Favorite(alias)) ==> step is Gone && said == seq![gone]
            &&& found is None && a(TreeAction::Files(alias)) ==> step is Nothing && said == seq![
                message::said("notice-not-saved"@).text("alias"@, alias@),
            ]
            &&& found is None && a(TreeAction::Move(alias)) ==> (step matches TreeStep::NotMoved(b, why) && b == alias && why@
                == gone)
        }),
{
}

/// What is chosen of a folder in the tree, and what needs no host.
pub proof fn law_folders_chosen_in_the_tree(
    tree: Tree,
    file: String,
    list: Vec<(String, String)>,
    sessions: Seq<SessionView>,
    core: bool,
    dialog: bool,
    options: bool,
    step: TreeStep,
    said: Seq<MessageView>,
)
    ensures
        ({
            let a = |action: TreeAction| answers(tree, action, sessions, core, dialog, options, step, said);
            let ssh = ssh_named(tree.hosts@, text::pairs(list@));
            &&& a(TreeAction::RenameFolder(file)) ==> (step matches TreeStep::RenameFolder(l) && l@ == label_for(
                tree.folders@,
                file@,
            ))
            &&& a(TreeAction::NewPlink(file)) ==> (step matches TreeStep::NewPlink(l) && l@ == label_for(tree.folders@, file@))
            &&& a(TreeAction::NewHost(file)) ==> (step matches TreeStep::NewHost(d) && gives(tree.folders@, file@, d))
            &&& a(TreeAction::FolderOptions(file)) && !options ==> step is NoFolderOptions && said == seq![
                message::said("folder-options-unsupported"@),
            ]
            &&& a(TreeAction::FolderOptions(file)) && options ==> said.len() == 0 && (step matches TreeStep::FolderOptions(
                l,
                first,
            ) && l@ == label_for(tree.folders@, file@) && (folder_at(tree.folders@, file@) is None ==> first is None) && (
            folder_at(tree.folders@, file@) matches Some(f) ==> (first_ssh(tree.hosts@, f) is None ==> first is None) && (
            first_ssh(tree.hosts@, f) matches Some(h) ==> (first matches Some(k) && k == h))))
            &&& a(TreeAction::Reload) ==> step is Reload && said.len() == 0
            &&& a(TreeAction::NewFolder) ==> step is NewFolder && said.len() == 0
            &&& a(TreeAction::FolderServerSessions) ==> step is FolderServerSessions && said.len() == 0
            &&& a(TreeAction::FolderSetting) ==> step is ChangeFolder && said.len() == 0
            &&& a(TreeAction::CredentialSets) ==> said.len() == 0 && (dialog ==> step is Nothing) && (!dialog ==> step
                is CredentialSets)
            &&& a(TreeAction::InstallKey(list)) && ssh.len() == 0 ==> step is Nothing
            &&& a(TreeAction::InstallKey(list)) && ssh.len() > 0 ==> (step matches TreeStep::InstallKey(v) && text::pairs(v@)
                == ssh)
        }),
{
}

/// How each dialog ends: those that act by themselves are closed or stay, the
/// list of sets and those cancelled bring the tree up to date, and the rest
/// hand over what was filled in.
pub proof fn law_dialogs_end(shown: Shown, core: bool)
    ensures
        forall|d: Dialog|
            #![trigger dialog_step_for(d, shown, core)]
            d == Dialog::Key || d == Dialog::Send || d == Dialog::ServerSessions ==> dialog_step_for(d, shown, core) == (
            if !core || shown == Shown::Cancel {
                DialogStep::Closes { reload: false }
            } else {
                DialogStep::Stays
            }),
        dialog_step_for(Dialog::CredentialSets, Shown::Cancel, core) == (DialogStep::Closes { reload: true }),
        dialog_step_for(Dialog::CredentialSets, Shown::Open, core) is Stays,
        dialog_step_for(Dialog::CredentialSets, Shown::Submit, core) is Stays,
        dialog_step_for(Dialog::Import, Shown::Open, core) is Stays,
        dialog_step_for(Dialog::Import, Shown::Cancel, core) == (DialogStep::Closes { reload: false }),
        dialog_step_for(Dialog::Import, Shown::Submit, core) == (DialogStep::Closes { reload: true }),
        forall|d: Dialog|
            #![trigger dialog_step_for(d, shown, core)]
            d == Dialog::Host || d == Dialog::Plink || d == Dialog::Folder || d == Dialog::Delete || d == Dialog::Forget || d
                == Dialog::CloseMixed || d == Dialog::Options || d == Dialog::Drop ==> dialog_step_for(d, shown, core) == (
            match shown {
                Shown::Open => DialogStep::Stays,
                Shown::Cancel => DialogStep::Closes { reload: true },
                Shown::Submit => DialogStep::Submits,
            }),
{
}

/// What other programs are told of a host.
pub proof fn law_hosts_published(folders: Seq<Folder>, h: Host, e: HostEntry)
    requires
        is_published(folders, h, e),
    ensures
        e.alias == h.alias && e.label == h.label && e.hostname == h.hostname && e.on_login == h.on_login,
        h.folder < folders.len() && folders[h.folder as int].name@.len() > 0 ==> e.folder@ == folders[h.folder as int].label@,
        h.folder >= folders.len() || folders[h.folder as int].name@.len() == 0 ==> e.folder@.len() == 0,
        h.folder < folders.len() ==> e.no_group_send == folders[h.folder as int].no_group_send,
        h.folder >= folders.len() ==> !e.no_group_send,
{
}

/// A target typed in the search becomes a host of that name.
pub proof fn law_a_host_from_a_target(t: quick::TargetView)
    ensures
        draft_for(t).label == t.host && draft_for(t).hostname == t.host && draft_for(t).user == t.user && draft_for(t).port
            == t.port,
        draft_for(t).proxy_jump is None && draft_for(t).identity_files.len() == 0 && draft_for(t).note is None && draft_for(
            t,
        ).on_login is None && draft_for(t).persistent is None && draft_for(t).tab_color is None && draft_for(t).color_scheme
            is None && draft_for(t).credential is None,
{
}

/// From how many hosts on an agent is asked about, and how soon after a drop
/// its place is known.
pub proof fn law_app_limits()
    ensures
        AGENT_NOTICE_MIN == 3,
        DROP_WITHIN == 2000,
{
}

} // verus!
