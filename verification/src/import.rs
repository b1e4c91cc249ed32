//! Importing from SecureCRT or PuTTY: the summary shown before anything is
//! written.

use vstd::prelude::*;

use crate::message;
use crate::message::Message;
use crate::message::MessageView;
use crate::order;
use crate::text;

verus! {

/// One line of the list under a line of the summary.
#[derive(Clone, Debug, PartialEq, Eq)]
pub struct Detail {
    pub text: String,
    /// Said behind the text and a colon.
    pub why: Option<Message>,
}

/// One line of the list under a line of the summary.
pub struct DetailView {
    pub text: Seq<char>,
    pub why: Option<MessageView>,
}

impl View for Detail {
    type V = DetailView;

    open spec fn view(&self) -> DetailView {
        DetailView {
            text: self.text@,
            why: match self.why {
                Some(m) => Some(m@),
                None => None,
            },
        }
    }
}

/// Texts as details.
pub open spec fn listed(paths: Seq<Seq<char>>) -> Seq<DetailView> {
    paths.map_values(|p: Seq<char>| DetailView { text: p, why: None })
}

/// One line of the summary; `details` list session paths.
#[derive(Clone, Debug, PartialEq, Eq)]
pub struct Line {
    pub text: Message,
    /// Messages that fill the text's `items`, with commas between them.
    pub items: Vec<Message>,
    pub warning: bool,
    pub details: Vec<Detail>,
}

/// One line of the summary.
pub struct LineView {
    pub text: MessageView,
    pub items: Seq<MessageView>,
    pub warning: bool,
    pub details: Seq<DetailView>,
}

impl View for Line {
    type V = LineView;

    open spec fn view(&self) -> LineView {
        LineView {
            text: self.text@,
            items: message::messages(self.items@),
            warning: self.warning,
            details: self.details@.map_values(|d: Detail| d@),
        }
    }
}

/// The lines of a list.
pub open spec fn lines(v: Seq<Line>) -> Seq<LineView> {
    v.map_values(|l: Line| l@)
}

/// A line without items.
pub open spec fn a_line(text: MessageView, warning: bool, details: Seq<DetailView>) -> LineView {
    LineView { text, items: Seq::empty(), warning, details }
}

/// A line with details.
pub fn line(text: Message, warning: bool, details: Vec<Detail>) -> (r: Line)
    ensures
        r@ == a_line(text@, warning, details@.map_values(|d: Detail| d@)),
{
    let r = Line { text, items: Vec::new(), warning, details };
    proof {
        assert(r@.items =~= Seq::empty());
    }
    r
}

fn plain(text: Message, warning: bool) -> (r: Line)
    ensures
        r@ == a_line(text@, warning, Seq::empty()),
{
    let details: Vec<Detail> = Vec::new();
    proof {
        assert(details@.map_values(|d: Detail| d@) =~= Seq::empty());
    }
    line(text, warning, details)
}

/// Where the sessions come from.
#[derive(Clone, Copy, Debug, PartialEq, Eq, Structural)]
pub enum Origin {
    SecureCrt,
    Putty,
}

/// Why a session is not imported.
#[derive(Clone, Debug, PartialEq, Eq)]
pub enum Skip {
    AlreadyImported,
    /// It is no SSH session.
    Protocol(String),
    NoHostname,
}

/// What was found.
#[derive(Clone, Debug, PartialEq, Eq)]
pub struct Scan {
    pub origin: Origin,
    pub sessions: usize,
    pub folders: usize,
    /// Files and why they could not be read.
    pub unreadable: Vec<(String, String)>,
    pub not_utf8: Vec<String>,
    pub host_keys: usize,
    /// Host keys that are not understood.
    pub not_understood: usize,
}

/// A folder that sessions go to.
#[derive(Clone, Debug, PartialEq, Eq)]
pub struct PlanFolder {
    pub label: String,
    /// It is there already.
    pub existing: bool,
    pub sessions: usize,
}

/// What to know about the sessions.
#[derive(Clone, Debug, PartialEq, Eq)]
pub struct Notes {
    /// Sessions that lead to the same place, in groups.
    pub duplicates: Vec<Vec<String>>,
    /// Firewalls by name, each with its sessions.
    pub named_firewalls: Vec<(String, Vec<String>)>,
    /// Sessions and the jump host that isn't known.
    pub unresolved_jumps: Vec<(String, String)>,
    pub logon_actions: Vec<String>,
    pub saved_passwords: usize,
    /// Sessions and their encoding.
    pub encodings: Vec<(String, String)>,
    pub bad_forwards: Vec<String>,
    pub forwards: usize,
    pub identity_files: usize,
    /// Sessions and their key in PuTTY's format.
    pub ppk_keys: Vec<(String, String)>,
    pub joined_descriptions: usize,
}

/// What an import would do.
#[derive(Clone, Debug, PartialEq, Eq)]
pub struct Plan {
    pub folders: Vec<PlanFolder>,
    pub hosts: usize,
    /// Sessions that are left out, and why.
    pub skipped: Vec<(String, Skip)>,
    pub notes: Notes,
}

/// A reason for leaving a session out: whether it is a warning, and what is
/// said.
pub open spec fn reason_for(why: Skip) -> (bool, MessageView) {
    match why {
        Skip::AlreadyImported => (false, message::said("skip-already"@)),
        Skip::Protocol(p) => (true, message::said("skip-protocol"@).text("protocol"@, p@)),
        Skip::NoHostname => (true, message::said("skip-no-hostname"@)),
    }
}

impl Skip {
    /// Whether the reason is a warning, and what is said.
    pub fn reason(&self) -> (r: (bool, Message))
        ensures
            (r.0, r.1@) == reason_for(*self),
    {
        match self {
            Skip::AlreadyImported => (false, Message::new("skip-already")),
            Skip::Protocol(p) => (true, Message::new("skip-protocol").text("protocol", p)),
            Skip::NoHostname => (true, Message::new("skip-no-hostname")),
        }
    }
}

/// Sessions that are left out for the same reason, as it is said.
pub struct Group {
    pub warning: bool,
    pub reason: String,
    pub paths: Vec<String>,
}

/// Sessions that are left out for the same reason.
pub struct GroupView {
    pub warning: bool,
    pub reason: Seq<char>,
    pub paths: Seq<Seq<char>>,
}

impl View for Group {
    type V = GroupView;

    open spec fn view(&self) -> GroupView {
        GroupView { warning: self.warning, reason: self.reason@, paths: text::texts(self.paths@) }
    }
}

/// The groups of a list.
pub open spec fn groups_of(v: Seq<Group>) -> Seq<GroupView> {
    v.map_values(|g: Group| g@)
}

/// A reason comes before another: what is no warning first, then by the
/// text.
pub open spec fn comes_before(warning_a: bool, a: Seq<char>, warning_b: bool, b: Seq<char>) -> bool {
    if warning_a == warning_b {
        order::text_lt(a, b)
    } else {
        !warning_a
    }
}

/// The groups with one more session.
pub open spec fn with_path(groups: Seq<GroupView>, warning: bool, reason: Seq<char>, path: Seq<char>) -> Seq<
    GroupView,
>
    decreases groups.len(),
{
    let new = GroupView { warning, reason, paths: seq![path] };
    if groups.len() == 0 {
        seq![new]
    } else {
        let g = groups.first();
        if g.warning == warning && g.reason == reason {
            seq![GroupView { paths: g.paths.push(path), ..g }] + groups.skip(1)
        } else if comes_before(warning, reason, g.warning, g.reason) {
            seq![new] + groups
        } else {
            seq![g] + with_path(groups.skip(1), warning, reason, path)
        }
    }
}

/// The sessions that are left out, by reason.
pub open spec fn grouped(skipped: Seq<(String, Skip)>, reasons: Seq<Seq<char>>) -> Seq<GroupView>
    decreases skipped.len(),
{
    if skipped.len() == 0 {
        Seq::empty()
    } else {
        with_path(
            grouped(skipped.drop_last(), reasons),
            reason_for(skipped.last().1).0,
            reasons[skipped.len() - 1],
            skipped.last().0@,
        )
    }
}

fn add_path(groups: &mut Vec<Group>, warning: bool, reason: &str, path: &str)
    ensures
        groups_of(final(groups)@) == with_path(groups_of(old(groups)@), warning, reason@, path@),
{
    let ghost all = groups_of(groups@);
    let ghost before = groups@;
    let wanted = text::chars_of(reason);
    let mut i: usize = 0;
    proof {
        assert(all.skip(0) =~= all);
        assert(all.take(0) + with_path(all.skip(0), warning, reason@, path@) =~= with_path(
            all,
            warning,
            reason@,
            path@,
        ));
    }
    while i < groups.len()
        invariant
            groups@ == before,
            all == groups_of(before),
            i <= groups@.len(),
            wanted@ == reason@,
            with_path(all, warning, reason@, path@) == all.take(i as int) + with_path(
                all.skip(i as int),
                warning,
                reason@,
                path@,
            ),
        ensures
            groups@ == before,
            i <= groups@.len(),
            with_path(all, warning, reason@, path@) == all.take(i as int) + with_path(
                all.skip(i as int),
                warning,
                reason@,
                path@,
            ),
            i < groups@.len() ==> {
                let g = all[i as int];
                ||| g.warning == warning && g.reason == reason@
                ||| comes_before(warning, reason@, g.warning, g.reason)
            },
        decreases groups@.len() - i,
    {
        proof {
            assert(all.skip(i as int).first() == before[i as int]@);
            assert(all.skip(i as int).skip(1) =~= all.skip(i + 1));
        }
        let g = &groups[i];
        let same = g.warning == warning && text::same(&g.reason, reason);
        let there = text::chars_of(&g.reason);
        let earlier = if warning == g.warning {
            order::is_before(&wanted, &there)
        } else {
            !warning
        };
        if same || earlier {
            break;
        }
        proof {
            assert(all.take(i as int) + (seq![all[i as int]] + with_path(all.skip(i + 1), warning, reason@, path@))
                =~= all.take(i + 1) + with_path(all.skip(i + 1), warning, reason@, path@));
        }
        i += 1;
    }
    let ghost at = i as int;
    if i < groups.len() && groups[i].warning == warning && text::same(&groups[i].reason, reason) {
        let owned = text::owned(path);
        let ghost g = before[at]@;
        groups[i].paths.push(owned);
        proof {
            assert(all.skip(at).first() == g);
            let now = groups@[at]@;
            assert(now.paths =~= g.paths.push(path@));
            assert(groups_of(groups@) =~= all.take(at) + (seq![GroupView { paths: g.paths.push(path@), ..g }]
                + all.skip(at).skip(1)));
        }
    } else {
        let mut paths: Vec<String> = Vec::new();
        paths.push(text::owned(path));
        let new = Group { warning, reason: text::owned(reason), paths };
        let ghost shown = new@;
        groups.insert(i, new);
        proof {
            assert(shown.paths =~= seq![path@]);
            if at < before.len() {
                assert(all.skip(at).first() == before[at]@);
            }
            assert(groups_of(groups@) =~= all.take(at) + (seq![shown] + all.skip(at)));
            if at >= before.len() {
                assert(all.skip(at) =~= Seq::empty());
                assert(seq![shown] + all.skip(at) =~= seq![shown]);
            }
        }
    }
}

fn group(skipped: &[(String, Skip)], reasons: &[String]) -> (r: Vec<Group>)
    requires
        reasons@.len() == skipped@.len(),
    ensures
        groups_of(r@) == grouped(skipped@, text::texts(reasons@)),
{
    let mut r: Vec<Group> = Vec::new();
    let mut i: usize = 0;
    proof {
        assert(skipped@.take(0) =~= Seq::empty());
        assert(groups_of(r@) =~= grouped(skipped@.take(0), text::texts(reasons@)));
    }
    while i < skipped.len()
        invariant
            i <= skipped@.len(),
            reasons@.len() == skipped@.len(),
            groups_of(r@) == grouped(skipped@.take(i as int), text::texts(reasons@)),
        decreases skipped@.len() - i,
    {
        proof {
            assert(skipped@.take(i + 1).drop_last() =~= skipped@.take(i as int));
            assert(skipped@.take(i + 1).last() == skipped@[i as int]);
            assert(text::texts(reasons@)[i as int] == reasons@[i as int]@);
        }
        let (warning, _) = skipped[i].1.reason();
        add_path(&mut r, warning, &reasons[i], &skipped[i].0);
        i += 1;
    }
    proof {
        assert(skipped@.take(i as int) =~= skipped@);
    }
    r
}

/// The groups are in order, no reason twice.
pub open spec fn in_order(groups: Seq<GroupView>) -> bool {
    forall|i: int, j: int|
        #![trigger groups[i], groups[j]]
        0 <= i < j < groups.len() ==> comes_before(
            groups[i].warning,
            groups[i].reason,
            groups[j].warning,
            groups[j].reason,
        )
}

/// How many sessions the groups hold.
pub open spec fn path_count(groups: Seq<GroupView>) -> nat
    decreases groups.len(),
{
    if groups.len() == 0 {
        0
    } else {
        groups.first().paths.len() + path_count(groups.skip(1))
    }
}

proof fn lemma_before(wa: bool, a: Seq<char>, wb: bool, b: Seq<char>, wc: bool, c: Seq<char>)
    ensures
        comes_before(wa, a, wb, b) && comes_before(wb, b, wc, c) ==> comes_before(wa, a, wc, c),
        (wa != wb || a != b) && !comes_before(wa, a, wb, b) ==> comes_before(wb, b, wa, a),
{
    order::lemma_lt_total(a, b);
    if wa == wb && wb == wc && order::text_lt(a, b) && order::text_lt(b, c) {
        order::lemma_lt_transitive(a, b, c);
    }
}

proof fn lemma_with_path(groups: Seq<GroupView>, warning: bool, reason: Seq<char>, path: Seq<char>)
    requires
        in_order(groups),
    ensures
        in_order(with_path(groups, warning, reason, path)),
        path_count(with_path(groups, warning, reason, path)) == path_count(groups) + 1,
        with_path(groups, warning, reason, path).len() > 0,
        forall|i: int|
            0 <= i < with_path(groups, warning, reason, path).len() ==> {
                let g = #[trigger] with_path(groups, warning, reason, path)[i];
                ||| g.warning == warning && g.reason == reason && g.paths.len() > 0 && g.paths.last() == path
                ||| groups.contains(g)
            },
    decreases groups.len(),
{
    let after = with_path(groups, warning, reason, path);
    let new = GroupView { warning, reason, paths: seq![path] };
    if groups.len() == 0 {
        assert(after.skip(1) =~= Seq::empty());
        assert(path_count(after.skip(1)) == 0);
    } else {
        let g = groups.first();
        let rest = groups.skip(1);
        assert forall|i: int, j: int|
            #![trigger rest[i], rest[j]]
            0 <= i < j < rest.len() implies comes_before(
            rest[i].warning,
            rest[i].reason,
            rest[j].warning,
            rest[j].reason,
        ) by {
            assert(rest[i] == groups[i + 1] && rest[j] == groups[j + 1]);
        }
        assert forall|i: int| 0 <= i < rest.len() implies comes_before(
            g.warning,
            g.reason,
            (#[trigger] rest[i]).warning,
            rest[i].reason,
        ) by {
            assert(rest[i] == groups[i + 1]);
            assert(groups[0] == g);
        }
        if g.warning == warning && g.reason == reason {
            assert(after.skip(1) =~= rest);
            assert forall|i: int, j: int|
                #![trigger after[i], after[j]]
                0 <= i < j < after.len() implies comes_before(
                after[i].warning,
                after[i].reason,
                after[j].warning,
                after[j].reason,
            ) by {
                assert(after[j] == rest[j - 1]);
                if i > 0 {
                    assert(after[i] == rest[i - 1]);
                }
            }
            assert forall|i: int| 0 < i < after.len() implies groups.contains(#[trigger] after[i]) by {
                assert(after[i] == groups[i]);
            }
        } else if comes_before(warning, reason, g.warning, g.reason) {
            assert(after.skip(1) =~= groups);
            assert forall|i: int, j: int|
                #![trigger after[i], after[j]]
                0 <= i < j < after.len() implies comes_before(
                after[i].warning,
                after[i].reason,
                after[j].warning,
                after[j].reason,
            ) by {
                assert(after[j] == groups[j - 1]);
                if i > 0 {
                    assert(after[i] == groups[i - 1]);
                } else {
                    if j - 1 > 0 {
                        assert(groups[0] == g);
                        lemma_before(
                            warning,
                            reason,
                            g.warning,
                            g.reason,
                            groups[j - 1].warning,
                            groups[j - 1].reason,
                        );
                    }
                }
            }
            assert forall|i: int| 0 < i < after.len() implies groups.contains(#[trigger] after[i]) by {
                assert(after[i] == groups[i - 1]);
            }
        } else {
            lemma_with_path(rest, warning, reason, path);
            let tail = with_path(rest, warning, reason, path);
            assert(after.skip(1) =~= tail);
            lemma_before(warning, reason, g.warning, g.reason, false, Seq::empty());
            assert forall|i: int, j: int|
                #![trigger after[i], after[j]]
                0 <= i < j < after.len() implies comes_before(
                after[i].warning,
                after[i].reason,
                after[j].warning,
                after[j].reason,
            ) by {
                assert(after[j] == tail[j - 1]);
                if i > 0 {
                    assert(after[i] == tail[i - 1]);
                } else if rest.contains(tail[j - 1]) {
                    let k = choose|k: int| 0 <= k < rest.len() && rest[k] == tail[j - 1];
                    assert(comes_before(g.warning, g.reason, rest[k].warning, rest[k].reason));
                }
            }
            assert forall|i: int| 0 <= i < after.len() implies ({
                let x = #[trigger] after[i];
                ||| x.warning == warning && x.reason == reason && x.paths.len() > 0 && x.paths.last() == path
                ||| groups.contains(x)
            }) by {
                if i == 0 {
                    assert(groups[0] == g);
                } else {
                    assert(after[i] == tail[i - 1]);
                    if rest.contains(tail[i - 1]) {
                        let k = choose|k: int| 0 <= k < rest.len() && rest[k] == tail[i - 1];
                        assert(groups[k + 1] == tail[i - 1]);
                    }
                }
            }
        }
    }
}

/// Every session that is left out is in the list once, under its reason; the
/// reasons are in order, no warning before one that is none.
pub proof fn law_skipped_sessions_are_listed_once(skipped: Seq<(String, Skip)>, reasons: Seq<Seq<char>>)
    requires
        reasons.len() >= skipped.len(),
    ensures
        in_order(grouped(skipped, reasons)),
        path_count(grouped(skipped, reasons)) == skipped.len(),
    decreases skipped.len(),
{
    if skipped.len() > 0 {
        law_skipped_sessions_are_listed_once(skipped.drop_last(), reasons);
        lemma_with_path(
            grouped(skipped.drop_last(), reasons),
            reason_for(skipped.last().1).0,
            reasons[skipped.len() - 1],
            skipped.last().0@,
        );
    }
}

/// A line for each reason.
pub open spec fn skipped_lines(groups: Seq<GroupView>) -> Seq<LineView> {
    groups.map_values(
        |g: GroupView|
            a_line(
                message::said("summary-skipped"@).text("reason"@, g.reason).number("count"@, g.paths.len() as int),
                g.warning,
                listed(g.paths),
            ),
    )
}

/// `key` with a count.
pub open spec fn counted(key: Seq<char>, count: int) -> MessageView {
    message::said(key).number("count"@, count)
}

/// A warning with a list, where the list has something.
pub open spec fn if_any(key: Seq<char>, paths: Seq<Seq<char>>) -> Seq<LineView> {
    if paths.len() == 0 {
        Seq::empty()
    } else {
        seq![a_line(counted(key, paths.len() as int), true, listed(paths))]
    }
}

/// Pairs, each as one text.
pub open spec fn paired(pairs: Seq<(String, String)>, between: Seq<char>, end: Seq<char>) -> Seq<Seq<char>> {
    pairs.map_values(|p: (String, String)| p.0@ + between + p.1@ + end)
}

/// Groups of sessions, each as one text.
pub open spec fn equal(groups: Seq<Vec<String>>) -> Seq<Seq<char>> {
    groups.map_values(|g: Vec<String>| text::joined_by(text::texts(g@), "  =  "@))
}

/// A warning for each firewall.
pub open spec fn firewall_lines(firewalls: Seq<(String, Vec<String>)>) -> Seq<LineView> {
    firewalls.map_values(
        |f: (String, Vec<String>)|
            a_line(
                message::said("summary-firewall"@).text("name"@, f.0@).number("count"@, f.1@.len() as int),
                true,
                listed(text::texts(f.1@)),
            ),
    )
}

/// A line where the count is not zero.
pub open spec fn if_count(key: Seq<char>, count: nat, warning: bool) -> Seq<LineView> {
    if count > 0 {
        seq![a_line(counted(key, count as int), warning, Seq::empty())]
    } else {
        Seq::empty()
    }
}

/// An item where the count is not zero.
pub open spec fn item(key: Seq<char>, count: nat) -> Seq<MessageView> {
    if count > 0 {
        seq![counted(key, count as int)]
    } else {
        Seq::empty()
    }
}

/// What is also kept.
pub open spec fn kept_items(n: Notes) -> Seq<MessageView> {
    item("summary-forwards"@, n.forwards as nat) + item("summary-keys"@, n.identity_files as nat) + item(
        "summary-descriptions"@,
        n.joined_descriptions as nat,
    )
}

/// The line on what is also kept.
pub open spec fn also(n: Notes) -> Seq<LineView> {
    if kept_items(n).len() == 0 {
        Seq::empty()
    } else {
        seq![
            LineView {
                text: message::said("summary-also"@),
                items: kept_items(n),
                warning: false,
                details: Seq::empty(),
            },
        ]
    }
}

/// Folders that sessions go to, in their order.
pub open spec fn used_folders(folders: Seq<PlanFolder>) -> Seq<PlanFolder> {
    folders.filter(|f: PlanFolder| f.sessions > 0)
}

/// How many of the folders that sessions go to are there already, or are
/// not.
pub open spec fn folder_count(folders: Seq<PlanFolder>, existing: bool) -> nat {
    folders.filter(|f: PlanFolder| f.existing == existing && f.sessions > 0).len()
}

/// A folder and how many sessions go there.
pub open spec fn folder_text(f: PlanFolder) -> Seq<char> {
    f.label@ + " ("@ + text::decimal(f.sessions as nat) + ")"@
}

/// The first line.
pub open spec fn found(scan: Scan, plan: Plan) -> LineView {
    a_line(
        message::said("summary-found"@).number("sessions"@, scan.sessions as int).number(
            "folders"@,
            scan.folders as int,
        ).number("hosts"@, plan.hosts as int).number("new"@, folder_count(plan.folders@, false) as int).number(
            "existing"@,
            folder_count(plan.folders@, true) as int,
        ),
        false,
        listed(used_folders(plan.folders@).map_values(|f: PlanFolder| folder_text(f))),
    )
}

/// The key for host keys that are not understood.
pub open spec fn unknown_keys(origin: Origin) -> Seq<char> {
    match origin {
        Origin::SecureCrt => "summary-host-keys-unknown"@,
        Origin::Putty => "summary-putty-host-keys-skipped"@,
    }
}

/// What an import would do, in words.
pub open spec fn summed_up(scan: Scan, plan: Plan, reasons: Seq<Seq<char>>) -> Seq<LineView> {
    let n = plan.notes;
    seq![found(scan, plan)] + skipped_lines(grouped(plan.skipped@, reasons)) + if_any(
        "summary-duplicates"@,
        equal(n.duplicates@),
    ) + firewall_lines(n.named_firewalls@) + if_any(
        "summary-unresolved-jumps"@,
        paired(n.unresolved_jumps@, "  →  "@, ""@),
    ) + if_any("summary-logon-actions"@, text::texts(n.logon_actions@)) + if_count(
        "summary-saved-passwords"@,
        n.saved_passwords as nat,
        true,
    ) + if_any("summary-encodings"@, paired(n.encodings@, "  ("@, ")"@)) + if_any(
        "summary-bad-forwards"@,
        text::texts(n.bad_forwards@),
    ) + if_any("summary-ppk"@, paired(n.ppk_keys@, "  ("@, ")"@)) + also(n) + if_any(
        "summary-unreadable"@,
        paired(scan.unreadable@, ": "@, ""@),
    ) + if_any("summary-not-utf8"@, text::texts(scan.not_utf8@)) + if_count(
        "summary-host-keys"@,
        scan.host_keys as nat,
        false,
    ) + if_count(unknown_keys(scan.origin), scan.not_understood as nat, true) + (if scan.origin is SecureCrt {
        seq![a_line(message::said("summary-not-yet"@), false, Seq::empty())]
    } else {
        Seq::empty()
    })
}

fn to_details(paths: &[String]) -> (r: Vec<Detail>)
    ensures
        r@.map_values(|d: Detail| d@) == listed(text::texts(paths@)),
{
    let mut r: Vec<Detail> = Vec::new();
    let mut i: usize = 0;
    while i < paths.len()
        invariant
            i <= paths@.len(),
            r@.len() == i,
            forall|j: int| 0 <= j < i ==> (#[trigger] r@[j])@ == (DetailView { text: paths@[j]@, why: None }),
        decreases paths@.len() - i,
    {
        r.push(Detail { text: paths[i].clone(), why: None });
        i += 1;
    }
    proof {
        assert(r@.map_values(|d: Detail| d@) =~= listed(text::texts(paths@)));
    }
    r
}

fn add_line(out: &mut Vec<Line>, line: Line)
    ensures
        lines(final(out)@) == lines(old(out)@).push(line@),
{
    let ghost before = lines(out@);
    out.push(line);
    proof {
        assert(lines(out@) =~= before.push(line@));
    }
}

fn add_if_any(out: &mut Vec<Line>, key: &'static str, paths: &[String])
    ensures
        lines(final(out)@) == lines(old(out)@) + if_any(key@, text::texts(paths@)),
{
    let ghost before = lines(out@);
    if paths.len() > 0 {
        let l = line(Message::new(key).number("count", paths.len() as i128), true, to_details(paths));
        add_line(out, l);
    }
    proof {
        assert(text::texts(paths@).len() == paths@.len());
        assert(lines(out@) =~= before + if_any(key@, text::texts(paths@)));
    }
}

fn pair_up(pairs: &[(String, String)], between: &str, end: &str) -> (r: Vec<String>)
    ensures
        text::texts(r@) == paired(pairs@, between@, end@),
{
    let mut r: Vec<String> = Vec::new();
    let mut i: usize = 0;
    while i < pairs.len()
        invariant
            i <= pairs@.len(),
            r@.len() == i,
            forall|j: int|
                0 <= j < i ==> (#[trigger] r@[j])@ == pairs@[j].0@ + between@ + pairs@[j].1@ + end@,
        decreases pairs@.len() - i,
    {
        let t = text::plus(&pairs[i].0, between);
        let t = text::plus(&t, &pairs[i].1);
        r.push(text::plus(&t, end));
        i += 1;
    }
    proof {
        assert(text::texts(r@) =~= paired(pairs@, between@, end@));
    }
    r
}

fn equate(groups: &[Vec<String>]) -> (r: Vec<String>)
    ensures
        text::texts(r@) == equal(groups@),
{
    let mut r: Vec<String> = Vec::new();
    let mut i: usize = 0;
    while i < groups.len()
        invariant
            i <= groups@.len(),
            r@.len() == i,
            forall|j: int|
                0 <= j < i ==> (#[trigger] r@[j])@ == text::joined_by(text::texts(groups@[j]@), "  =  "@),
        decreases groups@.len() - i,
    {
        r.push(text::join_by(&groups[i], "  =  "));
        i += 1;
    }
    proof {
        assert(text::texts(r@) =~= equal(groups@));
    }
    r
}

fn add_firewalls(out: &mut Vec<Line>, firewalls: &[(String, Vec<String>)])
    ensures
        lines(final(out)@) == lines(old(out)@) + firewall_lines(firewalls@),
{
    let ghost before = lines(out@);
    let ghost all = firewall_lines(firewalls@);
    let mut i: usize = 0;
    proof {
        assert(lines(out@) =~= before + all.take(0));
    }
    while i < firewalls.len()
        invariant
            i <= firewalls@.len(),
            all == firewall_lines(firewalls@),
            lines(out@) == before + all.take(i as int),
        decreases firewalls@.len() - i,
    {
        let f = &firewalls[i];
        let said = Message::new("summary-firewall").text("name", &f.0).number("count", f.1.len() as i128);
        let l = line(said, true, to_details(&f.1));
        add_line(out, l);
        proof {
            assert(all[i as int] == l@);
            assert(all.take(i + 1) =~= all.take(i as int).push(l@));
            assert(lines(out@) =~= before + all.take(i + 1));
        }
        i += 1;
    }
    proof {
        assert(all.take(i as int) =~= all);
    }
}

fn add_skipped(out: &mut Vec<Line>, groups: &[Group])
    ensures
        lines(final(out)@) == lines(old(out)@) + skipped_lines(groups_of(groups@)),
{
    let ghost before = lines(out@);
    let ghost all = skipped_lines(groups_of(groups@));
    let mut i: usize = 0;
    proof {
        assert(lines(out@) =~= before + all.take(0));
    }
    while i < groups.len()
        invariant
            i <= groups@.len(),
            all == skipped_lines(groups_of(groups@)),
            lines(out@) == before + all.take(i as int),
        decreases groups@.len() - i,
    {
        let g = &groups[i];
        let said = Message::new("summary-skipped").text("reason", &g.reason).number("count", g.paths.len() as i128);
        let l = line(said, g.warning, to_details(&g.paths));
        add_line(out, l);
        proof {
            assert(groups_of(groups@)[i as int] == g@);
            assert(g@.paths.len() == g.paths@.len());
            assert(all[i as int] == l@);
            assert(all.take(i + 1) =~= all.take(i as int).push(l@));
            assert(lines(out@) =~= before + all.take(i + 1));
        }
        i += 1;
    }
    proof {
        assert(all.take(i as int) =~= all);
    }
}

fn add_if_count(out: &mut Vec<Line>, key: &'static str, count: usize, warning: bool)
    ensures
        lines(final(out)@) == lines(old(out)@) + if_count(key@, count as nat, warning),
{
    let ghost before = lines(out@);
    if count > 0 {
        add_line(out, plain(Message::new(key).number("count", count as i128), warning));
    }
    proof {
        assert(lines(out@) =~= before + if_count(key@, count as nat, warning));
    }
}

fn add_item(items: &mut Vec<Message>, key: &'static str, count: usize)
    ensures
        message::messages(final(items)@) == message::messages(old(items)@) + item(key@, count as nat),
{
    let ghost before = message::messages(items@);
    if count > 0 {
        items.push(Message::new(key).number("count", count as i128));
    }
    proof {
        assert(message::messages(items@) =~= before + item(key@, count as nat));
    }
}

fn folder_lists(folders: &[PlanFolder]) -> (r: (usize, usize, Vec<String>))
    ensures
        r.0 == folder_count(folders@, false),
        r.1 == folder_count(folders@, true),
        text::texts(r.2@) == used_folders(folders@).map_values(|f: PlanFolder| folder_text(f)),
{
    let mut new: usize = 0;
    let mut there: usize = 0;
    let mut texts: Vec<String> = Vec::new();
    let ghost shown = |f: PlanFolder| folder_text(f);
    let mut i: usize = 0;
    proof {
        reveal(Seq::filter);
        assert(folders@.take(0) =~= Seq::empty());
        assert(text::texts(texts@) =~= used_folders(folders@.take(0)).map_values(shown));
    }
    while i < folders.len()
        invariant
            i <= folders@.len(),
            new <= i,
            there <= i,
            shown == (|f: PlanFolder| folder_text(f)),
            new == folder_count(folders@.take(i as int), false),
            there == folder_count(folders@.take(i as int), true),
            text::texts(texts@) == used_folders(folders@.take(i as int)).map_values(shown),
        decreases folders@.len() - i,
    {
        let f = &folders[i];
        proof {
            reveal(Seq::filter);
            assert(folders@.take(i + 1).drop_last() =~= folders@.take(i as int));
            assert(folders@.take(i + 1).last() == *f);
        }
        if f.sessions > 0 {
            if f.existing {
                there += 1;
            } else {
                new += 1;
            }
            let t = text::plus(&f.label, " (");
            let n = text::string_of(&text::decimal_chars(f.sessions as u128));
            let t = text::plus(&t, &n);
            let t = text::plus(&t, ")");
            let ghost before = texts@;
            texts.push(t);
            proof {
                assert(text::texts(texts@) =~= text::texts(before).push(folder_text(*f)));
                let was = used_folders(folders@.take(i as int));
                assert(used_folders(folders@.take(i + 1)) == was.push(*f));
                assert(was.push(*f).map_values(shown) =~= was.map_values(shown).push(folder_text(*f)));
            }
        }
        i += 1;
    }
    proof {
        assert(folders@.take(i as int) =~= folders@);
    }
    (new, there, texts)
}

/// What an import of `plan` would do, in words. `reasons` holds what is said
/// of each session left out (`Skip::reason`), in the language of the window:
/// those reasons are listed by it.
pub fn summary(scan: &Scan, plan: &Plan, reasons: &[String]) -> (r: Vec<Line>)
    requires
        reasons@.len() == plan.skipped@.len(),
    ensures
        lines(r@) == summed_up(*scan, *plan, text::texts(reasons@)),
{
    let mut out: Vec<Line> = Vec::new();
    let (new, existing, texts) = folder_lists(&plan.folders);
    let said = Message::new("summary-found").number("sessions", scan.sessions as i128).number(
        "folders",
        scan.folders as i128,
    ).number("hosts", plan.hosts as i128).number("new", new as i128).number("existing", existing as i128);
    let first = line(said, false, to_details(&texts));
    add_line(&mut out, first);
    proof {
        assert(lines(out@) =~= seq![found(*scan, *plan)]);
    }
    let groups = group(&plan.skipped, reasons);
    add_skipped(&mut out, &groups);
    let n = &plan.notes;
    let duplicates = equate(&n.duplicates);
    add_if_any(&mut out, "summary-duplicates", &duplicates);
    add_firewalls(&mut out, &n.named_firewalls);
    let jumps = pair_up(&n.unresolved_jumps, "  →  ", "");
    add_if_any(&mut out, "summary-unresolved-jumps", &jumps);
    add_if_any(&mut out, "summary-logon-actions", &n.logon_actions);
    add_if_count(&mut out, "summary-saved-passwords", n.saved_passwords, true);
    let encodings = pair_up(&n.encodings, "  (", ")");
    add_if_any(&mut out, "summary-encodings", &encodings);
    add_if_any(&mut out, "summary-bad-forwards", &n.bad_forwards);
    let ppk = pair_up(&n.ppk_keys, "  (", ")");
    add_if_any(&mut out, "summary-ppk", &ppk);
    let mut items: Vec<Message> = Vec::new();
    proof {
        assert(message::messages(items@) =~= Seq::empty());
    }
    add_item(&mut items, "summary-forwards", n.forwards);
    add_item(&mut items, "summary-keys", n.identity_files);
    add_item(&mut items, "summary-descriptions", n.joined_descriptions);
    proof {
        assert(message::messages(items@) =~= kept_items(*n));
        assert(items@.len() == kept_items(*n).len());
    }
    let ghost before = lines(out@);
    if items.len() > 0 {
        let l = Line { text: Message::new("summary-also"), items, warning: false, details: Vec::new() };
        proof {
            assert(l@.details =~= Seq::empty());
        }
        add_line(&mut out, l);
    }
    proof {
        assert(lines(out@) =~= before + also(*n));
    }
    let unreadable = pair_up(&scan.unreadable, ": ", "");
    add_if_any(&mut out, "summary-unreadable", &unreadable);
    add_if_any(&mut out, "summary-not-utf8", &scan.not_utf8);
    add_if_count(&mut out, "summary-host-keys", scan.host_keys, false);
    match scan.origin {
        Origin::SecureCrt => add_if_count(&mut out, "summary-host-keys-unknown", scan.not_understood, true),
        Origin::Putty => add_if_count(&mut out, "summary-putty-host-keys-skipped", scan.not_understood, true),
    }
    let ghost before = lines(out@);
    if scan.origin == Origin::SecureCrt {
        add_line(&mut out, plain(Message::new("summary-not-yet"), false));
        proof {
            assert(lines(out@) =~= before + seq![a_line(message::said("summary-not-yet"@), false, Seq::empty())]);
        }
    } else {
        proof {
            assert(lines(out@) =~= before + Seq::empty());
        }
    }
    out
}

/// SecureCRT's configuration folder: the one given for this run, else the
/// registered one if it holds sessions.
pub fn securecrt_config_path(given: Option<String>, registered: Option<String>, has_sessions: bool) -> (r: Option<
    String,
>)
    ensures
        text::optional(r) == (match given {
            Some(dir) if dir@.len() > 0 => Some(dir@),
            _ => if has_sessions {
                text::optional(registered)
            } else {
                None
            },
        }),
{
    if let Some(dir) = given {
        if !dir.as_str().is_empty() {
            return Some(dir);
        }
    }
    if has_sessions {
        registered
    } else {
        None
    }
}

/// Why a session is left out, and whether that is worth a warning.
pub proof fn law_reasons(protocol: String)
    ensures
        !reason_for(Skip::AlreadyImported).0 && reason_for(Skip::AlreadyImported).1 == message::said("skip-already"@),
        reason_for(Skip::NoHostname).0 && reason_for(Skip::NoHostname).1 == message::said("skip-no-hostname"@),
        reason_for(Skip::Protocol(protocol)).0 && reason_for(Skip::Protocol(protocol)).1 == message::said("skip-protocol"@).text(
            "protocol"@,
            protocol@,
        ),
{
}

/// What is left out is listed by its reason: in the group with the same
/// reason, or in a new one; what is no warning comes first, then by words.
pub proof fn law_groups(groups: Seq<GroupView>, g: GroupView, warning: bool, reason: Seq<char>, path: Seq<char>)
    ensures
        with_path(Seq::empty(), warning, reason, path) == seq![GroupView { warning, reason, paths: seq![path] }],
        g.warning == warning && g.reason == reason ==> with_path(seq![g] + groups, warning, reason, path) == seq![
            GroupView { paths: g.paths.push(path), ..g },
        ] + groups,
        !(g.warning == warning && g.reason == reason) && comes_before(warning, reason, g.warning, g.reason) ==> with_path(
            seq![g] + groups,
            warning,
            reason,
            path,
        ) == seq![GroupView { warning, reason, paths: seq![path] }, g] + groups,
        !(g.warning == warning && g.reason == reason) && !comes_before(warning, reason, g.warning, g.reason) ==> with_path(
            seq![g] + groups,
            warning,
            reason,
            path,
        ) == seq![g] + with_path(groups, warning, reason, path),
        comes_before(false, reason, true, path) && !comes_before(true, reason, false, path),
        comes_before(warning, reason, warning, path) <==> order::text_lt(reason, path),
{
    let all = seq![g] + groups;
    assert(all.skip(1) =~= groups);
    assert(all.first() == g);
    let new = GroupView { warning, reason, paths: seq![path] };
    assert(seq![new] + all =~= seq![new, g] + groups);
}

/// Sessions are grouped one after the other, each by its own reason.
pub proof fn law_grouped_one_by_one(skipped: Seq<(String, Skip)>, s: (String, Skip), reasons: Seq<Seq<char>>)
    requires
        skipped.len() < reasons.len(),
    ensures
        grouped(Seq::empty(), reasons) == Seq::<GroupView>::empty(),
        grouped(skipped.push(s), reasons) == with_path(
            grouped(skipped, reasons),
            reason_for(s.1).0,
            reasons[skipped.len() as int],
            s.0@,
        ),
{
    assert(skipped.push(s).drop_last() =~= skipped);
}

/// Something is said only where there is something to say: with how many
/// there are and which; warnings are marked as such.
pub proof fn law_summary_lines(key: Seq<char>, paths: Seq<Seq<char>>, count: nat, warning: bool, pair: (String, String), between: Seq<char>, end: Seq<char>)
    ensures
        paths.len() == 0 ==> if_any(key, paths).len() == 0,
        paths.len() > 0 ==> if_any(key, paths).len() == 1 && if_any(key, paths)[0].warning && if_any(key, paths)[0].text
            == message::said(key).number("count"@, paths.len() as int) && if_any(key, paths)[0].details.len() == paths.len()
            && forall|i: int| 0 <= i < paths.len() ==> (#[trigger] if_any(key, paths)[0].details[i]).text == paths[i],
        if_count(key, 0, warning).len() == 0 && item(key, 0).len() == 0,
        count > 0 ==> if_count(key, count, warning).len() == 1 && if_count(key, count, warning)[0].warning == warning && if_count(
            key,
            count,
            warning,
        )[0].text == message::said(key).number("count"@, count as int),
        count > 0 ==> item(key, count) == seq![message::said(key).number("count"@, count as int)],
        paired(seq![pair], between, end) == seq![pair.0@ + between + pair.1@ + end],
{
    assert(paired(seq![pair], between, end) =~= seq![pair.0@ + between + pair.1@ + end]);
}

/// Folders count where sessions go into them, the new ones and those there
/// are already by themselves, with how many go in.
pub proof fn law_folders_used(folders: Seq<PlanFolder>, f: PlanFolder, existing: bool)
    ensures
        used_folders(Seq::empty()) == Seq::<PlanFolder>::empty() && folder_count(Seq::empty(), existing) == 0,
        f.sessions > 0 ==> used_folders(folders.push(f)) == used_folders(folders).push(f),
        f.sessions == 0 ==> used_folders(folders.push(f)) == used_folders(folders) && folder_count(folders.push(f), existing)
            == folder_count(folders, existing),
        f.sessions > 0 && f.existing == existing ==> folder_count(folders.push(f), existing) == folder_count(folders, existing) + 1,
        f.sessions > 0 && f.existing != existing ==> folder_count(folders.push(f), existing) == folder_count(folders, existing),
        folder_text(f) == f.label@ + " ("@ + text::decimal(f.sessions as nat) + ")"@,
{
    reveal(Seq::filter);
    assert(folders.push(f).drop_last() =~= folders);
    assert(used_folders(Seq::empty()) =~= Seq::<PlanFolder>::empty());
}

/// A summary begins with what was found and holds a line for everything
/// that was left out or can't be kept.
pub proof fn law_summary(scan: Scan, plan: Plan, reasons: Seq<Seq<char>>)
    ensures
        summed_up(scan, plan, reasons)[0] == found(scan, plan),
        found(scan, plan).text == message::said("summary-found"@).number("sessions"@, scan.sessions as int).number(
            "folders"@,
            scan.folders as int,
        ).number("hosts"@, plan.hosts as int).number("new"@, folder_count(plan.folders@, false) as int).number(
            "existing"@,
            folder_count(plan.folders@, true) as int,
        ),
        summed_up(scan, plan, reasons).len() == 1 + grouped(plan.skipped@, reasons).len() + (if plan.notes.duplicates@.len() > 0 {
            1int
        } else {
            0
        }) + plan.notes.named_firewalls@.len() + (if plan.notes.unresolved_jumps@.len() > 0 {
            1int
        } else {
            0
        }) + (if plan.notes.logon_actions@.len() > 0 {
            1int
        } else {
            0
        }) + (if plan.notes.saved_passwords > 0 {
            1int
        } else {
            0
        }) + (if plan.notes.encodings@.len() > 0 {
            1int
        } else {
            0
        }) + (if plan.notes.bad_forwards@.len() > 0 {
            1int
        } else {
            0
        }) + (if plan.notes.ppk_keys@.len() > 0 {
            1int
        } else {
            0
        }) + (if plan.notes.forwards > 0 || plan.notes.identity_files > 0 || plan.notes.joined_descriptions > 0 {
            1int
        } else {
            0
        }) + (if scan.unreadable@.len() > 0 {
            1int
        } else {
            0
        }) + (if scan.not_utf8@.len() > 0 {
            1int
        } else {
            0
        }) + (if scan.host_keys > 0 {
            1int
        } else {
            0
        }) + (if scan.not_understood > 0 {
            1int
        } else {
            0
        }) + (if scan.origin is SecureCrt {
            1int
        } else {
            0
        }),
{
}

/// What the lines of a summary say: each reason with what was skipped for
/// it, each firewall with the sessions behind it, what was kept, and the
/// sessions that are the same.
pub proof fn law_what_summary_lines_say(
    groups: Seq<GroupView>,
    firewalls: Seq<(String, Vec<String>)>,
    same: Seq<Vec<String>>,
    n: Notes,
    i: int,
)
    ensures
        skipped_lines(groups).len() == groups.len(),
        0 <= i < groups.len() ==> ({
            let l = skipped_lines(groups)[i];
            &&& l.text == message::said("summary-skipped"@).text("reason"@, groups[i].reason).number(
                "count"@,
                groups[i].paths.len() as int,
            )
            &&& l.warning == groups[i].warning && l.items.len() == 0 && l.details.len() == groups[i].paths.len()
            &&& forall|k: int|
                0 <= k < groups[i].paths.len() ==> (#[trigger] l.details[k]).text == groups[i].paths[k] && l.details[k].why
                    is None
        }),
        firewall_lines(firewalls).len() == firewalls.len(),
        0 <= i < firewalls.len() ==> ({
            let l = firewall_lines(firewalls)[i];
            &&& l.text == message::said("summary-firewall"@).text("name"@, firewalls[i].0@).number(
                "count"@,
                firewalls[i].1@.len() as int,
            )
            &&& l.warning && l.items.len() == 0 && l.details.len() == firewalls[i].1@.len()
            &&& forall|k: int|
                0 <= k < firewalls[i].1@.len() ==> (#[trigger] l.details[k]).text == firewalls[i].1@[k]@ && l.details[k].why
                    is None
        }),
        equal(same).len() == same.len(),
        0 <= i < same.len() ==> equal(same)[i] == text::joined_by(text::texts(same[i]@), "  =  "@),
        kept_items(n).len() == (if n.forwards > 0 {
            1int
        } else {
            0
        }) + (if n.identity_files > 0 {
            1int
        } else {
            0
        }) + (if n.joined_descriptions > 0 {
            1int
        } else {
            0
        }),
        n.forwards > 0 ==> kept_items(n)[0] == message::said("summary-forwards"@).number("count"@, n.forwards as int),
        n.forwards == 0 && n.identity_files > 0 ==> kept_items(n)[0] == message::said("summary-keys"@).number(
            "count"@,
            n.identity_files as int,
        ),
        n.forwards > 0 && n.identity_files > 0 ==> kept_items(n)[1] == message::said("summary-keys"@).number(
            "count"@,
            n.identity_files as int,
        ),
        n.joined_descriptions > 0 ==> kept_items(n).last() == message::said("summary-descriptions"@).number(
            "count"@,
            n.joined_descriptions as int,
        ),
        kept_items(n).len() > 0 ==> also(n).len() == 1 && also(n)[0].text == message::said("summary-also"@) && also(n)[0].items
            == kept_items(n) && !also(n)[0].warning && also(n)[0].details.len() == 0,
        kept_items(n).len() == 0 ==> also(n).len() == 0,
        unknown_keys(Origin::SecureCrt) == "summary-host-keys-unknown"@,
        unknown_keys(Origin::Putty) == "summary-putty-host-keys-skipped"@,
{
}

/// A summary tells every note that there is one of, with how many.
pub proof fn law_a_summary_tells_every_note(scan: Scan, plan: Plan, reasons: Seq<Seq<char>>)
    ensures
        ({
            let all = summed_up(scan, plan, reasons);
            let n = plan.notes;
            let told = |key: Seq<char>, count: int| message::said(key).number("count"@, count);
            let has = |m: MessageView, warning: bool|
                exists|i: int| 0 <= i < all.len() && (#[trigger] all[i]).text == m && all[i].warning == warning;
            &&& n.duplicates@.len() > 0 ==> has(told("summary-duplicates"@, n.duplicates@.len() as int), true)
            &&& n.unresolved_jumps@.len() > 0 ==> has(
                told("summary-unresolved-jumps"@, n.unresolved_jumps@.len() as int),
                true,
            )
            &&& n.logon_actions@.len() > 0 ==> has(told("summary-logon-actions"@, n.logon_actions@.len() as int), true)
            &&& n.saved_passwords > 0 ==> has(told("summary-saved-passwords"@, n.saved_passwords as int), true)
            &&& n.encodings@.len() > 0 ==> has(told("summary-encodings"@, n.encodings@.len() as int), true)
            &&& n.bad_forwards@.len() > 0 ==> has(told("summary-bad-forwards"@, n.bad_forwards@.len() as int), true)
            &&& n.ppk_keys@.len() > 0 ==> has(told("summary-ppk"@, n.ppk_keys@.len() as int), true)
            &&& scan.unreadable@.len() > 0 ==> has(told("summary-unreadable"@, scan.unreadable@.len() as int), true)
            &&& scan.not_utf8@.len() > 0 ==> has(told("summary-not-utf8"@, scan.not_utf8@.len() as int), true)
            &&& scan.host_keys > 0 ==> has(told("summary-host-keys"@, scan.host_keys as int), false)
            &&& scan.not_understood > 0 ==> has(told(unknown_keys(scan.origin), scan.not_understood as int), true)
            &&& scan.origin is SecureCrt ==> has(message::said("summary-not-yet"@), false)
        }),
{
    let n = plan.notes;
    let all = summed_up(scan, plan, reasons);
    let p0 = seq![found(scan, plan)];
    let p1 = p0 + skipped_lines(grouped(plan.skipped@, reasons));
    let p2 = p1 + if_any("summary-duplicates"@, equal(n.duplicates@));
    let p3 = p2 + firewall_lines(n.named_firewalls@);
    let p4 = p3 + if_any("summary-unresolved-jumps"@, paired(n.unresolved_jumps@, "  →  "@, ""@));
    let p5 = p4 + if_any("summary-logon-actions"@, text::texts(n.logon_actions@));
    let p6 = p5 + if_count("summary-saved-passwords"@, n.saved_passwords as nat, true);
    let p7 = p6 + if_any("summary-encodings"@, paired(n.encodings@, "  ("@, ")"@));
    let p8 = p7 + if_any("summary-bad-forwards"@, text::texts(n.bad_forwards@));
    let p9 = p8 + if_any("summary-ppk"@, paired(n.ppk_keys@, "  ("@, ")"@));
    let p10 = p9 + also(n);
    let p11 = p10 + if_any("summary-unreadable"@, paired(scan.unreadable@, ": "@, ""@));
    let p12 = p11 + if_any("summary-not-utf8"@, text::texts(scan.not_utf8@));
    let p13 = p12 + if_count("summary-host-keys"@, scan.host_keys as nat, false);
    let p14 = p13 + if_count(unknown_keys(scan.origin), scan.not_understood as nat, true);
    if n.duplicates@.len() > 0 {
        assert(all[p1.len() as int].text == if_any("summary-duplicates"@, equal(n.duplicates@))[0].text);
    }
    if n.unresolved_jumps@.len() > 0 {
        assert(all[p3.len() as int].warning);
    }
    if n.logon_actions@.len() > 0 {
        assert(all[p4.len() as int].warning);
    }
    if n.saved_passwords > 0 {
        assert(all[p5.len() as int].warning);
    }
    if n.encodings@.len() > 0 {
        assert(all[p6.len() as int].warning);
    }
    if n.bad_forwards@.len() > 0 {
        assert(all[p7.len() as int].warning);
    }
    if n.ppk_keys@.len() > 0 {
        assert(all[p8.len() as int].warning);
    }
    if scan.unreadable@.len() > 0 {
        assert(all[p10.len() as int].warning);
    }
    if scan.not_utf8@.len() > 0 {
        assert(all[p11.len() as int].warning);
    }
    if scan.host_keys > 0 {
        assert(!all[p12.len() as int].warning);
    }
    if scan.not_understood > 0 {
        assert(all[p13.len() as int].warning);
    }
    if scan.origin is SecureCrt {
        assert(!all[p14.len() as int].warning);
    }
}

} // verus!
