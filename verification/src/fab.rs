//! The floating button, shown while the docked main window is hidden. Its
//! panel has quick connect and host search, the active session's reconnect
//! and clone, a command line for it, the tab list, and closing ended
//! sessions.

use vstd::prelude::*;

use crate::fuzzy;
use crate::order;
use crate::quick;
use crate::quick::QuickTarget;
use crate::sessions::HostRequest;
use crate::text;

verus! {

/// A saved host, as the search shows it.
#[derive(Clone, Debug, PartialEq, Eq)]
pub struct HostEntry {
    pub alias: String,
    pub label: String,
    pub hostname: String,
    /// The folder's name; empty for the main config.
    pub folder: String,
    pub on_login: Option<String>,
    /// The folder is marked "No group send".
    pub no_group_send: bool,
}

/// Hosts shown in the panel at most.
pub const SHOWN: usize = 6;

impl HostEntry {
    /// The same entry.
    pub fn copy(&self) -> (r: HostEntry)
        ensures
            r == *self,
    {
        HostEntry {
            alias: self.alias.clone(),
            label: self.label.clone(),
            hostname: self.hostname.clone(),
            folder: self.folder.clone(),
            on_login: text::optional_copy(&self.on_login),
            no_group_send: self.no_group_send,
        }
    }

    /// What opens the host.
    pub fn request(&self) -> (r: HostRequest)
        ensures
            r == (HostRequest {
                alias: self.alias,
                label: self.label,
                no_forwards: false,
                on_login: self.on_login,
            }),
    {
        HostRequest {
            alias: self.alias.clone(),
            label: self.label.clone(),
            no_forwards: false,
            on_login: text::optional_copy(&self.on_login),
        }
    }

    /// The entry's text in the panel: the label, and the folder if there
    /// is one.
    pub open spec fn shown_text(self) -> Seq<char> {
        if self.folder@.len() == 0 {
            self.label@
        } else {
            self.label@ + "   · "@ + self.folder@
        }
    }

    /// The entry's text in the panel.
    pub fn text(&self) -> (r: String)
        ensures
            r@ == self.shown_text(),
    {
        let folder = text::chars_of(&self.folder);
        if folder.len() == 0 {
            return self.label.clone();
        }
        let mut r = text::chars_of(&self.label);
        let dot = text::chars_of("   · ");
        text::append(&mut r, &dot);
        text::append(&mut r, &folder);
        text::string_of(&r)
    }
}

/// The aliases of the hosts marked "No group send", in order.
pub open spec fn left_out(hosts: Seq<HostEntry>) -> Seq<Seq<char>>
    decreases hosts.len(),
{
    if hosts.len() == 0 {
        Seq::empty()
    } else {
        let before = left_out(hosts.drop_last());
        if hosts.last().no_group_send {
            before.push(hosts.last().alias@)
        } else {
            before
        }
    }
}

/// Hosts whose folder is marked "No group send" (the button leaves out the
/// same ones the sidebar does).
pub fn no_group_send(hosts: &[HostEntry]) -> (r: Vec<String>)
    ensures
        text::texts(r@) == left_out(hosts@),
{
    let mut r: Vec<String> = Vec::new();
    let mut i: usize = 0;
    proof {
        assert(hosts@.take(0) =~= Seq::empty());
        assert(text::texts(r@) =~= Seq::empty());
    }
    while i < hosts.len()
        invariant
            i <= hosts@.len(),
            text::texts(r@) == left_out(hosts@.take(i as int)),
        decreases hosts@.len() - i,
    {
        let ghost was = text::texts(r@);
        proof {
            assert(hosts@.take(i + 1).drop_last() =~= hosts@.take(i as int));
            assert(hosts@.take(i + 1).last() == hosts@[i as int]);
        }
        if hosts[i].no_group_send {
            r.push(hosts[i].alias.clone());
            proof {
                assert(text::texts(r@) =~= was.push(hosts@[i as int].alias@));
            }
        }
        i += 1;
    }
    proof {
        assert(hosts@.take(i as int) =~= hosts@);
    }
    r
}

/// What opens a host typed by hand.
pub fn quick_request(target: &QuickTarget) -> (r: HostRequest)
    ensures
        r.alias@ == quick::destination_of(target@),
        r.label@ == quick::label_of(target@),
        !r.no_forwards,
        r.on_login is None,
{
    HostRequest::new(target.destination(), target.label())
}

/// The fields a host is searched by: the label first.
pub open spec fn fields_of(h: HostEntry) -> Seq<Seq<char>> {
    seq![h.label@, h.alias@, h.hostname@, h.folder@]
}

/// A host's score for a query, as typed.
pub open spec fn host_score(h: HostEntry, query: Seq<char>) -> Option<int> {
    fuzzy::total_score(fuzzy::words_of(text::trimmed(query)), fields_of(h))
}

/// A host found: its place in the list, and its score.
pub struct Hit {
    pub at: usize,
    pub score: i128,
}

/// The hit `a` is shown before `b`: the better score first, then by label,
/// then in the order of the list.
pub open spec fn shown_before(hosts: Seq<HostEntry>, a: Hit, b: Hit) -> bool {
    if a.score != b.score {
        a.score > b.score
    } else if hosts[a.at as int].label@ != hosts[b.at as int].label@ {
        order::text_lt(hosts[a.at as int].label@, hosts[b.at as int].label@)
    } else {
        a.at < b.at
    }
}

/// The hits among the first `n` hosts, best first: every host that matches,
/// once.
pub open spec fn are_hits(hits: Seq<Hit>, hosts: Seq<HostEntry>, query: Seq<char>, n: int) -> bool {
    &&& forall|i: int|
        0 <= i < hits.len() ==> (#[trigger] hits[i]).at < n && host_score(hosts[hits[i].at as int], query) == Some(
            hits[i].score as int,
        )
    &&& forall|k: int|
        0 <= k < n && host_score(#[trigger] hosts[k], query) is Some ==> exists|i: int|
            0 <= i < hits.len() && (#[trigger] hits[i]).at == k
    &&& forall|i: int, j: int| 0 <= i < j < hits.len() ==> shown_before(hosts, #[trigger] hits[i], #[trigger] hits[j])
}

proof fn lemma_shown_total(hosts: Seq<HostEntry>, a: Hit, b: Hit)
    requires
        a.at != b.at,
    ensures
        shown_before(hosts, a, b) || shown_before(hosts, b, a),
{
    order::lemma_lt_total(hosts[a.at as int].label@, hosts[b.at as int].label@);
}

proof fn lemma_shown_transitive(hosts: Seq<HostEntry>, a: Hit, b: Hit, c: Hit)
    requires
        shown_before(hosts, a, b),
        shown_before(hosts, b, c),
    ensures
        shown_before(hosts, a, c),
{
    let (x, y, z) = (hosts[a.at as int].label@, hosts[b.at as int].label@, hosts[c.at as int].label@);
    if a.score == b.score && b.score == c.score {
        if x != y && y != z {
            order::lemma_lt_transitive(x, y, z);
            order::lemma_lt_total(x, z);
        }
    }
}

fn is_shown_before(hosts: &[HostEntry], a: &Hit, b: &Hit) -> (r: bool)
    requires
        a.at < hosts@.len(),
        b.at < hosts@.len(),
    ensures
        r == shown_before(hosts@, *a, *b),
{
    if a.score != b.score {
        return a.score > b.score;
    }
    let x = text::chars_of(&hosts[a.at].label);
    let y = text::chars_of(&hosts[b.at].label);
    if !text::same_chars(&x, &y) {
        order::is_before(&x, &y)
    } else {
        a.at < b.at
    }
}

fn score_host(h: &HostEntry, query: &str) -> (r: Option<i128>)
    requires
        query@.len() < 0x1000_0000_0000,
    ensures
        match r {
            Some(n) => fuzzy::total_score(fuzzy::words_of(query@), fields_of(*h)) == Some(n as int),
            None => fuzzy::total_score(fuzzy::words_of(query@), fields_of(*h)) is None,
        },
{
    let fields: [&str; 4] = [h.label.as_str(), h.alias.as_str(), h.hostname.as_str(), h.folder.as_str()];
    proof {
        assert(fuzzy::field_texts(fields@) =~= fields_of(*h));
    }
    fuzzy::score(query, &fields)
}

/// Insert a hit where it is shown.
fn insert(hits: &mut Vec<Hit>, hit: Hit, hosts: &[HostEntry], query: Ghost<Seq<char>>)
    requires
        hit.at < hosts@.len(),
        host_score(hosts@[hit.at as int], query@) == Some(hit.score as int),
        are_hits(old(hits)@, hosts@, query@, hit.at as int),
    ensures
        are_hits(final(hits)@, hosts@, query@, hit.at + 1),
{
    let ghost before = hits@;
    let mut i: usize = 0;
    while i < hits.len() && is_shown_before(hosts, &hits[i], &hit)
        invariant
            i <= hits@.len(),
            hits@ == before,
            hit.at < hosts@.len(),
            are_hits(before, hosts@, query@, hit.at as int),
            forall|j: int| 0 <= j < i ==> shown_before(hosts@, #[trigger] before[j], hit),
        decreases hits@.len() - i,
    {
        i += 1;
    }
    proof {
        if i < before.len() {
            lemma_shown_total(hosts@, before[i as int], hit);
            assert forall|j: int| i <= j < before.len() implies shown_before(hosts@, hit, #[trigger] before[j]) by {
                if j > i {
                    lemma_shown_transitive(hosts@, hit, before[i as int], before[j]);
                }
            }
        }
    }
    let ghost new = hit;
    hits.insert(i, hit);
    proof {
        let after = hits@;
        assert(after =~= before.insert(i as int, new));
        assert forall|j: int, k: int| 0 <= j < k < after.len() implies shown_before(
            hosts@,
            #[trigger] after[j],
            #[trigger] after[k],
        ) by {
            if k < i {
                assert(after[j] == before[j] && after[k] == before[k]);
            } else if k == i {
                assert(after[j] == before[j]);
            } else if j < i {
                assert(after[j] == before[j] && after[k] == before[k - 1]);
            } else if j == i {
                assert(after[k] == before[k - 1]);
            } else {
                assert(after[j] == before[j - 1] && after[k] == before[k - 1]);
            }
        }
        assert forall|k: int| 0 <= k < new.at + 1 && host_score(#[trigger] hosts@[k], query@) is Some implies exists|j: int|
            0 <= j < after.len() && (#[trigger] after[j]).at == k by {
            if k == new.at {
                assert(after[i as int].at == k);
            } else {
                let j = choose|j: int| 0 <= j < before.len() && (#[trigger] before[j]).at == k;
                if j < i {
                    assert(after[j] == before[j]);
                } else {
                    assert(after[j + 1] == before[j]);
                }
            }
        }
        assert forall|j: int| 0 <= j < after.len() implies (#[trigger] after[j]).at < new.at + 1 && host_score(
            hosts@[after[j].at as int],
            query@,
        ) == Some(after[j].score as int) by {
            if j < i {
                assert(after[j] == before[j]);
            } else if j > i {
                assert(after[j] == before[j - 1]);
            }
        }
    }
}

/// The result shows these hits.
pub open spec fn shows_hits(r: Seq<HostEntry>, hits: Seq<Hit>, hosts: Seq<HostEntry>) -> bool {
    r.len() == hits.len() && forall|i: int| 0 <= i < r.len() ==> #[trigger] r[i] == hosts[hits[i].at as int]
}

/// Saved hosts matching `query`, best first; none for an empty query.
pub fn matches(hosts: &[HostEntry], query: &str) -> (r: Vec<HostEntry>)
    requires
        query@.len() < 0x1000_0000_0000,
    ensures
        text::trimmed(query@).len() == 0 ==> r@.len() == 0,
        text::trimmed(query@).len() > 0 ==> exists|hits: Seq<Hit>|
            #![trigger are_hits(hits, hosts@, query@, hosts@.len() as int)]
            are_hits(hits, hosts@, query@, hosts@.len() as int) && shows_hits(r@, hits, hosts@),
{
    let chars = text::chars_of(query);
    let trimmed = text::trim(&chars);
    proof {
        lemma_trimmed_shorter(query@);
    }
    let mut r: Vec<HostEntry> = Vec::new();
    if trimmed.len() == 0 {
        return r;
    }
    let words = text::string_of(&trimmed);
    let mut hits: Vec<Hit> = Vec::new();
    let mut i: usize = 0;
    while i < hosts.len()
        invariant
            i <= hosts@.len(),
            words@ == text::trimmed(query@),
            words@.len() < 0x1000_0000_0000,
            are_hits(hits@, hosts@, query@, i as int),
        decreases hosts@.len() - i,
    {
        match score_host(&hosts[i], &words) {
            Some(score) => {
                insert(&mut hits, Hit { at: i, score }, hosts, Ghost(query@));
            },
            None => {
                proof {
                    assert(host_score(hosts@[i as int], query@) is None);
                }
            },
        }
        i += 1;
    }
    let mut k: usize = 0;
    while k < hits.len()
        invariant
            k <= hits@.len(),
            are_hits(hits@, hosts@, query@, hosts@.len() as int),
            r@.len() == k,
            forall|j: int| 0 <= j < k ==> #[trigger] r@[j] == hosts@[hits@[j].at as int],
        decreases hits@.len() - k,
    {
        let at: usize = hits[k].at;
        r.push(hosts[at].copy());
        k += 1;
    }
    proof {
        assert(shows_hits(r@, hits@, hosts@));
    }
    r
}

proof fn lemma_trimmed_shorter(s: Seq<char>)
    ensures
        text::trimmed(s).len() <= s.len(),
    decreases s.len(),
{
    if s.len() > 0 {
        lemma_trimmed_shorter(s.skip(1));
        lemma_trimmed_shorter(s.drop_last());
    }
}

/// There is one way to show the hits: the same hosts and query give the
/// same list.
pub proof fn law_one_ranking(a: Seq<Hit>, b: Seq<Hit>, hosts: Seq<HostEntry>, query: Seq<char>)
    requires
        are_hits(a, hosts, query, hosts.len() as int),
        are_hits(b, hosts, query, hosts.len() as int),
    ensures
        a.len() == b.len(),
        forall|i: int| 0 <= i < a.len() ==> (#[trigger] a[i]).at == b[i].at,
{
    lemma_as_long(a, b, hosts, query);
    lemma_as_long(b, a, hosts, query);
    assert forall|i: int| 0 <= i < a.len() implies (#[trigger] a[i]).at == b[i].at by {
        lemma_same_rank(a, b, hosts, query, i);
    }
}

/// Where a hit of `a` stands in `b`.
spec fn stands_at(b: Seq<Hit>, at: usize) -> int {
    choose|i: int| 0 <= i < b.len() && (#[trigger] b[i]).at == at
}

proof fn lemma_as_long(a: Seq<Hit>, b: Seq<Hit>, hosts: Seq<HostEntry>, query: Seq<char>)
    requires
        are_hits(a, hosts, query, hosts.len() as int),
        are_hits(b, hosts, query, hosts.len() as int),
    ensures
        a.len() <= b.len(),
{
    let at = Seq::new(a.len(), |i: int| stands_at(b, a[i].at));
    assert forall|i: int| 0 <= i < at.len() implies 0 <= #[trigger] at[i] < b.len() && b[at[i]].at == a[i].at by {
        let k = a[i].at as int;
        assert(host_score(hosts[k], query) is Some);
        let j = choose|j: int| 0 <= j < b.len() && (#[trigger] b[j]).at == k;
        assert(b[j].at == a[i].at);
    }
    assert forall|i: int, j: int| 0 <= i < at.len() && 0 <= j < at.len() && i != j implies at[i] != at[j] by {
        if i < j {
            assert(shown_before(hosts, a[i], a[j]));
        } else {
            assert(shown_before(hosts, a[j], a[i]));
        }
        if at[i] == at[j] {
            assert(a[i].at == a[j].at);
            assert(a[i].score == a[j].score);
        }
    }
    text::lemma_pigeonhole(at, b.len() as int);
}

proof fn lemma_same_rank(a: Seq<Hit>, b: Seq<Hit>, hosts: Seq<HostEntry>, query: Seq<char>, n: int)
    requires
        are_hits(a, hosts, query, hosts.len() as int),
        are_hits(b, hosts, query, hosts.len() as int),
        a.len() == b.len(),
        0 <= n < a.len(),
    ensures
        a[n].at == b[n].at,
    decreases n,
{
    assert forall|i: int| 0 <= i < n implies (#[trigger] a[i]).at == b[i].at by {
        lemma_same_rank(a, b, hosts, query, i);
    }
    // a[n] stands in b, and b[n] in a; neither before n
    let ka = a[n].at as int;
    let kb = b[n].at as int;
    assert(host_score(hosts[ka], query) is Some);
    assert(host_score(hosts[kb], query) is Some);
    let i = choose|i: int| 0 <= i < b.len() && (#[trigger] b[i]).at == ka;
    let j = choose|j: int| 0 <= j < a.len() && (#[trigger] a[j]).at == kb;
    if i < n {
        assert(a[i].at == b[i].at);
        assert(shown_before(hosts, a[i], a[n]));
        assert(a[i].score == a[n].score);
    } else if j < n {
        assert(a[j].at == b[j].at);
        assert(shown_before(hosts, b[j], b[n]));
        assert(b[j].score == b[n].score);
    } else if i > n && j > n {
        assert(shown_before(hosts, b[n], b[i]));
        assert(shown_before(hosts, a[n], a[j]));
        assert(b[i].score == a[n].score && a[j].score == b[n].score);
        order::lemma_lt_total(hosts[ka].label@, hosts[kb].label@);
    }
}

/// Enter in the search: the best hit is opened, else the host typed by
/// hand.
pub fn on_enter(hits: &[HostEntry], typed: &Option<QuickTarget>) -> (r: Option<HostRequest>)
    ensures
        match r {
            Some(host) => if hits@.len() > 0 {
                host == (HostRequest {
                    alias: hits@[0].alias,
                    label: hits@[0].label,
                    no_forwards: false,
                    on_login: hits@[0].on_login,
                })
            } else {
                typed matches Some(t) && host.alias@ == quick::destination_of(t@) && host.label@ == quick::label_of(t@)
                    && !host.no_forwards && host.on_login is None
            },
            None => hits@.len() == 0 && typed is None,
        },
{
    if hits.len() > 0 {
        Some(hits[0].request())
    } else {
        match typed {
            Some(t) => Some(quick_request(t)),
            None => None,
        }
    }
}

/// What becomes of the open panel in a frame.
#[derive(Clone, Copy, Debug, PartialEq, Eq, Structural)]
pub enum PanelStep {
    /// It stays; whether it has had the focus.
    Stay(bool),
    /// It goes back to being a button.
    Collapse,
}

/// The panel closes when it had the focus and lost it (a click elsewhere),
/// and with Esc.
pub fn panel_step(focused: bool, was_focused: bool, escape: bool) -> (r: PanelStep)
    ensures
        r == if (!focused && was_focused) || escape {
            PanelStep::Collapse
        } else {
            PanelStep::Stay(focused || was_focused)
        },
{
    if (!focused && was_focused) || escape {
        PanelStep::Collapse
    } else {
        PanelStep::Stay(focused || was_focused)
    }
}

/// A host is shown by its label, and its folder behind it where it has one.
pub proof fn law_how_a_host_is_shown(h: HostEntry)
    ensures
        h.folder@.len() == 0 ==> h.shown_text() == h.label@,
        h.folder@.len() > 0 ==> h.shown_text() == h.label@ + "   · "@ + h.folder@,
{
}

/// A search looks at the label, the alias, the host name and the folder, the
/// label first (it counts double), and white space around it is nothing.
pub proof fn law_what_is_searched(h: HostEntry, query: Seq<char>, w: char)
    requires
        text::is_white(w),
    ensures
        fields_of(h).len() == 4,
        fields_of(h)[0] == h.label@,
        fields_of(h).contains(h.alias@) && fields_of(h).contains(h.hostname@) && fields_of(h).contains(h.folder@),
        host_score(h, Seq::empty()) == Some(0int),
        host_score(h, seq![w] + query) == host_score(h, query),
        host_score(h, query.push(w)) == host_score(h, query),
        text::trimmed(query) == query ==> host_score(h, query) == fuzzy::total_score(fuzzy::words_of(query), fields_of(h)),
{
    let f = fields_of(h);
    assert(f[1] == h.alias@ && f[2] == h.hostname@ && f[3] == h.folder@);
    text::law_trimming(query, w);
    assert(text::trimmed(Seq::empty()) == Seq::<char>::empty());
    assert(fuzzy::words_of(Seq::empty()) =~= Seq::empty());
}

/// The better match comes first; equal ones by their label, then as listed.
pub proof fn law_ranking(hosts: Seq<HostEntry>, a: Hit, b: Hit)
    requires
        a.at < hosts.len(),
        b.at < hosts.len(),
    ensures
        a.score > b.score ==> shown_before(hosts, a, b) && !shown_before(hosts, b, a),
        a.score == b.score && order::text_lt(hosts[a.at as int].label@, hosts[b.at as int].label@) ==> shown_before(hosts, a, b)
            && !shown_before(hosts, b, a),
        a.score == b.score && hosts[a.at as int].label@ == hosts[b.at as int].label@ ==> (shown_before(hosts, a, b) <==> a.at
            < b.at),
{
    order::lemma_lt_total(hosts[a.at as int].label@, hosts[b.at as int].label@);
}

/// Hosts that are kept out of group sends are listed, in order, and no
/// others.
pub proof fn law_hosts_left_out(hosts: Seq<HostEntry>, h: HostEntry)
    ensures
        left_out(Seq::empty()) == Seq::<Seq<char>>::empty(),
        h.no_group_send ==> left_out(hosts.push(h)) == left_out(hosts).push(h.alias@),
        !h.no_group_send ==> left_out(hosts.push(h)) == left_out(hosts),
{
    assert(hosts.push(h).drop_last() =~= hosts);
}

/// The button shows six hosts.
pub proof fn law_hosts_shown()
    ensures
        SHOWN == 6,
{
}

/// What the button finds: the hosts that match and no others, the better ones
/// first, each once.
pub proof fn law_what_is_found(hits: Seq<Hit>, hosts: Seq<HostEntry>, query: Seq<char>, r: Seq<HostEntry>, i: int, j: int)
    requires
        are_hits(hits, hosts, query, hosts.len() as int),
        shows_hits(r, hits, hosts),
        0 <= i < j < r.len(),
    ensures
        r.len() == hits.len(),
        hits[i].at < hosts.len() && r[i] == hosts[hits[i].at as int],
        host_score(r[i], query) == Some(hits[i].score as int) && host_score(r[j], query) == Some(hits[j].score as int),
        hits[i].score >= hits[j].score,
        hits[i].at != hits[j].at,
{
    assert(shown_before(hosts, hits[i], hits[j]));
    assert(r[i] == hosts[hits[i].at as int]);
    assert(r[j] == hosts[hits[j].at as int]);
}

/// A host that matches is found.
pub proof fn law_what_matches_is_found(hits: Seq<Hit>, hosts: Seq<HostEntry>, query: Seq<char>, k: int)
    requires
        are_hits(hits, hosts, query, hosts.len() as int),
        0 <= k < hosts.len(),
    ensures
        host_score(hosts[k], query) is Some <==> exists|i: int| 0 <= i < hits.len() && (#[trigger] hits[i]).at == k,
{
}

} // verus!
