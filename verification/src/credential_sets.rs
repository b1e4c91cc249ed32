//! Shared credential sets: a password kept once for every host that names
//! the set, or whose folder does. Adding sets, changing and removing their
//! passwords, and how many hosts use each.

use vstd::prelude::*;

use crate::message;
use crate::message::Message;
use crate::message::Notice;
use crate::message::NoticeView;
use crate::order;
use crate::text;

verus! {

/// The entries that begin with `prefix`, without it.
pub open spec fn stripped(entries: Seq<Seq<char>>, prefix: Seq<char>) -> Seq<Seq<char>>
    decreases entries.len(),
{
    if entries.len() == 0 {
        Seq::empty()
    } else {
        let rest = stripped(entries.drop_last(), prefix);
        if text::has_prefix(entries.last(), prefix) {
            rest.push(entries.last().skip(prefix.len() as int))
        } else {
            rest
        }
    }
}

/// The sets, by name: `entries` are what is stored, `prefix` what a set's
/// entry begins with.
pub fn names(entries: &[String], prefix: &str) -> (r: Vec<String>)
    ensures
        text::texts(r@) == stripped(text::texts(entries@), prefix@),
{
    let ghost all = text::texts(entries@);
    let head = text::chars_of(prefix);
    let mut r: Vec<String> = Vec::new();
    let mut i: usize = 0;
    proof {
        assert(all.take(0) =~= Seq::empty());
        assert(text::texts(r@) =~= Seq::empty());
    }
    while i < entries.len()
        invariant
            i <= entries@.len(),
            all == text::texts(entries@),
            head@ == prefix@,
            text::texts(r@) == stripped(all.take(i as int), prefix@),
        decreases entries@.len() - i,
    {
        proof {
            assert(all.take(i + 1).drop_last() =~= all.take(i as int));
            assert(all.take(i + 1).last() == entries@[i as int]@);
        }
        let entry = text::chars_of(&entries[i]);
        if text::starts_with(&entry, &head) {
            let name = text::part(&entry, head.len(), entry.len());
            let ghost before = r@;
            r.push(text::string_of(&name));
            proof {
                assert(name@ =~= entry@.skip(prefix@.len() as int));
                assert(text::texts(r@) =~= text::texts(before).push(name@));
            }
        }
        i += 1;
    }
    proof {
        assert(all.take(i as int) =~= all);
    }
    r
}

/// How often a set is named.
pub open spec fn times(sets: Seq<Option<Seq<char>>>, name: Seq<char>) -> nat
    decreases sets.len(),
{
    if sets.len() == 0 {
        0
    } else {
        times(sets.drop_last(), name) + (if sets.last() == Some(name) {
            1nat
        } else {
            0nat
        })
    }
}

/// Sets, each with how many hosts use it.
pub struct Usage {
    pub counts: Vec<(String, usize)>,
}

/// What is counted under a name; nothing where it is not there.
pub open spec fn counted(counts: Seq<(String, usize)>, name: Seq<char>) -> nat
    decreases counts.len(),
{
    if counts.len() == 0 {
        0
    } else if counts.last().0@ == name {
        counts.last().1 as nat
    } else {
        counted(counts.drop_last(), name)
    }
}

/// No name twice.
pub open spec fn once_each(counts: Seq<(String, usize)>) -> bool {
    forall|i: int, j: int| #![trigger counts[i], counts[j]] 0 <= i < j < counts.len() ==> counts[i].0@ != counts[j].0@
}

/// The names that are counted.
pub open spec fn counted_names(counts: Seq<(String, usize)>) -> Seq<Seq<char>> {
    counts.map_values(|c: (String, usize)| c.0@)
}

proof fn lemma_counted(counts: Seq<(String, usize)>, i: int)
    requires
        once_each(counts),
        0 <= i < counts.len(),
    ensures
        counted(counts, counts[i].0@) == counts[i].1,
    decreases counts.len(),
{
    if i < counts.len() - 1 {
        let rest = counts.drop_last();
        assert(counts[i].0@ != counts[counts.len() - 1].0@);
        assert forall|a: int, b: int| #![trigger rest[a], rest[b]] 0 <= a < b < rest.len() implies rest[a].0@
            != rest[b].0@ by {
            assert(rest[a] == counts[a] && rest[b] == counts[b]);
        }
        lemma_counted(rest, i);
        assert(rest[i] == counts[i]);
    }
}

proof fn lemma_not_counted(counts: Seq<(String, usize)>, name: Seq<char>)
    requires
        forall|i: int| 0 <= i < counts.len() ==> (#[trigger] counts[i]).0@ != name,
    ensures
        counted(counts, name) == 0,
    decreases counts.len(),
{
    if counts.len() > 0 {
        assert(counts[counts.len() - 1].0@ != name);
        let rest = counts.drop_last();
        assert forall|i: int| 0 <= i < rest.len() implies (#[trigger] rest[i]).0@ != name by {
            assert(rest[i] == counts[i]);
        }
        lemma_not_counted(rest, name);
    }
}

proof fn lemma_times(sets: Seq<Option<Seq<char>>>, name: Seq<char>)
    ensures
        times(sets, name) <= sets.len(),
    decreases sets.len(),
{
    if sets.len() > 0 {
        lemma_times(sets.drop_last(), name);
    }
}

/// Sets of hosts, as sequences.
pub open spec fn set_names(sets: Seq<Option<String>>) -> Seq<Option<Seq<char>>> {
    sets.map_values(|s: Option<String>| text::optional(s))
}

impl Usage {
    /// The counts are those of these hosts: no name twice, none without a
    /// host.
    pub open spec fn is_of(self, sets: Seq<Option<Seq<char>>>) -> bool {
        &&& once_each(self.counts@)
        &&& forall|name: Seq<char>| #[trigger] counted(self.counts@, name) == times(sets, name)
        &&& forall|i: int| 0 <= i < self.counts@.len() ==> (#[trigger] self.counts@[i]).1 > 0
    }

    /// How many hosts use a set.
    pub fn of(&self, name: &str) -> (r: usize)
        requires
            once_each(self.counts@),
        ensures
            r == counted(self.counts@, name@),
    {
        let mut i: usize = 0;
        while i < self.counts.len()
            invariant
                i <= self.counts@.len(),
                once_each(self.counts@),
                forall|j: int| 0 <= j < i ==> (#[trigger] self.counts@[j]).0@ != name@,
            decreases self.counts@.len() - i,
        {
            if text::same(&self.counts[i].0, name) {
                proof {
                    lemma_counted(self.counts@, i as int);
                }
                return self.counts[i].1;
            }
            i += 1;
        }
        proof {
            lemma_not_counted(self.counts@, name@);
        }
        0
    }
}

/// How many hosts use each set: `sets` holds each host's (its own, or its
/// folder's).
pub fn usage(sets: &[Option<String>]) -> (r: Usage)
    ensures
        r.is_of(set_names(sets@)),
{
    let ghost all = set_names(sets@);
    let mut r = Usage { counts: Vec::new() };
    let mut i: usize = 0;
    proof {
        assert(all.take(0) =~= Seq::empty());
    }
    while i < sets.len()
        invariant
            i <= sets@.len(),
            all == set_names(sets@),
            r.is_of(all.take(i as int)),
        decreases sets@.len() - i,
    {
        proof {
            assert(all.take(i + 1).drop_last() =~= all.take(i as int));
            assert(all.take(i + 1).last() == text::optional(sets@[i as int]));
        }
        if let Some(name) = &sets[i] {
            let ghost before = r.counts@;
            let mut k: usize = 0;
            while k < r.counts.len() && !text::same(&r.counts[k].0, name)
                invariant
                    k <= r.counts@.len(),
                    r.counts@ == before,
                    forall|j: int| 0 <= j < k ==> (#[trigger] r.counts@[j]).0@ != name@,
                decreases r.counts@.len() - k,
            {
                k += 1;
            }
            if k < r.counts.len() {
                proof {
                    lemma_counted(before, k as int);
                    lemma_times(all.take(i as int), name@);
                    assert(counted(before, name@) == times(all.take(i as int), name@));
                }
                let key = r.counts[k].0.clone();
                let more: usize = r.counts[k].1 + 1;
                r.counts[k] = (key, more);
                proof {
                    assert(once_each(r.counts@)) by {
                        assert forall|a: int, b: int|
                            #![trigger r.counts@[a], r.counts@[b]]
                            0 <= a < b < r.counts@.len() implies r.counts@[a].0@ != r.counts@[b].0@ by {
                            assert(before[a].0@ != before[b].0@);
                        }
                    }
                    assert forall|n: Seq<char>| #[trigger] counted(r.counts@, n) == times(all.take(i + 1), n) by {
                        assert(counted(before, n) == times(all.take(i as int), n));
                        if n == name@ {
                            lemma_counted(r.counts@, k as int);
                        } else if exists|m: int| 0 <= m < before.len() && (#[trigger] before[m]).0@ == n {
                            let m = choose|m: int| 0 <= m < before.len() && (#[trigger] before[m]).0@ == n;
                            assert(r.counts@[m] == before[m]);
                            lemma_counted(r.counts@, m);
                            lemma_counted(before, m);
                        } else {
                            assert forall|m: int| 0 <= m < r.counts@.len() implies (#[trigger] r.counts@[m]).0@
                                != n by {
                                assert(before[m].0@ != n);
                            }
                            lemma_not_counted(r.counts@, n);
                            lemma_not_counted(before, n);
                        }
                    }
                }
            } else {
                r.counts.push((name.clone(), 1));
                proof {
                    lemma_not_counted(before, name@);
                    assert(r.counts@.drop_last() =~= before);
                    assert forall|a: int, b: int|
                        #![trigger r.counts@[a], r.counts@[b]]
                        0 <= a < b < r.counts@.len() implies r.counts@[a].0@ != r.counts@[b].0@ by {
                        if b < before.len() {
                            assert(before[a].0@ != before[b].0@);
                        } else {
                            assert(before[a].0@ != name@);
                        }
                    }
                    assert forall|n: Seq<char>| #[trigger] counted(r.counts@, n) == times(all.take(i + 1), n) by {
                        assert(counted(before, n) == times(all.take(i as int), n));
                    }
                    assert forall|a: int| 0 <= a < r.counts@.len() implies (#[trigger] r.counts@[a]).1 > 0 by {
                        if a < before.len() {
                            assert(before[a].1 > 0);
                        }
                    }
                }
            }
        } else {
            proof {
                assert forall|n: Seq<char>| #[trigger] counted(r.counts@, n) == times(all.take(i + 1), n) by {
                    assert(counted(r.counts@, n) == times(all.take(i as int), n));
                }
            }
        }
        i += 1;
    }
    proof {
        assert(all.take(i as int) =~= all);
    }
    r
}

/// A set in the list.
pub struct Row {
    pub name: String,
    /// The server refused the password.
    pub refused: bool,
    pub typed: String,
}

/// The names of rows.
pub open spec fn row_names(rows: Seq<Row>) -> Seq<Seq<char>> {
    rows.map_values(|r: Row| r.name@)
}

/// The credential sets dialog.
pub struct CredentialSetsDialog {
    pub rows: Vec<Row>,
    pub used: Usage,
    /// Sets that hosts name but that are not stored.
    pub missing: Vec<String>,
    pub new_name: String,
    pub new_password: String,
    /// The set whose removal waits for a second click.
    pub removing: Option<String>,
    /// What is said, and whether it is an error.
    pub message: Option<(Notice, bool)>,
}

/// What is asked of a set that is to be added.
pub enum Adding {
    /// There is no name or no password yet.
    NotReady,
    /// It cannot be: why is said.
    Refused,
    /// This name and this password are to be stored.
    Store(String, String),
}

/// What is missing: the sets that hosts name but that are not stored, in
/// order.
pub open spec fn missing_sets(counts: Seq<(String, usize)>, stored: Seq<Seq<char>>) -> Seq<Seq<char>> {
    order::sorted(counted_names(counts).filter(|n: Seq<char>| !stored.contains(n)))
}

/// What the dialog says.
pub open spec fn shown(m: Option<(Notice, bool)>) -> Option<(NoticeView, bool)> {
    match m {
        Some((n, error)) => Some((n@, error)),
        None => None,
    }
}

impl CredentialSetsDialog {
    /// The stored sets are read: their names, and which passwords the server
    /// refused.
    pub fn refresh(&mut self, stored: &[(String, bool)])
        ensures
            row_names(final(self).rows@) == stored@.map_values(|s: (String, bool)| s.0@),
            final(self).rows@.len() == stored@.len(),
            forall|i: int|
                0 <= i < stored@.len() ==> (#[trigger] final(self).rows@[i]).refused == stored@[i].1
                    && final(self).rows@[i].typed@.len() == 0,
            text::texts(final(self).missing@) == missing_sets(
                old(self).used.counts@,
                stored@.map_values(|s: (String, bool)| s.0@),
            ),
            *final(self) == (CredentialSetsDialog {
                rows: final(self).rows,
                missing: final(self).missing,
                ..*old(self)
            }),
    {
        let ghost names = stored@.map_values(|s: (String, bool)| s.0@);
        let mut rows: Vec<Row> = Vec::new();
        let mut here: Vec<String> = Vec::new();
        let mut i: usize = 0;
        while i < stored.len()
            invariant
                i <= stored@.len(),
                rows@.len() == i,
                here@.len() == i,
                forall|j: int|
                    0 <= j < i ==> (#[trigger] rows@[j]).name@ == stored@[j].0@ && rows@[j].refused == stored@[j].1
                        && rows@[j].typed@.len() == 0,
                forall|j: int| 0 <= j < i ==> (#[trigger] here@[j])@ == stored@[j].0@,
            decreases stored@.len() - i,
        {
            rows.push(Row { name: stored[i].0.clone(), refused: stored[i].1, typed: String::new() });
            here.push(stored[i].0.clone());
            i += 1;
        }
        proof {
            assert(row_names(rows@) =~= names);
            assert(text::texts(here@) =~= names);
        }
        let counts = &self.used.counts;
        let ghost all = counted_names(counts@);
        let ghost f = |n: Seq<char>| !names.contains(n);
        let mut gone: Vec<String> = Vec::new();
        let mut k: usize = 0;
        proof {
            reveal(Seq::filter);
            assert(text::texts(gone@) =~= all.take(0).filter(f));
        }
        while k < counts.len()
            invariant
                k <= counts@.len(),
                all == counted_names(counts@),
                text::texts(here@) == names,
                f == (|n: Seq<char>| !names.contains(n)),
                text::texts(gone@) == all.take(k as int).filter(f),
            decreases counts@.len() - k,
        {
            proof {
                reveal(Seq::filter);
                assert(all.take(k + 1).drop_last() =~= all.take(k as int));
                assert(all.take(k + 1).last() == counts@[k as int].0@);
            }
            if !text::contains_text(&here, &counts[k].0) {
                let ghost before = gone@;
                gone.push(counts[k].0.clone());
                proof {
                    assert(text::texts(gone@) =~= text::texts(before).push(counts@[k as int].0@));
                }
            }
            k += 1;
        }
        proof {
            assert(all.take(k as int) =~= all);
        }
        let missing = order::sort(&gone);
        self.rows = rows;
        self.missing = missing;
    }

    /// "Remove" was clicked for a set: the first click asks, the second one
    /// is the removal to perform.
    pub fn remove_clicked(&mut self, name: &str) -> (r: bool)
        ensures
            r == (text::optional(old(self).removing) == Some(name@)),
            text::optional(final(self).removing) == (if r {
                None
            } else {
                Some(name@)
            }),
            *final(self) == (CredentialSetsDialog { removing: final(self).removing, ..*old(self) }),
    {
        let second = match &self.removing {
            Some(n) => text::same(n, name),
            None => false,
        };
        self.removing = if second {
            None
        } else {
            Some(text::owned(name))
        };
        second
    }

    /// What came of storing or removing a set's password: `key` says that it
    /// worked.
    pub fn tell(&mut self, key: &'static str, name: &str, error: Option<String>)
        ensures
            shown(final(self).message) == Some(
                match error {
                    None => (NoticeView::Said(message::said(key@).text("name"@, name@)), false),
                    Some(why) => (NoticeView::Plain(why@), true),
                },
            ),
            *final(self) == (CredentialSetsDialog { message: final(self).message, ..*old(self) }),
    {
        self.message = Some(
            match error {
                None => (Notice::Said(Message::new(key).text("name", name)), false),
                Some(why) => (Notice::Plain(why), true),
            },
        );
    }

    /// The new set's password was stored, or why not: once it is, the name
    /// that was typed goes.
    pub fn added(&mut self, name: &str, error: Option<String>)
        ensures
            match error {
                None => final(self).new_name@.len() == 0 && shown(final(self).message) == Some(
                    (NoticeView::Said(message::said("cred-sets-added"@).text("name"@, name@)), false),
                ),
                Some(why) => final(self).new_name == old(self).new_name && shown(final(self).message) == Some(
                    (NoticeView::Plain(why@), true),
                ),
            },
            *final(self) == (CredentialSetsDialog {
                new_name: final(self).new_name,
                message: final(self).message,
                ..*old(self)
            }),
    {
        match error {
            None => {
                self.new_name = String::new();
                self.message = Some((Notice::Said(Message::new("cred-sets-added").text("name", name)), false));
            },
            Some(why) => {
                self.message = Some((Notice::Plain(why), true));
            },
        }
    }

    /// "Add" was clicked. `valid` is whether the name, without the white
    /// space around it, can be a set's.
    pub fn adding(&mut self, valid: bool) -> (r: Adding)
        ensures
            ({
                let name = text::trimmed(old(self).new_name@);
                if name.len() == 0 || old(self).new_password@.len() == 0 {
                    r is NotReady && *final(self) == *old(self)
                } else if !valid {
                    &&& r is Refused
                    &&& shown(final(self).message) == Some(
                        (NoticeView::Said(message::said("cred-sets-bad-name"@)), true),
                    )
                    &&& *final(self) == (CredentialSetsDialog { message: final(self).message, ..*old(self) })
                } else if row_names(old(self).rows@).contains(name) {
                    &&& r is Refused
                    &&& shown(final(self).message) == Some(
                        (NoticeView::Said(message::said("cred-sets-exists"@).text("name"@, name)), true),
                    )
                    &&& *final(self) == (CredentialSetsDialog { message: final(self).message, ..*old(self) })
                } else {
                    &&& r matches Adding::Store(n, p) && n@ == name && p == old(self).new_password
                    &&& final(self).new_password@.len() == 0
                    &&& *final(self) == (CredentialSetsDialog { new_password: final(self).new_password, ..*old(self) })
                }
            }),
    {
        let name = text::string_of(&text::trim(&text::chars_of(&self.new_name)));
        if name.as_str().is_empty() || self.new_password.as_str().is_empty() {
            return Adding::NotReady;
        }
        if !valid {
            self.message = Some((Notice::Said(Message::new("cred-sets-bad-name")), true));
            return Adding::Refused;
        }
        let mut i: usize = 0;
        while i < self.rows.len()
            invariant
                i <= self.rows@.len(),
                *self == *old(self),
                name@ == text::trimmed(old(self).new_name@),
                name@.len() > 0,
                old(self).new_password@.len() > 0,
                valid,
                forall|j: int| 0 <= j < i ==> (#[trigger] self.rows@[j]).name@ != name@,
            decreases self.rows@.len() - i,
        {
            if text::same(&self.rows[i].name, &name) {
                proof {
                    assert(row_names(self.rows@)[i as int] == name@);
                }
                self.message = Some((Notice::Said(Message::new("cred-sets-exists").text("name", &name)), true));
                return Adding::Refused;
            }
            i += 1;
        }
        proof {
            assert(!row_names(self.rows@).contains(name@)) by {
                if row_names(self.rows@).contains(name@) {
                    let k = choose|k: int| 0 <= k < row_names(self.rows@).len() && row_names(self.rows@)[k] == name@;
                    assert(self.rows@[k].name@ != name@);
                }
            }
        }
        let mut password = String::new();
        std::mem::swap(&mut password, &mut self.new_password);
        Adding::Store(name, password)
    }
}

/// The sets are the entries under the prefix, without it, in order.
pub proof fn law_entries_under_a_prefix(entries: Seq<Seq<char>>, e: Seq<char>, prefix: Seq<char>, name: Seq<char>)
    ensures
        stripped(Seq::empty(), prefix).len() == 0,
        stripped(entries.push(prefix + name), prefix) == stripped(entries, prefix).push(name),
        !text::has_prefix(e, prefix) ==> stripped(entries.push(e), prefix) == stripped(entries, prefix),
{
    assert(entries.push(e).drop_last() =~= entries);
    assert(entries.push(prefix + name).drop_last() =~= entries);
    assert((prefix + name).skip(prefix.len() as int) =~= name);
    assert((prefix + name).take(prefix.len() as int) =~= prefix);
    assert(text::has_prefix(prefix + name, prefix));
}

/// How often a set is named is counted, host by host.
pub proof fn law_counting_sets(sets: Seq<Option<Seq<char>>>, s: Option<Seq<char>>, name: Seq<char>)
    ensures
        times(Seq::empty(), name) == 0,
        s == Some(name) ==> times(sets.push(s), name) == times(sets, name) + 1,
        s != Some(name) ==> times(sets.push(s), name) == times(sets, name),
{
    assert(sets.push(s).drop_last() =~= sets);
}

/// A count is found under its name, and there is none for a name that is
/// not counted.
pub proof fn law_finding_a_count(counts: Seq<(String, usize)>, c: (String, usize), name: Seq<char>)
    ensures
        counted(Seq::empty(), name) == 0,
        c.0@ == name ==> counted(counts.push(c), name) == c.1,
        c.0@ != name ==> counted(counts.push(c), name) == counted(counts, name),
{
    assert(counts.push(c).drop_last() =~= counts);
}

/// What a usage says of the sets that hosts name: every one is counted once,
/// and as often as it is named.
pub proof fn law_usage(u: Usage, sets: Seq<Option<Seq<char>>>, i: int, j: int)
    requires
        u.is_of(sets),
        0 <= i < u.counts@.len(),
        0 <= j < u.counts@.len(),
    ensures
        u.counts@[i].1 == times(sets, u.counts@[i].0@),
        u.counts@[i].1 > 0,
        i != j ==> u.counts@[i].0@ != u.counts@[j].0@,
{
    lemma_counted_at(u.counts@, i);
    assert(counted(u.counts@, u.counts@[i].0@) == times(sets, u.counts@[i].0@));
}

proof fn lemma_counted_at(counts: Seq<(String, usize)>, i: int)
    requires
        once_each(counts),
        0 <= i < counts.len(),
    ensures
        counted(counts, counts[i].0@) == counts[i].1,
    decreases counts.len(),
{
    if i < counts.len() - 1 {
        assert(counts[i].0@ != counts[counts.len() - 1].0@);
        assert forall|a: int, b: int| #![trigger counts.drop_last()[a], counts.drop_last()[b]]
            0 <= a < b < counts.drop_last().len() implies counts.drop_last()[a].0@ != counts.drop_last()[b].0@ by {
            assert(counts[a].0@ != counts[b].0@);
        }
        lemma_counted_at(counts.drop_last(), i);
    }
}

/// The sets that hosts name and that are not stored, in order of their names.
pub proof fn law_sets_that_are_missing(counts: Seq<(String, usize)>, stored: Seq<Seq<char>>)
    ensures
        missing_sets(counts, stored) == order::sorted(
            Seq::new(counts.len(), |i: int| counts[i].0@).filter(|n: Seq<char>| !stored.contains(n)),
        ),
{
    assert(Seq::new(counts.len(), |i: int| counts[i].0@) =~= counted_names(counts));
    assert((|n: Seq<char>| !stored.contains(n)) =~= (|n: Seq<char>| !stored.contains(n)));
}

} // verus!
