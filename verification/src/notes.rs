//! `notes.toml`: what was written about the hosts, in a file that syncs.
//!
//! The notes themselves live in `state.db`, keyed by each host's
//! `NativeTermId`, because they are read and written constantly. A SQLite
//! file and a sync service do not mix, though, so the notes also live in
//! a small text file next to it: written whenever one changes, read at
//! start, merged by id.
//!
//! The merge is by time: the newer of the two sides wins for each host,
//! and a note someone cleared is an empty note rather than a missing one,
//! so clearing it reaches the other computers too. Nothing is ever merged
//! *within* a note — two people editing the same host's note on two
//! computers at once keep the later one, and the file is a plain text
//! file they can look at.

use vstd::prelude::*;

use crate::order;
use crate::paths;
use crate::registry::Note;
use crate::registry::NoteView;
use crate::text;

verus! {

pub const FILE: &'static str = "notes.toml";

/// Where the notes of a data directory are.
pub fn path_in(data_dir: &str) -> (r: String)
    ensures
        paths::is_joined(r@, data_dir@, FILE@),
{
    proof {
        reveal_strlit("notes.toml");
    }
    paths::join(data_dir, FILE)
}

/// Notes by host id, in the order of the ids.
pub struct Notes {
    pub entries: Vec<(String, Note)>,
}

/// The notes of a list, with their ids.
pub open spec fn listed(v: Seq<(String, Note)>) -> Seq<(Seq<char>, NoteView)> {
    v.map_values(|e: (String, Note)| (e.0@, e.1@))
}

/// The ids are in order, and none is there twice.
pub open spec fn in_order(entries: Seq<(Seq<char>, NoteView)>) -> bool {
    forall|i: int, j: int|
        0 <= i < j < entries.len() ==> order::text_lt((#[trigger] entries[i]).0, (#[trigger] entries[j]).0)
}

impl View for Notes {
    type V = Seq<(Seq<char>, NoteView)>;

    open spec fn view(&self) -> Seq<(Seq<char>, NoteView)> {
        listed(self.entries@)
    }
}

/// The note with this id.
pub open spec fn note_of(entries: Seq<(Seq<char>, NoteView)>, id: Seq<char>) -> Option<NoteView>
    decreases entries.len(),
{
    if entries.len() == 0 {
        None
    } else if entries.first().0 == id {
        Some(entries.first().1)
    } else {
        note_of(entries.skip(1), id)
    }
}

proof fn lemma_note_of(entries: Seq<(Seq<char>, NoteView)>, id: Seq<char>)
    ensures
        match note_of(entries, id) {
            Some(n) => exists|i: int| 0 <= i < entries.len() && #[trigger] entries[i] == (id, n),
            None => forall|i: int| 0 <= i < entries.len() ==> (#[trigger] entries[i]).0 != id,
        },
    decreases entries.len(),
{
    if entries.len() > 0 && entries.first().0 != id {
        let rest = entries.skip(1);
        lemma_note_of(rest, id);
        match note_of(rest, id) {
            Some(n) => {
                let i = choose|i: int| 0 <= i < rest.len() && #[trigger] rest[i] == (id, n);
                assert(entries[i + 1] == (id, n));
            },
            None => {
                assert forall|i: int| 0 <= i < entries.len() implies (#[trigger] entries[i]).0 != id by {
                    if i > 0 {
                        assert(rest[i - 1] == entries[i]);
                    }
                }
            },
        }
    } else if entries.len() > 0 {
        assert(entries[0] == (id, entries.first().1));
    }
}

/// In an ordered list an entry is found by its id.
proof fn lemma_note_at(entries: Seq<(Seq<char>, NoteView)>, i: int)
    requires
        in_order(entries),
        0 <= i < entries.len(),
    ensures
        note_of(entries, entries[i].0) == Some(entries[i].1),
    decreases entries.len(),
{
    if i > 0 {
        order::lemma_lt_total(entries[0].0, entries[i].0);
        assert(order::text_lt(entries[0].0, entries[i].0));
        let rest = entries.skip(1);
        assert forall|a: int, b: int| 0 <= a < b < rest.len() implies order::text_lt(
            (#[trigger] rest[a]).0,
            (#[trigger] rest[b]).0,
        ) by {
            assert(rest[a] == entries[a + 1] && rest[b] == entries[b + 1]);
        }
        assert(rest[i - 1] == entries[i]);
        lemma_note_at(rest, i - 1);
    }
}

impl Notes {
    /// The ids are in order.
    pub open spec fn wf(self) -> bool {
        in_order(self@)
    }

    /// No notes.
    pub fn new() -> (r: Notes)
        ensures
            r.wf(),
            r@ == Seq::<(Seq<char>, NoteView)>::empty(),
    {
        let r = Notes { entries: Vec::new() };
        proof {
            assert(r@ =~= Seq::empty());
        }
        r
    }

    /// The note about a host.
    pub fn get(&self, id: &str) -> (r: Option<&Note>)
        ensures
            match r {
                Some(n) => note_of(self@, id@) == Some(n@),
                None => note_of(self@, id@) is None,
            },
    {
        let ghost all = self@;
        let mut i: usize = 0;
        proof {
            assert(all.skip(0) =~= all);
        }
        while i < self.entries.len()
            invariant
                i <= self.entries@.len(),
                all == self@,
                note_of(all, id@) == note_of(all.skip(i as int), id@),
            decreases self.entries@.len() - i,
        {
            proof {
                assert(all.skip(i as int).first() == all[i as int]);
                assert(all.skip(i as int).skip(1) =~= all.skip(i + 1));
            }
            if text::same(&self.entries[i].0, id) {
                return Some(&self.entries[i].1);
            }
            i += 1;
        }
        None
    }

    /// Keep what was written about one host.
    pub fn set(&mut self, id: String, note: Note)
        requires
            old(self).wf(),
        ensures
            final(self).wf(),
            note_of(final(self)@, id@) == Some(note@),
            forall|other: Seq<char>|
                other != id@ ==> #[trigger] note_of(final(self)@, other) == note_of(old(self)@, other),
            final(self)@.len() == old(self)@.len() + if note_of(old(self)@, id@) is Some {
                0int
            } else {
                1int
            },
    {
        let ghost before = self@;
        let ghost new = (id@, note@);
        let chars = text::chars_of(&id);
        let mut i: usize = 0;
        while i < self.entries.len()
            invariant
                i <= self.entries@.len(),
                before == self@,
                before == old(self)@,
                before.len() == self.entries@.len(),
                chars@ == id@,
                new == (id@, note@),
                in_order(before),
                forall|j: int| 0 <= j < i ==> order::text_lt((#[trigger] before[j]).0, id@),
            ensures
                i < before.len() ==> before[i as int].0 != id@ && !order::text_lt(before[i as int].0, id@),
            decreases self.entries@.len() - i,
        {
            let here = text::chars_of(&self.entries[i].0);
            proof {
                assert(before[i as int].0 == here@);
                order::lemma_lt_total(here@, id@);
            }
            if text::same_chars(&here, &chars) {
                self.entries[i].1 = note;
                proof {
                    let after = self@;
                    assert(after =~= before.update(i as int, new));
                    assert(in_order(after)) by {
                        assert forall|a: int, b: int| 0 <= a < b < after.len() implies order::text_lt(
                            (#[trigger] after[a]).0,
                            (#[trigger] after[b]).0,
                        ) by {
                            assert(after[a].0 == before[a].0 && after[b].0 == before[b].0);
                        }
                    }
                    lemma_note_at(after, i as int);
                    lemma_note_at(before, i as int);
                    assert forall|other: Seq<char>| other != new.0 implies #[trigger] note_of(after, other) == note_of(
                        before,
                        other,
                    ) by {
                        lemma_others(before, after, i as int, i as int, new.0, other);
                    }
                }
                return;
            }
            if !order::is_before(&here, &chars) {
                break;
            }
            i += 1;
        }
        proof {
            assert(i < before.len() ==> order::text_lt(id@, before[i as int].0)) by {
                if i < before.len() {
                    order::lemma_lt_total(before[i as int].0, id@);
                }
            }
        }
        self.entries.insert(i, (id, note));
        proof {
            let after = self@;
            assert(after =~= before.insert(i as int, new));
            assert forall|a: int, b: int| 0 <= a < b < after.len() implies order::text_lt(
                (#[trigger] after[a]).0,
                (#[trigger] after[b]).0,
            ) by {
                if b < i {
                    assert(after[a] == before[a] && after[b] == before[b]);
                } else if b == i {
                    assert(after[a] == before[a]);
                } else if a < i {
                    assert(after[a] == before[a] && after[b] == before[b - 1]);
                } else if a == i {
                    assert(after[b] == before[b - 1]);
                    if b - 1 > i {
                        order::lemma_lt_transitive(new.0, before[i as int].0, before[b - 1].0);
                    }
                } else {
                    assert(after[a] == before[a - 1] && after[b] == before[b - 1]);
                }
            }
            lemma_note_at(after, i as int);
            assert(after[i as int] == new);
            assert forall|j: int| 0 <= j < before.len() implies (#[trigger] before[j]).0 != new.0 by {
                order::lemma_lt_total(before[j].0, new.0);
                if j >= i {
                    assert(after[j + 1] == before[j]);
                    order::lemma_lt_total(new.0, before[j].0);
                } else {
                    assert(after[j] == before[j]);
                }
            }
            lemma_note_of(before, new.0);
            assert forall|other: Seq<char>| other != new.0 implies #[trigger] note_of(after, other) == note_of(
                before,
                other,
            ) by {
                lemma_inserted(before, i as int, new, other);
            }
        }
    }
}

/// An entry replaced by one with the same id changes no other.
proof fn lemma_others(
    before: Seq<(Seq<char>, NoteView)>,
    after: Seq<(Seq<char>, NoteView)>,
    i: int,
    n: int,
    id: Seq<char>,
    other: Seq<char>,
)
    requires
        0 <= i < before.len(),
        before[i].0 == id,
        after.len() == before.len(),
        after[i].0 == id,
        forall|j: int| 0 <= j < before.len() && j != i ==> #[trigger] after[j] == before[j],
        other != id,
    ensures
        note_of(after, other) == note_of(before, other),
    decreases before.len(),
{
    let a = after.skip(1);
    let b = before.skip(1);
    if i == 0 {
        assert(a =~= b) by {
            assert forall|j: int| 0 <= j < b.len() implies a[j] == b[j] by {
                assert(after[j + 1] == before[j + 1]);
            }
        }
    } else {
        assert(after[0] == before[0]);
        assert forall|j: int| 0 <= j < b.len() && j != i - 1 implies #[trigger] a[j] == b[j] by {
            assert(after[j + 1] == before[j + 1]);
        }
        lemma_others(b, a, i - 1, n, id, other);
    }
}

/// An entry put in changes no other.
proof fn lemma_inserted(before: Seq<(Seq<char>, NoteView)>, i: int, new: (Seq<char>, NoteView), other: Seq<char>)
    requires
        0 <= i <= before.len(),
        other != new.0,
    ensures
        note_of(before.insert(i, new), other) == note_of(before, other),
    decreases before.len(),
{
    let after = before.insert(i, new);
    if i == 0 {
        assert(after.skip(1) =~= before);
    } else {
        assert(after.first() == before.first());
        assert(after.skip(1) =~= before.skip(1).insert(i - 1, new));
        lemma_inserted(before.skip(1), i - 1, new, other);
    }
}

/// What a merge did.
#[derive(Clone, Copy, Debug, PartialEq, Eq, Structural)]
pub struct Merged {
    /// Notes the file brought that the database didn't have, or had older.
    pub taken: usize,
    /// Notes the database has that the file didn't, or had older.
    pub given: usize,
}

impl Default for Merged {
    fn default() -> (r: Merged)
        ensures
            r == (Merged { taken: 0, given: 0 }),
    {
        Merged { taken: 0, given: 0 }
    }
}

impl Merged {
    pub fn is_empty(&self) -> (r: bool)
        ensures
            r == (self.taken == 0 && self.given == 0),
    {
        self.taken == 0 && self.given == 0
    }
}

/// The file's note is taken: the database doesn't have it, or has it older.
pub open spec fn is_newer(entry: (Seq<char>, NoteView), db: Seq<(Seq<char>, NoteView)>) -> bool {
    match note_of(db, entry.0) {
        Some(ours) => ours.updated_at < entry.1.updated_at,
        None => true,
    }
}

/// The database's note replaces the file's: it is as new, and another.
pub open spec fn is_given(entry: (Seq<char>, NoteView), db: Seq<(Seq<char>, NoteView)>) -> bool {
    match note_of(db, entry.0) {
        Some(ours) => ours.updated_at >= entry.1.updated_at && ours != entry.1,
        None => false,
    }
}

/// The entries of the file that the database takes.
pub open spec fn taken_from(file: Seq<(Seq<char>, NoteView)>, db: Seq<(Seq<char>, NoteView)>) -> Seq<(Seq<char>, NoteView)> {
    file.filter(|e: (Seq<char>, NoteView)| is_newer(e, db))
}

/// How many of the database's notes the file didn't have, or had older.
pub open spec fn given_count(file: Seq<(Seq<char>, NoteView)>, db: Seq<(Seq<char>, NoteView)>) -> nat {
    file.filter(|e: (Seq<char>, NoteView)| is_given(e, db)).len() + db.filter(
        |e: (Seq<char>, NoteView)| note_of(file, e.0) is None,
    ).len()
}

/// The note about a host after a merge: the newer of the two.
pub open spec fn merged_note(
    file: Seq<(Seq<char>, NoteView)>,
    db: Seq<(Seq<char>, NoteView)>,
    id: Seq<char>,
) -> Option<NoteView> {
    match note_of(file, id) {
        Some(theirs) => if is_newer((id, theirs), db) {
            Some(theirs)
        } else {
            note_of(db, id)
        },
        None => note_of(db, id),
    }
}

fn copy_notes(notes: &Notes) -> (r: Notes)
    ensures
        r@ == notes@,
{
    let mut entries: Vec<(String, Note)> = Vec::new();
    let mut i: usize = 0;
    while i < notes.entries.len()
        invariant
            i <= notes.entries@.len(),
            entries@.len() == i,
            forall|j: int| 0 <= j < i ==> (#[trigger] listed(entries@)[j]) == notes@[j],
        decreases notes.entries@.len() - i,
    {
        let e = &notes.entries[i];
        let ghost was = listed(entries@);
        entries.push((e.0.clone(), e.1.copy()));
        proof {
            assert(listed(entries@) =~= was.push(notes@[i as int]));
        }
        i += 1;
    }
    let r = Notes { entries };
    proof {
        assert(r@ =~= notes@);
    }
    r
}

/// Bring the file and the database together: the newer note of the two
/// wins for each host. Returns what moved, and the merged set (what the
/// file should hold now), and the notes to write into the database.
pub fn merge(from_file: &Notes, from_db: &Notes) -> (r: (Merged, Notes, Vec<(String, Note)>))
    requires
        from_file.wf(),
        from_db.wf(),
    ensures
        r.0.taken == taken_from(from_file@, from_db@).len(),
        r.0.given == given_count(from_file@, from_db@),
        r.1.wf(),
        forall|id: Seq<char>| #[trigger] note_of(r.1@, id) == merged_note(from_file@, from_db@, id),
        listed(r.2@) == taken_from(from_file@, from_db@),
        r.0.taken == 0 && r.0.given == 0 <==> from_file@ == from_db@,
        from_file@ == from_db@ ==> r.1@ == from_file@ && r.2@.len() == 0,
{
    let ghost file = from_file@;
    let ghost db = from_db@;
    let ghost newer = |e: (Seq<char>, NoteView)| is_newer(e, db);
    let ghost given_by = |e: (Seq<char>, NoteView)| is_given(e, db);
    let ghost missing = |e: (Seq<char>, NoteView)| note_of(file, e.0) is None;
    let mut all = copy_notes(from_db);
    let mut into_db: Vec<(String, Note)> = Vec::new();
    let mut given: usize = 0;
    let mut i: usize = 0;
    proof {
        reveal(Seq::filter);
        assert(file.take(0) =~= Seq::empty());
        assert(listed(into_db@) =~= Seq::empty());
        assert forall|id: Seq<char>| #[trigger] note_of(all@, id) == merged_note(file.take(0), db, id) by {
            assert(note_of(file.take(0), id) is None);
        }
    }
    while i < from_file.entries.len()
        invariant
            i <= from_file.entries@.len(),
            file == from_file@,
            db == from_db@,
            file.len() == from_file.entries@.len(),
            in_order(file),
            newer == (|e: (Seq<char>, NoteView)| is_newer(e, db)),
            given_by == (|e: (Seq<char>, NoteView)| is_given(e, db)),
            all.wf(),
            listed(into_db@) == file.take(i as int).filter(newer),
            given == file.take(i as int).filter(given_by).len(),
            given <= i,
            forall|id: Seq<char>| #[trigger] note_of(all@, id) == merged_note(file.take(i as int), db, id),
        decreases from_file.entries@.len() - i,
    {
        let entry = &from_file.entries[i];
        let ghost e = file[i as int];
        let ghost was = listed(into_db@);
        let ghost before = all@;
        proof {
            reveal(Seq::filter);
            assert(e == (entry.0@, entry.1@));
            assert(file.take(i + 1).drop_last() =~= file.take(i as int));
            assert(file.take(i + 1).last() == e);
            assert forall|id: Seq<char>| #[trigger] note_of(file.take(i + 1), id) == if id == e.0 {
                Some(e.1)
            } else {
                note_of(file.take(i as int), id)
            } by {
                lemma_take_more(file, i as int, id);
            }
        }
        let kept = match from_db.get(&entry.0) {
            Some(ours) => {
                if ours.updated_at >= entry.1.updated_at {
                    if !ours.same(&entry.1) {
                        given += 1;
                    }
                    true
                } else {
                    false
                }
            },
            None => false,
        };
        if !kept {
            into_db.push((entry.0.clone(), entry.1.copy()));
            all.set(entry.0.clone(), entry.1.copy());
            proof {
                assert(listed(into_db@) =~= was.push(e));
            }
        }
        proof {
            assert(kept == !is_newer(e, db));
            assert forall|id: Seq<char>| #[trigger] note_of(all@, id) == merged_note(file.take(i + 1), db, id) by {
                assert(note_of(before, id) == merged_note(file.take(i as int), db, id));
                if id == e.0 {
                    assert(note_of(file.take(i + 1), id) == Some(e.1));
                    if kept {
                        lemma_not_before(file, i as int);
                    }
                } else {
                    assert(note_of(file.take(i + 1), id) == note_of(file.take(i as int), id));
                }
            }
        }
        i += 1;
    }
    let taken: usize = into_db.len();
    let mut only: usize = 0;
    let mut k: usize = 0;
    proof {
        assert(file.take(i as int) =~= file);
        assert(listed(into_db@).len() == into_db@.len());
        reveal(Seq::filter);
        assert(db.take(0) =~= Seq::empty());
    }
    while k < from_db.entries.len()
        invariant
            k <= from_db.entries@.len(),
            file == from_file@,
            db == from_db@,
            db.len() == from_db.entries@.len(),
            missing == (|e: (Seq<char>, NoteView)| note_of(file, e.0) is None),
            only == db.take(k as int).filter(missing).len(),
            only <= k,
        decreases from_db.entries@.len() - k,
    {
        proof {
            reveal(Seq::filter);
            assert(db.take(k + 1).drop_last() =~= db.take(k as int));
            assert(db.take(k + 1).last() == db[k as int]);
            assert(db[k as int].0 == from_db.entries@[k as int].0@);
        }
        if from_file.get(&from_db.entries[k].0).is_none() {
            only += 1;
        }
        k += 1;
    }
    proof {
        assert(db.take(k as int) =~= db);
        lemma_given_at_most(file, db);
        law_nothing_moves_between_equals(file, db);
        if file == db {
            assert forall|id: Seq<char>| #[trigger] note_of(all@, id) == note_of(file, id) by {
                assert(note_of(all@, id) == merged_note(file, db, id));
                law_merge_settles(file);
            }
            lemma_same_notes(all@, file);
        }
    }
    (Merged { taken, given: given + only }, all, into_db)
}

/// What is left of a list in order is in order.
proof fn lemma_filtered(s: Seq<(Seq<char>, NoteView)>, p: spec_fn((Seq<char>, NoteView)) -> bool)
    requires
        in_order(s),
    ensures
        in_order(s.filter(p)),
        forall|i: int| 0 <= i < s.filter(p).len() ==> s.contains(#[trigger] s.filter(p)[i]) && p(s.filter(p)[i]),
    decreases s.len(),
{
    reveal(Seq::filter);
    if s.len() > 0 {
        let front = s.drop_last();
        lemma_filtered(front, p);
        let some = front.filter(p);
        let all = s.filter(p);
        assert(s[s.len() - 1] == s.last());
        assert forall|i: int| 0 <= i < all.len() implies s.contains(#[trigger] all[i]) && p(all[i]) by {
            if i < some.len() {
                assert(all[i] == some[i]);
                let k = choose|k: int| 0 <= k < front.len() && front[k] == some[i];
                assert(s[k] == all[i]);
            }
        }
        assert forall|i: int, j: int| 0 <= i < j < all.len() implies order::text_lt(
            (#[trigger] all[i]).0,
            (#[trigger] all[j]).0,
        ) by {
            assert(all[i] == some[i]);
            if j < some.len() {
                assert(all[j] == some[j]);
            } else {
                let k = choose|k: int| 0 <= k < front.len() && front[k] == some[i];
                assert(s[k] == all[i] && s[s.len() - 1] == all[j]);
            }
        }
    }
}

/// Each note that the database gives is one of its own.
proof fn lemma_given_at_most(file: Seq<(Seq<char>, NoteView)>, db: Seq<(Seq<char>, NoteView)>)
    requires
        in_order(file),
        in_order(db),
    ensures
        given_count(file, db) <= db.len(),
{
    let given = file.filter(|e: (Seq<char>, NoteView)| is_given(e, db));
    let only = db.filter(|e: (Seq<char>, NoteView)| note_of(file, e.0) is None);
    lemma_filtered(file, |e: (Seq<char>, NoteView)| is_given(e, db));
    lemma_filtered(db, |e: (Seq<char>, NoteView)| note_of(file, e.0) is None);
    let ids = Seq::new(
        given.len() + only.len(),
        |i: int|
            if i < given.len() {
                given[i].0
            } else {
                only[i - given.len()].0
            },
    );
    let there = db.map_values(|e: (Seq<char>, NoteView)| e.0);
    assert forall|i: int, j: int| 0 <= i < j < ids.len() implies ids[i] != ids[j] by {
        order::lemma_lt_total(ids[i], ids[i]);
        if j < given.len() {
            assert(order::text_lt(given[i].0, given[j].0));
        } else if i >= given.len() {
            assert(order::text_lt(only[i - given.len()].0, only[j - given.len()].0));
        } else {
            let k = choose|k: int| 0 <= k < file.len() && file[k] == given[i];
            lemma_note_at(file, k);
            assert(note_of(file, only[j - given.len()].0) is None);
        }
    }
    assert forall|x: Seq<char>| ids.to_set().contains(x) implies there.to_set().contains(x) by {
        let i = choose|i: int| 0 <= i < ids.len() && ids[i] == x;
        if i < given.len() {
            lemma_note_of(db, x);
            let ours = note_of(db, x)->0;
            let k = choose|k: int| 0 <= k < db.len() && #[trigger] db[k] == (x, ours);
            assert(there[k] == x);
        } else {
            let k = choose|k: int| 0 <= k < db.len() && db[k] == only[i - given.len()];
            assert(there[k] == x);
        }
    }
    assert(ids.no_duplicates());
    ids.unique_seq_to_set();
    there.lemma_cardinality_of_set();
    vstd::set_lib::lemma_len_subset(ids.to_set(), there.to_set());
}

/// One entry more is found by its own id only.
proof fn lemma_take_more(file: Seq<(Seq<char>, NoteView)>, n: int, id: Seq<char>)
    requires
        in_order(file),
        0 <= n < file.len(),
    ensures
        note_of(file.take(n + 1), id) == if id == file[n].0 {
            Some(file[n].1)
        } else {
            note_of(file.take(n), id)
        },
{
    let more = file.take(n + 1);
    assert(in_order(more));
    if id == file[n].0 {
        assert(more[n] == file[n]);
        lemma_note_at(more, n);
    } else {
        assert(more =~= file.take(n).insert(n, file[n]));
        lemma_inserted(file.take(n), n, file[n], id);
    }
}

/// An entry's id isn't among those before it.
proof fn lemma_not_before(file: Seq<(Seq<char>, NoteView)>, n: int)
    requires
        in_order(file),
        0 <= n < file.len(),
    ensures
        note_of(file.take(n), file[n].0) is None,
{
    lemma_note_of(file.take(n), file[n].0);
    if note_of(file.take(n), file[n].0) is Some {
        let note = note_of(file.take(n), file[n].0)->0;
        let i = choose|i: int| 0 <= i < file.take(n).len() && #[trigger] file.take(n)[i] == (file[n].0, note);
        assert(file[i].0 == file[n].0);
        order::lemma_lt_total(file[i].0, file[n].0);
    }
}

/// Whether the file is written at start: it lacked something, or isn't
/// there while there are notes.
pub fn writes_file(moved: &Merged, all: &Notes, exists_already: bool) -> (r: bool)
    ensures
        r == (moved.given > 0 || (all@.len() > 0 && !exists_already)),
{
    proof {
        assert(all@.len() == all.entries@.len());
    }
    moved.given > 0 || (all.entries.len() > 0 && !exists_already)
}

/// The newer note wins: after a merge each host's note is as new as the
/// newer of the two sides', and it is one of them.
pub proof fn law_newer_note_wins(file: Seq<(Seq<char>, NoteView)>, db: Seq<(Seq<char>, NoteView)>, id: Seq<char>)
    ensures
        merged_note(file, db, id) is Some <==> note_of(file, id) is Some || note_of(db, id) is Some,
        merged_note(file, db, id) matches Some(n) ==> {
            &&& note_of(file, id) == Some(n) || note_of(db, id) == Some(n)
            &&& note_of(file, id) matches Some(a) ==> a.updated_at <= n.updated_at
            &&& note_of(db, id) matches Some(b) ==> b.updated_at <= n.updated_at
        },
{
}

/// A note that was cleared later replaces the older one: clearing travels
/// like any other change.
pub proof fn law_cleared_note_travels(file: Seq<(Seq<char>, NoteView)>, db: Seq<(Seq<char>, NoteView)>, id: Seq<char>)
    requires
        note_of(file, id) is Some,
        note_of(db, id) is Some,
        note_of(db, id)->0.updated_at < note_of(file, id)->0.updated_at,
    ensures
        merged_note(file, db, id) == note_of(file, id),
{
}

proof fn lemma_nothing_filtered(s: Seq<(Seq<char>, NoteView)>, keep: spec_fn((Seq<char>, NoteView)) -> bool)
    requires
        forall|i: int| 0 <= i < s.len() ==> !keep(#[trigger] s[i]),
    ensures
        s.filter(keep).len() == 0,
    decreases s.len(),
{
    reveal(Seq::filter);
    if s.len() > 0 {
        let front = s.drop_last();
        assert forall|i: int| 0 <= i < front.len() implies !keep(#[trigger] front[i]) by {
            assert(front[i] == s[i]);
        }
        lemma_nothing_filtered(front, keep);
        assert(s[s.len() - 1] == s.last());
    }
}

/// Once both sides hold the merged notes, another merge moves nothing.
pub proof fn law_merge_settles(all: Seq<(Seq<char>, NoteView)>)
    requires
        in_order(all),
    ensures
        taken_from(all, all).len() == 0,
        given_count(all, all) == 0,
        forall|id: Seq<char>| #[trigger] merged_note(all, all, id) == note_of(all, id),
{
    assert forall|i: int| 0 <= i < all.len() implies note_of(all, (#[trigger] all[i]).0) == Some(all[i].1) by {
        lemma_note_at(all, i);
    }
    lemma_nothing_filtered(all, |e: (Seq<char>, NoteView)| is_newer(e, all));
    lemma_nothing_filtered(all, |e: (Seq<char>, NoteView)| is_given(e, all));
    lemma_nothing_filtered(all, |e: (Seq<char>, NoteView)| note_of(all, e.0) is None);
}

proof fn lemma_none_filtered(s: Seq<(Seq<char>, NoteView)>, p: spec_fn((Seq<char>, NoteView)) -> bool)
    requires
        s.filter(p).len() == 0,
    ensures
        forall|i: int| 0 <= i < s.len() ==> !p(#[trigger] s[i]),
    decreases s.len(),
{
    reveal(Seq::filter);
    if s.len() > 0 {
        let front = s.drop_last();
        lemma_none_filtered(front, p);
        assert forall|i: int| 0 <= i < s.len() implies !p(#[trigger] s[i]) by {
            if i < front.len() {
                assert(front[i] == s[i]);
            }
        }
    }
}

/// Two lists in order that hold the same entries are equal.
proof fn lemma_same_entries(a: Seq<(Seq<char>, NoteView)>, b: Seq<(Seq<char>, NoteView)>)
    requires
        in_order(a),
        in_order(b),
        forall|i: int| 0 <= i < a.len() ==> b.contains(#[trigger] a[i]),
        forall|i: int| 0 <= i < b.len() ==> a.contains(#[trigger] b[i]),
    ensures
        a == b,
    decreases a.len(),
{
    if a.len() == 0 {
        if b.len() > 0 {
            assert(a.contains(b[0]));
        }
        assert(a =~= b);
    } else {
        assert(b.contains(a[0]));
        let j = choose|j: int| 0 <= j < b.len() && b[j] == a[0];
        assert(a.contains(b[0]));
        let i = choose|i: int| 0 <= i < a.len() && a[i] == b[0];
        if i > 0 && j > 0 {
            assert(order::text_lt(a[0].0, a[i].0));
            assert(order::text_lt(b[0].0, b[j].0));
            order::lemma_lt_total(a[0].0, b[0].0);
        }
        assert(a[0] == b[0]);
        let c = a.skip(1);
        let d = b.skip(1);
        assert forall|x: int, y: int| 0 <= x < y < c.len() implies order::text_lt(
            (#[trigger] c[x]).0,
            (#[trigger] c[y]).0,
        ) by {
            assert(c[x] == a[x + 1] && c[y] == a[y + 1]);
        }
        assert forall|x: int, y: int| 0 <= x < y < d.len() implies order::text_lt(
            (#[trigger] d[x]).0,
            (#[trigger] d[y]).0,
        ) by {
            assert(d[x] == b[x + 1] && d[y] == b[y + 1]);
        }
        order::lemma_lt_total(a[0].0, a[0].0);
        assert forall|x: int| 0 <= x < c.len() implies d.contains(#[trigger] c[x]) by {
            assert(c[x] == a[x + 1]);
            assert(b.contains(a[x + 1]));
            let y = choose|y: int| 0 <= y < b.len() && b[y] == a[x + 1];
            assert(order::text_lt(a[0].0, a[x + 1].0));
            assert(y != 0);
            assert(d[y - 1] == c[x]);
        }
        assert forall|x: int| 0 <= x < d.len() implies c.contains(#[trigger] d[x]) by {
            assert(d[x] == b[x + 1]);
            assert(a.contains(b[x + 1]));
            let y = choose|y: int| 0 <= y < a.len() && a[y] == b[x + 1];
            assert(order::text_lt(b[0].0, b[x + 1].0));
            assert(y != 0);
            assert(c[y - 1] == d[x]);
        }
        lemma_same_entries(c, d);
        assert(a =~= seq![a[0]] + c);
        assert(b =~= seq![b[0]] + d);
    }
}

/// Two lists in order with the same note about each host are equal.
proof fn lemma_same_notes(a: Seq<(Seq<char>, NoteView)>, b: Seq<(Seq<char>, NoteView)>)
    requires
        in_order(a),
        in_order(b),
        forall|id: Seq<char>| #[trigger] note_of(a, id) == note_of(b, id),
    ensures
        a == b,
{
    assert forall|i: int| 0 <= i < a.len() implies b.contains(#[trigger] a[i]) by {
        lemma_note_at(a, i);
        lemma_note_of(b, a[i].0);
        assert(note_of(b, a[i].0) == Some(a[i].1));
        let j = choose|j: int| 0 <= j < b.len() && #[trigger] b[j] == (a[i].0, a[i].1);
        assert(b[j] == a[i]);
    }
    assert forall|i: int| 0 <= i < b.len() implies a.contains(#[trigger] b[i]) by {
        lemma_note_at(b, i);
        lemma_note_of(a, b[i].0);
        assert(note_of(a, b[i].0) == Some(b[i].1));
        let j = choose|j: int| 0 <= j < a.len() && #[trigger] a[j] == (b[i].0, b[i].1);
        assert(a[j] == b[i]);
    }
    lemma_same_entries(a, b);
}

/// A merge moves nothing exactly where the file and the database hold the
/// same notes.
pub proof fn law_nothing_moves_between_equals(file: Seq<(Seq<char>, NoteView)>, db: Seq<(Seq<char>, NoteView)>)
    requires
        in_order(file),
        in_order(db),
    ensures
        taken_from(file, db).len() == 0 && given_count(file, db) == 0 <==> file == db,
{
    let newer = |e: (Seq<char>, NoteView)| is_newer(e, db);
    let given = |e: (Seq<char>, NoteView)| is_given(e, db);
    let missing = |e: (Seq<char>, NoteView)| note_of(file, e.0) is None;
    if taken_from(file, db).len() == 0 && given_count(file, db) == 0 {
        lemma_none_filtered(file, newer);
        lemma_none_filtered(file, given);
        lemma_none_filtered(db, missing);
        assert forall|i: int| 0 <= i < file.len() implies db.contains(#[trigger] file[i]) by {
            let e = file[i];
            assert(!newer(e) && !given(e));
            lemma_note_of(db, e.0);
            assert(note_of(db, e.0) == Some(e.1));
            let j = choose|j: int| 0 <= j < db.len() && #[trigger] db[j] == (e.0, e.1);
            assert(db[j] == e);
        }
        assert forall|i: int| 0 <= i < db.len() implies file.contains(#[trigger] db[i]) by {
            let e = db[i];
            assert(!missing(e));
            lemma_note_of(file, e.0);
            let theirs = note_of(file, e.0)->0;
            let j = choose|j: int| 0 <= j < file.len() && #[trigger] file[j] == (e.0, theirs);
            assert(!newer(file[j]) && !given(file[j]));
            lemma_note_at(db, i);
            assert(file[j] == e);
        }
        lemma_same_entries(file, db);
    }
    if file == db {
        assert forall|i: int| 0 <= i < file.len() implies !newer(#[trigger] file[i]) && !given(file[i]) && !missing(
            file[i],
        ) by {
            lemma_note_at(file, i);
        }
        lemma_nothing_filtered(file, newer);
        lemma_nothing_filtered(file, given);
        lemma_nothing_filtered(db, missing);
    }
}

/// A note is the first about its host.
pub proof fn law_note_about_a_host(e: (Seq<char>, NoteView), entries: Seq<(Seq<char>, NoteView)>, id: Seq<char>)
    ensures
        note_of(Seq::empty(), id) is None,
        e.0 == id ==> note_of(seq![e] + entries, id) == Some(e.1),
        e.0 != id ==> note_of(seq![e] + entries, id) == note_of(entries, id),
{
    assert((seq![e] + entries).skip(1) =~= entries);
    assert((seq![e] + entries).first() == e);
}

/// A note goes to the database where it is newer there than what the
/// database has, or the database has none; the file gets the other, also
/// where both are as new but differ, and what it lacks.
pub proof fn law_which_way_a_note_goes(
    file: Seq<(Seq<char>, NoteView)>,
    db: Seq<(Seq<char>, NoteView)>,
    e: (Seq<char>, NoteView),
)
    ensures
        note_of(db, e.0) is None ==> is_newer(e, db) && !is_given(e, db),
        note_of(db, e.0) matches Some(ours) ==> (is_newer(e, db) <==> e.1.updated_at > ours.updated_at),
        note_of(db, e.0) matches Some(ours) ==> (is_given(e, db) <==> e.1.updated_at <= ours.updated_at && e.1 != ours),
        note_of(file, e.0) is None ==> merged_note(file, db, e.0) == note_of(db, e.0),
        note_of(db, e.0) is None ==> merged_note(file, db, e.0) == note_of(file, e.0),
        note_of(file, e.0) matches Some(theirs) ==> (note_of(db, e.0) matches Some(ours) ==> (ours.updated_at >= theirs.updated_at
            ==> merged_note(file, db, e.0) == Some(ours))),
        is_newer(e, db) ==> taken_from(file.push(e), db) == taken_from(file, db).push(e),
        !is_newer(e, db) ==> taken_from(file.push(e), db) == taken_from(file, db),
        taken_from(Seq::empty(), db) == Seq::<(Seq<char>, NoteView)>::empty(),
{
    reveal(Seq::filter);
    assert(file.push(e).drop_last() =~= file);
    assert(taken_from(Seq::empty(), db) =~= Seq::empty());
}

/// Notes that are in order stand once under each id, the ids rising.
pub proof fn law_notes_in_order(entries: Seq<(Seq<char>, NoteView)>, i: int, j: int)
    requires
        in_order(entries),
        0 <= i < j < entries.len(),
    ensures
        order::text_lt(entries[i].0, entries[j].0),
{
}

} // verus!
