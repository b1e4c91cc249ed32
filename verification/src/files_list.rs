//! A list of files, on either side of the files window: what it shows, in
//! which order, and what is selected.

use vstd::prelude::*;

use crate::order;
use crate::text;

verus! {

/// A file or folder as it is listed: `key` identifies it for the selection.
#[derive(Clone, Debug, PartialEq, Eq)]
pub struct Row {
    pub key: Vec<u8>,
    pub name: String,
    /// A folder, or a link to one.
    pub dir: bool,
    pub link: bool,
    pub size: Option<u64>,
    /// When it was changed, in seconds since the epoch.
    pub modified: Option<u64>,
    pub permissions: Option<u32>,
}

/// A file or folder as it is listed.
pub struct RowView {
    pub key: Seq<u8>,
    pub name: Seq<char>,
    pub dir: bool,
    pub link: bool,
    pub size: Option<u64>,
    pub modified: Option<u64>,
    pub permissions: Option<u32>,
}

impl View for Row {
    type V = RowView;

    open spec fn view(&self) -> RowView {
        RowView {
            key: self.key@,
            name: self.name@,
            dir: self.dir,
            link: self.link,
            size: self.size,
            modified: self.modified,
            permissions: self.permissions,
        }
    }
}

/// The rows of a list.
pub open spec fn rows(v: Seq<Row>) -> Seq<RowView> {
    v.map_values(|r: Row| r@)
}

/// A row comes before another: folders first, then by the name in lower
/// case.
pub open spec fn listed_before(a: RowView, b: RowView) -> bool {
    if a.dir == b.dir {
        order::text_lt(text::lowercase_text(a.name), text::lowercase_text(b.name))
    } else {
        a.dir
    }
}

/// A row put into a list in order, behind what is not after it.
pub open spec fn put_row(s: Seq<RowView>, x: RowView) -> Seq<RowView>
    decreases s.len(),
{
    if s.len() > 0 && listed_before(x, s.last()) {
        put_row(s.drop_last(), x).push(s.last())
    } else {
        s.push(x)
    }
}

/// The rows in the order of a list.
pub open spec fn in_order(s: Seq<RowView>) -> Seq<RowView>
    decreases s.len(),
{
    if s.len() == 0 {
        s
    } else {
        put_row(in_order(s.drop_last()), s.last())
    }
}

fn before(a: &Row, b: &Row) -> (r: bool)
    ensures
        r == listed_before(a@, b@),
{
    if a.dir == b.dir {
        let x = text::to_lower(&a.name);
        let y = text::to_lower(&b.name);
        order::is_before(&text::chars_of(&x), &text::chars_of(&y))
    } else {
        a.dir
    }
}

fn put(list: &mut Vec<Row>, x: Row)
    ensures
        rows(final(list)@) == put_row(rows(old(list)@), x@),
{
    let ghost all = rows(list@);
    let ghost was = list@;
    let mut i: usize = list.len();
    proof {
        assert(all.take(i as int) =~= all);
        assert(put_row(all, x@) =~= put_row(all.take(i as int), x@) + all.skip(i as int));
    }
    while i > 0
        invariant
            i <= list@.len(),
            list@ == was,
            all == rows(was),
            put_row(all, x@) == put_row(all.take(i as int), x@) + all.skip(i as int),
        ensures
            i <= list@.len(),
            list@ == was,
            put_row(all, x@) == put_row(all.take(i as int), x@) + all.skip(i as int),
            i > 0 ==> !listed_before(x@, all[i - 1]),
        decreases i,
    {
        if !before(&x, &list[i - 1]) {
            break;
        }
        proof {
            assert(all.take(i as int).drop_last() =~= all.take(i - 1));
            assert(all.take(i as int).last() == all[i - 1]);
            assert(put_row(all.take(i - 1), x@).push(all[i - 1]) + all.skip(i as int) =~= put_row(
                all.take(i - 1),
                x@,
            ) + all.skip(i - 1));
        }
        i -= 1;
    }
    list.insert(i, x);
    proof {
        if i > 0 {
            assert(all.take(i as int).last() == all[i - 1]);
        }
        assert(put_row(all.take(i as int), x@) == all.take(i as int).push(x@));
        assert(rows(list@) =~= all.take(i as int).push(x@) + all.skip(i as int));
    }
}

/// A drive as it is listed: a folder of which nothing else is known.
pub open spec fn drive_row(key: Seq<u8>, name: Seq<char>) -> RowView {
    RowView { key, name, dir: true, link: false, size: None, modified: None, permissions: None }
}

/// The rows of the drives, in the order of the system, each by its path and
/// how that is shown.
pub fn drive_rows(drives: Vec<(Vec<u8>, String)>) -> (r: Vec<Row>)
    ensures
        rows(r@) == drives@.map_values(|d: (Vec<u8>, String)| drive_row(d.0@, d.1@)),
{
    let ghost all = drives@.map_values(|d: (Vec<u8>, String)| drive_row(d.0@, d.1@));
    let mut rest = drives;
    let mut back: Vec<Row> = Vec::new();
    while rest.len() > 0
        invariant
            all == drives@.map_values(|d: (Vec<u8>, String)| drive_row(d.0@, d.1@)),
            rest@.len() + back@.len() == drives@.len(),
            rest@ == drives@.take(rest@.len() as int),
            rows(back@) == all.skip(rest@.len() as int),
        decreases rest@.len(),
    {
        let ghost n = rest@.len() - 1;
        let ghost before = rows(back@);
        if let Some((key, name)) = rest.pop() {
            let row = Row { key, name, dir: true, link: false, size: None, modified: None, permissions: None };
            proof {
                assert(drives@.take(n + 1).drop_last() =~= drives@.take(n));
                assert(row@ == all[n]);
            }
            back.insert(0, row);
            proof {
                assert(back@.len() == all.len() - n);
                assert forall|k: int| 0 <= k < rows(back@).len() implies rows(back@)[k] == all.skip(n)[k] by {
                    if k > 0 {
                        assert(rows(back@)[k] == before[k - 1]);
                        assert(before[k - 1] == all[n + k]);
                    }
                }
                assert(rows(back@) =~= all.skip(n));
            }
        }
    }
    proof {
        assert(all.skip(0) =~= all);
    }
    back
}

/// The rows in the order of a list: folders first, by name.
pub fn sort_rows(list: Vec<Row>) -> (r: Vec<Row>)
    ensures
        rows(r@) == in_order(rows(list@)),
{
    let ghost all = rows(list@);
    let mut rest = list;
    let mut r: Vec<Row> = Vec::new();
    let ghost mut i: int = 0;
    proof {
        assert(all.take(0) =~= Seq::empty());
        assert(rows(r@) =~= Seq::empty());
        assert(all.skip(0) =~= all);
    }
    while rest.len() > 0
        invariant
            0 <= i <= all.len(),
            rows(rest@) == all.skip(i),
            rows(r@) == in_order(all.take(i)),
        decreases rest@.len(),
    {
        let ghost held = rest@;
        let x = rest.remove(0);
        proof {
            assert(rows(held)[0] == x@);
            assert(rows(held).len() == held.len());
            assert(all[i] == x@);
            assert(all.take(i + 1).drop_last() =~= all.take(i));
            assert(all.take(i + 1).last() == x@);
            assert(rest@ =~= held.skip(1));
            assert(rows(rest@) =~= rows(held).skip(1));
            assert(rows(held).skip(1) =~= all.skip(i + 1));
        }
        put(&mut r, x);
        proof {
            i = i + 1;
        }
    }
    proof {
        assert(rows(rest@).len() == rest@.len());
        assert(all.take(i) =~= all);
    }
    r
}

/// No row comes before an earlier one.
pub open spec fn is_sorted(s: Seq<RowView>) -> bool {
    forall|i: int, j: int| #![trigger s[i], s[j]] 0 <= i < j < s.len() ==> !listed_before(s[j], s[i])
}

proof fn lemma_before(a: RowView, b: RowView, c: RowView)
    ensures
        listed_before(a, b) ==> !listed_before(b, a),
        listed_before(a, b) && !listed_before(c, b) ==> listed_before(a, c),
        !listed_before(b, a) && !listed_before(c, b) ==> !listed_before(c, a),
{
    let (x, y, z) = (text::lowercase_text(a.name), text::lowercase_text(b.name), text::lowercase_text(c.name));
    order::lemma_lt_total(x, y);
    order::lemma_lt_total(y, z);
    order::lemma_lt_total(x, z);
    if order::text_lt(x, y) && order::text_lt(y, z) {
        order::lemma_lt_transitive(x, y, z);
    }
    if order::text_lt(z, x) && order::text_lt(x, y) {
        order::lemma_lt_transitive(z, x, y);
    }
    if order::text_lt(z, y) && order::text_lt(y, x) {
        order::lemma_lt_transitive(z, y, x);
    }
}

proof fn lemma_put_row(s: Seq<RowView>, x: RowView)
    requires
        is_sorted(s),
    ensures
        is_sorted(put_row(s, x)),
        put_row(s, x).to_multiset() == s.to_multiset().insert(x),
        put_row(s, x).len() == s.len() + 1,
    decreases s.len(),
{
    broadcast use vstd::seq_lib::group_to_multiset_ensures;

    let r = put_row(s, x);
    if s.len() > 0 && listed_before(x, s.last()) {
        let rest = s.drop_last();
        assert forall|i: int, j: int| #![trigger rest[i], rest[j]] 0 <= i < j < rest.len() implies !listed_before(
            rest[j],
            rest[i],
        ) by {
            assert(rest[i] == s[i] && rest[j] == s[j]);
        }
        lemma_put_row(rest, x);
        let inner = put_row(rest, x);
        assert(r =~= inner.push(s.last()));
        assert(rest.push(s.last()) =~= s);
        assert(inner.to_multiset().insert(s.last()) =~= rest.to_multiset().insert(s.last()).insert(x));
        assert forall|i: int, j: int| #![trigger r[i], r[j]] 0 <= i < j < r.len() implies !listed_before(
            r[j],
            r[i],
        ) by {
            if j < inner.len() {
                assert(r[i] == inner[i] && r[j] == inner[j]);
            } else {
                assert(r[j] == s.last());
                assert(r[i] == inner[i]);
                assert(inner.to_multiset().contains(inner[i]));
                assert(rest.to_multiset().insert(x).contains(inner[i]));
                if inner[i] == x {
                    lemma_before(x, s.last(), x);
                } else {
                    assert(rest.to_multiset().contains(inner[i]));
                    assert(rest.contains(inner[i]));
                    let k = choose|k: int| 0 <= k < rest.len() && rest[k] == inner[i];
                    assert(s[k] == inner[i]);
                    assert(s[s.len() - 1] == s.last());
                }
            }
        }
    } else {
        assert forall|i: int, j: int| #![trigger r[i], r[j]] 0 <= i < j < r.len() implies !listed_before(
            r[j],
            r[i],
        ) by {
            if j < s.len() {
                assert(r[i] == s[i] && r[j] == s[j]);
            } else {
                assert(r[j] == x && r[i] == s[i]);
                assert(s[s.len() - 1] == s.last());
                if i < s.len() - 1 {
                    lemma_before(s[i], s.last(), x);
                }
            }
        }
    }
}

/// Listing puts folders first and then goes by name; it neither loses nor
/// adds a row.
pub proof fn law_listed_in_order(s: Seq<RowView>)
    ensures
        is_sorted(in_order(s)),
        in_order(s).to_multiset() == s.to_multiset(),
        forall|i: int, j: int|
            #![trigger in_order(s)[i], in_order(s)[j]]
            0 <= i < j < in_order(s).len() && in_order(s)[j].dir ==> in_order(s)[i].dir,
    decreases s.len(),
{
    broadcast use vstd::seq_lib::group_to_multiset_ensures;

    if s.len() > 0 {
        law_listed_in_order(s.drop_last());
        lemma_put_row(in_order(s.drop_last()), s.last());
        assert(s.drop_last().push(s.last()) =~= s);
    }
    let r = in_order(s);
    assert forall|i: int, j: int| #![trigger r[i], r[j]] 0 <= i < j < r.len() && r[j].dir implies r[i].dir by {
        assert(!listed_before(r[j], r[i]));
    }
}

/// What is selected in a list, and where a range starts.
#[derive(Debug)]
pub struct Selection {
    pub keys: Vec<Vec<u8>>,
    pub anchor: Option<usize>,
}

/// The keys of a list.
pub open spec fn keys_of(v: Seq<Vec<u8>>) -> Seq<Seq<u8>> {
    v.map_values(|k: Vec<u8>| k@)
}

/// The keys of rows.
pub open spec fn row_keys(v: Seq<Row>) -> Seq<Seq<u8>> {
    v.map_values(|r: Row| r.key@)
}

impl View for Selection {
    type V = Set<Seq<u8>>;

    open spec fn view(&self) -> Set<Seq<u8>> {
        keys_of(self.keys@).to_set()
    }
}

/// Whether two keys are the same.
pub fn same_key(a: &[u8], b: &[u8]) -> (r: bool)
    ensures
        r == (a@ == b@),
{
    if a.len() != b.len() {
        return false;
    }
    let mut i: usize = 0;
    while i < a.len()
        invariant
            i <= a@.len(),
            a@.len() == b@.len(),
            forall|j: int| 0 <= j < i ==> a@[j] == b@[j],
        decreases a@.len() - i,
    {
        if a[i] != b[i] {
            return false;
        }
        i += 1;
    }
    proof {
        assert(a@ =~= b@);
    }
    true
}

/// The bytes of a key again.
pub fn copy_key(key: &[u8]) -> (r: Vec<u8>)
    ensures
        r@ == key@,
{
    let mut r: Vec<u8> = Vec::new();
    let mut i: usize = 0;
    while i < key.len()
        invariant
            i <= key@.len(),
            r@ == key@.take(i as int),
        decreases key@.len() - i,
    {
        r.push(key[i]);
        proof {
            assert(key@.take(i + 1) =~= key@.take(i as int).push(key@[i as int]));
        }
        i += 1;
    }
    proof {
        assert(key@.take(i as int) =~= key@);
    }
    r
}

/// What a click with these keys held down makes of the selection: Shift
/// takes the rows from the anchor on (or the row alone, where there is no
/// row at the anchor any more), Ctrl turns one row round, nothing else
/// selects one row alone.
pub open spec fn after_click(
    selected: Set<Seq<u8>>,
    anchor: Option<usize>,
    keys: Seq<Seq<u8>>,
    i: int,
    shift: bool,
    command: bool,
) -> Set<Seq<u8>> {
    if shift {
        let from = match anchor {
            Some(a) if a < keys.len() => a as int,
            _ => i,
        };
        let range = if from <= i {
            keys.subrange(from, i + 1)
        } else {
            keys.subrange(i, from + 1)
        };
        if command {
            selected.union(range.to_set())
        } else {
            range.to_set()
        }
    } else if command {
        if selected.contains(keys[i]) {
            selected.remove(keys[i])
        } else {
            selected.insert(keys[i])
        }
    } else {
        set![keys[i]]
    }
}

impl Selection {
    /// No key twice.
    pub open spec fn wf(self) -> bool {
        keys_of(self.keys@).no_duplicates()
    }

    /// Nothing is selected.
    pub fn none() -> (r: Selection)
        ensures
            r.wf(),
            r@ == Set::<Seq<u8>>::empty(),
            r.anchor is None,
            r.keys@.len() == 0,
    {
        let r = Selection { keys: Vec::new(), anchor: None };
        proof {
            assert(r@ =~= Set::empty());
        }
        r
    }

    /// Whether a key is selected.
    pub fn contains(&self, key: &[u8]) -> (r: bool)
        ensures
            r == self@.contains(key@),
    {
        let mut i: usize = 0;
        while i < self.keys.len()
            invariant
                i <= self.keys@.len(),
                forall|j: int| 0 <= j < i ==> (#[trigger] self.keys@[j])@ != key@,
            decreases self.keys@.len() - i,
        {
            if same_key(&self.keys[i], key) {
                proof {
                    assert(keys_of(self.keys@)[i as int] == key@);
                }
                return true;
            }
            i += 1;
        }
        proof {
            if self@.contains(key@) {
                let k = choose|k: int| 0 <= k < keys_of(self.keys@).len() && keys_of(self.keys@)[k] == key@;
                assert(self.keys@[k]@ == key@);
            }
        }
        false
    }

    fn insert(&mut self, key: &[u8])
        requires
            old(self).wf(),
        ensures
            final(self).wf(),
            final(self)@ == old(self)@.insert(key@),
            final(self).anchor == old(self).anchor,
    {
        if self.contains(key) {
            proof {
                assert(self@.insert(key@) =~= self@);
            }
            return;
        }
        let ghost was = keys_of(self.keys@);
        let ghost set = self@;
        let copied = copy_key(key);
        self.keys.push(copied);
        proof {
            let now = keys_of(self.keys@);
            assert(now =~= was.push(key@));
            assert(!was.contains(key@)) by {
                if was.contains(key@) {
                    assert(set.contains(key@));
                }
            }
            assert(now.no_duplicates());
            assert(self@ =~= set.insert(key@)) by {
                assert forall|k: Seq<u8>| self@.contains(k) <==> set.insert(key@).contains(k) by {
                    if self@.contains(k) {
                        let i = choose|i: int| 0 <= i < now.len() && now[i] == k;
                        if i < was.len() {
                            assert(was[i] == k);
                            assert(was.contains(k));
                        }
                    }
                    if set.contains(k) {
                        let i = choose|i: int| 0 <= i < was.len() && was[i] == k;
                        assert(now[i] == k);
                    }
                    if k == key@ {
                        assert(now[was.len() as int] == k);
                    }
                }
            }
        }
    }

    fn remove(&mut self, key: &[u8])
        requires
            old(self).wf(),
        ensures
            final(self).wf(),
            final(self)@ == old(self)@.remove(key@),
            final(self).anchor == old(self).anchor,
    {
        let ghost was = keys_of(self.keys@);
        let ghost set = self@;
        let mut i: usize = 0;
        while i < self.keys.len()
            invariant
                i <= self.keys@.len(),
                was == keys_of(self.keys@),
                set == self@,
                set == was.to_set(),
                self.wf(),
                self.anchor == old(self).anchor,
                set == old(self)@,
                forall|j: int| 0 <= j < i ==> (#[trigger] self.keys@[j])@ != key@,
            decreases self.keys@.len() - i,
        {
            if same_key(&self.keys[i], key) {
                proof {
                    assert(was[i as int] == key@);
                }
                let _ = self.keys.remove(i);
                proof {
                    let now = keys_of(self.keys@);
                    assert(now =~= was.remove(i as int));
                    assert(now.no_duplicates()) by {
                        assert forall|a: int, b: int|
                            0 <= a < now.len() && 0 <= b < now.len() && a != b implies now[a] != now[b] by {
                            let x = if a < i {
                                a
                            } else {
                                a + 1
                            };
                            let y = if b < i {
                                b
                            } else {
                                b + 1
                            };
                            assert(now[a] == was[x] && now[b] == was[y]);
                        }
                    }
                    assert(self@ =~= set.remove(key@)) by {
                        assert forall|k: Seq<u8>| self@.contains(k) <==> set.remove(key@).contains(k) by {
                            if self@.contains(k) {
                                let a = choose|a: int| 0 <= a < now.len() && now[a] == k;
                                let x = if a < i {
                                    a
                                } else {
                                    a + 1
                                };
                                assert(was[x] == k);
                                assert(was[x] != was[i as int]);
                            }
                            if set.remove(key@).contains(k) {
                                let a = choose|a: int| 0 <= a < was.len() && was[a] == k;
                                let x = if a < i {
                                    a
                                } else {
                                    a - 1
                                };
                                assert(now[x] == k);
                            }
                        }
                    }
                }
                return;
            }
            i += 1;
        }
        proof {
            assert(!set.contains(key@)) by {
                if set.contains(key@) {
                    let k = choose|k: int| 0 <= k < was.len() && was[k] == key@;
                    assert(self.keys@[k]@ == key@);
                }
            }
            assert(set.remove(key@) =~= set);
        }
    }

    /// One row alone is selected.
    pub fn only(&mut self, key: &[u8], i: usize)
        ensures
            final(self).wf(),
            final(self)@ == set![key@],
            final(self).anchor == Some(i),
    {
        self.keys = Vec::new();
        proof {
            assert(self@ =~= Set::empty());
        }
        self.insert(key);
        self.anchor = Some(i);
        proof {
            assert(self@ =~= set![key@]);
        }
    }

    /// A row was clicked.
    pub fn click(&mut self, rows: &[Row], i: usize, shift: bool, command: bool)
        requires
            old(self).wf(),
            i < rows@.len(),
        ensures
            final(self).wf(),
            final(self)@ == after_click(old(self)@, old(self).anchor, row_keys(rows@), i as int, shift, command),
            final(self).anchor == (if shift {
                old(self).anchor
            } else {
                Some(i)
            }),
    {
        let ghost keys = row_keys(rows@);
        if shift {
            let from: usize = match self.anchor {
                Some(a) if a < rows.len() => a,
                _ => i,
            };
            let (a, b): (usize, usize) = if from <= i {
                (from, i)
            } else {
                (i, from)
            };
            if !command {
                self.keys = Vec::new();
                proof {
                    assert(self@ =~= Set::empty());
                }
            }
            let ghost start = self@;
            let mut k: usize = a;
            proof {
                assert(keys.subrange(a as int, a as int).to_set() =~= Set::empty());
                assert(start.union(keys.subrange(a as int, a as int).to_set()) =~= start);
            }
            while k <= b
                invariant
                    a <= k <= b + 1,
                    b < rows@.len(),
                    keys == row_keys(rows@),
                    self.wf(),
                    self.anchor == old(self).anchor,
                    self@ == start.union(keys.subrange(a as int, k as int).to_set()),
                decreases b + 1 - k,
            {
                self.insert(&rows[k].key);
                proof {
                    let was = keys.subrange(a as int, k as int);
                    let now = keys.subrange(a as int, k + 1);
                    assert(now =~= was.push(keys[k as int]));
                    assert(now.to_set() =~= was.to_set().insert(keys[k as int])) by {
                        assert forall|x: Seq<u8>| now.to_set().contains(x) <==> was.to_set().insert(
                            keys[k as int],
                        ).contains(x) by {
                            if now.contains(x) {
                                let j = choose|j: int| 0 <= j < now.len() && now[j] == x;
                                if j < was.len() {
                                    assert(was[j] == x);
                                }
                            }
                            if was.contains(x) {
                                let j = choose|j: int| 0 <= j < was.len() && was[j] == x;
                                assert(now[j] == x);
                            }
                            assert(now[was.len() as int] == keys[k as int]);
                        }
                    }
                    assert(start.union(was.to_set()).insert(keys[k as int]) =~= start.union(now.to_set()));
                }
                k += 1;
            }
            proof {
                if !command {
                    assert(start.union(keys.subrange(a as int, b + 1).to_set()) =~= keys.subrange(
                        a as int,
                        b + 1,
                    ).to_set());
                }
            }
        } else if command {
            if self.contains(&rows[i].key) {
                self.remove(&rows[i].key);
            } else {
                self.insert(&rows[i].key);
            }
            self.anchor = Some(i);
        } else {
            self.only(&rows[i].key, i);
        }
    }

    /// A row is about to be dragged, or its menu opens: it is selected alone
    /// unless it is selected already.
    pub fn take(&mut self, rows: &[Row], i: usize)
        requires
            old(self).wf(),
            i < rows@.len(),
        ensures
            final(self).wf(),
            final(self)@.contains(rows@[i as int].key@),
            old(self)@.contains(rows@[i as int].key@) ==> *final(self) == *old(self),
            !old(self)@.contains(rows@[i as int].key@) ==> {
                &&& final(self)@ == set![rows@[i as int].key@]
                &&& final(self).anchor == Some(i)
            },
    {
        if !self.contains(&rows[i].key) {
            self.only(&rows[i].key, i);
        }
    }

    /// Only what is listed stays selected.
    pub fn retain(&mut self, rows: &[Row])
        requires
            old(self).wf(),
        ensures
            final(self).wf(),
            final(self)@ == old(self)@.intersect(row_keys(rows@).to_set()),
            final(self).anchor == old(self).anchor,
    {
        let ghost listed = row_keys(rows@);
        let mut kept = Selection { keys: Vec::new(), anchor: self.anchor };
        let mut i: usize = 0;
        proof {
            assert(kept@ =~= Set::empty());
            assert(keys_of(self.keys@).take(0).to_set() =~= Set::empty());
            assert(kept@ =~= keys_of(self.keys@).take(0).to_set().intersect(listed.to_set()));
        }
        while i < self.keys.len()
            invariant
                i <= self.keys@.len(),
                listed == row_keys(rows@),
                kept.wf(),
                kept.anchor == self.anchor,
                *self == *old(self),
                kept@ == keys_of(self.keys@).take(i as int).to_set().intersect(listed.to_set()),
            decreases self.keys@.len() - i,
        {
            let ghost all = keys_of(self.keys@);
            let ghost x = all[i as int];
            let mut k: usize = 0;
            while k < rows.len() && !same_key(&rows[k].key, &self.keys[i])
                invariant
                    k <= rows@.len(),
                    i < self.keys@.len(),
                    x == self.keys@[i as int]@,
                    forall|j: int| 0 <= j < k ==> (#[trigger] rows@[j]).key@ != x,
                decreases rows@.len() - k,
            {
                k += 1;
            }
            let ghost before = kept@;
            proof {
                let was = all.take(i as int);
                let now = all.take(i + 1);
                assert(now =~= was.push(x));
                assert forall|y: Seq<u8>| now.to_set().contains(y) <==> was.to_set().contains(y) || y == x by {
                    if now.contains(y) {
                        let j = choose|j: int| 0 <= j < now.len() && now[j] == y;
                        if j < was.len() {
                            assert(was[j] == y);
                        }
                    }
                    if was.contains(y) {
                        let j = choose|j: int| 0 <= j < was.len() && was[j] == y;
                        assert(now[j] == y);
                    }
                    assert(now[was.len() as int] == x);
                }
            }
            if k < rows.len() {
                proof {
                    assert(listed[k as int] == x);
                    assert(listed.to_set().contains(x));
                }
                kept.insert(&self.keys[i]);
                proof {
                    assert(before.insert(x) =~= all.take(i + 1).to_set().intersect(listed.to_set()));
                }
            } else {
                proof {
                    assert(!listed.to_set().contains(x)) by {
                        if listed.contains(x) {
                            let j = choose|j: int| 0 <= j < listed.len() && listed[j] == x;
                            assert(rows@[j].key@ == x);
                        }
                    }
                    assert(before =~= all.take(i + 1).to_set().intersect(listed.to_set()));
                }
            }
            i += 1;
        }
        proof {
            assert(keys_of(self.keys@).take(i as int) =~= keys_of(self.keys@));
        }
        *self = kept;
    }

    /// The selected rows, by their place in the list.
    pub fn rows(&self, rows: &[Row]) -> (r: Vec<usize>)
        ensures
            places(r@) == chosen(row_keys(rows@), self@),
            forall|j: int| 0 <= j < r@.len() ==> #[trigger] r@[j] < rows@.len(),
    {
        let ghost keys = row_keys(rows@);
        let mut r: Vec<usize> = Vec::new();
        let mut i: usize = 0;
        proof {
            assert(keys.take(0) =~= Seq::empty());
            assert(places(r@) =~= chosen(keys.take(0), self@));
        }
        while i < rows.len()
            invariant
                i <= rows@.len(),
                keys == row_keys(rows@),
                places(r@) == chosen(keys.take(i as int), self@),
                forall|j: int| 0 <= j < r@.len() ==> #[trigger] r@[j] < i,
            decreases rows@.len() - i,
        {
            proof {
                assert(keys.take(i + 1).drop_last() =~= keys.take(i as int));
                assert(keys.take(i + 1).last() == rows@[i as int].key@);
            }
            if self.contains(&rows[i].key) {
                let ghost before = r@;
                r.push(i);
                proof {
                    assert(places(r@) =~= places(before).push(i as int));
                }
            }
            i += 1;
        }
        proof {
            assert(keys.take(i as int) =~= keys);
        }
        r
    }

    /// The one row that is selected, if it is one alone.
    pub fn single(&self, rows: &[Row]) -> (r: Option<usize>)
        ensures
            match r {
                Some(i) => {
                    &&& i < rows@.len()
                    &&& self.keys@.len() == 1
                    &&& self@.contains(rows@[i as int].key@)
                    &&& forall|j: int| 0 <= j < i ==> !self@.contains((#[trigger] rows@[j]).key@)
                },
                None => self.keys@.len() != 1 || forall|j: int|
                    0 <= j < rows@.len() ==> !self@.contains((#[trigger] rows@[j]).key@),
            },
    {
        if self.keys.len() != 1 {
            return None;
        }
        let mut i: usize = 0;
        while i < rows.len()
            invariant
                i <= rows@.len(),
                self.keys@.len() == 1,
                forall|j: int| 0 <= j < i ==> !self@.contains((#[trigger] rows@[j]).key@),
            decreases rows@.len() - i,
        {
            if self.contains(&rows[i].key) {
                return Some(i);
            }
            i += 1;
        }
        None
    }
}

/// Places, as integers.
pub open spec fn places(v: Seq<usize>) -> Seq<int> {
    v.map_values(|i: usize| i as int)
}

/// Where the selected keys are in a list.
pub open spec fn chosen(keys: Seq<Seq<u8>>, selected: Set<Seq<u8>>) -> Seq<int>
    decreases keys.len(),
{
    if keys.len() == 0 {
        Seq::empty()
    } else if selected.contains(keys.last()) {
        chosen(keys.drop_last(), selected).push(keys.len() - 1)
    } else {
        chosen(keys.drop_last(), selected)
    }
}

/// A plain click selects the row clicked and nothing else; Ctrl twice on a
/// row changes nothing.
pub proof fn law_clicks(selected: Set<Seq<u8>>, anchor: Option<usize>, keys: Seq<Seq<u8>>, i: int)
    requires
        0 <= i < keys.len(),
    ensures
        after_click(selected, anchor, keys, i, false, false) == set![keys[i]],
        after_click(
            after_click(selected, anchor, keys, i, false, true),
            Some(i as usize),
            keys,
            i,
            false,
            true,
        ) == selected,
        after_click(selected, None, keys, i, true, false) == set![keys[i]],
{
    let once = after_click(selected, anchor, keys, i, false, true);
    if selected.contains(keys[i]) {
        assert(once.insert(keys[i]) =~= selected);
    } else {
        assert(once.remove(keys[i]) =~= selected);
    }
    let range = keys.subrange(i, i + 1);
    assert(range.to_set() =~= set![keys[i]]) by {
        assert(range[0] == keys[i]);
        assert forall|x: Seq<u8>| range.to_set().contains(x) <==> set![keys[i]].contains(x) by {
            if range.contains(x) {
                let j = choose|j: int| 0 <= j < range.len() && range[j] == x;
                assert(j == 0);
            }
            assert(range.contains(range[0]));
        }
    }
}

/// What a selected row counts: on the server's side a folder counts
/// nothing, here it counts what the system gives as its size.
pub open spec fn row_weight(r: Row, remote: bool) -> nat {
    if remote && r.dir {
        0
    } else {
        match r.size {
            Some(s) => s as nat,
            None => 0,
        }
    }
}

/// What is selected, in numbers: how many rows, and how large they are.
pub open spec fn weighed(rows: Seq<Row>, selected: Set<Seq<u8>>, remote: bool) -> (nat, nat)
    decreases rows.len(),
{
    if rows.len() == 0 {
        (0, 0)
    } else {
        let (n, b) = weighed(rows.drop_last(), selected, remote);
        let r = rows.last();
        if selected.contains(r.key@) {
            (n + 1, b + row_weight(r, remote))
        } else {
            (n, b)
        }
    }
}

/// How many folders there are.
pub open spec fn folder_count(rows: Seq<Row>) -> nat
    decreases rows.len(),
{
    if rows.len() == 0 {
        0
    } else {
        folder_count(rows.drop_last()) + (if rows.last().dir {
            1nat
        } else {
            0nat
        })
    }
}

/// A side's status line, in numbers.
#[derive(Clone, Copy, Debug, PartialEq, Eq, Structural)]
pub struct Status {
    pub folders: usize,
    pub files: usize,
    pub selected: usize,
    pub bytes: u64,
}

proof fn lemma_weighed(rows: Seq<Row>, selected: Set<Seq<u8>>, remote: bool, i: int)
    requires
        0 <= i <= rows.len(),
    ensures
        weighed(rows.take(i), selected, remote).1 <= weighed(rows, selected, remote).1,
        weighed(rows.take(i), selected, remote).0 <= i,
    decreases rows.len() - i,
{
    lemma_weighed_count(rows.take(i), selected, remote);
    if i < rows.len() {
        lemma_weighed(rows, selected, remote, i + 1);
        assert(rows.take(i + 1).drop_last() =~= rows.take(i));
    } else {
        assert(rows.take(i) =~= rows);
    }
}

proof fn lemma_weighed_count(rows: Seq<Row>, selected: Set<Seq<u8>>, remote: bool)
    ensures
        weighed(rows, selected, remote).0 <= rows.len(),
    decreases rows.len(),
{
    if rows.len() > 0 {
        lemma_weighed_count(rows.drop_last(), selected, remote);
    }
}

/// What a folder holds and what is selected of it; `remote`: on the server.
pub fn status(rows: &[Row], selection: &Selection, remote: bool) -> (r: Status)
    requires
        weighed(rows@, selection@, remote).1 <= u64::MAX,
    ensures
        r.folders == folder_count(rows@),
        r.folders + r.files == rows@.len(),
        r.selected == weighed(rows@, selection@, remote).0,
        r.bytes == weighed(rows@, selection@, remote).1,
{
    let mut folders: usize = 0;
    let mut selected: usize = 0;
    let mut bytes: u64 = 0;
    let mut i: usize = 0;
    while i < rows.len()
        invariant
            i <= rows@.len(),
            folders <= i,
            selected <= i,
            weighed(rows@, selection@, remote).1 <= u64::MAX,
            folders == folder_count(rows@.take(i as int)),
            (selected as nat, bytes as nat) == weighed(rows@.take(i as int), selection@, remote),
        decreases rows@.len() - i,
    {
        let r = &rows[i];
        proof {
            assert(rows@.take(i + 1).drop_last() =~= rows@.take(i as int));
            assert(rows@.take(i + 1).last() == *r);
            lemma_weighed(rows@, selection@, remote, i + 1);
        }
        if r.dir {
            folders += 1;
        }
        if selection.contains(&r.key) {
            selected += 1;
            if !(remote && r.dir) {
                if let Some(size) = r.size {
                    bytes = bytes + size;
                }
            }
        }
        i += 1;
    }
    proof {
        assert(rows@.take(i as int) =~= rows@);
    }
    Status { folders, files: rows.len() - folders, selected, bytes }
}

/// The room that a list gives to the size, the date and the permissions, in
/// points: a narrow list keeps the name readable, the permissions go first,
/// then the date, then the size. `width` is the list's, rounded down.
pub open spec fn columns_for(width: int, remote: bool) -> (int, int, int) {
    let mode = if remote {
        104int
    } else {
        0int
    };
    if width - 80 - 130 - mode >= 180 {
        (80, 130, mode)
    } else if width - 80 - 130 >= 180 {
        (80, 130, 0)
    } else if width - 80 >= 180 {
        (80, 0, 0)
    } else {
        (0, 0, 0)
    }
}

/// The room that a list gives to the size, the date and the permissions.
pub fn columns(width: i32, remote: bool) -> (r: (i32, i32, i32))
    ensures
        (r.0 as int, r.1 as int, r.2 as int) == columns_for(width as int, remote),
{
    let room: i64 = width as i64;
    let mode: i32 = if remote {
        104
    } else {
        0
    };
    if room - 80 - 130 - mode as i64 >= 180 {
        (80, 130, mode)
    } else if room - 80 - 130 >= 180 {
        (80, 130, 0)
    } else if room - 80 >= 180 {
        (80, 0, 0)
    } else {
        (0, 0, 0)
    }
}

/// What can be done with a file.
#[derive(Clone, Copy, Debug, PartialEq, Eq, Structural)]
pub enum Action {
    Open,
    Transfer,
    Edit,
    Rename,
    CopyPath,
    Delete,
}

/// The menu of a row: editing is for one file of the server, renaming for
/// one row.
pub open spec fn menu_for(remote: bool, many: bool, dir: bool) -> Seq<Action> {
    seq![Action::Open, Action::Transfer] + (if remote && !many && !dir {
        seq![Action::Edit]
    } else {
        Seq::empty()
    }) + (if many {
        Seq::empty()
    } else {
        seq![Action::Rename]
    }) + seq![Action::CopyPath, Action::Delete]
}

/// The menu of a row.
pub fn menu(remote: bool, many: bool, dir: bool) -> (r: Vec<Action>)
    ensures
        r@ == menu_for(remote, many, dir),
{
    let mut r: Vec<Action> = Vec::new();
    r.push(Action::Open);
    r.push(Action::Transfer);
    if remote && !many && !dir {
        r.push(Action::Edit);
    }
    if !many {
        r.push(Action::Rename);
    }
    r.push(Action::CopyPath);
    r.push(Action::Delete);
    proof {
        assert(r@ =~= menu_for(remote, many, dir));
    }
    r
}

/// Whether a name that was edited in its row is a new one: Enter or a click
/// elsewhere renames, Esc doesn't, and neither does nothing or the name it
/// has.
pub fn renames(typed: &str, name: &str, cancelled: bool) -> (r: bool)
    ensures
        r == (!cancelled && text::trimmed(typed@).len() > 0 && typed@ != name@),
{
    !cancelled && !text::is_blank(typed) && !text::same(typed, name)
}

/// A name that a local file can have: not empty, nothing in it that
/// separates paths or stands for others.
pub open spec fn is_local_name(name: Seq<char>) -> bool {
    name.len() > 0 && forall|i: int|
        0 <= i < name.len() ==> {
            let c = #[trigger] name[i];
            c != '\\' && c != '/' && c != ':' && c != '*' && c != '?' && c != '"' && c != '<' && c != '>' && c != '|'
        }
}

/// The name that a local file is given: what is typed without the white
/// space around it, if a file can be called that.
pub fn local_name(typed: &str) -> (r: Option<String>)
    ensures
        text::optional(r) == (if is_local_name(text::trimmed(typed@)) {
            Some(text::trimmed(typed@))
        } else {
            None
        }),
{
    let name = text::trim(&text::chars_of(typed));
    if name.len() == 0 {
        return None;
    }
    let mut i: usize = 0;
    while i < name.len()
        invariant
            i <= name@.len(),
            name@.len() > 0,
            name@ == text::trimmed(typed@),
            forall|j: int|
                0 <= j < i ==> {
                    let c = #[trigger] name@[j];
                    c != '\\' && c != '/' && c != ':' && c != '*' && c != '?' && c != '"' && c != '<' && c != '>'
                        && c != '|'
                },
        decreases name@.len() - i,
    {
        let c = name[i];
        if c == '\\' || c == '/' || c == ':' || c == '*' || c == '?' || c == '"' || c == '<' || c == '>' || c == '|' {
            proof {
                assert(!is_local_name(name@)) by {
                    assert(name@[i as int] == c);
                }
            }
            return None;
        }
        i += 1;
    }
    Some(text::string_of(&name))
}

/// Whether encoded bytes can be a file's name on the server: not empty, no
/// slash.
pub fn is_remote_name(bytes: &[u8]) -> (r: bool)
    ensures
        r == (bytes@.len() > 0 && !bytes@.contains(0x2f)),
{
    if bytes.len() == 0 {
        return false;
    }
    let mut i: usize = 0;
    while i < bytes.len()
        invariant
            i <= bytes@.len(),
            bytes@.len() > 0,
            forall|j: int| 0 <= j < i ==> bytes@[j] != 0x2f,
        decreases bytes@.len() - i,
    {
        if bytes[i] == 0x2f {
            proof {
                assert(bytes@[i as int] == 0x2f);
            }
            return false;
        }
        i += 1;
    }
    true
}

/// Folders come before files; within each, names in small letters decide.
pub proof fn law_list_order(a: RowView, b: RowView)
    ensures
        a.dir && !b.dir ==> listed_before(a, b) && !listed_before(b, a),
        a.dir == b.dir ==> (listed_before(a, b) <==> order::text_lt(
            text::lowercase_text(a.name),
            text::lowercase_text(b.name),
        )),
{
}

/// Shift takes every row between the anchor and the row that was clicked,
/// both of them too, and no other; with Ctrl what was selected stays.
pub proof fn law_shift_takes_a_range(selected: Set<Seq<u8>>, a: usize, keys: Seq<Seq<u8>>, i: int, key: Seq<u8>)
    requires
        a < keys.len(),
        0 <= i < keys.len(),
    ensures
        after_click(selected, Some(a), keys, i, true, false).contains(key) <==> exists|k: int|
            0 <= k < keys.len() && (a <= k <= i || i <= k <= a) && #[trigger] keys[k] == key,
        after_click(selected, Some(a), keys, i, true, true).contains(key) <==> selected.contains(key) || after_click(
            selected,
            Some(a),
            keys,
            i,
            true,
            false,
        ).contains(key),
{
    let (lo, hi) = if a <= i {
        (a as int, i)
    } else {
        (i, a as int)
    };
    let range = keys.subrange(lo, hi + 1);
    if range.contains(key) {
        let j = choose|j: int| 0 <= j < range.len() && range[j] == key;
        assert(keys[lo + j] == key);
    }
    if exists|k: int| 0 <= k < keys.len() && (a <= k <= i || i <= k <= a) && #[trigger] keys[k] == key {
        let k = choose|k: int| 0 <= k < keys.len() && (a <= k <= i || i <= k <= a) && #[trigger] keys[k] == key;
        assert(range[k - lo] == key);
    }
}

/// Ctrl turns one row round and leaves every other as it is; a plain click
/// selects one row alone; so does Shift where there is no row at the anchor.
pub proof fn law_other_clicks(selected: Set<Seq<u8>>, anchor: Option<usize>, keys: Seq<Seq<u8>>, i: int, key: Seq<u8>)
    requires
        0 <= i < keys.len(),
    ensures
        key != keys[i] ==> after_click(selected, anchor, keys, i, false, true).contains(key) == selected.contains(key),
        after_click(selected, anchor, keys, i, false, true).contains(keys[i]) == !selected.contains(keys[i]),
        after_click(selected, anchor, keys, i, false, false).contains(key) <==> key == keys[i],
        anchor is None || anchor->0 >= keys.len() ==> (after_click(selected, anchor, keys, i, true, false).contains(key)
            <==> key == keys[i]),
{
    let one = keys.subrange(i, i + 1);
    assert(one[0] == keys[i]);
    if one.contains(key) {
        let j = choose|j: int| 0 <= j < one.len() && one[j] == key;
        assert(j == 0);
    }
}

/// The rows that are selected are those whose key is, in order.
pub proof fn law_selected_rows(keys: Seq<Seq<u8>>, k: Seq<u8>, selected: Set<Seq<u8>>)
    ensures
        chosen(Seq::empty(), selected) == Seq::<int>::empty(),
        selected.contains(k) ==> chosen(keys.push(k), selected) == chosen(keys, selected).push(keys.len() as int),
        !selected.contains(k) ==> chosen(keys.push(k), selected) == chosen(keys, selected),
{
    assert(keys.push(k).drop_last() =~= keys);
}

/// What is counted of a folder: each selected row, with its size where it
/// has one (a folder on the server has none), and each folder.
pub proof fn law_status_adds_up(list: Seq<Row>, r: Row, selected: Set<Seq<u8>>, remote: bool)
    ensures
        weighed(Seq::empty(), selected, remote) == (0nat, 0nat),
        folder_count(Seq::empty()) == 0,
        folder_count(list.push(r)) == folder_count(list) + (if r.dir {
            1int
        } else {
            0
        }),
        !selected.contains(r.key@) ==> weighed(list.push(r), selected, remote) == weighed(list, selected, remote),
        selected.contains(r.key@) ==> weighed(list.push(r), selected, remote).0 == weighed(list, selected, remote).0 + 1,
        selected.contains(r.key@) && (r.size is None || (remote && r.dir)) ==> weighed(list.push(r), selected, remote).1
            == weighed(list, selected, remote).1,
        selected.contains(r.key@) && r.size is Some && !(remote && r.dir) ==> weighed(list.push(r), selected, remote).1
            == weighed(list, selected, remote).1 + r.size->0,
{
    assert(list.push(r).drop_last() =~= list);
}

/// The name's column always has room: the permissions go first (the local
/// side has none), then the time, then the size.
pub proof fn law_columns(width: int, remote: bool)
    ensures
        width < 260 ==> columns_for(width, remote) == (0int, 0int, 0int),
        260 <= width < 390 ==> columns_for(width, remote) == (80int, 0int, 0int),
        390 <= width ==> columns_for(width, false) == (80int, 130int, 0int),
        390 <= width < 494 ==> columns_for(width, true) == (80int, 130int, 0int),
        494 <= width ==> columns_for(width, true) == (80int, 130int, 104int),
{
}

/// The menu of a selection: one file on the server can be edited, one row
/// can be renamed, and everything can be opened, transferred, deleted, and
/// its path copied.
pub proof fn law_menu(remote: bool, many: bool, dir: bool)
    ensures
        menu_for(remote, many, dir).contains(Action::Open) && menu_for(remote, many, dir).contains(Action::Transfer)
            && menu_for(remote, many, dir).contains(Action::CopyPath) && menu_for(remote, many, dir).contains(Action::Delete),
        menu_for(remote, many, dir).contains(Action::Edit) <==> remote && !many && !dir,
        menu_for(remote, many, dir).contains(Action::Rename) <==> !many,
        menu_for(remote, many, dir).no_duplicates(),
{
    let m = menu_for(remote, many, dir);
    assert(m[0] == Action::Open && m[1] == Action::Transfer);
    assert(m[m.len() - 2] == Action::CopyPath && m[m.len() - 1] == Action::Delete);
    if remote && !many && !dir {
        assert(m[2] == Action::Edit);
        assert(m[3] == Action::Rename);
    } else if !many {
        assert(m[2] == Action::Rename);
    }
}

/// A local name holds none of the characters that Windows keeps for itself.
pub proof fn law_local_names(a: Seq<char>, c: char)
    ensures
        !is_local_name(Seq::empty()),
        is_local_name(a.push(c)) <==> (a.len() == 0 || is_local_name(a)) && c != '\\' && c != '/' && c != ':' && c != '*' && c
            != '?' && c != '"' && c != '<' && c != '>' && c != '|',
{
    let n = a.push(c);
    assert(n[a.len() as int] == c);
    assert forall|i: int| 0 <= i < a.len() implies n[i] == a[i] by {}
}

/// A drive is a folder of which nothing else is known.
pub proof fn law_drives(key: Seq<u8>, name: Seq<char>)
    ensures
        drive_row(key, name).key == key && drive_row(key, name).name == name && drive_row(key, name).dir,
        drive_row(key, name).size is None && drive_row(key, name).modified is None && drive_row(key, name).permissions is None
            && !drive_row(key, name).link,
{
}

/// A row is put in behind every row that is not listed after it.
pub proof fn law_putting_rows_in(s: Seq<RowView>, l: RowView, x: RowView)
    ensures
        put_row(Seq::empty(), x) == seq![x],
        listed_before(x, l) ==> put_row(s.push(l), x) == put_row(s, x).push(l),
        !listed_before(x, l) ==> put_row(s.push(l), x) == s.push(l).push(x),
{
    assert(s.push(l).drop_last() =~= s);
    assert(Seq::<RowView>::empty().push(x) =~= seq![x]);
}

} // verus!
