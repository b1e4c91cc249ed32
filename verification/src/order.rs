//! The order of texts: by their characters, the shorter first where one
//! begins the other.

use vstd::prelude::*;

use crate::text;

verus! {

/// `a` comes before `b`.
pub open spec fn text_lt(a: Seq<char>, b: Seq<char>) -> bool
    decreases a.len(),
{
    if b.len() == 0 {
        false
    } else if a.len() == 0 {
        true
    } else if a.first() == b.first() {
        text_lt(a.skip(1), b.skip(1))
    } else {
        a.first() < b.first()
    }
}

/// Of two different texts one comes first, and only one.
pub proof fn lemma_lt_total(a: Seq<char>, b: Seq<char>)
    ensures
        a == b ==> !text_lt(a, b),
        a != b ==> (text_lt(a, b) <==> !text_lt(b, a)),
    decreases a.len(),
{
    if a.len() > 0 && b.len() > 0 && a.first() == b.first() {
        lemma_lt_total(a.skip(1), b.skip(1));
        if a.skip(1) == b.skip(1) {
            assert(a =~= seq![a.first()] + a.skip(1));
            assert(b =~= seq![b.first()] + b.skip(1));
        }
    } else if a.len() == 0 && b.len() == 0 {
        assert(a =~= b);
    }
}

/// The order is transitive.
pub proof fn lemma_lt_transitive(a: Seq<char>, b: Seq<char>, c: Seq<char>)
    requires
        text_lt(a, b),
        text_lt(b, c),
    ensures
        text_lt(a, c),
    decreases a.len(),
{
    if a.len() > 0 && a.first() == b.first() && b.first() == c.first() {
        lemma_lt_transitive(a.skip(1), b.skip(1), c.skip(1));
    }
}

pub fn is_before(a: &[char], b: &[char]) -> (r: bool)
    ensures
        r == text_lt(a@, b@),
{
    let mut i: usize = 0;
    proof {
        assert(a@.skip(0) =~= a@);
        assert(b@.skip(0) =~= b@);
    }
    while i < a.len() && i < b.len()
        invariant
            i <= a@.len(),
            i <= b@.len(),
            text_lt(a@, b@) == text_lt(a@.skip(i as int), b@.skip(i as int)),
        decreases a@.len() - i,
    {
        proof {
            assert(a@.skip(i as int).skip(1) =~= a@.skip(i + 1));
            assert(b@.skip(i as int).skip(1) =~= b@.skip(i + 1));
        }
        if a[i] != b[i] {
            return a[i] < b[i];
        }
        i += 1;
    }
    i < b.len()
}

/// `x` put into a list in order, behind what is not after it.
pub open spec fn put_in(s: Seq<Seq<char>>, x: Seq<char>) -> Seq<Seq<char>>
    decreases s.len(),
{
    if s.len() > 0 && text_lt(x, s.last()) {
        put_in(s.drop_last(), x).push(s.last())
    } else {
        s.push(x)
    }
}

/// The texts in order.
pub open spec fn sorted(s: Seq<Seq<char>>) -> Seq<Seq<char>>
    decreases s.len(),
{
    if s.len() == 0 {
        s
    } else {
        put_in(sorted(s.drop_last()), s.last())
    }
}

/// No text comes before an earlier one.
pub open spec fn is_sorted(s: Seq<Seq<char>>) -> bool {
    forall|i: int, j: int| #![trigger s[i], s[j]] 0 <= i < j < s.len() ==> !text_lt(s[j], s[i])
}

proof fn lemma_put_in(s: Seq<Seq<char>>, x: Seq<char>)
    requires
        is_sorted(s),
    ensures
        is_sorted(put_in(s, x)),
        put_in(s, x).to_multiset() == s.to_multiset().insert(x),
        put_in(s, x).len() == s.len() + 1,
    decreases s.len(),
{
    broadcast use vstd::seq_lib::group_to_multiset_ensures;

    let r = put_in(s, x);
    if s.len() > 0 && text_lt(x, s.last()) {
        let rest = s.drop_last();
        assert forall|i: int, j: int| #![trigger rest[i], rest[j]] 0 <= i < j < rest.len() implies !text_lt(
            rest[j],
            rest[i],
        ) by {
            assert(rest[i] == s[i] && rest[j] == s[j]);
        }
        lemma_put_in(rest, x);
        let inner = put_in(rest, x);
        assert(r =~= inner.push(s.last()));
        assert(rest.push(s.last()) =~= s);
        assert(inner.to_multiset().insert(s.last()) =~= rest.to_multiset().insert(s.last()).insert(x));
        assert forall|i: int, j: int| #![trigger r[i], r[j]] 0 <= i < j < r.len() implies !text_lt(r[j], r[i]) by {
            if j < inner.len() {
                assert(r[i] == inner[i] && r[j] == inner[j]);
            } else {
                assert(r[j] == s.last());
                assert(r[i] == inner[i]);
                assert(inner.to_multiset().contains(inner[i]));
                assert(rest.to_multiset().insert(x).contains(inner[i]));
                if inner[i] == x {
                    lemma_lt_total(x, s.last());
                } else {
                    assert(rest.to_multiset().contains(inner[i]));
                    assert(rest.contains(inner[i]));
                    let k = choose|k: int| 0 <= k < rest.len() && rest[k] == inner[i];
                    assert(s[k] == inner[i]);
                    assert(s[s.len() - 1] == s.last());
                }
            }
        }
    } else {
        assert forall|i: int, j: int| #![trigger r[i], r[j]] 0 <= i < j < r.len() implies !text_lt(r[j], r[i]) by {
            if j < s.len() {
                assert(r[i] == s[i] && r[j] == s[j]);
            } else {
                assert(r[j] == x && r[i] == s[i]);
                assert(!text_lt(x, s.last()));
                if text_lt(x, s[i]) {
                    assert(s[s.len() - 1] == s.last());
                    if i < s.len() - 1 {
                        assert(!text_lt(s.last(), s[i]));
                        lemma_lt_total(s[i], s.last());
                        if s[i] != s.last() {
                            lemma_lt_transitive(x, s[i], s.last());
                        }
                    }
                }
            }
        }
    }
}

/// Sorting puts the texts in order and neither loses nor adds one.
pub proof fn law_sorting(s: Seq<Seq<char>>)
    ensures
        is_sorted(sorted(s)),
        sorted(s).to_multiset() == s.to_multiset(),
        sorted(s).len() == s.len(),
    decreases s.len(),
{
    broadcast use vstd::seq_lib::group_to_multiset_ensures;

    if s.len() > 0 {
        law_sorting(s.drop_last());
        lemma_put_in(sorted(s.drop_last()), s.last());
        assert(s.drop_last().push(s.last()) =~= s);
    }
}

fn put(list: &mut Vec<String>, x: String)
    ensures
        text::texts(final(list)@) == put_in(text::texts(old(list)@), x@),
{
    let ghost all = text::texts(list@);
    let ghost before = list@;
    let mut i: usize = list.len();
    let chars = text::chars_of(&x);
    proof {
        assert(all.take(i as int) =~= all);
        assert(put_in(all, x@) =~= put_in(all.take(i as int), x@) + all.skip(i as int));
    }
    while i > 0
        invariant
            i <= list@.len(),
            list@ == before,
            all == text::texts(before),
            chars@ == x@,
            put_in(all, x@) == put_in(all.take(i as int), x@) + all.skip(i as int),
        ensures
            i <= list@.len(),
            list@ == before,
            put_in(all, x@) == put_in(all.take(i as int), x@) + all.skip(i as int),
            i > 0 ==> !text_lt(x@, all[i - 1]),
        decreases i,
    {
        let there = text::chars_of(&list[i - 1]);
        if !is_before(&chars, &there) {
            break;
        }
        proof {
            assert(all.take(i as int).drop_last() =~= all.take(i - 1));
            assert(all.take(i as int).last() == all[i - 1]);
            assert(put_in(all.take(i - 1), x@).push(all[i - 1]) + all.skip(i as int) =~= put_in(all.take(i - 1), x@)
                + all.skip(i - 1));
        }
        i -= 1;
    }
    list.insert(i, x);
    proof {
        if i > 0 {
            assert(all.take(i as int).last() == all[i - 1]);
        }
        assert(put_in(all.take(i as int), x@) == all.take(i as int).push(x@));
        assert(text::texts(list@) =~= all.take(i as int).push(x@) + all.skip(i as int));
    }
}

/// The texts in order.
pub fn sort(list: &[String]) -> (r: Vec<String>)
    ensures
        text::texts(r@) == sorted(text::texts(list@)),
{
    let ghost all = text::texts(list@);
    let mut r: Vec<String> = Vec::new();
    let mut i: usize = 0;
    proof {
        assert(all.take(0) =~= Seq::empty());
        assert(text::texts(r@) =~= Seq::empty());
    }
    while i < list.len()
        invariant
            i <= list@.len(),
            all == text::texts(list@),
            text::texts(r@) == sorted(all.take(i as int)),
        decreases list@.len() - i,
    {
        proof {
            assert(all.take(i + 1).drop_last() =~= all.take(i as int));
            assert(all.take(i + 1).last() == list@[i as int]@);
        }
        put(&mut r, list[i].clone());
        i += 1;
    }
    proof {
        assert(all.take(i as int) =~= all);
    }
    r
}

/// The order of texts: a text comes before a longer one that begins with
/// it, and otherwise the first character that differs decides.
pub proof fn law_text_order(p: Seq<char>, a: char, b: char, s: Seq<char>, t: Seq<char>)
    ensures
        !text_lt(p, p),
        text_lt(p, p.push(a) + s),
        !text_lt(p.push(a) + s, p),
        a < b ==> text_lt(p.push(a) + s, p.push(b) + t) && !text_lt(p.push(b) + t, p.push(a) + s),
    decreases p.len(),
{
    let x = p.push(a) + s;
    let y = p.push(b) + t;
    if p.len() > 0 {
        let q = p.skip(1);
        law_text_order(q, a, b, s, t);
        assert(x.skip(1) =~= q.push(a) + s);
        assert(y.skip(1) =~= q.push(b) + t);
        assert(x.first() == p.first() && y.first() == p.first());
    } else {
        assert(x.first() == a && y.first() == b);
    }
}

/// A text is put in behind every text that is not after it.
pub proof fn law_putting_texts_in(s: Seq<Seq<char>>, l: Seq<char>, x: Seq<char>)
    ensures
        put_in(Seq::empty(), x) == seq![x],
        text_lt(x, l) ==> put_in(s.push(l), x) == put_in(s, x).push(l),
        !text_lt(x, l) ==> put_in(s.push(l), x) == s.push(l).push(x),
{
    assert(s.push(l).drop_last() =~= s);
    assert(Seq::<Seq<char>>::empty().push(x) =~= seq![x]);
}

/// No text of a sorted list stands behind one that is after it.
pub proof fn law_sorted_texts(s: Seq<Seq<char>>, i: int, j: int)
    requires
        0 <= i < j < sorted(s).len(),
    ensures
        !text_lt(sorted(s)[j], sorted(s)[i]),
{
    law_sorting(s);
    assert(is_sorted(sorted(s)));
}

} // verus!
