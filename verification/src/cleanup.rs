//! "Clean up": what NativeTerm leaves behind outside its own folder, listed
//! with the paths, and removed only when the person says so twice.

use vstd::prelude::*;

use crate::message;
use crate::message::Message;
use crate::message::MessageView;
use crate::message::Notice;
use crate::message::NoticeView;
use crate::order;
use crate::text;

verus! {

/// Something that can be removed.
#[derive(Clone, Copy, Debug, PartialEq, Eq, Structural)]
pub enum Removal {
    Credentials,
    Registry,
}

/// What NativeTerm put outside its own folder.
pub struct Cleanup {
    /// Lines in the ssh config that NativeTerm wrote.
    pub traces: Vec<String>,
    pub data_dir: String,
    /// Saved passwords and credential sets.
    pub credentials: Vec<String>,
    /// The registered data directory, when it points somewhere.
    pub registry: Option<String>,
    /// What was done, for the person to read.
    pub done: Vec<Notice>,
    /// A removal that waits for a second click.
    pub confirming: Option<Removal>,
}

/// The notices of a list.
pub open spec fn notices(v: Seq<Notice>) -> Seq<NoticeView> {
    v.map_values(|n: Notice| n@)
}

/// Neighbours that are the same, once.
pub open spec fn deduped(s: Seq<Seq<char>>) -> Seq<Seq<char>>
    decreases s.len(),
{
    if s.len() == 0 {
        s
    } else {
        let rest = deduped(s.drop_last());
        if rest.len() > 0 && rest.last() == s.last() {
            rest
        } else {
            rest.push(s.last())
        }
    }
}

/// The entries as they are listed: in order, each once.
pub fn saved_entries(entries: &[String]) -> (r: Vec<String>)
    ensures
        text::texts(r@) == deduped(order::sorted(text::texts(entries@))),
{
    let list = order::sort(entries);
    let ghost all = text::texts(list@);
    let mut r: Vec<String> = Vec::new();
    let mut i: usize = 0;
    proof {
        assert(all.take(0) =~= Seq::empty());
        assert(text::texts(r@) =~= Seq::empty());
    }
    while i < list.len()
        invariant
            i <= list@.len(),
            all == text::texts(list@),
            text::texts(r@) == deduped(all.take(i as int)),
        decreases list@.len() - i,
    {
        proof {
            assert(all.take(i + 1).drop_last() =~= all.take(i as int));
            assert(all.take(i + 1).last() == list@[i as int]@);
            assert(text::texts(r@).len() == r@.len());
            if r@.len() > 0 {
                assert(text::texts(r@).last() == r@.last()@);
            }
        }
        let count: usize = r.len();
        if count == 0 || !text::same(&r[count - 1], &list[i]) {
            let ghost before = r@;
            r.push(list[i].clone());
            proof {
                assert(text::texts(r@) =~= text::texts(before).push(list@[i as int]@));
            }
        }
        i += 1;
    }
    proof {
        assert(all.take(i as int) =~= all);
    }
    r
}

proof fn lemma_deduped(s: Seq<Seq<char>>)
    requires
        order::is_sorted(s),
    ensures
        forall|i: int, j: int|
            #![trigger deduped(s)[i], deduped(s)[j]]
            0 <= i < j < deduped(s).len() ==> order::text_lt(deduped(s)[i], deduped(s)[j]),
        forall|x: Seq<char>|
            #![trigger deduped(s).contains(x)]
            #![trigger s.contains(x)]
            deduped(s).contains(x) <==> s.contains(x),
        s.len() > 0 ==> deduped(s).len() > 0 && deduped(s).last() == s.last(),
    decreases s.len(),
{
    let d = deduped(s);
    if s.len() > 0 {
        let rest = s.drop_last();
        let x = s.last();
        assert forall|i: int, j: int| #![trigger rest[i], rest[j]] 0 <= i < j < rest.len() implies !order::text_lt(
            rest[j],
            rest[i],
        ) by {
            assert(rest[i] == s[i] && rest[j] == s[j]);
        }
        lemma_deduped(rest);
        let r = deduped(rest);
        assert(rest.push(x) =~= s);
        if r.len() > 0 && r.last() == x {
            assert forall|y: Seq<char>| d.contains(y) <==> s.contains(y) by {
                if s.contains(y) && y != x {
                    let k = choose|k: int| 0 <= k < s.len() && s[k] == y;
                    assert(rest[k] == y);
                }
                if rest.contains(y) {
                    let k = choose|k: int| 0 <= k < rest.len() && rest[k] == y;
                    assert(s[k] == y);
                }
                assert(r[r.len() - 1] == x);
                assert(s[s.len() - 1] == x);
            }
        } else {
            assert(d == r.push(x));
            assert forall|i: int, j: int| #![trigger d[i], d[j]] 0 <= i < j < d.len() implies order::text_lt(
                d[i],
                d[j],
            ) by {
                if j < r.len() {
                    assert(d[i] == r[i] && d[j] == r[j]);
                } else {
                    assert(d[j] == x && d[i] == r[i]);
                    let last = r.last();
                    assert(r[r.len() - 1] == last);
                    assert(last == rest.last());
                    assert(s[s.len() - 2] == last && s[s.len() - 1] == x);
                    assert(!order::text_lt(x, last));
                    order::lemma_lt_total(last, x);
                    if i < r.len() - 1 {
                        order::lemma_lt_transitive(r[i], last, x);
                    }
                }
            }
            assert forall|y: Seq<char>| d.contains(y) <==> s.contains(y) by {
                if d.contains(y) {
                    let k = choose|k: int| 0 <= k < d.len() && d[k] == y;
                    if k < r.len() {
                        assert(r[k] == y);
                        assert(r.contains(y));
                        let m = choose|m: int| 0 <= m < rest.len() && rest[m] == y;
                        assert(s[m] == y);
                    } else {
                        assert(s[s.len() - 1] == y);
                    }
                }
                if s.contains(y) {
                    let k = choose|k: int| 0 <= k < s.len() && s[k] == y;
                    if k < rest.len() {
                        assert(rest[k] == y);
                        assert(r.contains(y));
                        let m = choose|m: int| 0 <= m < r.len() && r[m] == y;
                        assert(d[m] == y);
                    } else {
                        assert(d[r.len() as int] == y);
                    }
                }
            }
        }
    }
}

/// Every entry is listed, and listed once.
pub proof fn law_entries_are_listed_once(entries: Seq<Seq<char>>)
    ensures
        forall|x: Seq<char>| deduped(order::sorted(entries)).contains(x) <==> entries.contains(x),
        deduped(order::sorted(entries)).no_duplicates(),
{
    broadcast use vstd::seq_lib::group_to_multiset_ensures;

    let s = order::sorted(entries);
    order::law_sorting(entries);
    lemma_deduped(s);
    let d = deduped(s);
    assert forall|x: Seq<char>| d.contains(x) <==> entries.contains(x) by {
        assert(s.contains(x) <==> s.to_multiset().count(x) > 0);
        assert(entries.contains(x) <==> entries.to_multiset().count(x) > 0);
    }
    assert forall|i: int, j: int| 0 <= i < d.len() && 0 <= j < d.len() && i != j implies d[i] != d[j] by {
        if i < j {
            order::lemma_lt_total(d[i], d[j]);
        } else {
            order::lemma_lt_total(d[j], d[i]);
        }
    }
}

/// Texts with two spaces before them.
pub open spec fn indented(list: Seq<Seq<char>>) -> Seq<NoticeView> {
    list.map_values(|t: Seq<char>| NoticeView::Plain("  "@ + t))
}

/// A message as a notice.
pub open spec fn a_message(m: MessageView) -> Seq<NoticeView> {
    seq![NoticeView::Said(m)]
}

/// Everything as text.
pub open spec fn listed(c: Cleanup) -> Seq<NoticeView> {
    a_message(message::said("cleanup-title"@)) + a_message(message::said("cleanup-data"@).text("path"@, c.data_dir@))
        + (match c.registry {
        Some(v) => a_message(message::said("cleanup-registry"@).text("value"@, v@)),
        None => Seq::empty(),
    }) + (if c.credentials@.len() > 0 {
        a_message(message::said("cleanup-credentials"@).number("count"@, c.credentials@.len() as int)) + indented(
            text::texts(c.credentials@),
        )
    } else {
        Seq::empty()
    }) + (if c.traces@.len() > 0 {
        a_message(message::said("cleanup-ssh"@).number("count"@, c.traces@.len() as int)) + indented(
            text::texts(c.traces@),
        )
    } else {
        Seq::empty()
    })
}

fn say(out: &mut Vec<Notice>, m: Message)
    ensures
        notices(final(out)@) == notices(old(out)@) + a_message(m@),
{
    let ghost before = notices(out@);
    let n = Notice::Said(m);
    out.push(n);
    proof {
        assert(n@ == NoticeView::Said(m@));
        assert(notices(out@) =~= before + a_message(m@));
    }
}

fn indent(out: &mut Vec<Notice>, list: &[String])
    ensures
        notices(final(out)@) == notices(old(out)@) + indented(text::texts(list@)),
{
    let ghost before = notices(out@);
    let ghost all = indented(text::texts(list@));
    let mut i: usize = 0;
    proof {
        assert(before =~= before + all.take(0));
    }
    while i < list.len()
        invariant
            i <= list@.len(),
            all == indented(text::texts(list@)),
            notices(out@) == before + all.take(i as int),
        decreases list@.len() - i,
    {
        let n = Notice::Plain(text::plus("  ", &list[i]));
        let ghost was = out@;
        out.push(n);
        proof {
            assert(all[i as int] == n@);
            assert(notices(out@) =~= notices(was).push(n@));
            assert(before + all.take(i + 1) =~= (before + all.take(i as int)).push(n@));
        }
        i += 1;
    }
    proof {
        assert(all.take(i as int) =~= all);
    }
}

impl Cleanup {
    /// Everything as text, to keep or paste somewhere: its lines.
    pub fn as_text(&self) -> (r: Vec<Notice>)
        ensures
            notices(r@) == listed(*self),
    {
        let mut out: Vec<Notice> = Vec::new();
        let ghost none = Seq::<NoticeView>::empty();
        proof {
            assert(notices(out@) =~= none);
        }
        say(&mut out, Message::new("cleanup-title"));
        proof {
            assert(notices(out@) =~= a_message(message::said("cleanup-title"@)));
        }
        say(&mut out, Message::new("cleanup-data").text("path", &self.data_dir));
        let ghost a = notices(out@);
        if let Some(value) = &self.registry {
            say(&mut out, Message::new("cleanup-registry").text("value", value));
        } else {
            proof {
                assert(a + none =~= a);
            }
        }
        let ghost b = notices(out@);
        if self.credentials.len() > 0 {
            let m = Message::new("cleanup-credentials").number("count", self.credentials.len() as i128);
            say(&mut out, m);
            indent(&mut out, &self.credentials);
            proof {
                assert(notices(out@) =~= b + (a_message(m@) + indented(text::texts(self.credentials@))));
            }
        } else {
            proof {
                assert(b + none =~= b);
            }
        }
        let ghost c = notices(out@);
        if self.traces.len() > 0 {
            let m = Message::new("cleanup-ssh").number("count", self.traces.len() as i128);
            say(&mut out, m);
            indent(&mut out, &self.traces);
            proof {
                assert(notices(out@) =~= c + (a_message(m@) + indented(text::texts(self.traces@))));
            }
        } else {
            proof {
                assert(c + none =~= c);
            }
        }
        out
    }

    /// A removal was clicked: the first click asks, the second one is the
    /// removal to perform.
    pub fn clicked(&mut self, removal: Removal) -> (r: bool)
        ensures
            r == (old(self).confirming == Some(removal)),
            final(self).confirming == (if r {
                None
            } else {
                Some(removal)
            }),
            *final(self) == (Cleanup { confirming: final(self).confirming, ..*old(self) }),
    {
        let asking = match self.confirming {
            Some(r) => r == removal,
            None => false,
        };
        self.confirming = if asking {
            None
        } else {
            Some(removal)
        };
        asking
    }

    /// The saved passwords were removed: how many, what failed, and what is
    /// left.
    pub fn credentials_gone(&mut self, gone: usize, failed: Vec<String>, left: &[String])
        ensures
            text::texts(final(self).credentials@) == deduped(order::sorted(text::texts(left@))),
            notices(final(self).done@) == notices(old(self).done@) + a_message(
                message::said("cleanup-credentials-gone"@).number("count"@, gone as int),
            ) + text::texts(failed@).map_values(|f: Seq<char>| NoticeView::Plain(f)),
            *final(self) == (Cleanup {
                credentials: final(self).credentials,
                done: final(self).done,
                ..*old(self)
            }),
    {
        say(&mut self.done, Message::new("cleanup-credentials-gone").number("count", gone as i128));
        let ghost before = notices(self.done@);
        let ghost all = text::texts(failed@).map_values(|f: Seq<char>| NoticeView::Plain(f));
        let ghost rest = *self;
        let mut i: usize = 0;
        proof {
            assert(before =~= before + all.take(0));
        }
        while i < failed.len()
            invariant
                i <= failed@.len(),
                all == text::texts(failed@).map_values(|f: Seq<char>| NoticeView::Plain(f)),
                notices(self.done@) == before + all.take(i as int),
                *self == (Cleanup { done: self.done, ..rest }),
            decreases failed@.len() - i,
        {
            let n = Notice::Plain(failed[i].clone());
            let ghost was = self.done@;
            self.done.push(n);
            proof {
                assert(all[i as int] == n@);
                assert(notices(self.done@) =~= notices(was).push(n@));
                assert(before + all.take(i + 1) =~= (before + all.take(i as int)).push(n@));
            }
            i += 1;
        }
        proof {
            assert(all.take(i as int) =~= all);
        }
        self.credentials = saved_entries(left);
    }

    /// The registered data directory was removed, or was not and why.
    pub fn registry_gone(&mut self, error: Option<String>)
        ensures
            match error {
                None => final(self).registry is None && notices(final(self).done@) == notices(old(self).done@)
                    + a_message(message::said("cleanup-registry-gone"@)),
                Some(why) => final(self).registry == old(self).registry && notices(final(self).done@) == notices(
                    old(self).done@,
                ).push(NoticeView::Plain(why@)),
            },
            *final(self) == (Cleanup { registry: final(self).registry, done: final(self).done, ..*old(self) }),
    {
        match error {
            None => {
                self.registry = None;
                say(&mut self.done, Message::new("cleanup-registry-gone"));
            },
            Some(why) => {
                let ghost before = notices(self.done@);
                let n = Notice::Plain(why);
                self.done.push(n);
                proof {
                    assert(notices(self.done@) =~= before.push(n@));
                }
            },
        }
    }
}

/// What a removal is asked with, once it was clicked.
pub open spec fn asked(confirming: Option<Removal>, removal: Removal) -> bool {
    confirming == Some(removal)
}

/// Nothing is removed with a single click: the click before was on the same
/// removal.
pub proof fn law_two_clicks(confirming: Option<Removal>, first: Removal, second: Removal)
    ensures
        ({
            let after_first = if asked(confirming, first) {
                None
            } else {
                Some(first)
            };
            !asked(confirming, first) ==> (asked(after_first, second) <==> second == first)
        }),
        !asked(None, first),
{
}

/// What the dialog asks the window to do (it owns the profile).
#[derive(Clone, Copy, Debug, PartialEq, Eq, Structural)]
pub enum CleanupAction {
    RemoveFragment,
}

/// The dialog.
pub struct CleanupDialog {
    pub cleanup: Cleanup,
    /// Set by the window after it removed the profile.
    pub message: Option<String>,
}

impl CleanupDialog {
    /// The dialog, with nothing said yet.
    pub fn new(cleanup: Cleanup) -> (r: CleanupDialog)
        ensures
            r == (CleanupDialog { cleanup, message: None }),
    {
        CleanupDialog { cleanup, message: None }
    }
}

/// What is said of the profile in Windows Terminal: whether it is there.
pub fn fragment_text(there: bool) -> (r: Message)
    ensures
        r@ == message::said(
            if there {
                "cleanup-fragment-there"@
            } else {
                "cleanup-fragment-gone"@
            },
        ),
{
    if there {
        Message::new("cleanup-fragment-there")
    } else {
        Message::new("cleanup-fragment-gone")
    }
}

/// What a click on the profile's button asks for: only a profile that is
/// there is removed.
pub fn fragment_clicked(there: bool) -> (r: Option<CleanupAction>)
    ensures
        r == (if there {
            Some(CleanupAction::RemoveFragment)
        } else {
            None
        }),
{
    if there {
        Some(CleanupAction::RemoveFragment)
    } else {
        None
    }
}

/// Of equal entries that stand together one is left.
pub proof fn law_repeats_are_left_out(s: Seq<Seq<char>>, x: Seq<char>)
    ensures
        deduped(Seq::empty()).len() == 0,
        s.len() > 0 ==> deduped(s).last() == s.last(),
        s.len() > 0 && s.last() == x ==> deduped(s.push(x)) == deduped(s),
        s.len() == 0 || s.last() != x ==> deduped(s.push(x)) == deduped(s).push(x),
    decreases s.len(),
{
    assert(s.push(x).drop_last() =~= s);
    if s.len() > 0 {
        law_repeats_are_left_out(s.drop_last(), s.last());
        assert(s.drop_last().push(s.last()) =~= s);
    }
}

/// What is listed of what would be left: the data, the value in the registry,
/// and each entry and trace under a line that counts them.
pub proof fn law_what_is_listed(c: Cleanup)
    ensures
        ({
            let l = listed(c);
            let r = if c.registry is Some { 1int } else { 0 };
            let n = c.credentials@.len();
            let k = if n > 0 { n + 1 } else { 0nat };
            let t = c.traces@.len();
            &&& l.len() == 2 + r + k + (if t > 0 { t + 1 } else { 0nat })
            &&& l[0] == NoticeView::Said(message::said("cleanup-title"@))
            &&& l[1] == NoticeView::Said(message::said("cleanup-data"@).text("path"@, c.data_dir@))
            &&& c.registry matches Some(v) ==> l[2] == NoticeView::Said(message::said("cleanup-registry"@).text("value"@, v@))
            &&& n > 0 ==> l[2 + r] == NoticeView::Said(message::said("cleanup-credentials"@).number("count"@, n as int))
            &&& forall|i: int| 0 <= i < n ==> l[3 + r + i] == NoticeView::Plain("  "@ + (#[trigger] c.credentials@[i])@)
            &&& t > 0 ==> l[2 + r + k] == NoticeView::Said(message::said("cleanup-ssh"@).number("count"@, t as int))
            &&& forall|i: int| 0 <= i < t ==> l[3 + r + k + i] == NoticeView::Plain("  "@ + (#[trigger] c.traces@[i])@)
        }),
{
}

/// A removal is asked for once: only the same one again is done.
pub proof fn law_a_removal_is_confirmed(removal: Removal, other: Removal)
    ensures
        asked(Some(removal), removal),
        other != removal ==> !asked(Some(other), removal),
        !asked(None, removal),
{
}

} // verus!
