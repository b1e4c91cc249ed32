//! Pictures of Terminal tabs for the tab list: the selected tab of each
//! Terminal window, pictured when a scan finds it, never on a timer.
//! Terminal renders only the selected tab, so a tab's picture is how it
//! looked when it was last seen selected. Kept in memory only.

use vstd::prelude::*;

use crate::tabs;
use crate::tabs::Snapshot;
use crate::tabs::SnapshotModel;
use crate::tabs::TabModel;
use crate::tabs::TabView;
use crate::tabs::WindowModel;
use crate::text;

verus! {

/// A tab seen this recently isn't pictured again, in milliseconds.
pub const FRESH: u64 = 3000;

/// Pictures this wide (physical pixels).
pub const WIDTH: i32 = 360;

/// A picture and where it belongs.
#[derive(Clone, Debug, PartialEq, Eq)]
pub struct Preview {
    pub window: isize,
    pub index: usize,
    /// The tab's title then.
    pub title: String,
    /// When it was taken, in seconds since 1970.
    pub taken: u64,
    /// When it was taken, in milliseconds on a clock that never goes back.
    pub at: u64,
    /// The number under which the image itself is kept.
    pub image: u64,
}

/// A picture and where it belongs.
pub struct PreviewModel {
    pub window: int,
    pub index: int,
    pub title: Seq<char>,
    pub taken: int,
    pub at: int,
    pub image: int,
}

impl View for Preview {
    type V = PreviewModel;

    open spec fn view(&self) -> PreviewModel {
        PreviewModel {
            window: self.window as int,
            index: self.index as int,
            title: self.title@,
            taken: self.taken as int,
            at: self.at as int,
            image: self.image as int,
        }
    }
}

/// The pictures, by window and tab position.
pub struct Previews {
    pub kept: Vec<Preview>,
}

impl View for Previews {
    type V = Seq<PreviewModel>;

    open spec fn view(&self) -> Seq<PreviewModel> {
        self.kept@.map_values(|p: Preview| p@)
    }
}

/// Where the picture of a place is in the list.
pub open spec fn place_of(kept: Seq<PreviewModel>, window: int, index: int) -> Option<int>
    decreases kept.len(),
{
    if kept.len() == 0 {
        None
    } else if kept.first().window == window && kept.first().index == index {
        Some(0)
    } else {
        match place_of(kept.skip(1), window, index) {
            Some(i) => Some(i + 1),
            None => None,
        }
    }
}

/// The picture of a place.
pub open spec fn picture(kept: Seq<PreviewModel>, window: int, index: int) -> Option<PreviewModel> {
    match place_of(kept, window, index) {
        Some(i) => Some(kept[i]),
        None => None,
    }
}

/// No place has two pictures.
pub open spec fn one_each(kept: Seq<PreviewModel>) -> bool {
    forall|i: int, j: int|
        #![trigger kept[i], kept[j]]
        0 <= i < j < kept.len() ==> kept[i].window != kept[j].window || kept[i].index != kept[j].index
}

proof fn lemma_place(kept: Seq<PreviewModel>, window: int, index: int)
    ensures
        match place_of(kept, window, index) {
            Some(i) => {
                &&& 0 <= i < kept.len()
                &&& kept[i].window == window
                &&& kept[i].index == index
                &&& forall|j: int| 0 <= j < i ==> (#[trigger] kept[j]).window != window || kept[j].index != index
            },
            None => forall|j: int|
                0 <= j < kept.len() ==> (#[trigger] kept[j]).window != window || kept[j].index != index,
        },
    decreases kept.len(),
{
    if kept.len() > 0 && !(kept.first().window == window && kept.first().index == index) {
        lemma_place(kept.skip(1), window, index);
        let rest = kept.skip(1);
        assert forall|j: int|
            0 <= j < kept.len() && (match place_of(kept, window, index) {
                Some(i) => j < i,
                None => true,
            }) implies (#[trigger] kept[j]).window != window || kept[j].index != index by {
            if j > 0 {
                assert(rest[j - 1] == kept[j]);
            }
        }
    }
}

proof fn lemma_place_is(kept: Seq<PreviewModel>, window: int, index: int, i: int)
    requires
        one_each(kept),
        0 <= i < kept.len(),
        kept[i].window == window,
        kept[i].index == index,
    ensures
        place_of(kept, window, index) == Some(i),
{
    lemma_place(kept, window, index);
}

/// The list after a picture was taken of a place.
pub open spec fn with_picture(kept: Seq<PreviewModel>, p: PreviewModel) -> Seq<PreviewModel> {
    match place_of(kept, p.window, p.index) {
        Some(i) => kept.update(i, p),
        None => kept.push(p),
    }
}

/// A picture still fits its place: the window was not read, or a tab is
/// there that has the pictured title or whose window has as many tabs as
/// before.
pub open spec fn fits(p: PreviewModel, before: SnapshotModel, now: SnapshotModel) -> bool {
    match tabs::first_window(now.windows, p.window) {
        None => !now.complete,
        Some(k) => {
            let w = now.windows[k];
            ||| w.unresponsive
            ||| match tabs::first_tab(w.tabs, |t: TabModel| t.index == p.index) {
                None => false,
                Some(t) => w.tabs[t].name == p.title || match tabs::first_window(before.windows, p.window) {
                    Some(b) => before.windows[b].tabs.len() == w.tabs.len(),
                    None => false,
                },
            }
        },
    }
}

/// The list without what no longer fits.
pub open spec fn pruned(kept: Seq<PreviewModel>, before: SnapshotModel, now: SnapshotModel) -> Seq<PreviewModel> {
    kept.filter(|p: PreviewModel| fits(p, before, now))
}

/// Where a tab strip ends: the lowest bottom of its tabs.
pub open spec fn strip_end(tabs: Seq<TabModel>) -> Option<int>
    decreases tabs.len(),
{
    if tabs.len() == 0 {
        None
    } else {
        match (strip_end(tabs.drop_last()), tabs.last().rect) {
            (Some(a), Some(r)) => Some(
                if a > r.bottom {
                    a
                } else {
                    r.bottom as int
                },
            ),
            (Some(a), None) => Some(a),
            (None, Some(r)) => Some(r.bottom as int),
            (None, None) => None,
        }
    }
}

/// A selected tab that needs a picture.
#[derive(Clone, Debug, PartialEq, Eq)]
pub struct Wanted {
    pub window: isize,
    pub index: usize,
    pub title: String,
    /// Where the tab strip ends.
    pub strip: Option<i32>,
}

/// A selected tab that needs a picture.
pub struct WantedModel {
    pub window: int,
    pub index: int,
    pub title: Seq<char>,
    pub strip: Option<int>,
}

impl View for Wanted {
    type V = WantedModel;

    open spec fn view(&self) -> WantedModel {
        WantedModel {
            window: self.window as int,
            index: self.index as int,
            title: self.title@,
            strip: match self.strip {
                Some(s) => Some(s as int),
                None => None,
            },
        }
    }
}

/// A list of wanted pictures.
pub open spec fn all_wanted(v: Seq<Wanted>) -> Seq<WantedModel> {
    v.map_values(|w: Wanted| w@)
}

/// The tab has just been pictured under this title.
pub open spec fn is_fresh(kept: Seq<PreviewModel>, window: int, tab: TabModel, now: int) -> bool {
    match picture(kept, window, tab.index) {
        Some(p) => p.title == tab.name && now - p.at < FRESH,
        None => false,
    }
}

/// The picture that a window wants.
pub open spec fn wanted_of(kept: Seq<PreviewModel>, w: WindowModel, now: int) -> Option<WantedModel> {
    if w.unresponsive {
        None
    } else {
        match tabs::first_tab(w.tabs, |t: TabModel| t.selected) {
            None => None,
            Some(i) => if is_fresh(kept, w.handle, w.tabs[i], now) {
                None
            } else {
                Some(
                    WantedModel {
                        window: w.handle,
                        index: w.tabs[i].index,
                        title: w.tabs[i].name,
                        strip: strip_end(w.tabs),
                    },
                )
            },
        }
    }
}

/// The pictures that some windows want, in their order.
pub open spec fn wanted_by(kept: Seq<PreviewModel>, windows: Seq<WindowModel>, now: int) -> Seq<WantedModel>
    decreases windows.len(),
{
    if windows.len() == 0 {
        Seq::empty()
    } else {
        let rest = wanted_by(kept, windows.drop_last(), now);
        match wanted_of(kept, windows.last(), now) {
            Some(w) => rest.push(w),
            None => rest,
        }
    }
}

fn tab_at(list: &[TabView], index: usize) -> (r: Option<usize>)
    ensures
        match r {
            Some(i) => i < list@.len() && tabs::first_tab(
                list@.map_values(|t: TabView| t@),
                |t: TabModel| t.index == index as int,
            ) == Some(i as int),
            None => tabs::first_tab(list@.map_values(|t: TabView| t@), |t: TabModel| t.index == index as int) is None,
        },
{
    let ghost all = list@.map_values(|t: TabView| t@);
    let ghost f = |t: TabModel| t.index == index as int;
    let mut i: usize = 0;
    proof {
        assert(all.skip(0) =~= all);
    }
    while i < list.len()
        invariant
            i <= list@.len(),
            all == list@.map_values(|t: TabView| t@),
            f == (|t: TabModel| t.index == index as int),
            tabs::first_tab(all, f) == match tabs::first_tab(all.skip(i as int), f) {
                Some(k) => Some(k + i),
                None => None::<int>,
            },
        decreases list@.len() - i,
    {
        proof {
            assert(all.skip(i as int).first() == list@[i as int]@);
            assert(all.skip(i as int).skip(1) =~= all.skip(i + 1));
        }
        if list[i].index == index {
            return Some(i);
        }
        i += 1;
    }
    None
}

fn selected(list: &[TabView]) -> (r: Option<usize>)
    ensures
        match r {
            Some(i) => i < list@.len() && tabs::first_tab(
                list@.map_values(|t: TabView| t@),
                |t: TabModel| t.selected,
            ) == Some(i as int),
            None => tabs::first_tab(list@.map_values(|t: TabView| t@), |t: TabModel| t.selected) is None,
        },
{
    let ghost all = list@.map_values(|t: TabView| t@);
    let ghost f = |t: TabModel| t.selected;
    let mut i: usize = 0;
    proof {
        assert(all.skip(0) =~= all);
    }
    while i < list.len()
        invariant
            i <= list@.len(),
            all == list@.map_values(|t: TabView| t@),
            f == (|t: TabModel| t.selected),
            tabs::first_tab(all, f) == match tabs::first_tab(all.skip(i as int), f) {
                Some(k) => Some(k + i),
                None => None::<int>,
            },
        decreases list@.len() - i,
    {
        proof {
            assert(all.skip(i as int).first() == list@[i as int]@);
            assert(all.skip(i as int).skip(1) =~= all.skip(i + 1));
        }
        if list[i].selected {
            return Some(i);
        }
        i += 1;
    }
    None
}

fn strip_of(list: &[TabView]) -> (r: Option<i32>)
    ensures
        (match r {
            Some(b) => Some(b as int),
            None => None,
        }) == strip_end(list@.map_values(|t: TabView| t@)),
{
    let ghost all = list@.map_values(|t: TabView| t@);
    let mut end: Option<i32> = None;
    let mut i: usize = 0;
    while i < list.len()
        invariant
            i <= list@.len(),
            all == list@.map_values(|t: TabView| t@),
            (match end {
                Some(b) => Some(b as int),
                None => None,
            }) == strip_end(all.take(i as int)),
        decreases list@.len() - i,
    {
        proof {
            assert(all.take(i + 1).drop_last() =~= all.take(i as int));
            assert(all.take(i + 1).last() == list@[i as int]@);
        }
        end = match (end, list[i].rect) {
            (Some(a), Some(r)) => Some(
                if a > r.bottom {
                    a
                } else {
                    r.bottom
                },
            ),
            (Some(a), None) => Some(a),
            (None, Some(r)) => Some(r.bottom),
            (None, None) => None,
        };
        i += 1;
    }
    proof {
        assert(all.take(list@.len() as int) =~= all);
    }
    end
}

fn still_fits(p: &Preview, before: &Snapshot, now: &Snapshot) -> (r: bool)
    ensures
        r == fits(p@, before@, now@),
{
    match tabs::find_window(&now.windows, p.window) {
        None => !now.complete,
        Some(k) => {
            let w = &now.windows[k];
            proof {
                assert(now@.windows[k as int] == w@);
                assert(w@.tabs.len() == w.tabs@.len());
            }
            if w.unresponsive {
                return true;
            }
            let ghost f = |t: TabModel| t.index == p@.index;
            match tab_at(&w.tabs, p.index) {
                None => false,
                Some(t) => {
                    proof {
                        assert(w@.tabs[t as int] == w.tabs@[t as int]@);
                    }
                    let same_count = match tabs::find_window(&before.windows, p.window) {
                        Some(b) => {
                            proof {
                                assert(before@.windows[b as int] == before.windows@[b as int]@);
                                assert(before@.windows[b as int].tabs.len() == before.windows@[b as int].tabs@.len());
                            }
                            before.windows[b].tabs.len() == w.tabs.len()
                        },
                        None => false,
                    };
                    text::same(&w.tabs[t].name, &p.title) || same_count
                },
            }
        },
    }
}

impl Previews {
    /// No pictures yet.
    pub fn new() -> (r: Previews)
        ensures
            r@ == Seq::<PreviewModel>::empty(),
            one_each(r@),
    {
        let r = Previews { kept: Vec::new() };
        proof {
            assert(r@ =~= Seq::empty());
        }
        r
    }

    fn position(&self, window: isize, index: usize) -> (r: Option<usize>)
        ensures
            match r {
                Some(i) => i < self.kept@.len() && place_of(self@, window as int, index as int) == Some(i as int),
                None => place_of(self@, window as int, index as int) is None,
            },
    {
        let mut i: usize = 0;
        proof {
            assert(self@.skip(0) =~= self@);
        }
        while i < self.kept.len()
            invariant
                i <= self.kept@.len(),
                place_of(self@, window as int, index as int) == match place_of(
                    self@.skip(i as int),
                    window as int,
                    index as int,
                ) {
                    Some(k) => Some(k + i),
                    None => None::<int>,
                },
            decreases self.kept@.len() - i,
        {
            proof {
                assert(self@.skip(i as int).first() == self.kept@[i as int]@);
                assert(self@.skip(i as int).skip(1) =~= self@.skip(i + 1));
            }
            if self.kept[i].window == window && self.kept[i].index == index {
                return Some(i);
            }
            i += 1;
        }
        None
    }

    /// The picture of a tab.
    pub fn get(&self, window: isize, index: usize) -> (r: Option<&Preview>)
        ensures
            (match r {
                Some(p) => Some(p@),
                None => None,
            }) == picture(self@, window as int, index as int),
    {
        match self.position(window, index) {
            Some(i) => {
                proof {
                    assert(self@[i as int] == self.kept@[i as int]@);
                }
                Some(&self.kept[i])
            },
            None => None,
        }
    }

    /// Forget the pictures that no longer fit their place: the window or the
    /// tab is gone, or the tabs moved (their count changed and the title
    /// there isn't the pictured one). An incomplete scan forgets nothing of
    /// the windows it didn't read.
    pub fn prune(&mut self, before: &Snapshot, now: &Snapshot)
        ensures
            final(self)@ == pruned(old(self)@, before@, now@),
    {
        let ghost all = self@;
        let ghost f = |p: PreviewModel| fits(p, before@, now@);
        let ghost mut j: int = 0;
        let mut i: usize = 0;
        proof {
            reveal(Seq::filter);
            assert(all.take(0).filter(f) =~= Seq::empty());
            assert(self@ =~= all.take(0).filter(f) + all.skip(0));
        }
        while i < self.kept.len()
            invariant
                0 <= j <= all.len(),
                f == (|p: PreviewModel| fits(p, before@, now@)),
                i == all.take(j).filter(f).len(),
                self@ == all.take(j).filter(f) + all.skip(j),
            decreases self.kept@.len() - i,
        {
            proof {
                reveal(Seq::filter);
                assert(self@.len() == self.kept@.len());
                assert(j < all.len());
                assert(self@[i as int] == all[j]);
                assert(self@[i as int] == self.kept@[i as int]@);
                assert(all.take(j + 1).drop_last() =~= all.take(j));
                assert(all.take(j + 1).last() == all[j]);
            }
            if still_fits(&self.kept[i], before, now) {
                proof {
                    assert(all.take(j + 1).filter(f) == all.take(j).filter(f).push(all[j]));
                    assert(all.take(j).filter(f) + all.skip(j) =~= all.take(j + 1).filter(f) + all.skip(j + 1));
                }
                i += 1;
            } else {
                let ghost held = self.kept@;
                let _ = self.kept.remove(i);
                proof {
                    assert(all.take(j + 1).filter(f) == all.take(j).filter(f));
                    assert(self@ =~= all.take(j + 1).filter(f) + all.skip(j + 1)) by {
                        assert(self.kept@ == held.remove(i as int));
                        let shown = held.map_values(|p: Preview| p@);
                        assert(shown =~= all.take(j).filter(f) + all.skip(j));
                        assert(self@ =~= shown.remove(i as int));
                    }
                }
            }
            proof {
                j = j + 1;
            }
        }
        proof {
            assert(self@.len() == self.kept@.len());
            assert(all.skip(j).len() == 0);
            assert(all.take(j) =~= all);
            assert(self@ =~= all.filter(f));
        }
    }

    /// The selected tabs that need a picture.
    pub fn wanted(&self, snapshot: &Snapshot, now: u64) -> (r: Vec<Wanted>)
        ensures
            all_wanted(r@) == wanted_by(self@, snapshot@.windows, now as int),
    {
        let ghost all = snapshot@.windows;
        let mut r: Vec<Wanted> = Vec::new();
        let mut i: usize = 0;
        proof {
            assert(all_wanted(r@) =~= wanted_by(self@, all.take(0), now as int));
        }
        while i < snapshot.windows.len()
            invariant
                i <= snapshot.windows@.len(),
                all == snapshot@.windows,
                all_wanted(r@) == wanted_by(self@, all.take(i as int), now as int),
            decreases snapshot.windows@.len() - i,
        {
            let w = &snapshot.windows[i];
            proof {
                assert(all.take(i + 1).drop_last() =~= all.take(i as int));
                assert(all.take(i + 1).last() == w@);
            }
            if !w.unresponsive {
                if let Some(t) = selected(&w.tabs) {
                    let tab = &w.tabs[t];
                    proof {
                        assert(w@.tabs[t as int] == tab@);
                    }
                    let fresh = match self.get(w.handle, tab.index) {
                        Some(p) => text::same(&p.title, &tab.name) && (now < p.at || now - p.at < FRESH),
                        None => false,
                    };
                    if !fresh {
                        let strip = strip_of(&w.tabs);
                        let want = Wanted { window: w.handle, index: tab.index, title: tab.name.clone(), strip };
                        let ghost before = r@;
                        r.push(want);
                        proof {
                            assert(all_wanted(r@) =~= all_wanted(before).push(want@));
                        }
                    }
                }
            }
            i += 1;
        }
        proof {
            assert(all.take(snapshot.windows@.len() as int) =~= all);
        }
        r
    }

    /// Keep a picture, in place of an earlier one of the same tab. `image`
    /// is the number under which the image itself is kept; it was taken at
    /// `taken` by the calendar's clock, and `now` by the one for waits.
    pub fn insert(&mut self, window: isize, index: usize, title: String, image: u64, taken: u64, now: u64)
        ensures
            final(self)@ == with_picture(
                old(self)@,
                (PreviewModel {
                    window: window as int,
                    index: index as int,
                    title: title@,
                    taken: taken as int,
                    at: now as int,
                    image: image as int,
                }),
            ),
    {
        let preview = Preview { window, index, title, taken, at: now, image };
        let ghost before = self@;
        match self.position(window, index) {
            Some(i) => {
                self.kept[i] = preview;
                proof {
                    assert(self@ =~= before.update(i as int, preview@));
                }
            },
            None => {
                self.kept.push(preview);
                proof {
                    assert(self@ =~= before.push(preview@));
                }
            },
        }
    }
}

proof fn lemma_filter_one_each(kept: Seq<PreviewModel>, f: spec_fn(PreviewModel) -> bool)
    requires
        one_each(kept),
    ensures
        one_each(kept.filter(f)),
        forall|p: PreviewModel| #[trigger] kept.filter(f).contains(p) <==> kept.contains(p) && f(p),
    decreases kept.len(),
{
    reveal(Seq::filter);
    if kept.len() > 0 {
        let rest = kept.drop_last();
        assert(one_each(rest)) by {
            assert forall|i: int, j: int|
                #![trigger rest[i], rest[j]]
                0 <= i < j < rest.len() implies rest[i].window != rest[j].window || rest[i].index
                != rest[j].index by {
                assert(rest[i] == kept[i] && rest[j] == kept[j]);
            }
        }
        lemma_filter_one_each(rest, f);
        let last = kept.last();
        let fr = rest.filter(f);
        assert forall|p: PreviewModel| kept.contains(p) <==> rest.contains(p) || p == last by {
            if kept.contains(p) && p != last {
                let i = choose|i: int| 0 <= i < kept.len() && kept[i] == p;
                assert(rest[i] == p);
            }
            if rest.contains(p) {
                let i = choose|i: int| 0 <= i < rest.len() && rest[i] == p;
                assert(kept[i] == p);
            }
            assert(kept[kept.len() - 1] == last);
        }
        if f(last) {
            let ff = fr.push(last);
            assert(kept.filter(f) == ff);
            assert forall|i: int, j: int|
                #![trigger ff[i], ff[j]]
                0 <= i < j < ff.len() implies ff[i].window != ff[j].window || ff[i].index != ff[j].index by {
                assert(ff[i] == fr[i]);
                if j < fr.len() {
                    assert(ff[j] == fr[j]);
                } else {
                    assert(fr.contains(fr[i]));
                    let k = choose|k: int| 0 <= k < rest.len() && rest[k] == fr[i];
                    assert(kept[k] == fr[i] && kept[kept.len() - 1] == last);
                }
            }
            assert forall|p: PreviewModel| #[trigger] ff.contains(p) <==> kept.contains(p) && f(p) by {
                if ff.contains(p) {
                    let i = choose|i: int| 0 <= i < ff.len() && ff[i] == p;
                    if i < fr.len() {
                        assert(fr[i] == p);
                        assert(fr.contains(p));
                    }
                }
                if kept.contains(p) && f(p) {
                    if p == last {
                        assert(ff[fr.len() as int] == p);
                    } else {
                        assert(fr.contains(p));
                        let i = choose|i: int| 0 <= i < fr.len() && fr[i] == p;
                        assert(ff[i] == p);
                    }
                }
            }
        } else {
            assert(kept.filter(f) == fr);
        }
    }
}

/// A picture taken of a tab is the one found there, no other place changes,
/// and no place ever has two.
pub proof fn law_insert_replaces(kept: Seq<PreviewModel>, p: PreviewModel, window: int, index: int)
    requires
        one_each(kept),
    ensures
        one_each(with_picture(kept, p)),
        picture(with_picture(kept, p), p.window, p.index) == Some(p),
        window != p.window || index != p.index ==> picture(with_picture(kept, p), window, index) == picture(
            kept,
            window,
            index,
        ),
{
    let after = with_picture(kept, p);
    lemma_place(kept, p.window, p.index);
    assert(one_each(after)) by {
        assert forall|i: int, j: int|
            #![trigger after[i], after[j]]
            0 <= i < j < after.len() implies after[i].window != after[j].window || after[i].index
            != after[j].index by {
            match place_of(kept, p.window, p.index) {
                Some(k) => {
                    assert(kept[i].window != kept[j].window || kept[i].index != kept[j].index);
                },
                None => {
                    if j < kept.len() {
                        assert(kept[i].window != kept[j].window || kept[i].index != kept[j].index);
                    } else {
                        assert(kept[i].window != p.window || kept[i].index != p.index);
                    }
                },
            }
        }
    }
    let at = match place_of(kept, p.window, p.index) {
        Some(k) => k,
        None => kept.len() as int,
    };
    assert(after[at] == p);
    lemma_place_is(after, p.window, p.index, at);
    if window != p.window || index != p.index {
        lemma_place(kept, window, index);
        lemma_place(after, window, index);
        match place_of(kept, window, index) {
            Some(k) => {
                assert(k != at);
                assert(after[k] == kept[k]);
                lemma_place_is(after, window, index, k);
            },
            None => {
                if let Some(k) = place_of(after, window, index) {
                    assert(k != at);
                    assert(after[k] == kept[k]);
                }
            },
        }
    }
}

/// What is found at a place after a prune is what was there, if it still
/// fits, and nothing otherwise.
pub proof fn law_prune_keeps_what_fits(
    kept: Seq<PreviewModel>,
    before: SnapshotModel,
    now: SnapshotModel,
    window: int,
    index: int,
)
    requires
        one_each(kept),
    ensures
        one_each(pruned(kept, before, now)),
        picture(pruned(kept, before, now), window, index) == match picture(kept, window, index) {
            Some(p) => if fits(p, before, now) {
                Some(p)
            } else {
                None
            },
            None => None,
        },
{
    let f = |p: PreviewModel| fits(p, before, now);
    let after = kept.filter(f);
    lemma_filter_one_each(kept, f);
    lemma_place(kept, window, index);
    lemma_place(after, window, index);
    match place_of(after, window, index) {
        Some(i) => {
            assert(after.contains(after[i]));
            let k = choose|k: int| 0 <= k < kept.len() && kept[k] == after[i];
            lemma_place_is(kept, window, index, k);
        },
        None => {
            if let Some(k) = place_of(kept, window, index) {
                if f(kept[k]) {
                    assert(kept.contains(kept[k]));
                    assert(after.contains(kept[k]));
                    let i = choose|i: int| 0 <= i < after.len() && after[i] == kept[k];
                    assert(after[i].window == window && after[i].index == index);
                }
            }
        },
    }
}

/// A picture is found by its window and tab.
pub proof fn law_pictures_by_place(kept: Seq<PreviewModel>, window: int, index: int)
    ensures
        match picture(kept, window, index) {
            Some(p) => kept.contains(p) && p.window == window && p.index == index,
            None => forall|i: int| 0 <= i < kept.len() ==> (#[trigger] kept[i]).window != window || kept[i].index != index,
        },
    decreases kept.len(),
{
    lemma_place(kept, window, index);
}

/// A picture stays while its tab is there: where its title is the pictured
/// one, or no tab came or went; where its window was not read; and where
/// the window was missing from a look that was not complete. It goes with
/// its window and with its tab.
pub proof fn law_pictures_that_stay(p: PreviewModel, before: SnapshotModel, now: SnapshotModel)
    ensures
        tabs::first_window(now.windows, p.window) is None ==> fits(p, before, now) == !now.complete,
        tabs::first_window(now.windows, p.window) matches Some(k) ==> {
            let w = now.windows[k];
            &&& w.unresponsive ==> fits(p, before, now)
            &&& !w.unresponsive && (forall|t: int| 0 <= t < w.tabs.len() ==> (#[trigger] w.tabs[t]).index != p.index) ==> !fits(
                p,
                before,
                now,
            )
            &&& forall|t: int|
                0 <= t < w.tabs.len() && (#[trigger] w.tabs[t]).index == p.index && (forall|j: int|
                    0 <= j < t ==> (#[trigger] w.tabs[j]).index != p.index) && w.tabs[t].name == p.title ==> fits(p, before, now)
            &&& !w.unresponsive && (forall|t: int| 0 <= t < w.tabs.len() ==> (#[trigger] w.tabs[t]).name != p.title) ==> (fits(
                p,
                before,
                now,
            ) ==> (tabs::first_window(before.windows, p.window) matches Some(b) && before.windows[b].tabs.len() == w.tabs.len()))
        },
{
    if tabs::first_window(now.windows, p.window) is Some {
        let w = now.windows[tabs::first_window(now.windows, p.window)->0];
        lemma_tab(w.tabs, |t: TabModel| t.index == p.index);
    }
}

proof fn lemma_tab(all: Seq<TabModel>, wanted: spec_fn(TabModel) -> bool)
    ensures
        match tabs::first_tab(all, wanted) {
            Some(i) => 0 <= i < all.len() && wanted(all[i]) && forall|j: int| 0 <= j < i ==> !wanted(#[trigger] all[j]),
            None => forall|j: int| 0 <= j < all.len() ==> !wanted(#[trigger] all[j]),
        },
    decreases all.len(),
{
    if all.len() > 0 {
        let rest = all.skip(1);
        lemma_tab(rest, wanted);
        assert(all[0] == all.first());
        assert forall|j: int| 0 < j < all.len() implies #[trigger] all[j] == rest[j - 1] by {}
    }
}

/// A tab is pictured where it is selected in a window that answers, unless
/// it was pictured under the same title less than three seconds ago.
pub proof fn law_what_is_pictured(kept: Seq<PreviewModel>, w: WindowModel, t: int, now: int)
    requires
        0 <= t < w.tabs.len(),
        w.tabs[t].selected,
        forall|j: int| 0 <= j < t ==> !(#[trigger] w.tabs[j]).selected,
    ensures
        w.unresponsive ==> wanted_of(kept, w, now) is None,
        !w.unresponsive ==> ({
            let tab = w.tabs[t];
            let lately = picture(kept, w.handle, tab.index) matches Some(p) && p.title == tab.name && now - p.at < 3000;
            &&& lately ==> wanted_of(kept, w, now) is None
            &&& !lately ==> wanted_of(kept, w, now) == Some(
                WantedModel { window: w.handle, index: tab.index, title: tab.name, strip: strip_end(w.tabs) },
            )
        }),
{
    lemma_tab(w.tabs, |x: TabModel| x.selected);
}

/// Nothing is pictured of a window without a selected tab; windows are gone
/// through in order.
pub proof fn law_windows_pictured_in_order(kept: Seq<PreviewModel>, windows: Seq<WindowModel>, w: WindowModel, now: int)
    ensures
        (forall|t: int| 0 <= t < w.tabs.len() ==> !(#[trigger] w.tabs[t]).selected) ==> wanted_of(kept, w, now) is None,
        wanted_by(kept, Seq::empty(), now) == Seq::<WantedModel>::empty(),
        wanted_of(kept, w, now) is None ==> wanted_by(kept, windows.push(w), now) == wanted_by(kept, windows, now),
        wanted_of(kept, w, now) matches Some(x) ==> wanted_by(kept, windows.push(w), now) == wanted_by(kept, windows, now).push(x),
{
    assert(windows.push(w).drop_last() =~= windows);
    lemma_tab(w.tabs, |x: TabModel| x.selected);
}

/// The tab strip ends where the lowest of its tabs does.
pub proof fn law_strip_end(all: Seq<TabModel>)
    ensures
        strip_end(all) is None <==> forall|i: int| 0 <= i < all.len() ==> (#[trigger] all[i]).rect is None,
        strip_end(all) matches Some(end) ==> (exists|i: int|
            0 <= i < all.len() && ((#[trigger] all[i]).rect matches Some(r) && r.bottom as int == end)) && forall|i: int|
            0 <= i < all.len() ==> ((#[trigger] all[i]).rect matches Some(r) ==> r.bottom as int <= end),
    decreases all.len(),
{
    if all.len() > 0 {
        let front = all.drop_last();
        law_strip_end(front);
        assert(all[all.len() - 1] == all.last());
        assert forall|i: int| 0 <= i < front.len() implies #[trigger] all[i] == front[i] by {}
        if strip_end(front) is Some {
            let i = choose|i: int|
                0 <= i < front.len() && ((#[trigger] front[i]).rect matches Some(r) && r.bottom as int == strip_end(front)->0);
            assert(all[i] == front[i]);
        }
    }
}

/// A preview is 360 pixels wide.
pub proof fn law_width_of_a_preview()
    ensures
        WIDTH == 360,
{
}

} // verus!
