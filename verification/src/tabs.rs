//! Terminal's windows and tabs, as a scan saw them: where a session's tab
//! is, which tab a command means, and the numbers windows keep.

use vstd::prelude::*;

use crate::session::Location;
use crate::session::LocationView;
use crate::text;

verus! {

/// A rectangle on the screen.
#[derive(Clone, Copy, Debug, PartialEq, Eq, Structural)]
pub struct Rect {
    pub left: i32,
    pub top: i32,
    pub right: i32,
    pub bottom: i32,
}

/// The session that a tab is recognised as.
#[derive(Clone, Debug, PartialEq, Eq)]
pub struct Claim {
    pub label: String,
    /// Other panes share the tab.
    pub mixed: bool,
}

/// A tab.
#[derive(Clone, Debug, PartialEq, Eq)]
pub struct TabView {
    pub index: usize,
    /// The tab's title.
    pub name: String,
    pub selected: bool,
    pub claim: Option<Claim>,
    pub rect: Option<Rect>,
}

/// A Terminal window.
#[derive(Clone, Debug, PartialEq, Eq)]
pub struct WindowView {
    pub handle: isize,
    /// The process that the window belongs to.
    pub pid: u32,
    pub foreground: bool,
    /// Its tabs could not be read.
    pub unresponsive: bool,
    pub tabs: Vec<TabView>,
}

/// A scan of Terminal's windows.
#[derive(Clone, Debug, PartialEq, Eq)]
pub struct Snapshot {
    pub windows: Vec<WindowView>,
    /// Every window could be read.
    pub complete: bool,
}

/// What a tab shows.
pub struct TabModel {
    pub index: int,
    pub name: Seq<char>,
    pub selected: bool,
    /// The label claimed, and whether the tab is mixed.
    pub claim: Option<(Seq<char>, bool)>,
    pub rect: Option<Rect>,
}

/// What a window shows.
pub struct WindowModel {
    pub handle: int,
    pub pid: int,
    pub foreground: bool,
    pub unresponsive: bool,
    pub tabs: Seq<TabModel>,
}

/// What a scan saw.
pub struct SnapshotModel {
    pub windows: Seq<WindowModel>,
    pub complete: bool,
}

impl View for TabView {
    type V = TabModel;

    open spec fn view(&self) -> TabModel {
        TabModel {
            index: self.index as int,
            name: self.name@,
            selected: self.selected,
            claim: match self.claim {
                Some(c) => Some((c.label@, c.mixed)),
                None => None,
            },
            rect: self.rect,
        }
    }
}

impl View for WindowView {
    type V = WindowModel;

    open spec fn view(&self) -> WindowModel {
        WindowModel {
            handle: self.handle as int,
            pid: self.pid as int,
            foreground: self.foreground,
            unresponsive: self.unresponsive,
            tabs: self.tabs@.map_values(|t: TabView| t@),
        }
    }
}

impl View for Snapshot {
    type V = SnapshotModel;

    open spec fn view(&self) -> SnapshotModel {
        SnapshotModel { windows: self.windows@.map_values(|w: WindowView| w@), complete: self.complete }
    }
}

impl TabView {
    fn same(&self, other: &TabView) -> (r: bool)
        ensures
            r == (self@ == other@),
    {
        let claims = match (&self.claim, &other.claim) {
            (Some(a), Some(b)) => a.mixed == b.mixed && text::same(&a.label, &b.label),
            (None, None) => true,
            _ => false,
        };
        let rects = match (&self.rect, &other.rect) {
            (Some(a), Some(b)) => *a == *b,
            (None, None) => true,
            _ => false,
        };
        self.index == other.index && self.selected == other.selected && claims && rects && text::same(
            &self.name,
            &other.name,
        )
    }
}

impl WindowView {
    fn same(&self, other: &WindowView) -> (r: bool)
        ensures
            r == (self@ == other@),
    {
        if self.handle != other.handle || self.pid != other.pid || self.foreground != other.foreground
            || self.unresponsive != other.unresponsive || self.tabs.len() != other.tabs.len() {
            proof {
                assert(self@.tabs.len() == self.tabs@.len());
                assert(other@.tabs.len() == other.tabs@.len());
            }
            return false;
        }
        let mut i: usize = 0;
        while i < self.tabs.len()
            invariant
                i <= self.tabs@.len(),
                self.tabs@.len() == other.tabs@.len(),
                forall|j: int| 0 <= j < i ==> #[trigger] self@.tabs[j] == other@.tabs[j],
            decreases self.tabs@.len() - i,
        {
            if !self.tabs[i].same(&other.tabs[i]) {
                proof {
                    assert(self@.tabs[i as int] != other@.tabs[i as int]);
                }
                return false;
            }
            i += 1;
        }
        proof {
            assert(self@.tabs =~= other@.tabs);
        }
        true
    }
}

impl Snapshot {
    /// A scan that found nothing because there was nothing to look for.
    pub fn nothing() -> (r: Snapshot)
        ensures
            r@ == (SnapshotModel { windows: Seq::empty(), complete: true }),
    {
        let r = Snapshot { windows: Vec::new(), complete: true };
        proof {
            assert(r@.windows =~= Seq::empty());
        }
        r
    }

    /// Whether both scans saw the same.
    pub fn same(&self, other: &Snapshot) -> (r: bool)
        ensures
            r == (self@ == other@),
    {
        if self.complete != other.complete || self.windows.len() != other.windows.len() {
            proof {
                assert(self@.windows.len() == self.windows@.len());
                assert(other@.windows.len() == other.windows@.len());
            }
            return false;
        }
        let mut i: usize = 0;
        while i < self.windows.len()
            invariant
                i <= self.windows@.len(),
                self.windows@.len() == other.windows@.len(),
                forall|j: int| 0 <= j < i ==> #[trigger] self@.windows[j] == other@.windows[j],
            decreases self.windows@.len() - i,
        {
            if !self.windows[i].same(&other.windows[i]) {
                proof {
                    assert(self@.windows[i as int] != other@.windows[i as int]);
                }
                return false;
            }
            i += 1;
        }
        proof {
            assert(self@.windows =~= other@.windows);
        }
        true
    }
}

/// The handles of a list, as integers.
pub open spec fn handles(order: Seq<isize>) -> Seq<int> {
    order.map_values(|h: isize| h as int)
}

/// A window with this handle was seen.
pub open spec fn is_seen(windows: Seq<WindowModel>, handle: int) -> bool {
    exists|i: int| 0 <= i < windows.len() && (#[trigger] windows[i]).handle == handle
}

/// The order with the windows not in it yet put behind.
pub open spec fn with_windows(order: Seq<int>, windows: Seq<WindowModel>) -> Seq<int>
    decreases windows.len(),
{
    if windows.len() == 0 {
        order
    } else {
        let before = with_windows(order, windows.drop_last());
        if before.contains(windows.last().handle) {
            before
        } else {
            before.push(windows.last().handle)
        }
    }
}

/// The order of windows after a scan: those that are gone are dropped
/// (when the scan is complete), new ones come last.
pub open spec fn next_order(order: Seq<int>, seen: SnapshotModel) -> Seq<int> {
    let kept = if seen.complete {
        order.filter(|h: int| is_seen(seen.windows, h))
    } else {
        order
    };
    with_windows(kept, seen.windows)
}

fn contains_handle(order: &[isize], handle: isize) -> (r: bool)
    ensures
        r == handles(order@).contains(handle as int),
{
    let mut i: usize = 0;
    while i < order.len()
        invariant
            i <= order@.len(),
            forall|j: int| 0 <= j < i ==> #[trigger] handles(order@)[j] != handle,
        decreases order@.len() - i,
    {
        if order[i] == handle {
            proof {
                assert(handles(order@)[i as int] == handle);
            }
            return true;
        }
        i += 1;
    }
    proof {
        assert(handles(order@).len() == order@.len());
    }
    false
}

fn seen_handle(windows: &[WindowView], handle: isize) -> (r: bool)
    ensures
        r == is_seen(windows@.map_values(|w: WindowView| w@), handle as int),
{
    let ghost all = windows@.map_values(|w: WindowView| w@);
    let mut i: usize = 0;
    while i < windows.len()
        invariant
            i <= windows@.len(),
            all == windows@.map_values(|w: WindowView| w@),
            forall|j: int| 0 <= j < i ==> (#[trigger] all[j]).handle != handle,
        decreases windows@.len() - i,
    {
        if windows[i].handle == handle {
            proof {
                assert(all[i as int].handle == handle);
            }
            return true;
        }
        i += 1;
    }
    false
}

/// The order of windows after a scan.
pub fn order_after(order: &[isize], snapshot: &Snapshot) -> (r: Vec<isize>)
    ensures
        handles(r@) == next_order(handles(order@), snapshot@),
{
    let ghost was = handles(order@);
    let ghost windows = snapshot@.windows;
    let ghost keep = |h: int| is_seen(windows, h);
    let mut r: Vec<isize> = Vec::new();
    let mut i: usize = 0;
    proof {
        reveal(Seq::filter);
        assert(was.take(0) =~= Seq::empty());
        assert(handles(r@) =~= Seq::empty());
    }
    while i < order.len()
        invariant
            i <= order@.len(),
            was == handles(order@),
            windows == snapshot@.windows,
            keep == (|h: int| is_seen(windows, h)),
            handles(r@) == if snapshot.complete {
                was.take(i as int).filter(keep)
            } else {
                was.take(i as int)
            },
        decreases order@.len() - i,
    {
        proof {
            reveal(Seq::filter);
            assert(was.take(i + 1).drop_last() =~= was.take(i as int));
            assert(was.take(i + 1).last() == was[i as int]);
            assert(was.take(i + 1) =~= was.take(i as int).push(was[i as int]));
        }
        let ghost before = handles(r@);
        if !snapshot.complete || seen_handle(&snapshot.windows, order[i]) {
            r.push(order[i]);
            proof {
                assert(handles(r@) =~= before.push(was[i as int]));
            }
        }
        i += 1;
    }
    let ghost kept = handles(r@);
    proof {
        assert(was.take(i as int) =~= was);
        assert(windows.take(0) =~= Seq::empty());
    }
    let mut k: usize = 0;
    while k < snapshot.windows.len()
        invariant
            k <= snapshot.windows@.len(),
            windows == snapshot@.windows,
            windows.len() == snapshot.windows@.len(),
            handles(r@) == with_windows(kept, windows.take(k as int)),
        decreases snapshot.windows@.len() - k,
    {
        let handle = snapshot.windows[k].handle;
        proof {
            assert(windows.take(k + 1).drop_last() =~= windows.take(k as int));
            assert(windows.take(k + 1).last() == windows[k as int]);
            assert(windows[k as int].handle == handle);
        }
        let ghost before = handles(r@);
        if !contains_handle(&r, handle) {
            r.push(handle);
            proof {
                assert(handles(r@) =~= before.push(handle as int));
            }
        }
        k += 1;
    }
    proof {
        assert(windows.take(k as int) =~= windows);
    }
    r
}

proof fn lemma_with_windows(order: Seq<int>, windows: Seq<WindowModel>)
    ensures
        order.is_prefix_of(with_windows(order, windows)),
        order.no_duplicates() ==> with_windows(order, windows).no_duplicates(),
        forall|i: int| 0 <= i < windows.len() ==> with_windows(order, windows).contains((#[trigger] windows[i]).handle),
    decreases windows.len(),
{
    if windows.len() > 0 {
        let front = windows.drop_last();
        let before = with_windows(order, front);
        let after = with_windows(order, windows);
        lemma_with_windows(order, front);
        assert(before.is_prefix_of(after)) by {
            assert(after.take(before.len() as int) =~= before);
        }
        assert(order =~= after.take(order.len() as int));
        assert forall|i: int| 0 <= i < windows.len() implies after.contains((#[trigger] windows[i]).handle) by {
            if i < front.len() {
                assert(front[i] == windows[i]);
                let at = choose|at: int| 0 <= at < before.len() && before[at] == windows[i].handle;
                assert(after[at] == windows[i].handle);
            } else if !before.contains(windows.last().handle) {
                assert(after[after.len() - 1] == windows.last().handle);
            }
        }
    }
}

/// While no window closes, every window keeps its number.
pub proof fn law_window_numbers_are_stable(order: Seq<int>, seen: SnapshotModel)
    requires
        forall|i: int| 0 <= i < order.len() ==> is_seen(seen.windows, #[trigger] order[i]),
    ensures
        order.is_prefix_of(next_order(order, seen)),
{
    lemma_with_windows(order, seen.windows);
    let keep = |h: int| is_seen(seen.windows, h);
    lemma_filter_all(order, keep);
}

proof fn lemma_filter_all(s: Seq<int>, keep: spec_fn(int) -> bool)
    requires
        forall|i: int| 0 <= i < s.len() ==> keep(#[trigger] s[i]),
    ensures
        s.filter(keep) == s,
    decreases s.len(),
{
    reveal(Seq::filter);
    if s.len() > 0 {
        let front = s.drop_last();
        assert forall|i: int| 0 <= i < front.len() implies keep(#[trigger] front[i]) by {
            assert(front[i] == s[i]);
        }
        lemma_filter_all(front, keep);
        assert(s[s.len() - 1] == s.last());
        assert(front.push(s.last()) =~= s);
    }
}

/// An incomplete scan keeps every number; a scan never gives two windows
/// the same number, and every window seen has one.
pub proof fn law_window_numbers(order: Seq<int>, seen: SnapshotModel)
    requires
        order.no_duplicates(),
    ensures
        next_order(order, seen).no_duplicates(),
        !seen.complete ==> order.is_prefix_of(next_order(order, seen)),
        forall|i: int|
            0 <= i < seen.windows.len() ==> next_order(order, seen).contains((#[trigger] seen.windows[i]).handle),
{
    let keep = |h: int| is_seen(seen.windows, h);
    if seen.complete {
        lemma_filter_distinct(order, keep);
        lemma_with_windows(order.filter(keep), seen.windows);
    } else {
        lemma_with_windows(order, seen.windows);
    }
}

proof fn lemma_filter_distinct(s: Seq<int>, keep: spec_fn(int) -> bool)
    requires
        s.no_duplicates(),
    ensures
        s.filter(keep).no_duplicates(),
        forall|x: int| s.filter(keep).contains(x) ==> s.contains(x),
    decreases s.len(),
{
    reveal(Seq::filter);
    if s.len() > 0 {
        let front = s.drop_last();
        lemma_filter_distinct(front, keep);
        assert forall|x: int| s.filter(keep).contains(x) implies s.contains(x) by {
            if front.filter(keep).contains(x) {
                assert(front.contains(x));
                let i = choose|i: int| 0 <= i < front.len() && front[i] == x;
                assert(s[i] == x);
            } else {
                assert(x == s.last());
                assert(s[s.len() - 1] == x);
            }
        }
        if front.filter(keep).contains(s.last()) {
            assert(front.contains(s.last()));
            let i = choose|i: int| 0 <= i < front.len() && front[i] == s.last();
            assert(s[i] == s[s.len() - 1]);
        }
    }
}

/// A window's number: its place in the order, from 1; 0 where it isn't.
pub open spec fn number_in(order: Seq<int>, handle: int) -> nat
    decreases order.len(),
{
    if order.len() == 0 {
        0
    } else if order.first() == handle {
        1
    } else {
        let n = number_in(order.skip(1), handle);
        if n == 0 {
            0
        } else {
            n + 1
        }
    }
}

/// The place of a window in the order, from 1.
pub fn number_of(order: &[isize], handle: isize) -> (r: Option<usize>)
    ensures
        match r {
            Some(n) => number_in(handles(order@), handle as int) == n && n > 0,
            None => number_in(handles(order@), handle as int) == 0,
        },
{
    let ghost all = handles(order@);
    let mut i: usize = 0;
    proof {
        assert(all.skip(0) =~= all);
    }
    while i < order.len()
        invariant
            i <= order@.len(),
            all == handles(order@),
            number_in(all, handle as int) == if number_in(all.skip(i as int), handle as int) == 0 {
                0
            } else {
                number_in(all.skip(i as int), handle as int) + i
            },
        decreases order@.len() - i,
    {
        proof {
            assert(all.skip(i as int).first() == order@[i as int]);
            assert(all.skip(i as int).skip(1) =~= all.skip(i + 1));
        }
        if order[i] == handle {
            return Some(i + 1);
        }
        i += 1;
    }
    None
}

/// The first tab that is recognised as `label`.
pub open spec fn claimed_tab(tabs: Seq<TabModel>, label: Seq<char>) -> Option<int>
    decreases tabs.len(),
{
    if tabs.len() == 0 {
        None
    } else if tabs.first().claim matches Some(c) && c.0 == label {
        Some(0)
    } else {
        match claimed_tab(tabs.skip(1), label) {
            Some(i) => Some(i + 1),
            None => None,
        }
    }
}

/// The first window with such a tab, and the tab.
pub open spec fn claimed(windows: Seq<WindowModel>, label: Seq<char>) -> Option<(int, int)>
    decreases windows.len(),
{
    if windows.len() == 0 {
        None
    } else {
        match claimed_tab(windows.first().tabs, label) {
            Some(t) => Some((0, t)),
            None => match claimed(windows.skip(1), label) {
                Some((w, t)) => Some((w + 1, t)),
                None => None,
            },
        }
    }
}

/// Where the tab recognised as `label` is.
pub open spec fn location_of(seen: SnapshotModel, order: Seq<int>, label: Seq<char>) -> Option<LocationView> {
    match claimed(seen.windows, label) {
        Some((w, t)) => {
            let window = seen.windows[w];
            let tab = window.tabs[t];
            Some(
                LocationView {
                    window_number: number_in(order, window.handle) as int,
                    window: window.handle,
                    tab_index: tab.index,
                    title: tab.name,
                    selected: tab.selected,
                    mixed: tab.claim matches Some(c) && c.1,
                },
            )
        },
        None => None,
    }
}

fn find_claimed_tab(tabs: &[TabView], label: &str) -> (r: Option<usize>)
    ensures
        match r {
            Some(i) => claimed_tab(tabs@.map_values(|t: TabView| t@), label@) == Some(i as int) && i < tabs@.len(),
            None => claimed_tab(tabs@.map_values(|t: TabView| t@), label@) is None,
        },
{
    let ghost all = tabs@.map_values(|t: TabView| t@);
    let mut i: usize = 0;
    proof {
        assert(all.skip(0) =~= all);
    }
    while i < tabs.len()
        invariant
            i <= tabs@.len(),
            all == tabs@.map_values(|t: TabView| t@),
            claimed_tab(all, label@) == match claimed_tab(all.skip(i as int), label@) {
                Some(k) => Some(k + i),
                None => None::<int>,
            },
        decreases tabs@.len() - i,
    {
        proof {
            assert(all.skip(i as int).first() == tabs@[i as int]@);
            assert(all.skip(i as int).skip(1) =~= all.skip(i + 1));
        }
        if let Some(claim) = &tabs[i].claim {
            if text::same(&claim.label, label) {
                return Some(i);
            }
        }
        i += 1;
    }
    None
}

/// The window and the tab recognised as `label`, by their places.
pub fn find_claimed(windows: &[WindowView], label: &str) -> (r: Option<(usize, usize)>)
    ensures
        match r {
            Some((w, t)) => claimed(windows@.map_values(|w: WindowView| w@), label@) == Some((w as int, t as int)) && w
                < windows@.len() && t < windows@[w as int].tabs@.len(),
            None => claimed(windows@.map_values(|w: WindowView| w@), label@) is None,
        },
{
    let ghost all = windows@.map_values(|w: WindowView| w@);
    let mut i: usize = 0;
    proof {
        assert(all.skip(0) =~= all);
    }
    while i < windows.len()
        invariant
            i <= windows@.len(),
            all == windows@.map_values(|w: WindowView| w@),
            claimed(all, label@) == match claimed(all.skip(i as int), label@) {
                Some((w, t)) => Some((w + i, t)),
                None => None::<(int, int)>,
            },
        decreases windows@.len() - i,
    {
        proof {
            assert(all.skip(i as int).first() == windows@[i as int]@);
            assert(all.skip(i as int).skip(1) =~= all.skip(i + 1));
        }
        if let Some(t) = find_claimed_tab(&windows[i].tabs, label) {
            return Some((i, t));
        }
        i += 1;
    }
    None
}

/// Where the tab recognised as `label` is.
pub fn locate(snapshot: &Snapshot, order: &[isize], label: &str) -> (r: Option<Location>)
    ensures
        crate::session::place(r) == location_of(snapshot@, handles(order@), label@),
{
    match find_claimed(&snapshot.windows, label) {
        Some((w, t)) => {
            let window = &snapshot.windows[w];
            let tab = &window.tabs[t];
            proof {
                assert(snapshot@.windows[w as int] == window@);
                assert(window@.tabs[t as int] == tab@);
            }
            let number: usize = match number_of(order, window.handle) {
                Some(n) => n,
                None => 0,
            };
            let mixed = match &tab.claim {
                Some(c) => c.mixed,
                None => false,
            };
            Some(
                Location {
                    window_number: number,
                    window: window.handle,
                    tab_index: tab.index,
                    title: tab.name.clone(),
                    selected: tab.selected,
                    mixed,
                },
            )
        },
        None => None,
    }
}

/// A tab that NativeTerm's own menu opens on.
#[derive(Clone, Debug, PartialEq, Eq)]
pub struct MenuTab {
    pub window: isize,
    pub rect: Rect,
    pub label: String,
    pub title: String,
    pub mixed: bool,
    pub index: usize,
}

/// What such a tab says.
pub struct MenuTabModel {
    pub window: int,
    pub rect: Rect,
    pub label: Seq<char>,
    pub title: Seq<char>,
    pub mixed: bool,
    pub index: int,
}

impl View for MenuTab {
    type V = MenuTabModel;

    open spec fn view(&self) -> MenuTabModel {
        MenuTabModel {
            window: self.window as int,
            rect: self.rect,
            label: self.label@,
            title: self.title@,
            mixed: self.mixed,
            index: self.index as int,
        }
    }
}

/// A window's tabs that are recognised and have a place on the screen.
pub open spec fn menu_of_tabs(handle: int, tabs: Seq<TabModel>) -> Seq<MenuTabModel>
    decreases tabs.len(),
{
    if tabs.len() == 0 {
        Seq::empty()
    } else {
        let before = menu_of_tabs(handle, tabs.drop_last());
        let tab = tabs.last();
        match (tab.claim, tab.rect) {
            (Some(c), Some(rect)) => before.push(
                MenuTabModel { window: handle, rect, label: c.0, title: tab.name, mixed: c.1, index: tab.index },
            ),
            _ => before,
        }
    }
}

/// Those of every window, in order.
pub open spec fn menu_of(windows: Seq<WindowModel>) -> Seq<MenuTabModel>
    decreases windows.len(),
{
    if windows.len() == 0 {
        Seq::empty()
    } else {
        menu_of(windows.drop_last()) + menu_of_tabs(windows.last().handle, windows.last().tabs)
    }
}

/// The menu tabs of a list.
pub open spec fn menus(v: Seq<MenuTab>) -> Seq<MenuTabModel> {
    v.map_values(|m: MenuTab| m@)
}

/// The tabs that NativeTerm's menu opens on.
pub fn menu_tabs(snapshot: &Snapshot) -> (r: Vec<MenuTab>)
    ensures
        menus(r@) == menu_of(snapshot@.windows),
{
    let ghost windows = snapshot@.windows;
    let mut r: Vec<MenuTab> = Vec::new();
    let mut i: usize = 0;
    proof {
        assert(windows.take(0) =~= Seq::empty());
        assert(menus(r@) =~= Seq::empty());
    }
    while i < snapshot.windows.len()
        invariant
            i <= snapshot.windows@.len(),
            windows == snapshot@.windows,
            windows.len() == snapshot.windows@.len(),
            menus(r@) == menu_of(windows.take(i as int)),
        decreases snapshot.windows@.len() - i,
    {
        let window = &snapshot.windows[i];
        let ghost tabs = window@.tabs;
        let ghost start = menus(r@);
        let mut k: usize = 0;
        proof {
            assert(windows[i as int] == window@);
            assert(windows.take(i + 1).drop_last() =~= windows.take(i as int));
            assert(windows.take(i + 1).last() == window@);
            assert(tabs.take(0) =~= Seq::empty());
            assert(start + menu_of_tabs(window.handle as int, tabs.take(0)) =~= start);
        }
        while k < window.tabs.len()
            invariant
                k <= window.tabs@.len(),
                tabs == window@.tabs,
                tabs.len() == window.tabs@.len(),
                menus(r@) == start + menu_of_tabs(window.handle as int, tabs.take(k as int)),
            decreases window.tabs@.len() - k,
        {
            let tab = &window.tabs[k];
            let ghost before = menus(r@);
            proof {
                assert(tabs[k as int] == tab@);
                assert(tabs.take(k + 1).drop_last() =~= tabs.take(k as int));
                assert(tabs.take(k + 1).last() == tab@);
            }
            if let (Some(claim), Some(rect)) = (&tab.claim, &tab.rect) {
                let item = MenuTab {
                    window: window.handle,
                    rect: *rect,
                    label: claim.label.clone(),
                    title: tab.name.clone(),
                    mixed: claim.mixed,
                    index: tab.index,
                };
                let ghost said = item@;
                r.push(item);
                proof {
                    assert(menus(r@) =~= before.push(said));
                    assert(menus(r@) =~= start + menu_of_tabs(window.handle as int, tabs.take(k + 1)));
                }
            }
            k += 1;
        }
        proof {
            assert(tabs.take(k as int) =~= tabs);
        }
        i += 1;
    }
    proof {
        assert(windows.take(i as int) =~= windows);
    }
    r
}

/// The first tab for which `wanted` holds.
pub open spec fn first_tab(tabs: Seq<TabModel>, wanted: spec_fn(TabModel) -> bool) -> Option<int>
    decreases tabs.len(),
{
    if tabs.len() == 0 {
        None
    } else if wanted(tabs.first()) {
        Some(0)
    } else {
        match first_tab(tabs.skip(1), wanted) {
            Some(i) => Some(i + 1),
            None => None,
        }
    }
}

/// The first window with this handle.
pub open spec fn first_window(windows: Seq<WindowModel>, handle: int) -> Option<int>
    decreases windows.len(),
{
    if windows.len() == 0 {
        None
    } else if windows.first().handle == handle {
        Some(0)
    } else {
        match first_window(windows.skip(1), handle) {
            Some(i) => Some(i + 1),
            None => None,
        }
    }
}

pub(crate) fn find_window(windows: &[WindowView], handle: isize) -> (r: Option<usize>)
    ensures
        match r {
            Some(i) => first_window(windows@.map_values(|w: WindowView| w@), handle as int) == Some(i as int) && i
                < windows@.len(),
            None => first_window(windows@.map_values(|w: WindowView| w@), handle as int) is None,
        },
{
    let ghost all = windows@.map_values(|w: WindowView| w@);
    let mut i: usize = 0;
    proof {
        assert(all.skip(0) =~= all);
    }
    while i < windows.len()
        invariant
            i <= windows@.len(),
            all == windows@.map_values(|w: WindowView| w@),
            first_window(all, handle as int) == match first_window(all.skip(i as int), handle as int) {
                Some(k) => Some(k + i),
                None => None::<int>,
            },
        decreases windows@.len() - i,
    {
        proof {
            assert(all.skip(i as int).first() == windows@[i as int]@);
            assert(all.skip(i as int).skip(1) =~= all.skip(i + 1));
        }
        if windows[i].handle == handle {
            return Some(i);
        }
        i += 1;
    }
    None
}

/// The tab at `index` titled `name`, else the first titled so.
pub open spec fn tab_meant(tabs: Seq<TabModel>, index: int, name: Seq<char>) -> Option<int> {
    match first_tab(tabs, |t: TabModel| t.index == index && t.name == name) {
        Some(i) => Some(i),
        None => first_tab(tabs, |t: TabModel| t.name == name),
    }
}

/// The tab that a click in the tab list means: the one at `index` in
/// `window`, if it still has the title `name`, else a tab with that title
/// in the same window.
pub open spec fn tab_chosen(seen: SnapshotModel, window: int, index: int, name: Seq<char>) -> Option<(int, int)> {
    match first_window(seen.windows, window) {
        Some(w) => match tab_meant(seen.windows[w].tabs, index, name) {
            Some(t) => Some((w, t)),
            None => None,
        },
        None => None,
    }
}

fn find_titled(tabs: &[TabView], index: Option<usize>, name: &str) -> (r: Option<usize>)
    ensures
        ({
            let all = tabs@.map_values(|t: TabView| t@);
            let found = match index {
                Some(n) => first_tab(all, |t: TabModel| t.index == n as int && t.name == name@),
                None => first_tab(all, |t: TabModel| t.name == name@),
            };
            match r {
                Some(i) => found == Some(i as int) && i < tabs@.len(),
                None => found is None,
            }
        }),
{
    let ghost all = tabs@.map_values(|t: TabView| t@);
    let ghost wanted = match index {
        Some(n) => |t: TabModel| t.index == n as int && t.name == name@,
        None => |t: TabModel| t.name == name@,
    };
    let mut i: usize = 0;
    proof {
        assert(all.skip(0) =~= all);
    }
    while i < tabs.len()
        invariant
            i <= tabs@.len(),
            all == tabs@.map_values(|t: TabView| t@),
            index matches Some(n) ==> wanted == (|t: TabModel| t.index == n as int && t.name == name@),
            index is None ==> wanted == (|t: TabModel| t.name == name@),
            first_tab(all, wanted) == match first_tab(all.skip(i as int), wanted) {
                Some(k) => Some(k + i),
                None => None::<int>,
            },
        decreases tabs@.len() - i,
    {
        proof {
            assert(all.skip(i as int).first() == tabs@[i as int]@);
            assert(all.skip(i as int).skip(1) =~= all.skip(i + 1));
        }
        let here = match index {
            Some(n) => tabs[i].index == n,
            None => true,
        };
        if here && text::same(&tabs[i].name, name) {
            return Some(i);
        }
        i += 1;
    }
    None
}

/// The tab that a click in the tab list means, by its window's place and
/// its own.
pub fn choose_tab(snapshot: &Snapshot, window: isize, index: usize, name: &str) -> (r: Option<(usize, usize)>)
    ensures
        match r {
            Some((w, t)) => tab_chosen(snapshot@, window as int, index as int, name@) == Some((w as int, t as int)) && w
                < snapshot.windows@.len() && t < snapshot.windows@[w as int].tabs@.len(),
            None => tab_chosen(snapshot@, window as int, index as int, name@) is None,
        },
{
    match find_window(&snapshot.windows, window) {
        Some(w) => {
            let tabs = &snapshot.windows[w].tabs;
            proof {
                assert(snapshot@.windows[w as int].tabs == tabs@.map_values(|t: TabView| t@));
            }
            match find_titled(tabs, Some(index), name) {
                Some(t) => Some((w, t)),
                None => match find_titled(tabs, None, name) {
                    Some(t) => Some((w, t)),
                    None => None,
                },
            }
        },
        None => None,
    }
}

/// The window that is meant by "the active one": the one last in front,
/// else one that is in front now.
pub open spec fn active_window(windows: Seq<WindowModel>, last: int) -> Option<int> {
    match first_window(windows, last) {
        Some(i) => Some(i),
        None => first_foreground(windows),
    }
}

/// The first window that is in front.
pub open spec fn first_foreground(windows: Seq<WindowModel>) -> Option<int>
    decreases windows.len(),
{
    if windows.len() == 0 {
        None
    } else if windows.first().foreground {
        Some(0)
    } else {
        match first_foreground(windows.skip(1)) {
            Some(i) => Some(i + 1),
            None => None,
        }
    }
}

/// The handle and the index of the active window's selected tab.
pub open spec fn active_tab(seen: SnapshotModel, last: int) -> Option<(int, int)> {
    match active_window(seen.windows, last) {
        Some(w) => match first_tab(seen.windows[w].tabs, |t: TabModel| t.selected) {
            Some(t) => Some((seen.windows[w].handle, seen.windows[w].tabs[t].index)),
            None => None,
        },
        None => None,
    }
}

fn find_foreground(windows: &[WindowView]) -> (r: Option<usize>)
    ensures
        match r {
            Some(i) => first_foreground(windows@.map_values(|w: WindowView| w@)) == Some(i as int) && i < windows@.len(),
            None => first_foreground(windows@.map_values(|w: WindowView| w@)) is None,
        },
{
    let ghost all = windows@.map_values(|w: WindowView| w@);
    let mut i: usize = 0;
    proof {
        assert(all.skip(0) =~= all);
    }
    while i < windows.len()
        invariant
            i <= windows@.len(),
            all == windows@.map_values(|w: WindowView| w@),
            first_foreground(all) == match first_foreground(all.skip(i as int)) {
                Some(k) => Some(k + i),
                None => None::<int>,
            },
        decreases windows@.len() - i,
    {
        proof {
            assert(all.skip(i as int).first() == windows@[i as int]@);
            assert(all.skip(i as int).skip(1) =~= all.skip(i + 1));
        }
        if windows[i].foreground {
            return Some(i);
        }
        i += 1;
    }
    None
}

fn find_selected(tabs: &[TabView]) -> (r: Option<usize>)
    ensures
        match r {
            Some(i) => first_tab(tabs@.map_values(|t: TabView| t@), |t: TabModel| t.selected) == Some(i as int) && i
                < tabs@.len(),
            None => first_tab(tabs@.map_values(|t: TabView| t@), |t: TabModel| t.selected) is None,
        },
{
    let ghost all = tabs@.map_values(|t: TabView| t@);
    let ghost wanted = |t: TabModel| t.selected;
    let mut i: usize = 0;
    proof {
        assert(all.skip(0) =~= all);
    }
    while i < tabs.len()
        invariant
            i <= tabs@.len(),
            all == tabs@.map_values(|t: TabView| t@),
            wanted == (|t: TabModel| t.selected),
            first_tab(all, wanted) == match first_tab(all.skip(i as int), wanted) {
                Some(k) => Some(k + i),
                None => None::<int>,
            },
        decreases tabs@.len() - i,
    {
        proof {
            assert(all.skip(i as int).first() == tabs@[i as int]@);
            assert(all.skip(i as int).skip(1) =~= all.skip(i + 1));
        }
        if tabs[i].selected {
            return Some(i);
        }
        i += 1;
    }
    None
}

/// The handle and the index of the active window's selected tab; `last` is
/// the Terminal window that was last in front.
pub fn find_active(snapshot: &Snapshot, last: isize) -> (r: Option<(isize, usize)>)
    ensures
        match r {
            Some((w, t)) => active_tab(snapshot@, last as int) == Some((w as int, t as int)),
            None => active_tab(snapshot@, last as int) is None,
        },
{
    let window = match find_window(&snapshot.windows, last) {
        Some(w) => Some(w),
        None => find_foreground(&snapshot.windows),
    };
    match window {
        Some(w) => {
            let window = &snapshot.windows[w];
            proof {
                assert(snapshot@.windows[w as int] == window@);
            }
            match find_selected(&window.tabs) {
                Some(t) => {
                    proof {
                        assert(window@.tabs[t as int] == window.tabs@[t as int]@);
                    }
                    Some((window.handle, window.tabs[t].index))
                },
                None => None,
            }
        },
        None => None,
    }
}

/// The tabs of a window to look into for a session that wasn't found: not
/// recognised, and not the one shown.
pub open spec fn unknown_tabs(w: int, tabs: Seq<TabModel>) -> Seq<(int, int)>
    decreases tabs.len(),
{
    if tabs.len() == 0 {
        Seq::empty()
    } else {
        let before = unknown_tabs(w, tabs.drop_last());
        if tabs.last().claim is None && !tabs.last().selected {
            before.push((w, tabs.len() - 1))
        } else {
            before
        }
    }
}

/// Those of the first `n` windows, in order.
pub open spec fn to_look_into(windows: Seq<WindowModel>) -> Seq<(int, int)>
    decreases windows.len(),
{
    if windows.len() == 0 {
        Seq::empty()
    } else {
        to_look_into(windows.drop_last()) + unknown_tabs(windows.len() - 1, windows.last().tabs)
    }
}

/// Each window's tab that is shown.
pub open spec fn shown_tabs(windows: Seq<WindowModel>) -> Seq<(int, int)>
    decreases windows.len(),
{
    if windows.len() == 0 {
        Seq::empty()
    } else {
        let before = shown_tabs(windows.drop_last());
        match first_tab(windows.last().tabs, |t: TabModel| t.selected) {
            Some(t) => before.push((windows.len() - 1, t)),
            None => before,
        }
    }
}

/// Places as integers.
pub open spec fn places(v: Seq<(usize, usize)>) -> Seq<(int, int)> {
    v.map_values(|p: (usize, usize)| (p.0 as int, p.1 as int))
}

/// What "Locate" goes through: each window's tab that is shown (to show it
/// again afterwards), and the tabs to look into, by window and tab.
pub fn locate_plan(snapshot: &Snapshot) -> (r: (Vec<(usize, usize)>, Vec<(usize, usize)>))
    ensures
        places(r.0@) == shown_tabs(snapshot@.windows),
        places(r.1@) == to_look_into(snapshot@.windows),
{
    let ghost windows = snapshot@.windows;
    let mut shown: Vec<(usize, usize)> = Vec::new();
    let mut unknown: Vec<(usize, usize)> = Vec::new();
    let mut i: usize = 0;
    proof {
        assert(windows.take(0) =~= Seq::empty());
        assert(places(shown@) =~= Seq::empty());
        assert(places(unknown@) =~= Seq::empty());
    }
    while i < snapshot.windows.len()
        invariant
            i <= snapshot.windows@.len(),
            windows == snapshot@.windows,
            windows.len() == snapshot.windows@.len(),
            places(shown@) == shown_tabs(windows.take(i as int)),
            places(unknown@) == to_look_into(windows.take(i as int)),
        decreases snapshot.windows@.len() - i,
    {
        let window = &snapshot.windows[i];
        let ghost tabs = window@.tabs;
        let ghost start = places(unknown@);
        let ghost before = places(shown@);
        proof {
            assert(windows[i as int] == window@);
            assert(windows.take(i + 1).drop_last() =~= windows.take(i as int));
            assert(windows.take(i + 1).last() == window@);
            assert(tabs.take(0) =~= Seq::empty());
            assert(start + unknown_tabs(i as int, tabs.take(0)) =~= start);
        }
        if let Some(t) = find_selected(&window.tabs) {
            shown.push((i, t));
            proof {
                assert(places(shown@) =~= before.push((i as int, t as int)));
            }
        }
        let mut k: usize = 0;
        while k < window.tabs.len()
            invariant
                k <= window.tabs@.len(),
                tabs == window@.tabs,
                tabs.len() == window.tabs@.len(),
                places(unknown@) == start + unknown_tabs(i as int, tabs.take(k as int)),
            decreases window.tabs@.len() - k,
        {
            let tab = &window.tabs[k];
            let ghost was = places(unknown@);
            proof {
                assert(tabs[k as int] == tab@);
                assert(tabs.take(k + 1).drop_last() =~= tabs.take(k as int));
                assert(tabs.take(k + 1).last() == tab@);
            }
            if tab.claim.is_none() && !tab.selected {
                unknown.push((i, k));
                proof {
                    assert(places(unknown@) =~= was.push((i as int, k as int)));
                    assert(places(unknown@) =~= start + unknown_tabs(i as int, tabs.take(k + 1)));
                }
            }
            k += 1;
        }
        proof {
            assert(tabs.take(k as int) =~= tabs);
        }
        i += 1;
    }
    proof {
        assert(windows.take(i as int) =~= windows);
    }
    (shown, unknown)
}

/// Windows keep their numbers: what is gone after a complete look leaves,
/// what is new comes behind, in the order seen.
pub proof fn law_numbering_windows(order: Seq<int>, windows: Seq<WindowModel>, w: WindowModel)
    ensures
        with_windows(order, Seq::empty()) == order,
        with_windows(order, windows).contains(w.handle) ==> with_windows(order, windows.push(w)) == with_windows(order, windows),
        !with_windows(order, windows).contains(w.handle) ==> with_windows(order, windows.push(w)) == with_windows(
            order,
            windows,
        ).push(w.handle),
        next_order(order, (SnapshotModel { windows, complete: false })) == with_windows(order, windows),
        next_order(order, (SnapshotModel { windows, complete: true })) == with_windows(
            order.filter(|h: int| exists|i: int| 0 <= i < windows.len() && (#[trigger] windows[i]).handle == h),
            windows,
        ),
{
    assert(windows.push(w).drop_last() =~= windows);
    let a = |h: int| is_seen(windows, h);
    let b = |h: int| exists|i: int| 0 <= i < windows.len() && (#[trigger] windows[i]).handle == h;
    assert(a =~= b);
}

/// A window's number is its place in the order, counted from one; zero where
/// it has none.
pub proof fn law_window_number(order: Seq<int>, handle: int)
    ensures
        !order.contains(handle) ==> number_in(order, handle) == 0,
        order.contains(handle) ==> 1 <= number_in(order, handle) <= order.len() && order[number_in(order, handle) - 1] == handle
            && forall|j: int| 0 <= j < number_in(order, handle) - 1 ==> order[j] != handle,
    decreases order.len(),
{
    if order.len() > 0 {
        let rest = order.skip(1);
        law_window_number(rest, handle);
        assert(order[0] == order.first());
        assert forall|j: int| 0 < j < order.len() implies #[trigger] order[j] == rest[j - 1] by {}
        if order.first() != handle {
            if order.contains(handle) {
                let k = choose|k: int| 0 <= k < order.len() && order[k] == handle;
                assert(rest[k - 1] == handle);
                let n = number_in(rest, handle);
                assert(order[n as int] == rest[n - 1]);
                assert forall|j: int| 0 <= j < n implies order[j] != handle by {
                    if j > 0 {
                        assert(order[j] == rest[j - 1]);
                    }
                }
            } else {
                assert forall|j: int| 0 <= j < rest.len() implies rest[j] != handle by {
                    assert(order[j + 1] == rest[j]);
                }
            }
        } else {
            assert(order.contains(handle));
        }
    }
}

/// A session's tab is the first that claims its label, window by window.
pub proof fn law_claimed_tabs(t: TabModel, tabs: Seq<TabModel>, w: WindowModel, windows: Seq<WindowModel>, label: Seq<char>)
    ensures
        claimed_tab(Seq::empty(), label) is None,
        claimed(Seq::empty(), label) is None,
        (t.claim matches Some(c) && c.0 == label) ==> claimed_tab(seq![t] + tabs, label) == Some(0int),
        t.claim is None ==> claimed_tab(seq![t] + tabs, label) == (match claimed_tab(tabs, label) {
            Some(i) => Some(i + 1),
            None => None,
        }),
        (t.claim matches Some(c) && c.0 != label) ==> claimed_tab(seq![t] + tabs, label) == (match claimed_tab(tabs, label) {
            Some(i) => Some(i + 1),
            None => None,
        }),
        claimed_tab(w.tabs, label) matches Some(k) ==> claimed(seq![w] + windows, label) == Some((0int, k)),
        claimed_tab(w.tabs, label) is None ==> claimed(seq![w] + windows, label) == (match claimed(windows, label) {
            Some((i, k)) => Some((i + 1, k)),
            None => None,
        }),
{
    assert((seq![t] + tabs).skip(1) =~= tabs);
    assert((seq![w] + windows).skip(1) =~= windows);
    assert((seq![t] + tabs).first() == t);
    assert((seq![w] + windows).first() == w);
}

/// Where a session is: the window and tab that claim its label, with the
/// window's number, the tab's title and place, and whether it is shared.
pub proof fn law_where_a_session_is(seen: SnapshotModel, order: Seq<int>, label: Seq<char>)
    ensures
        location_of(seen, order, label) is Some <==> claimed(seen.windows, label) is Some,
        claimed(seen.windows, label) matches Some((w, t)) ==> {
            let l = location_of(seen, order, label)->0;
            let tab = seen.windows[w].tabs[t];
            &&& l.window == seen.windows[w].handle
            &&& l.window_number == number_in(order, seen.windows[w].handle)
            &&& l.tab_index == tab.index
            &&& l.title == tab.name
            &&& l.selected == tab.selected
            &&& tab.claim matches Some(c) ==> l.mixed == c.1
        },
{
}

/// Tabs with a menu of their own are those that a session claims and whose
/// place is known.
pub proof fn law_tabs_with_a_menu(handle: int, tabs: Seq<TabModel>, t: TabModel, windows: Seq<WindowModel>, w: WindowModel)
    ensures
        menu_of_tabs(handle, Seq::empty()) == Seq::<MenuTabModel>::empty(),
        menu_of(Seq::empty()) == Seq::<MenuTabModel>::empty(),
        t.claim is None || t.rect is None ==> menu_of_tabs(handle, tabs.push(t)) == menu_of_tabs(handle, tabs),
        t.claim matches Some(c) ==> (t.rect matches Some(rect) ==> menu_of_tabs(handle, tabs.push(t)) == menu_of_tabs(
            handle,
            tabs,
        ).push(MenuTabModel { window: handle, rect, label: c.0, title: t.name, mixed: c.1, index: t.index })),
        menu_of(windows.push(w)) == menu_of(windows) + menu_of_tabs(w.handle, w.tabs),
{
    assert(tabs.push(t).drop_last() =~= tabs);
    assert(windows.push(w).drop_last() =~= windows);
}

/// What is looked for is the first there is.
pub proof fn law_the_first_tab_and_window(
    t: TabModel,
    tabs: Seq<TabModel>,
    wanted: spec_fn(TabModel) -> bool,
    w: WindowModel,
    windows: Seq<WindowModel>,
    handle: int,
)
    ensures
        first_tab(Seq::empty(), wanted) is None,
        wanted(t) ==> first_tab(seq![t] + tabs, wanted) == Some(0int),
        !wanted(t) ==> first_tab(seq![t] + tabs, wanted) == (match first_tab(tabs, wanted) {
            Some(i) => Some(i + 1),
            None => None,
        }),
        first_window(Seq::empty(), handle) is None,
        w.handle == handle ==> first_window(seq![w] + windows, handle) == Some(0int),
        w.handle != handle ==> first_window(seq![w] + windows, handle) == (match first_window(windows, handle) {
            Some(i) => Some(i + 1),
            None => None,
        }),
        first_foreground(Seq::empty()) is None,
        w.foreground ==> first_foreground(seq![w] + windows) == Some(0int),
        !w.foreground ==> first_foreground(seq![w] + windows) == (match first_foreground(windows) {
            Some(i) => Some(i + 1),
            None => None,
        }),
{
    assert((seq![t] + tabs).skip(1) =~= tabs);
    assert((seq![w] + windows).skip(1) =~= windows);
    assert((seq![t] + tabs).first() == t);
    assert((seq![w] + windows).first() == w);
}

/// A tab that is meant by place and name is the one with both, else the
/// first with the name; without the window, or the name, there is none.
pub proof fn law_the_tab_that_is_meant(seen: SnapshotModel, window: int, index: int, name: Seq<char>)
    ensures
        first_window(seen.windows, window) is None ==> tab_chosen(seen, window, index, name) is None,
        tab_chosen(seen, window, index, name) matches Some((w, t)) ==> 0 <= w < seen.windows.len() && seen.windows[w].handle
            == window && 0 <= t < seen.windows[w].tabs.len() && seen.windows[w].tabs[t].name == name,
        first_window(seen.windows, window) matches Some(w) ==> {
            let tabs = seen.windows[w].tabs;
            &&& (exists|t: int| 0 <= t < tabs.len() && (#[trigger] tabs[t]).name == name) <==> tab_chosen(
                seen,
                window,
                index,
                name,
            ) is Some
            &&& (exists|t: int| 0 <= t < tabs.len() && (#[trigger] tabs[t]).name == name && tabs[t].index == index) ==> (tab_chosen(
                seen,
                window,
                index,
                name,
            ) matches Some((v, t)) && tabs[t].index == index)
        },
{
    lemma_first_window(seen.windows, window);
    if first_window(seen.windows, window) is Some {
        let w = first_window(seen.windows, window)->0;
        let tabs = seen.windows[w].tabs;
        lemma_first_tab(tabs, |t: TabModel| t.index == index && t.name == name);
        lemma_first_tab(tabs, |t: TabModel| t.name == name);
    }
}

proof fn lemma_first_window(windows: Seq<WindowModel>, handle: int)
    ensures
        match first_window(windows, handle) {
            Some(i) => 0 <= i < windows.len() && windows[i].handle == handle,
            None => forall|j: int| 0 <= j < windows.len() ==> (#[trigger] windows[j]).handle != handle,
        },
    decreases windows.len(),
{
    if windows.len() > 0 {
        let rest = windows.skip(1);
        lemma_first_window(rest, handle);
        assert(windows[0] == windows.first());
        assert forall|j: int| 0 < j < windows.len() implies #[trigger] windows[j] == rest[j - 1] by {}
    }
}

proof fn lemma_first_tab(tabs: Seq<TabModel>, wanted: spec_fn(TabModel) -> bool)
    ensures
        match first_tab(tabs, wanted) {
            Some(i) => 0 <= i < tabs.len() && wanted(tabs[i]) && forall|j: int| 0 <= j < i ==> !wanted(#[trigger] tabs[j]),
            None => forall|j: int| 0 <= j < tabs.len() ==> !wanted(#[trigger] tabs[j]),
        },
    decreases tabs.len(),
{
    if tabs.len() > 0 {
        let rest = tabs.skip(1);
        lemma_first_tab(rest, wanted);
        assert(tabs[0] == tabs.first());
        assert forall|j: int| 0 < j < tabs.len() implies #[trigger] tabs[j] == rest[j - 1] by {}
    }
}

/// The tab in use is the selected one of the window used last, or else of
/// the one in the foreground.
pub proof fn law_the_tab_in_use(seen: SnapshotModel, last: int)
    ensures
        first_window(seen.windows, last) matches Some(w) ==> active_window(seen.windows, last) == Some(w),
        first_window(seen.windows, last) is None ==> active_window(seen.windows, last) == first_foreground(seen.windows),
        active_tab(seen, last) matches Some((window, index)) ==> exists|w: int, t: int|
            0 <= w < seen.windows.len() && 0 <= t < seen.windows[w].tabs.len() && (#[trigger] seen.windows[w].tabs[t]).selected
                && seen.windows[w].tabs[t].index == index && seen.windows[w].handle == window && active_window(seen.windows, last)
                == Some(w),
        active_window(seen.windows, last) matches Some(w) ==> ((exists|t: int|
            0 <= t < seen.windows[w].tabs.len() && (#[trigger] seen.windows[w].tabs[t]).selected) <==> active_tab(seen, last) is Some),
{
    lemma_first_window(seen.windows, last);
    lemma_first_foreground(seen.windows);
    if active_window(seen.windows, last) is Some {
        let w = active_window(seen.windows, last)->0;
        lemma_first_tab(seen.windows[w].tabs, |t: TabModel| t.selected);
    }
}

proof fn lemma_first_foreground(windows: Seq<WindowModel>)
    ensures
        first_foreground(windows) matches Some(i) ==> 0 <= i < windows.len() && windows[i].foreground,
    decreases windows.len(),
{
    if windows.len() > 0 && !windows.first().foreground {
        lemma_first_foreground(windows.skip(1));
    }
}

/// Tabs to look into are those that nobody claims and that are not shown;
/// tabs that are shown are the selected one of each window.
pub proof fn law_tabs_to_look_at(w: int, tabs: Seq<TabModel>, t: TabModel, windows: Seq<WindowModel>, win: WindowModel)
    ensures
        unknown_tabs(w, Seq::empty()) == Seq::<(int, int)>::empty(),
        t.claim is None && !t.selected ==> unknown_tabs(w, tabs.push(t)) == unknown_tabs(w, tabs).push((w, tabs.len() as int)),
        t.claim is Some || t.selected ==> unknown_tabs(w, tabs.push(t)) == unknown_tabs(w, tabs),
        to_look_into(Seq::empty()) == Seq::<(int, int)>::empty(),
        to_look_into(windows.push(win)) == to_look_into(windows) + unknown_tabs(windows.len() as int, win.tabs),
        shown_tabs(Seq::empty()) == Seq::<(int, int)>::empty(),
        (forall|i: int| 0 <= i < win.tabs.len() ==> !(#[trigger] win.tabs[i]).selected) ==> shown_tabs(windows.push(win))
            == shown_tabs(windows),
        forall|i: int|
            0 <= i < win.tabs.len() && (#[trigger] win.tabs[i]).selected && (forall|j: int|
                0 <= j < i ==> !(#[trigger] win.tabs[j]).selected) ==> shown_tabs(windows.push(win)) == shown_tabs(windows).push(
                (windows.len() as int, i),
            ),
{
    assert(tabs.push(t).drop_last() =~= tabs);
    assert(windows.push(win).drop_last() =~= windows);
    lemma_first_tab(win.tabs, |x: TabModel| x.selected);
}

} // verus!
