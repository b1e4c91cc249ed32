use egui_phosphor::regular;
use native_term_app::agent::{asks_agent, AgentKeys, ServiceState, Shown, Status};
use native_term_app::dock::{
    docked_edge, docked_position, edge_code, snap_edge, Bounds, Edge, Slide, SLIDE_NANOS, STRIP,
};
use native_term_app::icons;
use native_term_app::icons::{first_char, glyph, with, Icon};
use native_term_app::looks::{lighter, readable_on, Color, Preset};
use native_term_app::previews::Previews;
use native_term_app::tabs::{Rect, Snapshot, TabView, WindowView};

const WORK: Bounds = Bounds { left: 0, top: 0, right: 1920, bottom: 1040 };

/// A window with 7 px invisible borders left, right and bottom.
fn window_at(left: i32, top: i32) -> (Bounds, Bounds) {
    let frame = Bounds { left, top, right: left + 400, bottom: top + 700 };
    let window = Bounds { left: left - 7, top, right: left + 407, bottom: top + 707 };
    (window, frame)
}

#[test]
fn edges() {
    let alone = |_: i32, _: i32| false;
    assert_eq!(snap_edge(window_at(300, 8).1, WORK, alone), Some(Edge::Top));
    assert_eq!(snap_edge(window_at(-5, 200).1, WORK, alone), Some(Edge::Left));
    assert_eq!(snap_edge(window_at(1515, 200).1, WORK, alone), Some(Edge::Right));
    assert_eq!(snap_edge(window_at(300, 200).1, WORK, alone), None);
    // top wins in the corner
    assert_eq!(snap_edge(window_at(0, 0).1, WORK, alone), Some(Edge::Top));
    // a second monitor to the right: no docking there
    let right_monitor = |x: i32, _: i32| x >= 1920;
    assert_eq!(snap_edge(window_at(1515, 200).1, WORK, right_monitor), None);
    assert_eq!(snap_edge(window_at(-5, 200).1, WORK, right_monitor), Some(Edge::Left));
}

#[test]
fn positions() {
    let (window, frame) = window_at(300, 8);
    // shown: the frame touches the edge
    assert_eq!(docked_position(Edge::Top, window, frame, WORK, false), (293, 0));
    // hidden: only the strip is on screen
    let (x, y) = docked_position(Edge::Top, window, frame, WORK, true);
    assert_eq!((x, y + 700), (293, STRIP));

    let (window, frame) = window_at(-5, 200);
    assert_eq!(docked_position(Edge::Left, window, frame, WORK, false), (-7, 200));
    let (x, _) = docked_position(Edge::Left, window, frame, WORK, true);
    assert_eq!(x + 7 + 400, STRIP, "frame's right edge at the strip");

    let (window, frame) = window_at(1515, 200);
    assert_eq!(docked_position(Edge::Right, window, frame, WORK, false), (1513, 200));
    let (x, _) = docked_position(Edge::Right, window, frame, WORK, true);
    assert_eq!(x + 7, 1920 - STRIP, "frame's left edge at the strip");

    // kept inside the work area along the edge
    let (window, frame) = window_at(1800, 8);
    assert_eq!(docked_position(Edge::Top, window, frame, WORK, false).0, 1920 - 400 - 7);
}

#[test]
fn slides_end_where_they_should() {
    let started = 1_000_000_000;
    let slide = Slide { from: (0, -696), to: (0, 0), started };
    assert_eq!(slide.at(started), ((0, -696), false));
    let (mid, done) = slide.at(started + SLIDE_NANOS / 2);
    assert!(!done && mid.1 > -348, "eased: {mid:?}");
    assert_eq!(slide.at(started + SLIDE_NANOS), ((0, 0), true));
}

#[test]
fn a_slide_is_eased_by_the_third_power() {
    let slide = Slide { from: (0, 800), to: (800, 0), started: 5 };
    // half the time: seven eighths of the way
    assert_eq!(slide.at(5 + SLIDE_NANOS / 2), ((700, 100), false));
    assert_eq!(slide.at(0), ((0, 800), false), "before it started");
}

#[test]
fn names() {
    for e in [Edge::Top, Edge::Left, Edge::Right] {
        assert_eq!(Edge::from_name(e.name()), Some(e));
    }
}

#[test]
fn edges_as_codes() {
    for e in [None, Some(Edge::Top), Some(Edge::Left), Some(Edge::Right)] {
        assert_eq!(docked_edge(edge_code(e)), e);
    }
    assert_eq!(Edge::from_name("bottom"), None);
}

#[test]
fn a_look_survives_the_settings_file() {
    for preset in Preset::ALL {
        assert_eq!(Preset::from_setting(Some(preset.setting())), preset);
    }
    assert_eq!(Preset::from_setting(None), Preset::Plain);
    assert_eq!(Preset::from_setting(Some("")), Preset::Plain);
    assert_eq!(Preset::from_setting(Some("something else")), Preset::Plain, "an unknown look is the plain one");
    assert_eq!(Preset::Plain.setting(), "", "and the plain one writes nothing");
}

#[test]
fn a_dark_accent_is_lightened_and_labelled_readably() {
    let white = Color { r: 255, g: 255, b: 255 };
    let black = Color { r: 0, g: 0, b: 0 };
    let navy = Color { r: 0x00, g: 0x2b, b: 0x5c };
    let lifted = lighter(navy);
    assert!(lifted.r > navy.r && lifted.b > navy.b);
    assert_eq!(readable_on(navy), white);
    assert_eq!(readable_on(Color { r: 0x9c, g: 0xd6, b: 0xff }), black);
    assert_eq!(lighter(white), white);
}

#[test]
fn only_some_looks_change_something() {
    let none = Preset::Plain.apply(true, None);
    assert!(none.selection.is_none() && none.panel.is_none() && !none.compact);
    assert!(Preset::Compact.apply(true, None).compact);
    let accent = Color { r: 0, g: 0x78, b: 0xd4 };
    assert!(Preset::Accent.apply(false, Some(accent)).selection.is_some());
    assert_eq!(Preset::default(), Preset::Plain);
}

#[test]
fn glyphs_are_private_use_code_points() {
    for c in [icons::SETTINGS, icons::GRID, icons::CLEAR, icons::SYNC] {
        assert!((0xE000..=0xF8FF).contains(&(c as u32)), "{:X}", c as u32);
    }
}

#[test]
fn phosphor_constants_decode() {
    assert_eq!(first_char(regular::GEAR), regular::GEAR.chars().next().unwrap());
    assert_eq!(first_char("a"), 'a');
}

#[test]
fn one_character_decodes() {
    assert_eq!(first_char("生"), '生');
    assert_eq!(first_char("Z"), 'Z');
}

#[test]
fn icons_come_before_their_text() {
    assert_eq!(with('x', "Send"), "x  Send");
    assert_eq!(glyph(Icon::Settings), icons::SETTINGS);
}

fn key(p: Option<bool>) -> (String, Option<bool>) {
    ("id".to_string(), p)
}

fn status(service: ServiceState, keys: Vec<(String, Option<bool>)>) -> Status {
    Status { service, keys, agent: AgentKeys::Unreachable, other_agent: false }
}

#[test]
fn hint_only_for_protected_keys_without_agent() {
    let other = Status {
        service: ServiceState::Disabled,
        keys: vec![key(Some(true))],
        agent: AgentKeys::Empty,
        other_agent: true,
    };
    assert!(!other.needs_agent(), "SSH_AUTH_SOCK names an agent that answers");
    assert!(status(ServiceState::Disabled, vec![key(Some(true))]).needs_agent());
    assert!(!status(ServiceState::Running, vec![key(Some(true))]).needs_agent());
    assert!(!status(ServiceState::Disabled, vec![key(Some(false))]).needs_agent());
    assert!(!status(ServiceState::Stopped, vec![]).needs_agent());
}

#[test]
fn a_dismissed_hint_stays_away() {
    let s = status(ServiceState::Disabled, vec![key(Some(true))]);
    assert!(s.shows_hint(&None));
    assert!(!s.shows_hint(&Some("1".to_string())));
    assert!(s.settings(true).contains(&Shown::Key(0, Some(true))));
    assert!(asks_agent(ServiceState::Running, false));
    assert!(!asks_agent(ServiceState::Disabled, false));
}

fn tab(index: usize, name: &str, selected: bool) -> TabView {
    let rect = Rect { left: 0, top: 0, right: 100, bottom: 40 };
    TabView { index, name: name.into(), selected, rect: Some(rect), claim: None }
}

fn window(handle: isize, tabs: Vec<TabView>) -> WindowView {
    WindowView { handle, pid: 1, foreground: false, unresponsive: false, tabs }
}

fn snapshot(windows: Vec<WindowView>) -> Snapshot {
    Snapshot { windows, complete: true }
}

#[test]
fn the_selected_tabs_are_pictured_once() {
    let now = snapshot(vec![
        window(1, vec![tab(0, "pwsh", false), tab(1, "web01", true)]),
        window(2, vec![tab(0, "notes", true)]),
    ]);
    let mut previews = Previews::new();
    let wanted: Vec<(isize, usize, String, Option<i32>)> =
        previews.wanted(&now, 0).into_iter().map(|w| (w.window, w.index, w.title, w.strip)).collect();
    assert_eq!(wanted, vec![(1, 1, "web01".into(), Some(40)), (2, 0, "notes".into(), Some(40))]);
    previews.insert(1, 1, "web01".into(), 7, 1_790_000_000, 0);
    assert_eq!(previews.get(1, 1).map(|p| (p.taken, p.image)), Some((1_790_000_000, 7)));
    assert_eq!(previews.wanted(&now, 0).len(), 1, "web01 was just pictured");
    // a new title there: pictured again
    let renamed = snapshot(vec![window(1, vec![tab(0, "pwsh", false), tab(1, "web01: top", true)])]);
    assert_eq!(previews.wanted(&renamed, 0).len(), 1);
    // and after a while
    assert_eq!(previews.wanted(&now, 3_000).len(), 2);
}

#[test]
fn pictures_that_no_longer_fit_are_forgotten() {
    let before = snapshot(vec![
        window(1, vec![tab(0, "pwsh", false), tab(1, "web01", false), tab(2, "db", true)]),
        window(2, vec![tab(0, "notes", true)]),
    ]);
    let mut previews = Previews::new();
    for (w, i, t) in [(1, 0, "pwsh"), (1, 1, "web01"), (1, 2, "db"), (2, 0, "notes")] {
        previews.insert(w, i, t.into(), 1, 0, 0);
    }
    // the title changed, same tabs: kept
    let retitled = snapshot(vec![
        window(1, vec![tab(0, "pwsh: ls", false), tab(1, "web01", false), tab(2, "db", true)]),
        window(2, vec![tab(0, "notes", true)]),
    ]);
    previews.prune(&before, &retitled);
    assert!(previews.get(1, 0).is_some());
    // "pwsh" closed: the others moved up; window 2 closed
    let closed = snapshot(vec![window(1, vec![tab(0, "web01", false), tab(1, "db", true)])]);
    previews.prune(&retitled, &closed);
    assert!(previews.get(1, 0).is_none(), "web01's place had pwsh's picture");
    assert!(previews.get(1, 1).is_none());
    assert!(previews.get(1, 2).is_none(), "no tab there");
    assert!(previews.get(2, 0).is_none(), "window gone");
}

#[test]
fn every_icon_is_its_phosphor_glyph() {
    let all = [
        (Icon::Settings, regular::GEAR),
        (Icon::Refresh, regular::ARROWS_CLOCKWISE),
        (Icon::Add, regular::PLUS),
        (Icon::Import, regular::DOWNLOAD_SIMPLE),
        (Icon::Folder, regular::FOLDER),
        (Icon::FolderOpen, regular::FOLDER_OPEN),
        (Icon::ChevronRight, regular::CARET_RIGHT),
        (Icon::ChevronDown, regular::CARET_DOWN),
        (Icon::Host, regular::DESKTOP),
        (Icon::Network, regular::NETWORK),
        (Icon::Serial, regular::USB),
        (Icon::Pin, regular::PUSH_PIN),
        (Icon::Clear, regular::X),
        (Icon::Search, regular::MAGNIFYING_GLASS),
        (Icon::Tab, regular::BROWSER),
        (Icon::Tabs, regular::BROWSERS),
        (Icon::Open, regular::ARROW_SQUARE_OUT),
        (Icon::Send, regular::PAPER_PLANE_TILT),
        (Icon::Key, regular::KEY),
        (Icon::Lock, regular::LOCK),
        (Icon::Unlock, regular::LOCK_OPEN),
        (Icon::StarFilled, regular::STAR),
        (Icon::Connect, regular::PLUG),
        (Icon::Save, regular::FLOPPY_DISK),
        (Icon::Up, regular::ARROW_UP),
        (Icon::Upload, regular::UPLOAD_SIMPLE),
        (Icon::Download, regular::DOWNLOAD_SIMPLE),
        (Icon::NewFolder, regular::FOLDER_PLUS),
        (Icon::Document, regular::FILE),
        (Icon::Link, regular::LINK),
        (Icon::Edit, regular::PENCIL_SIMPLE),
        (Icon::Rename, regular::TEXTBOX),
        (Icon::Delete, regular::TRASH),
        (Icon::Accept, regular::CHECK),
        (Icon::Play, regular::PLAY),
        (Icon::Pause, regular::PAUSE),
        (Icon::Sync, regular::ARROWS_CLOCKWISE),
        (Icon::List, regular::LIST),
        (Icon::Grid, regular::SQUARES_FOUR),
        (Icon::Disconnect, regular::PLUGS),
        (Icon::Clone, regular::COPY),
        (Icon::Break, regular::LIGHTNING),
        (Icon::ClearScreen, regular::ERASER),
        (Icon::CloseOthers, regular::X_SQUARE),
        (Icon::CloseEnded, regular::X_CIRCLE),
        (Icon::CloseRight, regular::ARROW_LINE_RIGHT),
    ];
    for (icon, text) in all {
        assert_eq!(glyph(icon), text.chars().next().unwrap(), "{icon:?}");
        assert_eq!(first_char(text), glyph(icon));
    }
}
