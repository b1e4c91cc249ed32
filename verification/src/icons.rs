//! The icons as glyphs in the icon font (Phosphor, bundled). The font is a
//! fallback of the normal text font, so a glyph can sit inside any label.

use vstd::prelude::*;

use crate::text;

verus! {

/// What an icon stands for.
#[derive(Clone, Copy, Debug, PartialEq, Eq, Structural)]
pub enum Icon {
    Settings,
    Refresh,
    Add,
    Import,
    Folder,
    FolderOpen,
    ChevronRight,
    ChevronDown,
    Host,
    Network,
    Serial,
    Pin,
    Clear,
    Search,
    Tab,
    Tabs,
    Open,
    Send,
    Key,
    Lock,
    Unlock,
    StarFilled,
    Connect,
    Save,
    Up,
    Upload,
    Download,
    NewFolder,
    Document,
    Link,
    Edit,
    Rename,
    Delete,
    Accept,
    Play,
    Pause,
    Sync,
    List,
    Grid,
    Disconnect,
    Clone,
    Break,
    ClearScreen,
    CloseOthers,
    CloseEnded,
    CloseRight,
}

pub const SETTINGS: char = '\u{E270}';

pub const REFRESH: char = '\u{E094}';

pub const ADD: char = '\u{E3D4}';

pub const IMPORT: char = '\u{E20C}';

pub const FOLDER: char = '\u{E24A}';

pub const FOLDER_OPEN: char = '\u{E256}';

pub const CHEVRON_RIGHT: char = '\u{E13A}';

pub const CHEVRON_DOWN: char = '\u{E136}';

pub const HOST: char = '\u{E560}';

/// Sessions over the network other than SSH.
pub const NETWORK: char = '\u{EDDE}';

/// Serial lines.
pub const SERIAL: char = '\u{E956}';

pub const PIN: char = '\u{E3E2}';

pub const CLEAR: char = '\u{E4F6}';

pub const SEARCH: char = '\u{E30C}';

pub const TAB: char = '\u{E0F4}';

pub const TABS: char = '\u{E0F6}';

pub const OPEN: char = '\u{E5DE}';

pub const SEND: char = '\u{E398}';

pub const KEY: char = '\u{E2D6}';

pub const LOCK: char = '\u{E2FA}';

pub const UNLOCK: char = '\u{E306}';

pub const STAR_FILLED: char = '\u{E46A}';

pub const CONNECT: char = '\u{E946}';

pub const SAVE: char = '\u{E248}';

pub const UP: char = '\u{E08E}';

pub const UPLOAD: char = '\u{E4C0}';

pub const DOWNLOAD: char = '\u{E20C}';

pub const NEW_FOLDER: char = '\u{E258}';

pub const DOCUMENT: char = '\u{E230}';

pub const LINK: char = '\u{E2E2}';

pub const EDIT: char = '\u{E3B4}';

pub const RENAME: char = '\u{EB0A}';

pub const DELETE: char = '\u{E4A6}';

pub const ACCEPT: char = '\u{E182}';

pub const PLAY: char = '\u{E3D0}';

pub const PAUSE: char = '\u{E39E}';

pub const SYNC: char = '\u{E094}';

pub const LIST: char = '\u{E2F0}';

pub const GRID: char = '\u{E464}';

/// The glyph of an icon.
pub open spec fn glyph_of(icon: Icon) -> char {
    match icon {
        Icon::Settings => SETTINGS,
        Icon::Refresh => REFRESH,
        Icon::Add => ADD,
        Icon::Import => IMPORT,
        Icon::Folder => FOLDER,
        Icon::FolderOpen => FOLDER_OPEN,
        Icon::ChevronRight => CHEVRON_RIGHT,
        Icon::ChevronDown => CHEVRON_DOWN,
        Icon::Host => HOST,
        Icon::Network => NETWORK,
        Icon::Serial => SERIAL,
        Icon::Pin => PIN,
        Icon::Clear => CLEAR,
        Icon::Search => SEARCH,
        Icon::Tab => TAB,
        Icon::Tabs => TABS,
        Icon::Open => OPEN,
        Icon::Send => SEND,
        Icon::Key => KEY,
        Icon::Lock => LOCK,
        Icon::Unlock => UNLOCK,
        Icon::StarFilled => STAR_FILLED,
        Icon::Connect => CONNECT,
        Icon::Save => SAVE,
        Icon::Up => UP,
        Icon::Upload => UPLOAD,
        Icon::Download => DOWNLOAD,
        Icon::NewFolder => NEW_FOLDER,
        Icon::Document => DOCUMENT,
        Icon::Link => LINK,
        Icon::Edit => EDIT,
        Icon::Rename => RENAME,
        Icon::Delete => DELETE,
        Icon::Accept => ACCEPT,
        Icon::Play => PLAY,
        Icon::Pause => PAUSE,
        Icon::Sync => SYNC,
        Icon::List => LIST,
        Icon::Grid => GRID,
        Icon::Disconnect => '\u{EB56}',
        Icon::Clone => '\u{E1CA}',
        Icon::Break => '\u{E2DE}',
        Icon::ClearScreen => '\u{E21E}',
        Icon::CloseOthers => '\u{E4FA}',
        Icon::CloseEnded => '\u{E4F8}',
        Icon::CloseRight => '\u{E064}',
    }
}

/// The value that three bytes of UTF-8 hold, else the first byte.
pub open spec fn held(bytes: Seq<u8>) -> u32 {
    if bytes.len() == 3 {
        vstd::utf8::codepoint_width_3(bytes[0], bytes[1], bytes[2])
    } else {
        bytes[0] as u32
    }
}

/// `char::from_u32`: the character with this code point, if there is one.
#[verifier::external_body]
fn character(value: u32) -> (r: Option<char>)
    ensures
        match r {
            Some(c) => c as u32 == value,
            None => !vstd::utf8::is_scalar(value),
        },
{
    char::from_u32(value)
}

proof fn lemma_held(s: Seq<char>)
    requires
        s.len() == 1,
        s[0] as u32 <= 0x7f || 0x800 <= s[0] as u32 <= 0xffff,
    ensures
        held(vstd::utf8::encode_utf8(s)) == s[0] as u32,
        vstd::utf8::encode_utf8(s).len() > 0,
{
    let c = s[0] as u32;
    let bytes = vstd::utf8::encode_utf8(s);
    vstd::utf8::char_is_scalar(s[0]);
    vstd::utf8::encode_utf8_first_scalar(s);
    assert(vstd::utf8::encode_utf8(s.drop_first()) =~= Seq::<u8>::empty());
    assert(bytes =~= vstd::utf8::encode_scalar(c));
    if c <= 0x7f {
        let b = bytes[0];
        assert(b == (c & 0x7f) as u8);
        assert((c & 0x7f) as u8 as u32 == c) by (bit_vector)
            requires
                c <= 0x7f,
        ;
    } else {
        assert(bytes.len() == 3);
        assert(0xe0 <= bytes[0] <= 0xef) by {
            let b = bytes[0];
            assert(b == 0xe0 | ((c >> 12) & 0x0f) as u8);
            assert(0xe0 <= (0xe0 | ((c >> 12) & 0x0f) as u8) <= 0xef) by (bit_vector);
        }
    }
}

/// The one character that a glyph constant holds: a private-use code point,
/// three bytes of UTF-8 (or one of ASCII).
pub fn first_char(s: &str) -> (r: char)
    requires
        s@.len() > 0,
    ensures
        vstd::utf8::is_scalar(held(vstd::utf8::encode_utf8(s@))) ==> r as u32 == held(vstd::utf8::encode_utf8(s@)),
        !vstd::utf8::is_scalar(held(vstd::utf8::encode_utf8(s@))) ==> r == '\u{FFFD}',
        s@.len() == 1 && (s@[0] as u32 <= 0x7f || 0x800 <= s@[0] as u32 <= 0xffff) ==> r == s@[0],
{
    let b = s.as_bytes();
    proof {
        vstd::utf8::encode_utf8_first_scalar(s@);
        assert(b@.len() > 0);
        if s@.len() == 1 && (s@[0] as u32 <= 0x7f || 0x800 <= s@[0] as u32 <= 0xffff) {
            lemma_held(s@);
            vstd::utf8::char_is_scalar(s@[0]);
        }
    }
    let value: u32 = if b.len() == 3 {
        (((b[0] & 0x0F) as u32) << 12) | (((b[1] & 0x3F) as u32) << 6) | ((b[2] & 0x3F) as u32)
    } else {
        b[0] as u32
    };
    match character(value) {
        Some(c) => {
            proof {
                vstd::utf8::char_is_scalar(c);
                vstd::utf8::char_u32_cast(c, value);
                vstd::utf8::char_u32_cast(s@[0], s@[0] as u32);
            }
            c
        },
        None => '\u{FFFD}',
    }
}

/// The glyph for `icon`: the Phosphor (regular) glyph that means the same.
pub fn glyph(icon: Icon) -> (r: char)
    ensures
        r == glyph_of(icon),
{
    match icon {
        Icon::Settings => SETTINGS,
        Icon::Refresh => REFRESH,
        Icon::Add => ADD,
        Icon::Import => IMPORT,
        Icon::Folder => FOLDER,
        Icon::FolderOpen => FOLDER_OPEN,
        Icon::ChevronRight => CHEVRON_RIGHT,
        Icon::ChevronDown => CHEVRON_DOWN,
        Icon::Host => HOST,
        Icon::Network => NETWORK,
        Icon::Serial => SERIAL,
        Icon::Pin => PIN,
        Icon::Clear => CLEAR,
        Icon::Search => SEARCH,
        Icon::Tab => TAB,
        Icon::Tabs => TABS,
        Icon::Open => OPEN,
        Icon::Send => SEND,
        Icon::Key => KEY,
        Icon::Lock => LOCK,
        Icon::Unlock => UNLOCK,
        Icon::StarFilled => STAR_FILLED,
        Icon::Connect => CONNECT,
        Icon::Save => SAVE,
        Icon::Up => UP,
        Icon::Upload => UPLOAD,
        Icon::Download => DOWNLOAD,
        Icon::NewFolder => NEW_FOLDER,
        Icon::Document => DOCUMENT,
        Icon::Link => LINK,
        Icon::Edit => EDIT,
        Icon::Rename => RENAME,
        Icon::Delete => DELETE,
        Icon::Accept => ACCEPT,
        Icon::Play => PLAY,
        Icon::Pause => PAUSE,
        Icon::Sync => SYNC,
        Icon::List => LIST,
        Icon::Grid => GRID,
        Icon::Disconnect => '\u{EB56}',
        Icon::Clone => '\u{E1CA}',
        Icon::Break => '\u{E2DE}',
        Icon::ClearScreen => '\u{E21E}',
        Icon::CloseOthers => '\u{E4FA}',
        Icon::CloseEnded => '\u{E4F8}',
        Icon::CloseRight => '\u{E064}',
    }
}

/// `glyph` then `text`, for buttons.
pub fn with(glyph: char, text: &str) -> (r: String)
    ensures
        r@ == seq![glyph, ' ', ' '] + text@,
{
    let mut chars: Vec<char> = Vec::new();
    chars.push(glyph);
    chars.push(' ');
    chars.push(' ');
    let tail = text::chars_of(text);
    text::append(&mut chars, &tail);
    proof {
        assert(chars@ =~= seq![glyph, ' ', ' '] + text@);
    }
    text::string_of(&chars)
}

/// Every glyph lies in the private use area, where no text font has one.
pub proof fn law_glyphs_are_private_use(icon: Icon)
    ensures
        0xE000 <= glyph_of(icon) as u32 <= 0xF8FF,
{
}

/// Two icons look alike only where one picture serves for both: importing is
/// drawn as a download, and comparing folders as a refresh.
pub proof fn law_icons_look_different(a: Icon, b: Icon)
    requires
        glyph_of(a) == glyph_of(b),
    ensures
        ({
            let down = |i: Icon| i is Import || i is Download;
            let again = |i: Icon| i is Refresh || i is Sync;
            a == b || (down(a) && down(b)) || (again(a) && again(b))
        }),
{
}

} // verus!
