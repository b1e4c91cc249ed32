//! New or edited non-SSH session (Telnet, rlogin, raw, serial, SUPDUP), run
//! with plink: what the fields come to.

use vstd::prelude::*;

use crate::dialogs;
use crate::dialogs::Outcome;
use crate::message;
use crate::message::Message;
use crate::message::MessageView;
use crate::message::Notice;
use crate::message::NoticeView;
use crate::registry;
use crate::registry::Note;
use crate::registry::NoteView;
use crate::text;

verus! {

/// Charsets offered first; other names and code page numbers can be typed.
pub const CHARSETS: [&'static str; 5] = ["UTF-8", "GBK", "Big5", "Shift_JIS", "EUC-KR"];

pub const SPEEDS: [u32; 10] = [300, 1200, 2400, 4800, 9600, 19200, 38400, 57600, 115200, 230400];

pub const STOP_BITS: [&'static str; 3] = ["1", "1.5", "2"];

#[derive(Clone, Copy, Debug, PartialEq, Eq, Structural)]
pub enum Protocol {
    Telnet,
    Rlogin,
    Raw,
    Serial,
    Supdup,
}

#[derive(Clone, Copy, Debug, PartialEq, Eq, Structural)]
pub enum Parity {
    Off,
    Odd,
    Even,
    Mark,
    Space,
}

#[derive(Clone, Copy, Debug, PartialEq, Eq, Structural)]
pub enum Flow {
    Off,
    XonXoff,
    RtsCts,
    DsrDtr,
}

/// A serial line and how it is driven.
#[derive(Clone, Debug, PartialEq, Eq)]
pub struct Serial {
    pub line: String,
    pub speed: u32,
    pub data_bits: u8,
    pub parity: Parity,
    pub stop_bits: String,
    pub flow: Flow,
}

/// A serial line and how it is driven.
pub struct SerialView {
    pub line: Seq<char>,
    pub speed: int,
    pub data_bits: int,
    pub parity: Parity,
    pub stop_bits: Seq<char>,
    pub flow: Flow,
}

impl View for Serial {
    type V = SerialView;

    open spec fn view(&self) -> SerialView {
        SerialView {
            line: self.line@,
            speed: self.speed as int,
            data_bits: self.data_bits as int,
            parity: self.parity,
            stop_bits: self.stop_bits@,
            flow: self.flow,
        }
    }
}

/// A value of one of PuTTY's options.
#[derive(Clone, Debug, PartialEq, Eq)]
pub enum PuttyValue {
    Number(u32),
    Text(String),
}

/// A value of one of PuTTY's options.
pub enum PuttyView {
    Number(int),
    Text(Seq<char>),
}

impl View for PuttyValue {
    type V = PuttyView;

    open spec fn view(&self) -> PuttyView {
        match *self {
            PuttyValue::Number(n) => PuttyView::Number(n as int),
            PuttyValue::Text(t) => PuttyView::Text(t@),
        }
    }
}

impl PuttyValue {
    fn same(&self, other: &PuttyValue) -> (r: bool)
        ensures
            r == (self@ == other@),
    {
        match (self, other) {
            (PuttyValue::Number(a), PuttyValue::Number(b)) => *a == *b,
            (PuttyValue::Text(a), PuttyValue::Text(b)) => text::same(a, b),
            _ => false,
        }
    }

    fn copy(&self) -> (r: PuttyValue)
        ensures
            r@ == self@,
    {
        match self {
            PuttyValue::Number(n) => PuttyValue::Number(*n),
            PuttyValue::Text(t) => PuttyValue::Text(t.clone()),
        }
    }
}

/// One of PuTTY's options: its key, and the value it has when none is kept.
#[derive(Clone, Debug, PartialEq, Eq)]
pub struct PuttyOption {
    pub key: String,
    pub default: PuttyValue,
}

/// One of PuTTY's options.
pub struct OptionView {
    pub key: Seq<char>,
    pub default: PuttyView,
}

impl View for PuttyOption {
    type V = OptionView;

    open spec fn view(&self) -> OptionView {
        OptionView { key: self.key@, default: self.default@ }
    }
}

/// PuTTY's options, by page.
#[derive(Clone, Debug, PartialEq, Eq)]
pub struct Pages {
    pub line: Vec<PuttyOption>,
    pub connection: Vec<PuttyOption>,
    pub telnet: Vec<PuttyOption>,
    pub supdup: Vec<PuttyOption>,
    /// What is logged: nothing for zero.
    pub log_type: PuttyOption,
    pub log_file: PuttyOption,
}

/// The options of a list.
pub open spec fn options(v: Seq<PuttyOption>) -> Seq<OptionView> {
    v.map_values(|o: PuttyOption| o@)
}

/// What a list of kept values holds, by key.
pub open spec fn kept(list: Seq<(String, PuttyValue)>) -> Map<Seq<char>, PuttyView>
    decreases list.len(),
{
    if list.len() == 0 {
        Map::empty()
    } else {
        kept(list.drop_last()).insert(list.last().0@, list.last().1@)
    }
}

/// The value of an option: what is kept, else its default.
pub open spec fn value_in(m: Map<Seq<char>, PuttyView>, o: OptionView) -> PuttyView {
    if m.contains_key(o.key) {
        m[o.key]
    } else {
        o.default
    }
}

/// A value set: the default is not kept.
pub open spec fn with_value(m: Map<Seq<char>, PuttyView>, o: OptionView, v: PuttyView) -> Map<Seq<char>, PuttyView> {
    if v == o.default {
        m.remove(o.key)
    } else {
        m.insert(o.key, v)
    }
}

fn without_key(list: &[(String, PuttyValue)], key: &str) -> (r: Vec<(String, PuttyValue)>)
    ensures
        kept(r@) == kept(list@).remove(key@),
{
    let mut r: Vec<(String, PuttyValue)> = Vec::new();
    let mut i: usize = 0;
    proof {
        assert(kept(r@) =~= kept(list@.take(0)).remove(key@));
    }
    while i < list.len()
        invariant
            i <= list@.len(),
            kept(r@) == kept(list@.take(i as int)).remove(key@),
        decreases list@.len() - i,
    {
        proof {
            assert(list@.take(i + 1).drop_last() =~= list@.take(i as int));
            assert(list@.take(i + 1).last() == list@[i as int]);
        }
        let ghost all = kept(list@.take(i as int));
        let ghost k = list@[i as int].0@;
        let ghost v = list@[i as int].1@;
        if !text::same(&list[i].0, key) {
            let ghost before = r@;
            r.push((list[i].0.clone(), list[i].1.copy()));
            proof {
                assert(r@.drop_last() =~= before);
                assert(all.remove(key@).insert(k, v) =~= all.insert(k, v).remove(key@));
            }
        } else {
            proof {
                assert(all.remove(key@) =~= all.insert(k, v).remove(key@));
            }
        }
        i += 1;
    }
    proof {
        assert(list@.take(i as int) =~= list@);
    }
    r
}

fn put_value(list: &[(String, PuttyValue)], o: &PuttyOption, v: PuttyValue) -> (r: Vec<(String, PuttyValue)>)
    ensures
        kept(r@) == with_value(kept(list@), o@, v@),
{
    let mut r = without_key(list, &o.key);
    if !v.same(&o.default) {
        let ghost before = r@;
        r.push((o.key.clone(), v));
        proof {
            assert(r@.drop_last() =~= before);
            assert(kept(list@).remove(o.key@).insert(o.key@, v@) =~= kept(list@).insert(o.key@, v@));
        }
    }
    r
}

fn find_value(list: &[(String, PuttyValue)], o: &PuttyOption) -> (r: PuttyValue)
    ensures
        r@ == value_in(kept(list@), o@),
{
    let mut i: usize = list.len();
    proof {
        assert(list@.take(i as int) =~= list@);
    }
    while i > 0
        invariant
            i <= list@.len(),
            value_in(kept(list@), o@) == value_in(kept(list@.take(i as int)), o@),
        decreases i,
    {
        proof {
            assert(list@.take(i as int).drop_last() =~= list@.take(i - 1));
            assert(list@.take(i as int).last() == list@[i - 1]);
        }
        if text::same(&list[i - 1].0, &o.key) {
            return list[i - 1].1.copy();
        }
        i -= 1;
    }
    o.default.copy()
}

/// A session that plink runs.
#[derive(Clone, Debug, PartialEq, Eq)]
pub struct PlinkSession {
    pub name: String,
    pub label: Option<String>,
    pub protocol: Protocol,
    pub host: Option<String>,
    pub port: Option<u16>,
    pub user: Option<String>,
    pub charset: Option<String>,
    pub serial: Option<Serial>,
    pub note: Option<String>,
    pub on_login: Option<String>,
    pub pre_connect: Option<String>,
    /// What the Backspace key sends, where it is not `^h`.
    pub backspace: Option<String>,
    /// PuTTY's options that differ from their defaults.
    pub putty: Vec<(String, PuttyValue)>,
    pub favorite: bool,
    pub id: Option<String>,
}

/// A session that plink runs.
pub struct PlinkView {
    pub name: Seq<char>,
    pub label: Option<Seq<char>>,
    pub protocol: Protocol,
    pub host: Option<Seq<char>>,
    pub port: Option<u16>,
    pub user: Option<Seq<char>>,
    pub charset: Option<Seq<char>>,
    pub serial: Option<SerialView>,
    pub note: Option<Seq<char>>,
    pub on_login: Option<Seq<char>>,
    pub pre_connect: Option<Seq<char>>,
    pub backspace: Option<Seq<char>>,
    pub putty: Map<Seq<char>, PuttyView>,
    pub favorite: bool,
    pub id: Option<Seq<char>>,
}

impl View for PlinkSession {
    type V = PlinkView;

    open spec fn view(&self) -> PlinkView {
        PlinkView {
            name: self.name@,
            label: text::optional(self.label),
            protocol: self.protocol,
            host: text::optional(self.host),
            port: self.port,
            user: text::optional(self.user),
            charset: text::optional(self.charset),
            serial: match self.serial {
                Some(s) => Some(s@),
                None => None,
            },
            note: text::optional(self.note),
            on_login: text::optional(self.on_login),
            pre_connect: text::optional(self.pre_connect),
            backspace: text::optional(self.backspace),
            putty: kept(self.putty@),
            favorite: self.favorite,
            id: text::optional(self.id),
        }
    }
}

/// The file that is logged to, if there is a log: its type is not zero and
/// it has a file.
pub open spec fn logs_to(m: Map<Seq<char>, PuttyView>, log_type: OptionView, log_file: OptionView) -> Option<
    Seq<char>,
> {
    match (value_in(m, log_type), value_in(m, log_file)) {
        (PuttyView::Number(n), PuttyView::Text(f)) => if n != 0 && f.len() > 0 {
            Some(f)
        } else {
            None
        },
        _ => None,
    }
}

impl PlinkSession {
    /// The file that is logged to, if there is a log.
    pub fn log_file(&self, pages: &Pages) -> (r: Option<String>)
        ensures
            text::optional(r) == logs_to(self@.putty, pages.log_type@, pages.log_file@),
    {
        match (find_value(&self.putty, &pages.log_type), find_value(&self.putty, &pages.log_file)) {
            (PuttyValue::Number(n), PuttyValue::Text(f)) => {
                if n != 0 && !f.as_str().is_empty() {
                    Some(f)
                } else {
                    None
                }
            },
            _ => None,
        }
    }
}

/// The dialog's fields.
pub struct PlinkDialog {
    pub title: Message,
    /// The name when editing.
    pub alias: Option<String>,
    /// The folder file a new session goes to.
    pub file: Option<String>,
    /// What the edited session had that the dialog doesn't show.
    pub base: PlinkSession,
    pub label: String,
    pub protocol: Protocol,
    pub host: String,
    pub port: String,
    pub user: String,
    pub charset: String,
    /// What the Backspace key sends: `^h` or `^?`.
    pub backspace: String,
    pub line: String,
    pub speed: String,
    pub data_bits: u8,
    pub parity: Parity,
    pub stop_bits: String,
    pub flow: Flow,
    pub note: String,
    pub on_login: String,
    pub pre_connect: String,
    /// As many lines as they like, kept apart by the session's id.
    pub long_note: String,
    /// Comma separated, kept with the long note.
    pub tags: String,
    /// The options being edited.
    pub options: Vec<(String, PuttyValue)>,
    pub error: Option<Notice>,
}

/// The pages of options that a protocol has.
pub open spec fn shown_options(p: Pages, protocol: Protocol) -> Seq<OptionView> {
    options(p.line@) + (if protocol is Serial {
        Seq::empty()
    } else {
        options(p.connection@)
    }) + (match protocol {
        Protocol::Telnet => options(p.telnet@),
        Protocol::Supdup => options(p.supdup@),
        _ => Seq::empty(),
    })
}

/// The pages that a protocol does not have.
pub open spec fn hidden_options(p: Pages, protocol: Protocol) -> Seq<OptionView> {
    (if protocol is Telnet {
        Seq::empty()
    } else {
        options(p.telnet@)
    }) + (if protocol is Supdup {
        Seq::empty()
    } else {
        options(p.supdup@)
    })
}

/// Without some options.
pub open spec fn without_options(m: Map<Seq<char>, PuttyView>, list: Seq<OptionView>) -> Map<Seq<char>, PuttyView>
    decreases list.len(),
{
    if list.len() == 0 {
        m
    } else {
        without_options(m, list.drop_last()).remove(list.last().key)
    }
}

/// With some options as they are being edited.
pub open spec fn with_options(
    m: Map<Seq<char>, PuttyView>,
    edited: Map<Seq<char>, PuttyView>,
    list: Seq<OptionView>,
) -> Map<Seq<char>, PuttyView>
    decreases list.len(),
{
    if list.len() == 0 {
        m
    } else {
        with_value(
            with_options(m, edited, list.drop_last()),
            list.last(),
            value_in(edited, list.last()),
        )
    }
}

/// The options of the session: other protocols' pages don't apply any more,
/// what is shown is as edited, and there is no log without a type and a
/// file.
pub open spec fn options_after(
    base: Map<Seq<char>, PuttyView>,
    edited: Map<Seq<char>, PuttyView>,
    p: Pages,
    protocol: Protocol,
) -> Map<Seq<char>, PuttyView> {
    let m = with_options(
        without_options(base, hidden_options(p, protocol)),
        edited,
        shown_options(p, protocol) + seq![p.log_type@, p.log_file@],
    );
    if logs_to(m, p.log_type@, p.log_file@) is None {
        m.remove(p.log_type@.key).remove(p.log_file@.key)
    } else {
        m
    }
}

fn take_away(list: Vec<(String, PuttyValue)>, gone: &[PuttyOption]) -> (r: Vec<(String, PuttyValue)>)
    ensures
        kept(r@) == without_options(kept(list@), options(gone@)),
{
    let ghost m = kept(list@);
    let ghost all = options(gone@);
    let mut r = list;
    let mut i: usize = 0;
    proof {
        assert(all.take(0) =~= Seq::empty());
    }
    while i < gone.len()
        invariant
            i <= gone@.len(),
            all == options(gone@),
            kept(r@) == without_options(m, all.take(i as int)),
        decreases gone@.len() - i,
    {
        proof {
            assert(all.take(i + 1).drop_last() =~= all.take(i as int));
            assert(all.take(i + 1).last() == gone@[i as int]@);
        }
        r = without_key(&r, &gone[i].key);
        i += 1;
    }
    proof {
        assert(all.take(i as int) =~= all);
    }
    r
}

fn take_over(
    list: Vec<(String, PuttyValue)>,
    edited: &[(String, PuttyValue)],
    shown: &[PuttyOption],
) -> (r: Vec<(String, PuttyValue)>)
    ensures
        kept(r@) == with_options(kept(list@), kept(edited@), options(shown@)),
{
    let ghost m = kept(list@);
    let ghost all = options(shown@);
    let mut r = list;
    let mut i: usize = 0;
    proof {
        assert(all.take(0) =~= Seq::empty());
    }
    while i < shown.len()
        invariant
            i <= shown@.len(),
            all == options(shown@),
            kept(r@) == with_options(m, kept(edited@), all.take(i as int)),
        decreases shown@.len() - i,
    {
        proof {
            assert(all.take(i + 1).drop_last() =~= all.take(i as int));
            assert(all.take(i + 1).last() == shown@[i as int]@);
        }
        let v = find_value(edited, &shown[i]);
        r = put_value(&r, &shown[i], v);
        i += 1;
    }
    proof {
        assert(all.take(i as int) =~= all);
    }
    r
}

proof fn lemma_without(m: Map<Seq<char>, PuttyView>, a: Seq<OptionView>, b: Seq<OptionView>)
    ensures
        without_options(m, a + b) == without_options(without_options(m, a), b),
    decreases b.len(),
{
    if b.len() == 0 {
        assert(a + b =~= a);
    } else {
        assert((a + b).drop_last() =~= a + b.drop_last());
        assert((a + b).last() == b.last());
        lemma_without(m, a, b.drop_last());
    }
}

proof fn lemma_with(
    m: Map<Seq<char>, PuttyView>,
    edited: Map<Seq<char>, PuttyView>,
    a: Seq<OptionView>,
    b: Seq<OptionView>,
)
    ensures
        with_options(m, edited, a + b) == with_options(with_options(m, edited, a), edited, b),
    decreases b.len(),
{
    if b.len() == 0 {
        assert(a + b =~= a);
    } else {
        assert((a + b).drop_last() =~= a + b.drop_last());
        assert((a + b).last() == b.last());
        lemma_with(m, edited, a, b.drop_last());
    }
}

fn copy_kept(list: &[(String, PuttyValue)]) -> (r: Vec<(String, PuttyValue)>)
    ensures
        kept(r@) == kept(list@),
{
    let mut r: Vec<(String, PuttyValue)> = Vec::new();
    let mut i: usize = 0;
    proof {
        assert(kept(r@) =~= kept(list@.take(0)));
    }
    while i < list.len()
        invariant
            i <= list@.len(),
            kept(r@) == kept(list@.take(i as int)),
        decreases list@.len() - i,
    {
        proof {
            assert(list@.take(i + 1).drop_last() =~= list@.take(i as int));
            assert(list@.take(i + 1).last() == list@[i as int]);
        }
        let ghost before = r@;
        r.push((list[i].0.clone(), list[i].1.copy()));
        proof {
            assert(r@.drop_last() =~= before);
        }
        i += 1;
    }
    proof {
        assert(list@.take(i as int) =~= list@);
    }
    r
}

fn merge_options(
    base: &[(String, PuttyValue)],
    edited: &[(String, PuttyValue)],
    p: &Pages,
    protocol: Protocol,
) -> (r: Vec<(String, PuttyValue)>)
    ensures
        kept(r@) == options_after(kept(base@), kept(edited@), *p, protocol),
{
    let ghost none = Seq::<OptionView>::empty();
    let ghost b = kept(base@);
    let ghost e = kept(edited@);
    let mut r = copy_kept(base);
    if protocol != Protocol::Telnet {
        r = take_away(r, &p.telnet);
    }
    let ghost gone_a = if protocol is Telnet {
        none
    } else {
        options(p.telnet@)
    };
    proof {
        assert(kept(r@) == without_options(b, gone_a));
    }
    if protocol != Protocol::Supdup {
        r = take_away(r, &p.supdup);
    }
    let ghost gone_b = if protocol is Supdup {
        none
    } else {
        options(p.supdup@)
    };
    proof {
        lemma_without(b, gone_a, gone_b);
        assert(kept(r@) == without_options(b, hidden_options(*p, protocol)));
    }
    let ghost m = kept(r@);
    r = take_over(r, edited, &p.line);
    if protocol != Protocol::Serial {
        r = take_over(r, edited, &p.connection);
    }
    let ghost page = if protocol is Serial {
        none
    } else {
        options(p.connection@)
    };
    proof {
        lemma_with(m, e, options(p.line@), page);
    }
    match protocol {
        Protocol::Telnet => {
            r = take_over(r, edited, &p.telnet);
        },
        Protocol::Supdup => {
            r = take_over(r, edited, &p.supdup);
        },
        _ => {},
    }
    let ghost own = match protocol {
        Protocol::Telnet => options(p.telnet@),
        Protocol::Supdup => options(p.supdup@),
        _ => none,
    };
    proof {
        lemma_with(m, e, options(p.line@) + page, own);
        assert(kept(r@) == with_options(m, e, shown_options(*p, protocol)));
    }
    let v = find_value(edited, &p.log_type);
    r = put_value(&r, &p.log_type, v);
    let v = find_value(edited, &p.log_file);
    r = put_value(&r, &p.log_file, v);
    proof {
        let log = seq![p.log_type@, p.log_file@];
        let first = seq![p.log_type@];
        let shown = with_options(m, e, shown_options(*p, protocol));
        lemma_with(m, e, shown_options(*p, protocol), log);
        assert(log.drop_last() =~= first);
        assert(log.last() == p.log_file@);
        assert(first.drop_last() =~= none);
        assert(first.last() == p.log_type@);
        assert(with_options(shown, e, none) == shown);
        assert(with_options(shown, e, first) == with_value(shown, p.log_type@, value_in(e, p.log_type@)));
        assert(kept(r@) == with_options(shown, e, log));
    }
    let logged = match (find_value(&r, &p.log_type), find_value(&r, &p.log_file)) {
        (PuttyValue::Number(n), PuttyValue::Text(f)) => n != 0 && !f.as_str().is_empty(),
        _ => false,
    };
    if !logged {
        r = without_key(&r, &p.log_type.key);
        r = without_key(&r, &p.log_file.key);
    }
    r
}

proof fn lemma_without_key(m: Map<Seq<char>, PuttyView>, list: Seq<OptionView>, key: Seq<char>)
    ensures
        (exists|i: int| 0 <= i < list.len() && (#[trigger] list[i]).key == key) ==> !without_options(
            m,
            list,
        ).contains_key(key),
        (forall|i: int| 0 <= i < list.len() ==> (#[trigger] list[i]).key != key) ==> {
            &&& without_options(m, list).contains_key(key) == m.contains_key(key)
            &&& m.contains_key(key) ==> without_options(m, list)[key] == m[key]
        },
    decreases list.len(),
{
    if list.len() > 0 {
        let rest = list.drop_last();
        lemma_without_key(m, rest, key);
        assert(list[list.len() - 1] == list.last());
        assert forall|i: int| 0 <= i < rest.len() implies #[trigger] rest[i] == list[i] by {}
        if exists|i: int| 0 <= i < list.len() && (#[trigger] list[i]).key == key {
            let i = choose|i: int| 0 <= i < list.len() && (#[trigger] list[i]).key == key;
            if i < rest.len() {
                assert(rest[i].key == key);
            }
        } else {
            assert forall|i: int| 0 <= i < rest.len() implies (#[trigger] rest[i]).key != key by {
                assert(list[i].key != key);
            }
        }
    }
}

proof fn lemma_with_key(
    m: Map<Seq<char>, PuttyView>,
    edited: Map<Seq<char>, PuttyView>,
    list: Seq<OptionView>,
    key: Seq<char>,
)
    requires
        forall|i: int| 0 <= i < list.len() ==> (#[trigger] list[i]).key != key,
    ensures
        with_options(m, edited, list).contains_key(key) == m.contains_key(key),
        m.contains_key(key) ==> with_options(m, edited, list)[key] == m[key],
    decreases list.len(),
{
    if list.len() > 0 {
        let rest = list.drop_last();
        assert forall|i: int| 0 <= i < rest.len() implies (#[trigger] rest[i]).key != key by {
            assert(rest[i] == list[i]);
        }
        lemma_with_key(m, edited, rest, key);
        assert(list[list.len() - 1].key != key);
    }
}

/// No option has this key.
pub open spec fn not_among(list: Seq<OptionView>, key: Seq<char>) -> bool {
    forall|i: int| 0 <= i < list.len() ==> (#[trigger] list[i]).key != key
}

/// What the dialog does not show is kept, except what belongs to another
/// protocol, which goes.
pub proof fn law_what_is_not_shown_is_kept(
    base: Map<Seq<char>, PuttyView>,
    edited: Map<Seq<char>, PuttyView>,
    p: Pages,
    protocol: Protocol,
    key: Seq<char>,
)
    requires
        not_among(shown_options(p, protocol), key),
        key != p.log_type@.key && key != p.log_file@.key,
    ensures
        ({
            let after = options_after(base, edited, p, protocol);
            &&& !not_among(hidden_options(p, protocol), key) ==> !after.contains_key(key)
            &&& not_among(hidden_options(p, protocol), key) ==> after.contains_key(key) == base.contains_key(key)
            &&& not_among(hidden_options(p, protocol), key) && base.contains_key(key) ==> after[key] == base[key]
        }),
{
    let hidden = hidden_options(p, protocol);
    let m = without_options(base, hidden);
    lemma_without_key(base, hidden, key);
    let list = shown_options(p, protocol) + seq![p.log_type@, p.log_file@];
    assert forall|i: int| 0 <= i < list.len() implies (#[trigger] list[i]).key != key by {
        let n = shown_options(p, protocol).len() as int;
        if i < n {
            assert(list[i] == shown_options(p, protocol)[i]);
        } else if i == n {
            assert(list[i] == p.log_type@);
        } else {
            assert(list[i] == p.log_file@);
        }
    }
    lemma_with_key(m, edited, list, key);
}

/// A session logs only where a type and a file are set.
pub proof fn law_a_log_needs_a_type_and_a_file(
    base: Map<Seq<char>, PuttyView>,
    edited: Map<Seq<char>, PuttyView>,
    p: Pages,
    protocol: Protocol,
)
    ensures
        ({
            let after = options_after(base, edited, p, protocol);
            after.contains_key(p.log_type@.key) || after.contains_key(p.log_file@.key) ==> logs_to(
                after,
                p.log_type@,
                p.log_file@,
            ) is Some
        }),
{
}

/// The serial speed that is typed.
pub open spec fn speed_in(s: Seq<char>) -> Option<int> {
    match text::number_of(text::trimmed(s)) {
        Some(n) => if n <= 0xffff_ffff {
            Some(n)
        } else {
            None
        },
        None => None,
    }
}

/// A charset that is worth keeping: UTF-8 is the default.
pub open spec fn charset_in(s: Seq<char>) -> Option<Seq<char>> {
    match text::filled(s) {
        Some(c) => if text::same_but_case(c, "utf-8"@) {
            None
        } else {
            Some(c)
        },
        None => None,
    }
}

/// A Backspace setting that is worth keeping: only the one that isn't the
/// default.
pub open spec fn backspace_in(s: Seq<char>) -> Option<Seq<char>> {
    match text::filled(s) {
        Some(b) => if b == "^h"@ {
            None
        } else {
            Some(b)
        },
        None => None,
    }
}

/// What the fields come to. A raw session needs a port: there is no usual
/// one.
pub open spec fn session_of(d: PlinkDialog, name: Seq<char>, p: Pages) -> Result<PlinkView, MessageView> {
    match dialogs::port_in(d.port@) {
        Err(_) => Err(dialogs::bad_port(d.port@)),
        Ok(port) => if d.protocol is Serial && speed_in(d.speed@) is None {
            Err(message::said("plink-bad-speed"@).text("speed"@, text::trimmed(d.speed@)))
        } else if d.protocol is Raw && port is None {
            Err(message::said("plink-no-port"@))
        } else {
            let network = !(d.protocol is Serial);
            Ok(
                PlinkView {
                    name,
                    label: text::filled(d.label@),
                    protocol: d.protocol,
                    host: if network {
                        text::filled(d.host@)
                    } else {
                        None
                    },
                    port: if network {
                        port
                    } else {
                        None
                    },
                    user: if d.protocol is Telnet || d.protocol is Rlogin {
                        text::filled(d.user@)
                    } else {
                        None
                    },
                    charset: charset_in(d.charset@),
                    serial: if network {
                        None
                    } else {
                        Some(
                            SerialView {
                                line: text::uppercase_text(text::trimmed(d.line@)),
                                speed: speed_in(d.speed@)->0,
                                data_bits: d.data_bits as int,
                                parity: d.parity,
                                stop_bits: d.stop_bits@,
                                flow: d.flow,
                            },
                        )
                    },
                    note: text::filled(d.note@),
                    on_login: text::filled(d.on_login@),
                    pre_connect: text::filled(d.pre_connect@),
                    backspace: backspace_in(d.backspace@),
                    putty: options_after(kept(d.base.putty@), kept(d.options@), p, d.protocol),
                    favorite: d.base.favorite,
                    id: text::optional(d.base.id),
                },
            )
        },
    }
}

/// What a result says.
pub open spec fn sessioned(r: Result<PlinkSession, Message>) -> Result<PlinkView, MessageView> {
    match r {
        Ok(s) => Ok(s@),
        Err(m) => Err(m@),
    }
}

/// What is handed on of a session as entered, once the session was checked
/// as a whole: `check` says what is wrong with it.
pub fn checked(session: Result<PlinkSession, Message>, check: Result<(), String>) -> (r: Result<PlinkSession, Notice>)
    ensures
        match session {
            Err(m) => r matches Err(n) && n@ == NoticeView::Said(m@),
            Ok(s) => match check {
                Ok(_) => r == Ok::<PlinkSession, Notice>(s),
                Err(e) => r matches Err(n) && n@ == NoticeView::Plain(e@),
            },
        },
{
    match session {
        Err(m) => Err(Notice::Said(m)),
        Ok(s) => match check {
            Ok(_) => Ok(s),
            Err(e) => Err(Notice::Plain(e)),
        },
    }
}

/// The first text that is not blank.
pub open spec fn first_filled(a: Seq<char>, b: Seq<char>, c: Seq<char>) -> Seq<char> {
    match (text::filled(a), text::filled(b), text::filled(c)) {
        (Some(t), _, _) => t,
        (None, Some(t), _) => t,
        (None, None, Some(t)) => t,
        (None, None, None) => "session"@,
    }
}

fn or_text(s: &Option<String>, other: &str) -> (r: String)
    ensures
        r@ == (match *s {
            Some(t) => t@,
            None => other@,
        }),
{
    match s {
        Some(t) => t.clone(),
        None => text::owned(other),
    }
}

impl PlinkDialog {
    /// A new session in a folder's file; `ports` are the serial ports there
    /// are.
    pub fn new_session(file: String, folder: &str, ports: &[String]) -> (r: PlinkDialog)
        ensures
            r.title@ == message::said("plink-new-title"@).text("folder"@, folder@),
            r.alias is None && text::optional(r.file) == Some(file@) && r.error is None,
            r.protocol is Telnet,
            r.label@.len() == 0 && r.host@.len() == 0 && r.port@.len() == 0 && r.user@.len() == 0,
            r.charset@ == "UTF-8"@ && r.backspace@ == "^h"@,
            r.speed@ == text::decimal(9600) && r.data_bits == 8 && r.parity is Off && r.stop_bits@ == "1"@
                && r.flow is XonXoff,
            r.line@ == (if ports@.len() > 0 {
                ports@[0]@
            } else {
                Seq::empty()
            }),
            kept(r.options@) == Map::<Seq<char>, PuttyView>::empty(),
            kept(r.base.putty@) == Map::<Seq<char>, PuttyView>::empty(),
            !r.base.favorite && r.base.id is None,
    {
        let base = PlinkSession {
            name: String::new(),
            label: None,
            protocol: Protocol::Telnet,
            host: None,
            port: None,
            user: None,
            charset: None,
            serial: None,
            note: None,
            on_login: None,
            pre_connect: None,
            backspace: None,
            putty: Vec::new(),
            favorite: false,
            id: None,
        };
        PlinkDialog::from_session(
            Message::new("plink-new-title").text("folder", folder),
            None,
            Some(file),
            base,
            ports,
        )
    }

    /// An existing session; `shown` is how it is called.
    pub fn edit(session: PlinkSession, shown: &str, ports: &[String]) -> (r: PlinkDialog)
        ensures
            r.title@ == message::said("plink-edit-title"@).text("name"@, shown@),
            text::optional(r.alias) == Some(session.name@) && r.file is None && r.error is None,
            shows(r, session, ports@),
    {
        let alias = session.name.clone();
        PlinkDialog::from_session(
            Message::new("plink-edit-title").text("name", shown),
            Some(alias),
            None,
            session,
            ports,
        )
    }

    fn from_session(
        title: Message,
        alias: Option<String>,
        file: Option<String>,
        s: PlinkSession,
        ports: &[String],
    ) -> (r: PlinkDialog)
        ensures
            r.title == title && r.alias == alias && r.file == file && r.error is None,
            shows(r, s, ports@),
    {
        let (line, speed, data_bits, parity, stop_bits, flow) = match &s.serial {
            Some(x) => (x.line.clone(), x.speed, x.data_bits, x.parity, x.stop_bits.clone(), x.flow),
            None => (String::new(), 9600u32, 8u8, Parity::Off, text::owned("1"), Flow::XonXoff),
        };
        let line = if line.as_str().is_empty() && ports.len() > 0 {
            ports[0].clone()
        } else {
            line
        };
        let port = match s.port {
            Some(p) => text::string_of(&text::decimal_chars(p as u128)),
            None => {
                let none = String::new();
                proof {
                    assert(none@ =~= Seq::empty());
                }
                none
            },
        };
        let options = copy_kept(&s.putty);
        proof {
            assert(line@.len() == 0 ==> line@ =~= Seq::empty());
        }
        PlinkDialog {
            title,
            alias,
            file,
            label: dialogs::text_or_empty(&s.label),
            protocol: s.protocol,
            host: dialogs::text_or_empty(&s.host),
            port,
            user: dialogs::text_or_empty(&s.user),
            charset: or_text(&s.charset, "UTF-8"),
            backspace: or_text(&s.backspace, "^h"),
            line,
            speed: text::string_of(&text::decimal_chars(speed as u128)),
            data_bits,
            parity,
            stop_bits,
            flow,
            note: dialogs::text_or_empty(&s.note),
            on_login: dialogs::text_or_empty(&s.on_login),
            pre_connect: dialogs::text_or_empty(&s.pre_connect),
            long_note: String::new(),
            tags: String::new(),
            options,
            base: s,
            error: None,
        }
    }

    /// With what was written about this session.
    pub fn with_note(self, note: Option<&Note>) -> (r: PlinkDialog)
        ensures
            match note {
                Some(n) => r.long_note@ == n.text@ && r.tags@ == registry::tags_line(n@.tags) && r == (PlinkDialog {
                    long_note: r.long_note,
                    tags: r.tags,
                    ..self
                }),
                None => r == self,
            },
    {
        let mut r = self;
        if let Some(note) = note {
            r.long_note = note.text.clone();
            r.tags = note.tag_line();
        }
        r
    }

    /// The note as it stands now, stamped with the time it was written.
    pub fn note_now(&self, now: i64) -> (r: Note)
        ensures
            r@ == (NoteView {
                text: text::trimmed_end(self.long_note@),
                tags: registry::typed_tags(self.tags@),
                updated_at: now as int,
            }),
    {
        Note { text: text::trim_end(&self.long_note), tags: Note::tags_from(&self.tags), updated_at: now }
    }

    /// The session as entered; `name` is the alias (kept when editing, made
    /// for a new one).
    pub fn session(&self, name: &str, pages: &Pages) -> (r: Result<PlinkSession, Message>)
        ensures
            sessioned(r) == session_of(*self, name@, *pages),
    {
        let port = match dialogs::read_port(&self.port) {
            Ok(p) => p,
            Err(m) => {
                return Err(m);
            },
        };
        let network = self.protocol != Protocol::Serial;
        let serial = if network {
            None
        } else {
            let typed = text::trim(&text::chars_of(&self.speed));
            let speed: u32 = match text::parse_number(&typed, 0xffff_ffff) {
                Some(n) => n as u32,
                None => {
                    let shown = text::string_of(&typed);
                    return Err(Message::new("plink-bad-speed").text("speed", &shown));
                },
            };
            let line = text::string_of(&text::trim(&text::chars_of(&self.line)));
            Some(
                Serial {
                    line: text::to_upper(&line),
                    speed,
                    data_bits: self.data_bits,
                    parity: self.parity,
                    stop_bits: self.stop_bits.clone(),
                    flow: self.flow,
                },
            )
        };
        if self.protocol == Protocol::Raw && port.is_none() {
            return Err(Message::new("plink-no-port"));
        }
        let charset = match text::fill(&self.charset) {
            Some(c) => {
                let usual = text::chars_of("utf-8");
                if text::same_ignoring_case(&text::chars_of(&c), &usual) {
                    None
                } else {
                    Some(c)
                }
            },
            None => None,
        };
        let backspace = match text::fill(&self.backspace) {
            Some(b) => if text::same(&b, "^h") {
                None
            } else {
                Some(b)
            },
            None => None,
        };
        let user = match self.protocol {
            Protocol::Telnet => text::fill(&self.user),
            Protocol::Rlogin => text::fill(&self.user),
            _ => None,
        };
        Ok(
            PlinkSession {
                name: text::owned(name),
                label: text::fill(&self.label),
                protocol: self.protocol,
                host: if network {
                    text::fill(&self.host)
                } else {
                    None
                },
                port: if network {
                    port
                } else {
                    None
                },
                user,
                charset,
                serial,
                note: text::fill(&self.note),
                on_login: text::fill(&self.on_login),
                pre_connect: text::fill(&self.pre_connect),
                backspace,
                putty: merge_options(&self.base.putty, &self.options, pages, self.protocol),
                favorite: self.base.favorite,
                id: text::optional_copy(&self.base.id),
            },
        )
    }

    /// The value of an option as it is being edited.
    pub fn option(&self, o: &PuttyOption) -> (r: PuttyValue)
        ensures
            r@ == value_in(kept(self.options@), o@),
    {
        find_value(&self.options, o)
    }

    /// An option is edited.
    pub fn set_option(&mut self, o: &PuttyOption, v: PuttyValue)
        ensures
            kept(final(self).options@) == with_value(kept(old(self).options@), o@, v@),
            *final(self) == (PlinkDialog { options: final(self).options, ..*old(self) }),
    {
        let after = put_value(&self.options, o, v);
        self.options = after;
    }

    /// What a new session's alias is made from.
    pub fn name_base(&self) -> (r: String)
        ensures
            r@ == first_filled(self.label@, self.host@, self.line@),
    {
        if let Some(t) = text::fill(&self.label) {
            return t;
        }
        if let Some(t) = text::fill(&self.host) {
            return t;
        }
        if let Some(t) = text::fill(&self.line) {
            return t;
        }
        text::owned("session")
    }
}

/// The dialog shows a session.
pub open spec fn shows(d: PlinkDialog, s: PlinkSession, ports: Seq<String>) -> bool {
    &&& d.base == s
    &&& d.protocol == s.protocol
    &&& d.label@ == dialogs::or_empty(text::optional(s.label))
    &&& d.host@ == dialogs::or_empty(text::optional(s.host))
    &&& d.port@ == dialogs::number_text(s.port)
    &&& d.user@ == dialogs::or_empty(text::optional(s.user))
    &&& d.charset@ == (match s.charset {
        Some(c) => c@,
        None => "UTF-8"@,
    })
    &&& d.backspace@ == (match s.backspace {
        Some(b) => b@,
        None => "^h"@,
    })
    &&& d.note@ == dialogs::or_empty(text::optional(s.note))
    &&& d.on_login@ == dialogs::or_empty(text::optional(s.on_login))
    &&& d.pre_connect@ == dialogs::or_empty(text::optional(s.pre_connect))
    &&& kept(d.options@) == kept(s.putty@)
    &&& d.line@ == (match s.serial {
        Some(x) if x.line@.len() > 0 => x.line@,
        _ => if ports.len() > 0 {
            ports[0]@
        } else {
            Seq::empty()
        },
    })
    &&& match s.serial {
        Some(x) => {
            &&& d.speed@ == text::decimal(x.speed as nat)
            &&& d.data_bits == x.data_bits
            &&& d.parity == x.parity
            &&& d.stop_bits@ == x.stop_bits@
            &&& d.flow == x.flow
        },
        None => {
            &&& d.speed@ == text::decimal(9600)
            &&& d.data_bits == 8
            &&& d.parity is Off
            &&& d.stop_bits@ == "1"@
            &&& d.flow is XonXoff
        },
    }
}

/// Which fields a protocol has, besides those that all of them have.
#[derive(Clone, Copy, Debug, PartialEq, Eq, Structural)]
pub struct Fields {
    /// The line, its speed, format and flow control.
    pub serial: bool,
    /// The host and the port.
    pub host: bool,
    pub user: bool,
}

/// The fields that are shown for a protocol.
pub fn fields(protocol: Protocol) -> (r: Fields)
    ensures
        r.serial == (protocol is Serial),
        r.host == !(protocol is Serial),
        r.user == (protocol is Telnet || protocol is Rlogin),
{
    match protocol {
        Protocol::Serial => Fields { serial: true, host: false, user: false },
        Protocol::Telnet | Protocol::Rlogin => Fields { serial: false, host: true, user: true },
        Protocol::Raw | Protocol::Supdup => Fields { serial: false, host: true, user: false },
    }
}

/// Only what a protocol's fields show goes into a session.
pub proof fn law_only_shown_fields_count(d: PlinkDialog, name: Seq<char>, p: Pages)
    ensures
        session_of(d, name, p) matches Ok(s) ==> {
            &&& s.serial is Some <==> d.protocol is Serial
            &&& d.protocol is Serial ==> s.host is None && s.port is None
            &&& !(d.protocol is Telnet || d.protocol is Rlogin) ==> s.user is None
        },
{
}

/// The hint in the port's field: the port that the protocol has by default,
/// or that one is needed.
pub fn port_hint(default: Option<u16>) -> (r: Notice)
    ensures
        r@ == (match default {
            Some(port) => NoticeView::Plain(text::decimal(port as nat)),
            None => NoticeView::Said(message::said("plink-port-needed"@)),
        }),
{
    match default {
        Some(port) => Notice::Plain(text::string_of(&text::decimal_chars(port as u128))),
        None => Notice::Said(Message::new("plink-port-needed")),
    }
}

/// The words on the list of serial ports.
pub fn ports_text(ports: &[String]) -> (r: Message)
    ensures
        r@ == message::said(
            if ports@.len() == 0 {
                "plink-no-ports"@
            } else {
                "plink-ports"@
            },
        ),
{
    if ports.len() == 0 {
        Message::new("plink-no-ports")
    } else {
        Message::new("plink-ports")
    }
}

/// What the buttons make of the dialog: closing its window (it is not
/// `open` any more) is as good as Cancel, and Cancel counts before Save.
pub fn pressed(save: bool, cancel: bool, open: bool) -> (r: Outcome<()>)
    ensures
        r == (if !open || cancel {
            Outcome::Cancel
        } else if save {
            Outcome::Submit(())
        } else {
            Outcome::<()>::Open
        }),
{
    if !open || cancel {
        Outcome::Cancel
    } else if save {
        Outcome::Submit(())
    } else {
        Outcome::Open
    }
}

/// The titles of the option pages of a protocol.
pub open spec fn page_words(p: Protocol) -> Seq<NoticeView> {
    let first = seq![NoticeView::Said(message::said("putty-page-line"@))];
    let connection = NoticeView::Said(message::said("putty-page-connection"@));
    match p {
        Protocol::Serial => first,
        Protocol::Telnet => first.push(connection).push(NoticeView::Plain("Telnet"@)),
        Protocol::Supdup => first.push(connection).push(NoticeView::Plain("SUPDUP"@)),
        Protocol::Rlogin | Protocol::Raw => first.push(connection),
    }
}

/// The titles of the option pages of a protocol.
pub fn page_titles(p: Protocol) -> (r: Vec<Notice>)
    ensures
        r@.map_values(|n: Notice| n@) == page_words(p),
{
    let mut r: Vec<Notice> = Vec::new();
    r.push(Notice::Said(Message::new("putty-page-line")));
    if p != Protocol::Serial {
        r.push(Notice::Said(Message::new("putty-page-connection")));
    }
    match p {
        Protocol::Telnet => r.push(Notice::Plain(text::owned("Telnet"))),
        Protocol::Supdup => r.push(Notice::Plain(text::owned("SUPDUP"))),
        _ => {},
    }
    proof {
        assert(r@.map_values(|n: Notice| n@) =~= page_words(p));
    }
    r
}

/// A protocol in words.
pub open spec fn protocol_words(p: Protocol) -> NoticeView {
    match p {
        Protocol::Telnet => NoticeView::Plain("Telnet"@),
        Protocol::Rlogin => NoticeView::Plain("rlogin"@),
        Protocol::Raw => NoticeView::Said(message::said("protocol-raw"@)),
        Protocol::Serial => NoticeView::Said(message::said("protocol-serial"@)),
        Protocol::Supdup => NoticeView::Plain("SUPDUP"@),
    }
}

/// A protocol in words.
pub fn protocol_text(p: Protocol) -> (r: Notice)
    ensures
        r@ == protocol_words(p),
{
    match p {
        Protocol::Telnet => Notice::Plain(text::owned("Telnet")),
        Protocol::Rlogin => Notice::Plain(text::owned("rlogin")),
        Protocol::Raw => Notice::Said(Message::new("protocol-raw")),
        Protocol::Serial => Notice::Said(Message::new("protocol-serial")),
        Protocol::Supdup => Notice::Plain(text::owned("SUPDUP")),
    }
}

/// A parity in words.
pub fn parity_text(p: Parity) -> (r: Message)
    ensures
        r@ == message::said(
            match p {
                Parity::Off => "parity-none"@,
                Parity::Odd => "parity-odd"@,
                Parity::Even => "parity-even"@,
                Parity::Mark => "parity-mark"@,
                Parity::Space => "parity-space"@,
            },
        ),
{
    match p {
        Parity::Off => Message::new("parity-none"),
        Parity::Odd => Message::new("parity-odd"),
        Parity::Even => Message::new("parity-even"),
        Parity::Mark => Message::new("parity-mark"),
        Parity::Space => Message::new("parity-space"),
    }
}

/// A flow control in words.
pub fn flow_text(f: Flow) -> (r: Notice)
    ensures
        r@ == (match f {
            Flow::Off => NoticeView::Said(message::said("flow-none"@)),
            Flow::XonXoff => NoticeView::Plain("XON/XOFF"@),
            Flow::RtsCts => NoticeView::Plain("RTS/CTS"@),
            Flow::DsrDtr => NoticeView::Plain("DSR/DTR"@),
        }),
{
    match f {
        Flow::Off => Notice::Said(Message::new("flow-none")),
        Flow::XonXoff => Notice::Plain(text::owned("XON/XOFF")),
        Flow::RtsCts => Notice::Plain(text::owned("RTS/CTS")),
        Flow::DsrDtr => Notice::Plain(text::owned("DSR/DTR")),
    }
}

/// The choice that a number means, of those up to `last`; `other` for any
/// other value.
pub fn choice_of(v: &PuttyValue, last: u32, other: u32) -> (r: u32)
    ensures
        r == (match *v {
            PuttyValue::Number(n) => if n <= last {
                n
            } else {
                other
            },
            PuttyValue::Text(_) => other,
        }),
{
    match v {
        PuttyValue::Number(n) => if *n <= last {
            *n
        } else {
            other
        },
        PuttyValue::Text(_) => other,
    }
}

/// The log file that is shown: a log turned on without a file gets the
/// default.
pub fn shown_log_file(log_type: u32, file: &str, default: &str) -> (r: String)
    ensures
        r@ == (if log_type != 0 && file@.len() == 0 {
            default@
        } else {
            file@
        }),
{
    if log_type != 0 && file.is_empty() {
        text::owned(default)
    } else {
        text::owned(file)
    }
}

/// What is typed into a number's field: the number, the default for an empty
/// field, nothing while it is no number.
pub fn number_typed(typed: &str, o: &PuttyOption) -> (r: Option<PuttyValue>)
    ensures
        (match r {
            Some(v) => Some(v@),
            None => None,
        }) == (match speed_in(typed@) {
            Some(n) => Some(PuttyView::Number(n)),
            None => if text::trimmed(typed@).len() == 0 {
                Some(o@.default)
            } else {
                None
            },
        }),
{
    let t = text::trim(&text::chars_of(typed));
    match text::parse_number(&t, 0xffff_ffff) {
        Some(n) => Some(PuttyValue::Number(n as u32)),
        None => if t.len() == 0 {
            Some(o.default.copy())
        } else {
            None
        },
    }
}

/// How one of PuTTY's options is called; one without a name by its key.
pub open spec fn option_words(key: Seq<char>) -> NoticeView {
    if key == "TerminalType"@ {
        NoticeView::Said(message::said("putty-terminaltype"@))
    } else if key == "PingIntervalSecs"@ {
        NoticeView::Said(message::said("putty-pingintervalsecs"@))
    } else if key == "TCPNoDelay"@ {
        NoticeView::Said(message::said("putty-tcpnodelay"@))
    } else if key == "TCPKeepalives"@ {
        NoticeView::Said(message::said("putty-tcpkeepalives"@))
    } else if key == "PassiveTelnet"@ {
        NoticeView::Said(message::said("putty-passivetelnet"@))
    } else if key == "LocalEcho"@ {
        NoticeView::Said(message::said("putty-localecho"@))
    } else if key == "LocalEdit"@ {
        NoticeView::Said(message::said("putty-localedit"@))
    } else if key == "RFCEnviron"@ {
        NoticeView::Said(message::said("putty-rfcenviron"@))
    } else if key == "SUPDUPLocation"@ {
        NoticeView::Said(message::said("putty-supduplocation"@))
    } else if key == "SUPDUPCharset"@ {
        NoticeView::Said(message::said("putty-supdupcharset"@))
    } else if key == "SUPDUPMoreProcessing"@ {
        NoticeView::Said(message::said("putty-supdupmoreprocessing"@))
    } else if key == "SUPDUPScrolling"@ {
        NoticeView::Said(message::said("putty-supdupscrolling"@))
    } else {
        NoticeView::Plain(key)
    }
}

/// How one of PuTTY's options is called.
pub fn option_text(key: &str) -> (r: Notice)
    ensures
        r@ == option_words(key@),
{
    if text::same(key, "TerminalType") {
        Notice::Said(Message::new("putty-terminaltype"))
    } else if text::same(key, "PingIntervalSecs") {
        Notice::Said(Message::new("putty-pingintervalsecs"))
    } else if text::same(key, "TCPNoDelay") {
        Notice::Said(Message::new("putty-tcpnodelay"))
    } else if text::same(key, "TCPKeepalives") {
        Notice::Said(Message::new("putty-tcpkeepalives"))
    } else if text::same(key, "PassiveTelnet") {
        Notice::Said(Message::new("putty-passivetelnet"))
    } else if text::same(key, "LocalEcho") {
        Notice::Said(Message::new("putty-localecho"))
    } else if text::same(key, "LocalEdit") {
        Notice::Said(Message::new("putty-localedit"))
    } else if text::same(key, "RFCEnviron") {
        Notice::Said(Message::new("putty-rfcenviron"))
    } else if text::same(key, "SUPDUPLocation") {
        Notice::Said(Message::new("putty-supduplocation"))
    } else if text::same(key, "SUPDUPCharset") {
        Notice::Said(Message::new("putty-supdupcharset"))
    } else if text::same(key, "SUPDUPMoreProcessing") {
        Notice::Said(Message::new("putty-supdupmoreprocessing"))
    } else if text::same(key, "SUPDUPScrolling") {
        Notice::Said(Message::new("putty-supdupscrolling"))
    } else {
        Notice::Plain(text::owned(key))
    }
}

/// The Backspace choice, in words; `code` is what the value stands for.
pub fn backspace_text(code: Option<&str>) -> (r: Message)
    ensures
        r@ == (match code {
            Some(c) if c@ == "^?"@ => message::said("backspace-delete"@),
            _ => message::said("backspace-control-h"@),
        }),
{
    match code {
        Some(c) => if text::same(c, "^?") {
            Message::new("backspace-delete")
        } else {
            Message::new("backspace-control-h")
        },
        None => Message::new("backspace-control-h"),
    }
}

/// The last value kept under a key counts, and an option that has none has
/// its default; only what differs from the default is kept.
pub proof fn law_option_values(
    list: Seq<(String, PuttyValue)>,
    e: (String, PuttyValue),
    m: Map<Seq<char>, PuttyView>,
    o: OptionView,
    other: OptionView,
    v: PuttyView,
)
    ensures
        !kept(Seq::empty()).contains_key(o.key),
        kept(list.push(e)).contains_key(e.0@) && kept(list.push(e))[e.0@] == e.1@,
        o.key != e.0@ ==> (kept(list.push(e)).contains_key(o.key) <==> kept(list).contains_key(o.key)) && value_in(
            kept(list.push(e)),
            o,
        ) == value_in(kept(list), o),
        !m.contains_key(o.key) ==> value_in(m, o) == o.default,
        value_in(m.insert(o.key, v), o) == v,
        value_in(with_value(m, o, v), o) == v,
        with_value(m, o, v).contains_key(o.key) <==> v != o.default,
        other.key != o.key ==> value_in(with_value(m, o, v), other) == value_in(m, other) && (with_value(m, o, v).contains_key(
            other.key,
        ) <==> m.contains_key(other.key)),
{
    assert(list.push(e).drop_last() =~= list);
}

/// A log is kept where a type other than 0 and a file are set.
pub proof fn law_what_is_logged(m: Map<Seq<char>, PuttyView>, kind: OptionView, file: OptionView, n: int, name: Seq<char>)
    ensures
        value_in(m, kind) == PuttyView::Number(n) && value_in(m, file) == PuttyView::Text(name) && n != 0 && name.len() > 0
            ==> logs_to(m, kind, file) == Some(name),
        value_in(m, kind) == PuttyView::Number(0) ==> logs_to(m, kind, file) is None,
        value_in(m, kind) is Text || value_in(m, file) is Number ==> logs_to(m, kind, file) is None,
        value_in(m, file) == PuttyView::Text(Seq::<char>::empty()) ==> logs_to(m, kind, file) is None,
{
}

/// Which options a protocol shows, and which of another it hides.
pub proof fn law_options_of_a_protocol(p: Pages)
    ensures
        shown_options(p, Protocol::Serial) == options(p.line@),
        shown_options(p, Protocol::Rlogin) == options(p.line@) + options(p.connection@),
        shown_options(p, Protocol::Raw) == options(p.line@) + options(p.connection@),
        shown_options(p, Protocol::Telnet) == options(p.line@) + options(p.connection@) + options(p.telnet@),
        shown_options(p, Protocol::Supdup) == options(p.line@) + options(p.connection@) + options(p.supdup@),
        hidden_options(p, Protocol::Telnet) == options(p.supdup@),
        hidden_options(p, Protocol::Supdup) == options(p.telnet@),
        hidden_options(p, Protocol::Serial) == options(p.telnet@) + options(p.supdup@),
        hidden_options(p, Protocol::Rlogin) == options(p.telnet@) + options(p.supdup@),
        hidden_options(p, Protocol::Raw) == options(p.telnet@) + options(p.supdup@),
{
    assert(options(p.line@) + Seq::empty() + Seq::empty() =~= options(p.line@));
    assert(options(p.line@) + options(p.connection@) + Seq::empty() =~= options(p.line@) + options(p.connection@));
    assert(Seq::empty() + options(p.supdup@) =~= options(p.supdup@));
    assert(options(p.telnet@) + Seq::empty() =~= options(p.telnet@));
}

/// What is edited of the options: those hidden go, those shown take the
/// value edited, the last of the same key last.
pub proof fn law_editing_options(
    m: Map<Seq<char>, PuttyView>,
    edited: Map<Seq<char>, PuttyView>,
    list: Seq<OptionView>,
    o: OptionView,
)
    ensures
        without_options(m, Seq::empty()) == m,
        without_options(m, list.push(o)) == without_options(m, list).remove(o.key),
        with_options(m, edited, Seq::empty()) == m,
        value_in(edited, o) == o.default ==> with_options(m, edited, list.push(o)) == with_options(m, edited, list).remove(
            o.key,
        ),
        value_in(edited, o) != o.default ==> with_options(m, edited, list.push(o)) == with_options(m, edited, list).insert(
            o.key,
            value_in(edited, o),
        ),
{
    assert(list.push(o).drop_last() =~= list);
}

/// A log that is set stays with its type and its file; the options a session
/// is left with are those edited, without those hidden.
pub proof fn law_options_left(
    base: Map<Seq<char>, PuttyView>,
    edited: Map<Seq<char>, PuttyView>,
    p: Pages,
    protocol: Protocol,
)
    ensures
        ({
            let m = with_options(
                without_options(base, hidden_options(p, protocol)),
                edited,
                shown_options(p, protocol).push(p.log_type@).push(p.log_file@),
            );
            let after = options_after(base, edited, p, protocol);
            &&& logs_to(m, p.log_type@, p.log_file@) is Some ==> after == m
            &&& logs_to(m, p.log_type@, p.log_file@) is None ==> after == m.remove(p.log_type@.key).remove(p.log_file@.key)
        }),
{
    assert(shown_options(p, protocol) + seq![p.log_type@, p.log_file@] =~= shown_options(p, protocol).push(
        p.log_type@,
    ).push(p.log_file@));
}

/// What is typed for a speed, a character set and the backspace key: a speed
/// is a number that fits 32 bits, and UTF-8 and `^h` need no saying.
pub proof fn law_what_is_typed(s: Seq<char>)
    ensures
        ({
            let t = text::trimmed(s);
            &&& speed_in(s) is Some <==> text::number_of(t) is Some && text::number_of(t)->0 <= 4294967295
            &&& speed_in(s) is Some ==> speed_in(s) == text::number_of(t)
            &&& charset_in(s) is None <==> t.len() == 0 || text::same_but_case(t, "utf-8"@)
            &&& charset_in(s) matches Some(c) ==> c == t
            &&& backspace_in(s) is None <==> t.len() == 0 || t == "^h"@
            &&& backspace_in(s) matches Some(b) ==> b == t
        }),
{
}

/// What a session is made of: every field trimmed, those that its protocol
/// shows, and the rest as it was.
pub proof fn law_a_session_from_its_fields(d: PlinkDialog, name: Seq<char>, p: Pages)
    requires
        session_of(d, name, p) is Ok,
    ensures
        ({
            let s = session_of(d, name, p)->Ok_0;
            let t = |f: String| text::trimmed(f@);
            &&& s.name == name && s.protocol == d.protocol && s.favorite == d.base.favorite && s.id == text::optional(
                d.base.id,
            )
            &&& t(d.label).len() == 0 ==> s.label is None
            &&& t(d.label).len() > 0 ==> s.label == Some(t(d.label))
            &&& !(d.protocol is Serial) && t(d.host).len() > 0 ==> s.host == Some(t(d.host))
            &&& t(d.host).len() == 0 ==> s.host is None
            &&& !(d.protocol is Serial) && t(d.port).len() > 0 ==> (s.port matches Some(n) && text::number_of(t(d.port))
                == Some(n as int))
            &&& t(d.port).len() == 0 ==> s.port is None
            &&& d.protocol is Raw ==> s.port is Some
            &&& (d.protocol is Telnet || d.protocol is Rlogin) && t(d.user).len() > 0 ==> s.user == Some(t(d.user))
            &&& t(d.user).len() == 0 ==> s.user is None
            &&& s.charset == charset_in(d.charset@) && s.backspace == backspace_in(d.backspace@)
            &&& t(d.note).len() > 0 ==> s.note == Some(t(d.note))
            &&& t(d.note).len() == 0 ==> s.note is None
            &&& t(d.on_login).len() > 0 ==> s.on_login == Some(t(d.on_login))
            &&& t(d.on_login).len() == 0 ==> s.on_login is None
            &&& t(d.pre_connect).len() > 0 ==> s.pre_connect == Some(t(d.pre_connect))
            &&& t(d.pre_connect).len() == 0 ==> s.pre_connect is None
            &&& s.putty == options_after(kept(d.base.putty@), kept(d.options@), p, d.protocol)
            &&& d.protocol is Serial ==> (s.serial matches Some(x) && x.line == text::uppercase_text(t(d.line)) && Some(x.speed)
                == text::number_of(t(d.speed)) && x.data_bits == d.data_bits && x.parity == d.parity && x.stop_bits
                == d.stop_bits@ && x.flow == d.flow)
        }),
{
    text::law_numbers_are_whole(text::trimmed(d.port@));
}

/// A session is refused for a port that is none, for a serial line's speed
/// that is none, and for a raw connection without a port; nothing else.
pub proof fn law_what_sessions_are_refused(d: PlinkDialog, name: Seq<char>, p: Pages)
    ensures
        ({
            let port = text::trimmed(d.port@);
            let speed = text::trimmed(d.speed@);
            let bad_port = port.len() > 0 && (text::number_of(port) is None || text::number_of(port)->0 > 65535);
            let bad_speed = d.protocol is Serial && (text::number_of(speed) is None || text::number_of(speed)->0 > 4294967295);
            let made = session_of(d, name, p);
            &&& bad_port ==> made == Err::<PlinkView, MessageView>(message::said("host-bad-port"@).text("port"@, port))
            &&& !bad_port && bad_speed ==> made == Err::<PlinkView, MessageView>(
                message::said("plink-bad-speed"@).text("speed"@, speed),
            )
            &&& !bad_port && d.protocol is Raw && port.len() == 0 ==> made == Err::<PlinkView, MessageView>(
                message::said("plink-no-port"@),
            )
            &&& !bad_port && !bad_speed && !(d.protocol is Raw && port.len() == 0) ==> made is Ok
        }),
{
}

/// What a dialog shows of a session.
pub proof fn law_fields_of_a_session(d: PlinkDialog, s: PlinkSession, ports: Seq<String>)
    requires
        shows(d, s, ports),
    ensures
        d.base == s && d.protocol == s.protocol,
        s.label matches Some(t) ==> d.label@ == t@,
        s.host matches Some(t) ==> d.host@ == t@,
        s.user matches Some(t) ==> d.user@ == t@,
        s.note matches Some(t) ==> d.note@ == t@,
        s.on_login matches Some(t) ==> d.on_login@ == t@,
        s.pre_connect matches Some(t) ==> d.pre_connect@ == t@,
        s.charset matches Some(t) ==> d.charset@ == t@,
        s.charset is None ==> d.charset@ == "UTF-8"@,
        s.backspace matches Some(t) ==> d.backspace@ == t@,
        s.backspace is None ==> d.backspace@ == "^h"@,
        s.port matches Some(n) ==> d.port@ == text::decimal(n as nat),
        s.port is None ==> d.port@.len() == 0,
        kept(d.options@) == kept(s.putty@),
        s.serial matches Some(x) ==> d.speed@ == text::decimal(x.speed as nat) && d.data_bits == x.data_bits && d.parity
            == x.parity && d.stop_bits@ == x.stop_bits@ && d.flow == x.flow && (x.line@.len() > 0 ==> d.line@ == x.line@),
        s.serial is None ==> d.speed@ == text::decimal(9600) && d.data_bits == 8 && d.parity is Off && d.stop_bits@ == "1"@
            && d.flow is XonXoff,
        s.serial is None && ports.len() > 0 ==> d.line@ == ports[0]@,
        s.serial is None && ports.len() == 0 ==> d.line@.len() == 0,
{
}

/// A session without a name takes the first of three texts that is not
/// empty, and "session" where all are.
pub proof fn law_a_name_from_the_fields(a: Seq<char>, b: Seq<char>, c: Seq<char>)
    ensures
        text::trimmed(a).len() > 0 ==> first_filled(a, b, c) == text::trimmed(a),
        text::trimmed(a).len() == 0 && text::trimmed(b).len() > 0 ==> first_filled(a, b, c) == text::trimmed(b),
        text::trimmed(a).len() == 0 && text::trimmed(b).len() == 0 && text::trimmed(c).len() > 0 ==> first_filled(a, b, c)
            == text::trimmed(c),
        text::trimmed(a).len() == 0 && text::trimmed(b).len() == 0 && text::trimmed(c).len() == 0 ==> first_filled(a, b, c)
            == "session"@,
{
}

/// The pages of each protocol, and what it is called.
pub proof fn law_protocol_words()
    ensures
        page_words(Protocol::Serial).len() == 1 && page_words(Protocol::Rlogin).len() == 2 && page_words(Protocol::Raw).len()
            == 2 && page_words(Protocol::Telnet).len() == 3 && page_words(Protocol::Supdup).len() == 3,
        page_words(Protocol::Telnet)[2] == NoticeView::Plain("Telnet"@),
        page_words(Protocol::Supdup)[2] == NoticeView::Plain("SUPDUP"@),
        protocol_words(Protocol::Telnet) == NoticeView::Plain("Telnet"@),
        protocol_words(Protocol::Rlogin) == NoticeView::Plain("rlogin"@),
        protocol_words(Protocol::Supdup) == NoticeView::Plain("SUPDUP"@),
        protocol_words(Protocol::Raw) == NoticeView::Said(message::said("protocol-raw"@)),
        protocol_words(Protocol::Serial) == NoticeView::Said(message::said("protocol-serial"@)),
{
}

/// The first page of every protocol is the line's, and the second of every
/// one but serial the connection's.
pub proof fn law_first_pages(p: Protocol)
    ensures
        page_words(p).len() >= 1 && page_words(p)[0] == NoticeView::Said(message::said("putty-page-line"@)),
        !(p is Serial) ==> page_words(p).len() >= 2 && page_words(p)[1] == NoticeView::Said(
            message::said("putty-page-connection"@),
        ),
{
}

} // verus!
