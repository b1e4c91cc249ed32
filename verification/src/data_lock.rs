//! Who has the data directory open. The file `nativeterm.lock` is held open
//! while NativeTerm runs; its text is only there to name the holder.

use vstd::prelude::*;

use crate::message;
use crate::message::Message;
use crate::message::Notice;
use crate::message::NoticeView;
use crate::text;

verus! {

/// The file, by name.
pub const LOCK_FILE: &'static str = "nativeterm.lock";

/// What a Windows editor puts in front of a UTF-8 file.
pub const BOM: char = '\u{feff}';

/// Whoever had it first.
#[derive(Clone, Debug, PartialEq, Eq)]
pub struct Holder {
    pub machine: String,
    pub user: String,
    pub pid: String,
    pub since: String,
}

/// Whoever had it first.
pub struct HolderView {
    pub machine: Seq<char>,
    pub user: Seq<char>,
    pub pid: Seq<char>,
    pub since: Seq<char>,
}

impl View for Holder {
    type V = HolderView;

    open spec fn view(&self) -> HolderView {
        HolderView { machine: self.machine@, user: self.user@, pid: self.pid@, since: self.since@ }
    }
}

/// Nothing is known.
pub open spec fn unknown() -> HolderView {
    HolderView { machine: Seq::empty(), user: Seq::empty(), pid: Seq::empty(), since: Seq::empty() }
}

/// A value without the quotes around it.
pub open spec fn unquoted(s: Seq<char>) -> Seq<char> {
    text::without_trailing(text::without_leading(s, '"'), '"')
}

/// What a line of the file adds to what is known.
pub open spec fn with_line(h: HolderView, line: Seq<char>) -> HolderView {
    match text::first_at(line, '=') {
        None => h,
        Some(i) => {
            let key = text::trimmed(line.take(i));
            let value = unquoted(text::trimmed(line.skip(i + 1)));
            if key == "machine"@ {
                HolderView { machine: value, ..h }
            } else if key == "user"@ {
                HolderView { user: value, ..h }
            } else if key == "pid"@ {
                HolderView { pid: value, ..h }
            } else if key == "since"@ {
                HolderView { since: value, ..h }
            } else {
                h
            }
        },
    }
}

/// What some lines say, the later ones over the earlier.
pub open spec fn said_by(lines: Seq<Seq<char>>) -> HolderView
    decreases lines.len(),
{
    if lines.len() == 0 {
        unknown()
    } else {
        with_line(said_by(lines.drop_last()), lines.last())
    }
}

/// What the file says.
pub open spec fn holder_in(file: Seq<char>) -> HolderView {
    said_by(text::split_on(text::without_leading(file, BOM), '\n'))
}

/// What the file says; a file that someone else wrote may start with a byte
/// order mark.
pub fn parse(text: &str) -> (r: Holder)
    ensures
        r@ == holder_in(text@),
{
    let chars = text::chars_of(text);
    let file = text::trim_leading(&chars, BOM);
    let lines = text::split(&file, '\n');
    let ghost all = text::deep(lines@);
    let mut h = Holder { machine: String::new(), user: String::new(), pid: String::new(), since: String::new() };
    proof {
        assert(h@.machine =~= Seq::empty());
        assert(h@.user =~= Seq::empty());
        assert(h@.pid =~= Seq::empty());
        assert(h@.since =~= Seq::empty());
    }
    let mut i: usize = 0;
    while i < lines.len()
        invariant
            i <= lines@.len(),
            all == text::deep(lines@),
            h@ == said_by(all.take(i as int)),
        decreases lines@.len() - i,
    {
        let line = &lines[i];
        proof {
            assert(all.take(i + 1).drop_last() =~= all.take(i as int));
            assert(all.take(i + 1).last() == line@);
        }
        if let Some(at) = text::find_char(line, '=') {
            let before = text::part(line, 0, at);
            let after = text::part(line, at + 1, line.len());
            proof {
                assert(before@ =~= line@.take(at as int));
                assert(after@ =~= line@.skip(at + 1));
            }
            let key = text::string_of(&text::trim(&before));
            let inner = text::trim_leading(&text::trim(&after), '"');
            let value = text::string_of(&text::trim_trailing(&inner, '"'));
            if text::same(&key, "machine") {
                h.machine = value;
            } else if text::same(&key, "user") {
                h.user = value;
            } else if text::same(&key, "pid") {
                h.pid = value;
            } else if text::same(&key, "since") {
                h.since = value;
            }
        }
        i += 1;
    }
    proof {
        assert(all.take(lines@.len() as int) =~= all);
    }
    h
}

/// The machine and who uses it, as far as they are known.
pub open spec fn who(h: HolderView) -> Seq<char> {
    if h.machine.len() > 0 && h.user.len() > 0 {
        h.machine + " ("@ + h.user + ")"@
    } else if h.machine.len() > 0 {
        h.machine
    } else {
        h.user
    }
}

/// How a holder is named.
pub open spec fn described(h: HolderView) -> NoticeView {
    let name = who(h);
    if name.len() > 0 && h.since.len() > 0 {
        NoticeView::Plain(name + ", "@ + h.since)
    } else if name.len() > 0 {
        NoticeView::Plain(name)
    } else if h.since.len() > 0 {
        NoticeView::Plain(h.since)
    } else {
        NoticeView::Said(message::said("data-lock-unknown"@))
    }
}

fn empty(s: &String) -> (r: bool)
    ensures
        r == (s@.len() == 0),
{
    s.as_str().is_empty()
}

impl Holder {
    /// `machine` when it says one, else something that still names it.
    pub fn describe(&self) -> (r: Notice)
        ensures
            r@ == described(self@),
    {
        proof {
            reveal_strlit(" (");
            reveal_strlit(")");
            reveal_strlit(", ");
        }
        let name: String = if !empty(&self.machine) && !empty(&self.user) {
            let start = text::plus(&self.machine, " (");
            let start = text::plus(&start, &self.user);
            text::plus(&start, ")")
        } else if !empty(&self.machine) {
            self.machine.clone()
        } else {
            self.user.clone()
        };
        if !empty(&name) && !empty(&self.since) {
            let start = text::plus(&name, ", ");
            Notice::Plain(text::plus(&start, &self.since))
        } else if !empty(&name) {
            Notice::Plain(name)
        } else if !empty(&self.since) {
            Notice::Plain(self.since.clone())
        } else {
            Notice::Said(Message::new("data-lock-unknown"))
        }
    }
}

/// What the `{:?}` format makes of a text.
pub uninterp spec fn debug_text(s: Seq<char>) -> Seq<char>;

/// Nothing in it needs an escape between quotes.
pub open spec fn is_simple(s: Seq<char>) -> bool {
    forall|i: int| 0 <= i < s.len() ==> ' ' <= #[trigger] s[i] <= '~' && s[i] != '"' && s[i] != '\\'
}

/// `s` between quotes.
pub open spec fn in_quotes(s: Seq<char>) -> Seq<char> {
    seq!['"'] + s + seq!['"']
}

/// The `{:?}` format of a text: between quotes, with escapes where a
/// character needs one. Printable ASCII other than the quote and the
/// backslash needs none.
#[verifier::external_body]
fn debug(s: &str) -> (r: String)
    ensures
        r@ == debug_text(s@),
        is_simple(s@) ==> r@ == in_quotes(s@),
{
    format!("{s:?}")
}

/// What a holder writes into the file, its names already between quotes.
pub open spec fn written(
    machine: Seq<char>,
    user: Seq<char>,
    pid: nat,
    date: Seq<char>,
    time: Seq<char>,
) -> Seq<char> {
    "machine = "@ + machine + seq!['\n'] + "user = "@ + user + seq!['\n'] + "pid = "@ + text::decimal(pid) + seq!['\n']
        + "since = \""@ + date + seq![' '] + time + seq!['"', '\n']
}

/// What this NativeTerm writes into the file.
pub fn ours(machine: &str, user: &str, pid: u32, date: &str, time: &str) -> (r: String)
    ensures
        r@ == written(debug_text(machine@), debug_text(user@), pid as nat, date@, time@),
        is_simple(machine@) && is_simple(user@) ==> r@ == written(
            in_quotes(machine@),
            in_quotes(user@),
            pid as nat,
            date@,
            time@,
        ),
{
    let machine = debug(machine);
    let user = debug(user);
    let r = text::plus("machine = ", &machine);
    let r = text::plus(&r, "\n");
    let r = text::plus(&r, "user = ");
    let r = text::plus(&r, &user);
    let r = text::plus(&r, "\n");
    let r = text::plus(&r, "pid = ");
    let number = text::string_of(&text::decimal_chars(pid as u128));
    let r = text::plus(&r, &number);
    let r = text::plus(&r, "\n");
    let r = text::plus(&r, "since = \"");
    let r = text::plus(&r, date);
    let r = text::plus(&r, " ");
    let r = text::plus(&r, time);
    proof {
        reveal_strlit("\n");
        reveal_strlit(" ");
        reveal_strlit("\"\n");
        assert("\n"@ =~= seq!['\n']);
        assert(" "@ =~= seq![' ']);
        assert("\"\n"@ =~= seq!['"', '\n']);
    }
    text::plus(&r, "\"\n")
}

proof fn lemma_split_line(a: Seq<char>, b: Seq<char>)
    requires
        !a.contains('\n'),
    ensures
        text::split_on(a + seq!['\n'] + b, '\n') == seq![a] + text::split_on(b, '\n'),
{
    let s = a + seq!['\n'] + b;
    assert forall|j: int| 0 <= j < a.len() implies s[j] != '\n' by {
        assert(s[j] == a[j]);
        assert(a.contains(a[j]));
    }
    text::lemma_first_at_is(s, '\n', a.len() as int);
    assert(s.take(a.len() as int) =~= a);
    assert(s.skip(a.len() as int + 1) =~= b);
}

proof fn lemma_plain_value(v: Seq<char>)
    requires
        v.len() > 0 ==> v.first() != '"' && v.last() != '"',
    ensures
        unquoted(v) == v,
        unquoted(in_quotes(v)) == v,
{
    let q = in_quotes(v);
    assert(q.skip(1) =~= v + seq!['"']);
    assert((v + seq!['"']).drop_last() =~= v);
    if v.len() > 0 {
        assert((v + seq!['"']).first() == v.first());
    } else {
        let one = v + seq!['"'];
        assert(one.skip(1) =~= Seq::<char>::empty());
        assert(v =~= Seq::<char>::empty());
    }
    assert(text::without_leading(v, '"') == v);
    assert(text::without_trailing(v, '"') == v);
    assert(q.first() == '"');
    assert(text::without_leading(q, '"') == text::without_leading(v + seq!['"'], '"'));
    if v.len() > 0 {
        assert(text::without_leading(v + seq!['"'], '"') == v + seq!['"']);
        assert((v + seq!['"']).last() == '"');
    } else {
        let one = v + seq!['"'];
        assert(one.first() == '"');
        assert(text::without_leading(one, '"') == text::without_leading(one.skip(1), '"'));
    }
}

proof fn lemma_line(key: Seq<char>, head: Seq<char>, v: Seq<char>)
    requires
        head == key + seq![' ', '=', ' '],
        key.len() > 0,
        !key.contains('='),
        !text::is_white(key.first()) && !text::is_white(key.last()),
        v.len() > 0,
        !text::is_white(v.first()) && !text::is_white(v.last()),
    ensures
        text::first_at(head + v, '=') == Some(key.len() as int + 1),
        text::trimmed((head + v).take(key.len() as int + 1)) == key,
        text::trimmed((head + v).skip(key.len() as int + 2)) == v,
{
    let line = head + v;
    let at: int = key.len() as int + 1;
    assert forall|j: int| 0 <= j < at implies line[j] != '=' by {
        if j < key.len() {
            assert(line[j] == key[j]);
            assert(key.contains(key[j]));
        }
    }
    assert(line[at] == '=');
    text::lemma_first_at_is(line, '=', at);
    let before = line.take(at);
    assert(before =~= key.push(' '));
    assert(before.first() == key.first());
    assert(before.last() == ' ');
    assert(before.drop_last() =~= key);
    assert(text::trimmed(key) == key);
    assert(text::trimmed(before) == text::trimmed(before.drop_last()));
    let after = line.skip(at + 1);
    assert(after =~= seq![' '] + v);
    assert(after.first() == ' ');
    assert(after.skip(1) =~= v);
    assert(text::trimmed(v) == v);
    assert(text::trimmed(after) == text::trimmed(after.skip(1)));
}

/// A holder with simple names reads back from what it wrote: the machine,
/// the user, the process and since when.
pub proof fn law_what_is_written_reads_back(
    machine: Seq<char>,
    user: Seq<char>,
    pid: nat,
    date: Seq<char>,
    time: Seq<char>,
)
    requires
        is_simple(machine) && is_simple(user),
        is_simple(date) && is_simple(time),
        date.len() > 0 && time.len() > 0,
    ensures
        holder_in(written(in_quotes(machine), in_quotes(user), pid, date, time)) == (HolderView {
            machine,
            user,
            pid: text::decimal(pid),
            since: date + seq![' '] + time,
        }),
{
    reveal_strlit("machine = ");
    reveal_strlit("user = ");
    reveal_strlit("pid = ");
    reveal_strlit("since = \"");
    reveal_strlit("machine");
    reveal_strlit("user");
    reveal_strlit("pid");
    reveal_strlit("since");
    let file = written(in_quotes(machine), in_quotes(user), pid, date, time);
    let since = date + seq![' '] + time;
    let l1 = "machine = "@ + in_quotes(machine);
    let l2 = "user = "@ + in_quotes(user);
    let l3 = "pid = "@ + text::decimal(pid);
    let head4 = "since"@ + seq![' ', '=', ' '];
    let l4 = head4 + in_quotes(since);
    text::lemma_decimal(pid);
    assert("since = \""@ =~= head4.push('"'));
    assert(file[0] == 'm');
    assert(text::without_leading(file, BOM) == file);
    let end = Seq::<char>::empty();
    assert(file =~= l1 + seq!['\n'] + (l2 + seq!['\n'] + (l3 + seq!['\n'] + (l4 + seq!['\n'] + end))));
    assert(!l1.contains('\n'));
    assert(!l2.contains('\n'));
    assert(!l3.contains('\n'));
    assert(!l4.contains('\n'));
    lemma_split_line(l1, l2 + seq!['\n'] + (l3 + seq!['\n'] + (l4 + seq!['\n'] + end)));
    lemma_split_line(l2, l3 + seq!['\n'] + (l4 + seq!['\n'] + end));
    lemma_split_line(l3, l4 + seq!['\n'] + end);
    lemma_split_line(l4, end);
    let lines = text::split_on(file, '\n');
    assert(text::split_on(end, '\n') =~= seq![end]);
    assert(lines =~= seq![l1, l2, l3, l4, end]);
    assert("machine = "@ =~= "machine"@ + seq![' ', '=', ' ']);
    assert("user = "@ =~= "user"@ + seq![' ', '=', ' ']);
    assert("pid = "@ =~= "pid"@ + seq![' ', '=', ' ']);
    lemma_line("machine"@, "machine = "@, in_quotes(machine));
    lemma_line("user"@, "user = "@, in_quotes(user));
    lemma_line("pid"@, "pid = "@, text::decimal(pid));
    lemma_line("since"@, head4, in_quotes(since));
    lemma_plain_value(machine);
    lemma_plain_value(user);
    lemma_plain_value(text::decimal(pid));
    lemma_plain_value(since);
    assert("machine"@.len() == 7 && "user"@.len() == 4 && "pid"@.len() == 3 && "since"@.len() == 5);
    let h1 = with_line(unknown(), l1);
    let h2 = with_line(h1, l2);
    let h3 = with_line(h2, l3);
    let h4 = with_line(h3, l4);
    assert(with_line(h4, end) == h4);
    assert(lines.drop_last() =~= seq![l1, l2, l3, l4]);
    assert(seq![l1, l2, l3, l4].drop_last() =~= seq![l1, l2, l3]);
    assert(seq![l1, l2, l3].drop_last() =~= seq![l1, l2]);
    assert(seq![l1, l2].drop_last() =~= seq![l1]);
    assert(seq![l1].drop_last() =~= Seq::empty());
    assert(said_by(Seq::empty()) == unknown());
    assert(seq![l1].last() == l1);
    assert(said_by(seq![l1]) == with_line(said_by(seq![l1].drop_last()), l1));
    assert(said_by(seq![l1]) == h1);
    assert(said_by(seq![l1, l2]) == h2);
    assert(said_by(seq![l1, l2, l3]) == h3);
    assert(said_by(seq![l1, l2, l3, l4]) == h4);
}

/// A line of the lock says one thing of its holder, by its key; white space
/// around key and value is nothing, and neither are the quotes; lines with
/// other keys and lines without an equals sign say nothing.
pub proof fn law_lines_of_the_lock(h: HolderView, key: Seq<char>, value: Seq<char>)
    requires
        forall|i: int| 0 <= i < key.len() ==> key[i] != '=',
    ensures
        with_line(h, key) == h,
        ({
            let line = key.push('=') + value;
            let k = text::trimmed(key);
            let v = text::without_trailing(text::without_leading(text::trimmed(value), '"'), '"');
            &&& k == "machine"@ ==> with_line(h, line) == (HolderView { machine: v, ..h })
            &&& k == "user"@ ==> with_line(h, line) == (HolderView { user: v, ..h })
            &&& k == "pid"@ ==> with_line(h, line) == (HolderView { pid: v, ..h })
            &&& k == "since"@ ==> with_line(h, line) == (HolderView { since: v, ..h })
            &&& k != "machine"@ && k != "user"@ && k != "pid"@ && k != "since"@ ==> with_line(h, line) == h
        }),
{
    text::lemma_first_at(key, '=');
    let line = key.push('=') + value;
    assert(line[key.len() as int] == '=');
    assert forall|j: int| 0 <= j < key.len() implies line[j] != '=' by {
        assert(line[j] == key[j]);
    }
    text::lemma_first_at_is(line, '=', key.len() as int);
    assert(line.take(key.len() as int) =~= key);
    assert(line.skip(key.len() as int + 1) =~= value);
    reveal_strlit("machine");
    reveal_strlit("user");
    reveal_strlit("pid");
    reveal_strlit("since");
    assert("machine"@.len() == 7 && "user"@.len() == 4 && "pid"@.len() == 3 && "since"@.len() == 5);
}

/// Every line of a lock is read, the later one counts, and a mark at its
/// start is nothing.
pub proof fn law_the_lock_line_by_line(lines: Seq<Seq<char>>, line: Seq<char>, file: Seq<char>)
    ensures
        said_by(Seq::empty()) == (HolderView {
            machine: Seq::empty(),
            user: Seq::empty(),
            pid: Seq::empty(),
            since: Seq::empty(),
        }),
        said_by(lines.push(line)) == with_line(said_by(lines), line),
        holder_in(seq!['\u{feff}'] + file) == holder_in(file),
        file.len() == 0 || file[0] != '\u{feff}' ==> holder_in(file) == said_by(text::split_on(file, '\n')),
{
    assert(lines.push(line).drop_last() =~= lines);
    text::law_taking_characters_away(file, '\u{feff}');
}

/// Who holds the lock, in words: the machine with the user, whichever of
/// them is known, since when; and that nothing is known.
pub proof fn law_who_holds_the_lock(h: HolderView)
    ensures
        h.machine.len() > 0 && h.user.len() > 0 ==> who(h) == h.machine + " ("@ + h.user + ")"@,
        h.machine.len() > 0 && h.user.len() == 0 ==> who(h) == h.machine,
        h.machine.len() == 0 ==> who(h) == h.user,
        who(h).len() > 0 && h.since.len() > 0 ==> described(h) == NoticeView::Plain(who(h) + ", "@ + h.since),
        who(h).len() > 0 && h.since.len() == 0 ==> described(h) == NoticeView::Plain(who(h)),
        who(h).len() == 0 && h.since.len() > 0 ==> described(h) == NoticeView::Plain(h.since),
        who(h).len() == 0 && h.since.len() == 0 ==> described(h) == NoticeView::Said(message::said("data-lock-unknown"@)),
{
}

} // verus!
