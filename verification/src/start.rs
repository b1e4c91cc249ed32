//! Starting NativeTerm: the command line, which Terminal to drive, and what
//! the start checks found.

use vstd::prelude::*;

use crate::message;
use crate::message::Message;
use crate::message::MessageView;
use crate::message::Notice;
use crate::message::NoticeView;
use crate::text;

verus! {

/// `state.db` setting: where the floating button was (`x,y`).
pub const BUTTON_SETTING: &'static str = "fab";

/// `state.db` setting: the window's placement.
pub const WINDOW_SETTING: &'static str = "window";

/// What the command line says.
#[derive(Clone, Debug, PartialEq, Eq)]
pub struct Options {
    /// A portable Terminal's folder.
    pub terminal_dir: Option<String>,
    pub ssh_dir: String,
    pub data_dir: Option<String>,
    /// Started by a restored tab: exits quietly if NativeTerm is already
    /// running.
    pub from_shim: bool,
}

/// What the command line says so far.
pub struct Read {
    pub terminal_dir: Option<Seq<char>>,
    pub ssh_dir: Option<Seq<char>>,
    pub data_dir: Option<Seq<char>>,
    pub from_shim: bool,
}

/// What the arguments say, on top of what is known before them.
pub open spec fn read_args(args: Seq<Seq<char>>, so_far: Read) -> Result<Read, Seq<char>>
    decreases args.len(),
{
    if args.len() == 0 {
        Ok(so_far)
    } else {
        let arg = args[0];
        if arg == "--from-shim"@ {
            read_args(args.skip(1), Read { from_shim: true, ..so_far })
        } else if arg != "--terminal-dir"@ && arg != "--ssh-dir"@ && arg != "--data-dir"@ {
            Err("unknown argument "@ + arg)
        } else if args.len() < 2 {
            Err(arg + " needs a value"@)
        } else if arg == "--terminal-dir"@ {
            read_args(args.skip(2), Read { terminal_dir: Some(args[1]), ..so_far })
        } else if arg == "--ssh-dir"@ {
            read_args(args.skip(2), Read { ssh_dir: Some(args[1]), ..so_far })
        } else {
            read_args(args.skip(2), Read { data_dir: Some(args[1]), ..so_far })
        }
    }
}

/// What the command line says, or what is wrong with it. Before the
/// arguments come the Terminal's folder of the environment and the user's
/// own ssh folder.
pub open spec fn options_for(args: Seq<Seq<char>>, terminal_dir: Option<Seq<char>>, ssh_dir: Option<Seq<char>>) -> Result<
    Read,
    Seq<char>,
> {
    match read_args(args, Read { terminal_dir, ssh_dir, data_dir: None, from_shim: false }) {
        Ok(r) => if r.ssh_dir is Some {
            Ok(r)
        } else {
            Err("the home folder is not known"@)
        },
        Err(e) => Err(e),
    }
}

/// What the options say.
pub open spec fn options_view(o: Options) -> Read {
    Read {
        terminal_dir: text::optional(o.terminal_dir),
        ssh_dir: Some(o.ssh_dir@),
        data_dir: text::optional(o.data_dir),
        from_shim: o.from_shim,
    }
}

/// Reads the command line (without the program's name).
pub fn options(args: &[String], terminal_dir: Option<String>, ssh_dir: Option<String>) -> (r: Result<Options, String>)
    ensures
        match r {
            Ok(o) => options_for(text::texts(args@), text::optional(terminal_dir), text::optional(ssh_dir)) == Ok::<
                Read,
                Seq<char>,
            >(options_view(o)),
            Err(e) => options_for(text::texts(args@), text::optional(terminal_dir), text::optional(ssh_dir)) == Err::<
                Read,
                Seq<char>,
            >(e@),
        },
{
    let ghost all = text::texts(args@);
    let ghost start = Read {
        terminal_dir: text::optional(terminal_dir),
        ssh_dir: text::optional(ssh_dir),
        data_dir: None,
        from_shim: false,
    };
    let mut terminal = terminal_dir;
    let mut home = ssh_dir;
    let mut data_dir: Option<String> = None;
    let mut from_shim = false;
    let mut i: usize = 0;
    proof {
        assert(all.skip(0) =~= all);
        assert(all.len() == args@.len());
    }
    while i < args.len()
        invariant
            i <= args@.len(),
            all == text::texts(args@),
            all.len() == args@.len(),
            start == (Read {
                terminal_dir: text::optional(terminal_dir),
                ssh_dir: text::optional(ssh_dir),
                data_dir: None,
                from_shim: false,
            }),
            read_args(all, start) == read_args(
                all.skip(i as int),
                Read {
                    terminal_dir: text::optional(terminal),
                    ssh_dir: text::optional(home),
                    data_dir: text::optional(data_dir),
                    from_shim,
                },
            ),
        decreases args@.len() - i,
    {
        proof {
            assert(all.skip(i as int)[0] == args@[i as int]@);
            assert(all.skip(i as int).skip(1) =~= all.skip(i + 1));
        }
        let arg = &args[i];
        if text::same(arg, "--from-shim") {
            from_shim = true;
            i += 1;
            continue;
        }
        let for_terminal = text::same(arg, "--terminal-dir");
        let ssh = text::same(arg, "--ssh-dir");
        let data = text::same(arg, "--data-dir");
        if !for_terminal && !ssh && !data {
            return Err(text::plus("unknown argument ", arg));
        }
        if args.len() - i < 2 {
            return Err(text::plus(arg, " needs a value"));
        }
        let value = text::owned(&args[i + 1]);
        proof {
            assert(all.skip(i as int)[1] == args@[i + 1]@);
            assert(all.skip(i as int).skip(2) =~= all.skip(i + 2));
        }
        if for_terminal {
            terminal = Some(value);
        } else if ssh {
            home = Some(value);
        } else {
            data_dir = Some(value);
        }
        i += 2;
    }
    proof {
        assert(all.skip(i as int).len() == 0);
    }
    match home {
        Some(ssh_dir) => Ok(Options { terminal_dir: terminal, ssh_dir, data_dir, from_shim }),
        None => Err(text::owned("the home folder is not known")),
    }
}

/// A Terminal that was found.
#[derive(Clone, Debug, PartialEq, Eq)]
pub struct Terminal {
    pub dir: String,
    /// Its folder is the chosen one, as paths are compared.
    pub same: bool,
}

/// The Terminal to drive.
#[derive(Clone, Copy, Debug, PartialEq, Eq, Structural)]
pub enum Choice {
    /// The one that the command line names.
    Named,
    /// One that was found.
    Found(usize),
    /// The folder chosen in the settings, which is a Terminal too.
    ByHand,
}

/// A Terminal is the chosen one.
pub open spec fn is_chosen(t: Terminal, want: Seq<char>) -> bool {
    t.same || text::same_but_case(t.dir@, want)
}

/// Where the chosen Terminal is among those found.
pub open spec fn chosen_place(found: Seq<Terminal>, want: Seq<char>) -> Option<int>
    decreases found.len(),
{
    if found.len() == 0 {
        None
    } else {
        match chosen_place(found.drop_last(), want) {
            Some(i) => Some(i),
            None => if is_chosen(found.last(), want) {
                Some(found.len() - 1)
            } else {
                None
            },
        }
    }
}

proof fn lemma_chosen_prefix(found: Seq<Terminal>, n: int, want: Seq<char>)
    requires
        0 <= n <= found.len(),
        chosen_place(found.take(n), want) is Some,
    ensures
        chosen_place(found, want) == chosen_place(found.take(n), want),
    decreases found.len() - n,
{
    if n < found.len() {
        assert(found.take(n + 1).drop_last() =~= found.take(n));
        lemma_chosen_prefix(found, n + 1, want);
    } else {
        assert(found.take(n) =~= found);
    }
}

fn find_chosen(found: &[Terminal], want: &str) -> (r: Option<usize>)
    ensures
        match r {
            Some(i) => chosen_place(found@, want@) == Some(i as int) && i < found@.len(),
            None => chosen_place(found@, want@) is None,
        },
{
    let wanted = text::chars_of(want);
    let mut i: usize = 0;
    proof {
        assert(found@.take(0) =~= Seq::empty());
    }
    while i < found.len()
        invariant
            i <= found@.len(),
            wanted@ == want@,
            chosen_place(found@.take(i as int), want@) is None,
        decreases found@.len() - i,
    {
        proof {
            assert(found@.take(i + 1).drop_last() =~= found@.take(i as int));
            assert(found@.take(i + 1).last() == found@[i as int]);
        }
        if found[i].same || text::same_ignoring_case(&text::chars_of(&found[i].dir), &wanted) {
            proof {
                lemma_chosen_prefix(found@, i + 1, want@);
            }
            return Some(i);
        }
        i += 1;
    }
    proof {
        assert(found@.take(i as int) =~= found@);
    }
    None
}

/// The Terminal to drive: the one that the command line names, the one that
/// was chosen in the settings, or the first one found. Several installs are
/// each their own, so one has to be picked; when there is a choice and none
/// was made, that is said.
pub open spec fn picked(
    named: Option<(Seq<char>, Option<Seq<char>>)>,
    chosen: Option<(Seq<char>, bool)>,
    found: Seq<Terminal>,
) -> (Result<Choice, NoticeView>, Option<MessageView>) {
    match named {
        Some((dir, wrong)) => (
            match wrong {
                Some(e) => Err(message::told(dir, e)),
                None => Ok(Choice::Named),
            },
            None,
        ),
        None => match chosen {
            Some((want, is_terminal)) => match chosen_place(found, want) {
                Some(i) => (Ok(Choice::Found(i as usize)), None),
                None => if is_terminal {
                    (Ok(Choice::ByHand), None)
                } else if found.len() == 0 {
                    (Err(NoticeView::Said(message::said("fatal-no-terminal"@))), None)
                } else {
                    (
                        Ok(Choice::Found(0)),
                        Some(
                            message::said("notice-terminal-choice-gone"@).text("chosen"@, want).text(
                                "dir"@,
                                found[0].dir@,
                            ),
                        ),
                    )
                },
            },
            None => if found.len() == 0 {
                (Err(NoticeView::Said(message::said("fatal-no-terminal"@))), None)
            } else {
                (
                    Ok(Choice::Found(0)),
                    if found.len() > 1 {
                        Some(
                            message::said("notice-terminal-several"@).number("count"@, found.len() as int).text(
                                "dir"@,
                                found[0].dir@,
                            ),
                        )
                    } else {
                        None
                    },
                )
            },
        },
    }
}

/// What was picked.
pub open spec fn choice_view(r: Result<Choice, Notice>) -> Result<Choice, NoticeView> {
    match r {
        Ok(c) => Ok(c),
        Err(n) => Err(n@),
    }
}

/// What is said.
pub open spec fn optional_message(m: Option<Message>) -> Option<MessageView> {
    match m {
        Some(m) => Some(m@),
        None => None,
    }
}

/// Picks the Terminal to drive: `named` is the folder of the command line
/// and what is wrong with it, `chosen` the folder of the settings and
/// whether it is a Terminal.
pub fn choose_install(
    named: &Option<(String, Option<String>)>,
    chosen: &Option<(String, bool)>,
    found: &[Terminal],
) -> (r: (Result<Choice, Notice>, Option<Message>))
    ensures
        (choice_view(r.0), optional_message(r.1)) == picked(
            match *named {
                Some((d, w)) => Some((d@, text::optional(w))),
                None => None,
            },
            match *chosen {
                Some((w, t)) => Some((w@, t)),
                None => None,
            },
            found@,
        ),
        r.0 matches Ok(Choice::Found(i)) ==> i < found@.len(),
{
    if let Some((dir, wrong)) = named {
        return match wrong {
            Some(e) => (Err(message::tell(dir, e)), None),
            None => (Ok(Choice::Named), None),
        };
    }
    match chosen {
        Some((want, is_terminal)) => {
            if let Some(i) = find_chosen(found, want) {
                return (Ok(Choice::Found(i)), None);
            }
            if *is_terminal {
                (Ok(Choice::ByHand), None)
            } else if found.len() == 0 {
                (Err(Notice::Said(Message::new("fatal-no-terminal"))), None)
            } else {
                let m = Message::new("notice-terminal-choice-gone").text("chosen", want).text("dir", &found[0].dir);
                (Ok(Choice::Found(0)), Some(m))
            }
        },
        None => {
            if found.len() == 0 {
                (Err(Notice::Said(Message::new("fatal-no-terminal"))), None)
            } else if found.len() > 1 {
                let m = Message::new("notice-terminal-several").number("count", found.len() as i128).text(
                    "dir",
                    &found[0].dir,
                );
                (Ok(Choice::Found(0)), Some(m))
            } else {
                (Ok(Choice::Found(0)), None)
            }
        },
    }
}

/// A choice that is gone, and nothing else about a choice that was made, is
/// said; without a Terminal there is the error alone.
pub proof fn law_a_gone_choice_is_said_once(want: Seq<char>, found: Seq<Terminal>)
    requires
        chosen_place(found, want) is None,
    ensures
        found.len() > 0 ==> picked(None, Some((want, false)), found).1 is Some,
        picked(None, Some((want, true)), found) == (
            Ok::<Choice, NoticeView>(Choice::ByHand),
            None::<MessageView>,
        ),
        found.len() == 0 ==> picked(None, Some((want, false)), found).0 is Err && picked(
            None,
            Some((want, false)),
            found,
        ).1 is None,
{
}

/// What the start checks found about the Terminal that was picked.
pub struct Checks {
    /// Its version, where that is too old.
    pub too_old: Option<String>,
    /// The oldest version that works.
    pub oldest: (u32, u32),
    /// The alias that Windows makes for it is off.
    pub alias_off: bool,
    /// What is started then.
    pub launcher: Option<String>,
    pub dir: String,
}

/// `major.minor`.
pub open spec fn version_words(v: (u32, u32)) -> Seq<char> {
    text::decimal(v.0 as nat) + "."@ + text::decimal(v.1 as nat)
}

/// What is said of the Terminal that was picked.
pub open spec fn checks_say(c: Checks) -> Seq<MessageView> {
    let a = match c.too_old {
        Some(v) => seq![
            message::said("notice-terminal-old"@).text("version"@, v@).text("oldest"@, version_words(c.oldest)),
        ],
        None => Seq::empty(),
    };
    if c.alias_off {
        a.push(
            match c.launcher {
                Some(p) => message::said("notice-wt-alias-off"@).text("path"@, p@),
                None => message::said("notice-wt-missing"@).text("dir"@, c.dir@),
            },
        )
    } else {
        a
    }
}

/// What is said of the Terminal that was picked.
pub fn install_notices(c: &Checks) -> (r: Vec<Message>)
    ensures
        message::messages(r@) == checks_say(*c),
{
    let mut r: Vec<Message> = Vec::new();
    if let Some(v) = &c.too_old {
        let mut oldest = text::decimal_chars(c.oldest.0 as u128);
        text::append(&mut oldest, &text::chars_of("."));
        let minor = text::decimal_chars(c.oldest.1 as u128);
        text::append(&mut oldest, &minor);
        r.push(Message::new("notice-terminal-old").text("version", v).text("oldest", &text::string_of(&oldest)));
    }
    if c.alias_off {
        match &c.launcher {
            Some(p) => {
                r.push(Message::new("notice-wt-alias-off").text("path", p));
            },
            None => {
                r.push(Message::new("notice-wt-missing").text("dir", &c.dir));
            },
        }
    }
    proof {
        assert(message::messages(r@) =~= checks_say(*c));
    }
    r
}

/// What starting found out about the data, before a Terminal is picked.
pub enum Data {
    Open,
    /// `state.db` couldn't be opened: its path, and why.
    NoDatabase(String, String),
    /// There is no data directory.
    NoFolder(String),
}

/// What starting found out about the settings.
pub enum Kept {
    Read,
    /// The file couldn't be read: its path, and why.
    Unreadable(String, String),
    /// It couldn't be written: its path, and why.
    NotWritten(String, String),
}

/// Terminal and NativeTerm differ in being elevated.
#[derive(Clone, Copy, Debug, PartialEq, Eq, Structural)]
pub enum Mismatch {
    WeAreElevated,
    TerminalElevated,
}

/// What starting found out.
pub struct Found {
    pub data: Data,
    pub kept: Kept,
    /// Another NativeTerm has the data directory.
    pub busy: Option<String>,
    /// The shim is not there.
    pub no_shim: Option<String>,
}

/// What is said of the data before a Terminal is picked, in this order.
pub open spec fn data_says(f: Found) -> Seq<MessageView> {
    let a = match f.data {
        Data::Open => Seq::empty(),
        Data::NoDatabase(path, e) => seq![
            message::said("notice-db-unavailable"@).text("path"@, path@).text("error"@, e@),
        ],
        Data::NoFolder(e) => seq![message::said("notice-no-data-dir"@).text("error"@, e@)],
    };
    let b = match f.kept {
        Kept::Read => a,
        Kept::Unreadable(path, e) => a.push(
            message::said("notice-settings-unreadable"@).text("path"@, path@).text("error"@, e@),
        ),
        Kept::NotWritten(path, e) => a.push(
            message::said("notice-settings-not-written"@).text("path"@, path@).text("error"@, e@),
        ),
    };
    let c = match f.busy {
        Some(who) => b.push(message::said("notice-data-dir-busy"@).text("holder"@, who@)),
        None => b,
    };
    match f.no_shim {
        Some(path) => c.push(message::said("notice-shim-missing"@).text("path"@, path@)),
        None => c,
    }
}

/// What is said of the data before a Terminal is picked.
pub fn data_notices(f: &Found) -> (r: Vec<Message>)
    ensures
        message::messages(r@) == data_says(*f),
{
    let mut r: Vec<Message> = Vec::new();
    match &f.data {
        Data::Open => {},
        Data::NoDatabase(path, e) => {
            r.push(Message::new("notice-db-unavailable").text("path", path).text("error", e));
        },
        Data::NoFolder(e) => {
            r.push(Message::new("notice-no-data-dir").text("error", e));
        },
    }
    match &f.kept {
        Kept::Read => {},
        Kept::Unreadable(path, e) => {
            r.push(Message::new("notice-settings-unreadable").text("path", path).text("error", e));
        },
        Kept::NotWritten(path, e) => {
            r.push(Message::new("notice-settings-not-written").text("path", path).text("error", e));
        },
    }
    if let Some(who) = &f.busy {
        r.push(Message::new("notice-data-dir-busy").text("holder", who));
    }
    if let Some(path) = &f.no_shim {
        r.push(Message::new("notice-shim-missing").text("path", path));
    }
    proof {
        assert(message::messages(r@) =~= data_says(*f));
    }
    r
}

/// What is said where Terminal and NativeTerm differ in being elevated.
pub fn mismatch_notice(m: Option<Mismatch>) -> (r: Option<Message>)
    ensures
        optional_message(r) == (match m {
            Some(Mismatch::WeAreElevated) => Some(message::said("notice-we-are-elevated"@)),
            Some(Mismatch::TerminalElevated) => Some(message::said("notice-terminal-elevated"@)),
            None => None,
        }),
{
    match m {
        Some(Mismatch::WeAreElevated) => Some(Message::new("notice-we-are-elevated")),
        Some(Mismatch::TerminalElevated) => Some(Message::new("notice-terminal-elevated")),
        None => None,
    }
}

/// How serving the pipe went.
pub enum Served {
    Yes,
    /// Another NativeTerm serves it.
    InUse,
    No(String),
}

/// What becomes of the start.
pub enum Start {
    /// NativeTerm runs, with a word where the pipe isn't served.
    Run(Option<Message>),
    /// Another NativeTerm serves the pipe; `quiet`: nothing is shown.
    AlreadyRunning { quiet: bool },
}

/// What becomes of the start.
pub fn start(served: &Served, from_shim: bool) -> (r: Start)
    ensures
        match served {
            Served::Yes => r matches Start::Run(m) && m is None,
            Served::InUse => r == (Start::AlreadyRunning { quiet: from_shim }),
            Served::No(e) => r matches Start::Run(m) && optional_message(m) == Some(
                message::said("notice-no-pipe"@).text("error"@, e@),
            ),
        },
{
    match served {
        Served::Yes => Start::Run(None),
        Served::InUse => Start::AlreadyRunning { quiet: from_shim },
        Served::No(e) => Start::Run(Some(Message::new("notice-no-pipe").text("error", e))),
    }
}

/// The two numbers of the floating button's position, as texts: what is
/// before the first comma and what is after it, without the white space
/// around them.
pub fn position_parts(setting: &str) -> (r: Option<(String, String)>)
    ensures
        match text::first_at(setting@, ',') {
            Some(i) => r matches Some(p) && p.0@ == text::trimmed(setting@.take(i)) && p.1@ == text::trimmed(
                setting@.skip(i + 1),
            ),
            None => r is None,
        },
{
    let chars = text::chars_of(setting);
    let n: usize = chars.len();
    match text::find_char(&chars, ',') {
        Some(i) => {
            let a = text::part(&chars, 0, i);
            let b = text::part(&chars, i + 1, n);
            proof {
                assert(a@ =~= setting@.take(i as int));
                assert(b@ =~= setting@.skip(i + 1));
            }
            Some((text::string_of(&text::trim(&a)), text::string_of(&text::trim(&b))))
        },
        None => None,
    }
}

/// How arguments are read, the last of several counting: each of the three
/// folders takes the argument after it, and anything else is refused.
pub proof fn law_reading_arguments(rest: Seq<Seq<char>>, value: Seq<char>, other: Seq<char>, r: Read)
    ensures
        read_args(Seq::empty(), r) == Ok::<Read, Seq<char>>(r),
        read_args(seq!["--from-shim"@] + rest, r) == read_args(rest, Read { from_shim: true, ..r }),
        read_args(seq!["--terminal-dir"@, value] + rest, r) == read_args(rest, Read { terminal_dir: Some(value), ..r }),
        read_args(seq!["--ssh-dir"@, value] + rest, r) == read_args(rest, Read { ssh_dir: Some(value), ..r }),
        read_args(seq!["--data-dir"@, value] + rest, r) == read_args(rest, Read { data_dir: Some(value), ..r }),
        read_args(seq!["--terminal-dir"@], r) == Err::<Read, Seq<char>>("--terminal-dir"@ + " needs a value"@),
        read_args(seq!["--ssh-dir"@], r) == Err::<Read, Seq<char>>("--ssh-dir"@ + " needs a value"@),
        read_args(seq!["--data-dir"@], r) == Err::<Read, Seq<char>>("--data-dir"@ + " needs a value"@),
        other != "--from-shim"@ && other != "--terminal-dir"@ && other != "--ssh-dir"@ && other != "--data-dir"@ ==> read_args(
            seq![other] + rest,
            r,
        ) == Err::<Read, Seq<char>>("unknown argument "@ + other),
{
    reveal_strlit("--from-shim");
    reveal_strlit("--terminal-dir");
    reveal_strlit("--ssh-dir");
    reveal_strlit("--data-dir");
    assert("--from-shim"@[2] == 'f' && "--terminal-dir"@[2] == 't' && "--ssh-dir"@[2] == 's' && "--data-dir"@[2] == 'd');
    assert((seq!["--from-shim"@] + rest).skip(1) =~= rest);
    assert((seq!["--terminal-dir"@, value] + rest).skip(2) =~= rest);
    assert((seq!["--ssh-dir"@, value] + rest).skip(2) =~= rest);
    assert((seq!["--data-dir"@, value] + rest).skip(2) =~= rest);
    assert((seq!["--from-shim"@] + rest)[0] == "--from-shim"@);
    assert((seq!["--terminal-dir"@, value] + rest)[0] == "--terminal-dir"@ && (seq!["--terminal-dir"@, value] + rest)[1]
        == value);
    assert((seq!["--ssh-dir"@, value] + rest)[0] == "--ssh-dir"@ && (seq!["--ssh-dir"@, value] + rest)[1] == value);
    assert((seq!["--data-dir"@, value] + rest)[0] == "--data-dir"@ && (seq!["--data-dir"@, value] + rest)[1] == value);
    assert((seq![other] + rest)[0] == other);
}

/// What is not named is what it was before; without a folder for SSH there
/// is no start.
pub proof fn law_start_options(args: Seq<Seq<char>>, terminal: Option<Seq<char>>, ssh: Option<Seq<char>>)
    ensures
        ({
            let read = read_args(args, Read { terminal_dir: terminal, ssh_dir: ssh, data_dir: None, from_shim: false });
            let o = options_for(args, terminal, ssh);
            &&& read matches Err(e) ==> o == Err::<Read, Seq<char>>(e)
            &&& read matches Ok(r) ==> (r.ssh_dir is Some ==> o == Ok::<Read, Seq<char>>(r)) && (r.ssh_dir is None ==> o
                == Err::<Read, Seq<char>>("the home folder is not known"@))
        }),
{
}

/// The terminal chosen before is the first found that is the same folder or
/// has its name in any case.
pub proof fn law_the_terminal_chosen(found: Seq<Terminal>, want: Seq<char>)
    ensures
        chosen_place(found, want) matches Some(i) ==> 0 <= i < found.len() && (found[i].same || text::same_but_case(
            found[i].dir@,
            want,
        )) && forall|j: int| 0 <= j < i ==> !(#[trigger] found[j]).same && !text::same_but_case(found[j].dir@, want),
        chosen_place(found, want) is None ==> forall|j: int|
            0 <= j < found.len() ==> !(#[trigger] found[j]).same && !text::same_but_case(found[j].dir@, want),
    decreases found.len(),
{
    if found.len() > 0 {
        law_the_terminal_chosen(found.drop_last(), want);
        assert forall|j: int| 0 <= j < found.len() - 1 implies found.drop_last()[j] == #[trigger] found[j] by {}
    }
}

/// Which terminal is used: the one named, else the one chosen before, else
/// the first found; what is said where several are found or the choice is
/// gone.
pub proof fn law_which_terminal(dir: Seq<char>, wrong: Seq<char>, want: Seq<char>, is_terminal: bool, chosen: Option<(Seq<char>, bool)>, found: Seq<Terminal>)
    ensures
        picked(Some((dir, None)), chosen, found) == (Ok::<Choice, NoticeView>(Choice::Named), None::<MessageView>),
        picked(Some((dir, Some(wrong))), chosen, found) == (
            Err::<Choice, NoticeView>(NoticeView::Plain(dir + ": "@ + wrong)),
            None::<MessageView>,
        ),
        chosen_place(found, want) matches Some(i) ==> picked(None, Some((want, is_terminal)), found) == (
            Ok::<Choice, NoticeView>(Choice::Found(i as usize)),
            None::<MessageView>,
        ),
        chosen_place(found, want) is None && found.len() > 0 ==> picked(None, Some((want, false)), found) == (
            Ok::<Choice, NoticeView>(Choice::Found(0)),
            Some(message::said("notice-terminal-choice-gone"@).text("chosen"@, want).text("dir"@, found[0].dir@)),
        ),
        chosen_place(found, want) is None && found.len() == 0 ==> picked(None, Some((want, false)), found).0 == Err::<
            Choice,
            NoticeView,
        >(NoticeView::Said(message::said("fatal-no-terminal"@))),
        found.len() == 0 ==> picked(None, None, found) == (
            Err::<Choice, NoticeView>(NoticeView::Said(message::said("fatal-no-terminal"@))),
            None::<MessageView>,
        ),
        found.len() == 1 ==> picked(None, None, found) == (Ok::<Choice, NoticeView>(Choice::Found(0)), None::<MessageView>),
        found.len() >= 2 ==> picked(None, None, found) == (
            Ok::<Choice, NoticeView>(Choice::Found(0)),
            Some(
                message::said("notice-terminal-several"@).number("count"@, found.len() as int).text("dir"@, found[0].dir@),
            ),
        ),
{
}

/// What is said of the terminal: that it is too old, and that its launcher
/// is off or missing.
pub proof fn law_what_is_said_of_the_terminal(c: Checks)
    ensures
        version_words(c.oldest) == text::decimal(c.oldest.0 as nat) + "."@ + text::decimal(c.oldest.1 as nat),
        ({
            let said = checks_say(c);
            &&& said.len() == (if c.too_old is Some { 1int } else { 0 }) + (if c.alias_off { 1int } else { 0 })
            &&& c.too_old matches Some(v) ==> said[0] == message::said("notice-terminal-old"@).text("version"@, v@).text(
                "oldest"@,
                version_words(c.oldest),
            )
            &&& c.alias_off ==> (c.launcher matches Some(p) ==> said.last() == message::said("notice-wt-alias-off"@).text(
                "path"@,
                p@,
            ))
            &&& c.alias_off && c.launcher is None ==> said.last() == message::said("notice-wt-missing"@).text("dir"@, c.dir@)
        }),
{
}

/// What is said of the data: one line for each thing that is wrong, in this
/// order.
pub proof fn law_what_is_said_of_the_data(f: Found)
    ensures
        ({
            let said = data_says(f);
            let d = if f.data is Open { 0int } else { 1 };
            let k = if f.kept is Read { 0int } else { 1 };
            let b = if f.busy is Some { 1int } else { 0 };
            let s = if f.no_shim is Some { 1int } else { 0 };
            &&& said.len() == d + k + b + s
            &&& f.data matches Data::NoDatabase(p, e) ==> said[0] == message::said("notice-db-unavailable"@).text(
                "path"@,
                p@,
            ).text("error"@, e@)
            &&& f.data matches Data::NoFolder(e) ==> said[0] == message::said("notice-no-data-dir"@).text("error"@, e@)
            &&& f.kept matches Kept::Unreadable(p, e) ==> said[d] == message::said("notice-settings-unreadable"@).text(
                "path"@,
                p@,
            ).text("error"@, e@)
            &&& f.kept matches Kept::NotWritten(p, e) ==> said[d] == message::said("notice-settings-not-written"@).text(
                "path"@,
                p@,
            ).text("error"@, e@)
            &&& f.busy matches Some(who) ==> said[d + k] == message::said("notice-data-dir-busy"@).text("holder"@, who@)
            &&& f.no_shim matches Some(p) ==> said.last() == message::said("notice-shim-missing"@).text("path"@, p@)
        }),
{
}

} // verus!
