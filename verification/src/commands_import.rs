//! SecureCRT's button bars into the command library: the send-string
//! buttons become commands grouped by their bar; everything else is listed
//! in the preview with the reason.

use vstd::prelude::*;

use crate::commands;
use crate::commands::Command;
use crate::commands::CommandView;
use crate::commands::Library;
use crate::import;
use crate::import::Detail;
use crate::import::DetailView;
use crate::import::Line;
use crate::import::LineView;
use crate::message;
use crate::message::Message;
use crate::message::MessageView;
use crate::text;

verus! {

/// A button that becomes a command.
#[derive(Clone, Debug, PartialEq, Eq)]
pub struct Imported {
    pub command: Command,
}

/// The commands of a list.
pub open spec fn imported(v: Seq<Imported>) -> Seq<CommandView> {
    v.map_values(|i: Imported| i.command@)
}

/// Why a button becomes no command.
#[derive(Clone, Debug, PartialEq, Eq)]
pub enum Why {
    /// It runs a function of SecureCRT.
    Function(String),
    /// Its text has a code that SecureCRT fills in.
    Substitution(char),
    Empty,
}

/// What a button becomes.
#[derive(Clone, Debug, PartialEq, Eq)]
pub enum Converted {
    Command { text: String, enter: bool },
    Skipped(Why),
}

/// A button of a button bar.
#[derive(Clone, Debug, PartialEq, Eq)]
pub struct Button {
    pub bar: String,
    pub label: String,
    pub converted: Converted,
}

/// `text` without the byte order mark it may begin with.
pub fn without_mark(file: &str) -> (r: String)
    ensures
        r@ == (if file@.len() > 0 && file@[0] == '\u{feff}' {
            file@.skip(1)
        } else {
            file@
        }),
{
    let chars = text::chars_of(file);
    if chars.len() > 0 && chars[0] == '\u{feff}' {
        let rest = text::part(&chars, 1, chars.len());
        proof {
            assert(rest@ =~= file@.skip(1));
        }
        text::string_of(&rest)
    } else {
        text::string_of(&chars)
    }
}

/// The line for a button bar file that could not be read.
pub fn unreadable(error: &str) -> (r: Line)
    ensures
        r@ == import::a_line(message::said("buttons-unreadable"@).text("error"@, error@), true, Seq::empty()),
{
    let details: Vec<Detail> = Vec::new();
    proof {
        assert(details@.map_values(|d: Detail| d@) =~= Seq::empty());
    }
    import::line(Message::new("buttons-unreadable").text("error", error), true, details)
}

/// The reason why a button becomes no command.
pub open spec fn reason(why: Why) -> MessageView {
    match why {
        Why::Function(f) => message::said("buttons-why-function"@).text("function"@, f@),
        Why::Substitution(c) => message::said("buttons-why-substitution"@).text("code"@, seq!['\\', c]),
        Why::Empty => message::said("buttons-why-empty"@),
    }
}

fn say_why(why: &Why) -> (r: Message)
    ensures
        r@ == reason(*why),
{
    match why {
        Why::Function(f) => Message::new("buttons-why-function").text("function", f),
        Why::Substitution(c) => {
            let mut code: Vec<char> = Vec::new();
            code.push('\\');
            code.push(*c);
            let code = text::string_of(&code);
            proof {
                assert(code@ =~= seq!['\\', *c]);
            }
            Message::new("buttons-why-substitution").text("code", &code)
        },
        Why::Empty => Message::new("buttons-why-empty"),
    }
}

/// A bar and a name in it.
pub open spec fn in_bar(bar: Seq<char>, name: Seq<char>) -> Seq<char> {
    bar + " / "@ + name
}

fn place(bar: &str, name: &str) -> (r: String)
    ensures
        r@ == in_bar(bar@, name@),
{
    let start = text::plus(bar, " / ");
    text::plus(&start, name)
}

/// What the buttons become.
pub open spec fn commands_of(buttons: Seq<Button>) -> Seq<CommandView>
    decreases buttons.len(),
{
    if buttons.len() == 0 {
        Seq::empty()
    } else {
        let b = buttons.last();
        match b.converted {
            Converted::Command { text, enter } => commands_of(buttons.drop_last()).push(
                CommandView { name: b.label@, text: text@, enter, group: Some(b.bar@) },
            ),
            Converted::Skipped(_) => commands_of(buttons.drop_last()),
        }
    }
}

/// What is listed of the buttons that become commands.
pub open spec fn found(buttons: Seq<Button>) -> Seq<DetailView>
    decreases buttons.len(),
{
    if buttons.len() == 0 {
        Seq::empty()
    } else {
        let b = buttons.last();
        match b.converted {
            Converted::Command { text, enter } => found(buttons.drop_last()).push(
                DetailView { text: in_bar(b.bar@, b.label@), why: None },
            ),
            Converted::Skipped(_) => found(buttons.drop_last()),
        }
    }
}

/// What is listed of the buttons that become none: the reason, never the
/// text, which may be a password.
pub open spec fn skipped(buttons: Seq<Button>) -> Seq<DetailView>
    decreases buttons.len(),
{
    if buttons.len() == 0 {
        Seq::empty()
    } else {
        let b = buttons.last();
        match b.converted {
            Converted::Command { text, enter } => skipped(buttons.drop_last()),
            Converted::Skipped(why) => skipped(buttons.drop_last()).push(
                DetailView { text: in_bar(b.bar@, b.label@), why: Some(reason(why)) },
            ),
        }
    }
}

/// The bars, each once, in the order of their first button.
pub open spec fn bars(buttons: Seq<Button>) -> Seq<Seq<char>>
    decreases buttons.len(),
{
    if buttons.len() == 0 {
        Seq::empty()
    } else {
        let rest = bars(buttons.drop_last());
        if rest.contains(buttons.last().bar@) {
            rest
        } else {
            rest.push(buttons.last().bar@)
        }
    }
}

/// The preview's lines about the buttons.
pub open spec fn preview(buttons: Seq<Button>, file: Seq<char>) -> Seq<LineView> {
    let first = import::a_line(
        message::said("buttons-found"@).number("commands"@, commands_of(buttons).len() as int).number(
            "bars"@,
            bars(buttons).len() as int,
        ).text("file"@, file),
        false,
        found(buttons),
    );
    if skipped(buttons).len() == 0 {
        seq![first]
    } else {
        seq![first].push(
            import::a_line(
                message::said("buttons-skipped"@).number("count"@, skipped(buttons).len() as int),
                true,
                skipped(buttons),
            ),
        )
    }
}

/// The commands that the buttons give, and preview lines about them appended
/// to `lines`. `file` is where they were found.
pub fn scan(buttons: &[Button], file: &str, lines: &mut Vec<Line>) -> (r: Vec<Imported>)
    ensures
        imported(r@) == commands_of(buttons@),
        import::lines(final(lines)@) == import::lines(old(lines)@) + preview(buttons@, file@),
{
    let ghost before = import::lines(lines@);
    let mut out: Vec<Imported> = Vec::new();
    let mut details: Vec<Detail> = Vec::new();
    let mut left: Vec<Detail> = Vec::new();
    let mut seen: Vec<String> = Vec::new();
    let ghost shown = |d: Detail| d@;
    let mut i: usize = 0;
    proof {
        assert(buttons@.take(0) =~= Seq::empty());
        assert(imported(out@) =~= Seq::empty());
        assert(details@.map_values(shown) =~= Seq::empty());
        assert(left@.map_values(shown) =~= Seq::empty());
        assert(text::texts(seen@) =~= Seq::empty());
    }
    while i < buttons.len()
        invariant
            i <= buttons@.len(),
            shown == (|d: Detail| d@),
            imported(out@) == commands_of(buttons@.take(i as int)),
            details@.map_values(shown) == found(buttons@.take(i as int)),
            left@.map_values(shown) == skipped(buttons@.take(i as int)),
            text::texts(seen@) == bars(buttons@.take(i as int)),
        decreases buttons@.len() - i,
    {
        let b = &buttons[i];
        proof {
            assert(buttons@.take(i + 1).drop_last() =~= buttons@.take(i as int));
            assert(buttons@.take(i + 1).last() == *b);
        }
        if !text::contains_text(&seen, &b.bar) {
            let ghost was = seen@;
            seen.push(b.bar.clone());
            proof {
                assert(text::texts(seen@) =~= text::texts(was).push(b.bar@));
            }
        }
        match &b.converted {
            Converted::Command { text, enter } => {
                let ghost was = out@;
                let command = Command {
                    name: b.label.clone(),
                    text: text.clone(),
                    enter: *enter,
                    group: Some(b.bar.clone()),
                };
                out.push(Imported { command });
                let ghost listed = details@;
                let detail = Detail { text: place(&b.bar, &b.label), why: None };
                details.push(detail);
                proof {
                    assert(imported(out@) =~= imported(was).push(command@));
                    assert(details@.map_values(shown) =~= listed.map_values(shown).push(detail@));
                }
            },
            Converted::Skipped(why) => {
                let ghost was = left@;
                let detail = Detail { text: place(&b.bar, &b.label), why: Some(say_why(why)) };
                left.push(detail);
                proof {
                    assert(left@.map_values(shown) =~= was.map_values(shown).push(detail@));
                }
            },
        }
        i += 1;
    }
    proof {
        assert(buttons@.take(i as int) =~= buttons@);
        assert(imported(out@).len() == out@.len());
        assert(text::texts(seen@).len() == seen@.len());
        assert(left@.map_values(shown).len() == left@.len());
    }
    let said = Message::new("buttons-found").number("commands", out.len() as i128).number(
        "bars",
        seen.len() as i128,
    ).text("file", file);
    let first = import::line(said, false, details);
    lines.push(first);
    let ghost mut count: int = 1;
    let ghost mut second: LineView = first@;
    if left.len() > 0 {
        let said = Message::new("buttons-skipped").number("count", left.len() as i128);
        let more = import::line(said, true, left);
        lines.push(more);
        proof {
            count = 2;
            second = more@;
        }
    }
    proof {
        assert(import::lines(lines@) =~= if count == 1 {
            before + seq![first@]
        } else {
            before + seq![first@].push(second)
        });
    }
    out
}

/// The text of a button that is left out is not shown: what is listed does
/// not depend on it.
pub proof fn law_skipped_text_is_not_shown(buttons: Seq<Button>)
    ensures
        skipped(buttons).len() + commands_of(buttons).len() == buttons.len(),
        found(buttons).len() == commands_of(buttons).len(),
        forall|i: int|
            0 <= i < skipped(buttons).len() ==> exists|k: int|
                0 <= k < buttons.len() && (#[trigger] skipped(buttons)[i]).text == in_bar(
                    (#[trigger] buttons[k]).bar@,
                    buttons[k].label@,
                ) && buttons[k].converted is Skipped,
    decreases buttons.len(),
{
    if buttons.len() > 0 {
        let rest = buttons.drop_last();
        law_skipped_text_is_not_shown(rest);
        assert forall|i: int| 0 <= i < skipped(buttons).len() implies exists|k: int|
            0 <= k < buttons.len() && (#[trigger] skipped(buttons)[i]).text == in_bar(
                (#[trigger] buttons[k]).bar@,
                buttons[k].label@,
            ) && buttons[k].converted is Skipped by {
            if i < skipped(rest).len() {
                assert(skipped(buttons)[i] == skipped(rest)[i]);
                let k = choose|k: int|
                    0 <= k < rest.len() && skipped(rest)[i].text == in_bar(
                        (#[trigger] rest[k]).bar@,
                        rest[k].label@,
                    ) && rest[k].converted is Skipped;
                assert(buttons[k] == rest[k]);
            } else {
                assert(buttons[buttons.len() - 1] == buttons.last());
            }
        }
    }
}

/// What is said of an addition to the library.
pub open spec fn added_text(added: int, present: int, renamed: int) -> MessageView {
    message::said("buttons-added"@).number("added"@, added).number("present"@, present).number("renamed"@, renamed)
}

/// Add the commands to the library: whether the library is to be saved, and
/// the line for the result once it is.
pub fn add(library: &mut Library, new: Vec<Imported>) -> (r: (bool, Message))
    ensures
        ({
            let m = commands::merge_all(old(library)@, imported(new@));
            &&& final(library)@ == m.commands
            &&& r.0 == (m.added > 0)
            &&& r.1@ == added_text(m.added, m.present, m.renamed.len() as int)
        }),
        final(library).path == old(library).path,
{
    let mut incoming: Vec<Command> = Vec::new();
    let mut i: usize = 0;
    while i < new.len()
        invariant
            i <= new@.len(),
            incoming@.len() == i,
            forall|j: int| 0 <= j < i ==> (#[trigger] incoming@[j])@ == new@[j].command@,
        decreases new@.len() - i,
    {
        let c = &new[i].command;
        incoming.push(
            Command {
                name: c.name.clone(),
                text: c.text.clone(),
                enter: c.enter,
                group: text::optional_copy(&c.group),
            },
        );
        i += 1;
    }
    proof {
        assert(commands::all(incoming@) =~= imported(new@));
    }
    let merged = commands::merge(library, incoming);
    proof {
        assert(text::pairs(merged.renamed@).len() == merged.renamed@.len());
    }
    let said = Message::new("buttons-added").number("added", merged.added as i128).number(
        "present",
        merged.present as i128,
    ).number("renamed", merged.renamed.len() as i128);
    (merged.added > 0, said)
}

/// A button becomes a command under its own name, in its bar's group, or is
/// left out with the reason, in its bar's name.
pub proof fn law_buttons_one_by_one(buttons: Seq<Button>, b: Button)
    ensures
        commands_of(Seq::empty()) == Seq::<CommandView>::empty(),
        skipped(Seq::empty()) == Seq::<DetailView>::empty(),
        found(Seq::empty()) == Seq::<DetailView>::empty(),
        b.converted matches Converted::Command { text, enter } ==> {
            &&& commands_of(buttons.push(b)) == commands_of(buttons).push(
                CommandView { name: b.label@, text: text@, enter, group: Some(b.bar@) },
            )
            &&& skipped(buttons.push(b)) == skipped(buttons)
            &&& found(buttons.push(b)) == found(buttons).push(DetailView { text: b.bar@ + " / "@ + b.label@, why: None })
        },
        b.converted matches Converted::Skipped(why) ==> {
            &&& commands_of(buttons.push(b)) == commands_of(buttons)
            &&& found(buttons.push(b)) == found(buttons)
            &&& skipped(buttons.push(b)) == skipped(buttons).push(
                DetailView { text: b.bar@ + " / "@ + b.label@, why: Some(reason(why)) },
            )
        },
        bars(Seq::empty()) == Seq::<Seq<char>>::empty(),
        bars(buttons).contains(b.bar@) ==> bars(buttons.push(b)) == bars(buttons),
        !bars(buttons).contains(b.bar@) ==> bars(buttons.push(b)) == bars(buttons).push(b.bar@),
{
    assert(buttons.push(b).drop_last() =~= buttons);
}

/// What is shown before an import: how much there is, and in a second line,
/// as a warning, what is left out.
pub proof fn law_preview(buttons: Seq<Button>, file: Seq<char>)
    ensures
        skipped(buttons).len() == 0 ==> preview(buttons, file).len() == 1,
        skipped(buttons).len() > 0 ==> preview(buttons, file).len() == 2 && preview(buttons, file)[1].warning && preview(
            buttons,
            file,
        )[1].details == skipped(buttons),
        !preview(buttons, file)[0].warning && preview(buttons, file)[0].details == found(buttons),
        preview(buttons, file)[0].text == message::said("buttons-found"@).number(
            "commands"@,
            commands_of(buttons).len() as int,
        ).number("bars"@, bars(buttons).len() as int).text("file"@, file),
{
}

/// What is said of commands that were added: how many, how many were there
/// and how many took another name.
pub proof fn law_what_is_said_of_commands(added: int, present: int, renamed: int)
    ensures
        added_text(added, present, renamed).key == "buttons-added"@,
        added_text(added, present, renamed).args.len() == 3,
        added_text(added, present, renamed).args[0] == ("added"@, message::ValueView::Number(added)),
        added_text(added, present, renamed).args[1] == ("present"@, message::ValueView::Number(present)),
        added_text(added, present, renamed).args[2] == ("renamed"@, message::ValueView::Number(renamed)),
{
}

} // verus!
