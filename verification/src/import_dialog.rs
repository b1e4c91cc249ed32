//! "Import from SecureCRT / PuTTY": pick the folder (SecureCRT), preview
//! what would happen, then import in the background. Here: the steps.

use vstd::prelude::*;

use crate::commands_import::Imported;
use crate::dialogs::Outcome;
use crate::import;
use crate::import::Line;
use crate::import::Origin;
use crate::import::Plan;
use crate::import::Scan;
use crate::message;
use crate::message::Message;
use crate::message::MessageView;
use crate::text;

verus! {

/// Where the import is.
pub enum Step {
    Choose,
    /// Reading the configuration in the background.
    Scanning,
    /// What would be done. `commands`: SecureCRT's send-string buttons, for
    /// the command library.
    Preview { plan: Plan, has_keys: bool, lines: Vec<Line>, commands: Vec<Imported> },
    /// Importing; how many hosts there are.
    Running { total: usize },
    Finished { text: Vec<Message>, wrote: bool },
}

/// The import dialog.
pub struct ImportDialog {
    pub origin: Origin,
    pub path: String,
    pub step: Step,
    pub error: Option<String>,
}

/// A scan's result: the sessions, the plan for them with the reasons in
/// words, and the button bars' commands with their preview lines.
pub struct Scanned {
    pub scan: Scan,
    pub plan: Plan,
    /// Host keys come along.
    pub has_keys: bool,
    pub reasons: Vec<String>,
    pub button_lines: Vec<Line>,
    pub commands: Vec<Imported>,
}

/// How an import went.
pub struct ImportOutcome {
    pub hosts: usize,
    /// Folders that were written.
    pub written: usize,
    pub keys_added: usize,
    pub keys_failed: Option<String>,
    /// Folders that failed, and why.
    pub failed: Vec<(String, String)>,
}

/// What is said of the folders that failed.
pub open spec fn failures(failed: Seq<(String, String)>) -> Seq<MessageView> {
    failed.map_values(
        |f: (String, String)| message::said("import-folder-failed"@).text("folder"@, f.0@).text("error"@, f.1@),
    )
}

/// What is said of an import that was run.
pub open spec fn said_of(o: ImportOutcome, commands: Option<MessageView>) -> Seq<MessageView> {
    seq![
        message::said("import-done"@).number("hosts"@, o.hosts as int).number("folders"@, o.written as int),
    ] + (if o.keys_added > 0 {
        seq![message::said("import-keys-added"@).number("count"@, o.keys_added as int)]
    } else {
        Seq::empty()
    }) + (match o.keys_failed {
        Some(e) => seq![message::said("import-keys-failed"@).text("error"@, e@)],
        None => Seq::empty(),
    }) + failures(o.failed@) + (match commands {
        Some(m) => seq![m],
        None => Seq::empty(),
    })
}

fn say(out: &mut Vec<Message>, m: Message)
    ensures
        message::messages(final(out)@) == message::messages(old(out)@) + seq![m@],
{
    let ghost before = message::messages(out@);
    out.push(m);
    proof {
        assert(message::messages(out@) =~= before + seq![m@]);
    }
}

fn report(o: &ImportOutcome, commands: Option<Message>) -> (r: Vec<Message>)
    ensures
        message::messages(r@) == said_of(
            *o,
            match commands {
                Some(m) => Some(m@),
                None => None,
            },
        ),
{
    let mut out: Vec<Message> = Vec::new();
    let ghost none = Seq::<MessageView>::empty();
    proof {
        assert(message::messages(out@) =~= none);
    }
    say(
        &mut out,
        Message::new("import-done").number("hosts", o.hosts as i128).number("folders", o.written as i128),
    );
    let ghost a = message::messages(out@);
    if o.keys_added > 0 {
        say(&mut out, Message::new("import-keys-added").number("count", o.keys_added as i128));
    } else {
        proof {
            assert(a + none =~= a);
        }
    }
    let ghost b = message::messages(out@);
    if let Some(e) = &o.keys_failed {
        say(&mut out, Message::new("import-keys-failed").text("error", e));
    } else {
        proof {
            assert(b + none =~= b);
        }
    }
    let ghost c = message::messages(out@);
    let ghost all = failures(o.failed@);
    let mut i: usize = 0;
    proof {
        assert(c =~= c + all.take(0));
    }
    while i < o.failed.len()
        invariant
            i <= o.failed@.len(),
            all == failures(o.failed@),
            message::messages(out@) == c + all.take(i as int),
        decreases o.failed@.len() - i,
    {
        let m = Message::new("import-folder-failed").text("folder", &o.failed[i].0).text("error", &o.failed[i].1);
        say(&mut out, m);
        proof {
            assert(all[i as int] == m@);
            assert(c + all.take(i as int) + seq![m@] =~= c + all.take(i + 1));
        }
        i += 1;
    }
    let ghost d = message::messages(out@);
    proof {
        assert(all.take(i as int) =~= all);
    }
    if let Some(m) = commands {
        say(&mut out, m);
    } else {
        proof {
            assert(d + none =~= d);
        }
    }
    proof {
        assert(message::messages(out@) =~= said_of(
            *o,
            match commands {
                Some(m) => Some(m@),
                None => None,
            },
        ));
    }
    out
}

/// What closing a finished import comes to: the tree is to be read again
/// once something was written.
pub open spec fn closed(step: Step) -> Outcome<()> {
    match step {
        Step::Finished { text, wrote } => if wrote {
            Outcome::Submit(())
        } else {
            Outcome::Cancel
        },
        _ => Outcome::Cancel,
    }
}

impl ImportDialog {
    /// SecureCRT's sessions; `path` is its configuration folder, if it is
    /// known.
    pub fn new(path: Option<String>) -> (r: ImportDialog)
        ensures
            r.origin is SecureCrt,
            r.step is Choose,
            r.error is None,
            r.path@ == (match path {
                Some(p) => p@,
                None => Seq::empty(),
            }),
    {
        let path = match path {
            Some(p) => p,
            None => {
                let none = String::new();
                proof {
                    assert(none@ =~= Seq::empty());
                }
                none
            },
        };
        ImportDialog { origin: Origin::SecureCrt, path, step: Step::Choose, error: None }
    }

    /// PuTTY's saved sessions, read right away.
    pub fn putty(path: String) -> (r: ImportDialog)
        ensures
            r.origin is Putty,
            r.step is Scanning,
            r.error is None,
            r.path == path,
    {
        let mut r = ImportDialog { origin: Origin::Putty, path, step: Step::Choose, error: None };
        let _ = r.preview();
        r
    }

    /// Start reading: the folder to read.
    pub fn preview(&mut self) -> (r: String)
        ensures
            r@ == text::trimmed(old(self).path@),
            final(self).step is Scanning,
            final(self).error is None,
            final(self).origin == old(self).origin,
            final(self).path == old(self).path,
    {
        self.error = None;
        self.step = Step::Scanning;
        text::string_of(&text::trim(&text::chars_of(&self.path)))
    }

    /// The preview of a finished scan: the sessions' lines, then the
    /// buttons'.
    pub fn scanned(&mut self, scanned: Result<Scanned, String>)
        requires
            scanned matches Ok(s) ==> s.reasons@.len() == s.plan.skipped@.len(),
        ensures
            final(self).origin == old(self).origin,
            final(self).path == old(self).path,
            match scanned {
                Ok(s) => {
                    &&& final(self).error == old(self).error
                    &&& final(self).step matches Step::Preview { plan, has_keys, lines, commands } && {
                        &&& plan == s.plan
                        &&& has_keys == s.has_keys
                        &&& commands == s.commands
                        &&& import::lines(lines@) == import::summed_up(s.scan, s.plan, text::texts(s.reasons@))
                            + import::lines(s.button_lines@)
                    }
                },
                Err(e) => {
                    &&& final(self).step is Choose
                    &&& text::optional(final(self).error) == Some(e@)
                },
            },
    {
        match scanned {
            Ok(s) => {
                let mut lines = import::summary(&s.scan, &s.plan, &s.reasons);
                let mut more = s.button_lines;
                let ghost a = lines@;
                let ghost b = more@;
                lines.append(&mut more);
                proof {
                    assert(import::lines(lines@) =~= import::lines(a) + import::lines(b));
                }
                self.step = Step::Preview { plan: s.plan, has_keys: s.has_keys, lines, commands: s.commands };
            },
            Err(e) => {
                self.error = Some(e);
                self.step = Step::Choose;
            },
        }
    }

    /// The scan ended without a word.
    pub fn scan_lost(&mut self)
        ensures
            *final(self) == (ImportDialog { step: Step::Choose, ..*old(self) }),
    {
        self.step = Step::Choose;
    }

    /// What the import button says and whether it can be chosen; none unless
    /// there is a preview.
    pub fn run_button(&self) -> (r: Option<(Message, bool)>)
        ensures
            match self.step {
                Step::Preview { plan, has_keys, lines, commands } => r matches Some((m, on)) && {
                    &&& on == (plan.hosts > 0 || has_keys || commands@.len() > 0)
                    &&& m@ == (if commands@.len() == 0 {
                        message::said("import-run"@).number("count"@, plan.hosts as int)
                    } else {
                        message::said("import-run-commands"@).number("count"@, plan.hosts as int).number(
                            "commands"@,
                            commands@.len() as int,
                        )
                    })
                },
                _ => r is None,
            },
    {
        match &self.step {
            Step::Preview { plan, has_keys, lines: _, commands } => {
                let on = plan.hosts > 0 || *has_keys || commands.len() > 0;
                let said = if commands.len() == 0 {
                    Message::new("import-run").number("count", plan.hosts as i128)
                } else {
                    Message::new("import-run-commands").number("count", plan.hosts as i128).number(
                        "commands",
                        commands.len() as i128,
                    )
                };
                Some((said, on))
            },
            _ => None,
        }
    }

    /// Start importing what the preview shows: the plan, and the commands
    /// for the library.
    pub fn start(&mut self) -> (r: Option<(Plan, Vec<Imported>)>)
        ensures
            match old(self).step {
                Step::Preview { plan, has_keys, lines, commands } => {
                    &&& r == Some((plan, commands))
                    &&& final(self).step == (Step::Running { total: plan.hosts })
                },
                _ => r is None && final(self).step == old(self).step,
            },
            *final(self) == (ImportDialog { step: final(self).step, ..*old(self) }),
    {
        let mut step = Step::Choose;
        std::mem::swap(&mut step, &mut self.step);
        match step {
            Step::Preview { plan, has_keys: _, lines: _, commands } => {
                self.step = Step::Running { total: plan.hosts };
                Some((plan, commands))
            },
            other => {
                self.step = other;
                None
            },
        }
    }

    /// The import is over. `commands` is the line on the command library, if
    /// commands were added to it.
    pub fn finished(&mut self, result: Result<ImportOutcome, String>, commands: Option<Message>)
        ensures
            *final(self) == (ImportDialog { step: final(self).step, ..*old(self) }),
            final(self).step matches Step::Finished { text, wrote } && match result {
                Ok(o) => {
                    &&& wrote == (o.hosts > 0 || o.keys_added > 0)
                    &&& message::messages(text@) == said_of(
                        o,
                        match commands {
                            Some(m) => Some(m@),
                            None => None,
                        },
                    )
                },
                Err(e) => {
                    &&& !wrote
                    &&& message::messages(text@) == seq![message::said("import-failed"@).text("error"@, e@)]
                },
            },
    {
        match result {
            Ok(o) => {
                let text = report(&o, commands);
                self.step = Step::Finished { text, wrote: o.hosts > 0 || o.keys_added > 0 };
            },
            Err(e) => {
                let mut text: Vec<Message> = Vec::new();
                text.push(Message::new("import-failed").text("error", &e));
                proof {
                    assert(message::messages(text@) =~= seq![message::said("import-failed"@).text("error"@, e@)]);
                }
                self.step = Step::Finished { text, wrote: false };
            },
        }
    }

    /// Whether the folder can be edited.
    pub fn editable(&self) -> (r: bool)
        ensures
            r == (self.origin is SecureCrt && (self.step is Choose || self.step is Preview)),
    {
        let open = match &self.step {
            Step::Choose => true,
            Step::Preview { .. } => true,
            _ => false,
        };
        self.origin == Origin::SecureCrt && open
    }

    /// Whether a preview can be asked for.
    pub fn can_preview(&self) -> (r: bool)
        ensures
            r == ((self.step is Choose || self.step is Preview) && text::trimmed(self.path@).len() > 0),
    {
        let open = match &self.step {
            Step::Choose => true,
            Step::Preview { .. } => true,
            _ => false,
        };
        open && !text::is_blank(&self.path)
    }

    /// What closing the window comes to: a running import keeps it open.
    pub fn close(&self) -> (r: Outcome<()>)
        ensures
            r == (if self.step is Running {
                Outcome::Open
            } else {
                closed(self.step)
            }),
    {
        match &self.step {
            Step::Running { .. } => Outcome::Open,
            Step::Finished { text: _, wrote } => if *wrote {
                Outcome::Submit(())
            } else {
                Outcome::Cancel
            },
            _ => Outcome::Cancel,
        }
    }

    /// The title, and what stands before the folder.
    pub fn titles(&self) -> (r: (Message, Message))
        ensures
            (r.0@, r.1@) == (match self.origin {
                Origin::SecureCrt => (message::said("import-title"@), message::said("import-folder-label"@)),
                Origin::Putty => (message::said("import-title-putty"@), message::said("import-putty-from"@)),
            }),
    {
        match self.origin {
            Origin::SecureCrt => (Message::new("import-title"), Message::new("import-folder-label")),
            Origin::Putty => (Message::new("import-title-putty"), Message::new("import-putty-from")),
        }
    }
}

/// The tree is read again exactly where the import wrote something.
pub proof fn law_reload_after_writing(step: Step)
    ensures
        closed(step) == Outcome::Submit(()) <==> (step matches Step::Finished { text, wrote } && wrote),
{
}

/// What is said when an import is done: how much, then the keys, each folder
/// that failed, and the commands.
pub proof fn law_what_an_import_says(o: ImportOutcome, commands: Option<MessageView>)
    ensures
        ({
            let said = said_of(o, commands);
            let a = if o.keys_added > 0 { 1int } else { 0 };
            let f = if o.keys_failed is Some { 1int } else { 0 };
            let n = o.failed@.len();
            &&& said.len() == 1 + a + f + n + (if commands is Some { 1int } else { 0 })
            &&& said[0] == message::said("import-done"@).number("hosts"@, o.hosts as int).number("folders"@, o.written as int)
            &&& a == 1 ==> said[1] == message::said("import-keys-added"@).number("count"@, o.keys_added as int)
            &&& o.keys_failed matches Some(e) ==> said[1 + a] == message::said("import-keys-failed"@).text("error"@, e@)
            &&& forall|i: int|
                0 <= i < n ==> said[1 + a + f + i] == message::said("import-folder-failed"@).text(
                    "folder"@,
                    (#[trigger] o.failed@[i]).0@,
                ).text("error"@, o.failed@[i].1@)
            &&& commands matches Some(m) ==> said.last() == m
        }),
{
}

/// A dialog that is closed before it wrote anything was cancelled.
pub proof fn law_closing_an_import(step: Step)
    ensures
        (step matches Step::Finished { text, wrote } && wrote) ==> closed(step) == Outcome::Submit(()),
        !(step matches Step::Finished { text, wrote } && wrote) ==> closed(step) is Cancel,
{
}

} // verus!
