//! The command library (`commands.toml` in the data directory): named
//! commands to send to sessions. Hand-editable:
//!
//! ```toml
//! [[command]]
//! name = "Disk usage"
//! text = "df -h"
//!
//! [[command]]
//! name = "Become root"
//! text = "sudo -i"
//! group = "Admin"
//! ```

use vstd::prelude::*;

use crate::paths;
use crate::text;

verus! {

#[derive(Clone, Debug, PartialEq, Eq)]
pub struct Command {
    pub name: String,
    /// Sent line by line, each followed by Enter unless `enter` is false
    /// (then the last line is left for the user to finish).
    pub text: String,
    pub enter: bool,
    pub group: Option<String>,
}

/// What a command says.
pub struct CommandView {
    pub name: Seq<char>,
    pub text: Seq<char>,
    pub enter: bool,
    pub group: Option<Seq<char>>,
}

impl View for Command {
    type V = CommandView;

    open spec fn view(&self) -> CommandView {
        CommandView { name: self.name@, text: self.text@, enter: self.enter, group: text::optional(self.group) }
    }
}

/// The commands of a list.
pub open spec fn all(v: Seq<Command>) -> Seq<CommandView> {
    v.map_values(|c: Command| c@)
}

/// The command library and the file it is kept in.
pub struct Library {
    /// The file that the library is kept in.
    pub path: String,
    pub commands: Vec<Command>,
}

impl View for Library {
    type V = Seq<CommandView>;

    open spec fn view(&self) -> Seq<CommandView> {
        all(self.commands@)
    }
}

/// The first command with this name.
pub open spec fn first_named(commands: Seq<CommandView>, name: Seq<char>) -> Option<int>
    decreases commands.len(),
{
    if commands.len() == 0 {
        None
    } else if commands.first().name == name {
        Some(0)
    } else {
        match first_named(commands.skip(1), name) {
            Some(i) => Some(i + 1),
            None => None,
        }
    }
}

/// The library with `command` in the place of the first of its name, or
/// behind the others.
pub open spec fn with_command(commands: Seq<CommandView>, command: CommandView) -> Seq<CommandView> {
    match first_named(commands, command.name) {
        Some(i) => commands.update(i, command),
        None => commands.push(command),
    }
}

proof fn lemma_first_named(commands: Seq<CommandView>, name: Seq<char>)
    ensures
        match first_named(commands, name) {
            Some(i) => 0 <= i < commands.len() && commands[i].name == name && forall|j: int|
                0 <= j < i ==> (#[trigger] commands[j]).name != name,
            None => forall|j: int| 0 <= j < commands.len() ==> (#[trigger] commands[j]).name != name,
        },
    decreases commands.len(),
{
    if commands.len() > 0 && commands.first().name != name {
        let rest = commands.skip(1);
        lemma_first_named(rest, name);
        assert forall|j: int| 0 < j < commands.len() implies commands[j] == #[trigger] rest[j - 1] by {}
        match first_named(rest, name) {
            Some(i) => {
                assert forall|j: int| 0 <= j < i + 1 implies (#[trigger] commands[j]).name != name by {
                    if j > 0 {
                        assert(rest[j - 1].name != name);
                    }
                }
            },
            None => {
                assert forall|j: int| 0 <= j < commands.len() implies (#[trigger] commands[j]).name != name by {
                    if j > 0 {
                        assert(rest[j - 1].name != name);
                    }
                }
            },
        }
    }
}

proof fn lemma_first_named_is(commands: Seq<CommandView>, name: Seq<char>, i: int)
    requires
        0 <= i < commands.len(),
        commands[i].name == name,
        forall|j: int| 0 <= j < i ==> (#[trigger] commands[j]).name != name,
    ensures
        first_named(commands, name) == Some(i),
{
    lemma_first_named(commands, name);
    match first_named(commands, name) {
        Some(k) => {
            if k < i {
                assert(commands[k].name != name);
            } else if k > i {
                assert(commands[i].name != name);
            }
        },
        None => {
            assert(commands[i].name != name);
        },
    }
}

fn find_named(commands: &[Command], name: &str) -> (r: Option<usize>)
    ensures
        match r {
            Some(i) => first_named(all(commands@), name@) == Some(i as int) && i < commands@.len(),
            None => first_named(all(commands@), name@) is None,
        },
{
    let mut i: usize = 0;
    while i < commands.len()
        invariant
            i <= commands@.len(),
            forall|j: int| 0 <= j < i ==> (#[trigger] all(commands@)[j]).name != name@,
        decreases commands@.len() - i,
    {
        if text::same(&commands[i].name, name) {
            proof {
                lemma_first_named_is(all(commands@), name@, i as int);
            }
            return Some(i);
        }
        i += 1;
    }
    proof {
        lemma_first_named(all(commands@), name@);
    }
    None
}

impl Library {
    /// Where the library of a data directory is: `commands.toml` in it.
    pub fn path_in(data_dir: &str) -> (r: String)
        ensures
            paths::is_joined(r@, data_dir@, "commands.toml"@),
    {
        proof {
            reveal_strlit("commands.toml");
        }
        paths::join(data_dir, "commands.toml")
    }

    /// The library of the file `path`, which holds `commands` (none where
    /// the file isn't there).
    pub fn new(path: String, commands: Vec<Command>) -> (r: Library)
        ensures
            r.commands == commands,
            r.path == path,
    {
        Library { path, commands }
    }

    /// Add or replace (by name).
    pub fn put(&mut self, command: Command)
        ensures
            final(self)@ == with_command(old(self)@, command@),
            final(self).path == old(self).path,
    {
        let ghost c = command@;
        proof {
            lemma_first_named(self@, c.name);
        }
        match find_named(&self.commands, &command.name) {
            Some(i) => {
                self.commands[i] = command;
                proof {
                    assert(self@ =~= old(self)@.update(i as int, c));
                }
            },
            None => {
                self.commands.push(command);
                proof {
                    assert(self@ =~= old(self)@.push(c));
                }
            },
        }
    }

    /// Take out every command with this name.
    pub fn remove(&mut self, name: &str)
        ensures
            final(self)@ == old(self)@.filter(|c: CommandView| c.name != name@),
            final(self).path == old(self).path,
    {
        let mut i: usize = 0;
        let ghost was = self@;
        let ghost mut seen: int = 0;
        proof {
            reveal(Seq::filter);
            assert(was.take(0) =~= Seq::empty());
            assert(was.skip(0) =~= was);
        }
        while i < self.commands.len()
            invariant
                i <= self.commands@.len(),
                0 <= seen <= was.len(),
                self.commands@.len() - i == was.len() - seen,
                self@.take(i as int) == was.take(seen).filter(|c: CommandView| c.name != name@),
                self@.skip(i as int) == was.skip(seen),
                self.path == old(self).path,
            decreases self.commands@.len() - i,
        {
            let ghost now = self@;
            proof {
                reveal(Seq::filter);
                assert(now.skip(i as int)[0] == now[i as int]);
                assert(was.skip(seen)[0] == was[seen]);
                assert(was.take(seen + 1).drop_last() =~= was.take(seen));
                assert(was.take(seen + 1).last() == was[seen]);
            }
            if text::same(&self.commands[i].name, name) {
                let _ = self.commands.remove(i);
                proof {
                    assert(self@ =~= now.remove(i as int));
                    assert(self@.take(i as int) =~= now.take(i as int));
                    assert(self@.skip(i as int) =~= now.skip(i as int).skip(1));
                    assert(was.skip(seen + 1) =~= was.skip(seen).skip(1));
                }
            } else {
                proof {
                    assert(now.take(i + 1) =~= now.take(i as int).push(now[i as int]));
                    assert(now.skip(i + 1) =~= now.skip(i as int).skip(1));
                    assert(was.skip(seen + 1) =~= was.skip(seen).skip(1));
                }
                i += 1;
            }
            proof {
                seen = seen + 1;
            }
        }
        proof {
            assert(self@.take(i as int) =~= self@);
            assert(was.take(seen) =~= was);
        }
    }
}

/// How imported commands went into the library.
#[derive(Debug, PartialEq, Eq)]
pub struct Merged {
    pub added: usize,
    /// The same command (name, text, Enter) was there already.
    pub present: usize,
    /// (the name it had, the name it got): another command had its name.
    pub renamed: Vec<(String, String)>,
}

impl Default for Merged {
    fn default() -> (r: Merged)
        ensures
            r.added == 0,
            r.present == 0,
            r.renamed@ == Seq::<(String, String)>::empty(),
    {
        Merged { added: 0, present: 0, renamed: Vec::new() }
    }
}

/// The same text, sent the same way.
pub open spec fn alike(a: CommandView, b: CommandView) -> bool {
    a.text == b.text && a.enter == b.enter
}

/// The library has this very command under `name`.
pub open spec fn has_alike(commands: Seq<CommandView>, name: Seq<char>, c: CommandView) -> bool {
    exists|i: int| 0 <= i < commands.len() && (#[trigger] commands[i]).name == name && alike(commands[i], c)
}

/// `<name> (<group>)`, or the name alone without a group.
pub open spec fn base_name(c: CommandView) -> Seq<char> {
    match c.group {
        Some(g) => (c.name + " ("@ + g).push(')'),
        None => c.name,
    }
}

/// The names tried for a command whose own is taken, in order: the base,
/// then the base with 2, 3, ….
pub open spec fn candidate(c: CommandView, k: nat) -> Seq<char> {
    if k == 0 {
        base_name(c)
    } else {
        base_name(c).push(' ') + text::decimal(k + 1)
    }
}

/// The search for a name ends here: it is free, or this command has it.
pub open spec fn settles(commands: Seq<CommandView>, c: CommandView, k: nat) -> bool {
    match first_named(commands, candidate(c, k)) {
        Some(i) => alike(commands[i], c),
        None => true,
    }
}

/// The first candidate that ends the search.
pub open spec fn settles_first(commands: Seq<CommandView>, c: CommandView, k: nat) -> bool {
    settles(commands, c, k) && forall|j: nat| j < k ==> !#[trigger] settles(commands, c, j)
}

/// The name that a command gets whose own is taken.
pub open spec fn new_name(commands: Seq<CommandView>, c: CommandView) -> Seq<char> {
    candidate(c, choose|k: nat| settles_first(commands, c, k))
}

/// The name under which `c` goes into the library; none where the very
/// command is there already.
pub open spec fn name_for(commands: Seq<CommandView>, c: CommandView) -> Option<Seq<char>> {
    if has_alike(commands, c.name, c) {
        None
    } else if first_named(commands, c.name) is None {
        Some(c.name)
    } else if has_alike(commands, new_name(commands, c), c) {
        None
    } else {
        Some(new_name(commands, c))
    }
}

/// A library being added to, and the account of it.
pub struct MergeView {
    pub commands: Seq<CommandView>,
    pub added: int,
    pub present: int,
    pub renamed: Seq<(Seq<char>, Seq<char>)>,
}

/// One command more.
pub open spec fn merge_one(m: MergeView, c: CommandView) -> MergeView {
    match name_for(m.commands, c) {
        Some(name) => MergeView {
            commands: m.commands.push(CommandView { name, ..c }),
            added: m.added + 1,
            present: m.present,
            renamed: if name == c.name && first_named(m.commands, c.name) is None {
                m.renamed
            } else {
                m.renamed.push((c.name, name))
            },
        },
        None => MergeView { present: m.present + 1, ..m },
    }
}

/// The commands added one after the other.
pub open spec fn merge_all(commands: Seq<CommandView>, incoming: Seq<CommandView>) -> MergeView
    decreases incoming.len(),
{
    if incoming.len() == 0 {
        MergeView { commands, added: 0, present: 0, renamed: Seq::empty() }
    } else {
        merge_one(merge_all(commands, incoming.drop_last()), incoming.last())
    }
}

proof fn lemma_settles_unique(commands: Seq<CommandView>, c: CommandView, k: nat)
    requires
        settles_first(commands, c, k),
    ensures
        new_name(commands, c) == candidate(c, k),
{
    let other = choose|k: nat| settles_first(commands, c, k);
    if other < k {
        assert(!settles(commands, c, other));
    } else if k < other {
        assert(!settles(commands, c, k));
    }
}

/// Candidates behind the first are all different.
proof fn lemma_candidates_differ(c: CommandView, a: nat, b: nat)
    requires
        0 < a,
        0 < b,
        candidate(c, a) == candidate(c, b),
    ensures
        a == b,
{
    let front = base_name(c).push(' ');
    assert(candidate(c, a).skip(front.len() as int) =~= text::decimal(a + 1));
    assert(candidate(c, b).skip(front.len() as int) =~= text::decimal(b + 1));
    text::lemma_decimal_injective(a + 1, b + 1);
}

/// There are no more failed candidates than commands.
proof fn lemma_tries(commands: Seq<CommandView>, c: CommandView, k: nat)
    requires
        forall|j: nat| j < k ==> !#[trigger] settles(commands, c, j),
    ensures
        k <= commands.len() + 1,
{
    if k > 0 {
        let at = Seq::new((k - 1) as nat, |j: int| first_named(commands, candidate(c, (j + 1) as nat))->0);
        assert forall|j: int| 0 <= j < at.len() implies 0 <= #[trigger] at[j] < commands.len() && commands[at[j]].name
            == candidate(c, (j + 1) as nat) by {
            assert(!settles(commands, c, (j + 1) as nat));
            lemma_first_named(commands, candidate(c, (j + 1) as nat));
        }
        assert forall|i: int, j: int| 0 <= i < at.len() && 0 <= j < at.len() && i != j implies at[i] != at[j] by {
            if at[i] == at[j] {
                assert(commands[at[i]].name == candidate(c, (i + 1) as nat));
                assert(commands[at[j]].name == candidate(c, (j + 1) as nat));
                lemma_candidates_differ(c, (i + 1) as nat, (j + 1) as nat);
            }
        }
        text::lemma_pigeonhole(at, commands.len() as int);
    }
}

fn candidate_name(c: &Command, k: u128) -> (r: String)
    requires
        k < u128::MAX,
    ensures
        r@ == candidate(c@, k as nat),
{
    let mut r = text::chars_of(&c.name);
    if let Some(group) = &c.group {
        let open = text::chars_of(" (");
        text::append(&mut r, &open);
        let group = text::chars_of(group);
        text::append(&mut r, &group);
        r.push(')');
    }
    proof {
        assert(r@ =~= base_name(c@));
    }
    if k > 0 {
        r.push(' ');
        let n = text::decimal_chars(k + 1);
        text::append(&mut r, &n);
    }
    text::string_of(&r)
}

fn is_alike(a: &Command, b: &Command) -> (r: bool)
    ensures
        r == alike(a@, b@),
{
    a.enter == b.enter && text::same(&a.text, &b.text)
}

fn find_alike(commands: &[Command], name: &str, c: &Command) -> (r: bool)
    ensures
        r == has_alike(all(commands@), name@, c@),
{
    let mut i: usize = 0;
    while i < commands.len()
        invariant
            i <= commands@.len(),
            forall|j: int|
                0 <= j < i ==> !((#[trigger] all(commands@)[j]).name == name@ && alike(all(commands@)[j], c@)),
        decreases commands@.len() - i,
    {
        if text::same(&commands[i].name, name) && is_alike(&commands[i], c) {
            proof {
                assert(all(commands@)[i as int].name == name@);
            }
            return true;
        }
        i += 1;
    }
    false
}

/// The name under which `c` goes in, if it does, and whether it is another
/// than its own.
fn place(commands: &[Command], c: &Command) -> (r: Option<(String, bool)>)
    ensures
        match r {
            Some((name, renamed)) => name_for(all(commands@), c@) == Some(name@) && renamed == (first_named(
                all(commands@),
                c@.name,
            ) is Some) && (!renamed ==> name@ == c@.name),
            None => name_for(all(commands@), c@) is None,
        },
{
    let ghost lib = all(commands@);
    if find_alike(commands, &c.name, c) {
        return None;
    }
    if find_named(commands, &c.name).is_none() {
        return Some((c.name.clone(), false));
    }
    let count: usize = commands.len();
    let mut k: u128 = 0;
    let mut name = candidate_name(c, 0);
    loop
        invariant
            lib == all(commands@),
            lib.len() == commands@.len(),
            k <= lib.len() + 1,
            lib.len() == count,
            name@ == candidate(c@, k as nat),
            forall|j: nat| j < k ==> !#[trigger] settles(lib, c@, j),
        ensures
            name@ == new_name(lib, c@),
        decreases lib.len() + 2 - k,
    {
        match find_named(commands, &name) {
            Some(i) => {
                proof {
                    assert(lib[i as int] == commands@[i as int]@);
                }
                if is_alike(&commands[i], c) {
                    proof {
                        assert(settles(lib, c@, k as nat));
                        lemma_settles_unique(lib, c@, k as nat);
                    }
                    break;
                }
                proof {
                    assert(!settles(lib, c@, k as nat));
                    assert forall|j: nat| j < k + 1 implies !#[trigger] settles(lib, c@, j) by {
                        if j < k {
                            assert(!settles(lib, c@, j));
                        }
                    }
                    lemma_tries(lib, c@, (k + 1) as nat);
                }
                k += 1;
                name = candidate_name(c, k);
            },
            None => {
                proof {
                    assert(settles(lib, c@, k as nat));
                    lemma_settles_unique(lib, c@, k as nat);
                }
                break;
            },
        }
    }
    if find_alike(commands, &name, c) {
        return None;
    }
    Some((name, true))
}

/// Add `incoming` (e.g. SecureCRT's buttons) to `library`: one that is
/// there already (same name and text) is left out; a different one with a
/// taken name gets "<name> (<group>)", then a number.
pub fn merge(library: &mut Library, incoming: Vec<Command>) -> (out: Merged)
    ensures
        ({
            let m = merge_all(old(library)@, all(incoming@));
            &&& final(library)@ == m.commands
            &&& out.added == m.added
            &&& out.present == m.present
            &&& text::pairs(out.renamed@) == m.renamed
        }),
        final(library).path == old(library).path,
{
    let mut out = Merged { added: 0, present: 0, renamed: Vec::new() };
    let ghost start = library@;
    let ghost inc = all(incoming@);
    let mut i: usize = 0;
    proof {
        assert(inc.take(0) =~= Seq::empty());
        assert(text::pairs(out.renamed@) =~= Seq::empty());
    }
    while i < incoming.len()
        invariant
            i <= incoming@.len(),
            inc == all(incoming@),
            inc.len() == incoming@.len(),
            out.added + out.present == i,
            library.path == old(library).path,
            ({
                let m = merge_all(start, inc.take(i as int));
                &&& library@ == m.commands
                &&& out.added == m.added
                &&& out.present == m.present
                &&& text::pairs(out.renamed@) == m.renamed
            }),
        decreases incoming@.len() - i,
    {
        let command = &incoming[i];
        let ghost before = merge_all(start, inc.take(i as int));
        proof {
            assert(inc.take(i + 1).drop_last() =~= inc.take(i as int));
            assert(inc.take(i + 1).last() == command@);
        }
        match place(&library.commands, command) {
            Some((name, renamed)) => {
                if renamed {
                    let ghost was = out.renamed@;
                    out.renamed.push((command.name.clone(), name.clone()));
                    proof {
                        assert(text::pairs(out.renamed@) =~= text::pairs(was).push((command@.name, name@)));
                    }
                }
                let ghost was = library@;
                let ghost named = name@;
                library.commands.push(
                    Command {
                        name,
                        text: command.text.clone(),
                        enter: command.enter,
                        group: text::optional_copy(&command.group),
                    },
                );
                proof {
                    assert(library@ =~= was.push(CommandView { name: named, ..command@ }));
                }
                out.added += 1;
            },
            None => {
                out.present += 1;
            },
        }
        i += 1;
    }
    proof {
        assert(inc.take(inc.len() as int) =~= inc);
    }
    out
}

/// `commands` stays as it is when more is put behind it: what was found by
/// name first is found first.
proof fn lemma_first_named_prefix(commands: Seq<CommandView>, more: Seq<CommandView>, name: Seq<char>)
    requires
        first_named(commands, name) is Some,
    ensures
        first_named(commands + more, name) == first_named(commands, name),
{
    lemma_first_named(commands, name);
    let i = first_named(commands, name)->0;
    let both = commands + more;
    assert forall|j: int| 0 <= j < i implies (#[trigger] both[j]).name != name by {
        assert(commands[j].name != name);
    }
    lemma_first_named_is(both, name, i);
}

/// Some candidate ends the search.
proof fn lemma_settles(commands: Seq<CommandView>, c: CommandView, k: nat) -> (r: nat)
    requires
        forall|j: nat| j < k ==> !#[trigger] settles(commands, c, j),
    ensures
        settles_first(commands, c, r),
        new_name(commands, c) == candidate(c, r),
    decreases commands.len() + 2 - k,
{
    lemma_tries(commands, c, k);
    if settles(commands, c, k) {
        lemma_settles_unique(commands, c, k);
        k
    } else {
        assert forall|j: nat| j < k + 1 implies !#[trigger] settles(commands, c, j) by {
            if j < k {
                assert(!settles(commands, c, j));
            }
        }
        lemma_tries(commands, c, k + 1);
        lemma_settles(commands, c, k + 1)
    }
}

/// A command that is there stays there when others are added.
proof fn lemma_present_stays(commands: Seq<CommandView>, more: Seq<CommandView>, c: CommandView)
    requires
        name_for(commands, c) is None,
    ensures
        name_for(commands + more, c) is None,
{
    let both = commands + more;
    if has_alike(commands, c.name, c) {
        let i = choose|i: int| 0 <= i < commands.len() && (#[trigger] commands[i]).name == c.name && alike(commands[i], c);
        assert(both[i] == commands[i]);
    } else {
        lemma_first_named_prefix(commands, more, c.name);
        let k = lemma_settles(commands, c, 0);
        let name = candidate(c, k);
        let i = choose|i: int| 0 <= i < commands.len() && (#[trigger] commands[i]).name == name && alike(commands[i], c);
        lemma_first_named(commands, name);
        lemma_first_named_prefix(commands, more, name);
        assert(first_named(commands, name) is Some);
        let at = first_named(commands, name)->0;
        assert(both[at] == commands[at]);
        assert(settles(both, c, k));
        assert forall|j: nat| j < k implies !#[trigger] settles(both, c, j) by {
            assert(!settles(commands, c, j));
            lemma_first_named(commands, candidate(c, j));
            lemma_first_named_prefix(commands, more, candidate(c, j));
            assert(both[first_named(commands, candidate(c, j))->0] == commands[first_named(
                commands,
                candidate(c, j),
            )->0]);
        }
        lemma_settles_unique(both, c, k);
        assert(both[i] == commands[i]);
        assert(has_alike(both, name, c));
    }
}

/// A command just added is there.
proof fn lemma_present_after(m: MergeView, c: CommandView)
    ensures
        name_for(merge_one(m, c).commands, c) is None,
{
    match name_for(m.commands, c) {
        Some(name) => {
            let added = CommandView { name, ..c };
            let after = m.commands.push(added);
            assert(after =~= m.commands + seq![added]);
            let last = m.commands.len() as int;
            assert(after[last] == added);
            if first_named(m.commands, c.name) is None {
                assert(has_alike(after, c.name, c));
            } else {
                lemma_first_named_prefix(m.commands, seq![added], c.name);
                let k = lemma_settles(m.commands, c, 0);
                lemma_first_named(m.commands, name);
                if first_named(m.commands, name) is Some {
                    let i = first_named(m.commands, name)->0;
                    assert(m.commands[i].name == name && alike(m.commands[i], c));
                    assert(has_alike(m.commands, name, c));
                }
                assert forall|j: int| 0 <= j < last implies (#[trigger] after[j]).name != name by {
                    assert(m.commands[j].name != name);
                }
                lemma_first_named_is(after, name, last);
                assert(settles(after, c, k));
                assert forall|j: nat| j < k implies !#[trigger] settles(after, c, j) by {
                    assert(!settles(m.commands, c, j));
                    lemma_first_named(m.commands, candidate(c, j));
                    lemma_first_named_prefix(m.commands, seq![added], candidate(c, j));
                }
                lemma_settles_unique(after, c, k);
                assert(has_alike(after, name, c));
            }
        },
        None => {},
    }
}

/// The commands that were there stay, in order, before the added ones.
pub proof fn law_merge_keeps(commands: Seq<CommandView>, incoming: Seq<CommandView>)
    ensures
        commands.is_prefix_of(merge_all(commands, incoming).commands),
        merge_all(commands, incoming).commands.len() == commands.len() + merge_all(commands, incoming).added,
        merge_all(commands, incoming).added + merge_all(commands, incoming).present == incoming.len(),
        merge_all(commands, incoming).added >= 0,
        merge_all(commands, incoming).present >= 0,
    decreases incoming.len(),
{
    if incoming.len() > 0 {
        law_merge_keeps(commands, incoming.drop_last());
        let before = merge_all(commands, incoming.drop_last()).commands;
        let after = merge_all(commands, incoming).commands;
        assert(after.take(before.len() as int) =~= before);
        assert(commands =~= after.take(commands.len() as int));
    }
}

proof fn lemma_all_present(commands: Seq<CommandView>, incoming: Seq<CommandView>, i: int)
    requires
        0 <= i < incoming.len(),
    ensures
        name_for(merge_all(commands, incoming).commands, incoming[i]) is None,
    decreases incoming.len(),
{
    let front = incoming.drop_last();
    let m = merge_all(commands, front);
    let after = merge_all(commands, incoming).commands;
    if i == incoming.len() - 1 {
        lemma_present_after(m, incoming[i]);
    } else {
        lemma_all_present(commands, front, i);
        assert(front[i] == incoming[i]);
        let more = after.skip(m.commands.len() as int);
        assert(after =~= m.commands + more);
        lemma_present_stays(m.commands, more, incoming[i]);
    }
}

proof fn lemma_nothing_new(commands: Seq<CommandView>, incoming: Seq<CommandView>)
    requires
        forall|i: int| 0 <= i < incoming.len() ==> name_for(commands, #[trigger] incoming[i]) is None,
    ensures
        merge_all(commands, incoming) == (MergeView {
            commands,
            added: 0,
            present: incoming.len() as int,
            renamed: Seq::empty(),
        }),
    decreases incoming.len(),
{
    if incoming.len() > 0 {
        let front = incoming.drop_last();
        assert forall|i: int| 0 <= i < front.len() implies name_for(commands, #[trigger] front[i]) is None by {
            assert(front[i] == incoming[i]);
        }
        lemma_nothing_new(commands, front);
        assert(incoming.last() == incoming[incoming.len() - 1]);
    }
}

/// Importing the same commands again adds nothing and renames nothing.
pub proof fn law_merge_again_adds_nothing(commands: Seq<CommandView>, incoming: Seq<CommandView>)
    ensures
        merge_all(merge_all(commands, incoming).commands, incoming) == (MergeView {
            commands: merge_all(commands, incoming).commands,
            added: 0,
            present: incoming.len() as int,
            renamed: Seq::empty(),
        }),
{
    assert forall|i: int| 0 <= i < incoming.len() implies name_for(
        merge_all(commands, incoming).commands,
        #[trigger] incoming[i],
    ) is None by {
        lemma_all_present(commands, incoming, i);
    }
    lemma_nothing_new(merge_all(commands, incoming).commands, incoming);
}

/// No two commands have the same name.
pub open spec fn names_apart(commands: Seq<CommandView>) -> bool {
    forall|i: int, j: int|
        0 <= i < j < commands.len() ==> (#[trigger] commands[i]).name != (#[trigger] commands[j]).name
}

proof fn lemma_name_is_free(commands: Seq<CommandView>, c: CommandView)
    ensures
        name_for(commands, c) matches Some(name) ==> first_named(commands, name) is None,
{
    if !has_alike(commands, c.name, c) && first_named(commands, c.name) is Some {
        let k = lemma_settles(commands, c, 0);
        lemma_settles_unique(commands, c, k);
        lemma_first_named(commands, new_name(commands, c));
    }
}

/// Merging keeps the names apart: a library in which no name occurs twice
/// has none twice afterwards. Every command that came in is counted once,
/// and at most those that were added were renamed.
pub proof fn law_merge_keeps_names_apart(commands: Seq<CommandView>, incoming: Seq<CommandView>)
    ensures
        names_apart(commands) ==> names_apart(merge_all(commands, incoming).commands),
        0 <= merge_all(commands, incoming).renamed.len() <= merge_all(commands, incoming).added,
        merge_all(commands, incoming).added + merge_all(commands, incoming).present == incoming.len(),
        merge_all(commands, incoming).commands.len() == commands.len() + merge_all(commands, incoming).added,
    decreases incoming.len(),
{
    if incoming.len() > 0 {
        let m = merge_all(commands, incoming.drop_last());
        law_merge_keeps_names_apart(commands, incoming.drop_last());
        lemma_name_is_free(m.commands, incoming.last());
        match name_for(m.commands, incoming.last()) {
            Some(name) => {
                lemma_first_named(m.commands, name);
            },
            None => {},
        }
    }
}

/// What `put` wrote is what the name finds, and it is the only change.
pub proof fn law_put_is_found(commands: Seq<CommandView>, command: CommandView)
    ensures
        first_named(with_command(commands, command), command.name) matches Some(i) && with_command(
            commands,
            command,
        )[i] == command,
{
    lemma_first_named(commands, command.name);
    let after = with_command(commands, command);
    match first_named(commands, command.name) {
        Some(i) => {
            assert forall|j: int| 0 <= j < i implies (#[trigger] after[j]).name != command.name by {
                assert(commands[j].name != command.name);
            }
            lemma_first_named_is(after, command.name, i);
        },
        None => {
            let last = commands.len() as int;
            assert forall|j: int| 0 <= j < last implies (#[trigger] after[j]).name != command.name by {
                assert(commands[j].name != command.name);
            }
            lemma_first_named_is(after, command.name, last);
        },
    }
}

/// `s` with every `\r\n` as `\n`.
pub open spec fn unix(s: Seq<char>) -> Seq<char>
    decreases s.len(),
{
    if s.len() == 0 {
        s
    } else if s.len() >= 2 && s[0] == '\r' && s[1] == '\n' {
        seq!['\n'] + unix(s.skip(2))
    } else {
        seq![s[0]] + unix(s.skip(1))
    }
}

/// The text that is sent: with plain line ends, and without the last one.
pub open spec fn body(s: Seq<char>) -> Seq<char> {
    let t = unix(s);
    if t.len() > 0 && t.last() == '\n' {
        t.drop_last()
    } else {
        t
    }
}

/// The lines to type, each with whether Enter follows.
pub open spec fn typed_lines(s: Seq<char>, enter: bool) -> Seq<(Seq<char>, bool)> {
    let t = body(s);
    if t.len() == 0 {
        if enter {
            seq![(Seq::empty(), true)]
        } else {
            Seq::empty()
        }
    } else {
        let parts = text::split_on(t, '\n');
        Seq::new(parts.len(), |i: int| (parts[i], i < parts.len() - 1 || enter))
    }
}

pub(crate) fn unix_chars(s: &[char]) -> (r: Vec<char>)
    ensures
        r@ == unix(s@),
{
    let mut r: Vec<char> = Vec::new();
    let mut i: usize = 0;
    proof {
        assert(s@.skip(0) =~= s@);
        assert(r@ + unix(s@) =~= unix(s@));
    }
    while i < s.len()
        invariant
            i <= s@.len(),
            r@ + unix(s@.skip(i as int)) == unix(s@),
        decreases s@.len() - i,
    {
        let ghost rest = s@.skip(i as int);
        let ghost was = r@;
        if s[i] == '\r' && s.len() - i >= 2 && s[i + 1] == '\n' {
            r.push('\n');
            proof {
                assert(rest.skip(2) =~= s@.skip(i + 2));
                assert(r@ + unix(s@.skip(i + 2)) =~= was + unix(rest));
            }
            i += 2;
        } else {
            r.push(s[i]);
            proof {
                assert(rest[0] == s@[i as int]);
                if rest.len() >= 2 {
                    assert(rest[1] == s@[i + 1]);
                }
                assert(rest.skip(1) =~= s@.skip(i + 1));
                assert(r@ + unix(s@.skip(i + 1)) =~= was + unix(rest));
            }
            i += 1;
        }
    }
    proof {
        assert(s@.skip(i as int) =~= Seq::empty());
        assert(r@ + unix(s@.skip(i as int)) =~= r@);
    }
    r
}

/// The pairs of line and Enter, as sequences.
pub open spec fn line_pairs(v: Seq<(String, bool)>) -> Seq<(Seq<char>, bool)> {
    v.map_values(|p: (String, bool)| (p.0@, p.1))
}

/// The lines to type, each with whether Enter follows. Blank lines in the
/// middle are sent as a bare Enter; a trailing newline adds nothing.
pub fn lines(text: &str, enter: bool) -> (r: Vec<(String, bool)>)
    ensures
        line_pairs(r@) == typed_lines(text@, enter),
{
    let chars = text::chars_of(text);
    let mut t = unix_chars(&chars);
    if t.len() > 0 && t[t.len() - 1] == '\n' {
        let _ = t.pop();
    }
    proof {
        assert(t@ == body(text@));
    }
    let mut r: Vec<(String, bool)> = Vec::new();
    if t.len() == 0 {
        if enter {
            let none = String::new();
            r.push((none, true));
        }
        proof {
            assert(line_pairs(r@) =~= typed_lines(text@, enter));
        }
        return r;
    }
    let parts = text::split(&t, '\n');
    let ghost all_parts = text::split_on(t@, '\n');
    proof {
        assert(text::deep(parts@).len() == parts@.len());
    }
    let mut i: usize = 0;
    while i < parts.len()
        invariant
            i <= parts@.len(),
            text::deep(parts@) == all_parts,
            all_parts.len() == parts@.len(),
            r@.len() == i,
            forall|j: int|
                0 <= j < i ==> (#[trigger] r@[j]).0@ == all_parts[j] && r@[j].1 == (j < all_parts.len() - 1 || enter),
        decreases parts@.len() - i,
    {
        proof {
            assert(all_parts[i as int] == parts@[i as int]@);
        }
        let line = text::string_of(&parts[i]);
        r.push((line, i < parts.len() - 1 || enter));
        i += 1;
    }
    proof {
        assert(line_pairs(r@) =~= typed_lines(text@, enter));
    }
    r
}

/// Nothing is lost: the lines put together again are the text sent, none
/// holds a line end, and only the last may be left without Enter.
pub proof fn law_lines_rejoin(s: Seq<char>, enter: bool)
    ensures
        text::joined(typed_lines(s, enter).map_values(|p: (Seq<char>, bool)| p.0), '\n') == body(s),
        forall|i: int| 0 <= i < typed_lines(s, enter).len() ==> !(#[trigger] typed_lines(s, enter)[i]).0.contains('\n'),
        forall|i: int| 0 <= i < typed_lines(s, enter).len() - 1 ==> (#[trigger] typed_lines(s, enter)[i]).1,
{
    let t = body(s);
    let lines = typed_lines(s, enter);
    let texts = lines.map_values(|p: (Seq<char>, bool)| p.0);
    if t.len() > 0 {
        text::lemma_split_joined(t, '\n');
        assert(texts =~= text::split_on(t, '\n'));
    } else if enter {
        assert(texts =~= seq![Seq::empty()]);
        assert(text::joined(texts, '\n') =~= t);
    } else {
        assert(text::joined(texts, '\n') =~= t);
    }
}

/// A command is found by its name, the first there is.
pub proof fn law_commands_by_name(commands: Seq<CommandView>, name: Seq<char>)
    ensures
        match first_named(commands, name) {
            Some(i) => 0 <= i < commands.len() && commands[i].name == name && forall|j: int|
                0 <= j < i ==> (#[trigger] commands[j]).name != name,
            None => forall|j: int| 0 <= j < commands.len() ==> (#[trigger] commands[j]).name != name,
        },
    decreases commands.len(),
{
    if commands.len() > 0 {
        let rest = commands.skip(1);
        law_commands_by_name(rest, name);
        assert(commands[0] == commands.first());
        assert forall|j: int| 0 < j < commands.len() implies #[trigger] commands[j] == rest[j - 1] by {}
    }
}

/// A command that is put replaces the one with its name, at its place, or
/// comes behind all; every other stays.
pub proof fn law_put_leaves_the_others(commands: Seq<CommandView>, command: CommandView, i: int)
    requires
        0 <= i < commands.len(),
    ensures
        commands[i].name != command.name ==> with_command(commands, command)[i] == commands[i],
        first_named(commands, command.name) is None ==> with_command(commands, command) == commands.push(command),
        first_named(commands, command.name) is Some ==> with_command(commands, command).len() == commands.len(),
{
    law_commands_by_name(commands, command.name);
}

/// Two commands are the same where they type the same and both send it or
/// neither does.
pub proof fn law_same_commands(a: CommandView, b: CommandView)
    ensures
        alike(a, b) <==> a.text == b.text && a.enter == b.enter,
{
}

/// What comes in under a free name is added as it is; what is there already
/// is counted and not added; another command of the same name is added
/// under a name of its own: with its group in brackets, then numbered from
/// two on.
pub proof fn law_what_merging_adds(m: MergeView, c: CommandView)
    ensures
        (forall|i: int| 0 <= i < m.commands.len() ==> (#[trigger] m.commands[i]).name != c.name) ==> merge_one(m, c) == (MergeView {
            commands: m.commands.push(c),
            added: m.added + 1,
            ..m
        }),
        (exists|i: int|
            0 <= i < m.commands.len() && (#[trigger] m.commands[i]).name == c.name && m.commands[i].text == c.text && m.commands[i].enter
                == c.enter) ==> merge_one(m, c) == (MergeView { present: m.present + 1, ..m }),
        merge_one(m, c).added == m.added || merge_one(m, c).added == m.added + 1,
        merge_one(m, c).added == m.added + 1 <==> merge_one(m, c).present == m.present,
        merge_one(m, c).added == m.added + 1 ==> merge_one(m, c).commands.len() == m.commands.len() + 1 && alike(
            merge_one(m, c).commands.last(),
            c,
        ) && merge_one(m, c).commands.last().group == c.group,
        merge_one(m, c).added == m.added ==> merge_one(m, c).commands == m.commands,
        forall|k: nat| candidate(c, k) == (if k == 0 {
            base_name(c)
        } else {
            base_name(c) + seq![' '] + #[trigger] text::decimal(k + 1)
        }),
        c.group matches Some(g) ==> base_name(c) == c.name + " ("@ + g + seq![')'],
        c.group is None ==> base_name(c) == c.name,
{
    law_commands_by_name(m.commands, c.name);
    if exists|i: int|
        0 <= i < m.commands.len() && (#[trigger] m.commands[i]).name == c.name && m.commands[i].text == c.text && m.commands[i].enter
            == c.enter {
        let i = choose|i: int|
            0 <= i < m.commands.len() && (#[trigger] m.commands[i]).name == c.name && m.commands[i].text == c.text
                && m.commands[i].enter == c.enter;
        assert(alike(m.commands[i], c));
        assert(has_alike(m.commands, c.name, c));
    }
    if forall|i: int| 0 <= i < m.commands.len() ==> (#[trigger] m.commands[i]).name != c.name {
        assert(first_named(m.commands, c.name) is None);
        assert(!has_alike(m.commands, c.name, c));
        assert((CommandView { name: c.name, ..c }) == c);
    }
    assert forall|k: nat| candidate(c, k) == (if k == 0 {
        base_name(c)
    } else {
        base_name(c) + seq![' '] + #[trigger] text::decimal(k + 1)
    }) by {
        if k > 0 {
            assert(candidate(c, k) =~= base_name(c) + seq![' '] + text::decimal(k + 1));
        }
    }
    if c.group is Some {
        assert(base_name(c) =~= c.name + " ("@ + c.group->0 + seq![')']);
    }
}

/// Merging goes one command after the other.
pub proof fn law_merging_one_by_one(commands: Seq<CommandView>, incoming: Seq<CommandView>, c: CommandView)
    ensures
        merge_all(commands, Seq::empty()) == (MergeView { commands, added: 0, present: 0, renamed: Seq::empty() }),
        merge_all(commands, incoming.push(c)) == merge_one(merge_all(commands, incoming), c),
{
    assert(incoming.push(c).drop_last() =~= incoming);
}

/// Line ends are made plain: a carriage return before a line feed goes, and
/// everything else stays.
pub proof fn law_line_ends(c: char, s: Seq<char>)
    ensures
        unix(Seq::empty()) == Seq::<char>::empty(),
        unix(seq!['\r', '\n'] + s) == seq!['\n'] + unix(s),
        c != '\r' ==> unix(seq![c] + s) == seq![c] + unix(s),
        s.len() == 0 || s[0] != '\n' ==> unix(seq!['\r'] + s) == seq!['\r'] + unix(s),
{
    assert((seq!['\r', '\n'] + s).skip(2) =~= s);
    assert((seq![c] + s).skip(1) =~= s);
    assert((seq!['\r'] + s).skip(1) =~= s);
}

/// A command's text is typed line by line, each with Enter but for the last,
/// which has it where the command says so; a line end at the end is no line
/// of its own.
pub proof fn law_lines_typed(s: Seq<char>, enter: bool)
    requires
        forall|i: int| 0 <= i < s.len() ==> s[i] != '\r',
    ensures
        unix(s) == s,
        s.len() > 0 && (forall|i: int| 0 <= i < s.len() ==> s[i] != '\n') ==> typed_lines(s, enter) == seq![(s, enter)]
            && typed_lines(s.push('\n'), enter) == seq![(s, enter)],
        typed_lines(Seq::empty(), true) == seq![(Seq::<char>::empty(), true)],
        typed_lines(Seq::empty(), false).len() == 0,
        body(s).len() > 0 ==> typed_lines(s, enter).len() == text::split_on(body(s), '\n').len() && forall|i: int|
            0 <= i < typed_lines(s, enter).len() ==> (#[trigger] typed_lines(s, enter)[i]).0 == text::split_on(body(s), '\n')[i]
                && typed_lines(s, enter)[i].1 == (i < typed_lines(s, enter).len() - 1 || enter),
{
    lemma_unix_plain(s);
    let t = s.push('\n');
    assert forall|i: int| 0 <= i < t.len() implies t[i] != '\r' by {}
    lemma_unix_plain(t);
    assert(t.drop_last() =~= s);
    if s.len() > 0 && forall|i: int| 0 <= i < s.len() ==> s[i] != '\n' {
        text::law_splitting(s, '\n', Seq::empty());
        assert(s.last() == s[s.len() - 1]);
        assert(typed_lines(s, enter) =~= seq![(s, enter)]);
        assert(typed_lines(t, enter) =~= seq![(s, enter)]);
    }
    assert(unix(Seq::empty()) =~= Seq::<char>::empty());
}

proof fn lemma_unix_plain(s: Seq<char>)
    requires
        forall|i: int| 0 <= i < s.len() ==> s[i] != '\r',
    ensures
        unix(s) == s,
    decreases s.len(),
{
    if s.len() > 0 {
        let rest = s.skip(1);
        assert forall|i: int| 0 <= i < rest.len() implies rest[i] != '\r' by {
            assert(rest[i] == s[i + 1]);
        }
        lemma_unix_plain(rest);
        assert(seq![s[0]] + rest =~= s);
    }
}

} // verus!
