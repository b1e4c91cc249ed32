//! "Install my key": which public key, on which hosts; each host gets a tab
//! where the key is added once the password is given. Hosts that share a
//! password can go in one tab instead, the password asked once.

use vstd::prelude::*;

use crate::message;
use crate::message::Message;
use crate::message::MessageView;
use crate::order;
use crate::text;

verus! {

/// Room for aliases on a batch tab's command line (Windows allows 32767
/// characters; the terminal, the helper's path and the key take some).
pub const BATCH_LIMIT: usize = 24000;

/// How many hosts are named before the rest is counted.
pub const NAMED: usize = 8;

/// The usual names of public keys, the best first.
pub open spec fn usual() -> Seq<Seq<char>> {
    seq!["id_ed25519.pub"@, "id_ecdsa.pub"@, "id_rsa.pub"@]
}

/// A file name that ends in `.pub` behind something.
pub open spec fn is_public(name: Seq<char>) -> bool {
    name.len() > 4 && text::has_suffix(name, ".pub"@)
}

/// The public keys: the usual ones that are files, then the other names that
/// look like one, in order.
pub open spec fn keys_in(files: Seq<Seq<char>>, entries: Seq<Seq<char>>) -> Seq<Seq<char>> {
    let first = usual().filter(|n: Seq<char>| files.contains(n));
    first + order::sorted(entries.filter(|n: Seq<char>| is_public(n) && !first.contains(n)))
}

fn looks_public(name: &str) -> (r: bool)
    ensures
        r == is_public(name@),
{
    let chars = text::chars_of(name);
    let end = text::chars_of(".pub");
    chars.len() > 4 && text::ends_with(&chars, &end)
}

/// Public keys in a folder, the usual ones first. `files` are the names of
/// its files, `entries` of everything in it.
pub fn public_keys(files: &[String], entries: &[String]) -> (r: Vec<String>)
    ensures
        text::texts(r@) == keys_in(text::texts(files@), text::texts(entries@)),
{
    let ghost f = |n: Seq<char>| text::texts(files@).contains(n);
    let ghost names = usual();
    let mut keys: Vec<String> = Vec::new();
    proof {
        reveal(Seq::filter);
        assert(text::texts(keys@) =~= names.take(0).filter(f));
        assert(names.take(1).drop_last() =~= names.take(0));
        assert(names.take(2).drop_last() =~= names.take(1));
        assert(names.take(3).drop_last() =~= names.take(2));
        assert(names.take(3) =~= names);
    }
    if text::contains_text(files, "id_ed25519.pub") {
        let ghost before = keys@;
        keys.push(text::owned("id_ed25519.pub"));
        proof {
            assert(text::texts(keys@) =~= text::texts(before).push("id_ed25519.pub"@));
        }
    }
    proof {
        reveal(Seq::filter);
        assert(names.take(1).last() == "id_ed25519.pub"@);
        assert(text::texts(keys@) == names.take(1).filter(f));
    }
    if text::contains_text(files, "id_ecdsa.pub") {
        let ghost before = keys@;
        keys.push(text::owned("id_ecdsa.pub"));
        proof {
            assert(text::texts(keys@) =~= text::texts(before).push("id_ecdsa.pub"@));
        }
    }
    proof {
        reveal(Seq::filter);
        assert(names.take(2).last() == "id_ecdsa.pub"@);
        assert(text::texts(keys@) == names.take(2).filter(f));
    }
    if text::contains_text(files, "id_rsa.pub") {
        let ghost before = keys@;
        keys.push(text::owned("id_rsa.pub"));
        proof {
            assert(text::texts(keys@) =~= text::texts(before).push("id_rsa.pub"@));
        }
    }
    proof {
        reveal(Seq::filter);
        assert(names.take(3).last() == "id_rsa.pub"@);
        assert(text::texts(keys@) == names.filter(f));
    }
    let ghost first = names.filter(f);
    let ghost g = |n: Seq<char>| is_public(n) && !first.contains(n);
    let ghost all = text::texts(entries@);
    let mut others: Vec<String> = Vec::new();
    let mut i: usize = 0;
    proof {
        assert(text::texts(others@) =~= all.take(0).filter(g));
    }
    while i < entries.len()
        invariant
            i <= entries@.len(),
            all == text::texts(entries@),
            first == text::texts(keys@),
            g == (|n: Seq<char>| is_public(n) && !first.contains(n)),
            text::texts(others@) == all.take(i as int).filter(g),
        decreases entries@.len() - i,
    {
        proof {
            reveal(Seq::filter);
            assert(all.take(i + 1).drop_last() =~= all.take(i as int));
            assert(all.take(i + 1).last() == entries@[i as int]@);
        }
        if looks_public(&entries[i]) && !text::contains_text(&keys, &entries[i]) {
            let ghost before = others@;
            others.push(entries[i].clone());
            proof {
                assert(text::texts(others@) =~= text::texts(before).push(entries@[i as int]@));
            }
        }
        i += 1;
    }
    proof {
        assert(all.take(i as int) =~= all);
    }
    let mut rest = order::sort(&others);
    let ghost tail = rest@;
    keys.append(&mut rest);
    proof {
        assert(text::texts(keys@) =~= first + text::texts(tail));
    }
    keys
}

/// How many bytes a text takes.
pub open spec fn bytes(s: Seq<char>) -> nat {
    vstd::utf8::encode_utf8(s).len()
}

/// Aliases in groups, and the room that the last group takes: its aliases,
/// each with a space behind it.
pub struct Packed {
    pub groups: Seq<Seq<Seq<char>>>,
    pub room: nat,
}

/// One alias more: into the last group where it fits, else into a new one.
pub open spec fn packed_one(p: Packed, alias: Seq<char>, limit: nat) -> Packed {
    if p.groups.len() > 0 && p.room + bytes(alias) < limit {
        Packed {
            groups: p.groups.drop_last().push(p.groups.last().push(alias)),
            room: p.room + bytes(alias) + 1,
        }
    } else {
        Packed { groups: p.groups.push(seq![alias]), room: bytes(alias) + 1 }
    }
}

/// Aliases in groups.
pub open spec fn packed(aliases: Seq<Seq<char>>, limit: nat) -> Packed
    decreases aliases.len(),
{
    if aliases.len() == 0 {
        Packed { groups: Seq::empty(), room: 0 }
    } else {
        packed_one(packed(aliases.drop_last(), limit), aliases.last(), limit)
    }
}

/// The groups of a list.
pub open spec fn groups(v: Seq<Vec<String>>) -> Seq<Seq<Seq<char>>> {
    v.map_values(|g: Vec<String>| text::texts(g@))
}

/// Aliases in groups whose joined length stays under `limit` (a batch tab's
/// command line), at least one alias each.
pub fn batches(aliases: &[String], limit: usize) -> (r: Vec<Vec<String>>)
    ensures
        groups(r@) == packed(text::texts(aliases@), limit as nat).groups,
{
    let ghost all = text::texts(aliases@);
    let mut out: Vec<Vec<String>> = Vec::new();
    let mut room: u128 = 0;
    let mut i: usize = 0;
    proof {
        assert(all.take(0) =~= Seq::empty());
        assert(groups(out@) =~= Seq::empty());
    }
    while i < aliases.len()
        invariant
            i <= aliases@.len(),
            all == text::texts(aliases@),
            groups(out@) == packed(all.take(i as int), limit as nat).groups,
            room == packed(all.take(i as int), limit as nat).room,
            room <= usize::MAX + 1,
        decreases aliases@.len() - i,
    {
        let alias = &aliases[i];
        let size: usize = alias.as_str().as_bytes().len();
        proof {
            assert(all.take(i + 1).drop_last() =~= all.take(i as int));
            assert(all.take(i + 1).last() == alias@);
            assert(groups(out@).len() == out@.len());
        }
        let count: usize = out.len();
        if count > 0 && room + (size as u128) < limit as u128 {
            let ghost before = out@;
            let mut group = out.pop().unwrap();
            let ghost was = group@;
            group.push(alias.clone());
            out.push(group);
            proof {
                assert(text::texts(group@) =~= text::texts(was).push(alias@));
                assert(groups(before).last() == text::texts(was));
                assert(groups(out@) =~= groups(before).drop_last().push(text::texts(group@)));
            }
            room = room + size as u128 + 1;
        } else {
            let ghost before = out@;
            let mut group: Vec<String> = Vec::new();
            group.push(alias.clone());
            out.push(group);
            proof {
                assert(text::texts(group@) =~= seq![alias@]);
                assert(groups(out@) =~= groups(before).push(seq![alias@]));
            }
            room = size as u128 + 1;
        }
        i += 1;
    }
    proof {
        assert(all.take(i as int) =~= all);
    }
    out
}

/// How long a group is with a space between its aliases, and one behind.
pub open spec fn group_room(group: Seq<Seq<char>>) -> nat
    decreases group.len(),
{
    if group.len() == 0 {
        0
    } else {
        group_room(group.drop_last()) + bytes(group.last()) + 1
    }
}

/// The groups, one behind the other.
pub open spec fn flat(groups: Seq<Seq<Seq<char>>>) -> Seq<Seq<char>>
    decreases groups.len(),
{
    if groups.len() == 0 {
        Seq::empty()
    } else {
        flat(groups.drop_last()) + groups.last()
    }
}

/// A group that fits: it holds one alias, or stays within the limit (the
/// space behind the last alias not counted).
pub open spec fn fits(group: Seq<Seq<char>>, limit: nat) -> bool {
    group.len() == 1 || (group.len() > 1 && group_room(group) <= limit)
}

/// Every alias is in the groups once, in its place; no group is empty or,
/// unless a single alias is too long for it, over the limit.
pub proof fn law_batches_fit(aliases: Seq<Seq<char>>, limit: nat)
    ensures
        flat(packed(aliases, limit).groups) == aliases,
        forall|i: int|
            0 <= i < packed(aliases, limit).groups.len() ==> fits(#[trigger] packed(aliases, limit).groups[i], limit),
        packed(aliases, limit).groups.len() > 0 ==> packed(aliases, limit).room == group_room(
            packed(aliases, limit).groups.last(),
        ),
    decreases aliases.len(),
{
    if aliases.len() > 0 {
        let rest = aliases.drop_last();
        let alias = aliases.last();
        law_batches_fit(rest, limit);
        let p = packed(rest, limit);
        let q = packed(aliases, limit);
        assert(rest.push(alias) =~= aliases);
        if p.groups.len() > 0 && p.room + bytes(alias) < limit {
            let old_last = p.groups.last();
            let last = old_last.push(alias);
            assert(last.drop_last() =~= old_last);
            assert(q.groups.drop_last() =~= p.groups.drop_last());
            assert(q.groups.last() == last);
            assert(flat(p.groups) == flat(p.groups.drop_last()) + old_last);
            assert(flat(q.groups) =~= flat(p.groups).push(alias));
            assert forall|i: int| 0 <= i < q.groups.len() implies fits(#[trigger] q.groups[i], limit) by {
                if i < q.groups.len() - 1 {
                    assert(q.groups[i] == p.groups[i]);
                } else {
                    assert(fits(p.groups[p.groups.len() - 1], limit));
                }
            }
        } else {
            let last = seq![alias];
            assert(last.drop_last() =~= Seq::empty());
            assert(group_room(last.drop_last()) == 0);
            assert(last.last() == alias);
            assert(q.groups.drop_last() =~= p.groups);
            assert(flat(q.groups) =~= flat(p.groups).push(alias));
            assert forall|i: int| 0 <= i < q.groups.len() implies fits(#[trigger] q.groups[i], limit) by {
                if i < p.groups.len() {
                    assert(q.groups[i] == p.groups[i]);
                }
            }
        }
    } else {
        assert(aliases =~= Seq::empty());
    }
}

/// A tab to open: its title, and what the helper is told.
pub struct ToolTab {
    pub title: Message,
    pub args: Vec<String>,
}

/// A tab to open.
pub struct ToolTabView {
    pub title: MessageView,
    pub args: Seq<Seq<char>>,
}

impl View for ToolTab {
    type V = ToolTabView;

    open spec fn view(&self) -> ToolTabView {
        ToolTabView { title: self.title@, args: text::texts(self.args@) }
    }
}

/// The tabs of a list.
pub open spec fn tool_tabs(v: Seq<ToolTab>) -> Seq<ToolTabView> {
    v.map_values(|t: ToolTab| t@)
}

/// The aliases of hosts.
pub open spec fn aliases_of(hosts: Seq<(String, String)>) -> Seq<Seq<char>> {
    hosts.map_values(|h: (String, String)| h.0@)
}

/// One tab for each group.
pub open spec fn batch_tabs(groups: Seq<Seq<Seq<char>>>, key: Seq<char>) -> Seq<ToolTabView> {
    groups.map_values(
        |g: Seq<Seq<char>>|
            ToolTabView {
                title: message::said("key-batch-tab"@).number("count"@, g.len() as int),
                args: seq!["--install-key-batch"@, key] + g,
            },
    )
}

/// One tab for each host.
pub open spec fn host_tabs(hosts: Seq<(String, String)>, key: Seq<char>) -> Seq<ToolTabView> {
    hosts.map_values(
        |h: (String, String)|
            ToolTabView {
                title: message::said("key-tab"@).text("label"@, h.1@),
                args: seq!["--install-key"@, key, h.0@],
            },
    )
}

/// What the dialog shows and asks.
pub struct KeyDialog {
    /// (alias, label)
    pub hosts: Vec<(String, String)>,
    pub keys: Vec<String>,
    pub chosen: usize,
    /// One tab and one password for all the hosts.
    pub one_password: bool,
    pub error: Option<String>,
}

impl KeyDialog {
    /// For some hosts, with the public keys there are.
    pub fn new(hosts: Vec<(String, String)>, keys: Vec<String>) -> (r: KeyDialog)
        ensures
            r.hosts == hosts && r.keys == keys,
            r.chosen == 0 && r.one_password && r.error is None,
    {
        KeyDialog { hosts, keys, chosen: 0, one_password: true, error: None }
    }

    /// The hosts go in one tab.
    pub open spec fn in_one_tab(self) -> bool {
        self.hosts@.len() > 1 && self.one_password
    }

    /// Whether the hosts go in one tab.
    pub fn batch(&self) -> (r: bool)
        ensures
            r == self.in_one_tab(),
    {
        self.hosts.len() > 1 && self.one_password
    }

    /// The hosts, in words: how many, the first ones by name, how many more.
    pub fn hosts_text(&self) -> (r: Message)
        ensures
            ({
                let shown = if self.hosts@.len() < NAMED {
                    self.hosts@.len() as int
                } else {
                    NAMED as int
                };
                r@ == message::said("key-hosts"@).number("count"@, self.hosts@.len() as int).text(
                    "names"@,
                    text::joined_by(self.hosts@.take(shown).map_values(|h: (String, String)| h.1@), ", "@),
                ).number("more"@, self.hosts@.len() - shown)
            }),
    {
        let count: usize = self.hosts.len();
        let shown: usize = if count < NAMED {
            count
        } else {
            NAMED
        };
        let mut names: Vec<String> = Vec::new();
        let mut i: usize = 0;
        while i < shown
            invariant
                i <= shown <= self.hosts@.len(),
                names@.len() == i,
                forall|j: int| 0 <= j < i ==> (#[trigger] names@[j])@ == self.hosts@[j].1@,
            decreases shown - i,
        {
            names.push(self.hosts[i].1.clone());
            i += 1;
        }
        proof {
            assert(text::texts(names@) =~= self.hosts@.take(shown as int).map_values(|h: (String, String)| h.1@));
        }
        let list = text::join_by(&names, ", ");
        Message::new("key-hosts").number("count", count as i128).text("names", &list).number(
            "more",
            (count - shown) as i128,
        )
    }

    /// The tabs that install `key`, to be opened one after the other.
    pub fn tabs(&self, key: &str) -> (r: Vec<ToolTab>)
        ensures
            tool_tabs(r@) == (if self.in_one_tab() {
                batch_tabs(packed(aliases_of(self.hosts@), BATCH_LIMIT as nat).groups, key@)
            } else {
                host_tabs(self.hosts@, key@)
            }),
    {
        let mut out: Vec<ToolTab> = Vec::new();
        if self.batch() {
            let mut aliases: Vec<String> = Vec::new();
            let mut i: usize = 0;
            while i < self.hosts.len()
                invariant
                    i <= self.hosts@.len(),
                    aliases@.len() == i,
                    forall|j: int| 0 <= j < i ==> (#[trigger] aliases@[j])@ == self.hosts@[j].0@,
                decreases self.hosts@.len() - i,
            {
                aliases.push(self.hosts[i].0.clone());
                i += 1;
            }
            proof {
                assert(text::texts(aliases@) =~= aliases_of(self.hosts@));
            }
            let parts = batches(&aliases, BATCH_LIMIT);
            let ghost all = batch_tabs(groups(parts@), key@);
            let mut k: usize = 0;
            proof {
                assert(tool_tabs(out@) =~= all.take(0));
            }
            while k < parts.len()
                invariant
                    k <= parts@.len(),
                    all == batch_tabs(groups(parts@), key@),
                    tool_tabs(out@) == all.take(k as int),
                decreases parts@.len() - k,
            {
                let mut args: Vec<String> = Vec::new();
                args.push(text::owned("--install-key-batch"));
                args.push(text::owned(key));
                let mut more = text::copy_texts(&parts[k]);
                let ghost copied = more@;
                args.append(&mut more);
                let tab = ToolTab {
                    title: Message::new("key-batch-tab").number("count", parts[k].len() as i128),
                    args,
                };
                let ghost before = out@;
                out.push(tab);
                proof {
                    assert(groups(parts@)[k as int] == text::texts(parts@[k as int]@));
                    assert(text::texts(args@) =~= seq!["--install-key-batch"@, key@] + text::texts(copied));
                    assert(all[k as int] == tab@);
                    assert(tool_tabs(out@) =~= tool_tabs(before).push(tab@));
                    assert(all.take(k + 1) =~= all.take(k as int).push(tab@));
                }
                k += 1;
            }
            proof {
                assert(all.take(k as int) =~= all);
            }
        } else {
            let ghost all = host_tabs(self.hosts@, key@);
            let mut k: usize = 0;
            proof {
                assert(tool_tabs(out@) =~= all.take(0));
            }
            while k < self.hosts.len()
                invariant
                    k <= self.hosts@.len(),
                    all == host_tabs(self.hosts@, key@),
                    tool_tabs(out@) == all.take(k as int),
                decreases self.hosts@.len() - k,
            {
                let mut args: Vec<String> = Vec::new();
                args.push(text::owned("--install-key"));
                args.push(text::owned(key));
                args.push(self.hosts[k].0.clone());
                let tab = ToolTab { title: Message::new("key-tab").text("label", &self.hosts[k].1), args };
                let ghost before = out@;
                out.push(tab);
                proof {
                    assert(text::texts(args@) =~= seq!["--install-key"@, key@, self.hosts@[k as int].0@]);
                    assert(all[k as int] == tab@);
                    assert(tool_tabs(out@) =~= tool_tabs(before).push(tab@));
                    assert(all.take(k + 1) =~= all.take(k as int).push(tab@));
                }
                k += 1;
            }
            proof {
                assert(all.take(k as int) =~= all);
            }
        }
        out
    }
}

/// A public key's file is named with something before `.pub`.
pub proof fn law_public_key_files(name: Seq<char>)
    ensures
        is_public(name + ".pub"@) <==> name.len() > 0,
        is_public(name) ==> name.len() > 4 && name.skip(name.len() - 4) == ".pub"@,
{
    reveal_strlit(".pub");
    assert((name + ".pub"@).skip((name + ".pub"@).len() - 4) =~= ".pub"@);
}

/// The usual keys that are there come first, in their order, then every other
/// public key by name.
pub proof fn law_keys_offered(files: Seq<Seq<char>>, entries: Seq<Seq<char>>)
    ensures
        ({
            let a = if files.contains("id_ed25519.pub"@) { seq!["id_ed25519.pub"@] } else { Seq::empty() };
            let b = if files.contains("id_ecdsa.pub"@) { a.push("id_ecdsa.pub"@) } else { a };
            let first = if files.contains("id_rsa.pub"@) { b.push("id_rsa.pub"@) } else { b };
            keys_in(files, entries) == first + order::sorted(
                entries.filter(|n: Seq<char>| is_public(n) && !first.contains(n)),
            )
        }),
{
    let there = |n: Seq<char>| files.contains(n);
    let u = usual();
    reveal(Seq::filter);
    reveal_with_fuel(Seq::filter, 4);
    assert(u.drop_last() =~= seq!["id_ed25519.pub"@, "id_ecdsa.pub"@]);
    assert(u.drop_last().drop_last() =~= seq!["id_ed25519.pub"@]);
    assert(u.drop_last().drop_last().drop_last() =~= Seq::empty());
    assert(u.drop_last().drop_last().filter(there) =~= if files.contains("id_ed25519.pub"@) {
        seq!["id_ed25519.pub"@]
    } else {
        Seq::empty()
    });
    let a = if files.contains("id_ed25519.pub"@) { seq!["id_ed25519.pub"@] } else { Seq::empty() };
    let b = if files.contains("id_ecdsa.pub"@) { a.push("id_ecdsa.pub"@) } else { a };
    let first = if files.contains("id_rsa.pub"@) { b.push("id_rsa.pub"@) } else { b };
    assert(u.filter(there) == first);
    assert((|n: Seq<char>| is_public(n) && !first.contains(n)) =~= (|n: Seq<char>| is_public(n) && !first.contains(n)));
}

/// Hosts are put into the batch that is open while there is room, with one
/// byte between two; else they begin a new one.
pub proof fn law_filling_batches(p: Packed, alias: Seq<char>, aliases: Seq<Seq<char>>, limit: nat)
    ensures
        packed(Seq::empty(), limit).groups.len() == 0,
        packed(aliases.push(alias), limit) == packed_one(packed(aliases, limit), alias, limit),
        p.groups.len() == 0 || p.room + bytes(alias) >= limit ==> packed_one(p, alias, limit).groups == p.groups.push(
            seq![alias],
        ) && packed_one(p, alias, limit).room == bytes(alias) + 1,
        p.groups.len() > 0 && p.room + bytes(alias) < limit ==> packed_one(p, alias, limit).groups == p.groups.update(
            p.groups.len() - 1,
            p.groups.last().push(alias),
        ) && packed_one(p, alias, limit).room == p.room + bytes(alias) + 1,
{
    assert(aliases.push(alias).drop_last() =~= aliases);
    if p.groups.len() > 0 {
        assert(p.groups.drop_last().push(p.groups.last().push(alias)) =~= p.groups.update(
            p.groups.len() - 1,
            p.groups.last().push(alias),
        ));
    }
}

/// What a batch takes, and how batches are laid end to end.
pub proof fn law_room_of_a_batch(group: Seq<Seq<char>>, alias: Seq<char>, batches: Seq<Seq<Seq<char>>>, limit: nat)
    ensures
        group_room(Seq::empty()) == 0,
        group_room(group.push(alias)) == group_room(group) + vstd::utf8::encode_utf8(alias).len() + 1,
        flat(Seq::empty()).len() == 0,
        flat(batches.push(group)) == flat(batches) + group,
        fits(seq![alias], limit),
        !fits(Seq::empty(), limit),
        group.len() > 1 ==> (fits(group, limit) <==> group_room(group) <= limit),
{
    assert(group.push(alias).drop_last() =~= group);
    assert(batches.push(group).drop_last() =~= batches);
}

/// One tab for each host, or one for each batch, with what it is run with.
pub proof fn law_key_tabs(hosts: Seq<(String, String)>, batches: Seq<Seq<Seq<char>>>, key: Seq<char>, i: int)
    ensures
        host_tabs(hosts, key).len() == hosts.len(),
        0 <= i < hosts.len() ==> host_tabs(hosts, key)[i].args == seq!["--install-key"@, key, hosts[i].0@] && host_tabs(
            hosts,
            key,
        )[i].title == message::said("key-tab"@).text("label"@, hosts[i].1@),
        batch_tabs(batches, key).len() == batches.len(),
        0 <= i < batches.len() ==> batch_tabs(batches, key)[i].args == seq!["--install-key-batch"@, key] + batches[i]
            && batch_tabs(batches, key)[i].title == message::said("key-batch-tab"@).number("count"@, batches[i].len() as int),
        aliases_of(hosts).len() == hosts.len(),
        0 <= i < hosts.len() ==> aliases_of(hosts)[i] == hosts[i].0@,
{
}

/// One tab does for several hosts where they share a password.
pub proof fn law_one_tab_for_all(d: KeyDialog)
    ensures
        d.one_password && d.hosts@.len() >= 2 ==> d.in_one_tab(),
        !d.one_password || d.hosts@.len() <= 1 ==> !d.in_one_tab(),
{
}

/// How long a command may be, and how many hosts are named.
pub proof fn law_key_limits()
    ensures
        BATCH_LIMIT == 24000,
        NAMED == 8,
{
}

} // verus!
