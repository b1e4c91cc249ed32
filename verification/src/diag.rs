//! A small local log for troubleshooting: one file per day, pruned after a
//! fortnight. Nothing leaves the machine. What goes in: the starts and
//! stops, and every notice the user is shown.

use vstd::prelude::*;

use crate::commands;
use crate::dates;
use crate::text;

verus! {

/// Files older than this are removed at start.
pub const KEEP_DAYS: i64 = 14;

/// A day's file stops growing here (a loop of notices can't fill a disk).
pub const MAX_BYTES: u64 = 8388608;

/// The name of a day's file.
pub open spec fn file_named(date: Seq<char>) -> Seq<char> {
    "nativeterm-"@ + date + ".log"@
}

/// The name of the file that a line written on `date` belongs in.
pub fn file_for(date: &str) -> (r: String)
    ensures
        r@ == file_named(date@),
{
    let start = text::plus("nativeterm-", date);
    text::plus(&start, ".log")
}

/// The date in the name of one of our own log files.
pub open spec fn date_in(name: Seq<char>) -> Option<Seq<char>> {
    if text::has_prefix(name, "nativeterm-"@) {
        let rest = name.skip("nativeterm-"@.len() as int);
        if text::has_suffix(rest, ".log"@) {
            Some(rest.take(rest.len() - ".log"@.len()))
        } else {
            None
        }
    } else {
        None
    }
}

fn date_of(name: &str) -> (r: Option<String>)
    ensures
        text::optional(r) == date_in(name@),
{
    let chars = text::chars_of(name);
    let head = text::chars_of("nativeterm-");
    let tail = text::chars_of(".log");
    if !text::starts_with(&chars, &head) {
        return None;
    }
    let rest = text::part(&chars, head.len(), chars.len());
    proof {
        assert(rest@ =~= name@.skip("nativeterm-"@.len() as int));
    }
    if !text::ends_with(&rest, &tail) {
        return None;
    }
    let date = text::part(&rest, 0, rest.len() - tail.len());
    proof {
        assert(date@ =~= rest@.take(rest@.len() - ".log"@.len()));
    }
    Some(text::string_of(&date))
}

/// A file of this name is one of our own and older than a fortnight.
pub open spec fn is_stale(name: Seq<char>, today: Seq<char>) -> bool {
    match date_in(name) {
        Some(date) => match (dates::day_named(date), dates::day_named(today)) {
            (Some(from), Some(to)) => to - from > KEEP_DAYS,
            _ => false,
        },
        None => false,
    }
}

fn outdated(name: &str, today: &str) -> (r: bool)
    ensures
        r == is_stale(name@, today@),
{
    match date_of(name) {
        Some(date) => match dates::days_between(&date, today) {
            Some(days) => days > 14,
            None => false,
        },
        None => false,
    }
}

/// The names in a folder that are to be removed: our own log files older
/// than a fortnight, in their order.
pub fn stale(names: &[String], today: &str) -> (r: Vec<String>)
    ensures
        text::texts(r@) == text::texts(names@).filter(|n: Seq<char>| is_stale(n, today@)),
{
    let ghost all = text::texts(names@);
    let ghost f = |n: Seq<char>| is_stale(n, today@);
    let mut r: Vec<String> = Vec::new();
    let mut i: usize = 0;
    proof {
        reveal(Seq::filter);
        assert(text::texts(r@) =~= all.take(0).filter(f));
    }
    while i < names.len()
        invariant
            i <= names@.len(),
            all == text::texts(names@),
            f == (|n: Seq<char>| is_stale(n, today@)),
            text::texts(r@) == all.take(i as int).filter(f),
        decreases names@.len() - i,
    {
        proof {
            reveal(Seq::filter);
            assert(all.take(i + 1).drop_last() =~= all.take(i as int));
            assert(all.take(i + 1).last() == names@[i as int]@);
        }
        if outdated(&names[i], today) {
            let ghost before = r@;
            r.push(names[i].clone());
            proof {
                assert(text::texts(r@) =~= text::texts(before).push(names@[i as int]@));
            }
        }
        i += 1;
    }
    proof {
        assert(all.take(names@.len() as int) =~= all);
    }
    r
}

/// A file with `length` bytes still takes a line.
pub fn has_room(length: u64) -> (r: bool)
    ensures
        r == (length < MAX_BYTES),
{
    length < MAX_BYTES
}

/// A line end as a space, anything else as it is.
pub open spec fn flat(c: char) -> char {
    if c == '\r' || c == '\n' {
        ' '
    } else {
        c
    }
}

/// A text as one line: each line end is one space.
pub open spec fn one_line(s: Seq<char>) -> Seq<char> {
    commands::unix(s).map_values(|c: char| flat(c))
}

/// A line of the log.
pub open spec fn logged(date: Seq<char>, time: Seq<char>, what: Seq<char>) -> Seq<char> {
    date.push(' ') + time.push(' ') + one_line(what)
}

/// A line of the log: the date and the time in UTC, then the text, as one
/// line whatever it was.
pub fn line(date: &str, time: &str, text: &str) -> (r: String)
    ensures
        r@ == logged(date@, time@, text@),
{
    let mut chars = text::chars_of(date);
    chars.push(' ');
    let clock = text::chars_of(time);
    text::append(&mut chars, &clock);
    chars.push(' ');
    let ghost head = chars@;
    let said = text::chars_of(text);
    let what = commands::unix_chars(&said);
    let mut i: usize = 0;
    while i < what.len()
        invariant
            i <= what@.len(),
            what@ == commands::unix(text@),
            chars@ == head + one_line(text@).take(i as int),
        decreases what@.len() - i,
    {
        let c = what[i];
        chars.push(
            if c == '\r' || c == '\n' {
                ' '
            } else {
                c
            },
        );
        proof {
            assert(one_line(text@).take(i + 1) =~= one_line(text@).take(i as int).push(flat(c)));
        }
        i += 1;
    }
    proof {
        assert(one_line(text@).take(what@.len() as int) =~= one_line(text@));
        assert(chars@ =~= logged(date@, time@, text@));
    }
    text::string_of(&chars)
}

/// A line of the log has no line end in it, whatever the text was.
pub proof fn law_a_line_stays_one_line(date: Seq<char>, time: Seq<char>, what: Seq<char>)
    requires
        !date.contains('\n') && !date.contains('\r'),
        !time.contains('\n') && !time.contains('\r'),
    ensures
        !logged(date, time, what).contains('\n'),
        !logged(date, time, what).contains('\r'),
{
    let all = logged(date, time, what);
    let a = date.push(' ');
    let b = time.push(' ');
    assert forall|i: int| 0 <= i < all.len() implies all[i] != '\n' && all[i] != '\r' by {
        if i < date.len() {
            assert(all[i] == date[i]);
            assert(date.contains(date[i]));
        } else if i < a.len() {
            assert(all[i] == ' ');
        } else if i < a.len() + time.len() {
            assert(all[i] == time[i - a.len()]);
            assert(time.contains(time[i - a.len()]));
        } else if i < a.len() + b.len() {
            assert(all[i] == ' ');
        } else {
            let k = i - a.len() - b.len();
            assert(all[i] == one_line(what)[k]);
            assert(all[i] == flat(commands::unix(what)[k]));
        }
    }
}

/// The file of a day is recognised as ours, with its date.
pub proof fn law_our_files_are_ours(date: Seq<char>)
    ensures
        date_in(file_named(date)) == Some(date),
{
    let name = file_named(date);
    let head = "nativeterm-"@;
    let tail = ".log"@;
    assert(name.take(head.len() as int) =~= head);
    let rest = name.skip(head.len() as int);
    assert(rest =~= date + tail);
    assert(rest.skip(rest.len() - tail.len()) =~= tail);
    assert(rest.take(rest.len() - tail.len()) =~= date);
}

/// A day's file is named by its date; it is cleared away when it is more
/// than two weeks old, and nothing else ever is.
pub proof fn law_old_logs(date: Seq<char>, today: Seq<char>, name: Seq<char>)
    ensures
        file_named(date) == "nativeterm-"@ + date + ".log"@,
        dates::day_named(date) matches Some(from) ==> (dates::day_named(today) matches Some(to) ==> (is_stale(
            file_named(date),
            today,
        ) <==> to - from >= 15)),
        dates::day_named(date) is None || dates::day_named(today) is None ==> !is_stale(file_named(date), today),
        is_stale(name, today) ==> date_in(name) is Some && dates::day_named(date_in(name)->0) is Some,
        !text::has_prefix(name, "nativeterm-"@) ==> !is_stale(name, today),
        !text::has_suffix(name, ".log"@) ==> !is_stale(name, today),
{
    law_our_files_are_ours(date);
    if date_in(name) is Some && !text::has_suffix(name, ".log"@) {
        let n = "nativeterm-"@.len() as int;
        let rest = name.skip(n);
        assert(rest.skip(rest.len() - ".log"@.len()) =~= name.skip(name.len() - ".log"@.len()));
    }
}

/// A line of the log: date, time, and what is logged on one line, with line
/// ends as spaces.
pub proof fn law_log_lines(date: Seq<char>, time: Seq<char>, what: Seq<char>)
    ensures
        logged(date, time, what) == date + seq![' '] + time + seq![' '] + one_line(what),
        (forall|i: int| 0 <= i < what.len() ==> what[i] != '\r' && what[i] != '\n') ==> one_line(what).len() == commands::unix(what).len(),
        flat('\n') == ' ' && flat('\r') == ' ',
        forall|c: char| c != '\n' && c != '\r' ==> #[trigger] flat(c) == c,
        one_line(what).len() == commands::unix(what).len(),
        forall|i: int|
            0 <= i < commands::unix(what).len() && commands::unix(what)[i] != '\n' && commands::unix(what)[i] != '\r' ==> #[trigger] one_line(
                what,
            )[i] == commands::unix(what)[i],
{
    assert(logged(date, time, what) =~= date + seq![' '] + time + seq![' '] + one_line(what));
}

/// Files are kept for two weeks, and one grows to 8 MB.
pub proof fn law_how_much_is_kept()
    ensures
        KEEP_DAYS == 2 * 7,
        MAX_BYTES == 8 * 1024 * 1024,
{
}

} // verus!
