//! What the files window writes: sizes, durations, permissions, paths as
//! text.

use vstd::prelude::*;

use crate::dates;
use crate::message;
use crate::message::Message;
use crate::message::Notice;
use crate::message::NoticeView;
use crate::text;

verus! {

/// `n / d`, rounded to the nearest whole number; halves to the even one.
pub open spec fn rounded(n: int, d: int) -> int {
    let q = n / d;
    let r = n % d;
    if 2 * r < d || (2 * r == d && q % 2 == 0) {
        q
    } else {
        q + 1
    }
}

/// The step between neighbouring numbers of 53 binary digits near `n`.
pub open spec fn step_at(n: nat) -> int {
    if n < 0x20000000000000 {
        1
    } else if n < 0x40000000000000 {
        2
    } else if n < 0x80000000000000 {
        4
    } else if n < 0x100000000000000 {
        8
    } else if n < 0x200000000000000 {
        16
    } else if n < 0x400000000000000 {
        32
    } else if n < 0x800000000000000 {
        64
    } else if n < 0x1000000000000000 {
        128
    } else if n < 0x2000000000000000 {
        256
    } else if n < 0x4000000000000000 {
        512
    } else if n < 0x8000000000000000 {
        1024
    } else {
        2048
    }
}

/// A count as it is held to 53 binary digits.
pub open spec fn held(n: nat) -> int {
    rounded(n as int, step_at(n)) * step_at(n)
}

fn round(n: u128, d: u128) -> (r: u128)
    requires
        0 < d <= 0x100_0000_0000,
        n <= 0x1_0000_0000_0000_0000_0000,
    ensures
        r == rounded(n as int, d as int),
        r <= n + 1,
{
    let q: u128 = n / d;
    let left: u128 = n % d;
    proof {
        assert(q <= n && left < d) by (nonlinear_arith)
            requires
                q == n as int / d as int,
                left == n as int % d as int,
                d > 0,
                n >= 0,
        ;
    }
    if 2 * left < d || (2 * left == d && q % 2 == 0) {
        q
    } else {
        q + 1
    }
}

fn hold(n: u128) -> (r: u128)
    requires
        n <= u64::MAX,
    ensures
        r == held(n as nat),
        r <= 0x2_0000_0000_0000_0000,
{
    if n < 0x20000000000000 {
        n
    } else if n < 0x40000000000000 {
        round(n, 2) * 2
    } else if n < 0x80000000000000 {
        round(n, 4) * 4
    } else if n < 0x100000000000000 {
        round(n, 8) * 8
    } else if n < 0x200000000000000 {
        round(n, 16) * 16
    } else if n < 0x400000000000000 {
        round(n, 32) * 32
    } else if n < 0x800000000000000 {
        round(n, 64) * 64
    } else if n < 0x1000000000000000 {
        round(n, 128) * 128
    } else if n < 0x2000000000000000 {
        round(n, 256) * 256
    } else if n < 0x4000000000000000 {
        round(n, 512) * 512
    } else if n < 0x8000000000000000 {
        round(n, 1024) * 1024
    } else {
        round(n, 2048) * 2048
    }
}

/// A number of tenths, with one digit behind the point.
pub open spec fn tenths_text(n: nat) -> Seq<char> {
    text::decimal(n / 10) + "."@ + text::decimal(n % 10)
}

/// A size in words: bytes as they are, larger units with one digit behind
/// the point.
pub open spec fn size_words(bytes: u64) -> Seq<char> {
    let n = held(bytes as nat);
    if n < 1024 {
        text::decimal(bytes as nat) + " B"@
    } else if n < 0x10_0000 {
        tenths_text(rounded(10 * n, 1024) as nat) + " KB"@
    } else if n < 0x4000_0000 {
        tenths_text(rounded(10 * n, 0x10_0000) as nat) + " MB"@
    } else if n < 0x100_0000_0000 {
        tenths_text(rounded(10 * n, 0x4000_0000) as nat) + " GB"@
    } else {
        tenths_text(rounded(10 * n, 0x100_0000_0000) as nat) + " TB"@
    }
}

fn number(n: u128) -> (r: String)
    ensures
        r@ == text::decimal(n as nat),
{
    text::string_of(&text::decimal_chars(n))
}

fn with_tenths(n: u128, unit: &str) -> (r: String)
    ensures
        r@ == tenths_text(n as nat) + unit@,
{
    let r = text::plus(&number(n / 10), ".");
    let r = text::plus(&r, &number(n % 10));
    text::plus(&r, unit)
}

/// A size in words.
pub fn size_text(bytes: u64) -> (r: String)
    ensures
        r@ == size_words(bytes),
{
    let n: u128 = hold(bytes as u128);
    if n < 1024 {
        text::plus(&number(bytes as u128), " B")
    } else if n < 0x10_0000 {
        with_tenths(round(10 * n, 1024), " KB")
    } else if n < 0x4000_0000 {
        with_tenths(round(10 * n, 0x10_0000), " MB")
    } else if n < 0x100_0000_0000 {
        with_tenths(round(10 * n, 0x4000_0000), " GB")
    } else {
        with_tenths(round(10 * n, 0x100_0000_0000), " TB")
    }
}

/// A duration as a clock: `0:07`, `12:30`, `1:02:03`.
pub open spec fn clock_words(secs: u64) -> Seq<char> {
    let (h, m, s) = (secs / 3600, secs / 60 % 60, secs % 60);
    if h > 0 {
        text::decimal(h as nat) + ":"@ + dates::padded(m as nat, 2) + ":"@ + dates::padded(s as nat, 2)
    } else {
        text::decimal(m as nat) + ":"@ + dates::padded(s as nat, 2)
    }
}

/// A duration as a clock.
pub fn clock_text(secs: u64) -> (r: String)
    ensures
        r@ == clock_words(secs),
{
    let h: u64 = secs / 3600;
    let m: u64 = secs / 60 % 60;
    let s: u64 = secs % 60;
    let end = text::string_of(&dates::padded_chars(s as u128, 2));
    if h > 0 {
        let r = text::plus(&number(h as u128), ":");
        let minutes = text::string_of(&dates::padded_chars(m as u128, 2));
        let r = text::plus(&r, &minutes);
        let r = text::plus(&r, ":");
        text::plus(&r, &end)
    } else {
        let r = text::plus(&number(m as u128), ":");
        text::plus(&r, &end)
    }
}

/// What kind of file a mode says it is: the digit above the permissions.
pub open spec fn kind_of(mode: u32) -> char {
    let kind = mode / 4096 % 16;
    if kind == 4 {
        'd'
    } else if kind == 10 {
        'l'
    } else if kind == 2 {
        'c'
    } else if kind == 6 {
        'b'
    } else if kind == 1 {
        'p'
    } else if kind == 12 {
        's'
    } else {
        '-'
    }
}

/// The place of the permission to execute: with the special bit it is the
/// letter `mark`, or `only` where there is no permission besides it.
pub open spec fn execute_place(bits: u32, special: bool, mark: char, only: char) -> char {
    if special {
        if bits % 2 == 1 {
            mark
        } else {
            only
        }
    } else if bits % 2 == 1 {
        'x'
    } else {
        '-'
    }
}

/// Three permissions: read, write, execute.
pub open spec fn permissions(bits: u32, special: bool, mark: char, only: char) -> Seq<char> {
    seq![
        if bits / 4 % 2 == 1 {
            'r'
        } else {
            '-'
        },
        if bits / 2 % 2 == 1 {
            'w'
        } else {
            '-'
        },
        execute_place(bits, special, mark, only),
    ]
}

/// `drwxr-xr-x`, as `ls -l` shows it: the set-user-id, set-group-id and
/// sticky bits show in the places of the permissions to execute.
pub open spec fn mode_words(mode: u32) -> Seq<char> {
    seq![kind_of(mode)] + permissions(mode / 64, mode / 2048 % 2 == 1, 's', 'S') + permissions(
        mode / 8,
        mode / 1024 % 2 == 1,
        's',
        'S',
    ) + permissions(mode, mode / 512 % 2 == 1, 't', 'T')
}

fn push_permissions(out: &mut Vec<char>, bits: u32, special: bool, mark: char, only: char)
    ensures
        final(out)@ == old(out)@ + permissions(bits, special, mark, only),
{
    let ghost before = out@;
    out.push(
        if bits / 4 % 2 == 1 {
            'r'
        } else {
            '-'
        },
    );
    out.push(
        if bits / 2 % 2 == 1 {
            'w'
        } else {
            '-'
        },
    );
    out.push(
        if special {
            if bits % 2 == 1 {
                mark
            } else {
                only
            }
        } else if bits % 2 == 1 {
            'x'
        } else {
            '-'
        },
    );
    proof {
        assert(out@ =~= before + permissions(bits, special, mark, only));
    }
}

/// `drwxr-xr-x`, as `ls -l` shows it.
pub fn mode_text(mode: u32) -> (r: String)
    ensures
        r@ == mode_words(mode),
{
    let kind: u32 = mode / 4096 % 16;
    let mut out: Vec<char> = Vec::new();
    out.push(
        if kind == 4 {
            'd'
        } else if kind == 10 {
            'l'
        } else if kind == 2 {
            'c'
        } else if kind == 6 {
            'b'
        } else if kind == 1 {
            'p'
        } else if kind == 12 {
            's'
        } else {
            '-'
        },
    );
    push_permissions(&mut out, mode / 64, mode / 2048 % 2 == 1, 's', 'S');
    push_permissions(&mut out, mode / 8, mode / 1024 % 2 == 1, 's', 'S');
    push_permissions(&mut out, mode, mode / 512 % 2 == 1, 't', 'T');
    proof {
        assert(out@ =~= mode_words(mode));
    }
    text::string_of(&out)
}

/// A hexadecimal digit, in lower case.
pub open spec fn hex_char(n: int) -> char {
    if n < 10 {
        ('0' as u8 + n) as u8 as char
    } else {
        ('a' as u8 + n - 10) as u8 as char
    }
}

/// Bytes as hexadecimal digits, two each.
pub open spec fn hex_of(bytes: Seq<u8>) -> Seq<char>
    decreases bytes.len(),
{
    if bytes.len() == 0 {
        Seq::empty()
    } else {
        hex_of(bytes.drop_last()) + seq![
            hex_char(bytes.last() as int / 16),
            hex_char(bytes.last() as int % 16),
        ]
    }
}

fn to_hex(n: u8) -> (r: char)
    requires
        n < 16,
    ensures
        r == hex_char(n as int),
{
    if n < 10 {
        (48u8 + n) as char
    } else {
        (87u8 + n) as char
    }
}

/// A server's path (bytes, maybe not UTF-8) as text for the settings.
pub fn hex(bytes: &[u8]) -> (r: String)
    ensures
        r@ == hex_of(bytes@),
{
    let mut out: Vec<char> = Vec::new();
    let mut i: usize = 0;
    proof {
        assert(out@ =~= hex_of(bytes@.take(0)));
    }
    while i < bytes.len()
        invariant
            i <= bytes@.len(),
            out@ == hex_of(bytes@.take(i as int)),
        decreases bytes@.len() - i,
    {
        let ghost before = out@;
        out.push(to_hex(bytes[i] / 16));
        out.push(to_hex(bytes[i] % 16));
        proof {
            assert(bytes@.take(i + 1).drop_last() =~= bytes@.take(i as int));
            assert(out@ =~= hex_of(bytes@.take(i + 1)));
        }
        i += 1;
    }
    proof {
        assert(bytes@.take(i as int) =~= bytes@);
    }
    text::string_of(&out)
}

/// What a hexadecimal digit stands for.
pub open spec fn hex_value(c: char) -> Option<int> {
    if '0' <= c <= '9' {
        Some(c as int - '0' as int)
    } else if 'a' <= c <= 'f' {
        Some(c as int - 'a' as int + 10)
    } else if 'A' <= c <= 'F' {
        Some(c as int - 'A' as int + 10)
    } else {
        None
    }
}

/// What two characters stand for: two digits, or a plus sign and one.
pub open spec fn pair_value(a: char, b: char) -> Option<int> {
    match (hex_value(a), hex_value(b)) {
        (Some(x), Some(y)) => Some(16 * x + y),
        (None, Some(y)) => if a == '+' {
            Some(y)
        } else {
            None
        },
        _ => None,
    }
}

/// The bytes that hexadecimal digits stand for.
pub open spec fn bytes_in(s: Seq<char>) -> Option<Seq<u8>>
    decreases s.len(),
{
    if s.len() == 0 {
        Some(Seq::empty())
    } else if s.len() == 1 {
        None
    } else {
        match (bytes_in(s.take(s.len() - 2)), pair_value(s[s.len() - 2], s[s.len() - 1])) {
            (Some(rest), Some(b)) => Some(rest.push(b as u8)),
            _ => None,
        }
    }
}

fn from_hex(c: char) -> (r: Option<u8>)
    ensures
        match r {
            Some(n) => hex_value(c) == Some(n as int) && n < 16,
            None => hex_value(c) is None,
        },
{
    if '0' <= c && c <= '9' {
        Some((c as u32 - 48) as u8)
    } else if 'a' <= c && c <= 'f' {
        Some((c as u32 - 87) as u8)
    } else if 'A' <= c && c <= 'F' {
        Some((c as u32 - 55) as u8)
    } else {
        None
    }
}

proof fn lemma_bad_pair(s: Seq<char>, i: int)
    requires
        0 <= i,
        i + 1 < s.len(),
        i % 2 == 0,
        pair_value(s[i], s[i + 1]) is None,
    ensures
        bytes_in(s) is None,
    decreases s.len(),
{
    if i + 2 < s.len() && s.len() != 1 {
        let rest = s.take(s.len() - 2);
        if i + 1 < rest.len() {
            assert(rest[i] == s[i] && rest[i + 1] == s[i + 1]);
            lemma_bad_pair(rest, i);
        } else {
            // an odd number of characters
            lemma_odd(s);
        }
    }
}

proof fn lemma_odd(s: Seq<char>)
    requires
        s.len() % 2 == 1,
    ensures
        bytes_in(s) is None,
    decreases s.len(),
{
    if s.len() > 1 {
        lemma_odd(s.take(s.len() - 2));
    }
}

/// The bytes that hexadecimal digits stand for, if the text is made of such.
pub fn unhex(text: &str) -> (r: Option<Vec<u8>>)
    ensures
        (match r {
            Some(b) => Some(b@),
            None => None,
        }) == bytes_in(text@),
{
    let s = text::chars_of(text);
    let n: usize = s.len();
    if n % 2 == 1 {
        proof {
            lemma_odd(s@);
        }
        return None;
    }
    let mut out: Vec<u8> = Vec::new();
    let mut i: usize = 0;
    proof {
        assert(s@.take(0) =~= Seq::empty());
        assert(out@ =~= Seq::empty());
    }
    while i < n
        invariant
            i <= n == s@.len(),
            n % 2 == 0,
            i % 2 == 0,
            s@ == text@,
            bytes_in(s@.take(i as int)) == Some(out@),
        decreases n - i,
    {
        let value: Option<u8> = match (from_hex(s[i]), from_hex(s[i + 1])) {
            (Some(x), Some(y)) => Some(16 * x + y),
            (None, Some(y)) => if s[i] == '+' {
                Some(y)
            } else {
                None
            },
            _ => None,
        };
        match value {
            Some(b) => {
                proof {
                    let t = s@.take(i + 2);
                    assert(t.take(t.len() - 2) =~= s@.take(i as int));
                    assert(t[t.len() - 2] == s@[i as int] && t[t.len() - 1] == s@[i + 1]);
                }
                out.push(b);
            },
            None => {
                proof {
                    lemma_bad_pair(s@, i as int);
                }
                return None;
            },
        }
        i += 2;
    }
    proof {
        assert(s@.take(i as int) =~= s@);
    }
    Some(out)
}

proof fn lemma_hex_digit(n: int)
    requires
        0 <= n < 16,
    ensures
        hex_value(hex_char(n)) == Some(n),
{
}

/// A path kept as text is read back byte for byte.
pub proof fn law_hex_reads_back(bytes: Seq<u8>)
    ensures
        bytes_in(hex_of(bytes)) == Some(bytes),
    decreases bytes.len(),
{
    if bytes.len() > 0 {
        let rest = bytes.drop_last();
        let b = bytes.last() as int;
        law_hex_reads_back(rest);
        lemma_hex_digit(b / 16);
        lemma_hex_digit(b % 16);
        let s = hex_of(bytes);
        assert(s.take(s.len() - 2) =~= hex_of(rest));
        assert(s[s.len() - 2] == hex_char(b / 16) && s[s.len() - 1] == hex_char(b % 16));
        assert(rest.push(bytes.last()) =~= bytes);
    } else {
        assert(bytes =~= Seq::empty());
    }
}

/// A path without the slashes it ends in.
pub open spec fn without_slashes(path: Seq<u8>) -> Seq<u8>
    decreases path.len(),
{
    if path.len() > 0 && path.last() == 0x2f {
        without_slashes(path.drop_last())
    } else {
        path
    }
}

/// What stands behind the last slash.
pub open spec fn after_slash(path: Seq<u8>) -> Seq<u8>
    decreases path.len(),
{
    if path.len() == 0 || path.last() == 0x2f {
        Seq::empty()
    } else {
        after_slash(path.drop_last()).push(path.last())
    }
}

/// A path's last part that is not empty; a path without one as it is.
pub open spec fn last_part(path: Seq<u8>) -> Seq<u8> {
    if without_slashes(path).len() == 0 {
        path
    } else {
        after_slash(without_slashes(path))
    }
}

/// The bytes from `from` to `to`.
pub fn cut(s: &[u8], from: usize, to: usize) -> (r: Vec<u8>)
    requires
        from <= to <= s@.len(),
    ensures
        r@ == s@.subrange(from as int, to as int),
{
    let mut r: Vec<u8> = Vec::new();
    let mut i: usize = from;
    while i < to
        invariant
            from <= i <= to <= s@.len(),
            r@ == s@.subrange(from as int, i as int),
        decreases to - i,
    {
        r.push(s[i]);
        proof {
            assert(s@.subrange(from as int, i + 1) =~= s@.subrange(from as int, i as int).push(s@[i as int]));
        }
        i += 1;
    }
    r
}

proof fn lemma_after_slash(path: Seq<u8>, from: int, to: int)
    requires
        0 <= from <= to <= path.len(),
        forall|j: int| from <= j < to ==> path[j] != 0x2f,
        from > 0 ==> path[from - 1] == 0x2f,
    ensures
        after_slash(path.take(to)) == path.subrange(from, to),
    decreases to - from,
{
    let t = path.take(to);
    if from < to {
        assert(t.drop_last() =~= path.take(to - 1));
        assert(t.last() == path[to - 1]);
        lemma_after_slash(path, from, to - 1);
        assert(path.subrange(from, to - 1).push(path[to - 1]) =~= path.subrange(from, to));
    } else {
        if to > 0 {
            assert(t.last() == path[to - 1]);
        }
        assert(path.subrange(from, to) =~= Seq::empty());
    }
}

/// A path's last part.
pub fn last(path: &[u8]) -> (r: Vec<u8>)
    ensures
        r@ == last_part(path@),
{
    let mut to: usize = path.len();
    proof {
        assert(path@.take(to as int) =~= path@);
    }
    while to > 0 && path[to - 1] == 0x2f
        invariant
            to <= path@.len(),
            without_slashes(path@) == without_slashes(path@.take(to as int)),
        decreases to,
    {
        proof {
            assert(path@.take(to as int).drop_last() =~= path@.take(to - 1));
        }
        to -= 1;
    }
    proof {
        assert(without_slashes(path@) == path@.take(to as int));
    }
    if to == 0 {
        let all = cut(path, 0, path.len());
        proof {
            assert(all@ =~= path@);
        }
        return all;
    }
    let mut from: usize = to;
    while from > 0 && path[from - 1] != 0x2f
        invariant
            from <= to <= path@.len(),
            forall|j: int| from <= j < to ==> path@[j] != 0x2f,
        decreases from,
    {
        from -= 1;
    }
    proof {
        lemma_after_slash(path@, from as int, to as int);
    }
    cut(path, from, to)
}

/// A name in a folder: one slash between them.
pub open spec fn in_folder(folder: Seq<u8>, name: Seq<u8>) -> Seq<u8> {
    if folder.len() > 0 && folder.last() == 0x2f {
        folder + name
    } else {
        folder.push(0x2f) + name
    }
}

/// A name in a folder.
pub fn join(folder: &[u8], name: &[u8]) -> (r: Vec<u8>)
    ensures
        r@ == in_folder(folder@, name@),
{
    let n: usize = folder.len();
    let mut r = cut(folder, 0, n);
    proof {
        assert(r@ =~= folder@);
    }
    if n == 0 || folder[n - 1] != 0x2f {
        r.push(0x2f);
    }
    let ghost head = r@;
    let mut i: usize = 0;
    while i < name.len()
        invariant
            i <= name@.len(),
            r@ == head + name@.take(i as int),
        decreases name@.len() - i,
    {
        r.push(name[i]);
        proof {
            assert(name@.take(i + 1) =~= name@.take(i as int).push(name@[i as int]));
            assert(r@ =~= head + name@.take(i + 1));
        }
        i += 1;
    }
    proof {
        assert(name@.take(i as int) =~= name@);
    }
    r
}

/// The last part is no longer than the path.
pub proof fn lemma_after_slash_length(path: Seq<u8>)
    ensures
        after_slash(path).len() <= path.len(),
        path.len() > 0 && path.last() != 0x2f ==> after_slash(path).len() > 0,
    decreases path.len(),
{
    if path.len() > 0 && path.last() != 0x2f {
        lemma_after_slash_length(path.drop_last());
    }
}

/// The parts of a path that are not empty.
pub open spec fn parts_of(path: Seq<u8>) -> Seq<Seq<u8>>
    decreases path.len(),
{
    if path.len() == 0 {
        Seq::empty()
    } else if path.last() == 0x2f {
        parts_of(path.drop_last())
    } else {
        let part = after_slash(path);
        proof {
            lemma_after_slash_length(path);
        }
        parts_of(path.take(path.len() - part.len())).push(part)
    }
}

/// The folders from the top down to the end of these parts.
pub open spec fn chain_of(parts: Seq<Seq<u8>>) -> Seq<Seq<u8>>
    decreases parts.len(),
{
    if parts.len() == 0 {
        seq![seq![0x2fu8]]
    } else {
        let above = chain_of(parts.drop_last());
        above.push(in_folder(above.last(), parts.last()))
    }
}

/// What some files are called together: the name of one, or the first and
/// how many more.
pub open spec fn described(names: Seq<Seq<char>>) -> NoticeView {
    if names.len() == 0 {
        NoticeView::Plain(Seq::empty())
    } else if names.len() == 1 {
        NoticeView::Plain(names[0])
    } else {
        NoticeView::Said(
            message::said("files-and-more"@).text("first"@, names[0]).number("count"@, names.len() - 1),
        )
    }
}

/// What some files are called together.
pub fn describe(names: &[String]) -> (r: Notice)
    ensures
        r@ == described(text::texts(names@)),
{
    if names.len() == 0 {
        let none = String::new();
        proof {
            assert(none@ =~= Seq::empty());
        }
        Notice::Plain(none)
    } else if names.len() == 1 {
        Notice::Plain(names[0].clone())
    } else {
        Notice::Said(
            Message::new("files-and-more").text("first", &names[0]).number("count", (names.len() - 1) as i128),
        )
    }
}

/// The setting that keeps a host's last folder on the server.
pub fn remote_key_for(alias: &str) -> (r: String)
    ensures
        r@ == "files.remote:"@ + alias@,
{
    text::plus("files.remote:", alias)
}

/// The setting that keeps a host's last local folder.
pub fn local_key_for(alias: &str) -> (r: String)
    ensures
        r@ == "files.local:"@ + alias@,
{
    text::plus("files.local:", alias)
}

/// A character that a tmux session's name keeps.
pub open spec fn is_plain(c: char) -> bool {
    text::is_ascii_alnum(c) || c == '-' || c == '_'
}

/// What is kept of a tmux session's name.
pub open spec fn kept_name(session: Seq<char>) -> Seq<char> {
    session.filter(|c: char| is_plain(c))
}

/// The command that asks for the current folder of a tmux session, with
/// nothing in its name that a shell would read otherwise.
pub open spec fn folder_command(session: Seq<char>) -> Seq<char> {
    "sh -c 'tmux display-message -p -t ="@ + kept_name(session)
        + ": \"#{pane_current_path}\"'"@
}

/// The command that asks for the current folder of a tmux session.
pub fn terminal_folder_command(session: &str) -> (r: String)
    ensures
        r@ == folder_command(session@),
{
    let chars = text::chars_of(session);
    let ghost f = |c: char| is_plain(c);
    let mut kept: Vec<char> = Vec::new();
    let mut i: usize = 0;
    proof {
        reveal(Seq::filter);
        assert(kept@ =~= chars@.take(0).filter(f));
    }
    while i < chars.len()
        invariant
            i <= chars@.len(),
            f == (|c: char| is_plain(c)),
            kept@ == chars@.take(i as int).filter(f),
        decreases chars@.len() - i,
    {
        proof {
            reveal(Seq::filter);
            assert(chars@.take(i + 1).drop_last() =~= chars@.take(i as int));
        }
        let c = chars[i];
        if text::ascii_alnum(c) || c == '-' || c == '_' {
            kept.push(c);
        }
        i += 1;
    }
    proof {
        assert(chars@.take(i as int) =~= chars@);
    }
    let name = text::string_of(&kept);
    let start = text::plus("sh -c 'tmux display-message -p -t =", &name);
    text::plus(&start, ": \"#{pane_current_path}\"'")
}

/// Nothing that a shell would read otherwise comes from a session's name.
pub proof fn law_the_name_stays_a_name(session: Seq<char>)
    ensures
        forall|i: int| 0 <= i < kept_name(session).len() ==> is_plain(#[trigger] kept_name(session)[i]),
{
    let f = |c: char| is_plain(c);
    assert forall|i: int| 0 <= i < kept_name(session).len() implies is_plain(#[trigger] kept_name(session)[i]) by {
        session.lemma_filter_pred(f, i);
    }
}

/// The folder that a terminal answered: its first line end taken off, if it
/// is a full path.
pub open spec fn answered_folder(out: Seq<u8>) -> Option<Seq<u8>> {
    let path = if out.len() > 0 && out.last() == 0x0a {
        out.drop_last()
    } else {
        out
    };
    if path.len() > 0 && path[0] == 0x2f {
        Some(path)
    } else {
        None
    }
}

/// The folder that a terminal answered.
pub fn terminal_folder(out: &[u8]) -> (r: Option<Vec<u8>>)
    ensures
        (match r {
            Some(p) => Some(p@),
            None => None,
        }) == answered_folder(out@),
{
    let n: usize = out.len();
    let to: usize = if n > 0 && out[n - 1] == 0x0a {
        n - 1
    } else {
        n
    };
    if to > 0 && out[0] == 0x2f {
        let path = cut(out, 0, to);
        proof {
            assert(path@ =~= out@.take(to as int));
            if to < n {
                assert(out@.drop_last() =~= out@.take(to as int));
            } else {
                assert(out@.take(to as int) =~= out@);
            }
        }
        Some(path)
    } else {
        None
    }
}

/// The folder that is shown first on the server's side: the terminal's, else
/// the one shown last if it is still a folder, else home.
pub fn start_folder(terminal: Option<Vec<u8>>, last: Option<Vec<u8>>, still_there: bool, home: Vec<u8>) -> (r: Vec<u8>)
    ensures
        r == (match terminal {
            Some(t) => t,
            None => match last {
                Some(l) => if still_there {
                    l
                } else {
                    home
                },
                None => home,
            },
        }),
{
    match terminal {
        Some(t) => t,
        None => match last {
            Some(l) => if still_there {
                l
            } else {
                home
            },
            None => home,
        },
    }
}

/// The folder above: what stands before the last part, `/` at the top.
pub open spec fn parent_of(path: Seq<u8>) -> Seq<u8> {
    let p = without_slashes(path);
    let above = without_slashes(p.take(p.len() - after_slash(p).len()));
    if above.len() == 0 {
        seq![0x2fu8]
    } else {
        above
    }
}

/// The folder above a path.
pub fn parent(path: &[u8]) -> (r: Vec<u8>)
    ensures
        r@ == parent_of(path@),
{
    let mut to: usize = path.len();
    proof {
        assert(path@.take(to as int) =~= path@);
    }
    while to > 0 && path[to - 1] == 0x2f
        invariant
            to <= path@.len(),
            without_slashes(path@) == without_slashes(path@.take(to as int)),
        decreases to,
    {
        proof {
            assert(path@.take(to as int).drop_last() =~= path@.take(to - 1));
        }
        to -= 1;
    }
    let ghost p = path@.take(to as int);
    let mut from: usize = to;
    while from > 0 && path[from - 1] != 0x2f
        invariant
            from <= to <= path@.len(),
            forall|j: int| from <= j < to ==> path@[j] != 0x2f,
        decreases from,
    {
        from -= 1;
    }
    proof {
        assert(without_slashes(path@) == p);
        lemma_after_slash(path@, from as int, to as int);
        assert(p.take(p.len() - after_slash(p).len()) =~= path@.take(from as int));
    }
    let ghost above = path@.take(from as int);
    while from > 0 && path[from - 1] == 0x2f
        invariant
            from <= path@.len(),
            without_slashes(above) == without_slashes(path@.take(from as int)),
        decreases from,
    {
        proof {
            assert(path@.take(from as int).drop_last() =~= path@.take(from - 1));
        }
        from -= 1;
    }
    proof {
        assert(without_slashes(above) == path@.take(from as int));
    }
    if from == 0 {
        let mut top: Vec<u8> = Vec::new();
        top.push(0x2f);
        proof {
            assert(top@ =~= seq![0x2fu8]);
        }
        return top;
    }
    let r = cut(path, 0, from);
    proof {
        assert(r@ =~= path@.take(from as int));
    }
    r
}

/// The paths of a list.
pub open spec fn paths(v: Seq<Vec<u8>>) -> Seq<Seq<u8>> {
    v.map_values(|p: Vec<u8>| p@)
}

proof fn lemma_parts(path: Seq<u8>, from: int, to: int)
    requires
        0 <= from < to <= path.len(),
        forall|j: int| from <= j < to ==> path[j] != 0x2f,
        from > 0 ==> path[from - 1] == 0x2f,
    ensures
        parts_of(path.take(to)) == parts_of(path.take(from)).push(path.subrange(from, to)),
{
    let t = path.take(to);
    lemma_after_slash(path, from, to);
    assert(t.last() == path[to - 1]);
    assert(t.take(t.len() - after_slash(t).len()) =~= path.take(from));
}

/// The folders from `/` down to a path, to be opened one after the other.
pub fn chain(path: &[u8]) -> (r: Vec<Vec<u8>>)
    ensures
        paths(r@) == chain_of(parts_of(path@)),
{
    let mut out: Vec<Vec<u8>> = Vec::new();
    let mut at: Vec<u8> = Vec::new();
    at.push(0x2f);
    let first = cut(&at, 0, 1);
    out.push(first);
    let mut i: usize = 0;
    proof {
        assert(at@ =~= seq![0x2fu8]);
        assert(first@ =~= at@);
        assert(path@.take(0) =~= Seq::empty());
        assert(paths(out@) =~= chain_of(parts_of(path@.take(0))));
    }
    while i < path.len()
        invariant
            i <= path@.len(),
            i > 0 && i < path@.len() ==> path@[i - 1] == 0x2f || path@[i as int] == 0x2f,
            paths(out@) == chain_of(parts_of(path@.take(i as int))),
            chain_of(parts_of(path@.take(i as int))).len() > 0,
            at@ == chain_of(parts_of(path@.take(i as int))).last(),
        decreases path@.len() - i,
    {
        if path[i] == 0x2f {
            proof {
                let t = path@.take(i + 1);
                assert(t.last() == 0x2f);
                assert(t.drop_last() =~= path@.take(i as int));
            }
            i += 1;
        } else {
            let from: usize = i;
            let mut to: usize = i;
            while to < path.len() && path[to] != 0x2f
                invariant
                    from <= to <= path@.len(),
                    forall|j: int| from <= j < to ==> path@[j] != 0x2f,
                decreases path@.len() - to,
            {
                to += 1;
            }
            let part = cut(path, from, to);
            let next = join(&at, &part);
            proof {
                lemma_parts(path@, from as int, to as int);
                let parts = parts_of(path@.take(from as int)).push(part@);
                assert(parts.drop_last() =~= parts_of(path@.take(from as int)));
            }
            let kept = cut(&next, 0, next.len());
            let ghost before = out@;
            out.push(kept);
            proof {
                assert(kept@ =~= next@);
                assert(paths(out@) =~= paths(before).push(next@));
            }
            at = next;
            i = to;
        }
    }
    proof {
        assert(path@.take(i as int) =~= path@);
    }
    out
}

/// A hexadecimal digit as a byte.
pub open spec fn hex_byte(d: int) -> u8 {
    if d < 10 {
        (0x30 + d) as u8
    } else {
        (0x57 + d) as u8
    }
}

/// A number in hexadecimal digits, without leading zeros.
pub open spec fn hex_number(n: nat) -> Seq<u8>
    decreases n,
{
    if n < 16 {
        seq![hex_byte(n as int)]
    } else {
        hex_number(n / 16).push(hex_byte((n % 16) as int))
    }
}

fn hex_bytes(n: u64) -> (r: Vec<u8>)
    ensures
        r@ == hex_number(n as nat),
    decreases n,
{
    let d: u8 = (n % 16) as u8;
    let digit: u8 = if d < 10 {
        0x30 + d
    } else {
        0x57 + d
    };
    let mut r: Vec<u8> = if n < 16 {
        Vec::new()
    } else {
        hex_bytes(n / 16)
    };
    r.push(digit);
    proof {
        assert(r@ =~= hex_number(n as nat));
    }
    r
}

/// The name of a temporary file: hidden, with a mark of its own at the end.
pub open spec fn temp_name(name: Seq<u8>, unique: u64) -> Seq<u8> {
    seq![0x2eu8] + name + seq![0x2eu8, 0x6eu8, 0x74u8, 0x2du8] + hex_number(unique as nat)
}

/// Where a file is uploaded to before it replaces `remote`: a temporary
/// file in the same folder, so that the server's file is never half
/// written.
pub fn temp_path(remote: &[u8], unique: u64) -> (r: Vec<u8>)
    ensures
        r@ == in_folder(parent_of(remote@), temp_name(last_part(remote@), unique)),
{
    let mut name: Vec<u8> = vec![0x2e];
    let own = last(remote);
    append_bytes(&mut name, &own);
    let mark: Vec<u8> = vec![0x2e, 0x6e, 0x74, 0x2d];
    append_bytes(&mut name, &mark);
    let digits = hex_bytes(unique);
    append_bytes(&mut name, &digits);
    proof {
        assert(mark@ =~= seq![0x2eu8, 0x6eu8, 0x74u8, 0x2du8]);
        assert(name@ =~= temp_name(last_part(remote@), unique));
    }
    join(&parent(remote), &name)
}

fn append_bytes(a: &mut Vec<u8>, b: &[u8])
    ensures
        final(a)@ == old(a)@ + b@,
{
    let mut i: usize = 0;
    proof {
        assert(a@ =~= old(a)@ + b@.take(0));
    }
    while i < b.len()
        invariant
            i <= b@.len(),
            a@ == old(a)@ + b@.take(i as int),
        decreases b@.len() - i,
    {
        a.push(b[i]);
        proof {
            assert(a@ =~= old(a)@ + b@.take(i + 1));
        }
        i += 1;
    }
    proof {
        assert(b@.take(i as int) =~= b@);
    }
}

/// What "copy path" puts on the clipboard: the paths that are selected, one
/// to a line.
pub fn copied_paths(shown: &[String]) -> (r: String)
    ensures
        r@ == text::joined_by(text::texts(shown@), "\n"@),
{
    text::join_by(shown, "\n")
}

/// A size up to eight petabytes is told in the largest unit it reaches,
/// with one decimal: the nearest tenth, wherever it lies between two.
pub proof fn law_sizes(bytes: u64, n: nat)
    ensures
        bytes < 1024 ==> size_words(bytes) == text::decimal(bytes as nat) + " B"@,
        1024 <= bytes < 0x10_0000 && -1024 < 2 * (10 * bytes - 1024 * n) < 1024 ==> size_words(bytes) == text::decimal(n / 10)
            + "."@ + text::decimal(n % 10) + " KB"@,
        0x10_0000 <= bytes < 0x4000_0000 && -0x10_0000 < 2 * (10 * bytes - 0x10_0000 * n) < 0x10_0000 ==> size_words(bytes)
            == text::decimal(n / 10) + "."@ + text::decimal(n % 10) + " MB"@,
        0x4000_0000 <= bytes < 0x100_0000_0000 && -0x4000_0000 < 2 * (10 * bytes - 0x4000_0000 * n) < 0x4000_0000 ==> size_words(
            bytes,
        ) == text::decimal(n / 10) + "."@ + text::decimal(n % 10) + " GB"@,
        0x100_0000_0000 <= bytes < 0x20_0000_0000_0000 && -0x100_0000_0000 < 2 * (10 * bytes - 0x100_0000_0000 * n)
            < 0x100_0000_0000 ==> size_words(bytes) == text::decimal(n / 10) + "."@ + text::decimal(n % 10) + " TB"@,
{
}

/// Rounding goes to the nearest whole number, from the middle to the even
/// one.
pub proof fn law_rounding(n: int, d: int)
    requires
        d > 0,
    ensures
        -d <= 2 * (n - d * rounded(n, d)) <= d,
        2 * (n - d * rounded(n, d)) == d || 2 * (n - d * rounded(n, d)) == -d ==> rounded(n, d) % 2 == 0,
{
    let q = n / d;
    let r = n % d;
    assert(n == d * q + r && 0 <= r < d) by (nonlinear_arith)
        requires
            d > 0,
            q == n / d,
            r == n % d,
    ;
    assert(d * (q + 1) == d * q + d) by (nonlinear_arith);
}

/// A time is told in hours, minutes and seconds, the hours left out where
/// there are none.
pub proof fn law_clock(h: u64, m: u64, s: u64)
    requires
        h <= 1_000_000_000,
        m < 60,
        s < 60,
    ensures
        h > 0 ==> clock_words((3600 * h + 60 * m + s) as u64) == text::decimal(h as nat) + ":"@ + dates::padded(m as nat, 2) + ":"@
            + dates::padded(s as nat, 2),
        clock_words((60 * m + s) as u64) == text::decimal(m as nat) + ":"@ + dates::padded(s as nat, 2),
{
    let all = (3600 * h + 60 * m + s) as u64;
    assert(all / 3600 == h);
    assert(all / 60 == 60 * h + m);
    assert(all / 60 % 60 == m);
    assert(all % 60 == s);
    let few = (60 * m + s) as u64;
    assert(few / 3600 == 0);
    assert(few / 60 == m);
    assert(few % 60 == s);
}

/// The kind of a file, as `ls -l` shows it.
pub proof fn law_kinds_of_files(rest: u32)
    requires
        rest < 4096,
    ensures
        mode_words((0o040000 + rest) as u32)[0] == 'd',
        mode_words((0o100000 + rest) as u32)[0] == '-',
        mode_words((0o120000 + rest) as u32)[0] == 'l',
        mode_words((0o020000 + rest) as u32)[0] == 'c',
        mode_words((0o060000 + rest) as u32)[0] == 'b',
        mode_words((0o010000 + rest) as u32)[0] == 'p',
        mode_words((0o140000 + rest) as u32)[0] == 's',
{
}

/// What a mode allows: a letter for each bit that is set, a dash for each
/// that isn't; the special bits take the place of execution.
pub proof fn law_permissions(mode: u32)
    ensures
        mode_words(mode).len() == 10,
        mode_words(mode)[1] == (if mode / 256 % 2 == 1 { 'r' } else { '-' }),
        mode_words(mode)[2] == (if mode / 128 % 2 == 1 { 'w' } else { '-' }),
        mode_words(mode)[4] == (if mode / 32 % 2 == 1 { 'r' } else { '-' }),
        mode_words(mode)[5] == (if mode / 16 % 2 == 1 { 'w' } else { '-' }),
        mode_words(mode)[7] == (if mode / 4 % 2 == 1 { 'r' } else { '-' }),
        mode_words(mode)[8] == (if mode / 2 % 2 == 1 { 'w' } else { '-' }),
        mode_words(mode)[3] == (if mode / 2048 % 2 == 1 {
            if mode / 64 % 2 == 1 { 's' } else { 'S' }
        } else {
            if mode / 64 % 2 == 1 { 'x' } else { '-' }
        }),
        mode_words(mode)[6] == (if mode / 1024 % 2 == 1 {
            if mode / 8 % 2 == 1 { 's' } else { 'S' }
        } else {
            if mode / 8 % 2 == 1 { 'x' } else { '-' }
        }),
        mode_words(mode)[9] == (if mode / 512 % 2 == 1 {
            if mode % 2 == 1 { 't' } else { 'T' }
        } else {
            if mode % 2 == 1 { 'x' } else { '-' }
        }),
{
    assert(mode / 64 / 4 == mode / 256 && mode / 64 / 2 == mode / 128);
    assert(mode / 8 / 4 == mode / 32 && mode / 8 / 2 == mode / 16);
}

/// Bytes are written with two digits of the sixteen each.
pub proof fn law_hex_digits(bytes: Seq<u8>, b: u8)
    ensures
        hex_of(Seq::empty()) == Seq::<char>::empty(),
        hex_of(bytes.push(b)) == hex_of(bytes) + seq![
            "0123456789abcdef"@[b as int / 16],
            "0123456789abcdef"@[b as int % 16],
        ],
{
    reveal_strlit("0123456789abcdef");
    assert(bytes.push(b).drop_last() =~= bytes);
    lemma_hex_name(b as int / 16);
    lemma_hex_name(b as int % 16);
}

proof fn lemma_hex_name(n: int)
    requires
        0 <= n < 16,
    ensures
        hex_char(n) == "0123456789abcdef"@[n],
{
    reveal_strlit("0123456789abcdef");
    if n < 10 {
        assert(hex_char(n) as int == '0' as int + n);
    } else {
        assert(hex_char(n) as int == 'a' as int + n - 10);
    }
}

/// What is no pair of digits is no byte.
pub proof fn law_what_is_no_hex(s: Seq<char>, a: char, b: char)
    ensures
        bytes_in(seq![a]) is None,
        bytes_in(s) is None ==> bytes_in(s.push(a).push(b)) is None,
        !text::is_hex_digit(b) ==> bytes_in(s.push(a).push(b)) is None,
        !text::is_hex_digit(a) && a != '+' ==> bytes_in(s.push(a).push(b)) is None,
{
    let t = s.push(a).push(b);
    assert(t.take(t.len() - 2) =~= s);
}

/// Slashes at the end of a path are nothing.
pub proof fn law_slashes(path: Seq<u8>)
    ensures
        without_slashes(path.push(0x2f)) == without_slashes(path),
        path.len() == 0 || path[path.len() - 1] != 0x2f ==> without_slashes(path) == path,
{
    assert(path.push(0x2f).drop_last() =~= path);
}

proof fn lemma_after_slash_is(folder: Seq<u8>, name: Seq<u8>)
    requires
        !name.contains(0x2f),
    ensures
        after_slash(folder.push(0x2f) + name) == name,
        after_slash(name) == name,
    decreases name.len(),
{
    let p = folder.push(0x2f) + name;
    if name.len() == 0 {
        assert(p =~= folder.push(0x2f));
        assert(name =~= Seq::empty());
    } else {
        let front = name.drop_last();
        assert(!front.contains(0x2f)) by {
            if front.contains(0x2f) {
                let i = choose|i: int| 0 <= i < front.len() && front[i] == 0x2f;
                assert(name[i] == 0x2f);
            }
        }
        lemma_after_slash_is(folder, front);
        assert(p.drop_last() =~= folder.push(0x2f) + front);
        assert(p.last() == name.last());
        assert(name[name.len() - 1] == name.last());
        assert(name.last() != 0x2f);
        assert(front.push(name.last()) =~= name);
    }
}

/// A name in a folder: it is the path's last part, the folder is its
/// parent, and the parts are the folder's and the name.
pub proof fn law_names_in_folders(folder: Seq<u8>, name: Seq<u8>)
    requires
        name.len() > 0,
        !name.contains(0x2f),
        folder.len() > 0 ==> folder[folder.len() - 1] != 0x2f,
    ensures
        in_folder(folder, name) == folder + seq![0x2fu8] + name,
        in_folder(folder.push(0x2f), name) == folder + seq![0x2fu8] + name,
        last_part(folder + seq![0x2fu8] + name) == name,
        last_part((folder + seq![0x2fu8] + name).push(0x2f)) == name,
        last_part(name) == name,
        folder.len() > 0 ==> parent_of(folder + seq![0x2fu8] + name) == folder,
        parent_of(seq![0x2fu8] + name) == seq![0x2fu8],
        parts_of(folder + seq![0x2fu8] + name) == parts_of(folder).push(name),
        parts_of(name) == seq![name],
        parts_of(Seq::empty()) == Seq::<Seq<u8>>::empty(),
        parts_of(folder.push(0x2f)) == parts_of(folder),
{
    let p = folder + seq![0x2fu8] + name;
    assert(p =~= folder.push(0x2f) + name);
    assert(folder.push(0x2f).push(0x2f).drop_last() =~= folder.push(0x2f));
    assert(name[name.len() - 1] == name.last());
    assert(p.last() == name.last());
    assert(name.last() != 0x2f);
    lemma_after_slash_is(folder, name);
    lemma_after_slash_is(Seq::empty(), name);
    law_slashes(p);
    law_slashes(name);
    law_slashes(folder);
    let n = p.len() - name.len();
    assert(p.take(n) =~= folder.push(0x2f));
    let root = seq![0x2fu8] + name;
    assert(root =~= Seq::<u8>::empty().push(0x2f) + name);
    assert(root.last() == name.last());
    law_slashes(root);
    assert(root.take(root.len() - name.len()) =~= Seq::<u8>::empty().push(0x2f));
    law_slashes(Seq::empty());
    assert(folder.push(0x2f).drop_last() =~= folder);
    assert(parts_of(folder.push(0x2f)) == parts_of(folder));
    assert(name.take(0) =~= Seq::empty());
    let none = name.take(name.len() - name.len());
    assert(none =~= Seq::<u8>::empty());
    assert(parts_of(none) =~= Seq::<Seq<u8>>::empty());
    assert(after_slash(name) == name);
    assert(parts_of(name) == parts_of(none).push(name));
    assert(parts_of(none).push(name) =~= seq![name]);
    if folder.len() == 0 {
        assert(folder =~= Seq::empty());
    }
}

/// The way to a folder begins at the root and goes down part by part.
pub proof fn law_chains(parts: Seq<Seq<u8>>, name: Seq<u8>)
    ensures
        chain_of(Seq::empty()) == seq![seq![0x2fu8]],
        chain_of(parts).len() == parts.len() + 1,
        chain_of(parts.push(name)) == chain_of(parts).push(in_folder(chain_of(parts).last(), name)),
    decreases parts.len(),
{
    assert(parts.push(name).drop_last() =~= parts);
    if parts.len() > 0 {
        law_chains(parts.drop_last(), name);
    }
}

/// What a selection is called: by its name, or by the first and how many
/// more.
pub proof fn law_described(names: Seq<Seq<char>>)
    ensures
        names.len() == 1 ==> described(names) == NoticeView::Plain(names[0]),
        names.len() > 1 ==> described(names) == NoticeView::Said(
            message::said("files-and-more"@).text("first"@, names[0]).number("count"@, names.len() - 1),
        ),
{
}

/// Of a session's name only letters, digits, dashes and underscores go into
/// the command that asks for its folder.
pub proof fn law_names_in_commands(session: Seq<char>, c: char)
    ensures
        kept_name(Seq::empty()) == Seq::<char>::empty(),
        (('a' <= c <= 'z') || ('A' <= c <= 'Z') || ('0' <= c <= '9') || c == '-' || c == '_') ==> kept_name(session.push(c))
            == kept_name(session).push(c),
        !(('a' <= c <= 'z') || ('A' <= c <= 'Z') || ('0' <= c <= '9') || c == '-' || c == '_') ==> kept_name(session.push(c))
            == kept_name(session),
        folder_command(session) == "sh -c 'tmux display-message -p -t ="@ + kept_name(session)
            + ": \"#{pane_current_path}\"'"@,
{
    reveal(Seq::filter);
    assert(session.push(c).drop_last() =~= session);
    assert(kept_name(Seq::empty()) =~= Seq::<char>::empty());
}

/// An answer is a folder where it is a full path; the line end behind it is
/// no part of it.
pub proof fn law_folders_answered(path: Seq<u8>)
    ensures
        answered_folder(Seq::empty()) is None,
        path.len() > 0 && path[0] == 0x2f && path[path.len() - 1] != 0x0a ==> answered_folder(path) == Some(path)
            && answered_folder(path.push(0x0a)) == Some(path),
        path.len() > 0 && path[0] != 0x2f ==> answered_folder(path) is None,
{
    assert(path.push(0x0a).drop_last() =~= path);
}

/// A temporary name is hidden, holds the name, and ends in a number of its
/// own.
pub proof fn law_temporary_names(name: Seq<u8>, unique: u64, n: nat, d: nat)
    requires
        d < 16,
    ensures
        temp_name(name, unique) == seq![0x2eu8] + name + seq![0x2eu8, 0x6eu8, 0x74u8, 0x2du8] + hex_number(unique as nat),
        d < 10 ==> hex_number(d) == seq![(0x30 + d) as u8],
        d >= 10 ==> hex_number(d) == seq![(0x61 + d - 10) as u8],
        n > 0 ==> hex_number(16 * n + d) == hex_number(n) + hex_number(d),
{
    if n > 0 {
        let m = 16 * n + d;
        assert(m / 16 == n && m % 16 == d) by (nonlinear_arith)
            requires
                m == 16 * n + d,
                d < 16,
        ;
        assert(hex_number(n) + hex_number(d) =~= hex_number(n).push(hex_byte(d as int)));
    }
}

} // verus!
