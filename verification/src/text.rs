//! Text as sequences of characters: the trimming, splitting, searching and
//! number writing that the other modules are stated over.

use vstd::prelude::*;

verus! {

/// `String::push`: the character is appended at the end.
pub assume_specification[ String::push ](s: &mut String, c: char)
    ensures
        final(s)@ == old(s)@.push(c),
;

/// The characters of `s`, in order.
pub fn chars_of(s: &str) -> (r: Vec<char>)
    ensures
        r@ == s@,
{
    let mut r: Vec<char> = Vec::new();
    for c in it: s.chars()
        invariant
            it.seq() == s@,
            r@ == s@.take(it.index() as int),
    {
        r.push(c);
        proof {
            assert(s@.take(it.index() + 1) =~= s@.take(it.index() as int).push(c));
        }
    }
    proof {
        assert(s@.take(s@.len() as int) =~= s@);
    }
    r
}

/// The text made of `chars`.
pub fn string_of(chars: &[char]) -> (r: String)
    ensures
        r@ == chars@,
{
    let mut r = String::new();
    let mut i: usize = 0;
    while i < chars.len()
        invariant
            i <= chars@.len(),
            r@ == chars@.take(i as int),
        decreases chars@.len() - i,
    {
        r.push(chars[i]);
        proof {
            assert(chars@.take(i + 1) =~= chars@.take(i as int).push(chars@[i as int]));
        }
        i += 1;
    }
    proof {
        assert(chars@.take(chars@.len() as int) =~= chars@);
    }
    r
}

/// The characters of `s` at `from` up to (not including) `to`.
pub fn part(s: &[char], from: usize, to: usize) -> (r: Vec<char>)
    requires
        from <= to <= s@.len(),
    ensures
        r@ == s@.subrange(from as int, to as int),
{
    let mut r: Vec<char> = Vec::new();
    let mut i: usize = from;
    while i < to
        invariant
            from <= i <= to <= s@.len(),
            r@ == s@.subrange(from as int, i as int),
        decreases to - i,
    {
        r.push(s[i]);
        proof {
            assert(s@.subrange(from as int, i + 1) =~= s@.subrange(from as int, i as int).push(s@[i as int]));
        }
        i += 1;
    }
    r
}

/// `a` followed by `b`.
pub fn append(a: &mut Vec<char>, b: &[char])
    ensures
        final(a)@ == old(a)@ + b@,
{
    let mut i: usize = 0;
    while i < b.len()
        invariant
            i <= b@.len(),
            a@ == old(a)@ + b@.take(i as int),
        decreases b@.len() - i,
    {
        a.push(b[i]);
        proof {
            assert(b@.take(i + 1) =~= b@.take(i as int).push(b@[i as int]));
            assert(a@ =~= old(a)@ + b@.take(i + 1));
        }
        i += 1;
    }
    proof {
        assert(b@.take(b@.len() as int) =~= b@);
    }
}

/// Whether `a` and `b` hold the same characters.
pub fn same_chars(a: &[char], b: &[char]) -> (r: bool)
    ensures
        r == (a@ == b@),
{
    if a.len() != b.len() {
        return false;
    }
    let mut i: usize = 0;
    while i < a.len()
        invariant
            i <= a@.len(),
            a@.len() == b@.len(),
            forall|j: int| 0 <= j < i ==> a@[j] == b@[j],
        decreases a@.len() - i,
    {
        if a[i] != b[i] {
            return false;
        }
        i += 1;
    }
    proof {
        assert(a@ =~= b@);
    }
    true
}

/// Whether `a` and `b` are the same text.
pub fn same(a: &str, b: &str) -> (r: bool)
    ensures
        r == (a@ == b@),
{
    let x = chars_of(a);
    let y = chars_of(b);
    same_chars(&x, &y)
}

/// `s` as an owned text.
pub fn owned(s: &str) -> (r: String)
    ensures
        r@ == s@,
{
    let chars = chars_of(s);
    string_of(&chars)
}

/// Whether `s` begins with `prefix`.
pub open spec fn has_prefix(s: Seq<char>, prefix: Seq<char>) -> bool {
    prefix.len() <= s.len() && s.take(prefix.len() as int) == prefix
}

pub fn starts_with(s: &[char], prefix: &[char]) -> (r: bool)
    ensures
        r == has_prefix(s@, prefix@),
{
    if prefix.len() > s.len() {
        return false;
    }
    let start = part(s, 0, prefix.len());
    proof {
        assert(start@ =~= s@.take(prefix@.len() as int));
    }
    same_chars(&start, prefix)
}

/// Whether `s` ends with `suffix`.
pub open spec fn has_suffix(s: Seq<char>, suffix: Seq<char>) -> bool {
    suffix.len() <= s.len() && s.skip(s.len() - suffix.len()) == suffix
}

pub fn ends_with(s: &[char], suffix: &[char]) -> (r: bool)
    ensures
        r == has_suffix(s@, suffix@),
{
    if suffix.len() > s.len() {
        return false;
    }
    let end = part(s, s.len() - suffix.len(), s.len());
    proof {
        assert(end@ =~= s@.skip(s@.len() - suffix@.len()));
    }
    same_chars(&end, suffix)
}

/// Unicode's `White_Space` property.
pub open spec fn is_white(c: char) -> bool {
    let n = c as int;
    ||| 0x9 <= n <= 0xd
    ||| n == 0x20
    ||| n == 0x85
    ||| n == 0xa0
    ||| n == 0x1680
    ||| 0x2000 <= n <= 0x200a
    ||| n == 0x2028
    ||| n == 0x2029
    ||| n == 0x202f
    ||| n == 0x205f
    ||| n == 0x3000
}

pub fn white(c: char) -> (r: bool)
    ensures
        r == is_white(c),
{
    let n: u32 = c as u32;
    (0x9 <= n && n <= 0xd) || n == 0x20 || n == 0x85 || n == 0xa0 || n == 0x1680 || (0x2000 <= n && n <= 0x200a)
        || n == 0x2028 || n == 0x2029 || n == 0x202f || n == 0x205f || n == 0x3000
}

/// `s` without the white space at its ends.
pub open spec fn trimmed(s: Seq<char>) -> Seq<char>
    decreases s.len(),
{
    if s.len() == 0 {
        s
    } else if is_white(s.first()) {
        trimmed(s.skip(1))
    } else if is_white(s.last()) {
        trimmed(s.drop_last())
    } else {
        s
    }
}

pub fn trim(s: &[char]) -> (r: Vec<char>)
    ensures
        r@ == trimmed(s@),
{
    let mut from: usize = 0;
    let mut to: usize = s.len();
    proof {
        assert(s@.subrange(0, s@.len() as int) =~= s@);
    }
    while from < to && white(s[from])
        invariant
            from <= to == s@.len(),
            trimmed(s@) == trimmed(s@.subrange(from as int, to as int)),
        decreases to - from,
    {
        proof {
            let rest = s@.subrange(from as int, to as int);
            assert(rest.first() == s@[from as int]);
            assert(rest.skip(1) =~= s@.subrange(from + 1, to as int));
        }
        from += 1;
    }
    while from < to && white(s[to - 1])
        invariant
            from <= to <= s@.len(),
            from < to ==> !is_white(s@[from as int]),
            trimmed(s@) == trimmed(s@.subrange(from as int, to as int)),
        decreases to - from,
    {
        proof {
            let rest = s@.subrange(from as int, to as int);
            assert(rest.first() == s@[from as int]);
            assert(rest.last() == s@[to - 1]);
            assert(rest.drop_last() =~= s@.subrange(from as int, to - 1));
        }
        to -= 1;
    }
    proof {
        let rest = s@.subrange(from as int, to as int);
        if from < to {
            assert(rest.first() == s@[from as int]);
            assert(rest.last() == s@[to - 1]);
        }
        assert(trimmed(rest) == rest);
    }
    part(s, from, to)
}

/// Text without white space at its ends is left alone.
pub proof fn lemma_trimmed_plain(s: Seq<char>)
    requires
        forall|i: int| 0 <= i < s.len() ==> !is_white(#[trigger] s[i]),
    ensures
        trimmed(s) == s,
{
}

/// Whether `c` occurs in `s`.
pub fn contains_char(s: &[char], c: char) -> (r: bool)
    ensures
        r == s@.contains(c),
{
    let mut i: usize = 0;
    while i < s.len()
        invariant
            i <= s@.len(),
            forall|j: int| 0 <= j < i ==> s@[j] != c,
        decreases s@.len() - i,
    {
        if s[i] == c {
            return true;
        }
        i += 1;
    }
    false
}

/// Where `c` occurs first in `s`.
pub open spec fn first_at(s: Seq<char>, c: char) -> Option<int>
    decreases s.len(),
{
    if s.len() == 0 {
        None
    } else if s.first() == c {
        Some(0)
    } else {
        match first_at(s.skip(1), c) {
            Some(i) => Some(i + 1),
            None => None,
        }
    }
}

/// What `first_at` finds: the character, and nothing like it before.
pub proof fn lemma_first_at(s: Seq<char>, c: char)
    ensures
        match first_at(s, c) {
            Some(i) => 0 <= i < s.len() && s[i] == c && forall|j: int| 0 <= j < i ==> s[j] != c,
            None => forall|j: int| 0 <= j < s.len() ==> s[j] != c,
        },
    decreases s.len(),
{
    if s.len() > 0 && s.first() != c {
        let rest = s.skip(1);
        lemma_first_at(rest, c);
        assert forall|j: int| 0 < j < s.len() implies s[j] == #[trigger] rest[j - 1] by {}
        match first_at(rest, c) {
            Some(i) => {
                assert forall|j: int| 0 <= j < i + 1 implies s[j] != c by {
                    if j > 0 {
                        assert(rest[j - 1] != c);
                    }
                }
            },
            None => {
                assert forall|j: int| 0 <= j < s.len() implies s[j] != c by {
                    if j > 0 {
                        assert(rest[j - 1] != c);
                    }
                }
            },
        }
    }
}

/// The position that has `c`, and nothing like it before, is the one found.
pub proof fn lemma_first_at_is(s: Seq<char>, c: char, i: int)
    requires
        0 <= i < s.len(),
        s[i] == c,
        forall|j: int| 0 <= j < i ==> s[j] != c,
    ensures
        first_at(s, c) == Some(i),
{
    lemma_first_at(s, c);
    let k = first_at(s, c);
    if k is None {
        assert(s[i] != c);
    } else if k->0 < i {
        assert(s[k->0] != c);
    } else if k->0 > i {
        assert(s[i] != c);
    }
}

/// Where `c` occurs first in `s`.
pub fn find_char(s: &[char], c: char) -> (r: Option<usize>)
    ensures
        match r {
            Some(i) => first_at(s@, c) == Some(i as int) && i < s@.len(),
            None => first_at(s@, c) is None,
        },
{
    let mut i: usize = 0;
    while i < s.len()
        invariant
            i <= s@.len(),
            forall|j: int| 0 <= j < i ==> s@[j] != c,
        decreases s@.len() - i,
    {
        if s[i] == c {
            proof {
                lemma_first_at_is(s@, c, i as int);
            }
            return Some(i);
        }
        i += 1;
    }
    proof {
        lemma_first_at(s@, c);
    }
    None
}

/// The parts of `s` between the characters `c`: one more than there are
/// of them.
pub open spec fn split_on(s: Seq<char>, c: char) -> Seq<Seq<char>>
    decreases s.len(),
{
    match first_at(s, c) {
        Some(i) => if 0 <= i < s.len() {
            seq![s.take(i)] + split_on(s.skip(i + 1), c)
        } else {
            seq![s]
        },
        None => seq![s],
    }
}

/// The parts of a list of character lists, as sequences.
pub open spec fn deep(v: Seq<Vec<char>>) -> Seq<Seq<char>> {
    v.map_values(|x: Vec<char>| x@)
}

pub fn split(s: &[char], c: char) -> (r: Vec<Vec<char>>)
    ensures
        deep(r@) == split_on(s@, c),
{
    let mut r: Vec<Vec<char>> = Vec::new();
    let mut from: usize = 0;
    let mut i: usize = 0;
    proof {
        assert(s@.skip(0) =~= s@);
        assert(deep(r@) + split_on(s@, c) =~= split_on(s@, c));
    }
    while i < s.len()
        invariant
            from <= i <= s@.len(),
            forall|j: int| from <= j < i ==> s@[j] != c,
            deep(r@) + split_on(s@.skip(from as int), c) == split_on(s@, c),
        decreases s@.len() - i,
    {
        if s[i] == c {
            let piece = part(s, from, i);
            let ghost before = r@;
            r.push(piece);
            proof {
                let rest = s@.skip(from as int);
                assert forall|j: int| 0 <= j < i - from implies rest[j] != c by {
                    assert(rest[j] == s@[from + j]);
                }
                lemma_first_at_is(rest, c, i - from);
                assert(rest.take(i - from) =~= piece@);
                assert(rest.skip(i - from + 1) =~= s@.skip(i + 1));
                assert(deep(r@) =~= deep(before).push(piece@));
                assert(deep(r@) + split_on(s@.skip(i + 1), c) =~= deep(before) + split_on(rest, c));
            }
            from = i + 1;
        }
        i += 1;
    }
    let piece = part(s, from, s.len());
    let ghost before = r@;
    r.push(piece);
    proof {
        let rest = s@.skip(from as int);
        lemma_first_at(rest, c);
        match first_at(rest, c) {
            Some(k) => {
                assert(rest[k] == s@[from + k]);
            },
            None => {},
        }
        assert(piece@ =~= rest);
        assert(deep(r@) =~= deep(before) + seq![rest]);
    }
    r
}

/// Every character of the parts comes from `s`, and `s` holds nothing else
/// but the separator.
pub proof fn lemma_split_chars(s: Seq<char>, c: char, i: int)
    requires
        0 <= i < s.len(),
        s[i] != c,
    ensures
        exists|p: int, k: int|
            0 <= p < split_on(s, c).len() && 0 <= k < split_on(s, c)[p].len() && #[trigger] split_on(s, c)[p][k] == s[i],
    decreases s.len(),
{
    lemma_first_at(s, c);
    match first_at(s, c) {
        Some(at) => {
            let tail = split_on(s.skip(at + 1), c);
            let all = split_on(s, c);
            assert(all =~= seq![s.take(at)] + tail);
            if i < at {
                assert(all[0][i] == s[i]);
            } else {
                let rest = s.skip(at + 1);
                assert(rest[i - at - 1] == s[i]);
                lemma_split_chars(rest, c, i - at - 1);
                let (p, k) = choose|p: int, k: int|
                    0 <= p < tail.len() && 0 <= k < tail[p].len() && #[trigger] tail[p][k] == rest[i - at - 1];
                assert(all[p + 1] == tail[p]);
                assert(all[p + 1][k] == s[i]);
            }
        },
        None => {
            assert(split_on(s, c)[0][i] == s[i]);
        },
    }
}

/// There is always at least one part.
pub proof fn lemma_split_nonempty(s: Seq<char>, c: char)
    ensures
        split_on(s, c).len() >= 1,
    decreases s.len(),
{
    lemma_first_at(s, c);
    match first_at(s, c) {
        Some(at) => {
            lemma_split_nonempty(s.skip(at + 1), c);
        },
        None => {},
    }
}

/// A decimal digit.
pub open spec fn is_digit(c: char) -> bool {
    '0' <= c <= '9'
}

/// The digit that stands for `n` (below ten).
pub open spec fn digit(n: int) -> char {
    ('0' as int + n) as char
}

/// What the digit `c` stands for.
pub open spec fn digit_value(c: char) -> int {
    c as int - '0' as int
}

/// `n` in decimal.
pub open spec fn decimal(n: nat) -> Seq<char>
    decreases n,
{
    if n < 10 {
        seq![digit(n as int)]
    } else {
        decimal(n / 10).push(digit((n % 10) as int))
    }
}

/// What a row of decimal digits stands for.
pub open spec fn digits_value(s: Seq<char>) -> int
    decreases s.len(),
{
    if s.len() == 0 {
        0
    } else {
        digits_value(s.drop_last()) * 10 + digit_value(s.last())
    }
}

/// A row of decimal digits, at least one.
pub open spec fn all_digits(s: Seq<char>) -> bool {
    s.len() > 0 && forall|i: int| 0 <= i < s.len() ==> is_digit(#[trigger] s[i])
}

fn digit_char(n: u8) -> (c: char)
    requires
        n < 10,
    ensures
        c == digit(n as int),
        is_digit(c),
        digit_value(c) == n,
{
    (48u8 + n) as char
}

/// Writing a number gives digits that stand for it.
pub proof fn lemma_decimal(n: nat)
    ensures
        all_digits(decimal(n)),
        digits_value(decimal(n)) == n,
        decimal(n).len() > 1 ==> decimal(n).first() != '0',
    decreases n,
{
    reveal_with_fuel(digits_value, 2);
    if n >= 10 {
        let front = decimal(n / 10);
        lemma_decimal(n / 10);
        let d = decimal(n);
        assert(d.drop_last() =~= front);
        assert(d.first() == front.first());
        if front.len() == 1 {
            assert(front[0] == digit((n / 10) as int));
        }
        assert forall|i: int| 0 <= i < d.len() implies is_digit(#[trigger] d[i]) by {
            if i < front.len() {
                assert(d[i] == front[i]);
            }
        }
    } else {
        let d = decimal(n);
        assert(d.drop_last() =~= Seq::<char>::empty());
        assert(digits_value(d.drop_last()) == 0);
    }
}

/// Different numbers are written differently.
pub proof fn lemma_decimal_injective(a: nat, b: nat)
    requires
        decimal(a) == decimal(b),
    ensures
        a == b,
{
    lemma_decimal(a);
    lemma_decimal(b);
}

/// `n` in decimal, as characters.
pub fn decimal_chars(n: u128) -> (r: Vec<char>)
    ensures
        r@ == decimal(n as nat),
    decreases n,
{
    if n < 10 {
        let mut r: Vec<char> = Vec::new();
        r.push(digit_char(n as u8));
        proof {
            assert(r@ =~= decimal(n as nat));
        }
        r
    } else {
        let mut r = decimal_chars(n / 10);
        r.push(digit_char((n % 10) as u8));
        r
    }
}

/// Whether every character is a decimal digit, and there is one.
pub fn is_all_digits(s: &[char]) -> (r: bool)
    ensures
        r == all_digits(s@),
{
    let mut i: usize = 0;
    while i < s.len()
        invariant
            i <= s@.len(),
            forall|j: int| 0 <= j < i ==> is_digit(#[trigger] s@[j]),
        decreases s@.len() - i,
    {
        if !('0' <= s[i] && s[i] <= '9') {
            proof {
                assert(!is_digit(s@[i as int]));
            }
            return false;
        }
        i += 1;
    }
    s.len() > 0
}

/// The number written in `s`: decimal digits, with one `+` allowed before
/// them.
pub open spec fn number_of(s: Seq<char>) -> Option<int> {
    let digits = if s.len() > 0 && s.first() == '+' {
        s.skip(1)
    } else {
        s
    };
    if all_digits(digits) {
        Some(digits_value(digits))
    } else {
        None
    }
}

proof fn lemma_digits_value_grows(s: Seq<char>, i: int)
    requires
        all_digits(s),
        0 <= i <= s.len(),
    ensures
        0 <= digits_value(s.take(i)) <= digits_value(s),
    decreases s.len() - i,
{
    if i == s.len() {
        assert(s.take(i) =~= s);
        lemma_digits_value_nonnegative(s);
    } else {
        lemma_digits_value_grows(s, i + 1);
        assert(s.take(i + 1).drop_last() =~= s.take(i));
        assert(s.take(i + 1).last() == s[i]);
        assert(is_digit(s[i]));
        assert forall|j: int| 0 <= j < s.take(i).len() implies is_digit(#[trigger] s.take(i)[j]) by {
            assert(is_digit(s[j]));
        }
        lemma_digits_value_nonnegative(s.take(i));
    }
}

proof fn lemma_digits_value_nonnegative(s: Seq<char>)
    requires
        forall|i: int| 0 <= i < s.len() ==> is_digit(#[trigger] s[i]),
    ensures
        0 <= digits_value(s),
    decreases s.len(),
{
    if s.len() > 0 {
        assert(is_digit(s.last()));
        lemma_digits_value_nonnegative(s.drop_last());
    }
}

/// The number written in `s`, where it is at most `max`.
pub fn parse_number(s: &[char], max: u64) -> (r: Option<u64>)
    ensures
        match number_of(s@) {
            Some(n) => if n <= max {
                r == Some(n as u64) && n >= 0
            } else {
                r is None
            },
            None => r is None,
        },
{
    let from: usize = if s.len() > 0 && s[0] == '+' {
        1
    } else {
        0
    };
    let digits = part(s, from, s.len());
    proof {
        if from == 1 {
            assert(digits@ =~= s@.skip(1));
        } else {
            assert(digits@ =~= s@);
        }
    }
    if !is_all_digits(&digits) {
        return None;
    }
    let mut n: u128 = 0;
    let mut i: usize = 0;
    while i < digits.len()
        invariant
            i <= digits@.len(),
            all_digits(digits@),
            n == digits_value(digits@.take(i as int)),
            n <= max,
            Some(digits_value(digits@)) == number_of(s@),
        decreases digits@.len() - i,
    {
        proof {
            assert(is_digit(digits@[i as int]));
            assert(digits@.take(i + 1).drop_last() =~= digits@.take(i as int));
            assert(digits@.take(i + 1).last() == digits@[i as int]);
        }
        let d: u128 = (digits[i] as u32 - 48) as u128;
        n = n * 10 + d;
        if n > max as u128 {
            proof {
                lemma_digits_value_grows(digits@, i + 1);
            }
            return None;
        }
        i += 1;
    }
    proof {
        assert(digits@.take(digits@.len() as int) =~= digits@);
    }
    Some(n as u64)
}

/// Where `c` occurs last in `s`.
pub open spec fn last_at(s: Seq<char>, c: char) -> Option<int>
    decreases s.len(),
{
    if s.len() == 0 {
        None
    } else if s.last() == c {
        Some(s.len() - 1)
    } else {
        last_at(s.drop_last(), c)
    }
}

/// What `last_at` finds: the character, and nothing like it behind.
pub proof fn lemma_last_at(s: Seq<char>, c: char)
    ensures
        match last_at(s, c) {
            Some(i) => 0 <= i < s.len() && s[i] == c && forall|j: int| i < j < s.len() ==> s[j] != c,
            None => forall|j: int| 0 <= j < s.len() ==> s[j] != c,
        },
    decreases s.len(),
{
    if s.len() > 0 && s.last() != c {
        let front = s.drop_last();
        lemma_last_at(front, c);
        match last_at(front, c) {
            Some(i) => {
                assert forall|j: int| i < j < s.len() implies s[j] != c by {
                    if j < front.len() {
                        assert(front[j] != c);
                    }
                }
            },
            None => {
                assert forall|j: int| 0 <= j < s.len() implies s[j] != c by {
                    if j < front.len() {
                        assert(front[j] != c);
                    }
                }
            },
        }
    }
}

/// The position that has `c`, and nothing like it behind, is the one found.
pub proof fn lemma_last_at_is(s: Seq<char>, c: char, i: int)
    requires
        0 <= i < s.len(),
        s[i] == c,
        forall|j: int| i < j < s.len() ==> s[j] != c,
    ensures
        last_at(s, c) == Some(i),
{
    lemma_last_at(s, c);
    let k = last_at(s, c);
    if k is None {
        assert(s[i] != c);
    } else if k->0 > i {
        assert(s[k->0] != c);
    } else if k->0 < i {
        assert(s[i] != c);
    }
}

pub fn rfind_char(s: &[char], c: char) -> (r: Option<usize>)
    ensures
        match r {
            Some(i) => last_at(s@, c) == Some(i as int) && i < s@.len(),
            None => last_at(s@, c) is None,
        },
{
    let mut i: usize = s.len();
    while i > 0
        invariant
            i <= s@.len(),
            forall|j: int| i <= j < s@.len() ==> s@[j] != c,
        decreases i,
    {
        if s[i - 1] == c {
            proof {
                lemma_last_at_is(s@, c, i - 1);
            }
            return Some(i - 1);
        }
        i -= 1;
    }
    proof {
        lemma_last_at(s@, c);
    }
    None
}

/// `s` without the characters `c` it begins with.
pub open spec fn without_leading(s: Seq<char>, c: char) -> Seq<char>
    decreases s.len(),
{
    if s.len() > 0 && s.first() == c {
        without_leading(s.skip(1), c)
    } else {
        s
    }
}

/// `s` without the characters `c` it ends with.
pub open spec fn without_trailing(s: Seq<char>, c: char) -> Seq<char>
    decreases s.len(),
{
    if s.len() > 0 && s.last() == c {
        without_trailing(s.drop_last(), c)
    } else {
        s
    }
}

pub fn trim_leading(s: &[char], c: char) -> (r: Vec<char>)
    ensures
        r@ == without_leading(s@, c),
{
    let mut from: usize = 0;
    proof {
        assert(s@.skip(0) =~= s@);
    }
    while from < s.len() && s[from] == c
        invariant
            from <= s@.len(),
            without_leading(s@, c) == without_leading(s@.skip(from as int), c),
        decreases s@.len() - from,
    {
        proof {
            assert(s@.skip(from as int).skip(1) =~= s@.skip(from + 1));
        }
        from += 1;
    }
    proof {
        assert(s@.skip(from as int) =~= s@.subrange(from as int, s@.len() as int));
    }
    part(s, from, s.len())
}

pub fn trim_trailing(s: &[char], c: char) -> (r: Vec<char>)
    ensures
        r@ == without_trailing(s@, c),
{
    let mut to: usize = s.len();
    proof {
        assert(s@.take(s@.len() as int) =~= s@);
    }
    while to > 0 && s[to - 1] == c
        invariant
            to <= s@.len(),
            without_trailing(s@, c) == without_trailing(s@.take(to as int), c),
        decreases to,
    {
        proof {
            assert(s@.take(to as int).drop_last() =~= s@.take(to - 1));
        }
        to -= 1;
    }
    proof {
        assert(s@.take(to as int) =~= s@.subrange(0, to as int));
    }
    part(s, 0, to)
}

/// An ASCII letter or digit.
pub open spec fn is_ascii_alnum(c: char) -> bool {
    ('0' <= c <= '9') || ('a' <= c <= 'z') || ('A' <= c <= 'Z')
}

pub fn ascii_alnum(c: char) -> (r: bool)
    ensures
        r == is_ascii_alnum(c),
{
    ('0' <= c && c <= '9') || ('a' <= c && c <= 'z') || ('A' <= c && c <= 'Z')
}

/// A hexadecimal digit.
pub open spec fn is_hex_digit(c: char) -> bool {
    ('0' <= c <= '9') || ('a' <= c <= 'f') || ('A' <= c <= 'F')
}

pub fn hex_digit(c: char) -> (r: bool)
    ensures
        r == is_hex_digit(c),
{
    ('0' <= c && c <= '9') || ('a' <= c && c <= 'f') || ('A' <= c && c <= 'F')
}

/// There are as many parts as separators, and one.
pub proof fn lemma_split_counts(s: Seq<char>, c: char)
    ensures
        split_on(s, c).len() >= 2 <==> first_at(s, c) is Some,
        split_on(s, c).len() >= 3 ==> first_at(s.skip(first_at(s, c)->0 + 1), c) is Some,
{
    lemma_first_at(s, c);
    match first_at(s, c) {
        Some(i) => {
            lemma_split_nonempty(s.skip(i + 1), c);
            lemma_first_at(s.skip(i + 1), c);
        },
        None => {},
    }
}

/// Parts put together with `c` between them.
pub open spec fn joined(parts: Seq<Seq<char>>, c: char) -> Seq<char>
    decreases parts.len(),
{
    if parts.len() == 0 {
        Seq::empty()
    } else if parts.len() == 1 {
        parts[0]
    } else {
        parts[0].push(c) + joined(parts.skip(1), c)
    }
}

/// Splitting and joining again changes nothing, and no part holds the
/// separator.
pub proof fn lemma_split_joined(s: Seq<char>, c: char)
    ensures
        joined(split_on(s, c), c) == s,
        forall|i: int| 0 <= i < split_on(s, c).len() ==> !(#[trigger] split_on(s, c)[i]).contains(c),
    decreases s.len(),
{
    lemma_first_at(s, c);
    let all = split_on(s, c);
    match first_at(s, c) {
        Some(at) => {
            let rest = s.skip(at + 1);
            let tail = split_on(rest, c);
            lemma_split_joined(rest, c);
            lemma_split_nonempty(rest, c);
            assert(all.skip(1) =~= tail);
            assert(s.take(at).push(c) + rest =~= s);
            assert forall|i: int| 0 <= i < all.len() implies !(#[trigger] all[i]).contains(c) by {
                if i > 0 {
                    assert(all[i] == tail[i - 1]);
                }
            }
        },
        None => {},
    }
}

/// A list of positions below `n` without repeats has at most `n` entries.
pub proof fn lemma_pigeonhole(positions: Seq<int>, n: int)
    requires
        positions.no_duplicates(),
        forall|i: int| 0 <= i < positions.len() ==> 0 <= #[trigger] positions[i] < n,
        n >= 0,
    ensures
        positions.len() <= n,
{
    positions.unique_seq_to_set();
    let all = vstd::set_lib::set_int_range(0, n);
    vstd::set_lib::lemma_int_range(0, n);
    assert forall|x: int| positions.to_set().contains(x) implies all.contains(x) by {
        let i = choose|i: int| 0 <= i < positions.len() && positions[i] == x;
        assert(0 <= positions[i] < n);
    }
    vstd::set_lib::lemma_len_subset(positions.to_set(), all);
}

/// The texts of a list.
pub open spec fn texts(v: Seq<String>) -> Seq<Seq<char>> {
    v.map_values(|s: String| s@)
}

/// Pairs of texts.
pub open spec fn pairs(v: Seq<(String, String)>) -> Seq<(Seq<char>, Seq<char>)> {
    v.map_values(|p: (String, String)| (p.0@, p.1@))
}

/// Whether `name` is in the list.
pub fn contains_text(list: &[String], name: &str) -> (r: bool)
    ensures
        r == texts(list@).contains(name@),
{
    let mut i: usize = 0;
    while i < list.len()
        invariant
            i <= list@.len(),
            forall|j: int| 0 <= j < i ==> #[trigger] texts(list@)[j] != name@,
        decreases list@.len() - i,
    {
        if same(&list[i], name) {
            proof {
                assert(texts(list@)[i as int] == name@);
            }
            return true;
        }
        i += 1;
    }
    proof {
        assert(texts(list@).len() == list@.len());
    }
    false
}

/// An optional text as a sequence.
pub open spec fn optional(s: Option<String>) -> Option<Seq<char>> {
    match s {
        Some(s) => Some(s@),
        None => None,
    }
}

/// A copy of an optional text.
pub fn optional_copy(s: &Option<String>) -> (r: Option<String>)
    ensures
        r == *s,
{
    match s {
        Some(s) => Some(s.clone()),
        None => None,
    }
}

/// `c` as a small letter, where it is an ASCII capital.
pub open spec fn ascii_lower(c: char) -> char {
    if 'A' <= c <= 'Z' {
        (c as int + 32) as char
    } else {
        c
    }
}

/// The same text but for the case of ASCII letters.
pub open spec fn same_but_case(a: Seq<char>, b: Seq<char>) -> bool {
    a.len() == b.len() && forall|i: int| 0 <= i < a.len() ==> ascii_lower(#[trigger] a[i]) == ascii_lower(b[i])
}

pub fn lower_ascii(c: char) -> (r: char)
    ensures
        r == ascii_lower(c),
{
    if 'A' <= c && c <= 'Z' {
        ((c as u8) + 32) as char
    } else {
        c
    }
}

/// Whether two texts differ in the case of ASCII letters at most.
pub fn same_ignoring_case(a: &[char], b: &[char]) -> (r: bool)
    ensures
        r == same_but_case(a@, b@),
{
    if a.len() != b.len() {
        return false;
    }
    let mut i: usize = 0;
    while i < a.len()
        invariant
            i <= a@.len(),
            a@.len() == b@.len(),
            forall|j: int| 0 <= j < i ==> ascii_lower(#[trigger] a@[j]) == ascii_lower(b@[j]),
        decreases a@.len() - i,
    {
        if lower_ascii(a[i]) != lower_ascii(b[i]) {
            proof {
                assert(ascii_lower(a@[i as int]) != ascii_lower(b@[i as int]));
            }
            return false;
        }
        i += 1;
    }
    true
}

/// Whether nothing but white space is in `s`.
pub fn is_blank(s: &str) -> (r: bool)
    ensures
        r == (trimmed(s@).len() == 0),
{
    let chars = chars_of(s);
    trim(&chars).len() == 0
}

/// A copy of a list of texts.
pub fn copy_texts(list: &[String]) -> (r: Vec<String>)
    ensures
        texts(r@) == texts(list@),
        r@.len() == list@.len(),
        forall|i: int| 0 <= i < r@.len() ==> r@[i] == list@[i],
{
    let mut r: Vec<String> = Vec::new();
    let mut i: usize = 0;
    while i < list.len()
        invariant
            i <= list@.len(),
            r@.len() == i,
            forall|j: int| 0 <= j < i ==> r@[j] == list@[j],
        decreases list@.len() - i,
    {
        r.push(list[i].clone());
        i += 1;
    }
    proof {
        assert(texts(r@) =~= texts(list@));
    }
    r
}

/// Whether both lists hold the same texts, in the same order.
pub fn same_texts(a: &[String], b: &[String]) -> (r: bool)
    ensures
        r == (texts(a@) == texts(b@)),
{
    proof {
        assert(texts(a@).len() == a@.len());
        assert(texts(b@).len() == b@.len());
    }
    if a.len() != b.len() {
        return false;
    }
    let mut i: usize = 0;
    while i < a.len()
        invariant
            i <= a@.len(),
            a@.len() == b@.len(),
            forall|j: int| 0 <= j < i ==> #[trigger] texts(a@)[j] == texts(b@)[j],
        decreases a@.len() - i,
    {
        if !same(&a[i], &b[i]) {
            proof {
                assert(texts(a@)[i as int] != texts(b@)[i as int]);
            }
            return false;
        }
        i += 1;
    }
    proof {
        assert(texts(a@) =~= texts(b@));
    }
    true
}

/// `a` followed by `b`.
pub fn plus(a: &str, b: &str) -> (r: String)
    ensures
        r@ == a@ + b@,
{
    let mut chars = chars_of(a);
    let tail = chars_of(b);
    append(&mut chars, &tail);
    string_of(&chars)
}

/// What `str::to_lowercase` makes of a text.
pub uninterp spec fn lowercase_text(s: Seq<char>) -> Seq<char>;

/// `str::to_lowercase`: the text in lower case, by Unicode's rules.
#[verifier::external_body]
pub(crate) fn to_lower(s: &str) -> (r: String)
    ensures
        r@ == lowercase_text(s@),
{
    s.to_lowercase()
}

/// The texts with `between` between them.
pub open spec fn joined_by(parts: Seq<Seq<char>>, between: Seq<char>) -> Seq<char>
    decreases parts.len(),
{
    if parts.len() == 0 {
        Seq::empty()
    } else if parts.len() == 1 {
        parts[0]
    } else {
        joined_by(parts.drop_last(), between) + between + parts.last()
    }
}

/// The texts with `between` between them.
pub fn join_by(parts: &[String], between: &str) -> (r: String)
    ensures
        r@ == joined_by(texts(parts@), between@),
{
    let ghost all = texts(parts@);
    let sign = chars_of(between);
    let mut r: Vec<char> = Vec::new();
    let mut i: usize = 0;
    proof {
        assert(all.take(0) =~= Seq::empty());
        assert(r@ =~= Seq::empty());
    }
    while i < parts.len()
        invariant
            i <= parts@.len(),
            all == texts(parts@),
            all.len() == parts@.len(),
            sign@ == between@,
            r@ == joined_by(all.take(i as int), between@),
        decreases parts@.len() - i,
    {
        proof {
            assert(all.take(i + 1).drop_last() =~= all.take(i as int));
            assert(all.take(i + 1).last() == parts@[i as int]@);
        }
        if i > 0 {
            append(&mut r, &sign);
        }
        let part = chars_of(&parts[i]);
        append(&mut r, &part);
        proof {
            if i == 0 {
                assert(r@ =~= part@);
            }
        }
        i += 1;
    }
    proof {
        assert(all.take(i as int) =~= all);
    }
    string_of(&r)
}

/// What stands behind the last `c` is the last part.
pub proof fn lemma_split_last(a: Seq<char>, b: Seq<char>, c: char)
    requires
        !b.contains(c),
    ensures
        split_on(a + seq![c] + b, c) == split_on(a, c).push(b),
    decreases a.len(),
{
    let s = a + seq![c] + b;
    lemma_first_at(a, c);
    match first_at(a, c) {
        Some(i) => {
            assert(s[i] == a[i]);
            assert forall|j: int| 0 <= j < i implies s[j] != c by {
                assert(s[j] == a[j]);
            }
            lemma_first_at_is(s, c, i);
            lemma_split_last(a.skip(i + 1), b, c);
            assert(s.skip(i + 1) =~= a.skip(i + 1) + seq![c] + b);
            assert(s.take(i) =~= a.take(i));
            assert(split_on(s, c) =~= split_on(a, c).push(b));
        },
        None => {
            assert forall|j: int| 0 <= j < a.len() implies s[j] != c by {
                assert(s[j] == a[j]);
            }
            assert(s[a.len() as int] == c);
            lemma_first_at_is(s, c, a.len() as int);
            assert(s.take(a.len() as int) =~= a);
            assert(s.skip(a.len() as int + 1) =~= b);
            lemma_first_at(b, c);
            assert(split_on(b, c) =~= seq![b]) by {
                if let Some(k) = first_at(b, c) {
                    assert(b[k] == c);
                    assert(b.contains(b[k]));
                }
            }
            assert(split_on(s, c) =~= seq![a] + seq![b]);
            assert(split_on(a, c) =~= seq![a]);
        },
    }
}

/// Texts put together with `c` between them come apart again, where none of
/// them holds a `c`.
pub proof fn lemma_joined_splits(parts: Seq<Seq<char>>, c: char)
    requires
        parts.len() > 0,
        forall|i: int| 0 <= i < parts.len() ==> !(#[trigger] parts[i]).contains(c),
    ensures
        split_on(joined_by(parts, seq![c]), c) == parts,
    decreases parts.len(),
{
    if parts.len() == 1 {
        let s = parts[0];
        lemma_first_at(s, c);
        if let Some(k) = first_at(s, c) {
            assert(s.contains(s[k]));
        }
        assert(split_on(s, c) =~= parts);
    } else {
        let rest = parts.drop_last();
        assert forall|i: int| 0 <= i < rest.len() implies !(#[trigger] rest[i]).contains(c) by {
            assert(rest[i] == parts[i]);
        }
        lemma_joined_splits(rest, c);
        lemma_split_last(joined_by(rest, seq![c]), parts.last(), c);
        assert(rest.push(parts.last()) =~= parts);
    }
}

/// A text without the white space at its ends, if anything is left of it.
pub open spec fn filled(s: Seq<char>) -> Option<Seq<char>> {
    if trimmed(s).len() > 0 {
        Some(trimmed(s))
    } else {
        None
    }
}

/// A text without the white space at its ends, if anything is left of it.
pub fn fill(s: &str) -> (r: Option<String>)
    ensures
        optional(r) == filled(s@),
{
    let kept = trim(&chars_of(s));
    if kept.len() > 0 {
        Some(string_of(&kept))
    } else {
        None
    }
}

/// What is left of some texts.
pub open spec fn all_filled(parts: Seq<Seq<char>>) -> Seq<Seq<char>>
    decreases parts.len(),
{
    if parts.len() == 0 {
        Seq::empty()
    } else {
        match filled(parts.last()) {
            Some(t) => all_filled(parts.drop_last()).push(t),
            None => all_filled(parts.drop_last()),
        }
    }
}

/// What is left of each line of a text (or of what `c` separates).
pub fn fill_all(s: &str, c: char) -> (r: Vec<String>)
    ensures
        texts(r@) == all_filled(split_on(s@, c)),
{
    let parts = split(&chars_of(s), c);
    let ghost all = deep(parts@);
    let mut r: Vec<String> = Vec::new();
    let mut i: usize = 0;
    proof {
        assert(all.take(0) =~= Seq::empty());
        assert(texts(r@) =~= Seq::empty());
    }
    while i < parts.len()
        invariant
            i <= parts@.len(),
            all == deep(parts@),
            texts(r@) == all_filled(all.take(i as int)),
        decreases parts@.len() - i,
    {
        proof {
            assert(all.take(i + 1).drop_last() =~= all.take(i as int));
            assert(all.take(i + 1).last() == parts@[i as int]@);
        }
        let kept = trim(&parts[i]);
        if kept.len() > 0 {
            let ghost before = r@;
            r.push(string_of(&kept));
            proof {
                assert(texts(r@) =~= texts(before).push(kept@));
            }
        }
        i += 1;
    }
    proof {
        assert(all.take(parts@.len() as int) =~= all);
    }
    r
}

/// A text that trimming leaves alone and that is not empty.
pub open spec fn is_clean(s: Seq<char>) -> bool {
    s.len() > 0 && trimmed(s) == s
}

/// Texts that are clean are all kept as they are.
pub proof fn lemma_all_filled(parts: Seq<Seq<char>>)
    requires
        forall|i: int| 0 <= i < parts.len() ==> is_clean(#[trigger] parts[i]),
    ensures
        all_filled(parts) == parts,
    decreases parts.len(),
{
    if parts.len() > 0 {
        let rest = parts.drop_last();
        assert forall|i: int| 0 <= i < rest.len() implies is_clean(#[trigger] rest[i]) by {
            assert(rest[i] == parts[i]);
        }
        lemma_all_filled(rest);
        assert(is_clean(parts[parts.len() - 1]));
        assert(rest.push(parts.last()) =~= parts);
    } else {
        assert(parts =~= Seq::empty());
    }
}

/// A line without the `\r` that may stand before its end.
pub open spec fn without_return(s: Seq<char>) -> Seq<char> {
    if s.len() > 0 && s.last() == '\r' {
        s.drop_last()
    } else {
        s
    }
}

/// The lines of a text, as `str::lines` gives them: ended by `\n` or `\r\n`,
/// the last end optional.
pub open spec fn lines_in(s: Seq<char>) -> Seq<Seq<char>> {
    let parts = split_on(s, '\n');
    let ended = parts.drop_last().map_values(|l: Seq<char>| without_return(l));
    if parts.last().len() == 0 {
        ended
    } else {
        ended.push(parts.last())
    }
}

/// The lines of a text.
pub fn lines(s: &str) -> (r: Vec<String>)
    ensures
        texts(r@) == lines_in(s@),
{
    let chars = chars_of(s);
    let parts = split(&chars, '\n');
    let ghost all = deep(parts@);
    proof {
        lemma_split_nonempty(s@, '\n');
        assert(all.len() == parts@.len());
    }
    let last: usize = parts.len() - 1;
    let mut r: Vec<String> = Vec::new();
    let mut i: usize = 0;
    while i < last
        invariant
            i <= last < parts@.len(),
            all == deep(parts@),
            r@.len() == i,
            forall|j: int| 0 <= j < i ==> (#[trigger] r@[j])@ == without_return(all[j]),
        decreases last - i,
    {
        let line = &parts[i];
        let n: usize = line.len();
        if n > 0 && line[n - 1] == '\r' {
            let cut = part(line, 0, n - 1);
            proof {
                assert(cut@ =~= line@.drop_last());
            }
            r.push(string_of(&cut));
        } else {
            r.push(string_of(line));
        }
        i += 1;
    }
    let ghost ended = all.drop_last().map_values(|l: Seq<char>| without_return(l));
    proof {
        assert(texts(r@) =~= ended);
        assert(all.last() == parts@[last as int]@);
    }
    if parts[last].len() > 0 {
        let ghost before = r@;
        r.push(string_of(&parts[last]));
        proof {
            assert(texts(r@) =~= ended.push(all.last()));
        }
    }
    r
}

/// A line that can be written and read back: nothing in it ends a line.
pub open spec fn is_line(s: Seq<char>) -> bool {
    !s.contains('\n') && (s.len() > 0 ==> s.last() != '\r')
}

/// Lines put together read back, unless the last one is empty.
pub proof fn law_lines_read_back(list: Seq<Seq<char>>)
    requires
        forall|i: int| 0 <= i < list.len() ==> is_line(#[trigger] list[i]),
        list.len() > 0 ==> list.last().len() > 0,
    ensures
        lines_in(joined_by(list, seq!['\n'])) == list,
{
    let s = joined_by(list, seq!['\n']);
    if list.len() == 0 {
        assert(split_on(s, '\n') =~= seq![s]);
        assert(lines_in(s) =~= list);
    } else {
        assert forall|i: int| 0 <= i < list.len() implies !(#[trigger] list[i]).contains('\n') by {
            assert(is_line(list[i]));
        }
        lemma_joined_splits(list, '\n');
        assert forall|i: int| 0 <= i < list.len() implies without_return(#[trigger] list[i]) == list[i] by {
            assert(is_line(list[i]));
        }
        assert(lines_in(s) =~= list);
    }
}

/// What `str::to_uppercase` makes of a text.
pub uninterp spec fn uppercase_text(s: Seq<char>) -> Seq<char>;

/// `str::to_uppercase`: the text in upper case, by Unicode's rules.
#[verifier::external_body]
pub(crate) fn to_upper(s: &str) -> (r: String)
    ensures
        r@ == uppercase_text(s@),
{
    s.to_uppercase()
}

/// `s` without the white space at its end.
pub open spec fn trimmed_end(s: Seq<char>) -> Seq<char>
    decreases s.len(),
{
    if s.len() > 0 && is_white(s.last()) {
        trimmed_end(s.drop_last())
    } else {
        s
    }
}

/// `s` without the white space at its end.
pub fn trim_end(s: &str) -> (r: String)
    ensures
        r@ == trimmed_end(s@),
{
    let chars = chars_of(s);
    let mut to: usize = chars.len();
    proof {
        assert(chars@.take(to as int) =~= chars@);
    }
    while to > 0 && white(chars[to - 1])
        invariant
            to <= chars@.len(),
            trimmed_end(chars@) == trimmed_end(chars@.take(to as int)),
        decreases to,
    {
        proof {
            assert(chars@.take(to as int).drop_last() =~= chars@.take(to - 1));
        }
        to -= 1;
    }
    let kept = part(&chars, 0, to);
    proof {
        assert(kept@ =~= chars@.take(to as int));
    }
    string_of(&kept)
}

/// `part` stands in `s` at `i`.
pub open spec fn part_at(s: Seq<char>, part: Seq<char>, i: int) -> bool {
    0 <= i && i + part.len() <= s.len() && s.subrange(i, i + part.len()) == part
}

/// `part` stands somewhere in `s`.
pub open spec fn holds_part(s: Seq<char>, part: Seq<char>) -> bool {
    exists|i: int| part_at(s, part, i)
}

/// Whether `part` stands somewhere in `s`.
pub fn contains_part(s: &str, part: &str) -> (r: bool)
    ensures
        r == holds_part(s@, part@),
{
    let text = chars_of(s);
    let wanted = chars_of(part);
    let n: usize = text.len();
    let m: usize = wanted.len();
    if m == 0 {
        proof {
            assert(s@.subrange(0, 0) =~= part@);
            assert(part_at(s@, part@, 0));
        }
        return true;
    }
    let mut i: usize = 0;
    while m <= n - i
        invariant
            i <= n,
            m > 0,
            n == s@.len(),
            m == part@.len(),
            text@ == s@,
            wanted@ == part@,
            forall|j: int| 0 <= j < i ==> !part_at(s@, part@, j),
        decreases n - i,
    {
        let here = self::part(&text, i, i + m);
        if same_chars(&here, &wanted) {
            proof {
                assert(part_at(s@, part@, i as int));
            }
            return true;
        }
        proof {
            assert(!part_at(s@, part@, i as int));
        }
        i += 1;
    }
    proof {
        assert forall|j: int| !part_at(s@, part@, j) by {
            if 0 <= j < i {
            } else if j >= i {
                assert(j + part@.len() > s@.len());
            }
        }
    }
    false
}

/// White space, by code point: the spaces and line ends of ASCII, and those
/// of other scripts.
pub proof fn law_white(c: char)
    ensures
        is_white(' ') && is_white('\t') && is_white('\n') && is_white('\r') && is_white('\u{b}') && is_white('\u{c}'),
        is_white('\u{85}') && is_white('\u{a0}') && is_white('\u{1680}') && is_white('\u{2028}') && is_white('\u{2029}')
            && is_white('\u{202f}') && is_white('\u{205f}') && is_white('\u{3000}'),
        '\u{2000}' <= c <= '\u{200a}' ==> is_white(c),
        '!' <= c <= '~' ==> !is_white(c),
        is_white(c) && c < '\u{80}' ==> c == ' ' || c == '\t' || c == '\n' || c == '\r' || c == '\u{b}' || c == '\u{c}',
        is_white(c) && c >= '\u{80}' ==> c == '\u{85}' || c == '\u{a0}' || c == '\u{1680}' || '\u{2000}' <= c <= '\u{200a}' || c
            == '\u{2028}' || c == '\u{2029}' || c == '\u{202f}' || c == '\u{205f}' || c == '\u{3000}',
{
}

/// Trimming takes white space away at both ends, and nothing else.
pub proof fn law_trimming(s: Seq<char>, w: char)
    requires
        is_white(w),
    ensures
        trimmed(seq![w] + s) == trimmed(s),
        trimmed(s.push(w)) == trimmed(s),
        s.len() > 0 && !is_white(s[0]) && !is_white(s[s.len() - 1]) ==> trimmed(s) == s,
        trimmed(Seq::empty()) == Seq::<char>::empty(),
        trimmed_end(s.push(w)) == trimmed_end(s),
        s.len() > 0 && !is_white(s[s.len() - 1]) ==> trimmed_end(s) == s,
        trimmed_end(Seq::empty()) == Seq::<char>::empty(),
    decreases s.len(),
{
    let a = seq![w] + s;
    assert(a.skip(1) =~= s);
    assert(a.first() == w);
    let b = s.push(w);
    assert(b.drop_last() =~= s);
    assert(b.last() == w);
    if s.len() == 0 {
        assert(b.skip(1) =~= s);
        assert(b.first() == w);
    } else {
        assert(b.first() == s.first());
        if is_white(s.first()) {
            law_trimming(s.skip(1), w);
            assert(b.skip(1) =~= s.skip(1).push(w));
        }
    }
}

/// The first and the last place of a character.
pub proof fn law_places_of_a_character(s: Seq<char>, c: char)
    ensures
        match first_at(s, c) {
            Some(i) => 0 <= i < s.len() && s[i] == c && forall|j: int| 0 <= j < i ==> s[j] != c,
            None => forall|j: int| 0 <= j < s.len() ==> s[j] != c,
        },
        match last_at(s, c) {
            Some(i) => 0 <= i < s.len() && s[i] == c && forall|j: int| i < j < s.len() ==> s[j] != c,
            None => forall|j: int| 0 <= j < s.len() ==> s[j] != c,
        },
    decreases s.len(),
{
    lemma_first_at(s, c);
    lemma_last_at(s, c);
}

/// A text is split at every separator and nowhere else.
pub proof fn law_splitting(a: Seq<char>, c: char, b: Seq<char>)
    requires
        forall|i: int| 0 <= i < a.len() ==> a[i] != c,
    ensures
        split_on(a, c) == seq![a],
        split_on(a.push(c) + b, c) == seq![a] + split_on(b, c),
{
    lemma_first_at(a, c);
    let s = a.push(c) + b;
    assert(s[a.len() as int] == c);
    assert forall|j: int| 0 <= j < a.len() implies s[j] != c by {
        assert(s[j] == a[j]);
    }
    lemma_first_at_is(s, c, a.len() as int);
    assert(s.take(a.len() as int) =~= a);
    assert(s.skip(a.len() as int + 1) =~= b);
}

/// A number is written with the digits of the decimal system, without
/// leading zeros.
pub proof fn law_decimals(n: nat, d: nat)
    requires
        d < 10,
    ensures
        decimal(d).len() == 1 && decimal(d)[0] as int == '0' as int + d,
        n > 0 ==> decimal(10 * n + d) == decimal(n) + decimal(d),
        number_of(decimal(n)) == Some(n as int),
{
    if n > 0 {
        let m = 10 * n + d;
        assert(m / 10 == n && m % 10 == d) by (nonlinear_arith)
            requires
                m == 10 * n + d,
                d < 10,
        ;
        assert(decimal(n) + decimal(d) =~= decimal(n).push(digit(d as int)));
    }
    lemma_decimal(n);
    let s = decimal(n);
    assert(is_digit(s[0]));
}

/// A number is read digit by digit; a plus sign in front is nothing, and
/// anything else makes it no number.
pub proof fn law_reading_numbers(s: Seq<char>, c: char)
    ensures
        number_of(Seq::empty()) is None,
        '0' <= c <= '9' ==> number_of(seq![c]) == Some(c as int - '0' as int),
        !('0' <= c <= '9') ==> number_of(s.push(c)) is None,
        '0' <= c <= '9' && (number_of(s) matches Some(n)) ==> number_of(s.push(c)) == Some(
            number_of(s)->0 * 10 + (c as int - '0' as int),
        ),
        s.len() > 0 && s[0] != '+' ==> number_of(seq!['+'] + s) == number_of(s),
        (exists|i: int| 0 < i < s.len() && !('0' <= #[trigger] s[i] <= '9')) ==> number_of(s) is None,
        s.len() > 0 && !('0' <= s[0] <= '9') && s[0] != '+' ==> number_of(s) is None,
{
    let one = seq![c];
    assert(one.drop_last() =~= Seq::empty());
    assert(digits_value(one.drop_last()) == 0);
    assert(one.skip(1) =~= Seq::empty());
    if '0' <= c <= '9' {
        assert(all_digits(one));
    }
    let t = s.push(c);
    assert(t.drop_last() =~= s);
    let plus = seq!['+'] + s;
    assert(plus.skip(1) =~= s);
    if s.len() > 0 {
        assert(t.first() == s.first());
        assert(t.skip(1) =~= s.skip(1).push(c));
        assert(s.skip(1).push(c).drop_last() =~= s.skip(1));
        if number_of(s) is Some {
            let d = if s.first() == '+' {
                s.skip(1)
            } else {
                s
            };
            assert(all_digits(d));
            if '0' <= c <= '9' {
                assert forall|i: int| 0 <= i < d.push(c).len() implies is_digit(#[trigger] d.push(c)[i]) by {
                    if i < d.len() {
                        assert(is_digit(d[i]));
                    }
                }
                assert(all_digits(d.push(c)));
            }
        }
        if !('0' <= c <= '9') {
            assert(!is_digit(t[t.len() - 1]));
            assert(!is_digit(t.skip(1)[t.len() - 2]));
        }
        if exists|i: int| 0 < i < s.len() && !('0' <= #[trigger] s[i] <= '9') {
            let i = choose|i: int| 0 < i < s.len() && !('0' <= #[trigger] s[i] <= '9');
            assert(!is_digit(s[i]));
            assert(!is_digit(s.skip(1)[i - 1]));
        }
        if !('0' <= s[0] <= '9') {
            assert(!is_digit(s[0]));
        }
    } else {
        assert(t =~= one);
        if !('0' <= c <= '9') {
            assert(!is_digit(one[0]));
        }
    }
}

/// Taking a character away at the start or the end takes all of it there,
/// and nothing else.
pub proof fn law_taking_characters_away(s: Seq<char>, c: char)
    ensures
        without_leading(seq![c] + s, c) == without_leading(s, c),
        s.len() == 0 || s[0] != c ==> without_leading(s, c) == s,
        without_trailing(s.push(c), c) == without_trailing(s, c),
        s.len() == 0 || s[s.len() - 1] != c ==> without_trailing(s, c) == s,
{
    let a = seq![c] + s;
    assert(a.skip(1) =~= s);
    assert(a.first() == c);
    assert(s.push(c).drop_last() =~= s);
}

/// Letters and digits, by code point.
pub proof fn law_letters_and_digits(c: char)
    ensures
        is_digit(c) <==> '0' <= c <= '9',
        is_ascii_alnum(c) <==> '0' <= c <= '9' || 'a' <= c <= 'z' || 'A' <= c <= 'Z',
        is_hex_digit(c) <==> '0' <= c <= '9' || 'a' <= c <= 'f' || 'A' <= c <= 'F',
        'A' <= c <= 'Z' ==> ascii_lower(c) as int == c as int + 32,
        !('A' <= c <= 'Z') ==> ascii_lower(c) == c,
        'A' <= c <= 'Z' ==> ascii_lower(c) as int - c as int == 'a' as int - 'A' as int,
{
}

/// Parts are joined with what stands between them, and nothing else.
pub proof fn law_joining(parts: Seq<Seq<char>>, p: Seq<char>, c: char, between: Seq<char>)
    ensures
        joined(Seq::empty(), c) == Seq::<char>::empty(),
        joined(seq![p], c) == p,
        parts.len() > 0 ==> joined(seq![p] + parts, c) == p.push(c) + joined(parts, c),
        joined_by(Seq::empty(), between) == Seq::<char>::empty(),
        joined_by(seq![p], between) == p,
        parts.len() > 0 ==> joined_by(parts.push(p), between) == joined_by(parts, between) + between + p,
{
    assert((seq![p] + parts).skip(1) =~= parts);
    assert(parts.push(p).drop_last() =~= parts);
}

/// Texts are the same but for case exactly when their ASCII letters are, one
/// by one, and everything else is equal.
pub proof fn law_same_but_case(a: Seq<char>, b: Seq<char>, x: char, y: char)
    ensures
        same_but_case(a, a),
        same_but_case(a, b) ==> same_but_case(b, a) && a.len() == b.len(),
        same_but_case(a.push(x), b.push(y)) <==> same_but_case(a, b) && (x == y || ('A' <= x <= 'Z' && y as int == x as int
            + 32) || ('A' <= y <= 'Z' && x as int == y as int + 32)),
{
    let p = a.push(x);
    let q = b.push(y);
    if same_but_case(p, q) {
        assert forall|i: int| 0 <= i < a.len() implies ascii_lower(#[trigger] a[i]) == ascii_lower(b[i]) by {
            assert(ascii_lower(p[i]) == ascii_lower(q[i]));
        }
        assert(ascii_lower(p[a.len() as int]) == ascii_lower(q[a.len() as int]));
    }
    if same_but_case(a, b) && ascii_lower(x) == ascii_lower(y) {
        assert forall|i: int| 0 <= i < p.len() implies ascii_lower(#[trigger] p[i]) == ascii_lower(q[i]) by {
            if i < a.len() {
                assert(ascii_lower(a[i]) == ascii_lower(b[i]));
            }
        }
    }
    if same_but_case(a, b) {
        assert forall|i: int| 0 <= i < b.len() implies ascii_lower(#[trigger] b[i]) == ascii_lower(a[i]) by {
            assert(ascii_lower(a[i]) == ascii_lower(b[i]));
        }
    }
}

/// A field counts as filled where something is left of it without white
/// space around it; of a list, those stay that are.
pub proof fn law_filled_fields(parts: Seq<Seq<char>>, p: Seq<char>)
    ensures
        filled(p) is Some <==> trimmed(p).len() > 0,
        filled(p) matches Some(t) ==> t == trimmed(p),
        all_filled(Seq::empty()) == Seq::<Seq<char>>::empty(),
        trimmed(p).len() > 0 ==> all_filled(parts.push(p)) == all_filled(parts).push(trimmed(p)),
        trimmed(p).len() == 0 ==> all_filled(parts.push(p)) == all_filled(parts),
{
    assert(parts.push(p).drop_last() =~= parts);
}

/// Lines end at a line feed, with a carriage return before it or not; what
/// stands behind the last one is a line too, unless it is nothing.
pub proof fn law_lines(a: Seq<char>, b: Seq<char>)
    requires
        forall|i: int| 0 <= i < a.len() ==> a[i] != '\n',
    ensures
        lines_in(Seq::empty()) == Seq::<Seq<char>>::empty(),
        a.len() > 0 ==> lines_in(a) == seq![a],
        lines_in(a.push('\n') + b) == seq![if a.len() > 0 && a[a.len() - 1] == '\r' {
            a.drop_last()
        } else {
            a
        }] + lines_in(b),
{
    law_splitting(Seq::empty(), '\n', b);
    law_splitting(a, '\n', b);
    let none = split_on(Seq::empty(), '\n');
    assert(none.drop_last().map_values(|l: Seq<char>| without_return(l)) =~= Seq::empty());
    let alone = split_on(a, '\n');
    assert(alone.drop_last().map_values(|l: Seq<char>| without_return(l)) =~= Seq::empty());
    assert(Seq::<Seq<char>>::empty().push(a) =~= seq![a]);
    let rest = split_on(b, '\n');
    lemma_split_nonempty(b, '\n');
    let all = split_on(a.push('\n') + b, '\n');
    assert(all.last() == rest.last());
    let ended = rest.drop_last().map_values(|l: Seq<char>| without_return(l));
    assert(all.drop_last().map_values(|l: Seq<char>| without_return(l)) =~= seq![without_return(a)] + ended);
    assert(lines_in(a.push('\n') + b) =~= seq![without_return(a)] + lines_in(b));
}

/// A text begins with another, ends in it or holds it exactly where it is
/// made of it and something around it.
pub proof fn law_parts_of_a_text(a: Seq<char>, p: Seq<char>, b: Seq<char>)
    ensures
        has_prefix(p + b, p),
        has_suffix(a + p, p),
        holds_part(a + p + b, p),
        has_prefix(a, p) ==> a == p + a.skip(p.len() as int),
        has_suffix(a, p) ==> a == a.take(a.len() - p.len()) + p,
        holds_part(a, p) ==> exists|i: int| 0 <= i && i + p.len() <= a.len() && #[trigger] a.subrange(i, i + p.len()) == p,
{
    assert((p + b).take(p.len() as int) =~= p);
    assert((a + p).skip(a.len() as int) =~= p);
    assert((a + p + b).subrange(a.len() as int, a.len() as int + p.len()) =~= p);
    assert(part_at(a + p + b, p, a.len() as int));
    if has_prefix(a, p) {
        assert(a =~= a.take(p.len() as int) + a.skip(p.len() as int));
    }
    if has_suffix(a, p) {
        assert(a =~= a.take(a.len() - p.len()) + a.skip(a.len() - p.len()));
    }
    if holds_part(a, p) {
        let i = choose|i: int| part_at(a, p, i);
        assert(a.subrange(i, i + p.len()) == p);
    }
}

/// A number that is read is never below zero.
pub proof fn law_numbers_are_whole(s: Seq<char>)
    ensures
        number_of(s) matches Some(n) ==> n >= 0,
{
    if all_digits(s) {
        lemma_digits_value_nonnegative(s);
    }
    if s.len() > 0 && all_digits(s.skip(1)) {
        lemma_digits_value_nonnegative(s.skip(1));
    }
}

} // verus!
