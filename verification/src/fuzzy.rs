//! Fuzzy matching for the session search: the query's characters must
//! appear in order (case-insensitive); consecutive runs, word starts and
//! an early first match score higher. Several space-separated words must
//! all match, each in any of the host's fields.

use vstd::prelude::*;

use crate::text;

verus! {

/// What `char::to_lowercase` gives for `c`.
pub uninterp spec fn lowercase_of(c: char) -> Seq<char>;

/// What `char::is_alphanumeric` says of `c`.
pub uninterp spec fn alphanumeric(c: char) -> bool;

/// `char::to_lowercase`: the characters that `c` is written with in small
/// letters, which the name `lowercase_of` stands for.
#[verifier::external_body]
fn lower_char(c: char) -> (r: Vec<char>)
    ensures
        r@ == lowercase_of(c),
{
    c.to_lowercase().collect()
}

/// `char::is_alphanumeric`: whether `c` is a letter or a digit of any
/// script, which the name `alphanumeric` stands for.
#[verifier::external_body]
fn is_alphanumeric(c: char) -> (r: bool)
    ensures
        r == alphanumeric(c),
{
    c.is_alphanumeric()
}

/// `s` in small letters.
pub open spec fn lowered(s: Seq<char>) -> Seq<char>
    decreases s.len(),
{
    if s.len() == 0 {
        s
    } else {
        lowered(s.drop_last()) + lowercase_of(s.last())
    }
}

fn lower(s: &str) -> (r: Vec<char>)
    ensures
        r@ == lowered(s@),
{
    let chars = text::chars_of(s);
    let mut r: Vec<char> = Vec::new();
    let mut i: usize = 0;
    proof {
        assert(chars@.take(0) =~= Seq::empty());
        assert(r@ =~= lowered(chars@.take(0)));
    }
    while i < chars.len()
        invariant
            i <= chars@.len(),
            r@ == lowered(chars@.take(i as int)),
        decreases chars@.len() - i,
    {
        proof {
            assert(chars@.take(i + 1).drop_last() =~= chars@.take(i as int));
            assert(chars@.take(i + 1).last() == chars@[i as int]);
        }
        let small = lower_char(chars[i]);
        text::append(&mut r, &small);
        i += 1;
    }
    proof {
        assert(chars@.take(i as int) =~= chars@);
    }
    r
}

/// Where words begin in a text: at its start, and behind anything that is
/// no letter or digit.
pub open spec fn word_starts(s: Seq<char>) -> Seq<bool> {
    Seq::new(s.len(), |i: int| i == 0 || !alphanumeric(s[i - 1]))
}

fn starts_of(s: &[char]) -> (r: Vec<bool>)
    ensures
        r@ == word_starts(s@),
{
    let mut r: Vec<bool> = Vec::new();
    let mut i: usize = 0;
    while i < s.len()
        invariant
            i <= s@.len(),
            r@.len() == i,
            forall|j: int| 0 <= j < i ==> r@[j] == (j == 0 || !alphanumeric(s@[j - 1])),
        decreases s@.len() - i,
    {
        let start = i == 0 || !is_alphanumeric(s[i - 1]);
        r.push(start);
        i += 1;
    }
    proof {
        assert(r@ =~= word_starts(s@));
    }
    r
}

/// `query` stands in `text` at `i`.
pub open spec fn occurs_at(text: Seq<char>, query: Seq<char>, i: int) -> bool {
    0 <= i && i + query.len() <= text.len() && text.subrange(i, i + query.len()) == query
}

/// Where `query` stands first in `text`.
pub open spec fn occurs_first(text: Seq<char>, query: Seq<char>, i: int) -> bool {
    occurs_at(text, query, i) && forall|j: int| 0 <= j < i ==> !#[trigger] occurs_at(text, query, j)
}

/// `query` stands somewhere in `text`.
pub open spec fn occurs(text: Seq<char>, query: Seq<char>) -> bool {
    exists|i: int| #[trigger] occurs_at(text, query, i)
}

fn find(text: &[char], query: &[char]) -> (r: Option<usize>)
    ensures
        match r {
            Some(i) => occurs_first(text@, query@, i as int),
            None => !occurs(text@, query@),
        },
{
    if query.len() > text.len() {
        return None;
    }
    let len: usize = text.len();
    let last: usize = len - query.len();
    let mut i: usize = 0;
    loop
        invariant
            i <= last,
            len == text@.len(),
            last == len - query@.len(),
            forall|j: int| 0 <= j < i ==> !#[trigger] occurs_at(text@, query@, j),
        decreases last - i,
    {
        let here = text::part(text, i, i + query.len());
        if text::same_chars(&here, query) {
            proof {
                assert(occurs_at(text@, query@, i as int));
            }
            return Some(i);
        }
        proof {
            assert(!occurs_at(text@, query@, i as int));
        }
        if i == last {
            proof {
                assert forall|j: int| !#[trigger] occurs_at(text@, query@, j) by {}
            }
            return None;
        }
        i += 1;
    }
}

/// The first place at or behind `from` with the character `c`.
pub open spec fn next_at(text: Seq<char>, c: char, from: int) -> Option<int>
    decreases text.len() - from,
{
    if from < 0 || from >= text.len() {
        None
    } else if text[from] == c {
        Some(from)
    } else {
        next_at(text, c, from + 1)
    }
}

/// What finding a character at `found` counts: more right behind the one
/// before and at a word's start, less for a late first one.
pub open spec fn char_score(starts: Seq<bool>, found: int, previous: Option<int>) -> int {
    10 + (if previous == Some(found - 1) {
        15int
    } else {
        0int
    }) + (if starts[found] {
        10int
    } else {
        0int
    }) - (if previous is None {
        found
    } else {
        0int
    })
}

/// The score of the query's characters found one after the other, each as
/// early as it goes; none where one is missing.
pub open spec fn scattered(
    text: Seq<char>,
    starts: Seq<bool>,
    query: Seq<char>,
    from: int,
    previous: Option<int>,
) -> Option<int>
    decreases query.len(),
{
    if query.len() == 0 {
        Some(0)
    } else {
        match next_at(text, query.first(), from) {
            Some(found) => match scattered(text, starts, query.skip(1), found + 1, Some(found)) {
                Some(rest) => Some(char_score(starts, found, previous) + rest),
                None => None,
            },
            None => None,
        }
    }
}

/// The score of a query that stands in the text as it is: best, earlier is
/// better.
pub open spec fn substring_score(text: Seq<char>, starts: Seq<bool>, pos: int) -> int {
    1000 + (if pos == 0 || starts[pos] {
        50int
    } else {
        0int
    }) - pos - text.len() as int / 8
}

/// The score of a query in a text, both in small letters.
pub open spec fn score_in(text: Seq<char>, starts: Seq<bool>, query: Seq<char>) -> Option<int> {
    if occurs(text, query) {
        Some(substring_score(text, starts, choose|i: int| occurs_first(text, query, i)))
    } else {
        scattered(text, starts, query, 0, None)
    }
}

/// The score of one word in a text.
pub open spec fn word_score(query: Seq<char>, text: Seq<char>) -> Option<int> {
    if query.len() == 0 {
        Some(0)
    } else {
        score_in(lowered(text), word_starts(lowered(text)), lowered(query))
    }
}

proof fn lemma_next_at(text: Seq<char>, c: char, from: int)
    requires
        0 <= from,
    ensures
        match next_at(text, c, from) {
            Some(i) => from <= i < text.len() && text[i] == c && forall|j: int| from <= j < i ==> text[j] != c,
            None => forall|j: int| from <= j < text.len() ==> text[j] != c,
        },
    decreases text.len() - from,
{
    if from < text.len() && text[from] != c {
        lemma_next_at(text, c, from + 1);
    }
}

proof fn lemma_first_unique(text: Seq<char>, query: Seq<char>, i: int)
    requires
        occurs_first(text, query, i),
    ensures
        occurs(text, query),
        i == choose|k: int| occurs_first(text, query, k),
{
    let k = choose|k: int| occurs_first(text, query, k);
    if k < i {
        assert(!occurs_at(text, query, k));
    } else if i < k {
        assert(!occurs_at(text, query, i));
    }
}

/// Score of `query` in `text`, both in small letters; `starts` says where
/// words begin in the text.
pub fn score_lowered(query: &[char], text: &[char], starts: &[bool]) -> (r: Option<i128>)
    requires
        starts@.len() == text@.len(),
    ensures
        match r {
            Some(n) => score_in(text@, starts@, query@) == Some(n as int) && -0x2_0000_0000_0000_0000 <= n
                <= 36 * 0x1_0000_0000_0000_0000,
            None => score_in(text@, starts@, query@) is None,
        },
{
    let len: usize = text.len();
    let count: usize = query.len();
    // exact substring: best, earlier is better
    if let Some(pos) = find(text, query) {
        proof {
            lemma_first_unique(text@, query@, pos as int);
        }
        // an empty query may stand behind the last character
        let at_start = pos == 0 || (pos < len && starts[pos]);
        proof {
            if pos > 0 && pos >= len {
                assert(query@.len() == 0);
                assert(text@.subrange(0, 0) =~= query@);
                assert(occurs_at(text@, query@, 0));
            }
        }
        let bonus: i128 = if at_start {
            50
        } else {
            0
        };
        return Some(1000 + bonus - pos as i128 - (len / 8) as i128);
    }
    let ghost whole = scattered(text@, starts@, query@, 0, None);
    let mut score: i128 = 0;
    let mut from: usize = 0;
    let mut previous: Option<usize> = None;
    let mut q: usize = 0;
    proof {
        assert(query@.skip(0) =~= query@);
    }
    while q < query.len()
        invariant
            q <= query@.len() == count,
            from <= text@.len() == len == starts@.len(),
            previous matches Some(p) ==> from == p + 1,
            q > 0 <==> previous is Some,
            q == 0 ==> score == 0,
            -(len as int) <= score <= 35 * q,
            !occurs(text@, query@),
            whole == scattered(text@, starts@, query@, 0, None),
            ({
                let rest = scattered(
                    text@,
                    starts@,
                    query@.skip(q as int),
                    from as int,
                    match previous {
                        Some(p) => Some(p as int),
                        None => None,
                    },
                );
                whole == match rest {
                    Some(n) => Some(score + n),
                    None => None::<int>,
                }
            }),
        decreases query@.len() - q,
    {
        let c = query[q];
        let ghost rest = query@.skip(q as int);
        proof {
            assert(rest.first() == c);
            assert(rest.skip(1) =~= query@.skip(q + 1));
            lemma_next_at(text@, c, from as int);
        }
        let mut found: usize = from;
        while found < text.len() && text[found] != c
            invariant
                from <= found <= text@.len(),
                next_at(text@, c, from as int) == next_at(text@, c, found as int),
            decreases text@.len() - found,
        {
            found += 1;
        }
        if found >= text.len() {
            return None;
        }
        score += 10;
        if let Some(p) = previous {
            if p + 1 == found {
                score += 15;
            }
        } else {
            score -= found as i128;
        }
        if starts[found] {
            score += 10;
        }
        previous = Some(found);
        from = found + 1;
        q += 1;
    }
    Some(score)
}

/// Score of `query` (one word) in `text`, or `None` if it doesn't match.
pub fn score_word(query: &str, text: &str) -> (r: Option<i128>)
    ensures
        match r {
            Some(n) => word_score(query@, text@) == Some(n as int) && -0x2_0000_0000_0000_0000 <= n
                <= 36 * 0x1_0000_0000_0000_0000,
            None => word_score(query@, text@) is None,
        },
{
    let chars = text::chars_of(query);
    if chars.len() == 0 {
        return Some(0);
    }
    let text = lower(text);
    let query = lower(query);
    let starts = starts_of(&text);
    score_lowered(&query, &text, &starts)
}

/// How long the word at the start of `s` is.
pub open spec fn word_length(s: Seq<char>) -> nat
    decreases s.len(),
{
    if s.len() == 0 || text::is_white(s.first()) {
        0
    } else {
        1 + word_length(s.skip(1))
    }
}

/// The words of `s`, between white space.
pub open spec fn words_of(s: Seq<char>) -> Seq<Seq<char>>
    decreases s.len(),
{
    if s.len() == 0 {
        Seq::empty()
    } else if text::is_white(s.first()) {
        words_of(s.skip(1))
    } else {
        let n = word_length(s) as int;
        if 0 < n <= s.len() {
            seq![s.take(n)] + words_of(s.skip(n))
        } else {
            Seq::empty()
        }
    }
}

proof fn lemma_word_length(s: Seq<char>, n: int)
    requires
        0 <= n <= s.len(),
        forall|i: int| 0 <= i < n ==> !text::is_white(#[trigger] s[i]),
        n < s.len() ==> text::is_white(s[n]),
    ensures
        word_length(s) == n,
    decreases s.len(),
{
    if n > 0 {
        assert(!text::is_white(s[0]));
        let rest = s.skip(1);
        assert forall|i: int| 0 <= i < n - 1 implies !text::is_white(#[trigger] rest[i]) by {
            assert(rest[i] == s[i + 1]);
        }
        lemma_word_length(rest, n - 1);
    }
}

fn words(s: &[char]) -> (r: Vec<Vec<char>>)
    ensures
        text::deep(r@) == words_of(s@),
{
    let mut r: Vec<Vec<char>> = Vec::new();
    let mut i: usize = 0;
    proof {
        assert(s@.skip(0) =~= s@);
        assert(text::deep(r@) + words_of(s@) =~= words_of(s@));
    }
    while i < s.len()
        invariant
            i <= s@.len(),
            text::deep(r@) + words_of(s@.skip(i as int)) == words_of(s@),
        decreases s@.len() - i,
    {
        let ghost rest = s@.skip(i as int);
        if text::white(s[i]) {
            proof {
                assert(rest.skip(1) =~= s@.skip(i + 1));
            }
            i += 1;
        } else {
            let from = i;
            i += 1;
            while i < s.len() && !text::white(s[i])
                invariant
                    from < i <= s@.len(),
                    forall|j: int| from <= j < i ==> !text::is_white(#[trigger] s@[j]),
                decreases s@.len() - i,
            {
                i += 1;
            }
            let word = text::part(s, from, i);
            let ghost before = text::deep(r@);
            r.push(word);
            proof {
                let n = i - from;
                assert forall|j: int| 0 <= j < n implies !text::is_white(#[trigger] rest[j]) by {
                    assert(rest[j] == s@[from + j]);
                }
                lemma_word_length(rest, n);
                assert(rest.take(n) =~= word@);
                assert(rest.skip(n) =~= s@.skip(i as int));
                assert(text::deep(r@) =~= before.push(word@));
                assert(text::deep(r@) + words_of(s@.skip(i as int)) =~= before + words_of(rest));
            }
        }
    }
    proof {
        assert(s@.skip(i as int) =~= Seq::empty());
        assert(text::deep(r@) + Seq::<Seq<char>>::empty() =~= text::deep(r@));
    }
    r
}

/// There are no more words than characters.
proof fn lemma_word_count(s: Seq<char>)
    ensures
        words_of(s).len() <= s.len(),
    decreases s.len(),
{
    if s.len() > 0 {
        lemma_word_count(s.skip(1));
        let n = word_length(s) as int;
        if 0 < n <= s.len() {
            lemma_word_count(s.skip(n));
        }
    }
}

/// The fields' texts.
pub open spec fn field_texts(fields: Seq<&str>) -> Seq<Seq<char>> {
    fields.map_values(|f: &str| f@)
}

/// The better of two scores.
pub open spec fn better(a: Option<int>, b: Option<int>) -> Option<int> {
    match (a, b) {
        (Some(x), Some(y)) => Some(
            if x >= y {
                x
            } else {
                y
            },
        ),
        (Some(x), None) => Some(x),
        (None, _) => b,
    }
}

/// The best score of a word in the fields; the first one counts double.
pub open spec fn best_field(word: Seq<char>, fields: Seq<Seq<char>>) -> Option<int>
    decreases fields.len(),
{
    if fields.len() == 0 {
        None
    } else {
        let here = match word_score(word, fields.last()) {
            Some(n) => Some(
                if fields.len() == 1 {
                    n * 2
                } else {
                    n
                },
            ),
            None => None,
        };
        better(best_field(word, fields.drop_last()), here)
    }
}

/// The sum of the words' best scores; none where a word matches nothing.
pub open spec fn total_score(words: Seq<Seq<char>>, fields: Seq<Seq<char>>) -> Option<int>
    decreases words.len(),
{
    if words.len() == 0 {
        Some(0)
    } else {
        match (total_score(words.drop_last(), fields), best_field(words.last(), fields)) {
            (Some(a), Some(b)) => Some(a + b),
            _ => None,
        }
    }
}

fn best_of(word: &str, fields: &[&str]) -> (r: Option<i128>)
    ensures
        match r {
            Some(n) => best_field(word@, field_texts(fields@)) == Some(n as int) && -0x4_0000_0000_0000_0000 <= n
                <= 72 * 0x1_0000_0000_0000_0000,
            None => best_field(word@, field_texts(fields@)) is None,
        },
{
    let ghost all = field_texts(fields@);
    let mut best: Option<i128> = None;
    let mut i: usize = 0;
    proof {
        assert(all.take(0) =~= Seq::empty());
    }
    while i < fields.len()
        invariant
            i <= fields@.len(),
            all == field_texts(fields@),
            all.len() == fields@.len(),
            match best {
                Some(n) => best_field(word@, all.take(i as int)) == Some(n as int) && -0x4_0000_0000_0000_0000 <= n
                    <= 72 * 0x1_0000_0000_0000_0000,
                None => best_field(word@, all.take(i as int)) is None,
            },
        decreases fields@.len() - i,
    {
        proof {
            assert(all.take(i + 1).drop_last() =~= all.take(i as int));
            assert(all.take(i + 1).last() == fields@[i as int]@);
        }
        if let Some(n) = score_word(word, fields[i]) {
            let n: i128 = if i == 0 {
                n * 2
            } else {
                n
            };
            best = match best {
                Some(b) => if b >= n {
                    Some(b)
                } else {
                    Some(n)
                },
                None => Some(n),
            };
        }
        i += 1;
    }
    proof {
        assert(all.take(i as int) =~= all);
    }
    best
}

/// Score of a whole query against several fields (label first: it counts
/// double), or `None` if any word matches none of them.
pub fn score(query: &str, fields: &[&str]) -> (r: Option<i128>)
    requires
        query@.len() < 0x1000_0000_0000,
    ensures
        match r {
            Some(n) => total_score(words_of(query@), field_texts(fields@)) == Some(n as int),
            None => total_score(words_of(query@), field_texts(fields@)) is None,
        },
{
    let chars = text::chars_of(query);
    let words = words(&chars);
    let ghost all = words_of(query@);
    let mut total: i128 = 0;
    let mut i: usize = 0;
    proof {
        assert(text::deep(words@).len() == words@.len());
        assert(all.take(0) =~= Seq::empty());
        lemma_word_count(query@);
    }
    while i < words.len()
        invariant
            i <= words@.len() == all.len(),
            all.len() < 0x1000_0000_0000,
            all == text::deep(words@),
            all == words_of(query@),
            total_score(all.take(i as int), field_texts(fields@)) == Some(total as int),
            -0x4_0000_0000_0000_0000 * i <= total <= 0x48_0000_0000_0000_0000 * i,
        decreases words@.len() - i,
    {
        proof {
            assert(all.take(i + 1).drop_last() =~= all.take(i as int));
            assert(all.take(i + 1).last() == words@[i as int]@);
            lemma_total_none(all, field_texts(fields@), i + 1);
        }
        let word = text::string_of(&words[i]);
        match best_of(&word, fields) {
            Some(n) => {
                total += n;
            },
            None => {
                return None;
            },
        }
        i += 1;
    }
    proof {
        assert(all.take(i as int) =~= all);
    }
    Some(total)
}

/// Once a word matches nothing, the whole query doesn't.
proof fn lemma_total_none(words: Seq<Seq<char>>, fields: Seq<Seq<char>>, n: int)
    requires
        0 <= n <= words.len(),
    ensures
        total_score(words.take(n), fields) is None ==> total_score(words, fields) is None,
    decreases words.len(),
{
    if n < words.len() {
        lemma_total_none(words.drop_last(), fields, n);
        assert(words.drop_last().take(n) =~= words.take(n));
    } else {
        assert(words.take(n) =~= words);
    }
}

/// The places `at` show `query` in `text`, in order.
pub open spec fn embeds(text: Seq<char>, query: Seq<char>, at: Seq<int>) -> bool {
    &&& at.len() == query.len()
    &&& forall|i: int| 0 <= i < at.len() ==> 0 <= #[trigger] at[i] < text.len() && text[at[i]] == query[i]
    &&& forall|i: int, j: int| 0 <= i < j < at.len() ==> at[i] < at[j]
}

/// The query's characters appear in the text, in order.
pub open spec fn is_subsequence(text: Seq<char>, query: Seq<char>) -> bool {
    exists|at: Seq<int>| embeds(text, query, at)
}

/// Finding each character as early as possible finds all of them wherever
/// that is possible behind `from`.
proof fn lemma_greedy(text: Seq<char>, starts: Seq<bool>, query: Seq<char>, from: int, previous: Option<int>, at: Seq<int>)
    requires
        0 <= from,
        embeds(text, query, at),
        at.len() > 0 ==> at[0] >= from,
    ensures
        scattered(text, starts, query, from, previous) is Some,
    decreases query.len(),
{
    if query.len() > 0 {
        lemma_next_at(text, query.first(), from);
        assert(text[at[0]] == query[0]);
        let found = next_at(text, query.first(), from)->0;
        let rest = at.skip(1);
        assert(found <= at[0]);
        assert forall|i: int| 0 <= i < rest.len() implies 0 <= #[trigger] rest[i] < text.len() && text[rest[i]]
            == query.skip(1)[i] by {
            assert(rest[i] == at[i + 1]);
        }
        lemma_greedy(text, starts, query.skip(1), found + 1, Some(found), rest);
    }
}

proof fn lemma_scattered_embeds(
    text: Seq<char>,
    starts: Seq<bool>,
    query: Seq<char>,
    from: int,
    previous: Option<int>,
) -> (at: Seq<int>)
    requires
        0 <= from,
        scattered(text, starts, query, from, previous) is Some,
    ensures
        embeds(text, query, at),
        forall|i: int| 0 <= i < at.len() ==> from <= #[trigger] at[i],
    decreases query.len(),
{
    if query.len() == 0 {
        Seq::empty()
    } else {
        lemma_next_at(text, query.first(), from);
        let found = next_at(text, query.first(), from)->0;
        let rest = lemma_scattered_embeds(text, starts, query.skip(1), found + 1, Some(found));
        let at = seq![found] + rest;
        assert forall|i: int| 0 <= i < at.len() implies 0 <= #[trigger] at[i] < text.len() && text[at[i]] == query[i]
            && from <= at[i] by {
            if i > 0 {
                assert(at[i] == rest[i - 1]);
                assert(query.skip(1)[i - 1] == query[i]);
            }
        }
        assert forall|i: int, j: int| 0 <= i < j < at.len() implies at[i] < at[j] by {
            assert(at[j] == rest[j - 1]);
            if i > 0 {
                assert(at[i] == rest[i - 1]);
            }
        }
        at
    }
}

/// A word matches a text exactly when its characters appear in the text in
/// order, whatever their case.
pub proof fn law_matches_subsequences(query: Seq<char>, text: Seq<char>)
    requires
        query.len() > 0,
    ensures
        word_score(query, text) is Some <==> is_subsequence(lowered(text), lowered(query)),
{
    let t = lowered(text);
    let q = lowered(query);
    let starts = word_starts(t);
    if occurs(t, q) {
        let i = choose|i: int| #[trigger] occurs_at(t, q, i);
        let at = Seq::new(q.len(), |k: int| i + k);
        assert forall|k: int| 0 <= k < at.len() implies 0 <= #[trigger] at[k] < t.len() && t[at[k]] == q[k] by {
            assert(t.subrange(i, i + q.len())[k] == t[i + k]);
        }
        assert(embeds(t, q, at));
    } else if scattered(t, starts, q, 0, None) is Some {
        let at = lemma_scattered_embeds(t, starts, q, 0, None);
        assert(embeds(t, q, at));
    } else if is_subsequence(t, q) {
        let at = choose|at: Seq<int>| embeds(t, q, at);
        if at.len() > 0 {
            assert(0 <= at[0]);
        }
        lemma_greedy(t, starts, q, 0, None, at);
    }
}

/// A word matches some field of the list.
pub open spec fn matches_some(word: Seq<char>, fields: Seq<Seq<char>>) -> bool {
    exists|i: int| 0 <= i < fields.len() && word_score(word, #[trigger] fields[i]) is Some
}

proof fn lemma_best_field(word: Seq<char>, fields: Seq<Seq<char>>)
    ensures
        best_field(word, fields) is Some <==> matches_some(word, fields),
    decreases fields.len(),
{
    if fields.len() > 0 {
        let front = fields.drop_last();
        lemma_best_field(word, front);
        if matches_some(word, front) {
            let i = choose|i: int| 0 <= i < front.len() && word_score(word, #[trigger] front[i]) is Some;
            assert(fields[i] == front[i]);
        }
        if matches_some(word, fields) && !matches_some(word, front) {
            let i = choose|i: int| 0 <= i < fields.len() && word_score(word, #[trigger] fields[i]) is Some;
            if i < front.len() {
                assert(front[i] == fields[i]);
            }
        }
        if word_score(word, fields.last()) is Some {
            assert(fields[fields.len() - 1] == fields.last());
        }
    }
}

/// A query matches exactly when each of its words matches some field.
pub proof fn law_all_words_must_match(query: Seq<char>, fields: Seq<Seq<char>>)
    ensures
        total_score(words_of(query), fields) is Some <==> forall|i: int|
            0 <= i < words_of(query).len() ==> matches_some(#[trigger] words_of(query)[i], fields),
{
    lemma_all_words(words_of(query), fields);
}

proof fn lemma_all_words(words: Seq<Seq<char>>, fields: Seq<Seq<char>>)
    ensures
        total_score(words, fields) is Some <==> forall|i: int|
            0 <= i < words.len() ==> matches_some(#[trigger] words[i], fields),
    decreases words.len(),
{
    if words.len() > 0 {
        let front = words.drop_last();
        lemma_all_words(front, fields);
        lemma_best_field(words.last(), fields);
        assert(words[words.len() - 1] == words.last());
        if forall|i: int| 0 <= i < words.len() ==> matches_some(#[trigger] words[i], fields) {
            assert forall|i: int| 0 <= i < front.len() implies matches_some(#[trigger] front[i], fields) by {
                assert(front[i] == words[i]);
            }
        }
        if total_score(words, fields) is Some {
            assert forall|i: int| 0 <= i < words.len() implies matches_some(#[trigger] words[i], fields) by {
                if i < front.len() {
                    assert(front[i] == words[i]);
                }
            }
        }
    }
}

/// Characters found one by one count at most 35 each.
proof fn lemma_scattered_at_most(text: Seq<char>, starts: Seq<bool>, query: Seq<char>, from: int, previous: Option<int>)
    requires
        0 <= from,
    ensures
        scattered(text, starts, query, from, previous) matches Some(n) ==> n <= 35 * query.len(),
    decreases query.len(),
{
    if query.len() > 0 {
        lemma_next_at(text, query.first(), from);
        match next_at(text, query.first(), from) {
            Some(found) => {
                lemma_scattered_at_most(text, starts, query.skip(1), found + 1, Some(found));
                assert(char_score(starts, found, previous) <= 35);
            },
            None => {},
        }
    }
}

proof fn lemma_first_place(text: Seq<char>, query: Seq<char>, i: int)
    requires
        occurs_at(text, query, i),
    ensures
        exists|j: int| #[trigger] occurs_first(text, query, j),
    decreases i,
{
    if exists|j: int| 0 <= j < i && #[trigger] occurs_at(text, query, j) {
        let j = choose|j: int| 0 <= j < i && #[trigger] occurs_at(text, query, j);
        lemma_first_place(text, query, j);
    } else {
        assert(occurs_first(text, query, i));
    }
}

/// A word that stands in one text as it is scores at least a thousand, less
/// its place and the text's length by eights; one whose characters are only
/// scattered over another text scores at most 35 for each. So the text with
/// the word itself comes first, unless it is very long or the word is.
pub proof fn law_whole_words_beat_scattered_ones(query: Seq<char>, a: Seq<char>, b: Seq<char>)
    requires
        occurs(lowered(a), lowered(query)),
        !occurs(lowered(b), lowered(query)),
        is_subsequence(lowered(b), lowered(query)),
    ensures
        word_score(query, a) matches Some(x) && word_score(query, b) matches Some(y) && {
            let long = lowered(a).len() as int;
            let chars = lowered(query).len() as int;
            &&& x >= 1000 - (long - chars) - long / 8
            &&& y <= 35 * chars
            &&& 35 * chars + (long - chars) + long / 8 < 1000 ==> x > y
        },
{
    let t = lowered(a);
    let q = lowered(query);
    if query.len() == 0 {
        assert(lowered(b).subrange(0, 0) =~= q);
        assert(occurs_at(lowered(b), q, 0));
    }
    let i = choose|i: int| #[trigger] occurs_at(t, q, i);
    lemma_first_place(t, q, i);
    let first = choose|i: int| occurs_first(t, q, i);
    assert(occurs_at(t, q, first));
    law_matches_subsequences(query, b);
    lemma_scattered_at_most(lowered(b), word_starts(lowered(b)), q, 0, None);
}

/// The score of a word in one of the fields; the first one counts double.
pub open spec fn weighed(word: Seq<char>, fields: Seq<Seq<char>>, i: int) -> Option<int> {
    match word_score(word, fields[i]) {
        Some(n) => Some(
            if i == 0 {
                n * 2
            } else {
                n
            },
        ),
        None => None,
    }
}

/// A word counts what it counts in the field where it counts most.
pub proof fn law_the_best_field_counts(word: Seq<char>, fields: Seq<Seq<char>>)
    ensures
        match best_field(word, fields) {
            Some(n) => {
                &&& exists|i: int| 0 <= i < fields.len() && #[trigger] weighed(word, fields, i) == Some(n)
                &&& forall|i: int|
                    0 <= i < fields.len() ==> (#[trigger] weighed(word, fields, i) matches Some(m) ==> m <= n)
            },
            None => forall|i: int| 0 <= i < fields.len() ==> #[trigger] weighed(word, fields, i) is None,
        },
    decreases fields.len(),
{
    if fields.len() > 0 {
        let front = fields.drop_last();
        let end = fields.len() - 1;
        law_the_best_field_counts(word, front);
        assert forall|i: int| 0 <= i < front.len() implies #[trigger] weighed(word, fields, i) == weighed(
            word,
            front,
            i,
        ) by {
            assert(front[i] == fields[i]);
        }
        assert(fields[end] == fields.last());
        let here = weighed(word, fields, end);
        let before = best_field(word, front);
        assert(best_field(word, fields) == better(before, here));
        match before {
            Some(n) => {
                let i = choose|i: int| 0 <= i < front.len() && #[trigger] weighed(word, front, i) == Some(n);
                assert(weighed(word, fields, i) == Some(n));
            },
            None => {},
        }
        assert forall|i: int| 0 <= i < fields.len() implies (#[trigger] weighed(word, fields, i) matches Some(m)
            ==> best_field(word, fields) matches Some(n) && m <= n) by {
            if i < front.len() {
                assert(weighed(word, fields, i) == weighed(word, front, i));
            }
        }
    }
}

/// The total of two scores; none where one is missing.
pub open spec fn both(a: Option<int>, b: Option<int>) -> Option<int> {
    match (a, b) {
        (Some(x), Some(y)) => Some(x + y),
        _ => None,
    }
}

proof fn lemma_taken_out(words: Seq<Seq<char>>, fields: Seq<Seq<char>>, i: int)
    requires
        0 <= i < words.len(),
    ensures
        total_score(words, fields) == both(total_score(words.remove(i), fields), best_field(words[i], fields)),
    decreases words.len(),
{
    if i == words.len() - 1 {
        assert(words.remove(i) =~= words.drop_last());
    } else {
        lemma_taken_out(words.drop_last(), fields, i);
        assert(words.remove(i).drop_last() =~= words.drop_last().remove(i));
        assert(words.remove(i).last() == words.last());
    }
}

/// The order of the words doesn't matter.
pub proof fn law_word_order_is_free(a: Seq<Seq<char>>, b: Seq<Seq<char>>, fields: Seq<Seq<char>>)
    requires
        a.to_multiset() == b.to_multiset(),
    ensures
        total_score(a, fields) == total_score(b, fields),
    decreases a.len(),
{
    a.to_multiset_ensures();
    b.to_multiset_ensures();
    if a.len() > 0 {
        let end = a.len() - 1;
        assert(a.contains(a[end]));
        assert(b.to_multiset().count(a[end]) > 0);
        assert(b.contains(a[end]));
        let i = choose|i: int| 0 <= i < b.len() && b[i] == a[end];
        assert(a.remove(end).to_multiset() =~= b.remove(i).to_multiset());
        law_word_order_is_free(a.remove(end), b.remove(i), fields);
        lemma_taken_out(a, fields, end);
        lemma_taken_out(b, fields, i);
    }
}

/// Each further word adds what it counts, and a query without words matches
/// everything with nothing.
pub proof fn law_words_add_up(words: Seq<Seq<char>>, word: Seq<char>, fields: Seq<Seq<char>>)
    ensures
        total_score(Seq::empty(), fields) == Some(0int),
        total_score(words.push(word), fields) == both(total_score(words, fields), best_field(word, fields)),
{
    assert(words.push(word).drop_last() =~= words);
}

/// Folding case goes character by character and keeps each of them: two
/// texts one behind the other fold to their folded texts one behind the
/// other, and one character to its own small letters.
pub proof fn law_folding_keeps_every_character(a: Seq<char>, b: Seq<char>, c: char)
    ensures
        lowered(Seq::empty()) == Seq::<char>::empty(),
        lowered(seq![c]) == lowercase_of(c),
        lowered(a + b) == lowered(a) + lowered(b),
    decreases b.len(),
{
    let one = seq![c];
    assert(one.drop_last() =~= Seq::empty());
    assert(one.last() == c);
    assert(lowered(one.drop_last()) =~= Seq::<char>::empty());
    assert(lowered(one) =~= lowercase_of(c));
    if b.len() == 0 {
        assert(a + b =~= a);
        assert(lowered(a) + lowered(b) =~= lowered(a));
    } else {
        law_folding_keeps_every_character(a, b.drop_last(), c);
        assert((a + b).drop_last() =~= a + b.drop_last());
        assert(lowered(a + b) =~= lowered(a) + lowered(b));
    }
}

/// The folded text holds exactly the small letters of its characters.
proof fn lemma_folded_holds(s: Seq<char>, x: char)
    ensures
        lowered(s).contains(x) <==> exists|i: int| 0 <= i < s.len() && lowercase_of(#[trigger] s[i]).contains(x),
    decreases s.len(),
{
    if s.len() > 0 {
        let front = s.drop_last();
        lemma_folded_holds(front, x);
        let a = lowered(front);
        let b = lowercase_of(s.last());
        assert(s[s.len() - 1] == s.last());
        if a.contains(x) {
            let k = choose|k: int| 0 <= k < a.len() && a[k] == x;
            assert((a + b)[k] == x);
            let i = choose|i: int| 0 <= i < front.len() && lowercase_of(#[trigger] front[i]).contains(x);
            assert(s[i] == front[i]);
        }
        if b.contains(x) {
            let k = choose|k: int| 0 <= k < b.len() && b[k] == x;
            assert((a + b)[a.len() + k] == x);
        }
        if (a + b).contains(x) && !a.contains(x) {
            let k = choose|k: int| 0 <= k < (a + b).len() && (a + b)[k] == x;
            if k < a.len() {
                assert(a[k] == x);
            }
            assert(b[k - a.len()] == x);
        }
        if exists|i: int| 0 <= i < s.len() && lowercase_of(#[trigger] s[i]).contains(x) {
            let i = choose|i: int| 0 <= i < s.len() && lowercase_of(#[trigger] s[i]).contains(x);
            if i < front.len() {
                assert(front[i] == s[i]);
            }
        }
    }
}

/// A query with a character that the text lacks, whatever its case, doesn't
/// match it.
pub proof fn law_a_missing_character_is_no_match(query: Seq<char>, text: Seq<char>, k: int, x: char)
    requires
        0 <= k < query.len(),
        lowercase_of(query[k]).contains(x),
        forall|i: int| 0 <= i < text.len() ==> !lowercase_of(#[trigger] text[i]).contains(x),
    ensures
        word_score(query, text) is None,
{
    lemma_folded_holds(query, x);
    lemma_folded_holds(text, x);
    law_matches_subsequences(query, text);
    let q = lowered(query);
    let t = lowered(text);
    if is_subsequence(t, q) {
        let at = choose|at: Seq<int>| embeds(t, q, at);
        let i = choose|i: int| 0 <= i < q.len() && q[i] == x;
        assert(t[at[i]] == q[i]);
        assert(t.contains(x));
    }
}

/// A text matches itself, whatever letters are capital in it: what folds to
/// the same scores the same.
pub proof fn law_case_makes_no_difference(query: Seq<char>, other: Seq<char>, text: Seq<char>, same: Seq<char>)
    requires
        query.len() > 0,
        other.len() > 0,
        lowered(query) == lowered(other),
        lowered(text) == lowered(same),
    ensures
        word_score(query, text) == word_score(other, same),
        word_score(text, text) is Some,
        word_score(Seq::empty(), text) == Some(0int),
{
    if text.len() > 0 {
        let t = lowered(text);
        assert(t.subrange(0, t.len() as int) =~= t);
        assert(occurs_at(t, t, 0));
    }
}

/// What a word counts that stands in the text as it is, first at `place`: a
/// thousand, fifty more at the start of the text or behind anything that is
/// no letter or digit, less its place, less an eighth of the text's length.
pub proof fn law_score_of_a_whole_word(query: Seq<char>, text: Seq<char>, place: int)
    requires
        query.len() > 0,
        lowered(query).len() > 0,
        0 <= place,
        place + lowered(query).len() <= lowered(text).len(),
        lowered(text).subrange(place, place + lowered(query).len()) == lowered(query),
        forall|j: int|
            0 <= j < place ==> #[trigger] lowered(text).subrange(j, j + lowered(query).len()) != lowered(query),
    ensures
        word_score(query, text) == Some(
            1000 + (if place == 0 || !alphanumeric(lowered(text)[place - 1]) {
                50int
            } else {
                0
            }) - place - lowered(text).len() as int / 8,
        ),
{
    let t = lowered(text);
    let q = lowered(query);
    assert(occurs_at(t, q, place));
    assert forall|j: int| 0 <= j < place implies !#[trigger] occurs_at(t, q, j) by {
        assert(t.subrange(j, j + q.len()) != q);
    }
    assert(occurs_first(t, q, place));
    lemma_first_unique(t, q, place);
}

/// `at` are the earliest places for the query's characters behind `from`.
pub open spec fn earliest(text: Seq<char>, query: Seq<char>, at: Seq<int>, from: int) -> bool {
    &&& at.len() == query.len()
    &&& forall|i: int| 0 <= i < at.len() ==> 0 <= #[trigger] at[i] < text.len() && text[at[i]] == query[i]
    &&& forall|i: int, p: int|
        #![trigger at[i], text[p]]
        0 <= i < at.len() && (if i == 0 {
            from
        } else {
            at[i - 1] + 1
        }) <= p < at[i] ==> text[p] != query[i]
    &&& forall|i: int| 0 <= i < at.len() ==> (if i == 0 {
        from
    } else {
        at[i - 1] + 1
    }) <= #[trigger] at[i]
}

/// What characters found at these places count: ten each, fifteen more
/// right behind the one before, ten more at a word's start; the first one
/// less its place.
pub open spec fn points(starts: Seq<bool>, at: Seq<int>) -> int
    decreases at.len(),
{
    if at.len() == 0 {
        0
    } else {
        let n = at.len() - 1;
        points(starts, at.drop_last()) + 10 + (if starts[at[n]] {
            10int
        } else {
            0
        }) + (if n == 0 {
            -at[0]
        } else if at[n] == at[n - 1] + 1 {
            15
        } else {
            0
        })
    }
}

/// The same, counted from the front, behind a character at `previous`.
spec fn points_from(starts: Seq<bool>, at: Seq<int>, previous: Option<int>) -> int
    decreases at.len(),
{
    if at.len() == 0 {
        0
    } else {
        points_from(starts, at.drop_last(), previous) + 10 + (if starts[at.last()] {
            10int
        } else {
            0
        }) + (if at.len() == 1 {
            match previous {
                Some(p) => if p == at[0] - 1 {
                    15
                } else {
                    0
                },
                None => -at[0],
            }
        } else if at.last() == at[at.len() - 2] + 1 {
            15
        } else {
            0
        })
    }
}

proof fn lemma_points_first(starts: Seq<bool>, at: Seq<int>, previous: Option<int>)
    requires
        at.len() > 0,
    ensures
        points_from(starts, at, previous) == char_score(starts, at[0], previous) + points_from(
            starts,
            at.skip(1),
            Some(at[0]),
        ),
    decreases at.len(),
{
    if at.len() == 1 {
        assert(at.drop_last() =~= Seq::empty());
        assert(at.skip(1) =~= Seq::empty());
        assert(points_from(starts, Seq::empty(), previous) == 0);
    } else {
        let front = at.drop_last();
        lemma_points_first(starts, front, previous);
        assert(at.skip(1).drop_last() =~= front.skip(1));
        assert(at.skip(1).last() == at.last());
        if at.len() > 2 {
            assert(at.skip(1)[at.len() - 3] == at[at.len() - 2]);
        } else {
            assert(at.skip(1)[0] == at[1]);
        }
    }
}

proof fn lemma_points(starts: Seq<bool>, at: Seq<int>)
    ensures
        points(starts, at) == points_from(starts, at, None),
    decreases at.len(),
{
    if at.len() > 0 {
        lemma_points(starts, at.drop_last());
    }
}

proof fn lemma_scattered_points(text: Seq<char>, starts: Seq<bool>, query: Seq<char>, from: int, previous: Option<int>, at: Seq<int>)
    requires
        0 <= from,
        earliest(text, query, at, from),
    ensures
        scattered(text, starts, query, from, previous) == Some(points_from(starts, at, previous)),
    decreases query.len(),
{
    if query.len() > 0 {
        lemma_next_at(text, query.first(), from);
        assert(at[0] >= from);
        assert(text[at[0]] == query[0]);
        let found = next_at(text, query.first(), from)->0;
        assert(found == at[0]) by {
            if found < at[0] {
                assert(text[found] != query[0]);
            }
        }
        let rest = at.skip(1);
        let q = query.skip(1);
        assert forall|i: int| 0 <= i < rest.len() implies 0 <= #[trigger] rest[i] < text.len() && text[rest[i]] == q[i] && (if i
            == 0 {
            found + 1
        } else {
            rest[i - 1] + 1
        }) <= rest[i] by {
            assert(rest[i] == at[i + 1]);
            if i > 0 {
                assert(rest[i - 1] == at[i]);
            }
        }
        assert forall|i: int, p: int|
            #![trigger rest[i], text[p]]
            0 <= i < rest.len() && (if i == 0 {
                found + 1
            } else {
                rest[i - 1] + 1
            }) <= p < rest[i] implies text[p] != q[i] by {
            assert(rest[i] == at[i + 1]);
            if i > 0 {
                assert(rest[i - 1] == at[i]);
            }
            assert(q[i] == query[i + 1]);
        }
        lemma_scattered_points(text, starts, q, found + 1, Some(found), rest);
        lemma_points_first(starts, at, previous);
    }
}

/// What a word counts whose characters stand in the text one by one, at
/// these earliest places.
pub proof fn law_score_of_a_scattered_word(query: Seq<char>, text: Seq<char>, at: Seq<int>)
    requires
        query.len() > 0,
        forall|j: int|
            0 <= j && j + lowered(query).len() <= lowered(text).len() ==> #[trigger] lowered(text).subrange(
                j,
                j + lowered(query).len(),
            ) != lowered(query),
        earliest(lowered(text), lowered(query), at, 0),
    ensures
        word_score(query, text) == Some(
            points(
                Seq::new(
                    lowered(text).len(),
                    |i: int| i == 0 || !alphanumeric(lowered(text)[i - 1]),
                ),
                at,
            ),
        ),
{
    let t = lowered(text);
    let q = lowered(query);
    assert(!occurs(t, q)) by {
        if occurs(t, q) {
            let j = choose|j: int| #[trigger] occurs_at(t, q, j);
            assert(t.subrange(j, j + q.len()) == q);
        }
    }
    let starts = Seq::new(t.len(), |i: int| i == 0 || !alphanumeric(t[i - 1]));
    assert(word_starts(t) =~= starts);
    lemma_scattered_points(t, starts, q, 0, None, at);
    lemma_points(starts, at);
}

proof fn lemma_word_runs(w: Seq<char>, s: Seq<char>)
    requires
        forall|i: int| 0 <= i < w.len() ==> !text::is_white(#[trigger] w[i]),
        s.len() > 0 ==> text::is_white(s[0]),
    ensures
        word_length(w + s) == w.len(),
    decreases w.len(),
{
    if w.len() > 0 {
        let rest = w.skip(1);
        assert forall|i: int| 0 <= i < rest.len() implies !text::is_white(#[trigger] rest[i]) by {
            assert(rest[i] == w[i + 1]);
        }
        lemma_word_runs(rest, s);
        assert((w + s).skip(1) =~= rest + s);
        assert((w + s).first() == w[0]);
    } else {
        assert(w + s =~= s);
    }
}

/// A query is taken apart at white space: white space in front is nothing,
/// what stands before white space is a word, and so is what stands at the
/// end.
pub proof fn law_words(w: Seq<char>, space: char, s: Seq<char>)
    requires
        text::is_white(space),
        w.len() > 0,
        forall|i: int| 0 <= i < w.len() ==> !text::is_white(#[trigger] w[i]),
    ensures
        words_of(Seq::empty()) == Seq::<Seq<char>>::empty(),
        words_of(seq![space] + s) == words_of(s),
        words_of(w) == seq![w],
        words_of(w + (seq![space] + s)) == seq![w] + words_of(s),
{
    let gap = seq![space] + s;
    assert(gap.skip(1) =~= s);
    assert(gap.first() == space);
    lemma_word_runs(w, Seq::empty());
    assert(w + Seq::empty() =~= w);
    assert(w.take(w.len() as int) =~= w);
    assert(w.skip(w.len() as int) =~= Seq::empty());
    lemma_word_runs(w, gap);
    assert((w + gap).take(w.len() as int) =~= w);
    assert((w + gap).skip(w.len() as int) =~= gap);
    assert((w + gap).first() == w[0]);
    assert(w.first() == w[0]);
    assert(seq![w] + words_of(Seq::empty()) =~= seq![w]);
}

} // verus!
