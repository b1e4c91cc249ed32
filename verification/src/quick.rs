//! Quick connect: `user@host`, `host:port`, `user@host:port` typed into
//! the search box, opened without saving first.

use vstd::prelude::*;

use crate::text;
verus! {

/// A host typed by hand.
#[derive(Clone, Debug, PartialEq, Eq)]
pub struct QuickTarget {
    pub user: Option<String>,
    pub host: String,
    pub port: Option<u16>,
}

/// What a target says.
pub struct TargetView {
    pub user: Option<Seq<char>>,
    pub host: Seq<char>,
    pub port: Option<u16>,
}

impl View for QuickTarget {
    type V = TargetView;

    open spec fn view(&self) -> TargetView {
        TargetView {
            user: match self.user {
                Some(u) => Some(u@),
                None => None,
            },
            host: self.host@,
            port: self.port,
        }
    }
}

/// `user@`, or nothing.
pub open spec fn user_prefix(user: Option<Seq<char>>) -> Seq<char> {
    match user {
        Some(u) => u.push('@'),
        None => Seq::empty(),
    }
}

/// `user@host:port`, with the parts that are there.
pub open spec fn label_of(t: TargetView) -> Seq<char> {
    match t.port {
        Some(p) => (user_prefix(t.user) + t.host).push(':') + text::decimal(p as nat),
        None => user_prefix(t.user) + t.host,
    }
}

/// `user@host`, or `ssh://user@host:port`.
pub open spec fn destination_of(t: TargetView) -> Seq<char> {
    match t.port {
        Some(_) => "ssh://"@ + label_of(t),
        None => label_of(t),
    }
}

impl QuickTarget {
    fn label_chars(&self) -> (r: Vec<char>)
        ensures
            r@ == label_of(self@),
    {
        let mut r: Vec<char> = Vec::new();
        if let Some(user) = &self.user {
            r = text::chars_of(user);
            r.push('@');
        }
        proof {
            assert(r@ =~= user_prefix(self@.user));
        }
        let host = text::chars_of(&self.host);
        text::append(&mut r, &host);
        if let Some(port) = self.port {
            r.push(':');
            let digits = text::decimal_chars(port as u128);
            text::append(&mut r, &digits);
        }
        r
    }

    /// What `ssh` gets as its destination: `user@host`, or
    /// `ssh://user@host:port` when there is a port (ssh has no other
    /// single-argument form for it).
    pub fn destination(&self) -> (r: String)
        ensures
            r@ == destination_of(self@),
    {
        let label = self.label_chars();
        if self.port.is_some() {
            let mut r = text::chars_of("ssh://");
            text::append(&mut r, &label);
            text::string_of(&r)
        } else {
            text::string_of(&label)
        }
    }

    /// The same, as a person writes it.
    pub fn label(&self) -> (r: String)
        ensures
            r@ == label_of(self@),
    {
        let label = self.label_chars();
        text::string_of(&label)
    }
}

pub open spec fn is_host_char(c: char) -> bool {
    text::is_ascii_alnum(c) || c == '.' || c == '-' || c == '_'
}

pub open spec fn is_user_char(c: char) -> bool {
    is_host_char(c) || c == '\\' || c == '$'
}

/// A host name: it can't be taken for an option of `ssh`.
pub open spec fn is_host(s: Seq<char>) -> bool {
    &&& s.len() > 0
    &&& s[0] != '-'
    &&& s[0] != '.'
    &&& forall|i: int| 0 <= i < s.len() ==> is_host_char(#[trigger] s[i])
}

/// A user name, possibly with its domain.
pub open spec fn is_user(s: Seq<char>) -> bool {
    &&& s.len() > 0
    &&& s[0] != '-'
    &&& forall|i: int| 0 <= i < s.len() ==> is_user_char(#[trigger] s[i])
}

fn valid_host(host: &[char]) -> (r: bool)
    ensures
        r == is_host(host@),
{
    if host.len() == 0 || host[0] == '-' || host[0] == '.' {
        return false;
    }
    let mut i: usize = 0;
    while i < host.len()
        invariant
            i <= host@.len(),
            forall|j: int| 0 <= j < i ==> is_host_char(#[trigger] host@[j]),
        decreases host@.len() - i,
    {
        let c = host[i];
        if !(text::ascii_alnum(c) || c == '.' || c == '-' || c == '_') {
            proof {
                assert(!is_host_char(host@[i as int]));
            }
            return false;
        }
        i += 1;
    }
    true
}

fn valid_user(user: &[char]) -> (r: bool)
    ensures
        r == is_user(user@),
{
    if user.len() == 0 || user[0] == '-' {
        return false;
    }
    let mut i: usize = 0;
    while i < user.len()
        invariant
            i <= user@.len(),
            forall|j: int| 0 <= j < i ==> is_user_char(#[trigger] user@[j]),
        decreases user@.len() - i,
    {
        let c = user[i];
        if !(text::ascii_alnum(c) || c == '.' || c == '-' || c == '_' || c == '\\' || c == '$') {
            proof {
                assert(!is_user_char(user@[i as int]));
            }
            return false;
        }
        i += 1;
    }
    true
}

/// One to four hexadecimal digits.
pub open spec fn is_hex_group(s: Seq<char>) -> bool {
    1 <= s.len() <= 4 && forall|i: int| 0 <= i < s.len() ==> text::is_hex_digit(#[trigger] s[i])
}

/// A number below 256 without leading zeros.
pub open spec fn is_octet(s: Seq<char>) -> bool {
    &&& text::all_digits(s)
    &&& s.len() <= 3
    &&& (s.len() > 1 ==> s[0] != '0')
    &&& text::digits_value(s) <= 255
}

/// Four octets separated by dots.
pub open spec fn is_ipv4(s: Seq<char>) -> bool {
    let parts = text::split_on(s, '.');
    parts.len() == 4 && is_octet(parts[0]) && is_octet(parts[1]) && is_octet(parts[2]) && is_octet(parts[3])
}

/// How many 16-bit groups `s` writes: hexadecimal groups separated by
/// colons, the last two written as an IPv4 address where `dotted` allows it.
pub open spec fn group_count(s: Seq<char>, dotted: bool) -> Option<int> {
    let parts = text::split_on(s, ':');
    if s.len() == 0 {
        Some(0)
    } else if exists|i: int| 0 <= i < parts.len() - 1 && !is_hex_group(#[trigger] parts[i]) {
        None
    } else if is_hex_group(parts.last()) {
        Some(parts.len() as int)
    } else if dotted && is_ipv4(parts.last()) {
        Some(parts.len() as int + 1)
    } else {
        None
    }
}

/// Where two colons stand side by side first.
pub open spec fn first_double_colon(s: Seq<char>) -> Option<int>
    decreases s.len(),
{
    if s.len() < 2 {
        None
    } else if s[0] == ':' && s[1] == ':' {
        Some(0)
    } else {
        match first_double_colon(s.skip(1)) {
            Some(i) => Some(i + 1),
            None => None,
        }
    }
}

/// An IPv6 address: eight groups, or fewer with `::` for at least one
/// group of zeros.
pub open spec fn is_ipv6(s: Seq<char>) -> bool {
    match first_double_colon(s) {
        Some(p) => match (group_count(s.take(p), false), group_count(s.skip(p + 2), true)) {
            (Some(head), Some(tail)) => head + tail <= 7,
            _ => false,
        },
        None => group_count(s, true) == Some(8int),
    }
}

fn hex_group(s: &[char]) -> (r: bool)
    ensures
        r == is_hex_group(s@),
{
    if s.len() == 0 || s.len() > 4 {
        return false;
    }
    let mut i: usize = 0;
    while i < s.len()
        invariant
            i <= s@.len(),
            forall|j: int| 0 <= j < i ==> text::is_hex_digit(#[trigger] s@[j]),
        decreases s@.len() - i,
    {
        if !text::hex_digit(s[i]) {
            proof {
                assert(!text::is_hex_digit(s@[i as int]));
            }
            return false;
        }
        i += 1;
    }
    true
}

fn octet(s: &[char]) -> (r: bool)
    ensures
        r == is_octet(s@),
{
    if !text::is_all_digits(s) || s.len() > 3 || (s.len() > 1 && s[0] == '0') {
        return false;
    }
    proof {
        assert(text::is_digit(s@[0]));
    }
    text::parse_number(s, 255).is_some()
}

fn ipv4(s: &[char]) -> (r: bool)
    ensures
        r == is_ipv4(s@),
{
    let parts = text::split(s, '.');
    proof {
        assert(text::deep(parts@).len() == parts@.len());
    }
    if parts.len() != 4 {
        return false;
    }
    proof {
        let d = text::deep(parts@);
        assert(d[0] == parts@[0]@ && d[1] == parts@[1]@ && d[2] == parts@[2]@ && d[3] == parts@[3]@);
    }
    octet(&parts[0]) && octet(&parts[1]) && octet(&parts[2]) && octet(&parts[3])
}

fn groups(s: &[char], dotted: bool) -> (r: Option<u128>)
    ensures
        match r {
            Some(n) => group_count(s@, dotted) == Some(n as int),
            None => group_count(s@, dotted) is None,
        },
{
    if s.len() == 0 {
        return Some(0);
    }
    let parts = text::split(s, ':');
    let ghost all = text::split_on(s@, ':');
    proof {
        text::lemma_split_nonempty(s@, ':');
        assert(text::deep(parts@).len() == parts@.len());
    }
    let mut i: usize = 0;
    while i < parts.len() - 1
        invariant
            i <= parts@.len() - 1,
            text::deep(parts@) == all,
            all == text::split_on(s@, ':'),
            s@.len() > 0,
            forall|j: int| 0 <= j < i ==> is_hex_group(#[trigger] all[j]),
        decreases parts@.len() - i,
    {
        proof {
            assert(all[i as int] == parts@[i as int]@);
        }
        if !hex_group(&parts[i]) {
            return None;
        }
        i += 1;
    }
    let last = &parts[parts.len() - 1];
    proof {
        assert(all.last() == last@);
    }
    if hex_group(last) {
        Some(parts.len() as u128)
    } else if dotted && ipv4(last) {
        Some(parts.len() as u128 + 1)
    } else {
        None
    }
}

proof fn lemma_double_colon(s: Seq<char>)
    ensures
        match first_double_colon(s) {
            Some(p) => 0 <= p && p + 1 < s.len() && s[p] == ':' && s[p + 1] == ':',
            None => true,
        },
    decreases s.len(),
{
    if s.len() >= 2 && !(s[0] == ':' && s[1] == ':') {
        lemma_double_colon(s.skip(1));
    }
}

fn double_colon(s: &[char]) -> (r: Option<usize>)
    ensures
        match r {
            Some(p) => first_double_colon(s@) == Some(p as int) && p + 1 < s@.len(),
            None => first_double_colon(s@) is None,
        },
{
    let mut i: usize = 0;
    proof {
        assert(s@.skip(0) =~= s@);
    }
    while i < s.len() && s.len() - i >= 2
        invariant
            i <= s@.len(),
            first_double_colon(s@) == match first_double_colon(s@.skip(i as int)) {
                Some(p) => Some(p + i),
                None => None::<int>,
            },
        decreases s@.len() - i,
    {
        if s[i] == ':' && s[i + 1] == ':' {
            return Some(i);
        }
        proof {
            assert(s@.skip(i as int).skip(1) =~= s@.skip(i + 1));
        }
        i += 1;
    }
    None
}

/// Whether `s` is an IPv6 address as RFC 4291 writes them.
fn ipv6(s: &[char]) -> (r: bool)
    ensures
        r == is_ipv6(s@),
{
    match double_colon(s) {
        Some(p) => {
            let head = text::part(s, 0, p);
            let len: usize = s.len();
            let tail = text::part(s, p + 2, len);
            proof {
                assert(head@ =~= s@.take(p as int));
                assert(tail@ =~= s@.skip(p + 2));
            }
            match (groups(&head, false), groups(&tail, true)) {
                (Some(h), Some(t)) => h <= 7 && t <= 7 - h,
                _ => false,
            }
        },
        None => match groups(s, true) {
            Some(n) => n == 8,
            None => false,
        },
    }
}

/// What was typed, without white space around it and without `ssh ` in
/// front.
pub open spec fn typed(text: Seq<char>) -> Seq<char> {
    let t = text::trimmed(text);
    if text::has_prefix(t, "ssh "@) {
        text::trimmed(t.skip(4))
    } else {
        t
    }
}

/// A target by name: it must look like more than a search word.
pub open spec fn named(user: Option<Seq<char>>, host: Seq<char>, port: Option<u16>) -> Option<TargetView> {
    if is_host(host) && (user is Some || port is Some || host.contains('.')) {
        Some(TargetView { user, host, port })
    } else {
        None
    }
}

/// The target after the user: `host`, `host:port`, or a bare IPv6 address.
pub open spec fn target_at(user: Option<Seq<char>>, rest: Seq<char>) -> Option<TargetView> {
    match text::first_at(rest, ':') {
        Some(i) => {
            let behind = rest.skip(i + 1);
            if text::first_at(behind, ':') is Some {
                let addr = text::without_trailing(text::without_leading(rest, '['), ']');
                if is_ipv6(addr) {
                    Some(TargetView { user, host: addr, port: None })
                } else {
                    None
                }
            } else {
                match text::number_of(behind) {
                    Some(n) => if 0 < n <= 65535 {
                        named(user, rest.take(i), Some(n as u16))
                    } else {
                        None
                    },
                    None => None,
                }
            }
        },
        None => named(user, rest, None),
    }
}

/// What was typed, as a target.
pub open spec fn target_of(text: Seq<char>) -> Option<TargetView> {
    let t = typed(text);
    if t.len() == 0 || exists|i: int| 0 <= i < t.len() && text::is_white(#[trigger] t[i]) {
        None
    } else {
        match text::last_at(t, '@') {
            Some(i) => if is_user(t.take(i)) {
                target_at(Some(t.take(i)), t.skip(i + 1))
            } else {
                None
            },
            None => target_at(None, t),
        }
    }
}

/// A target, or that there is none.
pub open spec fn found(r: Option<QuickTarget>) -> Option<TargetView> {
    match r {
        Some(t) => Some(t@),
        None => None,
    }
}

fn by_name(user: Option<&Vec<char>>, host: &[char], port: Option<u16>) -> (r: Option<QuickTarget>)
    ensures
        found(r) == named(
            match user {
                Some(u) => Some(u@),
                None => None,
            },
            host@,
            port,
        ),
{
    if !valid_host(host) {
        return None;
    }
    if user.is_some() || port.is_some() || text::contains_char(host, '.') {
        let user = match user {
            Some(u) => Some(text::string_of(u)),
            None => None,
        };
        Some(QuickTarget { user, host: text::string_of(host), port })
    } else {
        None
    }
}

fn parse_rest(user: Option<&Vec<char>>, rest: &[char]) -> (r: Option<QuickTarget>)
    ensures
        found(r) == target_at(
            match user {
                Some(u) => Some(u@),
                None => None,
            },
            rest@,
        ),
{
    match text::find_char(rest, ':') {
        Some(i) => {
            let len: usize = rest.len();
            let behind = text::part(rest, i + 1, len);
            proof {
                assert(behind@ =~= rest@.skip(i + 1));
            }
            // IPv6: bare address only (this ssh doesn't take `ssh://[v6]:port`)
            if text::find_char(&behind, ':').is_some() {
                let inner = text::trim_leading(rest, '[');
                let addr = text::trim_trailing(&inner, ']');
                if ipv6(&addr) {
                    let user = match user {
                        Some(u) => Some(text::string_of(u)),
                        None => None,
                    };
                    return Some(QuickTarget { user, host: text::string_of(&addr), port: None });
                }
                return None;
            }
            let host = text::part(rest, 0, i);
            proof {
                assert(host@ =~= rest@.take(i as int));
            }
            match text::parse_number(&behind, 65535) {
                Some(n) => if n != 0 {
                    by_name(user, &host, Some(n as u16))
                } else {
                    None
                },
                None => None,
            }
        },
        None => by_name(user, rest, None),
    }
}

/// Parse what was typed. Something that could just be a search word (no
/// `@`, no port, no dot) isn't a target.
pub fn parse(text: &str) -> (r: Option<QuickTarget>)
    ensures
        found(r) == target_of(text@),
{
    let chars = text::chars_of(text);
    let mut t = text::trim(&chars);
    let ssh = text::chars_of("ssh ");
    proof {
        reveal_strlit("ssh ");
    }
    if text::starts_with(&t, &ssh) {
        let rest = text::part(&t, 4, t.len());
        proof {
            assert(rest@ =~= t@.skip(4));
        }
        t = text::trim(&rest);
    }
    proof {
        assert(t@ == typed(text@));
    }
    if t.len() == 0 {
        return None;
    }
    let mut i: usize = 0;
    while i < t.len()
        invariant
            i <= t@.len(),
            t@ == typed(text@),
            forall|j: int| 0 <= j < i ==> !text::is_white(#[trigger] t@[j]),
        decreases t@.len() - i,
    {
        if text::white(t[i]) {
            proof {
                assert(text::is_white(t@[i as int]));
            }
            return None;
        }
        i += 1;
    }
    match text::rfind_char(&t, '@') {
        Some(at) => {
            let user = text::part(&t, 0, at);
            let rest = text::part(&t, at + 1, t.len());
            proof {
                assert(user@ =~= t@.take(at as int));
                assert(rest@ =~= t@.skip(at + 1));
            }
            if !valid_user(&user) {
                return None;
            }
            parse_rest(Some(&user), &rest)
        },
        None => parse_rest(None, &t),
    }
}

/// `destination` without the `ssh://` it may begin with.
pub open spec fn bare(destination: Seq<char>) -> Seq<char> {
    if text::has_prefix(destination, "ssh://"@) {
        destination.skip(6)
    } else {
        destination
    }
}

/// A destination NativeTerm opened for a quick connect (`user@host` or
/// `ssh://user@host:port`), back as a target.
pub fn from_destination(destination: &str) -> (r: Option<QuickTarget>)
    ensures
        found(r) == target_of(bare(destination@)),
{
    let chars = text::chars_of(destination);
    let scheme = text::chars_of("ssh://");
    proof {
        reveal_strlit("ssh://");
    }
    if text::starts_with(&chars, &scheme) {
        let rest = text::part(&chars, 6, chars.len());
        proof {
            assert(rest@ =~= chars@.skip(6));
        }
        let rest = text::string_of(&rest);
        parse(&rest)
    } else {
        parse(destination)
    }
}

/// The characters a target is written with.
spec fn is_target_char(c: char) -> bool {
    is_user_char(c) || c == ':' || c == '@'
}

/// What `parse` accepts as a target.
pub open spec fn is_target(t: TargetView) -> bool {
    &&& t.user matches Some(u) ==> is_user(u)
    &&& {
        ||| is_host(t.host) && (t.user is Some || t.port is Some || t.host.contains('.')) && t.port != Some(0u16)
        ||| is_ipv6(t.host) && t.port is None
    }
}

proof fn lemma_ipv6_chars(s: Seq<char>, dotted: bool, i: int)
    requires
        group_count(s, dotted) is Some,
        0 <= i < s.len(),
    ensures
        s[i] == ':' || s[i] == '.' || text::is_hex_digit(s[i]),
{
    if s[i] != ':' {
        text::lemma_split_chars(s, ':', i);
        let parts = text::split_on(s, ':');
        let (p, k) = choose|p: int, k: int|
            0 <= p < parts.len() && 0 <= k < parts[p].len() && #[trigger] parts[p][k] == s[i];
        if is_hex_group(parts[p]) {
            assert(text::is_hex_digit(parts[p][k]));
        } else {
            assert(p == parts.len() - 1);
            let v4 = parts[p];
            assert(is_ipv4(v4));
            if v4[k] != '.' {
                text::lemma_split_chars(v4, '.', k);
                let octets = text::split_on(v4, '.');
                let (q, m) = choose|q: int, m: int|
                    0 <= q < octets.len() && 0 <= m < octets[q].len() && #[trigger] octets[q][m] == v4[k];
                assert(is_octet(octets[q]));
                assert(text::is_digit(octets[q][m]));
            }
        }
    }
}

proof fn lemma_ipv6(s: Seq<char>)
    requires
        is_ipv6(s),
    ensures
        s.len() > 0,
        forall|i: int| 0 <= i < s.len() ==> #[trigger] s[i] == ':' || s[i] == '.' || text::is_hex_digit(s[i]),
        text::first_at(s, ':') is Some,
        text::first_at(s.skip(text::first_at(s, ':')->0 + 1), ':') is Some,
{
    lemma_double_colon(s);
    text::lemma_first_at(s, ':');
    match first_double_colon(s) {
        Some(p) => {
            assert forall|i: int| 0 <= i < s.len() implies #[trigger] s[i] == ':' || s[i] == '.' || text::is_hex_digit(
                s[i],
            ) by {
                if i < p {
                    assert(s.take(p)[i] == s[i]);
                    lemma_ipv6_chars(s.take(p), false, i);
                } else if i >= p + 2 {
                    assert(s.skip(p + 2)[i - p - 2] == s[i]);
                    lemma_ipv6_chars(s.skip(p + 2), true, i - p - 2);
                }
            }
            assert(s[p] == ':');
            let at = text::first_at(s, ':')->0;
            assert(at <= p);
            let rest = s.skip(at + 1);
            text::lemma_first_at(rest, ':');
            assert(rest[p - at] == s[p + 1]);
        },
        None => {
            assert forall|i: int| 0 <= i < s.len() implies #[trigger] s[i] == ':' || s[i] == '.' || text::is_hex_digit(
                s[i],
            ) by {
                lemma_ipv6_chars(s, true, i);
            }
            text::lemma_split_counts(s, ':');
        },
    }
}

/// Whatever is parsed is a target.
pub proof fn lemma_parsed(text: Seq<char>)
    requires
        target_of(text) is Some,
    ensures
        is_target(target_of(text)->0),
{
}

proof fn lemma_rest(user: Option<Seq<char>>, rest: Seq<char>, t: TargetView)
    requires
        is_target(t),
        t.user == user,
        rest == match t.port {
            Some(p) => t.host.push(':') + text::decimal(p as nat),
            None => t.host,
        },
    ensures
        target_at(user, rest) == Some(t),
        rest.len() > 0,
        forall|i: int| 0 <= i < rest.len() ==> is_target_char(#[trigger] rest[i]) && rest[i] != '@',
{
    text::lemma_first_at(rest, ':');
    if is_host(t.host) && (t.user is Some || t.port is Some || t.host.contains('.')) && t.port != Some(0u16) {
        assert forall|i: int| 0 <= i < t.host.len() implies is_host_char(#[trigger] rest[i]) by {
            assert(is_host_char(t.host[i]));
        }
        match t.port {
            Some(p) => {
                let at = t.host.len() as int;
                let digits = text::decimal(p as nat);
                text::lemma_decimal(p as nat);
                assert(rest[at] == ':');
                assert forall|j: int| 0 <= j < at implies rest[j] != ':' by {
                    assert(is_host_char(rest[j]));
                }
                text::lemma_first_at_is(rest, ':', at);
                assert(rest.skip(at + 1) =~= digits);
                assert(rest.take(at) =~= t.host);
                text::lemma_first_at(digits, ':');
                if text::first_at(digits, ':') is Some {
                    assert(text::is_digit(digits[text::first_at(digits, ':')->0]));
                }
                assert(text::is_digit(digits[0]));
                assert forall|i: int| 0 <= i < rest.len() implies is_target_char(#[trigger] rest[i]) && rest[i] != '@' by {
                    if i > at {
                        assert(rest[i] == digits[i - at - 1]);
                        assert(text::is_digit(digits[i - at - 1]));
                    }
                }
            },
            None => {
                if text::first_at(rest, ':') is Some {
                    assert(is_host_char(rest[text::first_at(rest, ':')->0]));
                }
            },
        }
    } else {
        lemma_ipv6(t.host);
        assert(rest[0] != '[');
        assert(rest.last() == rest[rest.len() - 1]);
        assert(text::without_leading(rest, '[') == rest);
        assert(text::without_trailing(rest, ']') == rest);
    }
}

proof fn lemma_label(t: TargetView)
    requires
        is_target(t),
    ensures
        target_of(label_of(t)) == Some(t),
        forall|i: int| 0 <= i < label_of(t).len() ==> is_target_char(#[trigger] label_of(t)[i]),
{
    let l = label_of(t);
    let rest = match t.port {
        Some(p) => t.host.push(':') + text::decimal(p as nat),
        None => t.host,
    };
    lemma_rest(t.user, rest, t);
    assert(l =~= user_prefix(t.user) + rest);
    let n = user_prefix(t.user).len() as int;
    assert forall|i: int| 0 <= i < l.len() implies is_target_char(#[trigger] l[i]) by {
        if i >= n {
            assert(l[i] == rest[i - n]);
        } else {
            let u = t.user->0;
            if i < u.len() {
                assert(is_user_char(u[i]));
            }
        }
    }
    assert forall|i: int| 0 <= i < l.len() implies !text::is_white(#[trigger] l[i]) by {
        assert(is_target_char(l[i]));
    }
    text::lemma_trimmed_plain(l);
    reveal_strlit("ssh ");
    if text::has_prefix(l, "ssh "@) {
        assert(l.take(4)[3] == ' ');
        assert(is_target_char(l[3]));
    }
    assert(typed(l) == l);
    assert(l.len() > 0);
    text::lemma_last_at(l, '@');
    match t.user {
        Some(u) => {
            assert(l[u.len() as int] == '@');
            assert forall|j: int| u.len() < j < l.len() implies l[j] != '@' by {
                assert(l[j] == rest[j - n]);
            }
            text::lemma_last_at_is(l, '@', u.len() as int);
            assert(l.take(u.len() as int) =~= u);
            assert(l.skip(u.len() as int + 1) =~= rest);
        },
        None => {
            assert(l =~= rest);
            if text::last_at(l, '@') is Some {
                assert(rest[text::last_at(l, '@')->0] != '@');
            }
        },
    }
}

/// A target's label, typed again, is that target.
pub proof fn law_label_reads_back(text: Seq<char>)
    requires
        target_of(text) is Some,
    ensures
        target_of(label_of(target_of(text)->0)) == target_of(text),
{
    lemma_parsed(text);
    lemma_label(target_of(text)->0);
}

/// The destination a target was opened with gives the target back.
pub proof fn law_destination_reads_back(text: Seq<char>)
    requires
        target_of(text) is Some,
    ensures
        target_of(bare(destination_of(target_of(text)->0))) == target_of(text),
{
    let t = target_of(text)->0;
    lemma_parsed(text);
    lemma_label(t);
    let l = label_of(t);
    reveal_strlit("ssh://");
    if text::has_prefix(l, "ssh://"@) {
        assert(l.take(6)[4] == '/');
        assert(is_target_char(l[4]));
    }
    if t.port is Some {
        let d = "ssh://"@ + l;
        assert(d.take(6) =~= "ssh://"@);
        assert(d.skip(6) =~= l);
    }
}

/// No target can be taken for an option: neither what `ssh` gets nor the
/// user in it begins with a dash.
pub proof fn law_never_an_option(text: Seq<char>)
    requires
        target_of(text) is Some,
    ensures
        destination_of(target_of(text)->0).len() > 0,
        destination_of(target_of(text)->0)[0] != '-',
{
    let t = target_of(text)->0;
    lemma_parsed(text);
    reveal_strlit("ssh://");
    if !is_host(t.host) {
        lemma_ipv6(t.host);
    }
}

/// A character that every part of a target may hold: a letter or digit of
/// ASCII, a dot, a dash or an underscore.
pub open spec fn is_plain(c: char) -> bool {
    ('a' <= c <= 'z') || ('A' <= c <= 'Z') || ('0' <= c <= '9') || c == '.' || c == '-' || c == '_'
}

/// Every host of letters, digits, dots, dashes and underscores that begins
/// with neither a dash nor a dot is one that can be connected to: with a
/// user, with a port, with both, and alone where a dot is in it.
pub proof fn law_names_are_targets(user: Seq<char>, host: Seq<char>, port: u16)
    requires
        host.len() > 0,
        host[0] != '-',
        host[0] != '.',
        forall|i: int| 0 <= i < host.len() ==> is_plain(#[trigger] host[i]),
        user.len() > 0,
        user[0] != '-',
        forall|i: int| 0 <= i < user.len() ==> is_plain(#[trigger] user[i]) || user[i] == '\\' || user[i] == '$',
        port > 0,
    ensures
        target_of(user.push('@') + host) == Some(TargetView { user: Some(user), host, port: None }),
        target_of((user.push('@') + host).push(':') + text::decimal(port as nat)) == Some(
            TargetView { user: Some(user), host, port: Some(port) },
        ),
        target_of(host.push(':') + text::decimal(port as nat)) == Some(TargetView { user: None, host, port: Some(port) }),
        host.contains('.') ==> target_of(host) == Some(TargetView { user: None, host, port: None }),
        !host.contains('.') ==> target_of(host) is None,
{
    let a = TargetView { user: Some(user), host, port: None };
    let b = TargetView { user: Some(user), host, port: Some(port) };
    let c = TargetView { user: None, host, port: Some(port) };
    let d = TargetView { user: None, host, port: None };
    assert forall|i: int| 0 <= i < host.len() implies is_host_char(#[trigger] host[i]) by {
        assert(is_plain(host[i]));
    }
    assert forall|i: int| 0 <= i < user.len() implies is_user_char(#[trigger] user[i]) by {
        assert(is_plain(user[i]) || user[i] == '\\' || user[i] == '$');
    }
    assert(is_host(host) && is_user(user));
    lemma_label(a);
    lemma_label(b);
    lemma_label(c);
    assert(label_of(a) =~= user.push('@') + host);
    assert(label_of(b) =~= (user.push('@') + host).push(':') + text::decimal(port as nat));
    assert(label_of(c) =~= host.push(':') + text::decimal(port as nat));
    if host.contains('.') {
        lemma_label(d);
        assert(label_of(d) =~= host);
    } else {
        assert forall|i: int| 0 <= i < host.len() implies !text::is_white(#[trigger] host[i]) && host[i] != '@' && host[i]
            != ':' by {
            assert(is_plain(host[i]));
        }
        text::lemma_trimmed_plain(host);
        reveal_strlit("ssh ");
        if text::has_prefix(host, "ssh "@) {
            assert(host.take(4)[3] == ' ');
            assert(text::is_white(host[3]));
        }
        text::lemma_last_at(host, '@');
        text::lemma_first_at(host, ':');
    }
}

/// What is connected to is such a host or an IPv6 address, with such a user
/// and a port that is not zero; without a user, a port and a dot it is just
/// a word.
pub proof fn law_targets_are_names(text: Seq<char>)
    requires
        target_of(text) is Some,
    ensures
        ({
            let t = target_of(text)->0;
            &&& t.host.len() > 0
            &&& t.host[0] != '-' && t.host[0] != '.'
            &&& forall|i: int| 0 <= i < t.host.len() ==> is_plain(#[trigger] t.host[i]) || t.host[i] == ':'
            &&& t.host.contains(':') ==> t.port is None && is_ipv6(t.host)
            &&& t.user matches Some(u) ==> u.len() > 0 && u[0] != '-' && forall|i: int|
                0 <= i < u.len() ==> is_plain(#[trigger] u[i]) || u[i] == '\\' || u[i] == '$'
            &&& t.port matches Some(p) ==> p > 0
            &&& t.user is None && t.port is None ==> t.host.contains('.') || t.host.contains(':')
        }),
{
    let t = target_of(text)->0;
    lemma_parsed(text);
    if t.user is Some {
        let u = t.user->0;
        assert forall|i: int| 0 <= i < u.len() implies is_plain(#[trigger] u[i]) || u[i] == '\\' || u[i] == '$' by {
            assert(is_user_char(u[i]));
        }
    }
    if is_host(t.host) && (t.user is Some || t.port is Some || t.host.contains('.')) && t.port != Some(0u16) {
        assert forall|i: int| 0 <= i < t.host.len() implies is_plain(#[trigger] t.host[i]) && t.host[i] != ':' by {
            assert(is_host_char(t.host[i]));
        }
    } else {
        lemma_ipv6(t.host);
        let at = text::first_at(t.host, ':')->0;
        text::lemma_first_at(t.host, ':');
        assert(t.host[at] == ':');
        if t.host[0] == '.' {
            lemma_no_dot_first(t.host);
        }
    }
}

proof fn lemma_no_dot_first(s: Seq<char>)
    requires
        is_ipv6(s),
    ensures
        s.len() > 0,
        s[0] != '.',
{
    lemma_ipv6(s);
    lemma_double_colon(s);
    if s[0] == '.' {
        match first_double_colon(s) {
            Some(p) => {
                let head = s.take(p);
                if p > 0 {
                    text::lemma_split_nonempty(head, ':');
                    lemma_first_part(head, ':');
                    let parts = text::split_on(head, ':');
                    assert(head[0] == s[0]);
                    assert(is_hex_group(parts[0]));
                    assert(parts[0].len() > 0);
                    assert(parts[0][0] == '.');
                    assert(text::is_hex_digit(parts[0][0]));
                } else {
                    assert(s[0] == ':');
                }
            },
            None => {
                text::lemma_split_nonempty(s, ':');
                lemma_first_part(s, ':');
                let parts = text::split_on(s, ':');
                assert(is_hex_group(parts[0]));
                assert(parts[0][0] == '.');
                assert(text::is_hex_digit(parts[0][0]));
            },
        }
    }
}

proof fn lemma_first_part(s: Seq<char>, c: char)
    requires
        s.len() > 0,
        s[0] != c,
    ensures
        text::split_on(s, c).len() > 0,
        text::split_on(s, c)[0].len() > 0,
        text::split_on(s, c)[0][0] == s[0],
{
    text::lemma_first_at(s, c);
    match text::first_at(s, c) {
        Some(i) => {
            assert(s.take(i)[0] == s[0]);
        },
        None => {},
    }
}

/// White space around a target and `ssh ` in front of it are nothing;
/// within a target white space makes it none.
pub proof fn law_targets_as_typed(text: Seq<char>, w: char)
    requires
        text::is_white(w),
    ensures
        target_of(seq![w] + text) == target_of(text),
        target_of(text.push(w)) == target_of(text),
        target_of(Seq::empty()) is None,
        text.len() > 0 && !text::is_white(text[0]) && !text::is_white(text[text.len() - 1]) && !text::has_prefix(text, "ssh "@)
            ==> target_of("ssh "@ + text) == target_of(text),
        target_of(text) matches Some(t) ==> forall|i: int| 0 <= i < t.host.len() ==> !text::is_white(#[trigger] t.host[i]),
{
    text::law_trimming(text, w);
    assert(text::trimmed(Seq::empty()) == Seq::<char>::empty());
    reveal_strlit("ssh ");
    assert(typed(Seq::empty()).len() == 0);
    if text.len() > 0 && !text::is_white(text[0]) && !text::is_white(text[text.len() - 1]) && !text::has_prefix(text, "ssh "@) {
        let s = "ssh "@ + text;
        assert(s[0] == 's');
        assert(s[s.len() - 1] == text[text.len() - 1]);
        text::law_trimming(s, w);
        assert(s.take(4) =~= "ssh "@);
        assert(s.skip(4) =~= text);
    }
    if target_of(text) is Some {
        law_targets_are_names(text);
        let t = target_of(text)->0;
        assert forall|i: int| 0 <= i < t.host.len() implies !text::is_white(#[trigger] t.host[i]) by {
            assert(is_plain(t.host[i]) || t.host[i] == ':');
        }
    }
}

/// Hexadecimal digits, at least one and at most four.
pub open spec fn is_group(s: Seq<char>) -> bool {
    1 <= s.len() <= 4 && forall|i: int|
        0 <= i < s.len() ==> ('0' <= #[trigger] s[i] <= '9') || ('a' <= s[i] <= 'f') || ('A' <= s[i] <= 'F')
}

/// Groups of hexadecimal digits.
pub open spec fn are_groups(list: Seq<Seq<char>>) -> bool {
    forall|i: int| 0 <= i < list.len() ==> is_group(#[trigger] list[i])
}

proof fn lemma_groups(list: Seq<Seq<char>>, dotted: bool)
    requires
        are_groups(list),
    ensures
        group_count(text::joined(list, ':'), dotted) == Some(list.len() as int),
        list.len() > 0 ==> text::joined(list, ':').len() > 0,
{
    if list.len() > 0 {
        assert forall|i: int| 0 <= i < list.len() implies !(#[trigger] list[i]).contains(':') by {
            assert(is_group(list[i]));
        }
        lemma_joined_apart(list);
        assert forall|i: int| 0 <= i < list.len() implies is_hex_group(#[trigger] list[i]) by {
            assert(is_group(list[i]));
            assert forall|k: int| 0 <= k < list[i].len() implies text::is_hex_digit(#[trigger] list[i][k]) by {}
        }
        assert(is_group(list[0]));
        assert(list.last() == list[list.len() - 1]);
        assert(text::joined(list, ':').len() > 0);
    }
}

proof fn lemma_joined_apart(list: Seq<Seq<char>>)
    requires
        list.len() > 0,
        forall|i: int| 0 <= i < list.len() ==> !(#[trigger] list[i]).contains(':'),
    ensures
        text::split_on(text::joined(list, ':'), ':') == list,
    decreases list.len(),
{
    let first = list[0];
    assert forall|i: int| 0 <= i < first.len() implies first[i] != ':' by {
        assert(!first.contains(':'));
    }
    let rest = list.skip(1);
    text::law_splitting(first, ':', text::joined(rest, ':'));
    if list.len() > 1 {
        assert forall|i: int| 0 <= i < rest.len() implies !(#[trigger] rest[i]).contains(':') by {
            assert(rest[i] == list[i + 1]);
        }
        lemma_joined_apart(rest);
        assert(seq![first] + rest =~= list);
    } else {
        assert(seq![first] =~= list);
    }
}

proof fn lemma_no_double_colon(list: Seq<Seq<char>>)
    requires
        are_groups(list),
    ensures
        forall|i: int|
            0 <= i && i + 1 < text::joined(list, ':').len() ==> !(#[trigger] text::joined(list, ':')[i] == ':' && text::joined(
                list,
                ':',
            )[i + 1] == ':'),
        list.len() > 0 ==> text::joined(list, ':').len() > 0 && text::joined(list, ':')[0] != ':' && text::joined(list, ':').last()
            != ':',
    decreases list.len(),
{
    let s = text::joined(list, ':');
    if list.len() == 1 {
        assert(is_group(list[0]));
    } else if list.len() > 1 {
        let rest = list.skip(1);
        assert forall|i: int| 0 <= i < rest.len() implies is_group(#[trigger] rest[i]) by {
            assert(rest[i] == list[i + 1]);
        }
        lemma_no_double_colon(rest);
        assert(is_group(list[0]));
        let n = list[0].len() as int;
        let tail = text::joined(rest, ':');
        assert(s =~= list[0].push(':') + tail);
        assert forall|i: int| 0 <= i && i + 1 < s.len() implies !(#[trigger] s[i] == ':' && s[i + 1] == ':') by {
            if i < n {
                assert(s[i] == list[0][i]);
            } else if i > n {
                assert(s[i] == tail[i - n - 1]);
                assert(s[i + 1] == tail[i - n]);
            } else {
                assert(s[i + 1] == tail[0]);
            }
        }
    }
}

proof fn lemma_double_colon_is(s: Seq<char>, p: int)
    requires
        0 <= p,
        p + 1 < s.len(),
        s[p] == ':' && s[p + 1] == ':',
        forall|i: int| 0 <= i < p ==> !(#[trigger] s[i] == ':' && s[i + 1] == ':'),
    ensures
        first_double_colon(s) == Some(p),
    decreases p,
{
    if p > 0 {
        assert(!(s[0] == ':' && s[1] == ':'));
        let t = s.skip(1);
        assert forall|i: int| 0 <= i < p - 1 implies !(#[trigger] t[i] == ':' && t[i + 1] == ':') by {
            assert(t[i] == s[i + 1]);
        }
        lemma_double_colon_is(t, p - 1);
    }
}

/// Eight groups of hexadecimal digits with colons between them are an IPv6
/// address, and so are up to seven with two colons at one place; more or
/// fewer are none.
pub proof fn law_ipv6_addresses(a: Seq<Seq<char>>, b: Seq<Seq<char>>)
    requires
        are_groups(a),
        are_groups(b),
    ensures
        is_ipv6(text::joined(a, ':')) <==> a.len() == 8,
        is_ipv6(text::joined(a, ':') + seq![':', ':'] + text::joined(b, ':')) <==> a.len() + b.len() <= 7,
{
    let s = text::joined(a, ':');
    lemma_groups(a, true);
    lemma_groups(a, false);
    lemma_groups(b, true);
    lemma_no_double_colon(a);
    lemma_no_double_colon(b);
    lemma_double_colon(s);
    assert(first_double_colon(s) is None) by {
        if first_double_colon(s) is Some {
            let p = first_double_colon(s)->0;
            assert(s[p] == ':');
        }
    }
    let t = text::joined(b, ':');
    let both = s + seq![':', ':'] + t;
    let p = s.len() as int;
    assert(both[p] == ':' && both[p + 1] == ':');
    assert forall|i: int| 0 <= i < p implies !(#[trigger] both[i] == ':' && both[i + 1] == ':') by {
        assert(both[i] == s[i]);
        if i + 1 < p {
            assert(both[i + 1] == s[i + 1]);
        } else {
            assert(s[i] == s.last());
        }
    }
    lemma_double_colon_is(both, p);
    assert(both.take(p) =~= s);
    assert(both.skip(p + 2) =~= t);
}

/// A target is written as `user@host:port` with the parts it has; `ssh` gets
/// it so, with `ssh://` in front where there is a port.
pub proof fn law_how_targets_are_written(user: Seq<char>, host: Seq<char>, port: u16)
    ensures
        label_of(TargetView { user: None, host, port: None }) == host,
        label_of(TargetView { user: Some(user), host, port: None }) == user + seq!['@'] + host,
        label_of(TargetView { user: Some(user), host, port: Some(port) }) == user + seq!['@'] + host + seq![':'] + text::decimal(
            port as nat,
        ),
        label_of(TargetView { user: None, host, port: Some(port) }) == host + seq![':'] + text::decimal(port as nat),
        destination_of(TargetView { user: Some(user), host, port: None }) == user + seq!['@'] + host,
        destination_of(TargetView { user: None, host, port: None }) == host,
        destination_of(TargetView { user: Some(user), host, port: Some(port) }) == "ssh://"@ + (user + seq!['@'] + host + seq![':']
            + text::decimal(port as nat)),
        bare("ssh://"@ + host) == host,
{
    reveal_strlit("ssh://");
    assert(user.push('@') + host =~= user + seq!['@'] + host);
    assert((user.push('@') + host).push(':') + text::decimal(port as nat) =~= user + seq!['@'] + host + seq![':']
        + text::decimal(port as nat));
    assert(host.push(':') + text::decimal(port as nat) =~= host + seq![':'] + text::decimal(port as nat));
    let none = user_prefix(None);
    assert(none + host =~= host);
    assert((none + host).push(':') + text::decimal(port as nat) =~= host + seq![':'] + text::decimal(port as nat));
    let d = "ssh://"@ + host;
    assert(d.take(6) =~= "ssh://"@);
    assert(d.skip(6) =~= host);
}

} // verus!
