//! Session options: more ssh settings for one host, by category. Empty
//! fields keep what ssh would use anyway (shown greyed).

use vstd::prelude::*;

use crate::message;
use crate::message::Message;
use crate::message::MessageView;
use crate::message::Notice;
use crate::message::NoticeView;
use crate::text;

verus! {

/// What the options are for.
#[derive(Clone, Debug, PartialEq, Eq)]
pub enum OptionsTarget {
    Host(String),
    /// Every host in this folder file.
    Folder(String),
}

/// A page of options.
#[derive(Clone, Copy, Debug, PartialEq, Eq, Structural)]
pub enum Category {
    Connection,
    Authentication,
    Algorithms,
    HostKey,
    Forwarding,
    Environment,
}

/// A kind of proxy.
#[derive(Clone, Copy, Debug, PartialEq, Eq, Structural)]
pub enum ProxyKind {
    Http,
    Socks4,
    Socks5,
}

/// The proxy field: none, one of NativeTerm's (type and address), or a
/// `ProxyCommand` of another form, kept as text.
#[derive(Clone, Copy, Debug, PartialEq, Eq, Structural)]
pub enum ProxyChoice {
    Default,
    Kind(ProxyKind),
    Other,
}

/// How a page is called.
pub open spec fn category_words(category: Category) -> MessageView {
    match category {
        Category::Connection => message::said("options-connection"@),
        Category::Authentication => message::said("options-authentication"@),
        Category::Algorithms => message::said("options-algorithms"@),
        Category::HostKey => message::said("options-host-key"@),
        Category::Forwarding => message::said("options-forwarding"@),
        Category::Environment => message::said("options-environment"@),
    }
}

/// How a page is called.
pub fn category_name(category: Category) -> (r: Message)
    ensures
        r@ == category_words(category),
{
    match category {
        Category::Connection => Message::new("options-connection"),
        Category::Authentication => Message::new("options-authentication"),
        Category::Algorithms => Message::new("options-algorithms"),
        Category::HostKey => Message::new("options-host-key"),
        Category::Forwarding => Message::new("options-forwarding"),
        Category::Environment => Message::new("options-environment"),
    }
}

/// What is said under a page.
pub fn category_note(category: Category) -> (r: Option<Message>)
    ensures
        (match r {
            Some(m) => Some(m@),
            None => None,
        }) == (match category {
            Category::Authentication => Some(message::said("options-forward-agent-note"@)),
            Category::Algorithms => Some(message::said("options-algorithms-note"@)),
            Category::Forwarding => Some(message::said("options-forwarding-note"@)),
            Category::Connection => Some(message::said("proxy-note"@)),
            _ => None,
        }),
{
    match category {
        Category::Authentication => Some(Message::new("options-forward-agent-note")),
        Category::Algorithms => Some(Message::new("options-algorithms-note")),
        Category::Forwarding => Some(Message::new("options-forwarding-note")),
        Category::Connection => Some(Message::new("proxy-note")),
        _ => None,
    }
}

/// How an option is called; one that has no name of its own by its keyword.
pub open spec fn option_words(keyword: Seq<char>) -> NoticeView {
    if keyword == "ConnectTimeout"@ {
        NoticeView::Said(message::said("opt-connect-timeout"@))
    } else if keyword == "ServerAliveInterval"@ {
        NoticeView::Said(message::said("opt-server-alive-interval"@))
    } else if keyword == "ServerAliveCountMax"@ {
        NoticeView::Said(message::said("opt-server-alive-count-max"@))
    } else if keyword == "TCPKeepAlive"@ {
        NoticeView::Said(message::said("opt-tcp-keep-alive"@))
    } else if keyword == "Compression"@ {
        NoticeView::Said(message::said("opt-compression"@))
    } else if keyword == "AddressFamily"@ {
        NoticeView::Said(message::said("opt-address-family"@))
    } else if keyword == "RequestTTY"@ {
        NoticeView::Said(message::said("opt-request-tty"@))
    } else if keyword == "RemoteCommand"@ {
        NoticeView::Said(message::said("opt-remote-command"@))
    } else if keyword == "LogLevel"@ {
        NoticeView::Said(message::said("opt-log-level"@))
    } else if keyword == "PreferredAuthentications"@ {
        NoticeView::Said(message::said("opt-preferred-authentications"@))
    } else if keyword == "PubkeyAuthentication"@ {
        NoticeView::Said(message::said("opt-pubkey-authentication"@))
    } else if keyword == "PasswordAuthentication"@ {
        NoticeView::Said(message::said("opt-password-authentication"@))
    } else if keyword == "KbdInteractiveAuthentication"@ {
        NoticeView::Said(message::said("opt-kbd-interactive-authentication"@))
    } else if keyword == "IdentitiesOnly"@ {
        NoticeView::Said(message::said("opt-identities-only"@))
    } else if keyword == "ForwardAgent"@ {
        NoticeView::Said(message::said("opt-forward-agent"@))
    } else if keyword == "PubkeyAcceptedAlgorithms"@ {
        NoticeView::Said(message::said("opt-pubkey-accepted-algorithms"@))
    } else if keyword == "KexAlgorithms"@ {
        NoticeView::Said(message::said("opt-kex-algorithms"@))
    } else if keyword == "Ciphers"@ {
        NoticeView::Said(message::said("opt-ciphers"@))
    } else if keyword == "MACs"@ {
        NoticeView::Said(message::said("opt-macs"@))
    } else if keyword == "HostKeyAlgorithms"@ {
        NoticeView::Said(message::said("opt-host-key-algorithms"@))
    } else if keyword == "StrictHostKeyChecking"@ {
        NoticeView::Said(message::said("opt-strict-host-key-checking"@))
    } else if keyword == "UpdateHostKeys"@ {
        NoticeView::Said(message::said("opt-update-host-keys"@))
    } else if keyword == "CheckHostIP"@ {
        NoticeView::Said(message::said("opt-check-host-ip"@))
    } else if keyword == "LocalForward"@ {
        NoticeView::Said(message::said("opt-local-forward"@))
    } else if keyword == "RemoteForward"@ {
        NoticeView::Said(message::said("opt-remote-forward"@))
    } else if keyword == "DynamicForward"@ {
        NoticeView::Said(message::said("opt-dynamic-forward"@))
    } else if keyword == "ExitOnForwardFailure"@ {
        NoticeView::Said(message::said("opt-exit-on-forward-failure"@))
    } else if keyword == "GatewayPorts"@ {
        NoticeView::Said(message::said("opt-gateway-ports"@))
    } else if keyword == "ForwardX11"@ {
        NoticeView::Said(message::said("opt-forward-x11"@))
    } else if keyword == "ForwardX11Trusted"@ {
        NoticeView::Said(message::said("opt-forward-x11-trusted"@))
    } else if keyword == "SetEnv"@ {
        NoticeView::Said(message::said("opt-set-env"@))
    } else if keyword == "SendEnv"@ {
        NoticeView::Said(message::said("opt-send-env"@))
    } else if keyword == "User"@ {
        NoticeView::Said(message::said("field-user"@))
    } else if keyword == "Port"@ {
        NoticeView::Said(message::said("field-port"@))
    } else if keyword == "ProxyJump"@ {
        NoticeView::Said(message::said("field-jump"@))
    } else if keyword == "ProxyCommand"@ {
        NoticeView::Said(message::said("opt-proxy"@))
    } else if keyword == "IdentityFile"@ {
        NoticeView::Said(message::said("field-keys"@))
    } else {
        NoticeView::Plain(keyword)
    }
}

/// How an option is called.
pub fn option_name(keyword: &str) -> (r: Notice)
    ensures
        r@ == option_words(keyword@),
{
    if text::same(keyword, "ConnectTimeout") {
        Notice::Said(Message::new("opt-connect-timeout"))
    } else if text::same(keyword, "ServerAliveInterval") {
        Notice::Said(Message::new("opt-server-alive-interval"))
    } else if text::same(keyword, "ServerAliveCountMax") {
        Notice::Said(Message::new("opt-server-alive-count-max"))
    } else if text::same(keyword, "TCPKeepAlive") {
        Notice::Said(Message::new("opt-tcp-keep-alive"))
    } else if text::same(keyword, "Compression") {
        Notice::Said(Message::new("opt-compression"))
    } else if text::same(keyword, "AddressFamily") {
        Notice::Said(Message::new("opt-address-family"))
    } else if text::same(keyword, "RequestTTY") {
        Notice::Said(Message::new("opt-request-tty"))
    } else if text::same(keyword, "RemoteCommand") {
        Notice::Said(Message::new("opt-remote-command"))
    } else if text::same(keyword, "LogLevel") {
        Notice::Said(Message::new("opt-log-level"))
    } else if text::same(keyword, "PreferredAuthentications") {
        Notice::Said(Message::new("opt-preferred-authentications"))
    } else if text::same(keyword, "PubkeyAuthentication") {
        Notice::Said(Message::new("opt-pubkey-authentication"))
    } else if text::same(keyword, "PasswordAuthentication") {
        Notice::Said(Message::new("opt-password-authentication"))
    } else if text::same(keyword, "KbdInteractiveAuthentication") {
        Notice::Said(Message::new("opt-kbd-interactive-authentication"))
    } else if text::same(keyword, "IdentitiesOnly") {
        Notice::Said(Message::new("opt-identities-only"))
    } else if text::same(keyword, "ForwardAgent") {
        Notice::Said(Message::new("opt-forward-agent"))
    } else if text::same(keyword, "PubkeyAcceptedAlgorithms") {
        Notice::Said(Message::new("opt-pubkey-accepted-algorithms"))
    } else if text::same(keyword, "KexAlgorithms") {
        Notice::Said(Message::new("opt-kex-algorithms"))
    } else if text::same(keyword, "Ciphers") {
        Notice::Said(Message::new("opt-ciphers"))
    } else if text::same(keyword, "MACs") {
        Notice::Said(Message::new("opt-macs"))
    } else if text::same(keyword, "HostKeyAlgorithms") {
        Notice::Said(Message::new("opt-host-key-algorithms"))
    } else if text::same(keyword, "StrictHostKeyChecking") {
        Notice::Said(Message::new("opt-strict-host-key-checking"))
    } else if text::same(keyword, "UpdateHostKeys") {
        Notice::Said(Message::new("opt-update-host-keys"))
    } else if text::same(keyword, "CheckHostIP") {
        Notice::Said(Message::new("opt-check-host-ip"))
    } else if text::same(keyword, "LocalForward") {
        Notice::Said(Message::new("opt-local-forward"))
    } else if text::same(keyword, "RemoteForward") {
        Notice::Said(Message::new("opt-remote-forward"))
    } else if text::same(keyword, "DynamicForward") {
        Notice::Said(Message::new("opt-dynamic-forward"))
    } else if text::same(keyword, "ExitOnForwardFailure") {
        Notice::Said(Message::new("opt-exit-on-forward-failure"))
    } else if text::same(keyword, "GatewayPorts") {
        Notice::Said(Message::new("opt-gateway-ports"))
    } else if text::same(keyword, "ForwardX11") {
        Notice::Said(Message::new("opt-forward-x11"))
    } else if text::same(keyword, "ForwardX11Trusted") {
        Notice::Said(Message::new("opt-forward-x11-trusted"))
    } else if text::same(keyword, "SetEnv") {
        Notice::Said(Message::new("opt-set-env"))
    } else if text::same(keyword, "SendEnv") {
        Notice::Said(Message::new("opt-send-env"))
    } else if text::same(keyword, "User") {
        Notice::Said(Message::new("field-user"))
    } else if text::same(keyword, "Port") {
        Notice::Said(Message::new("field-port"))
    } else if text::same(keyword, "ProxyJump") {
        Notice::Said(Message::new("field-jump"))
    } else if text::same(keyword, "ProxyCommand") {
        Notice::Said(Message::new("opt-proxy"))
    } else if text::same(keyword, "IdentityFile") {
        Notice::Said(Message::new("field-keys"))
    } else {
        Notice::Plain(text::owned(keyword))
    }
}

/// An example for an option that takes several lines.
pub open spec fn hint_for(keyword: Seq<char>) -> Seq<char> {
    if keyword == "LocalForward"@ {
        "8080 localhost:80"@
    } else if keyword == "RemoteForward"@ {
        "9000 localhost:3000"@
    } else if keyword == "DynamicForward"@ {
        "1080"@
    } else if keyword == "SetEnv"@ {
        "TERM=xterm-256color"@
    } else if keyword == "IdentityFile"@ {
        "~/.ssh/id_ed25519"@
    } else if keyword == "SendEnv"@ {
        "LANG LC_*"@
    } else {
        ""@
    }
}

/// An example for an option that takes several lines.
pub fn lines_hint(keyword: &str) -> (r: &'static str)
    ensures
        r@ == hint_for(keyword@),
{
    if text::same(keyword, "LocalForward") {
        "8080 localhost:80"
    } else if text::same(keyword, "RemoteForward") {
        "9000 localhost:3000"
    } else if text::same(keyword, "DynamicForward") {
        "1080"
    } else if text::same(keyword, "SetEnv") {
        "TERM=xterm-256color"
    } else if text::same(keyword, "IdentityFile") {
        "~/.ssh/id_ed25519"
    } else if text::same(keyword, "SendEnv") {
        "LANG LC_*"
    } else {
        ""
    }
}

/// The texts that are not empty.
pub open spec fn not_empty(parts: Seq<Seq<char>>) -> Seq<Seq<char>> {
    parts.filter(|s: Seq<char>| s.len() > 0)
}

/// What ssh uses, as one list of names.
pub open spec fn used_names(effective: Seq<Seq<char>>) -> Seq<Seq<char>>
    decreases effective.len(),
{
    if effective.len() == 0 {
        Seq::empty()
    } else {
        used_names(effective.drop_last()) + not_empty(text::split_on(effective.last(), ','))
    }
}

/// The field only adjusts what ssh uses, or is empty.
pub open spec fn adjusts(field: Seq<char>) -> bool {
    let t = text::trimmed(field);
    t.len() == 0 || t[0] == '+' || t[0] == '-' || t[0] == '^'
}

/// The explicit list a list field stands for: its own names, or what ssh
/// uses when it is empty or only adjusts the defaults (`+`, `-`, `^`).
pub open spec fn names_in(field: Seq<char>, effective: Seq<Seq<char>>) -> Seq<Seq<char>> {
    if adjusts(field) {
        used_names(effective)
    } else {
        text::all_filled(text::split_on(text::trimmed(field), ','))
    }
}

fn add_names(out: &mut Vec<String>, value: &str)
    ensures
        text::texts(final(out)@) == text::texts(old(out)@) + not_empty(text::split_on(value@, ',')),
{
    let ghost start = text::texts(out@);
    let parts = text::split(&text::chars_of(value), ',');
    let ghost all = text::deep(parts@);
    let ghost f = |s: Seq<char>| s.len() > 0;
    let mut i: usize = 0;
    proof {
        reveal(Seq::filter);
        assert(all.take(0).filter(f) =~= Seq::empty());
        assert(start =~= start + all.take(0).filter(f));
    }
    while i < parts.len()
        invariant
            i <= parts@.len(),
            all == text::deep(parts@),
            f == (|s: Seq<char>| s.len() > 0),
            text::texts(out@) == start + all.take(i as int).filter(f),
        decreases parts@.len() - i,
    {
        proof {
            reveal(Seq::filter);
            assert(all.take(i + 1).drop_last() =~= all.take(i as int));
            assert(all.take(i + 1).last() == parts@[i as int]@);
        }
        if parts[i].len() > 0 {
            let ghost before = out@;
            out.push(text::string_of(&parts[i]));
            proof {
                let x = parts@[i as int]@;
                assert(text::texts(out@) =~= text::texts(before).push(x));
                assert(start + all.take(i as int).filter(f).push(x) =~= (start + all.take(i as int).filter(f)).push(
                    x,
                ));
            }
        }
        i += 1;
    }
    proof {
        assert(all.take(i as int) =~= all);
    }
}

/// The explicit list a list field stands for.
pub fn explicit_list(field: &str, effective: &[String]) -> (r: Vec<String>)
    ensures
        text::texts(r@) == names_in(field@, text::texts(effective@)),
{
    let t = text::trim(&text::chars_of(field));
    if t.len() == 0 || t[0] == '+' || t[0] == '-' || t[0] == '^' {
        let ghost all = text::texts(effective@);
        let mut out: Vec<String> = Vec::new();
        let mut i: usize = 0;
        proof {
            assert(all.take(0) =~= Seq::empty());
            assert(text::texts(out@) =~= Seq::empty());
        }
        while i < effective.len()
            invariant
                i <= effective@.len(),
                all == text::texts(effective@),
                text::texts(out@) == used_names(all.take(i as int)),
            decreases effective@.len() - i,
        {
            proof {
                assert(all.take(i + 1).drop_last() =~= all.take(i as int));
                assert(all.take(i + 1).last() == effective@[i as int]@);
            }
            add_names(&mut out, &effective[i]);
            i += 1;
        }
        proof {
            assert(all.take(i as int) =~= all);
        }
        out
    } else {
        let own = text::string_of(&t);
        text::fill_all(&own, ',')
    }
}

/// Every text but one.
pub open spec fn other_than(name: Seq<char>) -> spec_fn(Seq<char>) -> bool {
    |n: Seq<char>| n != name
}

/// The field's text after a name in its list was switched on or off.
pub open spec fn switched(field: Seq<char>, effective: Seq<Seq<char>>, name: Seq<char>, on: bool) -> Seq<char> {
    let list = names_in(field, effective);
    text::joined_by(
        if on {
            list.push(name)
        } else {
            list.filter(other_than(name))
        },
        ","@,
    )
}

/// The field's text after a name in its list was switched on or off.
pub fn switch(field: &str, effective: &[String], name: &str, on: bool) -> (r: String)
    ensures
        r@ == switched(field@, text::texts(effective@), name@, on),
{
    let list = explicit_list(field, effective);
    if on {
        let ghost before = list@;
        let mut list = list;
        list.push(text::owned(name));
        proof {
            assert(text::texts(list@) =~= text::texts(before).push(name@));
        }
        return text::join_by(&list, ",");
    }
    let ghost all = text::texts(list@);
    let ghost f = other_than(name@);
    let mut kept: Vec<String> = Vec::new();
    let mut i: usize = 0;
    proof {
        reveal(Seq::filter);
        assert(text::texts(kept@) =~= all.take(0).filter(f));
    }
    while i < list.len()
        invariant
            i <= list@.len(),
            all == text::texts(list@),
            f == other_than(name@),
            text::texts(kept@) == all.take(i as int).filter(f),
        decreases list@.len() - i,
    {
        proof {
            reveal(Seq::filter);
            assert(all.take(i + 1).drop_last() =~= all.take(i as int));
            assert(all.take(i + 1).last() == list@[i as int]@);
        }
        if !text::same(&list[i], name) {
            let ghost before = kept@;
            kept.push(list[i].clone());
            proof {
                assert(text::texts(kept@) =~= text::texts(before).push(list@[i as int]@));
            }
        }
        i += 1;
    }
    proof {
        assert(all.take(i as int) =~= all);
    }
    text::join_by(&kept, ",")
}

/// A value for each option: its keyword, and its lines.
pub struct Setting {
    pub keyword: String,
    pub lines: Vec<String>,
}

/// A field: the keyword and the text; repeated options one per line.
pub struct Field {
    pub keyword: String,
    pub text: String,
}

/// The settings of a list.
pub open spec fn settings(v: Seq<Setting>) -> Seq<(Seq<char>, Seq<Seq<char>>)> {
    v.map_values(|s: Setting| (s.keyword@, text::texts(s.lines@)))
}

/// The fields of a list.
pub open spec fn fields(v: Seq<Field>) -> Seq<(Seq<char>, Seq<char>)> {
    v.map_values(|f: Field| (f.keyword@, f.text@))
}

/// The lines set for a keyword, if any.
pub open spec fn lines_for(values: Seq<(Seq<char>, Seq<Seq<char>>)>, keyword: Seq<char>) -> Seq<Seq<char>>
    decreases values.len(),
{
    if values.len() == 0 {
        Seq::empty()
    } else if values.first().0 == keyword {
        values.first().1
    } else {
        lines_for(values.skip(1), keyword)
    }
}

fn find_lines(values: &[Setting], keyword: &str) -> (r: Vec<String>)
    ensures
        text::texts(r@) == lines_for(settings(values@), keyword@),
{
    let ghost all = settings(values@);
    let mut i: usize = 0;
    proof {
        assert(all.skip(0) =~= all);
    }
    while i < values.len()
        invariant
            i <= values@.len(),
            all == settings(values@),
            lines_for(all, keyword@) == lines_for(all.skip(i as int), keyword@),
        decreases values@.len() - i,
    {
        proof {
            assert(all.skip(i as int).first() == (values@[i as int].keyword@, text::texts(values@[i as int].lines@)));
            assert(all.skip(i as int).skip(1) =~= all.skip(i + 1));
        }
        if text::same(&values[i].keyword, keyword) {
            return text::copy_texts(&values[i].lines);
        }
        i += 1;
    }
    let r: Vec<String> = Vec::new();
    proof {
        assert(text::texts(r@) =~= Seq::empty());
    }
    r
}

/// The fields that show values: one for each keyword, its lines put
/// together.
pub open spec fn fields_for(keywords: Seq<Seq<char>>, values: Seq<(Seq<char>, Seq<Seq<char>>)>) -> Seq<
    (Seq<char>, Seq<char>),
> {
    keywords.map_values(|k: Seq<char>| (k, text::joined_by(lines_for(values, k), "\n"@)))
}

/// NativeTerm's proxy as it is written in a `ProxyCommand`.
pub struct WrittenProxy {
    pub kind: ProxyKind,
    pub address: String,
    pub user: Option<String>,
}

/// The options dialog.
pub struct OptionsDialog {
    pub target: OptionsTarget,
    pub proxy: ProxyChoice,
    /// `host:port` for NativeTerm's proxy.
    pub proxy_address: String,
    /// The login's user name (empty: none).
    pub proxy_user: String,
    pub label: String,
    pub category: Category,
    pub fields: Vec<Field>,
    /// What ssh uses now: lowercase keywords, each with a value.
    pub effective: Vec<(String, String)>,
    pub error: Option<Message>,
}

/// The proxy that a `ProxyCommand` means; `parsed` is NativeTerm's, where it
/// is one of those.
pub open spec fn proxy_choice(written: Seq<char>, parsed: Option<WrittenProxy>) -> ProxyChoice {
    if text::trimmed(written).len() == 0 {
        ProxyChoice::Default
    } else {
        match parsed {
            Some(p) => ProxyChoice::Kind(p.kind),
            None => ProxyChoice::Other,
        }
    }
}

/// The first line for a keyword, empty where there is none.
pub open spec fn first_line(values: Seq<(Seq<char>, Seq<Seq<char>>)>, keyword: Seq<char>) -> Seq<char> {
    let lines = lines_for(values, keyword);
    if lines.len() > 0 {
        lines[0]
    } else {
        Seq::empty()
    }
}

/// A field's lines.
pub open spec fn read_back(f: (Seq<char>, Seq<char>), proxy: Option<Seq<Seq<char>>>) -> (Seq<char>, Seq<Seq<char>>) {
    if f.0 == "ProxyCommand"@ && proxy is Some {
        (f.0, proxy->0)
    } else {
        (f.0, text::lines_in(f.1))
    }
}

/// What the fields come to. `proxy` are the lines for `ProxyCommand`, where
/// they are not the field's own.
pub open spec fn values_of(fields: Seq<(Seq<char>, Seq<char>)>, proxy: Option<Seq<Seq<char>>>) -> Seq<
    (Seq<char>, Seq<Seq<char>>),
> {
    fields.map_values(|f: (Seq<char>, Seq<char>)| read_back(f, proxy))
}

/// The lines for `ProxyCommand`: none for the default, NativeTerm's command
/// for one of its kinds (nothing where it is not complete), the field's own
/// for another.
pub open spec fn proxy_lines(choice: ProxyChoice, command: Option<Seq<char>>) -> Option<Seq<Seq<char>>> {
    match choice {
        ProxyChoice::Default => Some(Seq::empty()),
        ProxyChoice::Kind(_) => Some(
            match command {
                Some(c) => seq![c],
                None => Seq::empty(),
            },
        ),
        ProxyChoice::Other => None,
    }
}

/// What ssh uses for a keyword, one value after the other.
pub open spec fn used_for(effective: Seq<(String, String)>, keyword: Seq<char>) -> Seq<Seq<char>>
    decreases effective.len(),
{
    if effective.len() == 0 {
        Seq::empty()
    } else {
        let rest = used_for(effective.drop_last(), keyword);
        if effective.last().0@ == keyword.map_values(|c: char| text::ascii_lower(c)) {
            rest.push(effective.last().1@)
        } else {
            rest
        }
    }
}

impl OptionsDialog {
    /// The options of a target. `keywords` are those that have a field,
    /// `parsed` is what `ProxyCommand` says where it is NativeTerm's.
    pub fn new(
        target: OptionsTarget,
        label: &str,
        keywords: &[String],
        values: &[Setting],
        parsed: Option<WrittenProxy>,
        effective: Vec<(String, String)>,
    ) -> (r: OptionsDialog)
        ensures
            r.target == target,
            r.label@ == label@,
            r.category is Connection,
            r.error is None,
            r.effective == effective,
            fields(r.fields@) == fields_for(text::texts(keywords@), settings(values@)),
            r.proxy == proxy_choice(first_line(settings(values@), "ProxyCommand"@), parsed),
            ({
                let shown = r.proxy is Kind;
                &&& r.proxy_address@ == (if shown {
                    parsed->0.address@
                } else {
                    Seq::empty()
                })
                &&& r.proxy_user@ == (if shown && parsed->0.user is Some {
                    parsed->0.user->0@
                } else {
                    Seq::empty()
                })
            }),
    {
        let ghost all = fields_for(text::texts(keywords@), settings(values@));
        let mut list: Vec<Field> = Vec::new();
        let mut i: usize = 0;
        proof {
            assert(fields(list@) =~= all.take(0));
        }
        while i < keywords.len()
            invariant
                i <= keywords@.len(),
                all == fields_for(text::texts(keywords@), settings(values@)),
                fields(list@) == all.take(i as int),
            decreases keywords@.len() - i,
        {
            let lines = find_lines(values, &keywords[i]);
            let f = Field { keyword: keywords[i].clone(), text: text::join_by(&lines, "\n") };
            let ghost before = list@;
            list.push(f);
            proof {
                assert(text::texts(keywords@)[i as int] == keywords@[i as int]@);
                assert(all[i as int] == (f.keyword@, f.text@));
                assert(fields(list@) =~= fields(before).push((f.keyword@, f.text@)));
                assert(all.take(i + 1) =~= all.take(i as int).push((f.keyword@, f.text@)));
            }
            i += 1;
        }
        proof {
            assert(all.take(i as int) =~= all);
        }
        let commands = find_lines(values, "ProxyCommand");
        let blank = if commands.len() > 0 {
            proof {
                assert(text::texts(commands@)[0] == commands@[0]@);
            }
            text::is_blank(&commands[0])
        } else {
            proof {
                assert(text::texts(commands@).len() == 0);
                assert(text::trimmed(Seq::<char>::empty()) =~= Seq::<char>::empty());
            }
            true
        };
        let mut proxy = ProxyChoice::Default;
        let mut proxy_address = String::new();
        let mut proxy_user = String::new();
        proof {
            assert(proxy_address@ =~= Seq::empty());
            assert(proxy_user@ =~= Seq::empty());
        }
        if !blank {
            match parsed {
                Some(p) => {
                    proxy = ProxyChoice::Kind(p.kind);
                    proxy_address = p.address;
                    if let Some(user) = p.user {
                        proxy_user = user;
                    }
                },
                None => {
                    proxy = ProxyChoice::Other;
                },
            }
        }
        OptionsDialog {
            target,
            proxy,
            proxy_address,
            proxy_user,
            label: text::owned(label),
            category: Category::Connection,
            fields: list,
            effective,
            error: None,
        }
    }

    /// What the fields come to. `command` is the `ProxyCommand` of
    /// NativeTerm's proxy as typed, where type, address and user make one.
    pub fn values(&self, command: Option<String>) -> (r: Vec<Setting>)
        ensures
            settings(r@) == values_of(fields(self.fields@), proxy_lines(self.proxy, text::optional(command))),
    {
        let ghost proxy = proxy_lines(self.proxy, text::optional(command));
        let ghost all = values_of(fields(self.fields@), proxy);
        let mut own: Vec<String> = Vec::new();
        if let ProxyChoice::Kind(_) = self.proxy {
            if let Some(c) = &command {
                own.push(c.clone());
            }
        }
        proof {
            if !(self.proxy is Other) {
                assert(text::texts(own@) =~= proxy->0);
            }
        }
        let other = self.proxy == ProxyChoice::Other;
        let mut r: Vec<Setting> = Vec::new();
        let mut i: usize = 0;
        proof {
            assert(settings(r@) =~= all.take(0));
        }
        while i < self.fields.len()
            invariant
                i <= self.fields@.len(),
                proxy == proxy_lines(self.proxy, text::optional(command)),
                all == values_of(fields(self.fields@), proxy),
                other == (self.proxy is Other),
                !other ==> text::texts(own@) == proxy->0,
                settings(r@) == all.take(i as int),
            decreases self.fields@.len() - i,
        {
            let f = &self.fields[i];
            let lines = if !other && text::same(&f.keyword, "ProxyCommand") {
                text::copy_texts(&own)
            } else {
                text::lines(&f.text)
            };
            let s = Setting { keyword: f.keyword.clone(), lines };
            let ghost before = r@;
            r.push(s);
            proof {
                assert(fields(self.fields@)[i as int] == (f.keyword@, f.text@));
                assert(all[i as int] == (s.keyword@, text::texts(s.lines@)));
                assert(settings(r@) =~= settings(before).push(all[i as int]));
                assert(all.take(i + 1) =~= all.take(i as int).push(all[i as int]));
            }
            i += 1;
        }
        proof {
            assert(all.take(i as int) =~= all);
        }
        r
    }

    /// What is wrong with the proxy as typed, if one of NativeTerm's is
    /// chosen.
    pub fn proxy_error(&self, error: Option<String>) -> (r: Option<Message>)
        ensures
            (match r {
                Some(m) => Some(m@),
                None => None,
            }) == (match error {
                Some(e) => if self.proxy is Kind {
                    Some(message::said("proxy-invalid"@).text("error"@, e@))
                } else {
                    None
                },
                None => None,
            }),
    {
        match error {
            Some(e) => {
                if let ProxyChoice::Kind(_) = self.proxy {
                    Some(Message::new("proxy-invalid").text("error", &e))
                } else {
                    None
                }
            },
            None => None,
        }
    }

    /// What ssh uses for a keyword, one value after the other.
    pub fn effective_of(&self, keyword: &str) -> (r: Vec<String>)
        ensures
            text::texts(r@) == used_for(self.effective@, keyword@),
    {
        let chars = text::chars_of(keyword);
        let ghost lower = keyword@.map_values(|c: char| text::ascii_lower(c));
        let mut low: Vec<char> = Vec::new();
        let mut k: usize = 0;
        while k < chars.len()
            invariant
                k <= chars@.len(),
                chars@ == keyword@,
                low@.len() == k,
                forall|j: int| 0 <= j < k ==> #[trigger] low@[j] == text::ascii_lower(chars@[j]),
            decreases chars@.len() - k,
        {
            low.push(text::lower_ascii(chars[k]));
            k += 1;
        }
        proof {
            assert(low@ =~= lower);
        }
        let mut r: Vec<String> = Vec::new();
        let mut i: usize = 0;
        proof {
            assert(text::texts(r@) =~= used_for(self.effective@.take(0), keyword@));
        }
        while i < self.effective.len()
            invariant
                i <= self.effective@.len(),
                lower == keyword@.map_values(|c: char| text::ascii_lower(c)),
                low@ == lower,
                text::texts(r@) == used_for(self.effective@.take(i as int), keyword@),
            decreases self.effective@.len() - i,
        {
            proof {
                assert(self.effective@.take(i + 1).drop_last() =~= self.effective@.take(i as int));
                assert(self.effective@.take(i + 1).last() == self.effective@[i as int]);
            }
            let there = text::chars_of(&self.effective[i].0);
            if text::same_chars(&there, &low) {
                let ghost before = r@;
                r.push(self.effective[i].1.clone());
                proof {
                    assert(text::texts(r@) =~= text::texts(before).push(self.effective@[i as int].1@));
                }
            }
            i += 1;
        }
        proof {
            assert(self.effective@.take(i as int) =~= self.effective@);
        }
        r
    }

    /// The text of a field, empty where there is none.
    pub open spec fn typed(self, keyword: Seq<char>) -> Seq<char> {
        typed_in(fields(self.fields@), keyword)
    }

    fn field_text(&self, keyword: &str) -> (r: String)
        ensures
            r@ == self.typed(keyword@),
    {
        let ghost all = fields(self.fields@);
        let mut i: usize = 0;
        proof {
            assert(all.skip(0) =~= all);
        }
        while i < self.fields.len()
            invariant
                i <= self.fields@.len(),
                all == fields(self.fields@),
                typed_in(all, keyword@) == typed_in(all.skip(i as int), keyword@),
            decreases self.fields@.len() - i,
        {
            proof {
                assert(all.skip(i as int).first() == (self.fields@[i as int].keyword@, self.fields@[i as int].text@));
                assert(all.skip(i as int).skip(1) =~= all.skip(i + 1));
            }
            if text::same(&self.fields[i].keyword, keyword) {
                return self.fields[i].text.clone();
            }
            i += 1;
        }
        let r = String::new();
        proof {
            assert(r@ =~= Seq::empty());
        }
        r
    }

    /// The jump host that stands beside a proxy of NativeTerm's: ssh uses
    /// whichever of the two it reads first.
    pub open spec fn jump_beside_proxy(self) -> Option<Seq<char>> {
        let own = text::trimmed(self.typed("ProxyJump"@));
        let jump = if own.len() == 0 {
            text::joined_by(used_for(self.effective@, "ProxyJump"@), ","@)
        } else {
            own
        };
        if self.proxy is Kind && jump.len() > 0 && !text::same_but_case(jump, "none"@) {
            Some(jump)
        } else {
            None
        }
    }

    /// The warning on a jump host beside a proxy.
    pub fn jump_warning(&self) -> (r: Option<Message>)
        ensures
            (match r {
                Some(m) => Some(m@),
                None => None,
            }) == (match self.jump_beside_proxy() {
                Some(j) => Some(message::said("proxy-and-jump"@).text("jump"@, j)),
                None => None,
            }),
    {
        let typed = self.field_text("ProxyJump");
        let jump = match text::fill(&typed) {
            Some(own) => own,
            None => {
                let used = self.effective_of("ProxyJump");
                text::join_by(&used, ",")
            },
        };
        let kind = match self.proxy {
            ProxyChoice::Kind(_) => true,
            _ => false,
        };
        let none = text::chars_of("none");
        if kind && !jump.as_str().is_empty() && !text::same_ignoring_case(&text::chars_of(&jump), &none) {
            Some(Message::new("proxy-and-jump").text("jump", &jump))
        } else {
            None
        }
    }

    /// The title and the note.
    pub fn titles(&self) -> (r: (Message, Message))
        ensures
            (r.0@, r.1@) == (match self.target {
                OptionsTarget::Host(alias) => (
                    message::said("options-title"@).text("label"@, self.label@),
                    message::said("options-note"@).text("alias"@, alias@),
                ),
                OptionsTarget::Folder(_) => (
                    message::said("options-folder-title"@).text("label"@, self.label@),
                    message::said("options-folder-note"@),
                ),
            }),
    {
        match &self.target {
            OptionsTarget::Host(alias) => (
                Message::new("options-title").text("label", &self.label),
                Message::new("options-note").text("alias", alias),
            ),
            OptionsTarget::Folder(_) => (
                Message::new("options-folder-title").text("label", &self.label),
                Message::new("options-folder-note"),
            ),
        }
    }
}

/// The text of the first field with this keyword, empty where there is none.
pub open spec fn typed_in(fields: Seq<(Seq<char>, Seq<char>)>, keyword: Seq<char>) -> Seq<char>
    decreases fields.len(),
{
    if fields.len() == 0 {
        Seq::empty()
    } else if fields.first().0 == keyword {
        fields.first().1
    } else {
        typed_in(fields.skip(1), keyword)
    }
}

/// Values that can be shown and read back: a line each, the last not empty.
pub open spec fn is_readable(lines: Seq<Seq<char>>) -> bool {
    &&& forall|i: int| 0 <= i < lines.len() ==> text::is_line(#[trigger] lines[i])
    &&& lines.len() > 0 ==> lines.last().len() > 0
}

/// Opening the options and saving them again changes nothing: every option
/// but the proxy keeps its lines, and so does another program's proxy.
pub proof fn law_values_round_trip(
    keywords: Seq<Seq<char>>,
    values: Seq<(Seq<char>, Seq<Seq<char>>)>,
    proxy: Option<Seq<Seq<char>>>,
    i: int,
)
    requires
        0 <= i < keywords.len(),
        is_readable(lines_for(values, keywords[i])),
        keywords[i] != "ProxyCommand"@ || proxy is None,
    ensures
        values_of(fields_for(keywords, values), proxy)[i] == (keywords[i], lines_for(values, keywords[i])),
{
    reveal_strlit("\n");
    assert("\n"@ =~= seq!['\n']);
    text::law_lines_read_back(lines_for(values, keywords[i]));
}

/// The proxy login's password, as last read.
pub struct ProxySecret {
    /// The entry it was read for (it follows type, address and user).
    pub entry: Option<String>,
    pub saved: bool,
    pub refused: bool,
    pub typed: String,
    pub message: Option<Notice>,
}

impl ProxySecret {
    /// Whether the state is to be read again: the entry changed.
    pub fn outdated(&self, entry: &Option<String>) -> (r: bool)
        ensures
            r == (text::optional(self.entry) != text::optional(*entry)),
    {
        match (&self.entry, entry) {
            (Some(a), Some(b)) => !text::same(a, b),
            (None, None) => false,
            _ => true,
        }
    }

    /// The state was read for `entry`: the comment kept with the password,
    /// if there is one; `mark` is that of a refused one.
    pub fn follow(&mut self, entry: Option<String>, comment: Option<String>, mark: &str)
        ensures
            text::optional(old(self).entry) == text::optional(entry) ==> *final(self) == *old(self),
            text::optional(old(self).entry) != text::optional(entry) ==> {
                &&& final(self).entry == entry
                &&& final(self).saved == (comment is Some)
                &&& final(self).refused == (comment matches Some(c) && c@ == mark@)
                &&& final(self).message is None
                &&& final(self).typed == old(self).typed
            },
    {
        if !self.outdated(&entry) {
            return;
        }
        self.saved = comment.is_some();
        self.refused = match &comment {
            Some(c) => text::same(c, mark),
            None => false,
        };
        self.entry = entry;
        self.message = None;
    }

    /// What is said of the password.
    pub fn status(&self) -> (r: Message)
        ensures
            r@ == message::said(
                if self.saved && self.refused {
                    "proxy-password-refused"@
                } else if self.saved {
                    "proxy-password-saved"@
                } else {
                    "proxy-password-none"@
                },
            ),
    {
        if self.saved && self.refused {
            Message::new("proxy-password-refused")
        } else if self.saved {
            Message::new("proxy-password-saved")
        } else {
            Message::new("proxy-password-none")
        }
    }

    /// The password was stored (or removed, where `there` is false), or was
    /// not and why.
    pub fn changed(&mut self, there: bool, error: Option<String>)
        ensures
            final(self).entry == old(self).entry,
            final(self).typed == old(self).typed,
            match error {
                None => final(self).saved == there && !final(self).refused && message::noticed(final(self).message)
                    == Some(
                    NoticeView::Said(
                        message::said(
                            if there {
                                "password-stored"@
                            } else {
                                "password-removed"@
                            },
                        ),
                    ),
                ),
                Some(why) => final(self).saved == old(self).saved && final(self).refused == old(self).refused
                    && message::noticed(final(self).message) == Some(NoticeView::Plain(why@)),
            },
    {
        match error {
            None => {
                self.saved = there;
                self.refused = false;
                self.message = Some(
                    Notice::Said(
                        if there {
                            Message::new("password-stored")
                        } else {
                            Message::new("password-removed")
                        },
                    ),
                );
            },
            Some(why) => {
                self.message = Some(Notice::Plain(why));
            },
        }
    }
}

/// A list that is adjusted starts from the names in use, any other list is
/// the names typed; what is used is split at commas, empty names left out.
pub proof fn law_names_of_a_list(field: Seq<char>, effective: Seq<Seq<char>>, line: Seq<char>)
    ensures
        used_names(Seq::empty()) == Seq::<Seq<char>>::empty(),
        used_names(effective.push(line)) == used_names(effective) + text::split_on(line, ',').filter(
            |s: Seq<char>| s.len() > 0,
        ),
        ({
            let t = text::trimmed(field);
            let add = t.len() == 0 || t[0] == '+' || t[0] == '-' || t[0] == '^';
            &&& add ==> names_in(field, effective) == used_names(effective)
            &&& !add ==> names_in(field, effective) == text::all_filled(text::split_on(t, ','))
        }),
{
    assert(effective.push(line).drop_last() =~= effective);
    assert((|s: Seq<char>| s.len() > 0) =~= (|s: Seq<char>| s.len() > 0));
}

/// A name switched on is put last, one switched off is left out wherever it
/// stands; every other name keeps its place.
pub proof fn law_switching_names(field: Seq<char>, effective: Seq<Seq<char>>, name: Seq<char>)
    ensures
        switched(field, effective, name, true) == text::joined_by(names_in(field, effective).push(name), ","@),
        switched(field, effective, name, false) == text::joined_by(
            names_in(field, effective).filter(|n: Seq<char>| n != name),
            ","@,
        ),
{
    assert(other_than(name) =~= (|n: Seq<char>| n != name));
}

/// What is written under a keyword, what is typed into its field and what is
/// in use for it: the first entry with that keyword counts, and of what is in
/// use every one, whatever the keyword's case.
pub proof fn law_what_a_keyword_has(
    values: Seq<(Seq<char>, Seq<Seq<char>>)>,
    v: (Seq<char>, Seq<Seq<char>>),
    typed: Seq<(Seq<char>, Seq<char>)>,
    f: (Seq<char>, Seq<char>),
    effective: Seq<(String, String)>,
    e: (String, String),
    keyword: Seq<char>,
)
    ensures
        lines_for(Seq::empty(), keyword).len() == 0,
        v.0 == keyword ==> lines_for(seq![v] + values, keyword) == v.1,
        v.0 != keyword ==> lines_for(seq![v] + values, keyword) == lines_for(values, keyword),
        typed_in(Seq::empty(), keyword).len() == 0,
        f.0 == keyword ==> typed_in(seq![f] + typed, keyword) == f.1,
        f.0 != keyword ==> typed_in(seq![f] + typed, keyword) == typed_in(typed, keyword),
        used_for(Seq::empty(), keyword).len() == 0,
        e.0@ == keyword.map_values(|c: char| text::ascii_lower(c)) ==> used_for(effective.push(e), keyword) == used_for(
            effective,
            keyword,
        ).push(e.1@),
        e.0@ != keyword.map_values(|c: char| text::ascii_lower(c)) ==> used_for(effective.push(e), keyword) == used_for(
            effective,
            keyword,
        ),
        first_line(values, keyword).len() > 0 ==> lines_for(values, keyword).len() > 0 && first_line(values, keyword)
            == lines_for(values, keyword)[0],
        lines_for(values, keyword).len() > 0 ==> first_line(values, keyword) == lines_for(values, keyword)[0],
        lines_for(values, keyword).len() == 0 ==> first_line(values, keyword).len() == 0,
{
    assert((seq![v] + values).skip(1) =~= values);
    assert((seq![v] + values).first() == v);
    assert((seq![f] + typed).skip(1) =~= typed);
    assert((seq![f] + typed).first() == f);
    assert(effective.push(e).drop_last() =~= effective);
    assert((|c: char| text::ascii_lower(c)) =~= (|c: char| text::ascii_lower(c)));
}

/// Each keyword has a field, in order, with its lines; the fields are read
/// back line by line, the proxy's command from the proxy that is chosen.
pub proof fn law_fields_of_a_page(
    keywords: Seq<Seq<char>>,
    values: Seq<(Seq<char>, Seq<Seq<char>>)>,
    shown: Seq<(Seq<char>, Seq<char>)>,
    proxy: Option<Seq<Seq<char>>>,
    i: int,
)
    ensures
        fields_for(keywords, values).len() == keywords.len(),
        0 <= i < keywords.len() ==> fields_for(keywords, values)[i].0 == keywords[i] && fields_for(keywords, values)[i].1
            == text::joined_by(lines_for(values, keywords[i]), "\n"@),
        values_of(shown, proxy).len() == shown.len(),
        0 <= i < shown.len() ==> values_of(shown, proxy)[i].0 == shown[i].0,
        0 <= i < shown.len() && (shown[i].0 != "ProxyCommand"@ || proxy is None) ==> values_of(shown, proxy)[i].1
            == text::lines_in(shown[i].1),
        0 <= i < shown.len() && shown[i].0 == "ProxyCommand"@ ==> (proxy matches Some(p) ==> values_of(shown, proxy)[i].1
            == p),
{
}

/// What proxy is chosen, and what is written for it: nothing for none, the
/// command for a kind, and what stood there for any other.
pub proof fn law_proxies(written: Seq<char>, kind: ProxyKind, p: WrittenProxy, command: Seq<char>)
    ensures
        text::trimmed(written).len() == 0 ==> proxy_choice(written, Some(p)) is Default && proxy_choice(written, None)
            is Default,
        text::trimmed(written).len() > 0 ==> proxy_choice(written, Some(p)) == ProxyChoice::Kind(p.kind) && proxy_choice(
            written,
            None,
        ) is Other,
        proxy_lines(ProxyChoice::Default, Some(command)) == Some(Seq::<Seq<char>>::empty()),
        proxy_lines(ProxyChoice::Default, None) == Some(Seq::<Seq<char>>::empty()),
        proxy_lines(ProxyChoice::Kind(kind), Some(command)) == Some(seq![command]),
        proxy_lines(ProxyChoice::Kind(kind), None) == Some(Seq::<Seq<char>>::empty()),
        proxy_lines(ProxyChoice::Other, Some(command)) is None && proxy_lines(ProxyChoice::Other, None) is None,
{
}

/// A jump host stands beside a proxy only where a kind of proxy is chosen:
/// the one typed, or where none is, those in use; "none" is no jump host.
pub proof fn law_a_jump_host_beside_a_proxy(d: OptionsDialog)
    ensures
        ({
            let own = text::trimmed(d.typed("ProxyJump"@));
            let used = text::joined_by(used_for(d.effective@, "ProxyJump"@), ","@);
            &&& !(d.proxy is Kind) ==> d.jump_beside_proxy() is None
            &&& d.proxy is Kind && own.len() > 0 && !text::same_but_case(own, "none"@) ==> d.jump_beside_proxy() == Some(own)
            &&& d.proxy is Kind && own.len() > 0 && text::same_but_case(own, "none"@) ==> d.jump_beside_proxy() is None
            &&& d.proxy is Kind && own.len() == 0 && used.len() > 0 && !text::same_but_case(used, "none"@)
                ==> d.jump_beside_proxy() == Some(used)
            &&& own.len() == 0 && (used.len() == 0 || text::same_but_case(used, "none"@)) ==> d.jump_beside_proxy() is None
            &&& d.typed("ProxyJump"@) == typed_in(fields(d.fields@), "ProxyJump"@)
        }),
{
}

} // verus!
