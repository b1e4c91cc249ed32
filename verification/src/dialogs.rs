//! Windows for editing sessions: what each decides. The window draws them,
//! performs what they ask for and shows errors back in them.

use vstd::prelude::*;

use crate::message;
use crate::message::Message;
use crate::message::MessageView;
use crate::message::Notice;
use crate::message::NoticeView;
use crate::text;

verus! {

/// What a dialog came to.
#[derive(Clone, Debug, PartialEq, Eq)]
pub enum Outcome<T> {
    Open,
    Cancel,
    Submit(T),
}

/// What a host is made from.
#[derive(Clone, Debug, PartialEq, Eq)]
pub struct HostDraft {
    pub label: String,
    pub hostname: String,
    pub user: Option<String>,
    pub port: Option<u16>,
    pub proxy_jump: Option<String>,
    pub identity_files: Vec<String>,
    pub note: Option<String>,
    pub on_login: Option<String>,
    pub persistent: Option<String>,
    pub tab_color: Option<String>,
    pub color_scheme: Option<String>,
    pub credential: Option<String>,
}

/// What a host is made from.
pub struct DraftView {
    pub label: Seq<char>,
    pub hostname: Seq<char>,
    pub user: Option<Seq<char>>,
    pub port: Option<u16>,
    pub proxy_jump: Option<Seq<char>>,
    pub identity_files: Seq<Seq<char>>,
    pub note: Option<Seq<char>>,
    pub on_login: Option<Seq<char>>,
    pub persistent: Option<Seq<char>>,
    pub tab_color: Option<Seq<char>>,
    pub color_scheme: Option<Seq<char>>,
    pub credential: Option<Seq<char>>,
}

impl View for HostDraft {
    type V = DraftView;

    open spec fn view(&self) -> DraftView {
        DraftView {
            label: self.label@,
            hostname: self.hostname@,
            user: text::optional(self.user),
            port: self.port,
            proxy_jump: text::optional(self.proxy_jump),
            identity_files: text::texts(self.identity_files@),
            note: text::optional(self.note),
            on_login: text::optional(self.on_login),
            persistent: text::optional(self.persistent),
            tab_color: text::optional(self.tab_color),
            color_scheme: text::optional(self.color_scheme),
            credential: text::optional(self.credential),
        }
    }
}

/// The fields of the host dialog.
#[derive(Clone, Debug, PartialEq, Eq)]
pub struct HostDialog {
    pub title: Message,
    /// The alias when editing.
    pub alias: Option<String>,
    /// Target file for a new host.
    pub file: Option<String>,
    pub label: String,
    pub hostname: String,
    pub user: String,
    pub port: String,
    pub proxy_jump: String,
    /// One per line.
    pub identity_files: String,
    pub note: String,
    pub on_login: String,
    /// The host's own setting; `None` follows the folder.
    pub persistent: Option<String>,
    /// The folder's default, shown with "as the folder".
    pub folder_persistent: Option<String>,
    /// The host's own tab color / color scheme (`None`: as the folder).
    pub tab_color: Option<String>,
    pub color_scheme: Option<String>,
    /// The folder's, shown with "as the folder".
    pub folder_color: Option<String>,
    pub folder_scheme: Option<String>,
    /// The host's own credential set (`None`: as the folder; `none`: no set).
    pub credential: Option<String>,
    /// A new set's name being typed.
    pub new_set: Option<String>,
    /// The folder's set, and the sets there are, for the choice.
    pub folder_credential: Option<String>,
    pub sets: Vec<String>,
    pub error: Option<Message>,
}

/// What is typed into the fields that make a host.
pub struct FieldsView {
    pub label: Seq<char>,
    pub hostname: Seq<char>,
    pub user: Seq<char>,
    pub port: Seq<char>,
    pub proxy_jump: Seq<char>,
    pub identity_files: Seq<char>,
    pub note: Seq<char>,
    pub on_login: Seq<char>,
    pub persistent: Option<Seq<char>>,
    pub tab_color: Option<Seq<char>>,
    pub color_scheme: Option<Seq<char>>,
    pub credential: Option<Seq<char>>,
    pub new_set: Option<Seq<char>>,
}

impl HostDialog {
    /// What is typed into the fields that make a host.
    pub open spec fn fields(self) -> FieldsView {
        FieldsView {
            label: self.label@,
            hostname: self.hostname@,
            user: self.user@,
            port: self.port@,
            proxy_jump: self.proxy_jump@,
            identity_files: self.identity_files@,
            note: self.note@,
            on_login: self.on_login@,
            persistent: text::optional(self.persistent),
            tab_color: text::optional(self.tab_color),
            color_scheme: text::optional(self.color_scheme),
            credential: text::optional(self.credential),
            new_set: text::optional(self.new_set),
        }
    }
}

/// An optional text, empty where there is none.
pub open spec fn or_empty(s: Option<Seq<char>>) -> Seq<char> {
    match s {
        Some(t) => t,
        None => Seq::empty(),
    }
}

/// An optional text, empty where there is none.
pub fn text_or_empty(s: &Option<String>) -> (r: String)
    ensures
        r@ == or_empty(text::optional(*s)),
{
    match s {
        Some(t) => t.clone(),
        None => {
            let none = String::new();
            proof {
                assert(none@ =~= Seq::empty());
            }
            none
        },
    }
}

/// How an optional number is shown.
pub open spec fn number_text(n: Option<u16>) -> Seq<char> {
    match n {
        Some(p) => text::decimal(p as nat),
        None => Seq::empty(),
    }
}

/// The fields that show a draft.
pub open spec fn fields_for(d: DraftView) -> FieldsView {
    FieldsView {
        label: d.label,
        hostname: d.hostname,
        user: or_empty(d.user),
        port: number_text(d.port),
        proxy_jump: or_empty(d.proxy_jump),
        identity_files: text::joined_by(d.identity_files, "\n"@),
        note: or_empty(d.note),
        on_login: or_empty(d.on_login),
        persistent: d.persistent,
        tab_color: d.tab_color,
        color_scheme: d.color_scheme,
        credential: d.credential,
        new_set: None,
    }
}

/// The port that is typed: none for an empty field, `Err` where it is no
/// port.
pub open spec fn port_in(s: Seq<char>) -> Result<Option<u16>, ()> {
    let t = text::trimmed(s);
    if t.len() == 0 {
        Ok(None)
    } else {
        match text::number_of(t) {
            Some(n) => if n <= 65535 {
                Ok(Some(n as u16))
            } else {
                Err(())
            },
            None => Err(()),
        }
    }
}

/// The port that is typed.
pub fn read_port(s: &str) -> (r: Result<Option<u16>, Message>)
    ensures
        match r {
            Ok(p) => port_in(s@) == Ok::<Option<u16>, ()>(p),
            Err(m) => port_in(s@) is Err && m@ == bad_port(s@),
        },
{
    let t = text::trim(&text::chars_of(s));
    if t.len() == 0 {
        return Ok(None);
    }
    match text::parse_number(&t, 65535) {
        Some(n) => Ok(Some(n as u16)),
        None => {
            let shown = text::string_of(&t);
            Err(Message::new("host-bad-port").text("port", &shown))
        },
    }
}

/// What is said of a port that is none.
pub open spec fn bad_port(s: Seq<char>) -> MessageView {
    message::said("host-bad-port"@).text("port"@, text::trimmed(s))
}

/// What the fields come to. `valid` is whether the new set's name, without
/// the white space around it, can be one.
pub open spec fn draft_of(f: FieldsView, valid: bool) -> Result<DraftView, MessageView> {
    match port_in(f.port) {
        Err(_) => Err(bad_port(f.port)),
        Ok(port) => if f.new_set is Some && !valid {
            Err(message::said("cred-sets-bad-name"@))
        } else {
            Ok(
                DraftView {
                    label: if text::trimmed(f.label).len() == 0 {
                        text::trimmed(f.hostname)
                    } else {
                        text::trimmed(f.label)
                    },
                    hostname: text::trimmed(f.hostname),
                    user: text::filled(f.user),
                    port,
                    proxy_jump: text::filled(f.proxy_jump),
                    identity_files: text::all_filled(text::split_on(f.identity_files, '\n')),
                    note: text::filled(f.note),
                    on_login: text::filled(f.on_login),
                    persistent: f.persistent,
                    tab_color: if f.tab_color == Some("#"@) {
                        None
                    } else {
                        f.tab_color
                    },
                    color_scheme: match f.color_scheme {
                        Some(s) => if text::trimmed(s).len() == 0 {
                            None
                        } else {
                            Some(s)
                        },
                        None => None,
                    },
                    credential: match f.new_set {
                        Some(name) => Some(text::trimmed(name)),
                        None => f.credential,
                    },
                },
            )
        },
    }
}

/// What a result says.
pub open spec fn drafted(r: Result<HostDraft, Message>) -> Result<DraftView, MessageView> {
    match r {
        Ok(d) => Ok(d@),
        Err(m) => Err(m@),
    }
}

/// A field that holds nothing, or a text that trimming leaves alone.
pub open spec fn is_tidy(s: Option<Seq<char>>) -> bool {
    match s {
        Some(t) => text::is_clean(t),
        None => true,
    }
}

/// A draft as saving makes it: no white space around its texts, no empty
/// ones.
pub open spec fn is_tidy_draft(d: DraftView) -> bool {
    &&& text::is_clean(d.label)
    &&& text::trimmed(d.hostname) == d.hostname
    &&& is_tidy(d.user) && is_tidy(d.proxy_jump) && is_tidy(d.note) && is_tidy(d.on_login)
    &&& forall|i: int|
        0 <= i < d.identity_files.len() ==> text::is_clean(#[trigger] d.identity_files[i])
            && !d.identity_files[i].contains('\n')
    &&& d.tab_color != Some("#"@)
    &&& d.color_scheme matches Some(s) ==> text::trimmed(s).len() > 0
}

proof fn lemma_tidy(s: Option<Seq<char>>)
    requires
        is_tidy(s),
    ensures
        text::filled(or_empty(s)) == s,
{
}

/// Opening a host for editing and saving it again changes nothing.
pub proof fn law_saving_unchanged_keeps_the_host(d: DraftView, valid: bool)
    requires
        is_tidy_draft(d),
    ensures
        draft_of(fields_for(d), valid) == Ok::<DraftView, MessageView>(d),
{
    let f = fields_for(d);
    lemma_tidy(d.user);
    lemma_tidy(d.proxy_jump);
    lemma_tidy(d.note);
    lemma_tidy(d.on_login);
    reveal_strlit("\n");
    assert("\n"@ =~= seq!['\n']);
    match d.port {
        Some(p) => {
            text::lemma_decimal(p as nat);
            text::lemma_trimmed_plain(text::decimal(p as nat));
            assert(text::number_of(text::decimal(p as nat)) == Some(p as int));
        },
        None => {
            assert(text::trimmed(Seq::<char>::empty()) =~= Seq::<char>::empty());
        },
    }
    if d.identity_files.len() == 0 {
        let none = Seq::<char>::empty();
        assert(text::split_on(none, '\n') =~= seq![none]);
        assert(seq![none].drop_last() =~= Seq::empty());
        assert(text::trimmed(none) == none);
        assert(seq![none].last() == none);
        assert(text::filled(none) is None);
        assert(text::all_filled(seq![none].drop_last()) =~= Seq::empty());
        assert(text::all_filled(seq![none]) =~= Seq::empty());
        assert(d.identity_files =~= Seq::empty());
    } else {
        text::lemma_joined_splits(d.identity_files, '\n');
        text::lemma_all_filled(d.identity_files);
    }
}

fn same_as(s: &Option<String>, what: &str) -> (r: bool)
    ensures
        r == (text::optional(*s) == Some(what@)),
{
    match s {
        Some(t) => text::same(t, what),
        None => false,
    }
}

impl HostDialog {
    /// A new host in a folder's file.
    pub fn new_host(file: String, folder: &str) -> (r: HostDialog)
        ensures
            r.fields() == fields_for(no_draft()),
            r.title@ == message::said("host-new-title"@).text("folder"@, folder@),
            text::optional(r.file) == Some(file@),
            r.alias is None && r.error is None && r.folder_credential is None && r.sets@.len() == 0,
            r.folder_persistent is None && r.folder_color is None && r.folder_scheme is None && r.new_set is None,
    {
        let d = HostDraft {
            label: String::new(),
            hostname: String::new(),
            user: None,
            port: None,
            proxy_jump: None,
            identity_files: Vec::new(),
            note: None,
            on_login: None,
            persistent: None,
            tab_color: None,
            color_scheme: None,
            credential: None,
        };
        proof {
            assert(d@.label =~= Seq::empty());
            assert(d@.hostname =~= Seq::empty());
            assert(d@.identity_files =~= Seq::empty());
        }
        HostDialog::new_host_from(file, folder, &d)
    }

    /// A new host, filled in (saving a quick connect).
    pub fn new_host_from(file: String, folder: &str, draft: &HostDraft) -> (r: HostDialog)
        ensures
            r.fields() == fields_for(draft@),
            r.title@ == message::said("host-new-title"@).text("folder"@, folder@),
            text::optional(r.file) == Some(file@),
            r.alias is None && r.error is None && r.folder_credential is None && r.sets@.len() == 0,
            r.folder_persistent is None && r.folder_color is None && r.folder_scheme is None && r.new_set is None,
    {
        HostDialog::from_draft(Message::new("host-new-title").text("folder", folder), None, Some(file), draft)
    }

    /// An existing host.
    pub fn edit(alias: &str, draft: &HostDraft) -> (r: HostDialog)
        ensures
            r.fields() == fields_for(draft@),
            r.title@ == message::said("host-edit-title"@).text("alias"@, alias@),
            text::optional(r.alias) == Some(alias@),
            r.file is None && r.error is None && r.folder_credential is None && r.sets@.len() == 0,
            r.folder_persistent is None && r.folder_color is None && r.folder_scheme is None && r.new_set is None,
    {
        HostDialog::from_draft(
            Message::new("host-edit-title").text("alias", alias),
            Some(text::owned(alias)),
            None,
            draft,
        )
    }

    fn from_draft(title: Message, alias: Option<String>, file: Option<String>, d: &HostDraft) -> (r: HostDialog)
        ensures
            r.fields() == fields_for(d@),
            r.title == title && r.alias == alias && r.file == file,
            r.error is None && r.folder_credential is None && r.sets@.len() == 0,
            r.folder_persistent is None && r.folder_color is None && r.folder_scheme is None && r.new_set is None,
    {
        let port = match d.port {
            Some(p) => text::string_of(&text::decimal_chars(p as u128)),
            None => {
                let none = String::new();
                proof {
                    assert(none@ =~= Seq::empty());
                }
                none
            },
        };
        HostDialog {
            title,
            alias,
            file,
            label: d.label.clone(),
            hostname: d.hostname.clone(),
            user: text_or_empty(&d.user),
            port,
            proxy_jump: text_or_empty(&d.proxy_jump),
            identity_files: text::join_by(&d.identity_files, "\n"),
            note: text_or_empty(&d.note),
            on_login: text_or_empty(&d.on_login),
            persistent: text::optional_copy(&d.persistent),
            folder_persistent: None,
            tab_color: text::optional_copy(&d.tab_color),
            color_scheme: text::optional_copy(&d.color_scheme),
            folder_color: None,
            folder_scheme: None,
            credential: text::optional_copy(&d.credential),
            new_set: None,
            folder_credential: None,
            sets: Vec::new(),
            error: None,
        }
    }

    /// With the folder's credential set and the sets there are, for the
    /// choice. `valid` is whether the folder's can be a set's name.
    pub fn with_credentials(self, folder: Option<String>, valid: bool, sets: Vec<String>) -> (r: HostDialog)
        ensures
            r == (HostDialog {
                folder_credential: if valid {
                    folder
                } else {
                    None
                },
                sets,
                ..self
            }),
    {
        let mut r = self;
        r.folder_credential = if valid {
            folder
        } else {
            None
        };
        r.sets = sets;
        r
    }

    /// With the folder's tab color and color scheme, for "as the folder (…)".
    pub fn with_folder_look(self, tab_color: Option<String>, color_scheme: Option<String>) -> (r: HostDialog)
        ensures
            r == (HostDialog { folder_color: tab_color, folder_scheme: color_scheme, ..self }),
    {
        let mut r = self;
        r.folder_color = tab_color;
        r.folder_scheme = color_scheme;
        r
    }

    /// With the folder's default, for "as the folder (…)".
    pub fn with_folder_default(self, value: Option<String>) -> (r: HostDialog)
        ensures
            r == (HostDialog { folder_persistent: value, ..self }),
    {
        let mut r = self;
        r.folder_persistent = value;
        r
    }

    /// The set that the host asks for itself: the new one being typed, or
    /// its own.
    pub open spec fn own_set(self) -> Option<Seq<char>> {
        match self.new_set {
            Some(name) => Some(text::trimmed(name@)),
            None => match self.credential {
                Some(own) => if text::same_but_case(own@, "none"@) {
                    None
                } else {
                    Some(own@)
                },
                None => None,
            },
        }
    }

    /// The set that the host asks for itself.
    pub fn asked_set(&self) -> (r: Option<String>)
        ensures
            text::optional(r) == self.own_set(),
    {
        match &self.new_set {
            Some(name) => Some(text::string_of(&text::trim(&text::chars_of(name)))),
            None => match &self.credential {
                Some(own) => {
                    let none = text::chars_of("none");
                    if text::same_ignoring_case(&text::chars_of(own), &none) {
                        None
                    } else {
                        Some(own.clone())
                    }
                },
                None => None,
            },
        }
    }

    /// The set the host would use as the dialog stands. `valid` is whether
    /// the one it asks for itself can be a set's name.
    pub fn chosen_set(&self, valid: bool) -> (r: Option<String>)
        ensures
            text::optional(r) == (if self.new_set is None && self.credential is None {
                text::optional(self.folder_credential)
            } else if valid {
                self.own_set()
            } else {
                None
            }),
    {
        if self.new_set.is_none() && self.credential.is_none() {
            return text::optional_copy(&self.folder_credential);
        }
        if valid {
            self.asked_set()
        } else {
            None
        }
    }

    /// Whether there is enough to save.
    pub fn ready(&self) -> (r: bool)
        ensures
            r == (text::trimmed(self.hostname@).len() > 0),
    {
        !text::is_blank(&self.hostname)
    }

    /// What the fields come to. `valid` is whether the new set's name,
    /// without the white space around it, can be one.
    pub fn draft(&self, valid: bool) -> (r: Result<HostDraft, Message>)
        ensures
            drafted(r) == draft_of(self.fields(), valid),
    {
        let port = match read_port(&self.port) {
            Ok(p) => p,
            Err(m) => {
                return Err(m);
            },
        };
        if self.new_set.is_some() && !valid {
            return Err(Message::new("cred-sets-bad-name"));
        }
        let hostname = text::string_of(&text::trim(&text::chars_of(&self.hostname)));
        let label = match text::fill(&self.label) {
            Some(label) => label,
            None => hostname.clone(),
        };
        let tab_color = if same_as(&self.tab_color, "#") {
            None
        } else {
            text::optional_copy(&self.tab_color)
        };
        let color_scheme = match &self.color_scheme {
            Some(s) => if text::is_blank(s) {
                None
            } else {
                Some(s.clone())
            },
            None => None,
        };
        let credential = match &self.new_set {
            Some(name) => Some(text::string_of(&text::trim(&text::chars_of(name)))),
            None => text::optional_copy(&self.credential),
        };
        Ok(
            HostDraft {
                label,
                hostname,
                user: text::fill(&self.user),
                port,
                proxy_jump: text::fill(&self.proxy_jump),
                identity_files: text::fill_all(&self.identity_files, '\n'),
                note: text::fill(&self.note),
                on_login: text::fill(&self.on_login),
                persistent: text::optional_copy(&self.persistent),
                tab_color,
                color_scheme,
                credential,
            },
        )
    }

    /// "Save" was chosen: what the fields come to, or the error to show.
    pub fn submit(&mut self, valid: bool) -> (r: Outcome<HostDraft>)
        ensures
            match draft_of(old(self).fields(), valid) {
                Ok(d) => r matches Outcome::Submit(x) && x@ == d && *final(self) == *old(self),
                Err(m) => {
                    &&& r is Open
                    &&& final(self).error matches Some(e) && e@ == m
                    &&& *final(self) == (HostDialog { error: final(self).error, ..*old(self) })
                },
            },
    {
        match self.draft(valid) {
            Ok(d) => Outcome::Submit(d),
            Err(m) => {
                self.error = Some(m);
                Outcome::Open
            },
        }
    }
}

/// A draft with nothing in it.
pub open spec fn no_draft() -> DraftView {
    DraftView {
        label: Seq::empty(),
        hostname: Seq::empty(),
        user: None,
        port: None,
        proxy_jump: None,
        identity_files: Seq::empty(),
        note: None,
        on_login: None,
        persistent: None,
        tab_color: None,
        color_scheme: None,
        credential: None,
    }
}

/// A saved password, as far as it is known.
#[derive(Clone, Copy, Debug, PartialEq, Eq, Structural)]
pub enum PasswordState {
    Missing,
    Saved,
    Refused,
}

/// Whose password it is.
#[derive(Clone, Debug, PartialEq, Eq)]
pub struct Target {
    /// The entry it is kept in.
    pub name: String,
    pub user: String,
    pub host: String,
    /// The credential set it belongs to, if it is one's.
    pub set: Option<String>,
}

/// The optional saved password of the host's account, kept elsewhere.
#[derive(Clone, Debug, PartialEq, Eq)]
pub struct PasswordField {
    pub target: Target,
    pub state: PasswordState,
    pub typed: String,
    pub message: Option<Notice>,
}

/// What is known of a password, by the comment kept with it.
pub open spec fn state_for(comment: Option<Seq<char>>, refused: Seq<char>) -> PasswordState {
    match comment {
        Some(c) => if c == refused {
            PasswordState::Refused
        } else {
            PasswordState::Saved
        },
        None => PasswordState::Missing,
    }
}

/// The title over the password field.
pub open spec fn password_title(set: Option<Seq<char>>) -> MessageView {
    match set {
        Some(s) => message::said("password-title-set"@).text("set"@, s),
        None => message::said("password-title"@),
    }
}

/// What is said of the password.
pub open spec fn password_text(state: PasswordState, set: bool, entry: Seq<char>) -> MessageView {
    match (state, set) {
        (PasswordState::Missing, true) => message::said("password-none-set"@),
        (PasswordState::Missing, false) => message::said("password-none"@),
        (PasswordState::Saved, true) => message::said("password-saved-set"@),
        (PasswordState::Saved, false) => message::said("password-saved"@).text("target"@, entry),
        (PasswordState::Refused, true) => message::said("password-refused-set"@),
        (PasswordState::Refused, false) => message::said("password-refused"@),
    }
}

/// Whose password the field is for once `set` is chosen: nobody's that is
/// not shown already. `entry` is the name under which that set's password is
/// kept.
pub fn follow_set(account: &Target, shown: &Option<PasswordField>, set: Option<String>, entry: &str) -> (r: Option<
    Target,
>)
    ensures
        match *shown {
            Some(p) if text::optional(p.target.set) == text::optional(set) => r is None,
            _ => r matches Some(t) && {
                &&& t.user@ == account.user@
                &&& t.host@ == account.host@
                &&& if set is Some {
                    t.name@ == entry@ && text::optional(t.set) == text::optional(set)
                } else {
                    t.name@ == account.name@ && text::optional(t.set) == text::optional(account.set)
                }
            },
        },
{
    let same = match shown {
        Some(p) => match (&p.target.set, &set) {
            (Some(a), Some(b)) => text::same(a, b),
            (None, None) => true,
            _ => false,
        },
        None => false,
    };
    if same {
        return None;
    }
    let (name, set) = match set {
        Some(s) => (text::owned(entry), Some(s)),
        None => (text::owned(&account.name), text::optional_copy(&account.set)),
    };
    Some(Target { name, user: text::owned(&account.user), host: text::owned(&account.host), set })
}

impl PasswordField {
    /// The field for an account. `comment` is what is kept with a saved
    /// password, `refused` the mark of one that was refused.
    pub fn new(target: Target, comment: Option<String>, refused: &str) -> (r: PasswordField)
        ensures
            r.target == target,
            r.state == state_for(text::optional(comment), refused@),
            r.typed@ == Seq::<char>::empty(),
            r.message is None,
    {
        let state = match &comment {
            Some(c) => if text::same(c, refused) {
                PasswordState::Refused
            } else {
                PasswordState::Saved
            },
            None => PasswordState::Missing,
        };
        let typed = String::new();
        proof {
            assert(typed@ =~= Seq::empty());
        }
        PasswordField { target, state, typed, message: None }
    }

    /// The title over the field.
    pub fn title(&self) -> (r: Message)
        ensures
            r@ == password_title(text::optional(self.target.set)),
    {
        match &self.target.set {
            Some(s) => Message::new("password-title-set").text("set", s),
            None => Message::new("password-title"),
        }
    }

    /// What is said of the password, and whether in red.
    pub fn status(&self) -> (r: (Message, bool))
        ensures
            r.0@ == password_text(self.state, self.target.set is Some, self.target.name@),
            r.1 == (self.state is Refused),
    {
        let said = match (self.state, self.target.set.is_some()) {
            (PasswordState::Missing, true) => Message::new("password-none-set"),
            (PasswordState::Missing, false) => Message::new("password-none"),
            (PasswordState::Saved, true) => Message::new("password-saved-set"),
            (PasswordState::Saved, false) => Message::new("password-saved").text("target", &self.target.name),
            (PasswordState::Refused, true) => Message::new("password-refused-set"),
            (PasswordState::Refused, false) => Message::new("password-refused"),
        };
        (said, self.state == PasswordState::Refused)
    }

    /// What the empty field shows.
    pub fn hint(&self) -> (r: Message)
        ensures
            r@ == (match self.target.set {
                Some(_) => message::said("password-hint-set"@),
                None => message::said("password-hint"@).text("account"@, self.target.user@ + "@"@ + self.target.host@),
            }),
    {
        match &self.target.set {
            Some(_) => Message::new("password-hint-set"),
            None => {
                let account = text::plus(&self.target.user, "@");
                let account = text::plus(&account, &self.target.host);
                Message::new("password-hint").text("account", &account)
            },
        }
    }

    /// Whether "Save" can be chosen.
    pub fn can_save(&self) -> (r: bool)
        ensures
            r == (self.typed@.len() > 0),
    {
        !self.typed.as_str().is_empty()
    }

    /// Whether "Remove" is offered: a set is removed where all its hosts are
    /// seen.
    pub fn can_remove(&self) -> (r: bool)
        ensures
            r == (self.target.set is None && self.state !is Missing),
    {
        self.target.set.is_none() && self.state != PasswordState::Missing
    }

    /// "Save": the user and the secret to store under the target's name; the
    /// field forgets what was typed. A set's password isn't one account's.
    pub fn take(&mut self) -> (r: (String, String))
        ensures
            r.0@ == (if old(self).target.set is Some {
                Seq::empty()
            } else {
                old(self).target.user@
            }),
            r.1 == old(self).typed,
            final(self).typed@.len() == 0,
            *final(self) == (PasswordField { typed: final(self).typed, ..*old(self) }),
    {
        let user = if self.target.set.is_some() {
            let none = String::new();
            proof {
                assert(none@ =~= Seq::empty());
            }
            none
        } else {
            self.target.user.clone()
        };
        let mut secret = String::new();
        std::mem::swap(&mut secret, &mut self.typed);
        (user, secret)
    }

    /// The password was stored, or was not and why.
    pub fn stored(&mut self, error: Option<String>)
        ensures
            final(self).target == old(self).target,
            final(self).typed == old(self).typed,
            match error {
                None => final(self).state is Saved && message::noticed(final(self).message) == Some(
                    NoticeView::Said(message::said("password-stored"@)),
                ),
                Some(why) => final(self).state == old(self).state && message::noticed(final(self).message) == Some(
                    NoticeView::Plain(why@),
                ),
            },
    {
        match error {
            None => {
                self.state = PasswordState::Saved;
                self.message = Some(Notice::Said(Message::new("password-stored")));
            },
            Some(why) => {
                self.message = Some(Notice::Plain(why));
            },
        }
    }

    /// The password was removed, or was not and why.
    pub fn removed(&mut self, error: Option<String>)
        ensures
            final(self).target == old(self).target,
            final(self).typed == old(self).typed,
            match error {
                None => final(self).state is Missing && message::noticed(final(self).message) == Some(
                    NoticeView::Said(message::said("password-removed"@)),
                ),
                Some(why) => final(self).state == old(self).state && message::noticed(final(self).message) == Some(
                    NoticeView::Plain(why@),
                ),
            },
    {
        match error {
            None => {
                self.state = PasswordState::Missing;
                self.message = Some(Notice::Said(Message::new("password-removed")));
            },
            Some(why) => {
                self.message = Some(Notice::Plain(why));
            },
        }
    }
}

/// Keeping a session on the server, in words. `logged` is whether the value
/// asks for a log as well.
pub open spec fn persistent_words(value: Option<Seq<char>>, logged: bool) -> NoticeView {
    if value is Some && logged {
        NoticeView::Said(message::said("persistent-tmux-log"@))
    } else if value matches Some(v) && text::same_but_case(v, "tmux"@) {
        NoticeView::Plain("tmux"@)
    } else if value matches Some(v) && text::same_but_case(v, "screen"@) {
        NoticeView::Plain("screen"@)
    } else {
        NoticeView::Said(message::said("persistent-off"@))
    }
}

/// Keeping a session on the server, in words. `logged` is whether the value
/// asks for a log as well.
pub fn persistent_text(value: &Option<String>, logged: bool) -> (r: Notice)
    ensures
        r@ == persistent_words(text::optional(*value), logged),
{
    match value {
        None => Notice::Said(Message::new("persistent-off")),
        Some(v) => {
            let v = text::chars_of(v);
            if logged {
                Notice::Said(Message::new("persistent-tmux-log"))
            } else if text::same_ignoring_case(&v, &text::chars_of("tmux")) {
                Notice::Plain(text::owned("tmux"))
            } else if text::same_ignoring_case(&v, &text::chars_of("screen")) {
                Notice::Plain(text::owned("screen"))
            } else {
                Notice::Said(Message::new("persistent-off"))
            }
        },
    }
}

/// A value to choose, and its words.
pub struct Offer {
    pub value: Option<String>,
    pub text: Notice,
}

/// A value to choose, and its words.
pub open spec fn offer_view(o: Offer) -> (Option<Seq<char>>, NoticeView) {
    (text::optional(o.value), o.text@)
}

/// Values to choose, and their words.
pub open spec fn offers(v: Seq<Offer>) -> Seq<(Option<Seq<char>>, NoticeView)> {
    v.map_values(|o: Offer| offer_view(o))
}

/// The choices for keeping a session on the server: as the folder (whose
/// words are `folder`), tmux, tmux with a log (kept as `tmux_log`), screen,
/// or not.
pub open spec fn persistence(folder: Seq<char>, tmux_log: Seq<char>) -> Seq<(Option<Seq<char>>, NoticeView)> {
    seq![
        (None, NoticeView::Said(message::said("persistent-folder"@).text("value"@, folder))),
        (Some("tmux"@), NoticeView::Plain("tmux"@)),
        (Some(tmux_log), NoticeView::Said(message::said("persistent-tmux-log"@))),
        (Some("screen"@), NoticeView::Plain("screen"@)),
        (Some("off"@), NoticeView::Said(message::said("persistent-off"@))),
    ]
}

/// The choices for keeping a session on the server.
pub fn persistent_choices(folder: &str, tmux_log: &str) -> (r: Vec<Offer>)
    ensures
        offers(r@) == persistence(folder@, tmux_log@),
{
    let mut r: Vec<Offer> = Vec::new();
    r.push(Offer { value: None, text: Notice::Said(Message::new("persistent-folder").text("value", folder)) });
    r.push(Offer { value: Some(text::owned("tmux")), text: Notice::Plain(text::owned("tmux")) });
    r.push(Offer { value: Some(text::owned(tmux_log)), text: Notice::Said(Message::new("persistent-tmux-log")) });
    r.push(Offer { value: Some(text::owned("screen")), text: Notice::Plain(text::owned("screen")) });
    r.push(Offer { value: Some(text::owned("off")), text: Notice::Said(Message::new("persistent-off")) });
    proof {
        assert(offers(r@) =~= persistence(folder@, tmux_log@));
    }
    r
}

/// The choices of a credential set: as the folder (in the words `folder`),
/// none, or one of the sets.
pub open spec fn credential_offers(folder: Seq<char>, sets: Seq<Seq<char>>) -> Seq<(Option<Seq<char>>, NoticeView)> {
    seq![
        (None, NoticeView::Said(message::said("credential-folder"@).text("value"@, folder))),
        (Some("none"@), NoticeView::Said(message::said("credential-none"@))),
    ] + sets.map_values(|s: Seq<char>| (Some(s), NoticeView::Plain(s)))
}

/// What the choice of a credential set shows as chosen.
pub open spec fn credential_shown(
    new_set: bool,
    credential: Option<Seq<char>>,
    folder: Seq<char>,
) -> NoticeView {
    if new_set {
        NoticeView::Said(message::said("credential-new"@))
    } else {
        match credential {
            None => NoticeView::Said(message::said("credential-folder"@).text("value"@, folder)),
            Some(v) => if text::same_but_case(v, "none"@) {
                NoticeView::Said(message::said("credential-none"@))
            } else {
                NoticeView::Plain(v)
            },
        }
    }
}

impl HostDialog {
    /// The choices of a credential set besides a new one; `folder` is what
    /// the folder's says.
    pub fn credential_choices(&self, folder: &str) -> (r: Vec<Offer>)
        ensures
            offers(r@) == credential_offers(folder@, text::texts(self.sets@)),
    {
        let ghost sets = text::texts(self.sets@);
        let mut r: Vec<Offer> = Vec::new();
        r.push(Offer { value: None, text: Notice::Said(Message::new("credential-folder").text("value", folder)) });
        r.push(Offer { value: Some(text::owned("none")), text: Notice::Said(Message::new("credential-none")) });
        let mut i: usize = 0;
        proof {
            assert(offers(r@) =~= credential_offers(folder@, sets.take(0)));
        }
        while i < self.sets.len()
            invariant
                i <= self.sets@.len(),
                sets == text::texts(self.sets@),
                offers(r@) == credential_offers(folder@, sets.take(i as int)),
            decreases self.sets@.len() - i,
        {
            let ghost before = r@;
            let set = &self.sets[i];
            let o = Offer { value: Some(text::owned(set)), text: Notice::Plain(text::owned(set)) };
            r.push(o);
            proof {
                assert(offers(r@) =~= offers(before).push(offer_view(o)));
                assert(credential_offers(folder@, sets.take(i + 1)) =~= credential_offers(
                    folder@,
                    sets.take(i as int),
                ).push((Some(sets[i as int]), NoticeView::Plain(sets[i as int]))));
            }
            i += 1;
        }
        proof {
            assert(sets.take(i as int) =~= sets);
        }
        r
    }

    /// What the choice of a credential set shows as chosen.
    pub fn credential_choice(&self, folder: &str) -> (r: Notice)
        ensures
            r@ == credential_shown(self.new_set is Some, text::optional(self.credential), folder@),
    {
        if self.new_set.is_some() {
            return Notice::Said(Message::new("credential-new"));
        }
        match &self.credential {
            None => Notice::Said(Message::new("credential-folder").text("value", folder)),
            Some(v) => if text::same_ignoring_case(&text::chars_of(v), &text::chars_of("none")) {
                Notice::Said(Message::new("credential-none"))
            } else {
                Notice::Plain(v.clone())
            },
        }
    }

    /// A choice was picked: it is no new set then.
    pub fn pick_credential(&mut self, value: Option<String>)
        ensures
            *final(self) == (HostDialog { credential: value, new_set: None, ..*old(self) }),
    {
        self.credential = value;
        self.new_set = None;
    }

    /// A new set was picked, to be named.
    pub fn pick_new_set(&mut self)
        ensures
            final(self).new_set matches Some(name) && name@.len() == 0,
            *final(self) == (HostDialog { new_set: final(self).new_set, ..*old(self) }),
    {
        self.new_set = Some(String::new());
    }
}

/// A colour's name in words, by the name of the preset.
pub open spec fn color_words(preset: Seq<char>) -> MessageView {
    if preset == "red"@ {
        message::said("color-red"@)
    } else if preset == "orange"@ {
        message::said("color-orange"@)
    } else if preset == "yellow"@ {
        message::said("color-yellow"@)
    } else if preset == "green"@ {
        message::said("color-green"@)
    } else if preset == "blue"@ {
        message::said("color-blue"@)
    } else {
        message::said("color-purple"@)
    }
}

fn color_name(preset: &str) -> (r: Message)
    ensures
        r@ == color_words(preset@),
{
    if text::same(preset, "red") {
        Message::new("color-red")
    } else if text::same(preset, "orange") {
        Message::new("color-orange")
    } else if text::same(preset, "yellow") {
        Message::new("color-yellow")
    } else if text::same(preset, "green") {
        Message::new("color-green")
    } else if text::same(preset, "blue") {
        Message::new("color-blue")
    } else {
        Message::new("color-purple")
    }
}

/// A colour as it is shown: the name of the preset it is, whatever its case,
/// or the value as it stands.
pub open spec fn shown_color(value: Seq<char>, presets: Seq<Seq<char>>) -> NoticeView
    decreases presets.len(),
{
    if presets.len() == 0 {
        NoticeView::Plain(value)
    } else if text::same_but_case(presets.first(), value) {
        NoticeView::Said(color_words(presets.first()))
    } else {
        shown_color(value, presets.skip(1))
    }
}

/// A colour in words; `presets` are the names that there are.
pub fn color_text(value: &str, presets: &[String]) -> (r: Notice)
    ensures
        r@ == shown_color(value@, text::texts(presets@)),
{
    let typed = text::chars_of(value);
    let ghost all = text::texts(presets@);
    let mut i: usize = 0;
    proof {
        assert(all.skip(0) =~= all);
    }
    while i < presets.len()
        invariant
            i <= presets@.len(),
            typed@ == value@,
            all == text::texts(presets@),
            shown_color(value@, all) == shown_color(value@, all.skip(i as int)),
        decreases presets@.len() - i,
    {
        proof {
            assert(all.skip(i as int).first() == presets@[i as int]@);
            assert(all.skip(i as int).skip(1) =~= all.skip(i + 1));
        }
        if text::same_ignoring_case(&text::chars_of(&presets[i]), &typed) {
            return Notice::Said(color_name(&presets[i]));
        }
        i += 1;
    }
    proof {
        assert(all.skip(i as int).len() == 0);
    }
    Notice::Plain(text::owned(value))
}

/// A colour that is typed in: it starts with `#`.
pub fn is_custom(value: &Option<String>) -> (r: bool)
    ensures
        r == (value matches Some(v) && v@.len() > 0 && v@[0] == '#'),
{
    match value {
        Some(v) => {
            let chars = text::chars_of(v);
            chars.len() > 0 && chars[0] == '#'
        },
        None => false,
    }
}

/// A choice of one of several values or the folder's.
#[derive(Clone, Debug, PartialEq, Eq)]
pub enum Chosen {
    /// As the folder.
    Folder,
    /// None at all.
    Nothing,
    /// A colour that is typed in.
    Custom,
    /// A value by its name.
    Named(String),
}

/// A choice of one of several values or the folder's.
pub enum ChosenView {
    Folder,
    Nothing,
    Custom,
    Named(Seq<char>),
}

impl View for Chosen {
    type V = ChosenView;

    open spec fn view(&self) -> ChosenView {
        match *self {
            Chosen::Folder => ChosenView::Folder,
            Chosen::Nothing => ChosenView::Nothing,
            Chosen::Custom => ChosenView::Custom,
            Chosen::Named(n) => ChosenView::Named(n@),
        }
    }
}

/// What is chosen by a stored value; `custom` is whether a value can be
/// typed in.
pub open spec fn chosen_by(value: Option<Seq<char>>, custom: bool) -> ChosenView {
    match value {
        None => ChosenView::Folder,
        Some(v) => if v == "none"@ {
            ChosenView::Nothing
        } else if custom && v.len() > 0 && v[0] == '#' {
            ChosenView::Custom
        } else {
            ChosenView::Named(v)
        },
    }
}

/// The tab color that is chosen.
pub fn tab_color_choice(value: &Option<String>) -> (r: Chosen)
    ensures
        r@ == chosen_by(text::optional(*value), true),
{
    match value {
        None => Chosen::Folder,
        Some(v) => if text::same(v, "none") {
            Chosen::Nothing
        } else if is_custom(value) {
            Chosen::Custom
        } else {
            Chosen::Named(v.clone())
        },
    }
}

/// The color scheme that is chosen.
pub fn color_scheme_choice(value: &Option<String>) -> (r: Chosen)
    ensures
        r@ == chosen_by(text::optional(*value), false),
{
    match value {
        None => Chosen::Folder,
        Some(v) => if text::same(v, "none") {
            Chosen::Nothing
        } else {
            Chosen::Named(v.clone())
        },
    }
}

/// A folder name (new folder, or rename).
#[derive(Clone, Debug, PartialEq, Eq)]
pub struct FolderDialog {
    pub title: Message,
    /// The file when renaming.
    pub file: Option<String>,
    pub name: String,
    pub error: Option<String>,
}

impl FolderDialog {
    /// A new folder.
    pub fn new_folder() -> (r: FolderDialog)
        ensures
            r.title@ == message::said("folder-new-title"@),
            r.file is None && r.error is None,
            r.name@.len() == 0,
    {
        FolderDialog { title: Message::new("folder-new-title"), file: None, name: String::new(), error: None }
    }

    /// A new name for a folder.
    pub fn rename(file: String, current: &str) -> (r: FolderDialog)
        ensures
            r.title@ == message::said("folder-rename-title"@).text("name"@, current@),
            text::optional(r.file) == Some(file@),
            r.name@ == current@,
            r.error is None,
    {
        FolderDialog {
            title: Message::new("folder-rename-title").text("name", current),
            file: Some(file),
            name: text::owned(current),
            error: None,
        }
    }

    /// What "Save" (or Enter) comes to: the name without the white space
    /// around it, nothing while there is none.
    pub fn submit(&self) -> (r: Outcome<String>)
        ensures
            match text::filled(self.name@) {
                Some(name) => r matches Outcome::Submit(n) && n@ == name,
                None => r is Open,
            },
    {
        match text::fill(&self.name) {
            Some(name) => Outcome::Submit(name),
            None => Outcome::Open,
        }
    }
}

/// A batch close that would close tabs holding other panes as well.
#[derive(Clone, Debug, PartialEq, Eq)]
pub struct ConfirmCloseMixed {
    pub ids: Vec<String>,
    /// (label, its tab holds other panes)
    pub sessions: Vec<(String, bool)>,
}

/// How many sessions share their tab.
pub open spec fn mixed_count(sessions: Seq<(String, bool)>) -> nat
    decreases sessions.len(),
{
    if sessions.len() == 0 {
        0
    } else {
        mixed_count(sessions.drop_last()) + (if sessions.last().1 {
            1nat
        } else {
            0nat
        })
    }
}

impl ConfirmCloseMixed {
    /// The question about these sessions.
    pub fn new(ids: Vec<String>, sessions: Vec<(String, bool)>) -> (r: ConfirmCloseMixed)
        ensures
            r.ids == ids,
            r.sessions == sessions,
    {
        ConfirmCloseMixed { ids, sessions }
    }

    /// What would be closed.
    pub fn question(&self) -> (r: Message)
        ensures
            r@ == message::said("close-mixed-what"@).number("count"@, self.sessions@.len() as int).number(
                "mixed"@,
                mixed_count(self.sessions@) as int,
            ),
    {
        let mut mixed: usize = 0;
        let mut i: usize = 0;
        while i < self.sessions.len()
            invariant
                i <= self.sessions@.len(),
                mixed <= i,
                mixed == mixed_count(self.sessions@.take(i as int)),
            decreases self.sessions@.len() - i,
        {
            proof {
                assert(self.sessions@.take(i + 1).drop_last() =~= self.sessions@.take(i as int));
                assert(self.sessions@.take(i + 1).last() == self.sessions@[i as int]);
            }
            if self.sessions[i].1 {
                mixed += 1;
            }
            i += 1;
        }
        proof {
            assert(self.sessions@.take(i as int) =~= self.sessions@);
        }
        Message::new("close-mixed-what").number("count", self.sessions.len() as i128).number("mixed", mixed as i128)
    }
}

/// What the person chose for dropped files.
#[derive(Clone, Copy, Debug, PartialEq, Eq, Structural)]
pub enum DropChoice {
    Upload,
    Text,
}

/// What to do with files dropped into a tab: Terminal pasted their names
/// and the client held the text back.
#[derive(Clone, Debug, PartialEq, Eq)]
pub struct DropDialog {
    pub alias: String,
    pub session: String,
    pub label: String,
    pub paths: Vec<String>,
    /// The text Terminal pasted, sent to the session when that is chosen.
    pub text: String,
    /// The answer is remembered and this dialog skipped from then on.
    pub remember: bool,
    /// The session's files are on a server that can be reached over SFTP.
    pub can_upload: bool,
}

impl DropDialog {
    /// What a button comes to: an upload only where the files can be
    /// reached.
    pub fn submit(&self, choice: DropChoice) -> (r: Outcome<(DropChoice, bool)>)
        ensures
            r == (if choice is Upload && !self.can_upload {
                Outcome::Open
            } else {
                Outcome::Submit((choice, self.remember))
            }),
    {
        if choice == DropChoice::Upload && !self.can_upload {
            Outcome::Open
        } else {
            Outcome::Submit((choice, self.remember))
        }
    }
}

/// The sum of sizes.
pub open spec fn total(sizes: Seq<u64>) -> nat
    decreases sizes.len(),
{
    if sizes.len() == 0 {
        0
    } else {
        total(sizes.drop_last()) + sizes.last() as nat
    }
}

proof fn lemma_total(sizes: Seq<u64>, i: int)
    requires
        0 <= i <= sizes.len(),
    ensures
        total(sizes.take(i)) <= total(sizes),
    decreases sizes.len() - i,
{
    if i < sizes.len() {
        lemma_total(sizes, i + 1);
        assert(sizes.take(i + 1).drop_last() =~= sizes.take(i));
    } else {
        assert(sizes.take(i) =~= sizes);
    }
}

/// How large files are together.
pub fn total_size(sizes: &[u64]) -> (r: u64)
    requires
        total(sizes@) <= u64::MAX,
    ensures
        r == total(sizes@),
{
    let mut sum: u64 = 0;
    let mut i: usize = 0;
    while i < sizes.len()
        invariant
            i <= sizes@.len(),
            total(sizes@) <= u64::MAX,
            sum == total(sizes@.take(i as int)),
        decreases sizes@.len() - i,
    {
        proof {
            assert(sizes@.take(i + 1).drop_last() =~= sizes@.take(i as int));
            assert(sizes@.take(i + 1).last() == sizes@[i as int]);
            lemma_total(sizes@, i + 1);
        }
        sum = sum + sizes[i];
        i += 1;
    }
    proof {
        assert(sizes@.take(i as int) =~= sizes@);
    }
    sum
}

/// "Really forget the host's keys?"
#[derive(Clone, Debug, PartialEq, Eq)]
pub struct ConfirmForget {
    pub alias: String,
    pub names: Vec<String>,
    pub error: Option<String>,
}

impl ConfirmForget {
    /// The question for a host and the names its keys are kept under.
    pub fn new(alias: &str, names: Vec<String>) -> (r: ConfirmForget)
        ensures
            r.alias@ == alias@,
            r.names == names,
            r.error is None,
    {
        ConfirmForget { alias: text::owned(alias), names, error: None }
    }

    /// What is asked.
    pub fn question(&self) -> (r: Message)
        ensures
            r@ == message::said("forget-question"@).text("alias"@, self.alias@),
    {
        Message::new("forget-question").text("alias", &self.alias)
    }
}

/// "Really delete?"
#[derive(Clone, Debug, PartialEq, Eq)]
pub struct ConfirmDelete {
    pub alias: String,
    pub label: String,
    pub error: Option<String>,
}

impl ConfirmDelete {
    /// The question for a host.
    pub fn new(alias: &str, label: &str) -> (r: ConfirmDelete)
        ensures
            r.alias@ == alias@,
            r.label@ == label@,
            r.error is None,
    {
        ConfirmDelete { alias: text::owned(alias), label: text::owned(label), error: None }
    }

    /// What is asked.
    pub fn question(&self) -> (r: Message)
        ensures
            r@ == message::said("delete-question"@).text("label"@, self.label@).text("alias"@, self.alias@),
    {
        Message::new("delete-question").text("label", &self.label).text("alias", &self.alias)
    }
}

/// What is typed into a host's fields becomes the host: without white space
/// around it, nothing where nothing is left, the label from the host name
/// where there is none, each key file on a line of its own.
pub proof fn law_fields_become_a_host(f: FieldsView, valid: bool)
    requires
        draft_of(f, valid) is Ok,
    ensures
        ({
            let d = draft_of(f, valid)->Ok_0;
            &&& d.hostname == text::trimmed(f.hostname)
            &&& text::trimmed(f.label).len() > 0 ==> d.label == text::trimmed(f.label)
            &&& text::trimmed(f.label).len() == 0 ==> d.label == text::trimmed(f.hostname)
            &&& d.user is Some <==> text::trimmed(f.user).len() > 0
            &&& d.user matches Some(u) ==> u == text::trimmed(f.user)
            &&& d.proxy_jump is Some <==> text::trimmed(f.proxy_jump).len() > 0
            &&& d.proxy_jump matches Some(u) ==> u == text::trimmed(f.proxy_jump)
            &&& d.note is Some <==> text::trimmed(f.note).len() > 0
            &&& d.note matches Some(u) ==> u == text::trimmed(f.note)
            &&& d.on_login is Some <==> text::trimmed(f.on_login).len() > 0
            &&& d.on_login matches Some(u) ==> u == text::trimmed(f.on_login)
            &&& d.identity_files == text::all_filled(text::split_on(f.identity_files, '\n'))
            &&& d.persistent == f.persistent
            &&& f.tab_color == Some("#"@) ==> d.tab_color is None
            &&& f.tab_color != Some("#"@) ==> d.tab_color == f.tab_color
            &&& d.color_scheme is Some ==> d.color_scheme == f.color_scheme
            &&& f.color_scheme matches Some(s) ==> (d.color_scheme is Some <==> text::trimmed(s).len() > 0)
            &&& f.new_set is None ==> d.credential == f.credential
            &&& f.new_set matches Some(n) ==> d.credential == Some(text::trimmed(n))
            &&& text::trimmed(f.port).len() == 0 ==> d.port is None
            &&& text::trimmed(f.port).len() > 0 ==> (d.port matches Some(p) && text::number_of(text::trimmed(f.port)) == Some(p as int))
        }),
{
    text::law_numbers_are_whole(text::trimmed(f.port));
}

/// A host is refused exactly where its port is no number up to 65535, or the
/// name of a new set can't be one; the port is told first.
pub proof fn law_what_hosts_are_refused(f: FieldsView, valid: bool)
    ensures
        ({
            let t = text::trimmed(f.port);
            let bad = t.len() > 0 && (text::number_of(t) is None || text::number_of(t)->0 > 65535);
            &&& bad ==> draft_of(f, valid) == Err::<DraftView, MessageView>(message::said("host-bad-port"@).text("port"@, t))
            &&& !bad && f.new_set is Some && !valid ==> draft_of(f, valid) == Err::<DraftView, MessageView>(
                message::said("cred-sets-bad-name"@),
            )
            &&& !bad && (f.new_set is None || valid) ==> draft_of(f, valid) is Ok
        }),
{
}

/// What a host's fields show.
pub proof fn law_a_host_becomes_fields(d: DraftView)
    ensures
        fields_for(d).label == d.label && fields_for(d).hostname == d.hostname,
        d.user matches Some(u) ==> fields_for(d).user == u,
        d.user is None ==> fields_for(d).user.len() == 0,
        d.port matches Some(p) ==> fields_for(d).port == text::decimal(p as nat),
        d.port is None ==> fields_for(d).port.len() == 0,
        d.proxy_jump matches Some(u) ==> fields_for(d).proxy_jump == u,
        d.note matches Some(u) ==> fields_for(d).note == u,
        d.on_login matches Some(u) ==> fields_for(d).on_login == u,
        fields_for(d).identity_files == text::joined_by(d.identity_files, "\n"@),
        fields_for(d).persistent == d.persistent && fields_for(d).tab_color == d.tab_color && fields_for(d).color_scheme
            == d.color_scheme && fields_for(d).credential == d.credential && fields_for(d).new_set is None,
{
}

/// A new host has nothing filled in.
pub proof fn law_nothing_filled_in()
    ensures
        no_draft().label.len() == 0 && no_draft().hostname.len() == 0 && no_draft().identity_files.len() == 0,
        no_draft().user is None && no_draft().port is None && no_draft().proxy_jump is None && no_draft().note is None
            && no_draft().on_login is None && no_draft().persistent is None && no_draft().tab_color is None
            && no_draft().color_scheme is None && no_draft().credential is None,
{
}

/// The set a host names itself: a new one that is being typed, or the one
/// chosen, unless that is none.
pub proof fn law_own_credential_set(d: HostDialog)
    ensures
        d.new_set matches Some(n) ==> d.own_set() == Some(text::trimmed(n@)),
        d.new_set is None && d.credential is None ==> d.own_set() is None,
        d.new_set is None ==> (d.credential matches Some(c) ==> (d.own_set() is None <==> text::same_but_case(c@, "none"@)) && (
        !text::same_but_case(c@, "none"@) ==> d.own_set() == Some(c@))),
{
}

/// A password is missing, saved or refused, and is spoken of so, for a host
/// or for a set.
pub proof fn law_password_states(comment: Seq<char>, refused: Seq<char>, entry: Seq<char>)
    ensures
        state_for(None, refused) == PasswordState::Missing,
        comment == refused ==> state_for(Some(comment), refused) == PasswordState::Refused,
        comment != refused ==> state_for(Some(comment), refused) == PasswordState::Saved,
        password_text(PasswordState::Missing, false, entry) == message::said("password-none"@),
        password_text(PasswordState::Missing, true, entry) == message::said("password-none-set"@),
        password_text(PasswordState::Saved, false, entry) == message::said("password-saved"@).text("target"@, entry),
        password_text(PasswordState::Saved, true, entry) == message::said("password-saved-set"@),
        password_text(PasswordState::Refused, false, entry) == message::said("password-refused"@),
        password_text(PasswordState::Refused, true, entry) == message::said("password-refused-set"@),
        password_title(None) == message::said("password-title"@),
        password_title(Some(entry)) == message::said("password-title-set"@).text("set"@, entry),
{
}

/// How keeping a session on the server is shown, and which choices there
/// are for it.
pub proof fn law_keeping_sessions(v: Seq<char>, folder: Seq<char>, log: Seq<char>)
    ensures
        persistent_words(None, false) == NoticeView::Said(message::said("persistent-off"@)),
        persistent_words(None, true) == NoticeView::Said(message::said("persistent-off"@)),
        persistent_words(Some(v), true) == NoticeView::Said(message::said("persistent-tmux-log"@)),
        text::same_but_case(v, "tmux"@) ==> persistent_words(Some(v), false) == NoticeView::Plain("tmux"@),
        text::same_but_case(v, "screen"@) && !text::same_but_case(v, "tmux"@) ==> persistent_words(Some(v), false)
            == NoticeView::Plain("screen"@),
        !text::same_but_case(v, "screen"@) && !text::same_but_case(v, "tmux"@) ==> persistent_words(Some(v), false)
            == NoticeView::Said(message::said("persistent-off"@)),
        persistence(folder, log).len() == 5,
        persistence(folder, log)[0].0 is None && persistence(folder, log)[1].0 == Some("tmux"@) && persistence(folder, log)[2].0
            == Some(log) && persistence(folder, log)[3].0 == Some("screen"@) && persistence(folder, log)[4].0 == Some("off"@),
{
}

/// The choices of a credential set: as the folder, none, and every set in
/// order; and how the one chosen is shown.
pub proof fn law_choosing_credentials(folder: Seq<char>, sets: Seq<Seq<char>>, v: Seq<char>)
    ensures
        credential_offers(folder, sets).len() == sets.len() + 2,
        credential_offers(folder, sets)[0].0 is None,
        credential_offers(folder, sets)[1].0 == Some("none"@),
        forall|i: int|
            0 <= i < sets.len() ==> (#[trigger] credential_offers(folder, sets)[i + 2]) == (Some(sets[i]), NoticeView::Plain(sets[i])),
        credential_shown(true, Some(v), folder) == NoticeView::Said(message::said("credential-new"@)),
        credential_shown(true, None, folder) == NoticeView::Said(message::said("credential-new"@)),
        credential_shown(false, None, folder) == NoticeView::Said(message::said("credential-folder"@).text("value"@, folder)),
        text::same_but_case(v, "none"@) ==> credential_shown(false, Some(v), folder) == NoticeView::Said(
            message::said("credential-none"@),
        ),
        !text::same_but_case(v, "none"@) ==> credential_shown(false, Some(v), folder) == NoticeView::Plain(v),
{
}

/// A colour that is a preset, in any case, is shown by its word, any other
/// as it stands.
pub proof fn law_colours_shown(value: Seq<char>, p: Seq<char>, presets: Seq<Seq<char>>)
    ensures
        shown_color(value, Seq::empty()) == NoticeView::Plain(value),
        text::same_but_case(p, value) ==> shown_color(value, seq![p] + presets) == NoticeView::Said(color_words(p)),
        !text::same_but_case(p, value) ==> shown_color(value, seq![p] + presets) == shown_color(value, presets),
        color_words("red"@) == message::said("color-red"@),
        p != "red"@ && p != "orange"@ && p != "yellow"@ && p != "green"@ && p != "blue"@ ==> color_words(p) == message::said(
            "color-purple"@,
        ),
{
    assert((seq![p] + presets).skip(1) =~= presets);
    assert((seq![p] + presets).first() == p);
}

/// What is chosen for a tab's colour or scheme: as the folder, nothing, a
/// colour of one's own, or a name.
pub proof fn law_looks_chosen(v: Seq<char>, custom: bool)
    ensures
        chosen_by(None, custom) is Folder,
        chosen_by(Some("none"@), custom) is Nothing,
        v != "none"@ && v.len() > 0 && v[0] == '#' ==> chosen_by(Some(v), true) is Custom,
        v != "none"@ && (v.len() == 0 || v[0] != '#') ==> chosen_by(Some(v), custom) == ChosenView::Named(v),
        v != "none"@ ==> chosen_by(Some(v), false) == ChosenView::Named(v),
{
}

/// Sizes add up, and tabs that hold other panes are counted.
pub proof fn law_sums(sizes: Seq<u64>, n: u64, sessions: Seq<(String, bool)>, s: (String, bool))
    ensures
        total(Seq::empty()) == 0,
        total(sizes.push(n)) == total(sizes) + n,
        mixed_count(Seq::empty()) == 0,
        mixed_count(sessions.push(s)) == mixed_count(sessions) + (if s.1 {
            1int
        } else {
            0
        }),
{
    assert(sizes.push(n).drop_last() =~= sizes);
    assert(sessions.push(s).drop_last() =~= sessions);
}

/// What the choices for keeping a session and for a credential set are
/// called.
pub proof fn law_what_choices_are_called(folder: Seq<char>, log: Seq<char>, sets: Seq<Seq<char>>)
    ensures
        persistence(folder, log)[0].1 == NoticeView::Said(message::said("persistent-folder"@).text("value"@, folder)),
        persistence(folder, log)[1].1 == NoticeView::Plain("tmux"@),
        persistence(folder, log)[2].1 == NoticeView::Said(message::said("persistent-tmux-log"@)),
        persistence(folder, log)[3].1 == NoticeView::Plain("screen"@),
        persistence(folder, log)[4].1 == NoticeView::Said(message::said("persistent-off"@)),
        credential_offers(folder, sets)[0].1 == NoticeView::Said(message::said("credential-folder"@).text("value"@, folder)),
        credential_offers(folder, sets)[1].1 == NoticeView::Said(message::said("credential-none"@)),
{
}

} // verus!
